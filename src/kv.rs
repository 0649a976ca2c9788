//! The key/value grammar of response bodies.
//!
//! A body is a sequence of lines (split as `str::lines` splits them). The first
//! line echoes the command and is skipped; the body ends at a line reading
//! exactly `ok`. Each line in between is `key: value`, except that some lines
//! pack several `key:value` tokens, which are scanned out one by one.
use vstd::prelude::*;
use crate::error::ProtocolError;
use crate::table::Table;
use crate::text::{
    CharClass, chars_of, find_char, find_from, find_run_end, in_class, lemma_find_from_bounds,
    lemma_run_end_bounds, run_end, string_of, trim_start,
};

verus! {

/// The `key:value` tokens of `s` from index `i` on. Scanning left to right,
/// a maximal run of key characters (ASCII letters and digits, `-`, white
/// space) that is followed by `:`, optional white space, and one or more value
/// characters (neither `:` nor white space) gives a token: the run without its
/// leading white space, and the maximal run of value characters. The scan
/// resumes after the value; where no token starts, it resumes after the run.
pub open spec fn pairs_from(s: Seq<char>, i: int) -> Seq<(Seq<char>, Seq<char>)>
    decreases s.len() - i,
{
    if i < 0 || i >= s.len() {
        Seq::empty()
    } else if !in_class(CharClass::Key, s[i]) {
        pairs_from(s, i + 1)
    } else {
        proof {
            lemma_run_end_bounds(s, i, CharClass::Key);
        }
        let k = run_end(s, i, CharClass::Key);
        if k < s.len() && s[k] == ':' {
            proof {
                lemma_run_end_bounds(s, k + 1, CharClass::Space);
                lemma_run_end_bounds(s, run_end(s, k + 1, CharClass::Space), CharClass::Value);
            }
            let v0 = run_end(s, k + 1, CharClass::Space);
            let v1 = run_end(s, v0, CharClass::Value);
            if v1 > v0 {
                seq![(trim_start(s.subrange(i, k)), s.subrange(v0, v1))] + pairs_from(s, v1)
            } else {
                pairs_from(s, k)
            }
        } else {
            pairs_from(s, k)
        }
    }
}

/// The map that results from inserting `p`'s pairs into `m` in order.
pub open spec fn insert_pairs(m: Map<Seq<char>, Seq<char>>, p: Seq<(Seq<char>, Seq<char>)>) -> Map<
    Seq<char>,
    Seq<char>,
>
    decreases p.len(),
{
    if p.len() == 0 {
        m
    } else {
        insert_pairs(m, p.drop_last()).insert(p.last().0, p.last().1)
    }
}

pub open spec fn pairs_map(p: Seq<(Seq<char>, Seq<char>)>) -> Map<Seq<char>, Seq<char>> {
    insert_pairs(Map::empty(), p)
}

/// A table of strings seen through the text of its values.
pub open spec fn text_map(t: Map<Seq<char>, String>) -> Map<Seq<char>, Seq<char>> {
    t.map_values(|v: String| v@)
}

pub proof fn lemma_insert_pairs_concat(
    m: Map<Seq<char>, Seq<char>>,
    a: Seq<(Seq<char>, Seq<char>)>,
    b: Seq<(Seq<char>, Seq<char>)>,
)
    ensures
        insert_pairs(insert_pairs(m, a), b) == insert_pairs(m, a + b),
    decreases b.len(),
{
    if b.len() == 0 {
        assert(a + b =~= a);
    } else {
        lemma_insert_pairs_concat(m, a, b.drop_last());
        assert((a + b).drop_last() =~= a + b.drop_last());
    }
}

pub proof fn lemma_run_end_sub(s: Seq<char>, lo: int, hi: int, j: int, k: CharClass)
    requires
        0 <= lo <= j <= hi <= s.len(),
    ensures
        run_end(s.subrange(lo, hi), j - lo, k) == (if run_end(s, j, k) < hi {
            run_end(s, j, k)
        } else {
            hi
        }) - lo,
    decreases hi - j,
{
    lemma_run_end_bounds(s, j, k);
    if j < hi {
        assert(s.subrange(lo, hi)[j - lo] == s[j]);
        if in_class(k, s[j]) {
            lemma_run_end_sub(s, lo, hi, j + 1, k);
        }
    }
}

proof fn lemma_text_map_insert(t: Map<Seq<char>, String>, k: String, v: String)
    ensures
        text_map(t.insert(k@, v)) == text_map(t).insert(k@, v@),
{
    assert(text_map(t.insert(k@, v)) =~= text_map(t).insert(k@, v@));
}

/// Inserts into `table` the tokens of `seg`, in order.
fn scan_pairs(seg: &Vec<char>, table: &mut Table<String>)
    ensures
        text_map(final(table)@) == insert_pairs(text_map(old(table)@), pairs_from(seg@, 0)),
{
    let ghost s = seg@;
    let ghost m0 = text_map(table@);
    let ghost mut acc: Seq<(Seq<char>, Seq<char>)> = Seq::empty();
    let n = seg.len();
    let mut i: usize = 0;
    assert(pairs_from(s, 0) =~= acc + pairs_from(s, 0));
    while i < n
        invariant
            s == seg@,
            n == s.len(),
            0 <= i <= n,
            pairs_from(s, 0) == acc + pairs_from(s, i as int),
            text_map(table@) == insert_pairs(m0, acc),
        decreases n - i,
    {
        if !crate::text::char_in_class(CharClass::Key, seg[i]) {
            i = i + 1;
            continue;
        }
        proof {
            lemma_run_end_bounds(s, i as int, CharClass::Key);
        }
        let k = find_run_end(seg, i, CharClass::Key);
        if k < n && seg[k] == ':' {
            let v0 = find_run_end(seg, k + 1, CharClass::Space);
            let v1 = find_run_end(seg, v0, CharClass::Value);
            if v1 > v0 {
                let t = find_run_end(seg, i, CharClass::Space);
                let t = if t < k {
                    t
                } else {
                    k
                };
                proof {
                    lemma_run_end_sub(s, i as int, k as int, i as int, CharClass::Space);
                    assert(trim_start(s.subrange(i as int, k as int)) =~= s.subrange(
                        t as int,
                        k as int,
                    ));
                }
                let key = string_of(seg, t, k);
                let value = string_of(seg, v0, v1);
                let ghost pair = (key@, value@);
                proof {
                    lemma_text_map_insert(table@, key, value);
                    let rest = pairs_from(s, v1 as int);
                    assert(pairs_from(s, i as int) == seq![pair] + rest);
                    assert(acc + (seq![pair] + rest) =~= acc.push(pair) + rest);
                    assert(acc.push(pair).drop_last() =~= acc);
                }
                table.insert(key, value);
                proof {
                    acc = acc.push(pair);
                }
                i = v1;
            } else {
                i = k;
            }
        } else {
            i = k;
        }
    }
    assert(acc + pairs_from(s, n as int) =~= acc);
}

/// The `key:value` tokens of `input`, as a table: a later token replaces an
/// earlier one of the same key.
pub fn parse_multi_line(input: &str) -> (r: Table<String>)
    ensures
        text_map(r@) == pairs_map(pairs_from(input@, 0)),
{
    let cs = chars_of(input);
    let mut table = Table::new();
    assert(text_map(table@) =~= Map::empty());
    scan_pairs(&cs, &mut table);
    table
}

/// The end of the line that starts at `i`: its `\n`, or the end of the text.
pub open spec fn line_end(s: Seq<char>, i: int) -> int {
    find_from(s, i, '\n')
}

/// The line that starts at `i`, without its line ending (`\n` or `\r\n`).
pub open spec fn line_at(s: Seq<char>, i: int) -> Seq<char> {
    let e = line_end(s, i);
    let raw = s.subrange(i, e);
    if e < s.len() && raw.len() > 0 && raw.last() == '\r' {
        raw.drop_last()
    } else {
        raw
    }
}

pub open spec fn ok_line() -> Seq<char> {
    seq!['o', 'k']
}

/// The entries that one line of a body gives. A line without `:` gives none.
/// The key is what comes before the first `:`. A line whose key is `X` or `T0`
/// is scanned for tokens whole; one whose key is `Endstop` has its value
/// scanned; any other gives its key and its value without leading white space.
pub open spec fn line_pairs(l: Seq<char>) -> Seq<(Seq<char>, Seq<char>)> {
    let c = find_from(l, 0, ':');
    if c >= l.len() {
        Seq::empty()
    } else {
        let key = l.take(c);
        let value = l.skip(c + 1);
        if key == seq!['X'] || key == seq!['T', '0'] {
            pairs_from(l, 0)
        } else if key == seq!['E', 'n', 'd', 's', 't', 'o', 'p'] {
            pairs_from(value, 0)
        } else {
            seq![(key, trim_start(value))]
        }
    }
}

/// The entries of the lines from the one that starts at `i` up to the `ok`
/// line, or `None` when no `ok` line comes.
pub open spec fn body_pairs(s: Seq<char>, i: int) -> Option<Seq<(Seq<char>, Seq<char>)>>
    decreases s.len() - i,
{
    if i < 0 || i >= s.len() {
        None
    } else {
        proof {
            lemma_find_from_bounds(s, i, '\n');
        }
        if line_at(s, i) == ok_line() {
            Some(Seq::empty())
        } else if line_end(s, i) >= s.len() {
            None
        } else {
            match body_pairs(s, line_end(s, i) + 1) {
                Some(rest) => Some(line_pairs(line_at(s, i)) + rest),
                None => None,
            }
        }
    }
}

/// The entries of a whole body, the echo line skipped; `None` when the body
/// is not terminated by an `ok` line.
pub open spec fn kv_pairs(s: Seq<char>) -> Option<Seq<(Seq<char>, Seq<char>)>> {
    if s.len() == 0 {
        None
    } else {
        body_pairs(s, line_end(s, 0) + 1)
    }
}

/// Prefixes `acc` to a possible sequence of entries.
pub open spec fn prefixed(
    acc: Seq<(Seq<char>, Seq<char>)>,
    o: Option<Seq<(Seq<char>, Seq<char>)>>,
) -> Option<Seq<(Seq<char>, Seq<char>)>> {
    match o {
        Some(rest) => Some(acc + rest),
        None => None,
    }
}

fn copy_range(cs: &Vec<char>, from: usize, to: usize) -> (r: Vec<char>)
    requires
        from <= to <= cs@.len(),
    ensures
        r@ == cs@.subrange(from as int, to as int),
{
    let mut r: Vec<char> = Vec::new();
    let mut i = from;
    while i < to
        invariant
            from <= i <= to <= cs@.len(),
            r@ == cs@.subrange(from as int, i as int),
        decreases to - i,
    {
        r.push(cs[i]);
        i = i + 1;
    }
    r
}

/// Inserts the entries of one line into `table`.
fn add_line(line: &Vec<char>, table: &mut Table<String>)
    ensures
        text_map(final(table)@) == insert_pairs(text_map(old(table)@), line_pairs(line@)),
{
    let ghost l = line@;
    let n = line.len();
    let c = find_char(line, 0, ':');
    if c >= n {
        return;
    }
    let is_x = c == 1 && line[0] == 'X';
    let is_t0 = c == 2 && line[0] == 'T' && line[1] == '0';
    let is_endstop = c == 7 && line[0] == 'E' && line[1] == 'n' && line[2] == 'd' && line[3]
        == 's' && line[4] == 't' && line[5] == 'o' && line[6] == 'p';
    proof {
        let key = l.take(c as int);
        if c == 1 {
            assert((key == seq!['X']) == (line[0] == 'X')) by {
                if line[0] == 'X' {
                    assert(key =~= seq!['X']);
                } else if key == seq!['X'] {
                    assert(key[0] == 'X');
                }
            }
        }
        if c == 2 {
            assert((key == seq!['T', '0']) == (line[0] == 'T' && line[1] == '0')) by {
                if line[0] == 'T' && line[1] == '0' {
                    assert(key =~= seq!['T', '0']);
                } else if key == seq!['T', '0'] {
                    assert(key[0] == 'T' && key[1] == '0');
                }
            }
        }
        if c == 7 {
            let e = seq!['E', 'n', 'd', 's', 't', 'o', 'p'];
            if is_endstop {
                assert(key =~= e);
            } else if key == e {
                assert(key[0] == 'E' && key[1] == 'n' && key[2] == 'd' && key[3] == 's' && key[4]
                    == 't' && key[5] == 'o' && key[6] == 'p');
            }
        }
        if key == seq!['X'] {
            assert(key.len() == 1);
        }
        if key == seq!['T', '0'] {
            assert(key.len() == 2);
        }
        if key == seq!['E', 'n', 'd', 's', 't', 'o', 'p'] {
            assert(key.len() == 7);
        }
    }
    if is_x || is_t0 {
        scan_pairs(line, table);
    } else if is_endstop {
        let value = copy_range(line, c + 1, n);
        assert(value@ =~= l.skip(c + 1));
        scan_pairs(&value, table);
    } else {
        let key = string_of(line, 0, c);
        let t = find_run_end(line, c + 1, CharClass::Space);
        proof {
            lemma_run_end_bounds(l, c + 1, CharClass::Space);
            lemma_run_end_sub(l, c + 1, n as int, c + 1, CharClass::Space);
            assert(l.skip(c + 1) =~= l.subrange(c + 1, n as int));
            assert(trim_start(l.skip(c + 1)) =~= l.subrange(t as int, n as int));
        }
        let value = string_of(line, t, n);
        assert(key@ =~= l.take(c as int));
        proof {
            lemma_text_map_insert(table@, key, value);
            let p = seq![(key@, value@)];
            assert(p.drop_last() =~= Seq::<(Seq<char>, Seq<char>)>::empty());
            assert(insert_pairs(text_map(table@), p.drop_last()) == text_map(table@));
            assert(line_pairs(l) == p);
        }
        table.insert(key, value);
    }
}

/// Reads a body into a table of its entries.
pub fn parse_kv(content: &str) -> (r: Result<Table<String>, ProtocolError>)
    ensures
        match kv_pairs(content@) {
            None => r == Err::<Table<String>, ProtocolError>(ProtocolError::Unterminated),
            Some(p) => r matches Ok(t) && text_map(t@) == pairs_map(p),
        },
{
    let cs = chars_of(content);
    let ghost s = cs@;
    let n = cs.len();
    if n == 0 {
        return Err(ProtocolError::Unterminated);
    }
    let first_end = find_char(&cs, 0, '\n');
    if first_end >= n {
        return Err(ProtocolError::Unterminated);
    }
    let mut i = first_end + 1;
    let ghost start = i as int;
    let mut table = Table::new();
    let ghost mut acc: Seq<(Seq<char>, Seq<char>)> = Seq::empty();
    assert(text_map(table@) =~= Map::empty());
    assert(prefixed(acc, body_pairs(s, start)) =~= body_pairs(s, start)) by {
        if let Some(rest) = body_pairs(s, start) {
            assert(acc + rest =~= rest);
        }
    }
    while i < n
        invariant
            s == cs@,
            s == content@,
            n == s.len(),
            0 <= i <= n,
            kv_pairs(s) == body_pairs(s, start),
            body_pairs(s, start) == prefixed(acc, body_pairs(s, i as int)),
            text_map(table@) == pairs_map(acc),
        decreases n - i,
    {
        let e = find_char(&cs, i, '\n');
        proof {
            lemma_find_from_bounds(s, i as int, '\n');
        }
        let stop = if e < n && e > i && cs[e - 1] == '\r' {
            e - 1
        } else {
            e
        };
        let line = copy_range(&cs, i, stop);
        assert(line@ =~= line_at(s, i as int));
        if stop - i == 2 && line[0] == 'o' && line[1] == 'k' {
            assert(line@ =~= ok_line());
            assert(body_pairs(s, i as int) == Some(Seq::<(Seq<char>, Seq<char>)>::empty()));
            assert(acc + Seq::<(Seq<char>, Seq<char>)>::empty() =~= acc);
            return Ok(table);
        }
        proof {
            if line@ == ok_line() {
                assert(line@[0] == 'o' && line@[1] == 'k');
            }
        }
        if e >= n {
            return Err(ProtocolError::Unterminated);
        }
        let ghost lp = line_pairs(line@);
        add_line(&line, &mut table);
        proof {
            lemma_insert_pairs_concat(Map::empty(), acc, lp);
            if let Some(rest) = body_pairs(s, e + 1) {
                assert(acc + (lp + rest) =~= (acc + lp) + rest);
            }
            acc = acc + lp;
        }
        i = e + 1;
    }
    Err(ProtocolError::Unterminated)
}

} // verus!
