//! Character-level building blocks: character classes, runs of characters,
//! and conversions between `str`, `String` and `Vec<char>`.
use vstd::prelude::*;

verus! {

/// Relies on `String::push`: it appends the one character to the string.
pub assume_specification[ String::push ](s: &mut String, ch: char)
    ensures
        final(s)@ == old(s)@.push(ch),
;

/// Unicode `White_Space`, the set that `\s` and `str::trim_start` use.
pub open spec fn is_white_space(c: char) -> bool {
    let u = c as u32;
    (0x09 <= u <= 0x0d) || u == 0x20 || u == 0x85 || u == 0xa0 || u == 0x1680 || (0x2000 <= u
        <= 0x200a) || u == 0x2028 || u == 0x2029 || u == 0x202f || u == 0x205f || u == 0x3000
}

pub open spec fn is_ascii_digit(c: char) -> bool {
    0x30 <= (c as u32) <= 0x39
}

pub open spec fn is_ascii_alphanumeric(c: char) -> bool {
    let u = c as u32;
    is_ascii_digit(c) || (0x41 <= u <= 0x5a) || (0x61 <= u <= 0x7a)
}

/// The character classes that the response grammar is written in.
#[derive(Clone, Copy, Debug, PartialEq, Eq)]
pub enum CharClass {
    /// Characters of a key: ASCII letters and digits, `-` and white space.
    Key,
    /// Characters of a value: anything but `:` and white space.
    Value,
    /// White space.
    Space,
    /// ASCII digits.
    Digit,
}

pub open spec fn in_class(k: CharClass, c: char) -> bool {
    match k {
        CharClass::Key => is_ascii_alphanumeric(c) || c == '-' || is_white_space(c),
        CharClass::Value => c != ':' && !is_white_space(c),
        CharClass::Space => is_white_space(c),
        CharClass::Digit => is_ascii_digit(c),
    }
}

pub fn is_white_space_char(c: char) -> (r: bool)
    ensures
        r == is_white_space(c),
{
    let u = c as u32;
    (0x09 <= u && u <= 0x0d) || u == 0x20 || u == 0x85 || u == 0xa0 || u == 0x1680 || (0x2000
        <= u && u <= 0x200a) || u == 0x2028 || u == 0x2029 || u == 0x202f || u == 0x205f || u
        == 0x3000
}

pub fn char_in_class(k: CharClass, c: char) -> (r: bool)
    ensures
        r == in_class(k, c),
{
    let u = c as u32;
    match k {
        CharClass::Key => (0x30 <= u && u <= 0x39) || (0x41 <= u && u <= 0x5a) || (0x61 <= u && u
            <= 0x7a) || c == '-' || is_white_space_char(c),
        CharClass::Value => c != ':' && !is_white_space_char(c),
        CharClass::Space => is_white_space_char(c),
        CharClass::Digit => 0x30 <= u && u <= 0x39,
    }
}

/// The end of the run of class `k` that starts at `i`: the first index at or
/// after `i` whose character is not of the class, or the length.
pub open spec fn run_end(s: Seq<char>, i: int, k: CharClass) -> int
    decreases s.len() - i,
{
    if 0 <= i < s.len() && in_class(k, s[i]) {
        run_end(s, i + 1, k)
    } else {
        i
    }
}

pub proof fn lemma_run_end_bounds(s: Seq<char>, i: int, k: CharClass)
    requires
        0 <= i <= s.len(),
    ensures
        i <= run_end(s, i, k) <= s.len(),
        i < s.len() && in_class(k, s[i]) ==> i < run_end(s, i, k),
        forall|j: int| i <= j < run_end(s, i, k) ==> in_class(k, #[trigger] s[j]),
        run_end(s, i, k) < s.len() ==> !in_class(k, s[run_end(s, i, k)]),
    decreases s.len() - i,
{
    if i < s.len() && in_class(k, s[i]) {
        lemma_run_end_bounds(s, i + 1, k);
    }
}

pub fn find_run_end(cs: &Vec<char>, i: usize, k: CharClass) -> (r: usize)
    requires
        i <= cs@.len(),
    ensures
        r as int == run_end(cs@, i as int, k),
        i <= r <= cs@.len(),
{
    proof {
        lemma_run_end_bounds(cs@, i as int, k);
    }
    let mut j = i;
    while j < cs.len() && char_in_class(k, cs[j])
        invariant
            i <= j <= cs@.len(),
            run_end(cs@, i as int, k) == run_end(cs@, j as int, k),
        decreases cs@.len() - j,
    {
        j = j + 1;
    }
    j
}

/// The index of the first `c` at or after `i`, or the length when there is none.
pub open spec fn find_from(s: Seq<char>, i: int, c: char) -> int
    decreases s.len() - i,
{
    if i < 0 || i >= s.len() {
        s.len() as int
    } else if s[i] == c {
        i
    } else {
        find_from(s, i + 1, c)
    }
}

pub proof fn lemma_find_from_bounds(s: Seq<char>, i: int, c: char)
    requires
        0 <= i <= s.len(),
    ensures
        i <= find_from(s, i, c) <= s.len(),
        forall|j: int| i <= j < find_from(s, i, c) ==> #[trigger] s[j] != c,
        find_from(s, i, c) < s.len() ==> s[find_from(s, i, c)] == c,
    decreases s.len() - i,
{
    if i < s.len() && s[i] != c {
        lemma_find_from_bounds(s, i + 1, c);
    }
}

pub fn find_char(cs: &Vec<char>, i: usize, c: char) -> (r: usize)
    requires
        i <= cs@.len(),
    ensures
        r as int == find_from(cs@, i as int, c),
        i <= r <= cs@.len(),
{
    proof {
        lemma_find_from_bounds(cs@, i as int, c);
    }
    let mut j = i;
    while j < cs.len() && cs[j] != c
        invariant
            i <= j <= cs@.len(),
            find_from(cs@, i as int, c) == find_from(cs@, j as int, c),
        decreases cs@.len() - j,
    {
        j = j + 1;
    }
    j
}

/// `s` without its leading white space, as `str::trim_start` gives it.
pub open spec fn trim_start(s: Seq<char>) -> Seq<char> {
    s.skip(run_end(s, 0, CharClass::Space))
}

/// The characters of `s`, in order.
pub fn chars_of(s: &str) -> (r: Vec<char>)
    ensures
        r@ == s@,
{
    let mut r: Vec<char> = Vec::new();
    for c in it: s.chars()
        invariant
            r@ == it.seq().take(it.index() as int),
    {
        r.push(c);
    }
    r
}

/// A `String` holding the characters `cs[from..to]`.
pub fn string_of(cs: &Vec<char>, from: usize, to: usize) -> (r: String)
    requires
        from <= to <= cs@.len(),
    ensures
        r@ == cs@.subrange(from as int, to as int),
{
    let mut r = String::new();
    let mut i = from;
    while i < to
        invariant
            from <= i <= to <= cs@.len(),
            r@ == cs@.subrange(from as int, i as int),
        decreases to - i,
    {
        r.push(cs[i]);
        i = i + 1;
    }
    r
}

/// The character of the decimal digit `d`.
pub open spec fn digit_char(d: nat) -> char {
    ((d + 0x30) as u32) as char
}

/// The decimal text of `n`, without leading zeros ("0" for zero).
pub open spec fn nat_text(n: nat) -> Seq<char>
    decreases n,
{
    if n < 10 {
        seq![digit_char(n)]
    } else {
        nat_text(n / 10).push(digit_char(n % 10))
    }
}

/// Appends the decimal text of `n` to `s`.
pub fn push_decimal(s: &mut String, n: u64)
    ensures
        final(s)@ == old(s)@ + nat_text(n as nat),
    decreases n,
{
    if n >= 10 {
        push_decimal(s, n / 10);
    }
    let d = (n % 10) as u8 + 0x30;
    s.push(d as char);
    assert(final(s)@ =~= old(s)@ + nat_text(n as nat));
}

} // verus!
