//! Numbers as the device writes them: integers in the form that `FromStr`
//! accepts, and decimal readings kept exactly as written.
use vstd::prelude::*;
use crate::text::{chars_of, find_char, find_from, is_ascii_digit, nat_text};

verus! {

pub open spec fn digit_value(c: char) -> nat {
    ((c as u32) - 0x30) as nat
}

pub open spec fn all_digits(d: Seq<char>) -> bool {
    forall|i: int| 0 <= i < d.len() ==> is_ascii_digit(#[trigger] d[i])
}

/// The value of a sequence of decimal digits (0 for the empty one).
pub open spec fn digits_value(d: Seq<char>) -> nat
    decreases d.len(),
{
    if d.len() == 0 {
        0
    } else {
        digits_value(d.drop_last()) * 10 + digit_value(d.last())
    }
}

/// One or more ASCII digits, and their value.
pub open spec fn unsigned_of(d: Seq<char>) -> Option<nat> {
    if d.len() > 0 && all_digits(d) {
        Some(digits_value(d))
    } else {
        None
    }
}

/// An integer as `FromStr` reads it: an optional `+` (or, where `signed`, `-`)
/// followed by one or more ASCII digits.
pub open spec fn integer_of(s: Seq<char>, signed: bool) -> Option<int> {
    if s.len() > 0 && s[0] == '+' {
        match unsigned_of(s.drop_first()) {
            Some(v) => Some(v as int),
            None => None,
        }
    } else if signed && s.len() > 0 && s[0] == '-' {
        match unsigned_of(s.drop_first()) {
            Some(v) => Some(-(v as int)),
            None => None,
        }
    } else {
        match unsigned_of(s) {
            Some(v) => Some(v as int),
            None => None,
        }
    }
}

pub open spec fn i32_of(s: Seq<char>) -> Option<i32> {
    match integer_of(s, true) {
        Some(v) => if i32::MIN <= v <= i32::MAX {
            Some(v as i32)
        } else {
            None
        },
        None => None,
    }
}

pub open spec fn u32_of(s: Seq<char>) -> Option<u32> {
    match integer_of(s, false) {
        Some(v) => if 0 <= v <= u32::MAX {
            Some(v as u32)
        } else {
            None
        },
        None => None,
    }
}

pub open spec fn u8_of(s: Seq<char>) -> Option<u8> {
    match integer_of(s, false) {
        Some(v) => if 0 <= v <= u8::MAX {
            Some(v as u8)
        } else {
            None
        },
        None => None,
    }
}

pub proof fn lemma_digits_value_prefix(d: Seq<char>, j: int)
    requires
        0 <= j <= d.len(),
    ensures
        digits_value(d.take(j)) <= digits_value(d),
    decreases d.len(),
{
    if j < d.len() {
        lemma_digits_value_prefix(d.drop_last(), j);
        assert(d.drop_last().take(j) =~= d.take(j));
    } else {
        assert(d.take(j) =~= d);
    }
}

/// The value of the digits `cs[from..to]`, where they are one or more ASCII
/// digits whose value is at most `limit`.
pub fn digits_up_to(cs: &Vec<char>, from: usize, to: usize, limit: u64) -> (r: Option<u64>)
    requires
        from <= to <= cs@.len(),
    ensures
        r == (match unsigned_of(cs@.subrange(from as int, to as int)) {
            Some(v) => if v <= limit {
                Some(v as u64)
            } else {
                None
            },
            None => None,
        }),
{
    let ghost d = cs@.subrange(from as int, to as int);
    if from == to {
        return None;
    }
    let mut acc: u64 = 0;
    let mut i = from;
    while i < to
        invariant
            from <= i <= to <= cs@.len(),
            d == cs@.subrange(from as int, to as int),
            all_digits(cs@.subrange(from as int, i as int)),
            acc as nat == digits_value(cs@.subrange(from as int, i as int)),
            acc <= limit,
        decreases to - i,
    {
        let c = cs[i];
        if !(0x30 <= c as u32 && c as u32 <= 0x39) {
            assert(!is_ascii_digit(d[i - from]));
            return None;
        }
        let ghost pre = cs@.subrange(from as int, i as int);
        let ghost next = cs@.subrange(from as int, i + 1);
        assert(next.drop_last() =~= pre);
        let v: u128 = acc as u128 * 10 + (c as u32 - 0x30) as u128;
        assert(v == digits_value(next));
        if v > limit as u128 {
            proof {
                if all_digits(d) {
                    assert(d.take(i + 1 - from) =~= next);
                    lemma_digits_value_prefix(d, i + 1 - from);
                }
            }
            return None;
        }
        acc = v as u64;
        i = i + 1;
    }
    assert(cs@.subrange(from as int, i as int) =~= d);
    Some(acc)
}

/// Reads an integer of at most `limit` in magnitude, with the sign rules of
/// `integer_of`; gives the magnitude and whether it was negative.
fn integer_parts(cs: &Vec<char>, signed: bool, limit: u64) -> (r: Option<(bool, u64)>)
    ensures
        r == (match integer_of(cs@, signed) {
            Some(v) => if -(limit as int) <= v <= limit as int {
                Some((v < 0, if v < 0 { (-v) as u64 } else { v as u64 }))
            } else {
                None
            },
            None => None,
        }),
{
    let n = cs.len();
    if n > 0 && cs[0] == '+' {
        assert(cs@.subrange(1, n as int) =~= cs@.drop_first());
        match digits_up_to(cs, 1, n, limit) {
            Some(v) => Some((false, v)),
            None => None,
        }
    } else if signed && n > 0 && cs[0] == '-' {
        assert(cs@.subrange(1, n as int) =~= cs@.drop_first());
        match digits_up_to(cs, 1, n, limit) {
            Some(v) => Some((v > 0, v)),
            None => None,
        }
    } else {
        assert(cs@.subrange(0, n as int) =~= cs@);
        match digits_up_to(cs, 0, n, limit) {
            Some(v) => Some((false, v)),
            None => None,
        }
    }
}

/// Reads an `i32` as `str::parse::<i32>` does.
pub fn parse_i32(s: &str) -> (r: Option<i32>)
    ensures
        r == i32_of(s@),
{
    let cs = chars_of(s);
    match integer_parts(&cs, true, 0x8000_0000) {
        Some((negative, m)) => {
            if negative {
                Some((0 - (m as i64)) as i32)
            } else if m <= 0x7fff_ffff {
                Some(m as i32)
            } else {
                None
            }
        },
        None => None,
    }
}

/// Reads a `u32` as `str::parse::<u32>` does.
pub fn parse_u32(s: &str) -> (r: Option<u32>)
    ensures
        r == u32_of(s@),
{
    let cs = chars_of(s);
    match integer_parts(&cs, false, 0xffff_ffff) {
        Some((_, m)) => Some(m as u32),
        None => None,
    }
}

/// Reads a `u8` as `str::parse::<u8>` does.
pub fn parse_u8(s: &str) -> (r: Option<u8>)
    ensures
        r == u8_of(s@),
{
    let cs = chars_of(s);
    match integer_parts(&cs, false, 0xff) {
        Some((_, m)) => Some(m as u8),
        None => None,
    }
}

/// A decimal number kept exactly as written: `mantissa / 10^scale`, negated
/// where `negative` is set. Readings of the device (temperatures, head
/// coordinates) are held in this form.
#[derive(Clone, Copy, Debug, PartialEq, Eq)]
pub struct Decimal {
    pub negative: bool,
    pub mantissa: u64,
    pub scale: u32,
}

/// A decimal written as an optional sign, ASCII digits, and optionally `.`
/// followed by more digits, with at least one digit in all. The digits, dot
/// removed, form the mantissa; those after the dot count the scale.
pub open spec fn decimal_of(s: Seq<char>) -> Option<Decimal> {
    let negative = s.len() > 0 && s[0] == '-';
    let body = if s.len() > 0 && (s[0] == '-' || s[0] == '+') {
        s.drop_first()
    } else {
        s
    };
    let dot = find_from(body, 0, '.');
    let whole = body.take(dot);
    let fraction = if dot < body.len() {
        body.skip(dot + 1)
    } else {
        Seq::<char>::empty()
    };
    if all_digits(whole) && all_digits(fraction) && whole.len() + fraction.len() > 0
        && digits_value(whole + fraction) <= u64::MAX && fraction.len() <= u32::MAX {
        Some(
            Decimal {
                negative,
                mantissa: digits_value(whole + fraction) as u64,
                scale: fraction.len() as u32,
            },
        )
    } else {
        None
    }
}

/// Reads a decimal in the form `decimal_of` describes.
pub fn parse_decimal(s: &str) -> (r: Option<Decimal>)
    ensures
        r == decimal_of(s@),
{
    let cs = chars_of(s);
    decimal_of_chars(&cs)
}

/// Reads the characters `cs` as a decimal in the form `decimal_of` describes.
pub fn decimal_of_chars(cs: &Vec<char>) -> (r: Option<Decimal>)
    ensures
        r == decimal_of(cs@),
{
    let n = cs.len();
    let negative = n > 0 && cs[0] == '-';
    let start: usize = if n > 0 && (cs[0] == '-' || cs[0] == '+') {
        1
    } else {
        0
    };
    let ghost body = cs@.skip(start as int);
    let dot = find_char(cs, start, '.');
    proof {
        crate::text::lemma_find_from_bounds(cs@, start as int, '.');
        lemma_find_from_shift(cs@, start as int, 0, '.');
    }
    // The digits with the dot left out.
    let mut digits: Vec<char> = Vec::new();
    let mut i = start;
    while i < dot
        invariant
            start <= i <= dot <= n == cs@.len(),
            digits@ == cs@.subrange(start as int, i as int),
        decreases dot - i,
    {
        digits.push(cs[i]);
        i = i + 1;
    }
    let whole_len = digits.len();
    let mut j = if dot < n {
        dot + 1
    } else {
        n
    };
    let frac_start = j;
    while j < n
        invariant
            start <= dot <= n == cs@.len(),
            frac_start <= j <= n,
            frac_start == (if dot < n { dot + 1 } else { n as int }),
            digits@ == cs@.subrange(start as int, dot as int) + cs@.subrange(
                frac_start as int,
                j as int,
            ),
        decreases n - j,
    {
        digits.push(cs[j]);
        j = j + 1;
    }
    let ghost whole = body.take(dot - start);
    let ghost fraction = if dot < n {
        body.skip(dot - start + 1)
    } else {
        Seq::<char>::empty()
    };
    assert(whole =~= cs@.subrange(start as int, dot as int));
    assert(fraction =~= cs@.subrange(frac_start as int, n as int));
    assert(digits@ =~= whole + fraction);
    proof {
        assert(all_digits(whole) && all_digits(fraction) ==> all_digits(whole + fraction)) by {
            if all_digits(whole) && all_digits(fraction) {
                assert forall|k: int| 0 <= k < whole.len() + fraction.len() implies is_ascii_digit(
                    #[trigger] (whole + fraction)[k],
                ) by {
                    if k < whole.len() {
                        assert((whole + fraction)[k] == whole[k]);
                    } else {
                        assert((whole + fraction)[k] == fraction[k - whole.len()]);
                    }
                }
            }
        }
        assert(all_digits(whole + fraction) ==> all_digits(whole) && all_digits(fraction)) by {
            if all_digits(whole + fraction) {
                assert forall|k: int| 0 <= k < whole.len() implies is_ascii_digit(
                    #[trigger] whole[k],
                ) by {
                    assert((whole + fraction)[k] == whole[k]);
                }
                assert forall|k: int| 0 <= k < fraction.len() implies is_ascii_digit(
                    #[trigger] fraction[k],
                ) by {
                    assert((whole + fraction)[k + whole.len()] == fraction[k]);
                }
            }
        }
    }
    let scale_len = n - frac_start;
    if scale_len > 0xffff_ffff {
        return None;
    }
    assert(digits@.subrange(0, digits@.len() as int) =~= digits@);
    match digits_up_to(&digits, 0, digits.len(), 0xffff_ffff_ffff_ffff) {
        Some(m) => Some(Decimal { negative, mantissa: m, scale: scale_len as u32 }),
        None => None,
    }
}

pub proof fn lemma_find_from_shift(s: Seq<char>, k: int, i: int, c: char)
    requires
        0 <= k <= s.len(),
        0 <= i <= s.len() - k,
    ensures
        find_from(s.skip(k), i, c) == find_from(s, k + i, c) - k,
    decreases s.len() - k - i,
{
    if i < s.len() - k && s[k + i] != c {
        lemma_find_from_shift(s, k, i + 1, c);
    }
}

/// `mantissa / 10^scale` with trailing zeros of the fraction removed.
pub open spec fn normalized(mantissa: nat, scale: nat) -> (nat, nat)
    decreases scale,
{
    if scale > 0 && mantissa % 10 == 0 {
        normalized(mantissa / 10, (scale - 1) as nat)
    } else {
        (mantissa, scale)
    }
}

/// The text of a decimal in its shortest form: no trailing zeros after the
/// dot, no dot for a whole number, and `0.` before a fraction below one.
pub open spec fn decimal_text(d: Decimal) -> Seq<char> {
    let (m, sc) = normalized(d.mantissa as nat, d.scale as nat);
    let t = nat_text(m);
    let body = if sc == 0 {
        t
    } else if t.len() > sc {
        t.take(t.len() - sc) + seq!['.'] + t.skip(t.len() - sc)
    } else {
        seq!['0', '.'] + Seq::new((sc - t.len()) as nat, |i: int| '0') + t
    };
    if d.negative {
        seq!['-'] + body
    } else {
        body
    }
}

/// The decimal digits of `n`.
pub fn decimal_digits(n: u64) -> (r: Vec<char>)
    ensures
        r@ == nat_text(n as nat),
    decreases n,
{
    let mut r = if n >= 10 {
        decimal_digits(n / 10)
    } else {
        Vec::new()
    };
    let d = (n % 10) as u8 + 0x30;
    r.push(d as char);
    assert(r@ =~= nat_text(n as nat));
    r
}

impl Decimal {
    /// Writes the decimal in its shortest form, as `decimal_text` gives it.
    pub fn to_text(&self) -> (r: String)
        ensures
            r@ == decimal_text(*self),
    {
        let mut m = self.mantissa;
        let mut sc = self.scale;
        while sc > 0 && m % 10 == 0
            invariant
                normalized(m as nat, sc as nat) == normalized(
                    self.mantissa as nat,
                    self.scale as nat,
                ),
            decreases sc,
        {
            m = m / 10;
            sc = sc - 1;
        }
        let t = decimal_digits(m);
        let len = t.len();
        let scale = sc as usize;
        let mut r = String::new();
        if self.negative {
            r.push('-');
        }
        let ghost prefix = r@;
        if sc == 0 {
            let mut i: usize = 0;
            while i < len
                invariant
                    0 <= i <= len == t@.len(),
                    r@ == prefix + t@.take(i as int),
                decreases len - i,
            {
                r.push(t[i]);
                i = i + 1;
                assert(r@ =~= prefix + t@.take(i as int));
            }
            assert(t@.take(len as int) =~= t@);
        } else if len > scale {
            let split = len - scale;
            let mut i: usize = 0;
            while i < split
                invariant
                    0 <= i <= split < len == t@.len(),
                    r@ == prefix + t@.take(i as int),
                decreases split - i,
            {
                r.push(t[i]);
                i = i + 1;
                assert(r@ =~= prefix + t@.take(i as int));
            }
            r.push('.');
            let ghost mid = r@;
            while i < len
                invariant
                    split <= i <= len == t@.len(),
                    r@ == mid + t@.subrange(split as int, i as int),
                decreases len - i,
            {
                r.push(t[i]);
                i = i + 1;
                assert(r@ =~= mid + t@.subrange(split as int, i as int));
            }
            assert(t@.subrange(split as int, len as int) =~= t@.skip(split as int));
            assert(r@ =~= prefix + (t@.take(split as int) + seq!['.'] + t@.skip(split as int)));
        } else {
            r.push('0');
            r.push('.');
            let ghost mid = r@;
            let zeros = scale - len;
            let mut k: usize = 0;
            while k < zeros
                invariant
                    0 <= k <= zeros,
                    r@ == mid + Seq::new(k as nat, |i: int| '0'),
                decreases zeros - k,
            {
                r.push('0');
                k = k + 1;
                assert(r@ =~= mid + Seq::new(k as nat, |i: int| '0'));
            }
            let ghost mid2 = r@;
            let mut i: usize = 0;
            while i < len
                invariant
                    0 <= i <= len == t@.len(),
                    r@ == mid2 + t@.take(i as int),
                decreases len - i,
            {
                r.push(t[i]);
                i = i + 1;
                assert(r@ =~= mid2 + t@.take(i as int));
            }
            assert(t@.take(len as int) =~= t@);
            assert(r@ =~= prefix + (seq!['0', '.'] + Seq::new(zeros as nat, |i: int| '0') + t@));
        }
        r
    }
}

} // verus!
