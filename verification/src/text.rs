//! Small verified text helpers: plain string equality, decimal
//! rendering of integers, and ASCII lowercasing.

use vstd::prelude::*;
use vstd::arithmetic::power::{lemma_pow0, lemma_pow1, lemma_pow_adds, lemma_pow_increases, pow};
use vstd::string::StrSliceExecFns;
use vstd::string::StringExecFns;

verus! {

/// ASCII whitespace, including vertical tab and form feed.
pub open spec fn is_space_ch(c: char) -> bool {
    c as u32 == 32 || (9 <= c as u32 && c as u32 <= 13)
}

/// Plain (not constant-time) string equality.
pub fn str_eq(a: &str, b: &str) -> (r: bool)
    ensures
        r == (a@ == b@),
{
    let an = a.unicode_len();
    let bn = b.unicode_len();
    if an != bn {
        return false;
    }
    let mut i: usize = 0;
    while i < an
        invariant
            an == a@.len(),
            an == b@.len(),
            0 <= i <= an,
            forall|j: int| 0 <= j < i ==> a@[j] == b@[j],
        decreases an - i,
    {
        if a.get_char(i) != b.get_char(i) {
            return false;
        }
        i = i + 1;
    }
    proof {
        assert(a@ =~= b@);
    }
    true
}

/// The decimal digit character for a value below 10.
pub open spec fn dec_digit(n: u8) -> char
    recommends
        n < 10,
{
    (n + 48) as char
}

/// The decimal rendering of a natural number, most significant digit
/// first, without leading zeroes (zero renders as "0").
pub open spec fn dec_chars_of(n: nat) -> Seq<char>
    decreases n,
{
    if n < 10 {
        seq![dec_digit(n as u8)]
    } else {
        dec_chars_of(n / 10).push(dec_digit((n % 10) as u8))
    }
}

/// Like `dec_chars_of`, but zero renders as the empty string; the form
/// digit-collecting loops step through.
pub open spec fn dec_chars_opt(n: nat) -> Seq<char> {
    if n == 0 {
        Seq::<char>::empty()
    } else {
        dec_chars_of(n)
    }
}

/// Peeling the least significant digit off `w` drops the rendering's
/// last character.
proof fn lemma_dec_chars_opt_step(w: nat)
    requires
        w > 0,
    ensures
        dec_chars_opt(w) == dec_chars_opt(w / 10) + seq![dec_digit((w % 10) as u8)],
{
    if w < 10 {
        assert(dec_chars_opt(w) =~= dec_chars_opt(w / 10) + seq![dec_digit((w % 10) as u8)]);
    } else {
        assert(dec_chars_of(w) == dec_chars_of(w / 10).push(dec_digit((w % 10) as u8)));
        assert(dec_chars_opt(w) =~= dec_chars_opt(w / 10) + seq![dec_digit((w % 10) as u8)]);
    }
}

/// The single-character string for a decimal digit.
fn dec_digit_str(d: u8) -> (r: &'static str)
    requires
        d < 10,
    ensures
        r@.len() == 1,
        r@[0] == dec_digit(d),
{
    proof {
        reveal_strlit("0");
        reveal_strlit("1");
        reveal_strlit("2");
        reveal_strlit("3");
        reveal_strlit("4");
        reveal_strlit("5");
        reveal_strlit("6");
        reveal_strlit("7");
        reveal_strlit("8");
        reveal_strlit("9");
    }
    match d {
        0 => "0",
        1 => "1",
        2 => "2",
        3 => "3",
        4 => "4",
        5 => "5",
        6 => "6",
        7 => "7",
        8 => "8",
        _ => "9",
    }
}

/// A decimal digit character.
pub open spec fn is_dec_char(c: char) -> bool {
    48 <= c as u32 && c as u32 <= 57
}

/// The value a decimal digit character denotes.
pub open spec fn dec_char_val(c: char) -> u8
    recommends
        is_dec_char(c),
{
    (c as u32 - 48) as u8
}

/// The value big-endian decimal digit characters denote.
pub open spec fn dec_value(s: Seq<char>) -> int
    decreases s.len(),
{
    if s.len() == 0 {
        0
    } else {
        dec_value(s.drop_last()) * 10 + dec_char_val(s.last())
    }
}

/// What `parse_u64_dec` yields: the denoted value for a non-empty
/// all-digit string of at most 20 characters that fits, nothing
/// otherwise.
pub open spec fn parsed_u64(s: Seq<char>) -> Option<u64> {
    if s.len() > 0 && s.len() <= 20 && (forall|i: int| 0 <= i < s.len() ==> is_dec_char(#[trigger] s[i]))
        && dec_value(s) <= u64::MAX {
        Some(dec_value(s) as u64)
    } else {
        None
    }
}

/// Parse a decimal integer.
pub fn parse_u64_dec(s: &str) -> (r: Option<u64>)
    ensures
        r == parsed_u64(s@),
{
    let n = s.unicode_len();
    if n == 0 || n > 20 {
        return None;
    }
    let mut acc: u128 = 0;
    let mut i: usize = 0;
    while i < n
        invariant
            n == s@.len(),
            0 < n <= 20,
            0 <= i <= n,
            forall|m: int| 0 <= m < i ==> is_dec_char(#[trigger] s@[m]),
            acc as int == dec_value(s@.subrange(0, i as int)),
        decreases n - i,
    {
        let c = s.get_char(i);
        let v = c as u32;
        if !(48 <= v && v <= 57) {
            return None;
        }
        let d = (v - 48) as u8;
        proof {
            assert(is_dec_char(c) && d == dec_char_val(c) && d < 10);
            assert forall|m: int| 0 <= m < s@.subrange(0, i as int).len() implies is_dec_char(
                #[trigger] s@.subrange(0, i as int)[m],
            ) by {
                assert(is_dec_char(s@[m]));
            };
            lemma_dec_value_small_bound(s@.subrange(0, i as int));
        }
        acc = acc * 10 + (d as u128);
        i = i + 1;
        proof {
            assert(s@.subrange(0, i as int).drop_last() =~= s@.subrange(0, i - 1));
            assert(s@.subrange(0, i as int).last() == c);
        }
    }
    proof {
        assert(s@.subrange(0, n as int) =~= s@);
        lemma_dec_value_small_bound(s@);
    }
    if acc > 0xffffffffffffffff {
        return None;
    }
    Some(acc as u64)
}

/// A bound by length, enough to keep twenty digits inside a u128.
proof fn lemma_dec_value_small_bound(s: Seq<char>)
    requires
        forall|m: int| 0 <= m < s.len() ==> is_dec_char(#[trigger] s[m]),
        s.len() <= 20,
    ensures
        0 <= dec_value(s),
        dec_value(s) < pow(10, s.len() as nat),
        pow(10, s.len() as nat) <= pow(10, 20),
        pow(10, 20) < 0x10000000000000000000000000000,
    decreases s.len(),
{
    lemma_pow_increases(10, s.len() as nat, 20);
    assert(pow(10, 20) == 100000000000000000000) by {
        reveal_with_fuel(pow, 21);
    }
    if s.len() == 0 {
        lemma_pow0(10);
    } else {
        assert forall|m: int| 0 <= m < s.drop_last().len() implies is_dec_char(
            #[trigger] s.drop_last()[m],
        ) by {
            assert(is_dec_char(s[m]));
        };
        lemma_dec_value_small_bound(s.drop_last());
        lemma_pow_adds(10, 1, (s.len() - 1) as nat);
        lemma_pow1(10);
    }
}

/// Render an integer in decimal.
pub fn u64_to_dec_string(n: u64) -> (r: String)
    ensures
        r@ == dec_chars_of(n as nat),
{
    if n == 0 {
        let r = "0".to_owned();
        proof {
            reveal_strlit("0");
            assert(r@ =~= dec_chars_of(0));
        }
        return r;
    }
    let mut digits: Vec<u8> = Vec::new();
    let mut w: u64 = n;
    let ghost mut rendered: Seq<char> = Seq::<char>::empty();
    while w != 0
        invariant
            rendered.len() == digits@.len(),
            forall|m: int|
                0 <= m < digits@.len() ==> digits@[m] < 10 && rendered[rendered.len() - 1 - m]
                    == dec_digit(digits@[m]),
            dec_chars_opt(n as nat) == dec_chars_opt(w as nat) + rendered,
        decreases w,
    {
        let d = (w % 10) as u8;
        proof {
            lemma_dec_chars_opt_step(w as nat);
            assert(dec_chars_opt(n as nat) =~= dec_chars_opt((w / 10) as nat) + (seq![
                dec_digit(d),
            ] + rendered));
        }
        digits.push(d);
        proof {
            rendered = seq![dec_digit(d)] + rendered;
        }
        w = w / 10;
    }
    let mut out = String::new();
    let total = digits.len();
    let mut k: usize = 0;
    while k < total
        invariant
            total == digits@.len(),
            0 <= k <= total,
            rendered.len() == total,
            forall|m: int|
                0 <= m < total ==> digits@[m] < 10 && rendered[rendered.len() - 1 - m] == dec_digit(
                    digits@[m],
                ),
            out@ == rendered.subrange(0, k as int),
        decreases total - k,
    {
        let piece = dec_digit_str(digits[total - 1 - k]);
        out.append(piece);
        proof {
            assert(out@ =~= rendered.subrange(0, k + 1 as int));
        }
        k = k + 1;
    }
    proof {
        assert(rendered.subrange(0, total as int) =~= rendered);
        assert(dec_chars_opt(n as nat) =~= rendered);
    }
    out
}

} // verus!
