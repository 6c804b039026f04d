//! The hyphenated textual form of the 128-bit identifiers that name
//! cars, stages and replays on the wire: parsing (either case) and
//! formatting (lowercase), both pinned to the digit positions of the
//! 8-4-4-4-12 layout.

use vstd::prelude::*;
use vstd::arithmetic::div_mod::lemma_div_denominator;
use vstd::arithmetic::power::{
    lemma_pow0, lemma_pow1, lemma_pow_adds, lemma_pow_increases, lemma_pow_positive, pow,
};
use vstd::string::StrSliceExecFns;
use vstd::string::StringExecFns;

use crate::crypto::hex_digit;

verus! {

/// A hex digit in either case.
pub open spec fn is_hex_char(c: char) -> bool {
    (48 <= c as u32 && c as u32 <= 57) || (97 <= c as u32 && c as u32 <= 102) || (65 <= c as u32
        && c as u32 <= 70)
}

/// The value of a hex digit character.
pub open spec fn hex_val(c: char) -> u8
    recommends
        is_hex_char(c),
{
    if 48 <= c as u32 && c as u32 <= 57 {
        (c as u32 - 48) as u8
    } else if 97 <= c as u32 && c as u32 <= 102 {
        (c as u32 - 87) as u8
    } else {
        (c as u32 - 55) as u8
    }
}

/// Where the `i`-th hex digit (big-endian, `0 <= i < 32`) sits in the
/// 36-character hyphenated form.
pub open spec fn digit_pos(i: int) -> int {
    if i < 8 {
        i
    } else if i < 12 {
        i + 1
    } else if i < 16 {
        i + 2
    } else if i < 20 {
        i + 3
    } else {
        i + 4
    }
}

/// Which hex digit the non-hyphen position `p` carries; inverse of
/// `digit_pos`.
pub open spec fn nibble_index(p: int) -> int {
    if p < 8 {
        p
    } else if p < 13 {
        p - 1
    } else if p < 18 {
        p - 2
    } else if p < 23 {
        p - 3
    } else {
        p - 4
    }
}

/// The shape a hyphenated uuid string must have: 36 characters, hyphens
/// at positions 8, 13, 18 and 23, hex digits everywhere else.
pub open spec fn is_uuid_str(s: Seq<char>) -> bool {
    &&& s.len() == 36
    &&& s[8] == '-' && s[13] == '-' && s[18] == '-' && s[23] == '-'
    &&& forall|i: int| 0 <= i < 32 ==> is_hex_char(#[trigger] s[digit_pos(i)])
}

/// The value big-endian hex digits denote.
pub open spec fn nibbles_value(ds: Seq<u8>) -> int
    decreases ds.len(),
{
    if ds.len() == 0 {
        0
    } else {
        nibbles_value(ds.drop_last()) * 16 + ds.last()
    }
}

/// The 32 hex digit values of a uuid string, big-endian.
pub open spec fn uuid_digit_vals(s: Seq<char>) -> Seq<u8> {
    Seq::new(32, |i: int| hex_val(s[digit_pos(i)]))
}

/// The value a well-formed uuid string denotes.
pub open spec fn uuid_value_of(s: Seq<char>) -> int {
    nibbles_value(uuid_digit_vals(s))
}

/// The `i`-th hex digit (big-endian, `0 <= i < 32`) of a 128-bit value.
pub open spec fn nibble_of(v: u128, i: int) -> u8
    recommends
        0 <= i < 32,
{
    (((v as int) / pow(16, (31 - i) as nat)) % 16) as u8
}

/// The character at position `p` of the canonical lowercase hyphenated
/// form.
pub open spec fn uuid_char_at(v: u128, p: int) -> char {
    if p == 8 || p == 13 || p == 18 || p == 23 {
        '-'
    } else {
        hex_digit(nibble_of(v, nibble_index(p)))
    }
}

/// The canonical lowercase hyphenated form of a 128-bit value.
pub open spec fn uuid_chars_of(v: u128) -> Seq<char> {
    Seq::new(36, |p: int| uuid_char_at(v, p))
}

/// `16^(e+1) == 16 * 16^e`.
proof fn lemma_pow16_step(e: nat)
    ensures
        pow(16, e + 1) == 16 * pow(16, e),
{
    lemma_pow_adds(16, 1, e);
    lemma_pow1(16);
}

/// Parse the hyphenated form, accepting hex digits of either case.
pub fn parse_uuid(s: &str) -> (r: Option<u128>)
    ensures
        r is Some <==> is_uuid_str(s@),
        r is Some ==> r->0 as int == uuid_value_of(s@),
{
    let n = s.unicode_len();
    if n != 36 {
        return None;
    }
    if s.get_char(8) != '-' || s.get_char(13) != '-' || s.get_char(18) != '-' || s.get_char(23)
        != '-' {
        return None;
    }
    let mut acc: u128 = 0;
    let mut i: usize = 0;
    proof {
        lemma_pow0(16);
    }
    while i < 32
        invariant
            s@.len() == 36,
            0 <= i <= 32,
            s@[8] == '-' && s@[13] == '-' && s@[18] == '-' && s@[23] == '-',
            forall|m: int| 0 <= m < i ==> is_hex_char(#[trigger] s@[digit_pos(m)]),
            (acc as int) < pow(16, i as nat),
            acc as int == nibbles_value(Seq::new(i as nat, |m: int| hex_val(s@[digit_pos(m)]))),
        decreases 32 - i,
    {
        let p: usize = if i < 8 {
            i
        } else if i < 12 {
            i + 1
        } else if i < 16 {
            i + 2
        } else if i < 20 {
            i + 3
        } else {
            i + 4
        };
        proof {
            assert(p as int == digit_pos(i as int));
        }
        let c = s.get_char(p);
        let v = c as u32;
        let d: u8 = if 48 <= v && v <= 57 {
            (v - 48) as u8
        } else if 97 <= v && v <= 102 {
            (v - 87) as u8
        } else if 65 <= v && v <= 70 {
            (v - 55) as u8
        } else {
            return None;
        };
        proof {
            assert(is_hex_char(c) && d == hex_val(c) && d < 16);
            lemma_pow16_step(i as nat);
            lemma_pow_increases(16, (i + 1) as nat, 32);
            assert(pow(16, 32) == 0x100000000000000000000000000000000) by {
                reveal_with_fuel(pow, 33);
            }
        }
        acc = acc * 16 + (d as u128);
        i = i + 1;
        proof {
            let prev = Seq::new((i - 1) as nat, |m: int| hex_val(s@[digit_pos(m)]));
            let cur = Seq::new(i as nat, |m: int| hex_val(s@[digit_pos(m)]));
            assert(cur.drop_last() =~= prev);
            assert(cur.last() == d);
        }
    }
    proof {
        assert(uuid_digit_vals(s@) =~= Seq::new(32, |m: int| hex_val(s@[digit_pos(m)])));
    }
    Some(acc)
}

/// Reading back the leading `m` hex digits of `v` reconstructs `v`
/// truncated to them.
proof fn lemma_nibbles_of_value(v: u128, m: int)
    requires
        0 <= m <= 32,
    ensures
        nibbles_value(Seq::new(m as nat, |i: int| nibble_of(v, i))) == (v as int) / pow(
            16,
            (32 - m) as nat,
        ),
    decreases m,
{
    if m == 0 {
        assert(pow(16, 32) == 0x100000000000000000000000000000000) by {
            reveal_with_fuel(pow, 33);
        }
        vstd::arithmetic::div_mod::lemma_basic_div(v as int, pow(16, 32));
        assert(Seq::new(0, |i: int| nibble_of(v, i)) =~= Seq::<u8>::empty());
    } else {
        lemma_nibbles_of_value(v, m - 1);
        let cur = Seq::new(m as nat, |i: int| nibble_of(v, i));
        assert(cur.drop_last() =~= Seq::new((m - 1) as nat, |i: int| nibble_of(v, i)));
        assert(cur.last() == nibble_of(v, m - 1));
        let e = (32 - m) as nat;
        lemma_pow_positive(16, e);
        lemma_div_denominator(v as int, pow(16, e), 16);
        lemma_pow16_step(e);
        let q = (v as int) / pow(16, e);
        vstd::arithmetic::div_mod::lemma_fundamental_div_mod(q, 16);
        assert((v as int) / pow(16, (33 - m) as nat) == q / 16);
        assert(nibbles_value(cur) == (q / 16) * 16 + q % 16);
    }
}

/// Formatting and re-parsing an identifier is the identity: the
/// hyphenated form a value renders to is well shaped and denotes the
/// value itself, so `parse_uuid` undoes `uuid_to_string`.
pub proof fn lemma_uuid_round_trip(v: u128)
    ensures
        is_uuid_str(uuid_chars_of(v)),
        uuid_value_of(uuid_chars_of(v)) == v as int,
{
    let s = uuid_chars_of(v);
    assert forall|i: int| 0 <= i < 32 implies is_hex_char(#[trigger] s[digit_pos(i)]) by {
        assert(nibble_index(digit_pos(i)) == i);
        assert(nibble_of(v, i) < 16);
        assert(s[digit_pos(i)] == hex_digit(nibble_of(v, i)));
    };
    assert forall|i: int| 0 <= i < 32 implies (#[trigger] uuid_digit_vals(s)[i]) == nibble_of(
        v,
        i,
    ) by {
        assert(nibble_index(digit_pos(i)) == i);
        assert(nibble_of(v, i) < 16);
        assert(s[digit_pos(i)] == hex_digit(nibble_of(v, i)));
    };
    assert(uuid_digit_vals(s) =~= Seq::new(32, |i: int| nibble_of(v, i)));
    lemma_nibbles_of_value(v, 32);
    lemma_pow0(16);
}

/// The all-zero identifier, which no real item may carry.
pub open spec fn uuid_is_nil(v: u128) -> bool {
    v == 0
}

/// The version nibble: the thirteenth hex digit of the hyphenated form.
pub open spec fn uuid_version(v: u128) -> u8 {
    nibble_of(v, 12)
}

/// Extract the version nibble.
pub fn uuid_version_of(v: u128) -> (r: u8)
    ensures
        r == uuid_version(v),
{
    let p: u128 = 0x10000000000000000000;
    proof {
        assert(pow(16, 19) == 0x10000000000000000000) by {
            reveal_with_fuel(pow, 20);
        }
    }
    ((v / p) % 16) as u8
}

/// The single-character string for a hex digit.
fn hex_digit_str(d: u8) -> (r: &'static str)
    requires
        d < 16,
    ensures
        r@.len() == 1,
        r@[0] == hex_digit(d),
{
    proof {
        reveal_strlit("0");
        reveal_strlit("1");
        reveal_strlit("2");
        reveal_strlit("3");
        reveal_strlit("4");
        reveal_strlit("5");
        reveal_strlit("6");
        reveal_strlit("7");
        reveal_strlit("8");
        reveal_strlit("9");
        reveal_strlit("a");
        reveal_strlit("b");
        reveal_strlit("c");
        reveal_strlit("d");
        reveal_strlit("e");
        reveal_strlit("f");
    }
    match d {
        0 => "0",
        1 => "1",
        2 => "2",
        3 => "3",
        4 => "4",
        5 => "5",
        6 => "6",
        7 => "7",
        8 => "8",
        9 => "9",
        10 => "a",
        11 => "b",
        12 => "c",
        13 => "d",
        14 => "e",
        _ => "f",
    }
}

/// Render a 128-bit value in the canonical lowercase hyphenated form.
pub fn uuid_to_string(v: u128) -> (r: String)
    ensures
        r@ == uuid_chars_of(v),
{
    let mut ds: Vec<u8> = Vec::new();
    let mut w: u128 = v;
    let mut j: usize = 0;
    proof {
        lemma_pow0(16);
    }
    while j < 32
        invariant
            0 <= j <= 32,
            ds@.len() == j,
            w as int == (v as int) / pow(16, j as nat),
            forall|m: int| 0 <= m < j ==> (#[trigger] ds@[m]) == nibble_of(v, 31 - m) && ds@[m] < 16,
        decreases 32 - j,
    {
        let d = (w % 16) as u8;
        proof {
            assert(d == nibble_of(v, 31 - j));
            lemma_pow_positive(16, j as nat);
            lemma_div_denominator(v as int, pow(16, j as nat), 16);
            lemma_pow16_step(j as nat);
            assert((w as int) / 16 == (v as int) / pow(16, (j + 1) as nat));
        }
        ds.push(d);
        w = w / 16;
        j = j + 1;
    }
    let mut out = String::new();
    let mut p: usize = 0;
    while p < 36
        invariant
            0 <= p <= 36,
            ds@.len() == 32,
            forall|m: int| 0 <= m < 32 ==> (#[trigger] ds@[m]) == nibble_of(v, 31 - m) && ds@[m] < 16,
            out@ == uuid_chars_of(v).subrange(0, p as int),
        decreases 36 - p,
    {
        if p == 8 || p == 13 || p == 18 || p == 23 {
            out.append("-");
            proof {
                reveal_strlit("-");
                assert(out@ =~= uuid_chars_of(v).subrange(0, p + 1 as int));
            }
        } else {
            let ni: usize = if p < 8 {
                p
            } else if p < 13 {
                p - 1
            } else if p < 18 {
                p - 2
            } else if p < 23 {
                p - 3
            } else {
                p - 4
            };
            proof {
                assert(ni as int == nibble_index(p as int));
            }
            let piece = hex_digit_str(ds[31 - ni]);
            out.append(piece);
            proof {
                assert(out@ =~= uuid_chars_of(v).subrange(0, p + 1 as int));
            }
        }
        p = p + 1;
    }
    proof {
        assert(uuid_chars_of(v).subrange(0, 36) =~= uuid_chars_of(v));
    }
    out
}

} // verus!
