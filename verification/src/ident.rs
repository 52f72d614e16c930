//! Rendering and parsing of 128-bit identifiers.
//!
//! An identifier is rendered as 32 lowercase hex digits in five
//! hyphen-separated groups (8-4-4-4-12), the canonical textual form.  The
//! secondary email index stores this rendering as ASCII bytes, so the module
//! also proves that parsing the rendering recovers the identifier exactly.

use vstd::prelude::*;
use vstd::arithmetic::power::{pow, lemma_pow_adds, lemma_pow0, lemma_pow1, lemma_pow_positive};
use vstd::arithmetic::div_mod::{
    lemma_fundamental_div_mod,
    lemma_div_denominator,
    lemma_div_basics_2,
    lemma_multiply_divide_lt,
};
use vstd::utf8::is_ascii_chars;

verus! {

/// Character for one hex digit value in `0..16`.
pub open spec fn nib_char(d: int) -> char {
    if d == 0 {
        '0'
    } else if d == 1 {
        '1'
    } else if d == 2 {
        '2'
    } else if d == 3 {
        '3'
    } else if d == 4 {
        '4'
    } else if d == 5 {
        '5'
    } else if d == 6 {
        '6'
    } else if d == 7 {
        '7'
    } else if d == 8 {
        '8'
    } else if d == 9 {
        '9'
    } else if d == 10 {
        'a'
    } else if d == 11 {
        'b'
    } else if d == 12 {
        'c'
    } else if d == 13 {
        'd'
    } else if d == 14 {
        'e'
    } else {
        'f'
    }
}

/// Hex digit value of an ASCII byte, for lowercase digits only.
pub open spec fn nib_val(b: u8) -> Option<int> {
    if 48 <= b < 58 {
        Some(b as int - 48)
    } else if 97 <= b < 103 {
        Some(b as int - 87)
    } else {
        None
    }
}

/// `n` hex characters of `v`, most significant digit first.
pub open spec fn hex_seq(v: int, n: nat) -> Seq<char>
    decreases n,
{
    if n == 0 {
        Seq::empty()
    } else {
        hex_seq(v / 16, (n - 1) as nat) + seq![nib_char(v % 16)]
    }
}

/// Textual form of an identifier: 32 hex digits in groups of 8-4-4-4-12.
pub open spec fn spec_id_chars(id: u128) -> Seq<char> {
    let h = hex_seq(id as int, 32);
    h.subrange(0, 8) + seq!['-'] + h.subrange(8, 12) + seq!['-'] + h.subrange(12, 16)
        + seq!['-'] + h.subrange(16, 20) + seq!['-'] + h.subrange(20, 32)
}

/// Position of the `k`-th hex digit inside the hyphenated rendering.
pub open spec fn data_index(k: int) -> int {
    if k < 8 {
        k
    } else if k < 12 {
        k + 1
    } else if k < 16 {
        k + 2
    } else if k < 20 {
        k + 3
    } else {
        k + 4
    }
}

/// Value of the first `n` bytes of `s` read as hex digits, most significant
/// first; `None` if any of them is not a lowercase hex digit.
pub open spec fn hex_parse(s: Seq<u8>, n: nat) -> Option<int>
    decreases n,
{
    if n == 0 {
        Some(0)
    } else {
        match (hex_parse(s, (n - 1) as nat), nib_val(s[n - 1])) {
            (Some(acc), Some(d)) => Some(acc * 16 + d),
            _ => None,
        }
    }
}

/// The 32 digit bytes of a 36-byte hyphenated rendering.
pub open spec fn digit_bytes(s: Seq<u8>) -> Seq<u8> {
    Seq::new(32, |k: int| s[data_index(k)])
}

/// Identifier denoted by `s`, when `s` is exactly a hyphenated lowercase
/// rendering as produced by [`spec_id_chars`]; `None` otherwise.
pub open spec fn spec_parse_id(s: Seq<u8>) -> Option<u128> {
    if s.len() == 36 && s[8] == 45 && s[13] == 45 && s[18] == 45 && s[23] == 45 {
        match hex_parse(digit_bytes(s), 32) {
            Some(v) => if 0 <= v < pow(16, 32) {
                Some(v as u128)
            } else {
                None
            },
            None => None,
        }
    } else {
        None
    }
}

/// Every character a [`hex_seq`] produces is a plain ASCII hex digit.
proof fn lemma_hex_seq_ascii(v: int, n: nat)
    ensures
        hex_seq(v, n).len() == n,
        is_ascii_chars(hex_seq(v, n)),
    decreases n,
{
    if n > 0 {
        lemma_hex_seq_ascii(v / 16, (n - 1) as nat);
        let s = hex_seq(v, n);
        assert forall|i: int| 0 <= i < s.len() implies '\0' <= #[trigger] s[i] <= '\u{7f}' by {
            if i < n - 1 {
                assert(s[i] == hex_seq(v / 16, (n - 1) as nat)[i]);
            }
        }
    }
}

/// The digits of the hyphenated rendering are the digits of [`hex_seq`],
/// and the hyphens sit at their fixed positions.
proof fn lemma_id_chars_shape(id: u128)
    ensures
        spec_id_chars(id).len() == 36,
        is_ascii_chars(spec_id_chars(id)),
        spec_id_chars(id)[8] == '-',
        spec_id_chars(id)[13] == '-',
        spec_id_chars(id)[18] == '-',
        spec_id_chars(id)[23] == '-',
        forall|k: int|
            0 <= k < 32 ==> #[trigger] spec_id_chars(id)[data_index(k)] == hex_seq(
                id as int,
                32,
            )[k],
{
    lemma_hex_seq_ascii(id as int, 32);
    let s = spec_id_chars(id);
    assert forall|i: int| 0 <= i < s.len() implies '\0' <= #[trigger] s[i] <= '\u{7f}' by {
        if i == 8 || i == 13 || i == 18 || i == 23 {
        } else {
            let h = hex_seq(id as int, 32);
            assert('\0' <= h[if i < 8 {
                i
            } else if i < 13 {
                i - 1
            } else if i < 18 {
                i - 2
            } else if i < 23 {
                i - 3
            } else {
                i - 4
            }] <= '\u{7f}');
        }
    }
}

/// Parsing `n` hex characters of `v`, taken as ASCII bytes, yields `v` back.
proof fn lemma_hex_parse_of_hex_seq(v: int, n: nat, s: Seq<u8>)
    requires
        0 <= v < pow(16, n),
        s.len() >= n,
        forall|i: int| 0 <= i < n ==> s[i] == #[trigger] hex_seq(v, n)[i] as u8,
    ensures
        hex_parse(s, n) == Some(v),
    decreases n,
{
    if n == 0 {
        lemma_pow0(16);
    } else {
        let q = v / 16;
        let r = v % 16;
        lemma_fundamental_div_mod(v, 16);
        lemma_pow16_step((n - 1) as nat);
        lemma_multiply_divide_lt(v, 16, pow(16, (n - 1) as nat));
        lemma_hex_seq_ascii(q, (n - 1) as nat);
        assert forall|i: int| 0 <= i < n - 1 implies s[i] == #[trigger] hex_seq(
            q,
            (n - 1) as nat,
        )[i] as u8 by {
            assert(hex_seq(v, n)[i] == hex_seq(q, (n - 1) as nat)[i]);
        }
        lemma_hex_parse_of_hex_seq(q, (n - 1) as nat, s);
        assert(hex_seq(v, n)[n - 1] == nib_char(r));
        assert(s[n - 1] == nib_char(r) as u8);
        assert(nib_val(nib_char(r) as u8) == Some(r));
    }
}

/// One more hex digit multiplies the range by 16.
proof fn lemma_pow16_step(e: nat)
    ensures
        pow(16, (e + 1) as nat) == 16 * pow(16, e),
{
    lemma_pow1(16);
    lemma_pow_adds(16, 1, e);
}

/// `pow(16, 32)` is exactly the number of 128-bit values.
proof fn lemma_pow16_32()
    ensures
        pow(16, 32) == 0x100000000000000000000000000000000,
{
    lemma_pow1(16);
    lemma_pow_adds(16, 1, 1);
    assert(pow(16, 2) == 256);
    lemma_pow_adds(16, 2, 2);
    assert(pow(16, 4) == 65536);
    lemma_pow_adds(16, 4, 4);
    assert(pow(16, 8) == 0x100000000);
    lemma_pow_adds(16, 8, 8);
    assert(pow(16, 16) == 0x10000000000000000);
    lemma_pow_adds(16, 16, 16);
}

/// Round trip: parsing the ASCII rendering of an identifier gives it back.
///
/// `s` is any byte sequence that agrees byte-for-byte with the rendering,
/// such as its UTF-8 encoding.
pub proof fn lemma_parse_of_id_chars(id: u128, s: Seq<u8>)
    requires
        s.len() == spec_id_chars(id).len(),
        forall|i: int| 0 <= i < s.len() ==> s[i] == #[trigger] spec_id_chars(id)[i] as u8,
    ensures
        spec_parse_id(s) == Some(id),
{
    lemma_id_chars_shape(id);
    lemma_pow16_32();
    assert(s[8] == 45 && s[13] == 45 && s[18] == 45 && s[23] == 45);
    let d = digit_bytes(s);
    assert forall|k: int| 0 <= k < 32 implies d[k] == #[trigger] hex_seq(id as int, 32)[k] as u8 by {
        assert(s[data_index(k)] == spec_id_chars(id)[data_index(k)] as u8);
    }
    lemma_hex_parse_of_hex_seq(id as int, 32, d);
}

/// Distinct identifiers have distinct renderings.
pub proof fn lemma_id_chars_injective(a: u128, b: u128)
    requires
        spec_id_chars(a) == spec_id_chars(b),
    ensures
        a == b,
{
    lemma_id_chars_shape(a);
    lemma_id_chars_shape(b);
    let sa = Seq::new(36, |i: int| spec_id_chars(a)[i] as u8);
    let sb = Seq::new(36, |i: int| spec_id_chars(b)[i] as u8);
    assert(sa =~= sb);
    lemma_parse_of_id_chars(a, sa);
    lemma_parse_of_id_chars(b, sb);
}

/// Renders an identifier as 32 lowercase hex digits in groups of 8-4-4-4-12.
pub fn format_id(id: u128) -> (r: String)
    ensures
        r@ == spec_id_chars(id),
        r@.len() == 36,
{
    proof {
        lemma_pow0(16);
        lemma_div_basics_2(id as int);
    }
    let mut nib: Vec<u8> = Vec::new();
    let mut v: u128 = id;
    for j in 0..32usize
        invariant
            nib.len() == j,
            v as int == id as int / pow(16, j as nat),
            forall|t: int|
                0 <= t < j ==> nib[t] as int == #[trigger] (id as int / pow(16, t as nat)) % 16,
    {
        proof {
            lemma_pow_positive(16, j as nat);
            lemma_div_denominator(id as int, pow(16, j as nat), 16);
            lemma_pow16_step(j as nat);
        }
        nib.push((v % 16) as u8);
        v = v / 16;
    }
    let mut hex = String::new();
    let mut k: usize = 0;
    while k < 32
        invariant
            0 <= k <= 32,
            nib.len() == 32,
            forall|t: int|
                0 <= t < 32 ==> nib[t] as int == #[trigger] (id as int / pow(16, t as nat)) % 16,
            hex@ =~= hex_seq(id as int, 32).take(k as int),
        decreases 32 - k,
    {
        proof {
            lemma_hex_seq_index(id as int, 32, k as int);
            lemma_hex_seq_ascii(id as int, 32);
        }
        let d = nib[31 - k];
        let piece = hex_digit_str(d);
        hex.append(piece);
        proof {
            assert(hex@ =~= hex_seq(id as int, 32).take(k as int + 1));
        }
        k = k + 1;
    }
    proof {
        lemma_hex_seq_ascii(id as int, 32);
        assert(hex@ =~= hex_seq(id as int, 32));
        assert(hex.is_ascii()) by {
            assert(is_ascii_chars(hex@));
        }
    }
    let mut out = String::new();
    out.append(hex.as_str().substring_ascii(0, 8));
    out.append("-");
    out.append(hex.as_str().substring_ascii(8, 12));
    out.append("-");
    out.append(hex.as_str().substring_ascii(12, 16));
    out.append("-");
    out.append(hex.as_str().substring_ascii(16, 20));
    out.append("-");
    out.append(hex.as_str().substring_ascii(20, 32));
    proof {
        reveal_strlit("-");
        assert(out@ =~= spec_id_chars(id));
        lemma_id_chars_shape(id);
    }
    out
}

/// Character of [`hex_seq`] at one index, in terms of the digit there.
proof fn lemma_hex_seq_index(v: int, n: nat, i: int)
    requires
        0 <= v,
        0 <= i < n,
    ensures
        hex_seq(v, n)[i] == nib_char((v / pow(16, (n - 1 - i) as nat)) % 16),
    decreases n,
{
    lemma_hex_seq_ascii(v / 16, (n - 1) as nat);
    if i == n - 1 {
        lemma_pow0(16);
        lemma_div_basics_2(v);
    } else {
        lemma_hex_seq_index(v / 16, (n - 1) as nat, i);
        assert(hex_seq(v, n)[i] == hex_seq(v / 16, (n - 1) as nat)[i]);
        let e = (n - 2 - i) as nat;
        lemma_pow_positive(16, e);
        lemma_div_denominator(v, pow(16, e), 16);
        lemma_div_denominator(v, 16, pow(16, e));
        lemma_pow16_step(e);
        assert((v / 16) / pow(16, e) == v / pow(16, (n - 1 - i) as nat));
    }
}

/// One-character string for a hex digit value.
fn hex_digit_str(d: u8) -> (r: &'static str)
    requires
        d < 16,
    ensures
        r@ =~= seq![nib_char(d as int)],
{
    proof {
        reveal_strlit("0");
        reveal_strlit("1");
        reveal_strlit("2");
        reveal_strlit("3");
        reveal_strlit("4");
        reveal_strlit("5");
        reveal_strlit("6");
        reveal_strlit("7");
        reveal_strlit("8");
        reveal_strlit("9");
        reveal_strlit("a");
        reveal_strlit("b");
        reveal_strlit("c");
        reveal_strlit("d");
        reveal_strlit("e");
        reveal_strlit("f");
    }
    match d {
        0 => "0",
        1 => "1",
        2 => "2",
        3 => "3",
        4 => "4",
        5 => "5",
        6 => "6",
        7 => "7",
        8 => "8",
        9 => "9",
        10 => "a",
        11 => "b",
        12 => "c",
        13 => "d",
        14 => "e",
        _ => "f",
    }
}

/// Hex digit value of one ASCII byte, mirroring [`nib_val`].
fn unhex(b: u8) -> (r: Option<u8>)
    ensures
        match r {
            Some(d) => nib_val(b) == Some(d as int) && d < 16,
            None => nib_val(b) is None,
        },
{
    if 48 <= b && b < 58 {
        Some(b - 48)
    } else if 97 <= b && b < 103 {
        Some(b - 87)
    } else {
        None
    }
}

/// Parses a hyphenated lowercase hex rendering back into an identifier,
/// mirroring [`spec_parse_id`] exactly.
pub fn parse_id(s: &Vec<u8>) -> (r: Option<u128>)
    ensures
        r == spec_parse_id(s@),
{
    if s.len() != 36 {
        return None;
    }
    if s[8] != 45 || s[13] != 45 || s[18] != 45 || s[23] != 45 {
        return None;
    }
    let ghost d = digit_bytes(s@);
    proof {
        lemma_pow0(16);
    }
    let mut acc: u128 = 0;
    let mut k: usize = 0;
    while k < 32
        invariant
            0 <= k <= 32,
            s.len() == 36,
            d == digit_bytes(s@),
            hex_parse(d, k as nat) == Some(acc as int),
            (acc as int) < pow(16, k as nat),
        decreases 32 - k,
    {
        let idx = if k < 8 {
            k
        } else if k < 12 {
            k + 1
        } else if k < 16 {
            k + 2
        } else if k < 20 {
            k + 3
        } else {
            k + 4
        };
        let b = s[idx];
        proof {
            assert(d[k as int] == s@[data_index(k as int)]);
        }
        match unhex(b) {
            Some(dig) => {
                proof {
                    lemma_pow16_step(k as nat);
                    lemma_pow16_32();
                    vstd::arithmetic::power::lemma_pow_increases(16, (k + 1) as nat, 32);
                }
                acc = acc * 16 + (dig as u128);
            },
            None => {
                proof {
                    assert(hex_parse(d, 32) is None) by {
                        lemma_hex_parse_none(d, (k + 1) as nat, 32);
                    }
                }
                return None;
            },
        }
        k = k + 1;
    }
    proof {
        lemma_pow16_32();
    }
    Some(acc)
}

/// A failed digit poisons every longer parse.
proof fn lemma_hex_parse_none(s: Seq<u8>, n: nat, m: nat)
    requires
        n <= m,
        hex_parse(s, n) is None,
    ensures
        hex_parse(s, m) is None,
    decreases m - n,
{
    if m > n {
        lemma_hex_parse_none(s, n, (m - 1) as nat);
    }
}


/// Round trip through UTF-8: parsing the UTF-8 encoding of the rendering
/// gives the identifier back.  This is the form the email index stores.
pub proof fn lemma_parse_encoded_id(id: u128)
    ensures
        spec_parse_id(vstd::utf8::encode_utf8(spec_id_chars(id))) == Some(id),
{
    lemma_id_chars_shape(id);
    vstd::utf8::is_ascii_chars_encode_utf8(spec_id_chars(id));
    lemma_parse_of_id_chars(id, vstd::utf8::encode_utf8(spec_id_chars(id)));
}

} // verus!
