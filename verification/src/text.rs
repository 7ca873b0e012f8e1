//! Small text utilities shared by configuration and form handling:
//! building strings from decoded bytes, ASCII reasoning, decimal
//! parsing, and case-insensitive comparison.

use vstd::prelude::*;
use vstd::utf8::{
    decode_utf8, encode_utf8, encode_utf8_decode_utf8, encode_utf8_valid_utf8, is_ascii_chars,
    is_ascii_chars_encode_utf8, valid_utf8,
};

verus! {

/// What `String::from_utf8_lossy` returns on an arbitrary byte sequence;
/// it depends on the bytes alone.
pub uninterp spec fn lossy_utf8(bytes: Seq<u8>) -> Seq<char>;

/// Relies on `String::from_utf8_lossy`: valid UTF-8 is decoded unchanged,
/// and the result is a function of the bytes alone.
#[verifier::external_body]
pub fn string_from_bytes_lossy(bytes: &Vec<u8>) -> (r: String)
    ensures
        r@ == lossy_utf8(bytes@),
        valid_utf8(bytes@) ==> r@ == decode_utf8(bytes@),
{
    String::from_utf8_lossy(bytes.as_slice()).into_owned()
}

/// The characters an ASCII byte sequence stands for.
pub open spec fn ascii_chars_of(bytes: Seq<u8>) -> Seq<char> {
    bytes.map_values(|b: u8| b as char)
}

/// The bytes of an ASCII character sequence.
pub open spec fn ascii_bytes_of(chars: Seq<char>) -> Seq<u8> {
    chars.map_values(|c: char| c as u8)
}

/// A sequence of bytes below 0x80 is valid UTF-8 and decodes to the
/// characters with the same values.
pub proof fn lemma_ascii_bytes_decode(bytes: Seq<u8>)
    requires
        forall|i: int| 0 <= i < bytes.len() ==> bytes[i] < 0x80,
    ensures
        valid_utf8(bytes),
        decode_utf8(bytes) == ascii_chars_of(bytes),
{
    let chars = ascii_chars_of(bytes);
    assert forall|i: int| 0 <= i < chars.len() implies '\0' <= #[trigger] chars[i] <= '\u{7f}' by {
        assert(chars[i] == bytes[i] as char);
        assert(chars[i] as u32 == bytes[i] as u32);
    }
    assert(is_ascii_chars(chars));
    is_ascii_chars_encode_utf8(chars);
    assert forall|i: int| 0 <= i < chars.len() implies encode_utf8(chars)[i] == bytes[i] by {
        assert(chars[i] as u8 == encode_utf8(chars)[i]);
        assert(chars[i] as u32 == bytes[i] as u32);
    }
    assert(encode_utf8(chars) =~= bytes);
    encode_utf8_valid_utf8(chars);
    encode_utf8_decode_utf8(chars);
}

/// A character sequence of bytes below 0x80 maps back to those bytes.
pub proof fn lemma_ascii_chars_encode(chars: Seq<char>)
    requires
        is_ascii_chars(chars),
    ensures
        encode_utf8(chars) == ascii_bytes_of(chars),
        forall|i: int| 0 <= i < chars.len() ==> ascii_bytes_of(chars)[i] < 0x80,
        ascii_chars_of(ascii_bytes_of(chars)) == chars,
{
    is_ascii_chars_encode_utf8(chars);
    assert(encode_utf8(chars) =~= ascii_bytes_of(chars));
    assert forall|i: int| 0 <= i < chars.len() implies ascii_bytes_of(chars)[i] < 0x80 by {
        assert((chars[i] as u32) < 0x80);
    }
    assert forall|i: int| 0 <= i < chars.len() implies ascii_chars_of(ascii_bytes_of(chars))[i]
        == chars[i] by {
        vstd::utf8::char_u32_cast(chars[i], chars[i] as u32);
        assert(ascii_bytes_of(chars)[i] == chars[i] as u8);
        assert((chars[i] as u8) as u32 == chars[i] as u32);
    }
    assert(ascii_chars_of(ascii_bytes_of(chars)) =~= chars);
}

/// Whether `c` is an ASCII decimal digit.
pub open spec fn is_digit(c: char) -> bool {
    48 <= (c as u32) <= 57
}

/// The numeric value of a sequence of decimal digits (most significant
/// first).
pub open spec fn digits_val(s: Seq<char>) -> int
    decreases s.len(),
{
    if s.len() == 0 {
        0
    } else {
        digits_val(s.drop_last()) * 10 + ((s.last() as u32) - 48)
    }
}

/// Whether every character of `s` is a decimal digit.
pub open spec fn all_digits(s: Seq<char>) -> bool {
    forall|i: int| 0 <= i < s.len() ==> is_digit(#[trigger] s[i])
}

/// What parsing `s` as an unsigned 16-bit number yields: the digits'
/// value when `s` is one or more digits, optionally preceded by `+`,
/// whose value fits; nothing otherwise.
pub open spec fn spec_parse_u16(s: Seq<char>) -> Option<u16> {
    let t = if s.len() > 0 && s[0] == '+' {
        s.drop_first()
    } else {
        s
    };
    if t.len() > 0 && all_digits(t) && digits_val(t) <= 0xffff {
        Some(digits_val(t) as u16)
    } else {
        None
    }
}

/// The value of a digit string never falls when digits are appended.
proof fn lemma_digits_val_grows(s: Seq<char>, i: int)
    requires
        all_digits(s),
        0 <= i <= s.len(),
    ensures
        digits_val(s) >= digits_val(s.take(i)),
        digits_val(s) >= 0,
    decreases s.len(),
{
    if s.len() == 0 {
    } else {
        lemma_digits_val_grows(s.drop_last(), if i < s.len() { i } else { i - 1 });
        if i < s.len() {
            assert(s.drop_last().take(i) =~= s.take(i));
        } else {
            assert(s.take(i) =~= s);
        }
        assert(digits_val(s) == digits_val(s.drop_last()) * 10 + ((s.last() as u32) - 48));
    }
}

/// Parses a decimal (optionally `+`-prefixed) unsigned 16-bit number.
pub fn parse_u16(s: &str) -> (r: Option<u16>)
    ensures
        r == spec_parse_u16(s@),
{
    let n = s.unicode_len();
    let start: usize = if n > 0 && s.get_char(0) == '+' {
        1
    } else {
        0
    };
    let ghost t = if start == 1 {
        s@.drop_first()
    } else {
        s@
    };
    proof {
        assert(t =~= s@.subrange(start as int, n as int));
        assert(start == 1 <==> s@.len() > 0 && s@[0] == '+');
    }
    if n == start {
        return None;
    }
    let mut acc: u32 = 0;
    let mut i: usize = start;
    while i < n
        invariant
            start <= i <= n,
            n == s@.len(),
            start == 1 <==> s@.len() > 0 && s@[0] == '+',
            start <= 1,
            t == s@.subrange(start as int, n as int),
            t == (if s@.len() > 0 && s@[0] == '+' {
                s@.drop_first()
            } else {
                s@
            }),
            acc <= 0xffff,
            all_digits(t.take(i - start)),
            acc == digits_val(t.take(i - start)),
        decreases n - i,
    {
        let c = s.get_char(i);
        let v = c as u32;
        if v < 48 || v > 57 {
            proof {
                let idx: int = i as int - start as int;
                assert(t[idx] == s@.subrange(start as int, n as int)[idx]);
                assert(t[idx] == c);
                assert(!is_digit(t[idx]));
                assert(!all_digits(t));
                assert(spec_parse_u16(s@) is None);
            }
            return None;
        }
        proof {
            assert(t.take(i - start + 1).drop_last() =~= t.take(i - start));
            assert(t.take(i - start + 1).last() == t[i - start] == c);
        }
        let next = acc * 10 + (v - 48);
        if next > 0xffff {
            proof {
                let idx: int = i as int - start as int;
                assert(t.take(idx + 1).drop_last() =~= t.take(idx));
                assert(t.take(idx + 1).last() == t[idx] == c);
                assert(digits_val(t.take(idx + 1)) == digits_val(t.take(idx)) * 10 + ((c
                    as u32) - 48));
                assert(digits_val(t.take(idx + 1)) == next);
                if all_digits(t) {
                    lemma_digits_val_grows(t, idx + 1);
                    assert(digits_val(t) > 0xffff);
                }
                assert(spec_parse_u16(s@) is None);
            }
            return None;
        }
        acc = next;
        i += 1;
    }
    proof {
        assert(t.take(n - start) =~= t);
    }
    Some(acc as u16)
}

/// Compares two strings character by character.
pub fn str_eq(a: &str, b: &str) -> (r: bool)
    ensures
        r == (a@ == b@),
{
    let n = a.unicode_len();
    if n != b.unicode_len() {
        return false;
    }
    let mut i: usize = 0;
    while i < n
        invariant
            0 <= i <= n,
            n == a@.len() == b@.len(),
            forall|j: int| 0 <= j < i ==> a@[j] == #[trigger] b@[j],
        decreases n - i,
    {
        if a.get_char(i) != b.get_char(i) {
            return false;
        }
        i += 1;
    }
    proof {
        assert(a@ =~= b@);
    }
    true
}

/// Whether `c` reads as the (lower-case) letter `l` up to ASCII case.
pub open spec fn ci_char_eq(c: char, l: char) -> bool {
    c == l || (65 <= (c as u32) <= 90 && (c as u32) + 32 == (l as u32))
}

/// Whether `s` reads as the lower-case reference `t` up to ASCII case.
pub open spec fn ci_matches(s: Seq<char>, t: Seq<char>) -> bool {
    s.len() == t.len() && forall|i: int| 0 <= i < s.len() ==> ci_char_eq(s[i], #[trigger] t[i])
}

/// Compares `s` against the lower-case reference `t`, ignoring ASCII
/// case in `s`.
pub fn eq_ignore_ascii_case(s: &str, t: &str) -> (r: bool)
    ensures
        r == ci_matches(s@, t@),
{
    let n = s.unicode_len();
    if n != t.unicode_len() {
        return false;
    }
    let mut i: usize = 0;
    while i < n
        invariant
            0 <= i <= n,
            n == s@.len() == t@.len(),
            forall|j: int| 0 <= j < i ==> ci_char_eq(s@[j], #[trigger] t@[j]),
        decreases n - i,
    {
        let c = s.get_char(i) as u32;
        let l = t.get_char(i) as u32;
        if !(c == l || (65 <= c && c <= 90 && c + 32 == l)) {
            proof {
                vstd::utf8::char_u32_cast(s@[i as int], c);
                vstd::utf8::char_u32_cast(t@[i as int], l);
            }
            return false;
        }
        proof {
            vstd::utf8::char_u32_cast(s@[i as int], c);
            vstd::utf8::char_u32_cast(t@[i as int], l);
        }
        i += 1;
    }
    true
}

} // verus!
