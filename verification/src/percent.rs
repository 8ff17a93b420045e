//! Percent-encoding of text: what an encoded text stands for, and how a text
//! is written encoded.

use vstd::prelude::*;
use vstd::utf8::{
    decode_utf8, encode_utf8, encode_utf8_decode_utf8, encode_utf8_valid_utf8, is_ascii_chars,
    is_ascii_chars_encode_utf8, valid_utf8,
};

verus! {

/// The value of a hexadecimal digit given as a byte, of either case.
pub open spec fn hex_value(b: u8) -> Option<u8> {
    if 0x30 <= b <= 0x39 {
        Some((b - 0x30) as u8)
    } else if 0x41 <= b <= 0x46 {
        Some((b - 0x41 + 10) as u8)
    } else if 0x61 <= b <= 0x66 {
        Some((b - 0x61 + 10) as u8)
    } else {
        None
    }
}

/// Whether `bytes` starts with a percent sign and two hexadecimal digits.
pub open spec fn starts_with_escape(bytes: Seq<u8>) -> bool {
    &&& bytes.len() >= 3
    &&& bytes[0] == 0x25
    &&& hex_value(bytes[1]) is Some
    &&& hex_value(bytes[2]) is Some
}

/// `bytes` with each escape (a percent sign and two hexadecimal digits)
/// replaced by the byte it stands for, read from the left; every other
/// byte, a lone percent sign too, stays.
pub open spec fn unescaped(bytes: Seq<u8>) -> Seq<u8>
    decreases bytes.len(),
{
    if bytes.len() == 0 {
        Seq::empty()
    } else if starts_with_escape(bytes) {
        seq![(hex_value(bytes[1])->0 * 16 + hex_value(bytes[2])->0) as u8] + unescaped(
            bytes.skip(3),
        )
    } else {
        seq![bytes[0]] + unescaped(bytes.skip(1))
    }
}

/// The text that a percent-encoded text stands for: its UTF-8 bytes with
/// the escapes resolved, read as UTF-8 again. There is none where those
/// bytes are not UTF-8.
pub open spec fn percent_decoded(s: Seq<char>) -> Option<Seq<char>> {
    let raw = unescaped(encode_utf8(s));
    if valid_utf8(raw) {
        Some(decode_utf8(raw))
    } else {
        None
    }
}

/// Resolves the percent escapes of `s`.
///
/// Calls `urlencoding::decode`, which replaces each percent sign that two
/// hexadecimal digits follow by the byte they spell, keeps every other byte,
/// and fails where the bytes that come out are not UTF-8.
#[verifier::external_body]
pub(crate) fn percent_decode(s: &str) -> (r: Option<String>)
    ensures
        match r {
            Some(t) => percent_decoded(s@) == Some(t@),
            None => percent_decoded(s@) is None,
        },
{
    match urlencoding::decode(s) {
        Ok(t) => Some(t.into_owned()),
        Err(_) => None,
    }
}

/// Whether a byte is written as it is in an encoded text: a letter or digit
/// of ASCII, or one of `-`, `.`, `_`, `~`.
pub open spec fn unreserved(b: u8) -> bool {
    ||| 0x30 <= b <= 0x39
    ||| 0x41 <= b <= 0x5a
    ||| 0x61 <= b <= 0x7a
    ||| b == 0x2d
    ||| b == 0x2e
    ||| b == 0x5f
    ||| b == 0x7e
}

/// The hexadecimal digit, in upper case, for a value below 16.
pub open spec fn hex_digit(v: u8) -> u8 {
    if v < 10 {
        (0x30 + v) as u8
    } else {
        (0x41 + v - 10) as u8
    }
}

/// `bytes` with every byte that is not unreserved written as a percent sign
/// and its two hexadecimal digits.
pub open spec fn escaped(bytes: Seq<u8>) -> Seq<u8>
    decreases bytes.len(),
{
    if bytes.len() == 0 {
        Seq::empty()
    } else if unreserved(bytes[0]) {
        seq![bytes[0]] + escaped(bytes.skip(1))
    } else {
        seq![0x25u8, hex_digit(bytes[0] / 16), hex_digit(bytes[0] % 16)] + escaped(bytes.skip(1))
    }
}

/// Bytes of ASCII as characters.
pub open spec fn ascii_text(bytes: Seq<u8>) -> Seq<char> {
    Seq::new(bytes.len(), |i: int| bytes[i] as char)
}

/// A text written percent-encoded.
pub open spec fn percent_encoded(s: Seq<char>) -> Seq<char> {
    ascii_text(escaped(encode_utf8(s)))
}

/// Resolving the escapes of escaped bytes gives the bytes back.
pub proof fn lemma_unescape_escaped(bytes: Seq<u8>)
    ensures
        unescaped(escaped(bytes)) == bytes,
    decreases bytes.len(),
{
    if bytes.len() > 0 {
        let x = bytes[0];
        let rest = escaped(bytes.skip(1));
        lemma_unescape_escaped(bytes.skip(1));
        if unreserved(x) {
            let all = seq![x] + rest;
            assert(all[0] == x);
            assert(all.skip(1) =~= rest);
            assert(seq![x] + bytes.skip(1) =~= bytes);
        } else {
            let high = hex_digit(x / 16);
            let low = hex_digit(x % 16);
            let all = seq![0x25u8, high, low] + rest;
            assert(all[0] == 0x25 && all[1] == high && all[2] == low);
            assert(hex_value(high) == Some((x / 16) as u8));
            assert(hex_value(low) == Some((x % 16) as u8));
            assert(all.skip(3) =~= rest);
            assert(((x / 16) * 16 + x % 16) as u8 == x);
            assert(seq![x] + bytes.skip(1) =~= bytes);
        }
    }
}

/// Escaped bytes are ASCII, and none of them is `&`.
pub proof fn lemma_escaped_is_plain(bytes: Seq<u8>)
    ensures
        forall|i: int|
            0 <= i < escaped(bytes).len() ==> #[trigger] escaped(bytes)[i] < 0x80 && escaped(
                bytes,
            )[i] != 0x26,
    decreases bytes.len(),
{
    if bytes.len() > 0 {
        let x = bytes[0];
        let all = escaped(bytes);
        let rest = escaped(bytes.skip(1));
        lemma_escaped_is_plain(bytes.skip(1));
        assert forall|i: int| 0 <= i < all.len() implies #[trigger] all[i] < 0x80 && all[i]
            != 0x26 by {
            if unreserved(x) {
                if i > 0 {
                    assert(all[i] == rest[i - 1]);
                }
            } else {
                if i >= 3 {
                    assert(all[i] == rest[i - 3]);
                }
            }
        }
    }
}

/// A text written percent-encoded stands for that text, and holds no `&`.
pub proof fn lemma_percent_roundtrip(s: Seq<char>)
    ensures
        percent_decoded(percent_encoded(s)) == Some(s),
        forall|i: int|
            0 <= i < percent_encoded(s).len() ==> #[trigger] percent_encoded(s)[i] != '&',
{
    let bytes = encode_utf8(s);
    let plain = escaped(bytes);
    let written = percent_encoded(s);
    lemma_escaped_is_plain(bytes);
    assert forall|i: int| 0 <= i < written.len() implies '\0' <= #[trigger] written[i]
        <= '\u{7f}' && written[i] as u8 == plain[i] && written[i] != '&' by {
        assert(plain[i] < 0x80 && plain[i] != 0x26);
    }
    assert(is_ascii_chars(written));
    is_ascii_chars_encode_utf8(written);
    assert(encode_utf8(written) =~= plain);
    lemma_unescape_escaped(bytes);
    encode_utf8_valid_utf8(s);
    encode_utf8_decode_utf8(s);
}

} // verus!
