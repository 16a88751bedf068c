//! Frames as lines of text: an asterisk, the bytes of the frame in
//! hexadecimal digits, and a semicolon.

use vstd::prelude::*;
use crate::text::{chars_of, find_char, place_of, trim_range, trimmed};

verus! {

/// The error of the crate `hex`. Nothing is said of its values.
#[verifier::external_type_specification]
#[verifier::external_body]
pub struct ExFromHexError(hex::FromHexError);

/// Whether a byte is a hexadecimal digit in ASCII, of either case.
pub open spec fn is_hex_digit(c: u8) -> bool {
    (0x30 <= c <= 0x39) || (0x41 <= c <= 0x46) || (0x61 <= c <= 0x66)
}

/// The value of a hexadecimal digit.
pub open spec fn hex_value(c: u8) -> int {
    if 0x30 <= c <= 0x39 {
        c - 0x30
    } else if 0x41 <= c <= 0x46 {
        c - 0x41 + 10
    } else {
        c - 0x61 + 10
    }
}

/// Whether a text is a sequence of pairs of hexadecimal digits.
pub open spec fn is_hex_text(text: Seq<u8>) -> bool {
    text.len() % 2 == 0 && forall|k: int| 0 <= k < text.len() ==> is_hex_digit(#[trigger] text[k])
}

/// The bytes that a text of pairs of hexadecimal digits stands for.
pub open spec fn hex_bytes(text: Seq<u8>) -> Seq<u8> {
    Seq::new(
        text.len() / 2,
        |k: int| (16 * hex_value(text[2 * k]) + hex_value(text[2 * k + 1])) as u8,
    )
}

/// `hex::decode`: a text of an even number of hexadecimal digits yields the
/// bytes that its pairs stand for, the first digit of a pair being the
/// upper half of the byte; any other text yields an error.
#[verifier::external_body]
fn hex_decode(text: &[u8]) -> (res: Result<Vec<u8>, hex::FromHexError>)
    ensures
        res is Ok <==> is_hex_text(text@),
        res matches Ok(bytes) ==> bytes@ == hex_bytes(text@),
{
    hex::decode(text)
}

/// The characters of a line between the asterisk at its start and its first
/// semicolon, white space around the line aside. A line without them has
/// none.
pub open spec fn payload_of(line: Seq<char>) -> Option<Seq<char>> {
    let text = trimmed(line);
    let end = place_of(text, ';', 0);
    if text.len() > 0 && text[0] == '*' && end < text.len() {
        Some(text.subrange(1, end))
    } else {
        None
    }
}

/// Characters as bytes, for characters below 128.
pub open spec fn as_ascii(text: Seq<char>) -> Seq<u8> {
    Seq::new(text.len(), |k: int| text[k] as u8)
}

/// Whether every character of a text is below 128.
pub open spec fn is_ascii_text(text: Seq<char>) -> bool {
    forall|k: int| 0 <= k < text.len() ==> (#[trigger] text[k]) as u32 <= 127
}

/// The frame that a line of text holds: the bytes of its payload, if that
/// is 14 or 28 hexadecimal digits.
pub open spec fn frame_of_line(line: Seq<char>) -> Option<Seq<u8>> {
    match payload_of(line) {
        Some(payload) => if (payload.len() == 14 || payload.len() == 28) && is_ascii_text(payload)
            && is_hex_text(as_ascii(payload)) {
            Some(hex_bytes(as_ascii(payload)))
        } else {
            None
        },
        None => None,
    }
}

/// Reads the frame of a line of text of the form `*8D4840D6...;`. White
/// space around the line and anything behind the semicolon are ignored.
pub fn parse_hex_line(line: &str) -> (frame: Option<Vec<u8>>)
    ensures
        match frame {
            Some(bytes) => frame_of_line(line@) == Some(bytes@),
            None => frame_of_line(line@) is None,
        },
        frame matches Some(bytes) ==> bytes@.len() == 7 || bytes@.len() == 14,
{
    let chars = chars_of(line);
    let (start, end) = trim_range(chars.as_slice(), 0, chars.len());
    let ghost text = trimmed(line@);
    proof {
        assert(line@.subrange(0, line@.len() as int) =~= line@);
    }
    if start >= end || chars[start] != '*' {
        proof {
            if start < end {
                assert(text[0] == chars@[start as int]);
            }
        }
        return None;
    }
    assert(text[0] == chars@[start as int]);
    let semicolon = find_char(chars.as_slice(), ';', start, end);
    if semicolon >= end {
        return None;
    }
    let ghost payload = text.subrange(1, semicolon - start);
    proof {
        assert(payload_of(line@) == Some(payload));
        assert(payload =~= chars@.subrange(start + 1, semicolon as int));
    }
    let count = semicolon - start - 1;
    if count != 14 && count != 28 {
        return None;
    }
    let mut digits: Vec<u8> = Vec::new();
    let mut k: usize = start + 1;
    while k < semicolon
        invariant
            start + 1 <= k <= semicolon <= chars@.len(),
            payload == chars@.subrange(start + 1, semicolon as int),
            payload_of(line@) == Some(payload),
            digits@.len() == k - start - 1,
            forall|j: int| 0 <= j < digits@.len() ==> (#[trigger] payload[j]) as u32 <= 127,
            forall|j: int| 0 <= j < digits@.len() ==> #[trigger] digits@[j] == payload[j] as u8,
        decreases semicolon - k,
    {
        let c = chars[k];
        if c as u32 > 127 {
            proof {
                assert(payload[k - start - 1] == c);
                assert(!is_ascii_text(payload));
            }
            return None;
        }
        digits.push(c as u8);
        k = k + 1;
    }
    proof {
        assert(is_ascii_text(payload));
        assert(digits@ =~= as_ascii(payload));
    }
    match hex_decode(digits.as_slice()) {
        Ok(bytes) => Some(bytes),
        Err(_) => None,
    }
}

} // verus!
