//! Bytes in hexadecimal.
use vstd::prelude::*;

use crate::text::{hex_digit, hex_text};

verus! {

/// The value of a hexadecimal digit, of either case.
pub open spec fn digit_value(digit: char) -> Option<int> {
    if '0' <= digit <= '9' {
        Some(digit as int - '0' as int)
    } else if 'a' <= digit <= 'f' {
        Some(digit as int - 'a' as int + 10)
    } else if 'A' <= digit <= 'F' {
        Some(digit as int - 'A' as int + 10)
    } else {
        None
    }
}

/// The text consists of pairs of hexadecimal digits.
pub open spec fn is_hexadecimal(text: Seq<char>) -> bool {
    text.len() % 2 == 0 && forall|i: int|
        0 <= i < text.len() ==> digit_value(#[trigger] text[i]) is Some
}

/// The bytes that a text of pairs of hexadecimal digits stands for.
pub open spec fn hexadecimal_bytes(text: Seq<char>) -> Seq<u8> {
    Seq::new(
        text.len() / 2,
        |i: int| (16 * digit_value(text[2 * i])->0 + digit_value(text[2 * i + 1])->0) as u8,
    )
}

/// What `hex::decode` says of a text that is not hexadecimal.
pub uninterp spec fn hex_complaint(text: Seq<char>) -> Seq<char>;

/// `hex::decode`: the bytes that pairs of hexadecimal digits of either case stand for. The text of
/// the error for any other text is a function of that text, named `hex_complaint`.
#[verifier::external_body]
pub(crate) fn hex_decode(text: &str) -> (result: Result<Vec<u8>, String>)
    ensures
        match result {
            Ok(bytes) => is_hexadecimal(text@) && bytes@ == hexadecimal_bytes(text@),
            Err(message) => !is_hexadecimal(text@) && message@ == hex_complaint(text@),
        },
{
    hex::decode(text).map_err(|error| error.to_string())
}

/// What `hex::decode_to_slice` says of a text that does not stand for 32 bytes.
pub uninterp spec fn hex_key_complaint(text: Seq<char>) -> Seq<char>;

/// `hex::decode_to_slice` into 32 bytes: the bytes that 64 hexadecimal digits of either case stand
/// for. The text of the error for any other text is a function of that text, named
/// `hex_key_complaint`.
#[verifier::external_body]
pub(crate) fn hex_decode_key(text: &str) -> (result: Result<[u8; 32], String>)
    ensures
        match result {
            Ok(bytes) => is_key_text(text@) && bytes@ == hexadecimal_bytes(text@),
            Err(message) => !is_key_text(text@) && message@ == hex_key_complaint(text@),
        },
{
    let mut bytes = [0u8; 32];
    hex::decode_to_slice(text, &mut bytes).map(|_| bytes).map_err(|error| error.to_string())
}

/// The text stands for 32 bytes.
pub open spec fn is_key_text(text: Seq<char>) -> bool {
    text.len() == 64 && is_hexadecimal(text)
}

/// Bytes come back from their hexadecimal text.
pub proof fn law_hexadecimal_round_trips(bytes: Seq<u8>)
    ensures
        is_hexadecimal(hex_text(bytes)),
        hexadecimal_bytes(hex_text(bytes)) == bytes,
{
    let text = hex_text(bytes);
    assert forall|i: int| 0 <= i < text.len() implies digit_value(#[trigger] text[i]) is Some by {
        lemma_digit_value(bytes[i / 2] as int / 16);
        lemma_digit_value(bytes[i / 2] as int % 16);
    }
    assert forall|i: int| 0 <= i < bytes.len() implies #[trigger] hexadecimal_bytes(text)[i]
        == bytes[i] by {
        lemma_digit_value(bytes[i] as int / 16);
        lemma_digit_value(bytes[i] as int % 16);
        assert((2 * i) / 2 == i && (2 * i) % 2 == 0);
        assert((2 * i + 1) / 2 == i && (2 * i + 1) % 2 == 1);
    }
    assert(hexadecimal_bytes(text) =~= bytes);
}

proof fn lemma_digit_value(value: int)
    requires
        0 <= value < 16,
    ensures
        digit_value(hex_digit(value)) == Some(value),
{
}

} // verus!
