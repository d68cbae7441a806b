//! Text: character sequences, UTF-8 lengths, hexadecimal and decimal digits.
use vstd::prelude::*;
use vstd::utf8::{decode_utf8, encode_utf8, valid_utf8};

verus! {

/// `String::push` appends one character.
pub assume_specification[ String::push ](text: &mut String, character: char)
    ensures
        final(text)@ == old(text)@.push(character),
;

/// `String::from_utf8`: the text that the bytes encode, or nothing where they are not UTF-8.
#[verifier::external_body]
pub(crate) fn string_from_utf8(bytes: Vec<u8>) -> (text: Option<String>)
    ensures
        text is Some == valid_utf8(bytes@),
        text is Some ==> text->0@ == decode_utf8(bytes@),
{
    String::from_utf8(bytes).ok()
}

/// The number of bytes of the UTF-8 encoding of `text`.
pub open spec fn utf8_len(text: Seq<char>) -> nat {
    encode_utf8(text).len()
}

/// The characters of `text` in order.
pub fn chars_of(text: &str) -> (characters: Vec<char>)
    ensures
        characters@ == text@,
{
    let mut characters: Vec<char> = Vec::new();
    for character in iter: text.chars()
        invariant
            iter.seq() == text@,
            characters@ == text@.take(iter.index() as int),
    {
        characters.push(character);
        proof {
            assert(text@.take(iter.index() + 1) =~= text@.take(iter.index() as int).push(
                text@[iter.index() as int],
            ));
        }
    }
    assert(characters@ =~= text@);
    characters
}

/// Appends the characters from `start` up to `end` to `text`.
pub fn push_chars(text: &mut String, characters: &[char], start: usize, end: usize)
    requires
        start <= end <= characters@.len(),
    ensures
        final(text)@ == old(text)@ + characters@.subrange(start as int, end as int),
{
    let mut index: usize = start;
    let ghost before = text@;
    assert(characters@.subrange(start as int, start as int) =~= seq![]);
    while index < end
        invariant
            start <= index <= end <= characters@.len(),
            text@ == before + characters@.subrange(start as int, index as int),
        decreases end - index,
    {
        text.push(characters[index]);
        proof {
            assert(characters@.subrange(start as int, index + 1) =~= characters@.subrange(
                start as int,
                index as int,
            ).push(characters@[index as int]));
        }
        index += 1;
    }
}

/// Tests whether two texts have the same characters.
pub fn text_equal(left: &str, right: &str) -> (equal: bool)
    ensures
        equal == (left@ == right@),
{
    let left_chars: Vec<char> = chars_of(left);
    let right_chars: Vec<char> = chars_of(right);
    if left_chars.len() != right_chars.len() {
        return false;
    }
    let mut index: usize = 0;
    while index < left_chars.len()
        invariant
            index <= left_chars.len(),
            left_chars@ == left@,
            right_chars@ == right@,
            left_chars.len() == right_chars.len(),
            forall|i: int| 0 <= i < index ==> left@[i] == right@[i],
        decreases left_chars.len() - index,
    {
        if left_chars[index] != right_chars[index] {
            return false;
        }
        index += 1;
    }
    assert(left@ =~= right@);
    true
}

/// The lowercase hexadecimal digit of a value below sixteen.
pub open spec fn hex_digit(value: int) -> char {
    if value < 10 {
        (48 + value) as char
    } else {
        (87 + value) as char
    }
}

/// The lowercase hexadecimal text of `bytes`, two digits for each byte.
pub open spec fn hex_text(bytes: Seq<u8>) -> Seq<char> {
    Seq::new(
        2 * bytes.len(),
        |i: int|
            hex_digit(
                if i % 2 == 0 {
                    bytes[i / 2] as int / 16
                } else {
                    bytes[i / 2] as int % 16
                },
            ),
    )
}

fn digit_char(value: u8) -> (digit: char)
    requires
        value < 16,
    ensures
        digit == hex_digit(value as int),
{
    if value < 10 {
        (48 + value) as char
    } else {
        (87 + value) as char
    }
}

/// Appends the lowercase hexadecimal text of `bytes`.
pub fn push_hex(text: &mut String, bytes: &[u8])
    ensures
        final(text)@ == old(text)@ + hex_text(bytes@),
{
    let mut index: usize = 0;
    let ghost before = text@;
    assert(hex_text(bytes@).take(0) =~= seq![]);
    while index < bytes.len()
        invariant
            index <= bytes.len(),
            text@ == before + hex_text(bytes@).take(2 * index),
        decreases bytes.len() - index,
    {
        let byte: u8 = bytes[index];
        text.push(digit_char(byte / 16));
        text.push(digit_char(byte % 16));
        proof {
            let all = hex_text(bytes@);
            assert(all[2 * index as int] == hex_digit(byte as int / 16)) by {
                assert((2 * index as int) % 2 == 0);
                assert((2 * index as int) / 2 == index);
            }
            assert(all[2 * index + 1] == hex_digit(byte as int % 16)) by {
                assert((2 * index + 1) % 2 == 1);
                assert((2 * index + 1) / 2 == index as int);
            }
            assert(all.take(2 * (index + 1)) =~= all.take(2 * index as int).push(
                all[2 * index as int],
            ).push(all[2 * index + 1]));
        }
        index += 1;
    }
    assert(hex_text(bytes@).take(2 * index) =~= hex_text(bytes@));
}

/// The decimal text of a natural number.
pub open spec fn decimal_nat(value: nat) -> Seq<char>
    decreases value,
{
    if value < 10 {
        seq![(48 + value) as char]
    } else {
        decimal_nat(value / 10).push((48 + value % 10) as char)
    }
}

/// The decimal text of an integer, with a minus sign where it is negative.
pub open spec fn decimal_int(value: int) -> Seq<char> {
    if value < 0 {
        seq!['-'] + decimal_nat((-value) as nat)
    } else {
        decimal_nat(value as nat)
    }
}

/// Appends the decimal text of a natural number.
pub fn push_decimal(text: &mut String, value: u64)
    ensures
        final(text)@ == old(text)@ + decimal_nat(value as nat),
    decreases value,
{
    let ghost before = text@;
    if value < 10 {
        text.push((48 + value as u8) as char);
        assert(text@ =~= before + decimal_nat(value as nat));
    } else {
        push_decimal(text, value / 10);
        text.push((48 + (value % 10) as u8) as char);
        assert(text@ =~= before + decimal_nat(value as nat));
    }
}

/// Appends the decimal text of an integer.
pub fn push_decimal_signed(text: &mut String, value: i64)
    ensures
        final(text)@ == old(text)@ + decimal_int(value as int),
{
    let ghost before = text@;
    if value < 0 {
        text.push('-');
        let magnitude: u64 = if value == i64::MIN {
            0x8000_0000_0000_0000
        } else {
            (-value) as u64
        };
        push_decimal(text, magnitude);
        assert(text@ =~= before + decimal_int(value as int));
    } else {
        push_decimal(text, value as u64);
    }
}

} // verus!
