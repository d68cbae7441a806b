//! What the fields of a message say: the last value of each scalar, all values of each list.
use vstd::prelude::*;
use vstd::utf8::{decode_utf8, encode_utf8, encode_utf8_decode_utf8, encode_utf8_valid_utf8, valid_utf8};

use crate::proto::{
    fields_bytes, get_fields, get_varint, lemma_varint_bound_is_64_bits, lemma_varint_round_trip,
    put_bytes_field, put_varint, put_varint_field, read_fields, read_varint, varint_bytes,
    wire_fields, DecodeError, Field, FieldValue, WireField, WireValue, MAXIMUM_FIELD_NUMBER,
};
use crate::text::string_from_utf8;

verus! {

/// The value of the last integer field with the given number.
pub open spec fn last_varint(fields: Seq<WireField>, number: u32) -> Option<u64>
    decreases fields.len(),
{
    if fields.len() == 0 {
        None
    } else {
        let last = fields.last();
        match last.value {
            WireValue::Varint(value) if last.number == number => Some(value),
            _ => last_varint(fields.drop_last(), number),
        }
    }
}

/// The values of all fields of bytes with the given number, in order.
pub open spec fn payloads(fields: Seq<WireField>, number: u32) -> Seq<Seq<u8>>
    decreases fields.len(),
{
    if fields.len() == 0 {
        seq![]
    } else {
        let earlier = payloads(fields.drop_last(), number);
        let last = fields.last();
        match last.value {
            WireValue::Bytes(bytes) if last.number == number => earlier.push(bytes),
            _ => earlier,
        }
    }
}

/// All fields with the given number hold integers.
pub open spec fn only_varints(fields: Seq<WireField>, number: u32) -> bool {
    forall|i: int|
        0 <= i < fields.len() && (#[trigger] fields[i]).number == number
            ==> fields[i].value is Varint
}

/// All fields with the given number hold bytes.
pub open spec fn only_bytes(fields: Seq<WireField>, number: u32) -> bool {
    forall|i: int|
        0 <= i < fields.len() && (#[trigger] fields[i]).number == number
            ==> fields[i].value is Bytes
}

/// No field has the given number.
pub open spec fn lacks(fields: Seq<WireField>, number: u32) -> bool {
    forall|i: int| 0 <= i < fields.len() ==> (#[trigger] fields[i]).number != number
}

/// The integers that `bytes` consist of, where they consist of integers.
pub open spec fn packed_values(bytes: Seq<u8>) -> Option<Seq<u64>>
    decreases bytes.len(),
{
    if bytes.len() == 0 {
        Some(seq![])
    } else {
        match read_varint(bytes, 0) {
            None => None,
            Some((value, count)) => if 0 < count <= bytes.len() {
                match packed_values(bytes.skip(count as int)) {
                    None => None,
                    Some(rest) => Some(seq![value as u64] + rest),
                }
            } else {
                None
            },
        }
    }
}

/// The encodings of integers, one after the other.
pub open spec fn packed_bytes(values: Seq<u64>) -> Seq<u8>
    decreases values.len(),
{
    if values.len() == 0 {
        seq![]
    } else {
        varint_bytes(values[0] as nat) + packed_bytes(values.drop_first())
    }
}

/// The integers of the fields with the given number, each field with one of them or with several.
pub open spec fn listed_values(fields: Seq<WireField>, number: u32) -> Option<Seq<u64>>
    decreases fields.len(),
{
    if fields.len() == 0 {
        Some(seq![])
    } else {
        match listed_values(fields.drop_last(), number) {
            None => None,
            Some(earlier) => {
                let last = fields.last();
                if last.number != number {
                    Some(earlier)
                } else {
                    match last.value {
                        WireValue::Varint(value) => Some(earlier.push(value)),
                        WireValue::Bytes(bytes) => match packed_values(bytes) {
                            Some(more) => Some(earlier + more),
                            None => None,
                        },
                        WireValue::Skipped(_) => None,
                    }
                }
            },
        }
    }
}

/// The fields of all payloads, one after the other.
pub open spec fn merged_fields(payloads: Seq<Seq<u8>>, limit: nat) -> Option<Seq<WireField>>
    decreases payloads.len(),
{
    if payloads.len() == 0 {
        Some(seq![])
    } else {
        match (merged_fields(payloads.drop_last(), limit), read_fields(payloads.last(), limit)) {
            (Some(earlier), Some(last)) => Some(earlier + last),
            _ => None,
        }
    }
}

/// All payloads are text.
pub open spec fn all_text(payloads: Seq<Seq<u8>>) -> bool {
    forall|i: int| 0 <= i < payloads.len() ==> valid_utf8(#[trigger] payloads[i])
}

/// The last of several payloads, nothing where there is none.
pub open spec fn last_payload(payloads: Seq<Seq<u8>>) -> Seq<u8> {
    if payloads.len() == 0 {
        seq![]
    } else {
        payloads.last()
    }
}

/// The field for an integer; none for zero.
pub open spec fn varint_field(number: u32, value: u64) -> Seq<WireField> {
    if value == 0 {
        seq![]
    } else {
        seq![WireField { number, value: WireValue::Varint(value) }]
    }
}

/// The field for bytes; none where they are empty.
pub open spec fn bytes_field(number: u32, value: Seq<u8>) -> Seq<WireField> {
    if value.len() == 0 {
        seq![]
    } else {
        seq![WireField { number, value: WireValue::Bytes(value) }]
    }
}

/// One field for each payload.
pub open spec fn payload_fields(number: u32, values: Seq<Seq<u8>>) -> Seq<WireField> {
    Seq::new(
        values.len(),
        |i: int| WireField { number, value: WireValue::Bytes(values[i]) },
    )
}

/// The field for a list of integers; none where it is empty.
pub open spec fn values_field(number: u32, values: Seq<u64>) -> Seq<WireField> {
    bytes_field(number, packed_bytes(values))
}

/// The low thirty-two bits of an integer.
pub open spec fn low_word(value: u64) -> u32 {
    (value % 0x1_0000_0000) as u32
}

/// The integer that stands for a signed number of thirty-two bits.
pub open spec fn enum_value(value: i32) -> u64 {
    if value < 0 {
        (value + 0x1_0000_0000_0000_0000) as u64
    } else {
        value as u64
    }
}

/// The signed number of thirty-two bits that an integer stands for.
pub open spec fn enum_number(value: u64) -> i32 {
    let low = value % 0x1_0000_0000;
    if low >= 0x8000_0000 {
        (low - 0x1_0000_0000) as i32
    } else {
        low as i32
    }
}

/// The integer that stands for a signed number: small for numbers near zero.
pub open spec fn zigzag(value: i64) -> u64 {
    if value < 0 {
        (-2 * value - 1) as u64
    } else {
        (2 * value) as u64
    }
}

/// The signed number that an integer stands for.
pub open spec fn unzigzag(value: u64) -> i64 {
    if value % 2 == 0 {
        (value / 2) as i64
    } else {
        (-((value / 2) as int) - 1) as i64
    }
}

pub fn to_low_word(value: u64) -> (word: u32)
    ensures
        word == low_word(value),
{
    (value % 0x1_0000_0000) as u32
}

pub fn to_enum_value(value: i32) -> (result: u64)
    ensures
        result == enum_value(value),
{
    if value < 0 {
        let magnitude: u64 = (-(value as i64)) as u64;
        u64::MAX - magnitude + 1
    } else {
        value as u64
    }
}

pub fn to_enum_number(value: u64) -> (result: i32)
    ensures
        result == enum_number(value),
{
    let low: u64 = value % 0x1_0000_0000;
    if low >= 0x8000_0000 {
        (low as i64 - 0x1_0000_0000) as i32
    } else {
        low as i32
    }
}

pub fn to_zigzag(value: i64) -> (result: u64)
    ensures
        result == zigzag(value),
{
    if value < 0 {
        ((-(value + 1)) as u64) * 2 + 1
    } else {
        (value as u64) * 2
    }
}

pub fn from_zigzag(value: u64) -> (result: i64)
    ensures
        result == unzigzag(value),
{
    if value % 2 == 0 {
        (value / 2) as i64
    } else {
        -((value / 2) as i64) - 1
    }
}

/// The two signed representations are inverse to each other.
pub broadcast proof fn lemma_enum_number(value: i32)
    ensures
        enum_number(#[trigger] enum_value(value)) == value,
{
}

/// The two zigzag representations are inverse to each other.
pub broadcast proof fn lemma_unzigzag(value: i64)
    ensures
        unzigzag(#[trigger] zigzag(value)) == value,
        zigzag(value) == 0 <==> value == 0,
{
}

/// The last integer of two lists of fields is that of the second, where it has one.
pub proof fn lemma_last_varint_concat(
    left: Seq<WireField>,
    right: Seq<WireField>,
    number: u32,
)
    ensures
        last_varint(left + right, number) == if last_varint(right, number) is Some {
            last_varint(right, number)
        } else {
            last_varint(left, number)
        },
    decreases right.len(),
{
    if right.len() == 0 {
        assert(left + right =~= left);
    } else {
        lemma_last_varint_concat(left, right.drop_last(), number);
        assert((left + right).drop_last() =~= left + right.drop_last());
    }
}

/// The payloads of two lists of fields follow each other.
pub proof fn lemma_payloads_concat(
    left: Seq<WireField>,
    right: Seq<WireField>,
    number: u32,
)
    ensures
        payloads(left + right, number) == payloads(left, number) + payloads(
            right,
            number,
        ),
    decreases right.len(),
{
    if right.len() == 0 {
        assert(left + right =~= left);
        assert(payloads(left, number) + seq![] =~= payloads(left, number));
    } else {
        lemma_payloads_concat(left, right.drop_last(), number);
        assert((left + right).drop_last() =~= left + right.drop_last());
        assert(payloads(left + right, number) =~= payloads(left, number) + payloads(right, number));
    }
}

pub proof fn lemma_only_varints_concat(
    left: Seq<WireField>,
    right: Seq<WireField>,
    number: u32,
)
    ensures
        only_varints(left + right, number) == (only_varints(left, number)
            && only_varints(right, number)),
{
    let both = left + right;
    if only_varints(both, number) {
        assert forall|i: int|
            0 <= i < left.len() && (#[trigger] left[i]).number == number implies left[i].value is
            Varint by {
            assert(both[i] == left[i]);
        }
        assert forall|i: int|
            0 <= i < right.len() && (#[trigger] right[i]).number == number implies right[i].value is
            Varint by {
            assert(both[left.len() + i] == right[i]);
        }
    }
}

pub proof fn lemma_only_bytes_concat(
    left: Seq<WireField>,
    right: Seq<WireField>,
    number: u32,
)
    ensures
        only_bytes(left + right, number) == (only_bytes(left, number) && only_bytes(
            right,
            number,
        )),
{
    let both = left + right;
    if only_bytes(both, number) {
        assert forall|i: int|
            0 <= i < left.len() && (#[trigger] left[i]).number == number implies left[i].value is
            Bytes by {
            assert(both[i] == left[i]);
        }
        assert forall|i: int|
            0 <= i < right.len() && (#[trigger] right[i]).number == number implies right[i].value is
            Bytes by {
            assert(both[left.len() + i] == right[i]);
        }
    }
}

pub proof fn lemma_listed_values_concat(
    left: Seq<WireField>,
    right: Seq<WireField>,
    number: u32,
)
    ensures
        listed_values(left + right, number) == match (
            listed_values(left, number),
            listed_values(right, number),
        ) {
            (Some(earlier), Some(later)) => Some(earlier + later),
            _ => None,
        },
    decreases right.len(),
{
    if right.len() == 0 {
        assert(left + right =~= left);
        if let Some(earlier) = listed_values(left, number) {
            assert(earlier + seq![] =~= earlier);
        }
    } else {
        lemma_listed_values_concat(left, right.drop_last(), number);
        assert((left + right).drop_last() =~= left + right.drop_last());
        if let (Some(earlier), Some(later)) = (
            listed_values(left, number),
            listed_values(right.drop_last(), number),
        ) {
            match right.last().value {
                WireValue::Varint(value) => {
                    assert((earlier + later).push(value) =~= earlier + later.push(value));
                },
                WireValue::Bytes(bytes) => {
                    if let Some(more) = packed_values(bytes) {
                        assert((earlier + later) + more =~= earlier + (later + more));
                    }
                },
                WireValue::Skipped(_) => {},
            }
        }
    }
}

pub proof fn lemma_lacks(fields: Seq<WireField>, number: u32)
    requires
        lacks(fields, number),
    ensures
        last_varint(fields, number) is None,
        payloads(fields, number) == Seq::<Seq<u8>>::empty(),
        only_varints(fields, number),
        only_bytes(fields, number),
        listed_values(fields, number) == Some(Seq::<u64>::empty()),
    decreases fields.len(),
{
    if fields.len() > 0 {
        let front = fields.drop_last();
        assert(lacks(front, number)) by {
            assert(forall|i: int| 0 <= i < front.len() ==> #[trigger] front[i] == fields[i]);
        }
        lemma_lacks(front, number);
        assert(fields[fields.len() - 1].number != number);
    }
}

/// What the field of an integer says.
pub broadcast proof fn lemma_varint_field(key: u32, value: u64, number: u32)
    ensures
        #[trigger] last_varint(varint_field(key, value), number) == if key == number && value != 0 {
            Some(value)
        } else {
            None
        },
    decreases value,
{
    reveal_with_fuel(last_varint, 2);
}

pub broadcast proof fn lemma_varint_field_only_varints(key: u32, value: u64, number: u32)
    ensures
        #[trigger] only_varints(varint_field(key, value), number),
{
}

/// What the field of bytes says.
pub broadcast proof fn lemma_bytes_field(key: u32, value: Seq<u8>, number: u32)
    ensures
        #[trigger] payloads(bytes_field(key, value), number) == if key == number && value.len()
            > 0 {
            seq![value]
        } else {
            seq![]
        },
{
    reveal_with_fuel(payloads, 2);
    if value.len() > 0 {
        let fields = bytes_field(key, value);
        assert(fields.drop_last() =~= seq![]);
        assert(Seq::<Seq<u8>>::empty().push(value) =~= seq![value]);
    }
}

pub broadcast proof fn lemma_bytes_field_only_bytes(key: u32, value: Seq<u8>, number: u32)
    ensures
        #[trigger] only_bytes(bytes_field(key, value), number),
{
}

/// What the fields of payloads say.
pub broadcast proof fn lemma_payload_fields(key: u32, values: Seq<Seq<u8>>, number: u32)
    ensures
        #[trigger] payloads(payload_fields(key, values), number) == if key == number {
            values
        } else {
            seq![]
        },
    decreases values.len(),
{
    let fields = payload_fields(key, values);
    if values.len() > 0 {
        lemma_payload_fields(key, values.drop_last(), number);
        assert(fields.drop_last() =~= payload_fields(key, values.drop_last()));
        assert(values =~= values.drop_last().push(values.last()));
    } else {
        assert(values =~= seq![]);
    }
}

pub broadcast proof fn lemma_payload_fields_only_bytes(key: u32, values: Seq<Seq<u8>>, number: u32)
    ensures
        #[trigger] only_bytes(payload_fields(key, values), number),
{
}

proof fn lemma_packed_round_trip(values: Seq<u64>)
    ensures
        packed_values(packed_bytes(values)) == Some(values),
        values.len() > 0 ==> packed_bytes(values).len() > 0,
    decreases values.len(),
{
    if values.len() == 0 {
        assert(values =~= seq![]);
    } else {
        let rest = values.drop_first();
        let first = varint_bytes(values[0] as nat);
        lemma_packed_round_trip(rest);
        lemma_varint_bound_is_64_bits();
        lemma_varint_round_trip(values[0] as nat, packed_bytes(rest), 0);
        assert(packed_bytes(values).skip(first.len() as int) =~= packed_bytes(rest));
        assert(values =~= seq![values[0]] + rest);
    }
}

/// What the field of a list of integers says.
pub broadcast proof fn lemma_values_field(key: u32, values: Seq<u64>)
    ensures
        #[trigger] listed_values(values_field(key, values), key) == Some(values),
{
    lemma_packed_round_trip(values);
    reveal_with_fuel(listed_values, 2);
    let fields = values_field(key, values);
    if values.len() > 0 {
        assert(fields.drop_last() =~= seq![]);
        assert(seq![] + values =~= values);
    } else {
        assert(values =~= seq![]);
    }
}

/// All that the fields of a message say.
pub broadcast group group_fields {
    lemma_varint_field,
    lemma_varint_field_only_varints,
    lemma_bytes_field,
    lemma_bytes_field_only_bytes,
    lemma_payload_fields,
    lemma_payload_fields_only_bytes,
    lemma_values_field,
    lemma_enum_number,
    lemma_unzigzag,
}

/// The value of the last integer field with the given number, zero where there is none.
pub fn find_varint(fields: &Vec<Field>, number: u32) -> (result: Result<u64, DecodeError>)
    ensures
        result is Ok == only_varints(wire_fields(fields@), number),
        result matches Ok(value) ==> value == match last_varint(wire_fields(fields@), number) {
            Some(value) => value,
            None => 0,
        },
{
    let ghost all = wire_fields(fields@);
    let mut found: u64 = 0;
    let mut index: usize = 0;
    assert(all.take(0) =~= seq![]);
    while index < fields.len()
        invariant
            index <= fields@.len(),
            all == wire_fields(fields@),
            only_varints(all.take(index as int), number),
            found == match last_varint(all.take(index as int), number) {
                Some(value) => value,
                None => 0,
            },
        decreases fields@.len() - index,
    {
        let ghost next = all.take(index + 1);
        proof {
            assert(next.drop_last() =~= all.take(index as int));
            assert(next.last() == fields@[index as int]@);
            assert(forall|i: int| 0 <= i < index ==> next[i] == all.take(index as int)[i]);
        }
        if fields[index].number == number {
            match &fields[index].value {
                FieldValue::Varint(value) => {
                    found = *value;
                },
                _ => {
                    assert(all[index as int].number == number);
                    return Err(DecodeError);
                },
            }
        }
        index += 1;
    }
    assert(all.take(index as int) =~= all);
    Ok(found)
}

/// The values of all fields of bytes with the given number, in order.
pub fn find_payloads(fields: &Vec<Field>, number: u32) -> (result: Result<Vec<Vec<u8>>, DecodeError>)
    ensures
        result is Ok == only_bytes(wire_fields(fields@), number),
        result matches Ok(values) ==> byte_strings(values@) == payloads(
            wire_fields(fields@),
            number,
        ),
{
    let ghost all = wire_fields(fields@);
    let mut found: Vec<Vec<u8>> = Vec::new();
    let mut index: usize = 0;
    assert(all.take(0) =~= seq![]);
    assert(byte_strings(found@) =~= seq![]);
    while index < fields.len()
        invariant
            index <= fields@.len(),
            all == wire_fields(fields@),
            only_bytes(all.take(index as int), number),
            byte_strings(found@) == payloads(all.take(index as int), number),
        decreases fields@.len() - index,
    {
        let ghost next = all.take(index + 1);
        proof {
            assert(next.drop_last() =~= all.take(index as int));
            assert(next.last() == fields@[index as int]@);
            assert(forall|i: int| 0 <= i < index ==> next[i] == all.take(index as int)[i]);
        }
        if fields[index].number == number {
            match &fields[index].value {
                FieldValue::Bytes(bytes) => {
                    let ghost before = byte_strings(found@);
                    let copy: Vec<u8> = vstd::slice::slice_to_vec(bytes.as_slice());
                    found.push(copy);
                    assert(byte_strings(found@) =~= before.push(bytes@));
                },
                _ => {
                    assert(all[index as int].number == number);
                    return Err(DecodeError);
                },
            }
        }
        index += 1;
    }
    assert(all.take(index as int) =~= all);
    Ok(found)
}

/// The byte strings that vectors hold.
pub open spec fn byte_strings(values: Seq<Vec<u8>>) -> Seq<Seq<u8>> {
    Seq::new(values.len(), |i: int| values[i]@)
}

/// The value of the last field of bytes with the given number, empty where there is none.
pub fn find_bytes(fields: &Vec<Field>, number: u32) -> (result: Result<Vec<u8>, DecodeError>)
    ensures
        result is Ok == only_bytes(wire_fields(fields@), number),
        result matches Ok(value) ==> value@ == last_payload(
            payloads(wire_fields(fields@), number),
        ),
{
    let mut values: Vec<Vec<u8>> = find_payloads(fields, number)?;
    let ghost all = byte_strings(values@);
    match values.pop() {
        Some(value) => {
            assert(all.last() == value@);
            Ok(value)
        },
        None => Ok(Vec::new()),
    }
}

/// The text of the last field with the given number, empty where there is none.
pub fn find_text(fields: &Vec<Field>, number: u32) -> (result: Result<String, DecodeError>)
    ensures
        result is Ok == (only_bytes(wire_fields(fields@), number) && all_text(
            payloads(wire_fields(fields@), number),
        )),
        result matches Ok(text) ==> text@ == decode_utf8(
            last_payload(payloads(wire_fields(fields@), number)),
        ),
{
    let values: Vec<Vec<u8>> = find_payloads(fields, number)?;
    let ghost all = byte_strings(values@);
    let mut text: String = String::new();
    let mut index: usize = 0;
    assert(decode_utf8(seq![]) =~= seq![]);
    while index < values.len()
        invariant
            index <= values@.len(),
            all == byte_strings(values@),
            all == payloads(wire_fields(fields@), number),
            only_bytes(wire_fields(fields@), number),
            forall|i: int| 0 <= i < index ==> valid_utf8(#[trigger] all[i]),
            text@ == decode_utf8(last_payload(all.take(index as int))),
        decreases values@.len() - index,
    {
        let copy: Vec<u8> = vstd::slice::slice_to_vec(values[index].as_slice());
        assert(copy@ == all[index as int]);
        match string_from_utf8(copy) {
            Some(value) => {
                text = value;
            },
            None => {
                return Err(DecodeError);
            },
        }
        assert(all.take(index + 1).last() == all[index as int]);
        index += 1;
    }
    assert(all.take(index as int) =~= all);
    Ok(text)
}

/// The integers of the fields with the given number.
pub fn find_values(fields: &Vec<Field>, number: u32) -> (result: Result<Vec<u64>, DecodeError>)
    ensures
        match result {
            Ok(values) => listed_values(wire_fields(fields@), number) == Some(values@),
            Err(_) => listed_values(wire_fields(fields@), number) is None,
        },
{
    let ghost all = wire_fields(fields@);
    let mut found: Vec<u64> = Vec::new();
    let mut index: usize = 0;
    assert(all.take(0) =~= seq![]);
    while index < fields.len()
        invariant
            index <= fields@.len(),
            all == wire_fields(fields@),
            listed_values(all.take(index as int), number) == Some(found@),
        decreases fields@.len() - index,
    {
        let ghost next = all.take(index + 1);
        proof {
            assert(next.drop_last() =~= all.take(index as int));
            assert(next.last() == fields@[index as int]@);
        }
        if fields[index].number == number {
            match &fields[index].value {
                FieldValue::Varint(value) => {
                    found.push(*value);
                },
                FieldValue::Bytes(bytes) => {
                    match get_packed(bytes.as_slice(), &mut found) {
                        Ok(_) => {},
                        Err(error) => {
                            proof {
                                lemma_listed_values_prefix(all, index + 1, number);
                            }
                            return Err(error);
                        },
                    }
                },
                FieldValue::Skipped(_) => {
                    proof {
                        lemma_listed_values_prefix(all, index + 1, number);
                    }
                    return Err(DecodeError);
                },
            }
        }
        index += 1;
    }
    assert(all.take(index as int) =~= all);
    Ok(found)
}

proof fn lemma_listed_values_prefix(fields: Seq<WireField>, count: int, number: u32)
    requires
        0 <= count <= fields.len(),
        listed_values(fields.take(count), number) is None,
    ensures
        listed_values(fields, number) is None,
    decreases fields.len() - count,
{
    assert(fields =~= fields.take(count) + fields.skip(count));
    lemma_listed_values_concat(fields.take(count), fields.skip(count), number);
}

fn get_packed(bytes: &[u8], target: &mut Vec<u64>) -> (result: Result<(), DecodeError>)
    ensures
        result is Ok == packed_values(bytes@) is Some,
        result is Ok ==> final(target)@ == old(target)@ + packed_values(bytes@)->0,
{
    let mut position: usize = 0;
    let ghost start = target@;
    proof {
        assert(bytes@.skip(0) =~= bytes@);
        if let Some(all) = packed_values(bytes@) {
            assert(start + all =~= start + (seq![] + all));
        }
    }
    while position < bytes.len()
        invariant
            position <= bytes@.len(),
            packed_values(bytes@) is Some == packed_values(bytes@.skip(position as int)) is Some,
            packed_values(bytes@) is Some ==> start + packed_values(bytes@)->0 == target@
                + packed_values(bytes@.skip(position as int))->0,
        decreases bytes@.len() - position,
    {
        let ghost rest = bytes@.skip(position as int);
        let ghost before = target@;
        match get_varint(bytes, position) {
            Some((value, count)) => {
                target.push(value);
                proof {
                    assert(rest.skip(count as int) =~= bytes@.skip(position + count));
                    if let Some(more) = packed_values(bytes@.skip(position + count)) {
                        assert(before + (seq![value] + more) =~= before.push(value) + more);
                    }
                }
                position = position + count;
            },
            None => {
                return Err(DecodeError);
            },
        }
    }
    proof {
        assert(bytes@.skip(position as int) =~= seq![]);
        assert(target@ + seq![] =~= target@);
    }
    Ok(())
}

/// The fields of all payloads, one after the other.
pub fn merge_payloads(payloads: &Vec<Vec<u8>>, limit: u32) -> (result: Result<
    Vec<Field>,
    DecodeError,
>)
    ensures
        match result {
            Ok(fields) => merged_fields(byte_strings(payloads@), limit as nat) == Some(
                wire_fields(fields@),
            ),
            Err(_) => merged_fields(byte_strings(payloads@), limit as nat) is None,
        },
{
    let ghost all = byte_strings(payloads@);
    let mut fields: Vec<Field> = Vec::new();
    let mut index: usize = 0;
    assert(all.take(0) =~= seq![]);
    assert(wire_fields(fields@) =~= seq![]);
    while index < payloads.len()
        invariant
            index <= payloads@.len(),
            all == byte_strings(payloads@),
            merged_fields(all.take(index as int), limit as nat) == Some(wire_fields(fields@)),
        decreases payloads@.len() - index,
    {
        let ghost next = all.take(index + 1);
        let ghost before = wire_fields(fields@);
        proof {
            assert(next.drop_last() =~= all.take(index as int));
            assert(next.last() == payloads@[index as int]@);
        }
        match get_fields(payloads[index].as_slice(), limit) {
            Ok(more) => {
                let ghost added = wire_fields(more@);
                append_fields(&mut fields, more);
                assert(wire_fields(fields@) =~= before + added);
            },
            Err(error) => {
                proof {
                    lemma_merged_prefix(all, index + 1, limit as nat);
                }
                return Err(error);
            },
        }
        index += 1;
    }
    assert(all.take(index as int) =~= all);
    Ok(fields)
}

proof fn lemma_merged_prefix(payloads: Seq<Seq<u8>>, count: int, limit: nat)
    requires
        0 <= count <= payloads.len(),
        merged_fields(payloads.take(count), limit) is None,
    ensures
        merged_fields(payloads, limit) is None,
    decreases payloads.len() - count,
{
    if count < payloads.len() {
        let next = payloads.take(count + 1);
        assert(next.drop_last() =~= payloads.take(count));
        lemma_merged_prefix(payloads, count + 1, limit);
    } else {
        assert(payloads.take(count) =~= payloads);
    }
}

/// Appends `more` to `fields`.
pub fn append_fields(fields: &mut Vec<Field>, more: Vec<Field>)
    ensures
        final(fields)@ == old(fields)@ + more@,
{
    let mut rest: Vec<Field> = more;
    fields.append(&mut rest);
}

/// Appends the field for an integer; none for zero.
pub fn put_uint(target: &mut Vec<u8>, number: u32, value: u64)
    requires
        1 <= number <= MAXIMUM_FIELD_NUMBER,
    ensures
        final(target)@ == old(target)@ + fields_bytes(varint_field(number, value)),
{
    let ghost before = target@;
    proof {
        reveal_with_fuel(fields_bytes, 2);
        assert(varint_field(number, value).len() > 0 ==> varint_field(number, value).drop_last()
            =~= seq![]);
    }
    if value != 0 {
        put_varint_field(target, number, value);
    }
    assert(target@ =~= before + fields_bytes(varint_field(number, value)));
}

/// Appends the field for bytes; none where they are empty.
pub fn put_bytes(target: &mut Vec<u8>, number: u32, value: &[u8])
    requires
        1 <= number <= MAXIMUM_FIELD_NUMBER,
    ensures
        final(target)@ == old(target)@ + fields_bytes(bytes_field(number, value@)),
{
    let ghost before = target@;
    proof {
        reveal_with_fuel(fields_bytes, 2);
        assert(bytes_field(number, value@).len() > 0 ==> bytes_field(number, value@).drop_last()
            =~= seq![]);
    }
    if value.len() > 0 {
        put_bytes_field(target, number, value);
    }
    assert(target@ =~= before + fields_bytes(bytes_field(number, value@)));
}

/// Appends the field of one payload.
pub fn put_payload(target: &mut Vec<u8>, number: u32, value: &[u8])
    requires
        1 <= number <= MAXIMUM_FIELD_NUMBER,
    ensures
        final(target)@ == old(target)@ + fields_bytes(payload_fields(number, seq![value@])),
{
    let ghost before = target@;
    let ghost fields = payload_fields(number, seq![value@]);
    proof {
        reveal_with_fuel(fields_bytes, 2);
        assert(fields.drop_last() =~= seq![]);
    }
    put_bytes_field(target, number, value);
    assert(target@ =~= before + fields_bytes(fields));
}

/// Appends the field for a list of integers; none where it is empty.
pub fn put_values(target: &mut Vec<u8>, number: u32, values: &Vec<u64>)
    requires
        1 <= number <= MAXIMUM_FIELD_NUMBER,
    ensures
        final(target)@ == old(target)@ + fields_bytes(values_field(number, values@)),
{
    let mut packed: Vec<u8> = Vec::new();
    let mut index: usize = 0;
    assert(values@.skip(0) =~= values@);
    assert(seq![] + packed_bytes(values@) =~= packed_bytes(values@));
    while index < values.len()
        invariant
            index <= values@.len(),
            packed@ + packed_bytes(values@.skip(index as int)) == packed_bytes(values@),
        decreases values@.len() - index,
    {
        let ghost rest = values@.skip(index as int);
        let ghost before = packed@;
        put_varint(&mut packed, values[index]);
        proof {
            assert(rest.drop_first() =~= values@.skip(index + 1));
            assert(before + (varint_bytes(rest[0] as nat) + packed_bytes(rest.drop_first()))
                =~= packed@ + packed_bytes(values@.skip(index + 1)));
        }
        index += 1;
    }
    assert(packed@ + seq![] =~= packed@);
    put_bytes(target, number, packed.as_slice());
}

/// A message of one payload holds the fields of that payload.
pub proof fn lemma_merged_single(payload: Seq<u8>, limit: nat)
    ensures
        merged_fields(seq![payload], limit) == read_fields(payload, limit),
{
    reveal_with_fuel(merged_fields, 2);
    assert(seq![payload].drop_last() =~= seq![]);
    if let Some(fields) = read_fields(payload, limit) {
        assert(seq![] + fields =~= fields);
    }
}

/// Text survives its encoding.
pub proof fn lemma_text_payload(text: Seq<char>)
    ensures
        valid_utf8(encode_utf8(text)),
        decode_utf8(encode_utf8(text)) == text,
        encode_utf8(text).len() == 0 ==> text.len() == 0,
{
    encode_utf8_valid_utf8(text);
    encode_utf8_decode_utf8(text);
    if encode_utf8(text).len() == 0 {
        assert(encode_utf8(text) =~= seq![]);
    }
}

} // verus!
