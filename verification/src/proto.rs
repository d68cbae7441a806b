//! The tag-length-value format of the messages: variable-length integers, keys and fields.
use vstd::prelude::*;

use crate::bytes::append_bytes;

verus! {

/// Bytes that are not a message.
#[derive(Clone, Copy, Debug, PartialEq, Eq, Structural)]
pub struct DecodeError;

/// How deeply groups and messages may be nested.
pub const RECURSION_LIMIT: u32 = 100;

/// The largest field number, which leaves three bits of a key for the wire type.
pub const MAXIMUM_FIELD_NUMBER: u32 = 536870911;

/// The bound on the integer that the bytes from position `depth` on spell.
pub open spec fn varint_bound(depth: nat) -> nat
    decreases 9 - depth,
{
    if depth >= 9 {
        2
    } else {
        128 * varint_bound(depth + 1)
    }
}

/// The encoding of an integer: seven bits in each byte, the lowest first; all bytes but the last
/// have their highest bit set.
pub open spec fn varint_bytes(value: nat) -> Seq<u8>
    decreases value,
{
    if value < 128 {
        seq![value as u8]
    } else {
        seq![(128 + value % 128) as u8] + varint_bytes(value / 128)
    }
}

/// The integer at the start of `bytes`, where `depth` bytes of it came before, and the number of
/// bytes that it takes. An integer has at most ten bytes and sixty-four bits.
pub open spec fn read_varint(bytes: Seq<u8>, depth: nat) -> Option<(nat, nat)>
    decreases bytes.len(),
{
    if bytes.len() == 0 || depth >= 10 {
        None
    } else if bytes[0] < 128 {
        if depth == 9 && bytes[0] > 1 {
            None
        } else {
            Some((bytes[0] as nat, 1))
        }
    } else {
        match read_varint(bytes.drop_first(), depth + 1) {
            Some((high, count)) => Some(((bytes[0] - 128 + 128 * high) as nat, count + 1)),
            None => None,
        }
    }
}

/// What is read as an integer is within the bounds of its bytes.
pub proof fn lemma_read_varint(bytes: Seq<u8>, depth: nat)
    ensures
        read_varint(bytes, depth) matches Some((value, count)) ==> value < varint_bound(depth) && 1
            <= count <= bytes.len(),
    decreases bytes.len(),
{
    if bytes.len() > 0 && depth < 10 && bytes[0] >= 128 {
        lemma_read_varint(bytes.drop_first(), depth + 1);
        if depth >= 9 {
            assert(read_varint(bytes.drop_first(), depth + 1) is None);
        }
    } else if depth < 9 {
        lemma_varint_bound(depth);
    }
}

proof fn lemma_varint_bound(depth: nat)
    requires
        depth < 9,
    ensures
        varint_bound(depth) >= 128,
    decreases 9 - depth,
{
    if depth < 8 {
        lemma_varint_bound(depth + 1);
    } else {
        assert(varint_bound(9) == 2);
    }
}

/// The bound on an integer as a whole.
pub proof fn lemma_varint_bound_is_64_bits()
    ensures
        varint_bound(0) == 0x1_0000_0000_0000_0000,
{
    reveal_with_fuel(varint_bound, 10);
}

/// Reading an encoded integer gives the integer, whatever follows it.
pub proof fn lemma_varint_round_trip(value: nat, rest: Seq<u8>, depth: nat)
    requires
        depth <= 9,
        value < varint_bound(depth),
    ensures
        read_varint(varint_bytes(value) + rest, depth) == Some((value, varint_bytes(value).len())),
    decreases value,
{
    let bytes = varint_bytes(value) + rest;
    if value >= 128 {
        assert(bytes.drop_first() =~= varint_bytes(value / 128) + rest);
        lemma_varint_round_trip(value / 128, rest, depth + 1);
    }
}

/// The encoding of an integer takes at least one byte.
pub proof fn lemma_varint_len(value: nat)
    ensures
        varint_bytes(value).len() >= 1,
{
}

/// Appends the encoding of an integer.
pub fn put_varint(target: &mut Vec<u8>, value: u64)
    ensures
        final(target)@ == old(target)@ + varint_bytes(value as nat),
    decreases value,
{
    let ghost before = target@;
    if value < 128 {
        target.push(value as u8);
        assert(target@ =~= before + varint_bytes(value as nat));
    } else {
        let low: u8 = (128 + value % 128) as u8;
        target.push(low);
        put_varint(target, value / 128);
        assert(target@ =~= before + varint_bytes(value as nat));
    }
}

/// Reads the integer at `position`.
pub fn get_varint(bytes: &[u8], position: usize) -> (result: Option<(u64, usize)>)
    requires
        position <= bytes@.len(),
    ensures
        match result {
            Some((value, count)) => read_varint(bytes@.skip(position as int), 0) == Some(
                (value as nat, count as nat),
            ) && 1 <= count <= bytes@.len() - position,
            None => read_varint(bytes@.skip(position as int), 0) is None,
        },
{
    proof {
        lemma_varint_bound_is_64_bits();
    }
    get_varint_part(bytes, position, 0)
}

fn get_varint_part(bytes: &[u8], position: usize, depth: usize) -> (result: Option<(u64, usize)>)
    requires
        position <= bytes@.len(),
        depth <= 10,
        varint_bound(depth as nat) <= 0x1_0000_0000_0000_0000,
    ensures
        match result {
            Some((value, count)) => read_varint(bytes@.skip(position as int), depth as nat) == Some(
                (value as nat, count as nat),
            ) && 1 <= count <= bytes@.len() - position,
            None => read_varint(bytes@.skip(position as int), depth as nat) is None,
        },
    decreases 10 - depth,
{
    let ghost rest = bytes@.skip(position as int);
    proof {
        lemma_read_varint(rest, depth as nat);
    }
    if position == bytes.len() || depth >= 10 {
        return None;
    }
    assert(rest[0] == bytes@[position as int]);
    let byte: u8 = bytes[position];
    if byte < 128 {
        if depth == 9 && byte > 1 {
            return None;
        }
        return Some((byte as u64, 1));
    }
    assert(rest.drop_first() =~= bytes@.skip(position + 1));
    proof {
        lemma_read_varint(rest.drop_first(), depth as nat + 1);
    }
    if depth == 9 {
        assert(read_varint(rest.drop_first(), 10) is None);
        return None;
    }
    match get_varint_part(bytes, position + 1, depth + 1) {
        Some((high, count)) => {
            assert(128 * high + 127 < varint_bound(depth as nat));
            Some(((byte - 128) as u64 + 128 * high, count + 1))
        },
        None => None,
    }
}

/// The value of a field. Values of the types that no message uses are skipped.
pub enum WireValue {
    Varint(u64),
    Bytes(Seq<u8>),
    Skipped(u8),
}

/// A field of a message.
pub struct WireField {
    pub number: u32,
    pub value: WireValue,
}

/// The value of a field, as it was read.
pub enum FieldValue {
    Varint(u64),
    Bytes(Vec<u8>),
    Skipped(u8),
}

/// A field of a message, as it was read.
pub struct Field {
    pub number: u32,
    pub value: FieldValue,
}

impl View for Field {
    type V = WireField;

    open spec fn view(&self) -> WireField {
        WireField {
            number: self.number,
            value: match self.value {
                FieldValue::Varint(value) => WireValue::Varint(value),
                FieldValue::Bytes(bytes) => WireValue::Bytes(bytes@),
                FieldValue::Skipped(wire_type) => WireValue::Skipped(wire_type),
            },
        }
    }
}

/// The fields that a vector holds.
pub open spec fn wire_fields(fields: Seq<Field>) -> Seq<WireField> {
    Seq::new(fields.len(), |i: int| fields[i]@)
}

/// The field number and the wire type at the start of `bytes`, and the number of bytes they take.
pub open spec fn read_key(bytes: Seq<u8>) -> Option<(u32, u8, nat)> {
    match read_varint(bytes, 0) {
        Some((key, count)) => if key > u32::MAX || key % 8 > 5 || key / 8 == 0 {
            None
        } else {
            Some(((key / 8) as u32, (key % 8) as u8, count))
        },
        None => None,
    }
}

/// The number of bytes that a value of the given wire type takes, where it can be skipped.
pub open spec fn skipped_len(bytes: Seq<u8>, number: u32, wire_type: u8, limit: nat) -> Option<nat>
    decreases limit, bytes.len(), 1int,
{
    if limit == 0 {
        None
    } else if wire_type == 0 {
        match read_varint(bytes, 0) {
            Some((value, count)) => Some(count),
            None => None,
        }
    } else if wire_type == 1 {
        if bytes.len() >= 8 {
            Some(8)
        } else {
            None
        }
    } else if wire_type == 2 {
        match read_varint(bytes, 0) {
            Some((length, count)) => if length + count <= bytes.len() {
                Some(length + count)
            } else {
                None
            },
            None => None,
        }
    } else if wire_type == 3 {
        group_len(bytes, number, limit)
    } else if wire_type == 5 {
        if bytes.len() >= 4 {
            Some(4)
        } else {
            None
        }
    } else {
        None
    }
}

/// The number of bytes up to and with the end of the group with the given number.
pub open spec fn group_len(bytes: Seq<u8>, number: u32, limit: nat) -> Option<nat>
    decreases limit, bytes.len(), 0int,
{
    match read_key(bytes) {
        None => None,
        Some((inner, wire_type, count)) => if wire_type == 4 {
            if inner == number {
                Some(count)
            } else {
                None
            }
        } else if limit == 0 {
            None
        } else {
            match skipped_len(bytes.skip(count as int), inner, wire_type, (limit - 1) as nat) {
                None => None,
                Some(size) => if 0 < count + size <= bytes.len() {
                    match group_len(bytes.skip((count + size) as int), number, limit) {
                        Some(rest) => Some(count + size + rest),
                        None => None,
                    }
                } else {
                    None
                },
            }
        },
    }
}

/// The field at the start of `bytes`, and the number of bytes that it takes.
pub open spec fn read_field(bytes: Seq<u8>, limit: nat) -> Option<(WireField, nat)> {
    match read_key(bytes) {
        None => None,
        Some((number, wire_type, count)) => {
            let rest = bytes.skip(count as int);
            let (value, prefix) = read_varint(rest, 0)->0;
            match skipped_len(rest, number, wire_type, limit) {
                None => None,
                Some(size) => Some(
                    (
                        WireField {
                            number,
                            value: if wire_type == 0 {
                                WireValue::Varint(value as u64)
                            } else if wire_type == 2 {
                                WireValue::Bytes(rest.subrange(prefix as int, size as int))
                            } else {
                                WireValue::Skipped(wire_type)
                            },
                        },
                        count + size,
                    ),
                ),
            }
        },
    }
}

/// The fields that `bytes` consist of, where they consist of fields.
pub open spec fn read_fields(bytes: Seq<u8>, limit: nat) -> Option<Seq<WireField>>
    decreases bytes.len(),
{
    if bytes.len() == 0 {
        Some(seq![])
    } else {
        match read_field(bytes, limit) {
            None => None,
            Some((field, size)) => if 0 < size <= bytes.len() {
                match read_fields(bytes.skip(size as int), limit) {
                    None => None,
                    Some(rest) => Some(seq![field] + rest),
                }
            } else {
                None
            },
        }
    }
}

fn get_key(bytes: &[u8], position: usize) -> (result: Option<(u32, u8, usize)>)
    requires
        position <= bytes@.len(),
    ensures
        match result {
            Some((number, wire_type, count)) => read_key(bytes@.skip(position as int)) == Some(
                (number, wire_type, count as nat),
            ) && 1 <= count <= bytes@.len() - position,
            None => read_key(bytes@.skip(position as int)) is None,
        },
{
    match get_varint(bytes, position) {
        Some((key, count)) => {
            if key > u32::MAX as u64 || key % 8 > 5 || key / 8 == 0 {
                None
            } else {
                Some(((key / 8) as u32, (key % 8) as u8, count))
            }
        },
        None => None,
    }
}

fn skip_value(bytes: &[u8], position: usize, number: u32, wire_type: u8, limit: u32) -> (result:
    Option<usize>)
    requires
        position <= bytes@.len(),
    ensures
        match result {
            Some(size) => skipped_len(
                bytes@.skip(position as int),
                number,
                wire_type,
                limit as nat,
            ) == Some(size as nat) && size <= bytes@.len() - position,
            None => skipped_len(
                bytes@.skip(position as int),
                number,
                wire_type,
                limit as nat,
            ) is None,
        },
    decreases limit, bytes@.len() - position, 1int,
{
    let remaining: usize = bytes.len() - position;
    if limit == 0 {
        return None;
    }
    if wire_type == 0 {
        match get_varint(bytes, position) {
            Some((_, count)) => Some(count),
            None => None,
        }
    } else if wire_type == 1 {
        if remaining >= 8 {
            Some(8)
        } else {
            None
        }
    } else if wire_type == 2 {
        match get_varint(bytes, position) {
            Some((length, count)) => {
                if length <= (remaining - count) as u64 {
                    Some(length as usize + count)
                } else {
                    None
                }
            },
            None => None,
        }
    } else if wire_type == 3 {
        skip_group(bytes, position, number, limit)
    } else if wire_type == 5 {
        if remaining >= 4 {
            Some(4)
        } else {
            None
        }
    } else {
        None
    }
}

fn skip_group(bytes: &[u8], position: usize, number: u32, limit: u32) -> (result: Option<usize>)
    requires
        position <= bytes@.len(),
    ensures
        match result {
            Some(size) => group_len(bytes@.skip(position as int), number, limit as nat) == Some(
                size as nat,
            ) && size <= bytes@.len() - position,
            None => group_len(bytes@.skip(position as int), number, limit as nat) is None,
        },
    decreases limit, bytes@.len() - position, 0int,
{
    let ghost rest = bytes@.skip(position as int);
    let total: usize = bytes.len();
    match get_key(bytes, position) {
        None => None,
        Some((inner, wire_type, count)) => {
            if wire_type == 4 {
                if inner == number {
                    Some(count)
                } else {
                    None
                }
            } else if limit == 0 {
                None
            } else {
                assert(rest.skip(count as int) =~= bytes@.skip(position + count));
                match skip_value(bytes, position + count, inner, wire_type, limit - 1) {
                    None => None,
                    Some(size) => {
                        assert(rest.skip(count + size) =~= bytes@.skip(position + count + size));
                        match skip_group(bytes, position + count + size, number, limit) {
                            Some(more) => Some(count + size + more),
                            None => None,
                        }
                    },
                }
            }
        },
    }
}

/// Reads the fields that `bytes` consist of.
pub fn get_fields(bytes: &[u8], limit: u32) -> (result: Result<Vec<Field>, DecodeError>)
    ensures
        match result {
            Ok(fields) => read_fields(bytes@, limit as nat) == Some(wire_fields(fields@)),
            Err(_) => read_fields(bytes@, limit as nat) is None,
        },
{
    let mut fields: Vec<Field> = Vec::new();
    let mut position: usize = 0;
    proof {
        assert(bytes@.skip(0) =~= bytes@);
        if let Some(all) = read_fields(bytes@, limit as nat) {
            assert(seq![] + all =~= all);
        }
        assert(wire_fields(fields@) =~= seq![]);
    }
    while position < bytes.len()
        invariant
            position <= bytes@.len(),
            read_fields(bytes@, limit as nat) is Some == read_fields(
                bytes@.skip(position as int),
                limit as nat,
            ) is Some,
            read_fields(bytes@, limit as nat) is Some ==> read_fields(bytes@, limit as nat)->0
                == wire_fields(fields@) + read_fields(
                bytes@.skip(position as int),
                limit as nat,
            )->0,
        decreases bytes@.len() - position,
    {
        let ghost rest = bytes@.skip(position as int);
        let ghost before = wire_fields(fields@);
        match get_key(bytes, position) {
            None => {
                return Err(DecodeError);
            },
            Some((number, wire_type, count)) => {
                assert(rest.skip(count as int) =~= bytes@.skip(position + count));
                match skip_value(bytes, position + count, number, wire_type, limit) {
                    None => {
                        return Err(DecodeError);
                    },
                    Some(size) => {
                        let start: usize = position + count;
                        let value: FieldValue = if wire_type == 0 {
                            match get_varint(bytes, start) {
                                Some((value, _)) => FieldValue::Varint(value),
                                None => {
                                    return Err(DecodeError);
                                },
                            }
                        } else if wire_type == 2 {
                            match get_varint(bytes, start) {
                                Some((_, prefix)) => {
                                    let payload: &[u8] = vstd::slice::slice_subrange(
                                        bytes,
                                        start + prefix,
                                        start + size,
                                    );
                                    assert(payload@ =~= rest.skip(count as int).subrange(
                                        prefix as int,
                                        size as int,
                                    ));
                                    FieldValue::Bytes(vstd::slice::slice_to_vec(payload))
                                },
                                None => {
                                    return Err(DecodeError);
                                },
                            }
                        } else {
                            FieldValue::Skipped(wire_type)
                        };
                        let field: Field = Field { number, value };
                        let ghost added = field@;
                        fields.push(field);
                        proof {
                            assert(rest.skip(count + size) =~= bytes@.skip(
                                position + count + size,
                            ));
                            assert(read_field(rest, limit as nat) == Some(
                                (added, (count + size) as nat),
                            ));
                            assert(wire_fields(fields@) =~= before.push(added));
                            if let Some(more) = read_fields(
                                bytes@.skip(position + count + size),
                                limit as nat,
                            ) {
                                assert(before + (seq![added] + more) =~= before.push(added) + more);
                            }
                        }
                        position = position + count + size;
                    },
                }
            },
        }
    }
    proof {
        assert(bytes@.skip(position as int) =~= seq![]);
        assert(wire_fields(fields@) + seq![] =~= wire_fields(fields@));
    }
    Ok(fields)
}

/// The encoding of a field that a message has.
pub open spec fn field_bytes(field: WireField) -> Seq<u8> {
    match field.value {
        WireValue::Varint(value) => varint_bytes((field.number * 8) as nat) + varint_bytes(
            value as nat,
        ),
        WireValue::Bytes(bytes) => varint_bytes((field.number * 8 + 2) as nat) + varint_bytes(
            bytes.len(),
        ) + bytes,
        WireValue::Skipped(wire_type) => seq![],
    }
}

/// The encoding of the fields of a message.
pub open spec fn fields_bytes(fields: Seq<WireField>) -> Seq<u8>
    decreases fields.len(),
{
    if fields.len() == 0 {
        seq![]
    } else {
        fields_bytes(fields.drop_last()) + field_bytes(fields.last())
    }
}

/// A field that a message can have.
pub open spec fn field_ok(field: WireField) -> bool {
    &&& 1 <= field.number <= MAXIMUM_FIELD_NUMBER
    &&& match field.value {
        WireValue::Varint(_) => true,
        WireValue::Bytes(bytes) => bytes.len() <= u64::MAX,
        WireValue::Skipped(_) => false,
    }
}

/// Fields that a message can have.
pub open spec fn fields_ok(fields: Seq<WireField>) -> bool {
    forall|i: int| 0 <= i < fields.len() ==> field_ok(#[trigger] fields[i])
}

/// The encodings of fields follow each other.
pub proof fn lemma_fields_bytes_concat(left: Seq<WireField>, right: Seq<WireField>)
    ensures
        fields_bytes(left + right) == fields_bytes(left) + fields_bytes(right),
    decreases right.len(),
{
    if right.len() == 0 {
        assert(left + right =~= left);
        assert(fields_bytes(left) + seq![] =~= fields_bytes(left));
    } else {
        lemma_fields_bytes_concat(left, right.drop_last());
        assert((left + right).drop_last() =~= left + right.drop_last());
        assert((left + right).last() == right.last());
        assert(fields_bytes(left) + fields_bytes(right.drop_last()) + field_bytes(right.last())
            =~= fields_bytes(left) + (fields_bytes(right.drop_last()) + field_bytes(
            right.last(),
        )));
    }
}

/// Reading an encoded field gives the field, whatever follows it.
pub proof fn lemma_field_round_trip(field: WireField, rest: Seq<u8>, limit: nat)
    requires
        field_ok(field),
        limit > 0,
    ensures
        read_field(field_bytes(field) + rest, limit) == Some((field, field_bytes(field).len())),
        field_bytes(field).len() > 0,
{
    let bytes = field_bytes(field) + rest;
    lemma_varint_bound_is_64_bits();
    match field.value {
        WireValue::Varint(value) => {
            let key = varint_bytes((field.number * 8) as nat);
            let body = varint_bytes(value as nat);
            lemma_varint_len((field.number * 8) as nat);
            assert(bytes =~= key + (body + rest));
            lemma_varint_round_trip((field.number * 8) as nat, body + rest, 0);
            assert(bytes.skip(key.len() as int) =~= body + rest);
            lemma_varint_round_trip(value as nat, rest, 0);
        },
        WireValue::Bytes(payload) => {
            let key = varint_bytes((field.number * 8 + 2) as nat);
            let length = varint_bytes(payload.len());
            lemma_varint_len((field.number * 8 + 2) as nat);
            assert(bytes =~= key + (length + (payload + rest)));
            lemma_varint_round_trip(
                (field.number * 8 + 2) as nat,
                length + (payload + rest),
                0,
            );
            let after = bytes.skip(key.len() as int);
            assert(after =~= length + (payload + rest));
            lemma_varint_round_trip(payload.len(), payload + rest, 0);
            assert(after.subrange(length.len() as int, (length.len() + payload.len()) as int)
                =~= payload);
        },
        WireValue::Skipped(_) => {},
    }
}

/// Reading encoded fields gives the fields.
pub proof fn lemma_fields_round_trip(fields: Seq<WireField>, limit: nat)
    requires
        fields_ok(fields),
        limit > 0,
    ensures
        read_fields(fields_bytes(fields), limit) == Some(fields),
    decreases fields.len(),
{
    if fields.len() == 0 {
        assert(fields =~= seq![]);
    } else {
        let first = fields[0];
        let rest = fields.drop_first();
        assert(fields =~= seq![first] + rest);
        lemma_fields_bytes_concat(seq![first], rest);
        reveal_with_fuel(fields_bytes, 2);
        assert(seq![first].drop_last() =~= seq![]);
        assert(fields_bytes(seq![first]) =~= field_bytes(first));
        let bytes = fields_bytes(fields);
        lemma_field_round_trip(first, fields_bytes(rest), limit);
        assert(bytes.skip(field_bytes(first).len() as int) =~= fields_bytes(rest));
        assert forall|i: int| 0 <= i < rest.len() implies field_ok(#[trigger] rest[i]) by {
            assert(rest[i] == fields[i + 1]);
        }
        lemma_fields_round_trip(rest, limit);
    }
}

/// Appends the encoding of an integer field.
pub fn put_varint_field(target: &mut Vec<u8>, number: u32, value: u64)
    requires
        1 <= number <= MAXIMUM_FIELD_NUMBER,
    ensures
        final(target)@ == old(target)@ + field_bytes(
            WireField { number, value: WireValue::Varint(value) },
        ),
{
    let ghost before = target@;
    put_varint(target, number as u64 * 8);
    put_varint(target, value);
    assert(target@ =~= before + field_bytes(
        WireField { number, value: WireValue::Varint(value) },
    ));
}

/// Appends the encoding of a field of bytes.
pub fn put_bytes_field(target: &mut Vec<u8>, number: u32, value: &[u8])
    requires
        1 <= number <= MAXIMUM_FIELD_NUMBER,
    ensures
        final(target)@ == old(target)@ + field_bytes(
            WireField { number, value: WireValue::Bytes(value@) },
        ),
{
    let ghost before = target@;
    put_varint(target, number as u64 * 8 + 2);
    put_varint(target, value.len() as u64);
    append_bytes(target, value);
    assert(target@ =~= before + field_bytes(
        WireField { number, value: WireValue::Bytes(value@) },
    ));
}

} // verus!
