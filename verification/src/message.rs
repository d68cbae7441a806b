//! Messages: values that are written as fields and read back from them.
use vstd::prelude::*;

use crate::fields::{
    byte_strings, find_payloads, lacks, last_varint, lemma_lacks, lemma_last_varint_concat,
    lemma_listed_values_concat, lemma_merged_single, lemma_only_bytes_concat,
    lemma_only_varints_concat, lemma_payloads_concat, listed_values, merge_payloads, merged_fields,
    only_bytes, only_varints, payload_fields, payloads, put_payload,
};
use crate::proto::{
    fields_bytes, fields_ok, get_fields, lemma_fields_bytes_concat,
    lemma_fields_round_trip, read_fields, wire_fields, DecodeError, Field, WireField,
    MAXIMUM_FIELD_NUMBER, RECURSION_LIMIT,
};

verus! {

/// A value that is written as fields and read back from them.
pub trait WireMessage: Sized + View {
    /// The fields that the value is written as.
    spec fn fields_of(view: Self::V) -> Seq<WireField>;

    /// The value that fields stand for, where they stand for one.
    spec fn message_of(fields: Seq<WireField>, limit: nat) -> Option<Self::V>;

    /// How deeply messages are nested below this one.
    spec fn nesting() -> nat;

    /// Appends the encoding of the value.
    fn put(&self, target: &mut Vec<u8>)
        ensures
            final(target)@ == old(target)@ + fields_bytes(Self::fields_of(self@)),
    ;

    /// Reads the value that fields stand for.
    fn get(fields: &Vec<Field>, limit: u32) -> (result: Result<Self, DecodeError>)
        requires
            limit > Self::nesting(),
        ensures
            match result {
                Ok(message) => Self::message_of(wire_fields(fields@), limit as nat) == Some(
                    message@,
                ),
                Err(_) => Self::message_of(wire_fields(fields@), limit as nat) is None,
            },
    ;

    /// The fields that a value is written as stand for that value.
    proof fn lemma_reads_back(view: Self::V, limit: nat)
        requires
            limit > Self::nesting(),
            fields_bytes(Self::fields_of(view)).len() <= u64::MAX,
        ensures
            fields_ok(Self::fields_of(view)),
            Self::message_of(Self::fields_of(view), limit) == Some(view),
    ;

    /// No message is nested more deeply than the limit allows.
    proof fn lemma_nesting()
        ensures
            Self::nesting() < RECURSION_LIMIT,
    ;
}

/// The encoding of a message.
pub open spec fn encoded<M: WireMessage>(view: M::V) -> Seq<u8> {
    fields_bytes(M::fields_of(view))
}

/// The message that bytes encode, where they encode one.
pub open spec fn decoded<M: WireMessage>(bytes: Seq<u8>) -> Option<M::V> {
    match read_fields(bytes, RECURSION_LIMIT as nat) {
        Some(fields) => M::message_of(fields, RECURSION_LIMIT as nat),
        None => None,
    }
}

/// Decoding an encoded message gives the message, of whatever kind it is.
pub proof fn law_message_round_trips<M: WireMessage>(view: M::V)
    requires
        encoded::<M>(view).len() <= u64::MAX,
    ensures
        decoded::<M>(encoded::<M>(view)) == Some(view),
{
    M::lemma_nesting();
    M::lemma_reads_back(view, RECURSION_LIMIT as nat);
    lemma_fields_round_trip(M::fields_of(view), RECURSION_LIMIT as nat);
}

/// The encoding of a message.
pub fn encode_message<M: WireMessage>(message: &M) -> (bytes: Vec<u8>)
    ensures
        bytes@ == encoded::<M>(message@),
{
    let mut bytes: Vec<u8> = Vec::new();
    message.put(&mut bytes);
    assert(bytes@ =~= encoded::<M>(message@));
    bytes
}

/// Decodes a message.
pub fn decode_message<M: WireMessage>(bytes: &[u8]) -> (result: Result<M, DecodeError>)
    ensures
        match result {
            Ok(message) => decoded::<M>(bytes@) == Some(message@),
            Err(_) => decoded::<M>(bytes@) is None,
        },
{
    proof {
        M::lemma_nesting();
    }
    let fields: Vec<Field> = get_fields(bytes, RECURSION_LIMIT)?;
    M::get(&fields, RECURSION_LIMIT)
}

/// The payloads of a message that may be absent.
pub open spec fn option_payloads<M: WireMessage>(view: Option<M::V>) -> Seq<Seq<u8>> {
    match view {
        Some(view) => seq![encoded::<M>(view)],
        None => seq![],
    }
}

/// The payloads of a list of messages.
pub open spec fn list_payloads<M: WireMessage>(views: Seq<M::V>) -> Seq<Seq<u8>> {
    Seq::new(views.len(), |i: int| encoded::<M>(views[i]))
}

/// The message that payloads stand for together, where they stand for one.
pub open spec fn message_in<M: WireMessage>(values: Seq<Seq<u8>>, limit: nat) -> Option<
    Option<M::V>,
> {
    if values.len() == 0 {
        Some(None)
    } else {
        match merged_fields(values, (limit - 1) as nat) {
            None => None,
            Some(fields) => match M::message_of(fields, (limit - 1) as nat) {
                None => None,
                Some(view) => Some(Some(view)),
            },
        }
    }
}

/// The message that one payload stands for, where it stands for one.
pub open spec fn message_at<M: WireMessage>(value: Seq<u8>, limit: nat) -> Option<M::V> {
    match read_fields(value, (limit - 1) as nat) {
        None => None,
        Some(fields) => M::message_of(fields, (limit - 1) as nat),
    }
}

/// The messages that payloads stand for one by one, where each stands for one.
pub open spec fn messages_in<M: WireMessage>(values: Seq<Seq<u8>>, limit: nat) -> Option<Seq<M::V>>
    decreases values.len(),
{
    if values.len() == 0 {
        Some(seq![])
    } else {
        match (
            messages_in::<M>(values.drop_last(), limit),
            message_at::<M>(values.last(), limit),
        ) {
            (Some(earlier), Some(last)) => Some(earlier.push(last)),
            _ => None,
        }
    }
}

/// The payload of a message stands for the message.
pub proof fn lemma_message_at<M: WireMessage>(view: M::V, limit: nat)
    requires
        limit > M::nesting() + 1,
        encoded::<M>(view).len() <= u64::MAX,
    ensures
        message_at::<M>(encoded::<M>(view), limit) == Some(view),
{
    M::lemma_reads_back(view, (limit - 1) as nat);
    lemma_fields_round_trip(M::fields_of(view), (limit - 1) as nat);
}

/// The payloads of a message that may be absent stand for it.
pub proof fn lemma_message_in<M: WireMessage>(view: Option<M::V>, limit: nat)
    requires
        limit > M::nesting() + 1,
        view is Some ==> encoded::<M>(view->0).len() <= u64::MAX,
    ensures
        message_in::<M>(option_payloads::<M>(view), limit) == Some(view),
{
    if let Some(inner) = view {
        M::lemma_reads_back(inner, (limit - 1) as nat);
        lemma_fields_round_trip(M::fields_of(inner), (limit - 1) as nat);
        lemma_merged_single(encoded::<M>(inner), (limit - 1) as nat);
    }
}

/// The payloads of messages stand for them.
pub proof fn lemma_messages_in<M: WireMessage>(views: Seq<M::V>, limit: nat)
    requires
        limit > M::nesting() + 1,
        forall|i: int| 0 <= i < views.len() ==> encoded::<M>(#[trigger] views[i]).len() <= u64::MAX,
    ensures
        messages_in::<M>(list_payloads::<M>(views), limit) == Some(views),
    decreases views.len(),
{
    let values = list_payloads::<M>(views);
    if views.len() == 0 {
        assert(views =~= seq![]);
    } else {
        let front = views.drop_last();
        assert forall|i: int| 0 <= i < front.len() implies encoded::<M>(#[trigger] front[i]).len()
            <= u64::MAX by {
            assert(front[i] == views[i]);
        }
        lemma_messages_in::<M>(front, limit);
        assert(values.drop_last() =~= list_payloads::<M>(front));
        assert(views[views.len() - 1] == views.last());
        lemma_message_at::<M>(views.last(), limit);
        assert(front.push(views.last()) =~= views);
    }
}

/// Fields whose numbers and types a message can have.
pub open spec fn numbered(fields: Seq<WireField>) -> bool {
    forall|i: int|
        0 <= i < fields.len() ==> 1 <= (#[trigger] fields[i]).number <= MAXIMUM_FIELD_NUMBER
            && !(fields[i].value is Skipped)
}

/// Fields whose encoding is not too long can be read back.
pub proof fn lemma_fields_ok(fields: Seq<WireField>)
    requires
        numbered(fields),
        fields_bytes(fields).len() <= u64::MAX,
    ensures
        fields_ok(fields),
    decreases fields.len(),
{
    if fields.len() > 0 {
        let front = fields.drop_last();
        assert(numbered(front)) by {
            assert(forall|i: int| 0 <= i < front.len() ==> #[trigger] front[i] == fields[i]);
        }
        lemma_fields_ok(front);
        assert forall|i: int| 0 <= i < fields.len() implies crate::proto::field_ok(
            #[trigger] fields[i],
        ) by {
            if i < front.len() {
                assert(fields[i] == front[i]);
            } else {
                assert(fields[i] == fields.last());
            }
        }
    }
}

/// No payload is longer than the encoding of the fields that hold it.
pub proof fn lemma_payload_len(fields: Seq<WireField>, number: u32)
    ensures
        forall|i: int|
            0 <= i < payloads(fields, number).len() ==> (#[trigger] payloads(fields, number)[i]).len()
                <= fields_bytes(fields).len(),
    decreases fields.len(),
{
    if fields.len() > 0 {
        lemma_payload_len(fields.drop_last(), number);
        let earlier = payloads(fields.drop_last(), number);
        assert forall|i: int| 0 <= i < payloads(fields, number).len() implies (#[trigger] payloads(
            fields,
            number,
        )[i]).len() <= fields_bytes(fields).len() by {
            if i < earlier.len() {
                assert(payloads(fields, number)[i] == earlier[i]);
            }
        }
    }
}

/// Appends the fields of a message that may be absent.
pub fn put_message<M: WireMessage>(target: &mut Vec<u8>, number: u32, message: &Option<M>)
    requires
        1 <= number <= MAXIMUM_FIELD_NUMBER,
    ensures
        final(target)@ == old(target)@ + fields_bytes(
            payload_fields(number, option_payloads::<M>(option_view(*message))),
        ),
{
    let ghost before = target@;
    match message {
        Some(message) => {
            let payload: Vec<u8> = encode_message(message);
            put_payload(target, number, payload.as_slice());
        },
        None => {
            assert(payload_fields(number, seq![]) =~= seq![]);
            assert(target@ =~= before + fields_bytes(payload_fields(number, seq![])));
        },
    }
}

/// What a message that may be absent holds.
pub open spec fn option_view<M: View>(message: Option<M>) -> Option<M::V> {
    match message {
        Some(message) => Some(message@),
        None => None,
    }
}

/// What a list of messages holds.
pub open spec fn list_view<M: View>(messages: Seq<M>) -> Seq<M::V> {
    Seq::new(messages.len(), |i: int| messages[i]@)
}

/// Appends the fields of byte strings.
pub fn put_byte_strings(target: &mut Vec<u8>, number: u32, values: &Vec<Vec<u8>>)
    requires
        1 <= number <= MAXIMUM_FIELD_NUMBER,
    ensures
        final(target)@ == old(target)@ + fields_bytes(
            payload_fields(number, byte_strings(values@)),
        ),
{
    let ghost start = target@;
    let ghost all = byte_strings(values@);
    let mut index: usize = 0;
    assert(payload_fields(number, all.take(0)) =~= seq![]);
    assert(start + fields_bytes(seq![]) =~= start);
    while index < values.len()
        invariant
            index <= values@.len(),
            all == byte_strings(values@),
            1 <= number <= MAXIMUM_FIELD_NUMBER,
            target@ == start + fields_bytes(payload_fields(number, all.take(index as int))),
        decreases values@.len() - index,
    {
        let ghost done = payload_fields(number, all.take(index as int));
        put_payload(target, number, values[index].as_slice());
        proof {
            let added = payload_fields(number, seq![values@[index as int]@]);
            assert(payload_fields(number, all.take(index + 1)) =~= done + added);
            lemma_fields_bytes_concat(done, added);
            assert((start + fields_bytes(done)) + fields_bytes(added) =~= start + (fields_bytes(
                done,
            ) + fields_bytes(added)));
        }
        index += 1;
    }
    assert(all.take(index as int) =~= all);
}

/// Appends the fields of a list of messages.
pub fn put_messages<M: WireMessage>(target: &mut Vec<u8>, number: u32, messages: &Vec<M>)
    requires
        1 <= number <= MAXIMUM_FIELD_NUMBER,
    ensures
        final(target)@ == old(target)@ + fields_bytes(
            payload_fields(number, list_payloads::<M>(list_view(messages@))),
        ),
{
    let mut values: Vec<Vec<u8>> = Vec::new();
    let mut index: usize = 0;
    while index < messages.len()
        invariant
            index <= messages@.len(),
            values@.len() == index,
            forall|i: int| 0 <= i < index ==> (#[trigger] values@[i])@ == encoded::<M>(messages@[i]@),
        decreases messages@.len() - index,
    {
        values.push(encode_message(&messages[index]));
        index += 1;
    }
    assert(byte_strings(values@) =~= list_payloads::<M>(list_view(messages@)));
    put_byte_strings(target, number, &values);
}

/// Reads the message of the fields with the given number.
pub fn find_message<M: WireMessage>(fields: &Vec<Field>, number: u32, limit: u32) -> (result: Result<
    Option<M>,
    DecodeError,
>)
    requires
        limit > M::nesting() + 1,
    ensures
        match result {
            Ok(message) => only_bytes(wire_fields(fields@), number) && message_in::<M>(
                payloads(wire_fields(fields@), number),
                limit as nat,
            ) == Some(option_view(message)),
            Err(_) => !only_bytes(wire_fields(fields@), number) || message_in::<M>(
                payloads(wire_fields(fields@), number),
                limit as nat,
            ) is None,
        },
{
    let values: Vec<Vec<u8>> = find_payloads(fields, number)?;
    if values.len() == 0 {
        return Ok(None);
    }
    let merged: Vec<Field> = merge_payloads(&values, limit - 1)?;
    let message: M = M::get(&merged, limit - 1)?;
    Ok(Some(message))
}

/// Reads the messages of the fields with the given number.
pub fn find_messages<M: WireMessage>(fields: &Vec<Field>, number: u32, limit: u32) -> (result:
    Result<Vec<M>, DecodeError>)
    requires
        limit > M::nesting() + 1,
    ensures
        match result {
            Ok(messages) => only_bytes(wire_fields(fields@), number) && messages_in::<M>(
                payloads(wire_fields(fields@), number),
                limit as nat,
            ) == Some(list_view(messages@)),
            Err(_) => !only_bytes(wire_fields(fields@), number) || messages_in::<M>(
                payloads(wire_fields(fields@), number),
                limit as nat,
            ) is None,
        },
{
    let values: Vec<Vec<u8>> = find_payloads(fields, number)?;
    let ghost all = byte_strings(values@);
    let mut messages: Vec<M> = Vec::new();
    let mut index: usize = 0;
    assert(all.take(0) =~= seq![]);
    assert(list_view(messages@) =~= seq![]);
    while index < values.len()
        invariant
            index <= values@.len(),
            all == byte_strings(values@),
            all == payloads(wire_fields(fields@), number),
            only_bytes(wire_fields(fields@), number),
            limit > M::nesting() + 1,
            messages_in::<M>(all.take(index as int), limit as nat) == Some(list_view(messages@)),
        decreases values@.len() - index,
    {
        let ghost next = all.take(index + 1);
        let ghost before = list_view(messages@);
        proof {
            assert(next.drop_last() =~= all.take(index as int));
            assert(next.last() == values@[index as int]@);
            if messages_in::<M>(next, limit as nat) is None {
                lemma_messages_prefix::<M>(all, index + 1, limit as nat);
            }
        }
        let inner: Vec<Field> = get_fields(values[index].as_slice(), limit - 1)?;
        let message: M = M::get(&inner, limit - 1)?;
        let ghost added = message@;
        messages.push(message);
        assert(list_view(messages@) =~= before.push(added));
        index += 1;
    }
    assert(all.take(index as int) =~= all);
    Ok(messages)
}

proof fn lemma_messages_prefix<M: WireMessage>(values: Seq<Seq<u8>>, count: int, limit: nat)
    requires
        0 <= count <= values.len(),
        messages_in::<M>(values.take(count), limit) is None,
    ensures
        messages_in::<M>(values, limit) is None,
    decreases values.len() - count,
{
    if count < values.len() {
        let next = values.take(count + 1);
        assert(next.drop_last() =~= values.take(count));
        lemma_messages_prefix::<M>(values, count + 1, limit);
    } else {
        assert(values.take(count) =~= values);
    }
}

/// Lists of fields, one after the other.
pub open spec fn flatten_fields(parts: Seq<Seq<WireField>>) -> Seq<WireField>
    decreases parts.len(),
{
    if parts.len() == 0 {
        seq![]
    } else {
        flatten_fields(parts.drop_last()) + parts.last()
    }
}

/// The first list has fields with the number one, the second with the number two, and so on.
pub open spec fn owned(parts: Seq<Seq<WireField>>) -> bool {
    forall|j: int, i: int|
        0 <= j < parts.len() && 0 <= i < parts[j].len() ==> (#[trigger] parts[j][i]).number == j + 1
            && !(parts[j][i].value is Skipped)
}

/// What fields say of a number is what the list with that number says.
pub proof fn lemma_part(parts: Seq<Seq<WireField>>, number: u32)
    requires
        owned(parts),
        1 <= number <= parts.len(),
    ensures
        last_varint(flatten_fields(parts), number) == last_varint(parts[number - 1], number),
        payloads(flatten_fields(parts), number) == payloads(parts[number - 1], number),
        only_varints(flatten_fields(parts), number) == only_varints(parts[number - 1], number),
        only_bytes(flatten_fields(parts), number) == only_bytes(parts[number - 1], number),
        listed_values(flatten_fields(parts), number) == listed_values(parts[number - 1], number),
    decreases parts.len(),
{
    let front = parts.drop_last();
    let last = parts.last();
    lemma_owned_front(parts);
    lemma_last_varint_concat(flatten_fields(front), last, number);
    lemma_payloads_concat(flatten_fields(front), last, number);
    lemma_only_varints_concat(flatten_fields(front), last, number);
    lemma_only_bytes_concat(flatten_fields(front), last, number);
    lemma_listed_values_concat(flatten_fields(front), last, number);
    if number == parts.len() {
        lemma_front_lacks(front, number);
        lemma_lacks(flatten_fields(front), number);
        assert(Seq::<Seq<u8>>::empty() + payloads(last, number) =~= payloads(last, number));
        if let Some(values) = listed_values(last, number) {
            assert(Seq::<u64>::empty() + values =~= values);
        }
    } else {
        lemma_part(front, number);
        assert(front[number - 1] == parts[number - 1]);
        assert(lacks(last, number)) by {
            assert forall|i: int| 0 <= i < last.len() implies (#[trigger] last[i]).number
                != number by {
                assert(parts[parts.len() - 1][i].number == parts.len());
            }
        }
        lemma_lacks(last, number);
        assert(payloads(parts[number - 1], number) + Seq::<Seq<u8>>::empty() =~= payloads(
            parts[number - 1],
            number,
        ));
        if let Some(values) = listed_values(parts[number - 1], number) {
            assert(values + Seq::<u64>::empty() =~= values);
        }
    }
}

proof fn lemma_owned_front(parts: Seq<Seq<WireField>>)
    requires
        owned(parts),
        parts.len() > 0,
    ensures
        owned(parts.drop_last()),
{
    let front = parts.drop_last();
    assert forall|j: int, i: int| 0 <= j < front.len() && 0 <= i < front[j].len() implies (
    #[trigger] front[j][i]).number == j + 1 && !(front[j][i].value is Skipped) by {
        assert(parts[j][i].number == j + 1);
    }
}

proof fn lemma_front_lacks(parts: Seq<Seq<WireField>>, number: u32)
    requires
        owned(parts),
        number > parts.len(),
    ensures
        lacks(flatten_fields(parts), number),
    decreases parts.len(),
{
    if parts.len() > 0 {
        let front = parts.drop_last();
        let last = parts.last();
        lemma_owned_front(parts);
        lemma_front_lacks(front, number);
        let all = flatten_fields(parts);
        assert forall|i: int| 0 <= i < all.len() implies (#[trigger] all[i]).number != number by {
            let earlier = flatten_fields(front);
            if i < earlier.len() {
                assert(all[i] == earlier[i]);
            } else {
                assert(all[i] == last[i - earlier.len()]);
                assert(parts[parts.len() - 1][i - earlier.len()].number == parts.len());
            }
        }
    }
}

/// Fields that are owned by their numbers can be read back where their encoding is not too long.
pub proof fn lemma_parts_ok(parts: Seq<Seq<WireField>>)
    requires
        owned(parts),
        parts.len() <= MAXIMUM_FIELD_NUMBER,
        fields_bytes(flatten_fields(parts)).len() <= u64::MAX,
    ensures
        fields_ok(flatten_fields(parts)),
{
    lemma_parts_numbered(parts);
    lemma_fields_ok(flatten_fields(parts));
}

proof fn lemma_parts_numbered(parts: Seq<Seq<WireField>>)
    requires
        owned(parts),
        parts.len() <= MAXIMUM_FIELD_NUMBER,
    ensures
        numbered(flatten_fields(parts)),
    decreases parts.len(),
{
    if parts.len() > 0 {
        let front = parts.drop_last();
        let last = parts.last();
        lemma_owned_front(parts);
        lemma_parts_numbered(front);
        let all = flatten_fields(parts);
        assert forall|i: int| 0 <= i < all.len() implies 1 <= (#[trigger] all[i]).number
            <= MAXIMUM_FIELD_NUMBER && !(all[i].value is Skipped) by {
            let earlier = flatten_fields(front);
            if i < earlier.len() {
                assert(all[i] == earlier[i]);
            } else {
                assert(all[i] == last[i - earlier.len()]);
                assert(parts[parts.len() - 1][i - earlier.len()].number == parts.len());
            }
        }
    }
}

/// The encoding grows part by part.
pub proof fn lemma_put_part(
    start: Seq<u8>,
    parts: Seq<Seq<WireField>>,
    index: int,
    before: Seq<u8>,
    after: Seq<u8>,
)
    requires
        0 <= index < parts.len(),
        before == start + fields_bytes(flatten_fields(parts.take(index))),
        after == before + fields_bytes(parts[index]),
    ensures
        after == start + fields_bytes(flatten_fields(parts.take(index + 1))),
{
    let done = parts.take(index);
    let next = parts.take(index + 1);
    assert(next.drop_last() =~= done);
    assert(next.last() == parts[index]);
    lemma_fields_bytes_concat(flatten_fields(done), parts[index]);
    assert(after =~= start + fields_bytes(flatten_fields(next)));
}

/// Nothing is written before the first part.
pub proof fn lemma_put_start(start: Seq<u8>, parts: Seq<Seq<WireField>>)
    ensures
        start == start + fields_bytes(flatten_fields(parts.take(0))),
{
    assert(parts.take(0) =~= seq![]);
    assert(start =~= start + fields_bytes(flatten_fields(parts.take(0))));
}

} // verus!
