//! Messages that hold one of several others.
use vstd::prelude::*;

use crate::fields::{
    append_fields, find_varint, group_fields, lacks, lemma_lacks, lemma_last_varint_concat,
    lemma_only_varints_concat, low_word, only_varints, payload_fields, put_payload, put_uint,
    to_low_word, varint_field,
};
use crate::message::{
    encode_message, lemma_fields_ok, numbered, option_view, WireMessage,
};
use crate::proto::{
    fields_bytes, get_fields, lemma_fields_bytes_concat, lemma_fields_round_trip, read_fields,
    wire_fields, DecodeError, Field, FieldValue, WireField, WireValue,
};
use crate::wire::{
    scalar, ChangeBatch, ChangeBatchView, ChangeLogRequest, ChangeLogRequestView, FileRecord,
    FileRecordView, ObjectAcknowledgement, ObjectAcknowledgementView, ObjectOffer, ObjectOfferView,
    ObjectRangeRequest, ObjectRangeRequestView, TombstoneRecord, TombstoneRecordView,
};

verus! {

/// A message of which one of several fields holds another message.
pub trait Oneof {
    /// The field with the given number may hold the message.
    spec fn has(number: u32) -> bool;

    /// The fields stand for a message of the kind that the given number holds.
    spec fn valid(number: u32, fields: Seq<WireField>, limit: nat) -> bool;

    /// How deeply messages are nested below those that are held.
    spec fn depth() -> nat;

    fn is_member(number: u32) -> (member: bool)
        ensures
            member == Self::has(number),
    ;

    fn is_valid(number: u32, fields: &Vec<Field>, limit: u32) -> (valid: bool)
        requires
            limit > Self::depth(),
        ensures
            valid == Self::valid(number, wire_fields(fields@), limit as nat),
    ;
}

/// The number and the fields of the message that is held. A later field replaces an earlier one
/// with another number, and adds its fields to one with the same number.
pub open spec fn oneof_state<O: Oneof>(fields: Seq<WireField>, limit: nat) -> Option<
    Option<(u32, Seq<WireField>)>,
>
    decreases fields.len(),
{
    if fields.len() == 0 {
        Some(None)
    } else {
        match oneof_state::<O>(fields.drop_last(), limit) {
            None => None,
            Some(state) => oneof_step::<O>(state, fields.last(), limit),
        }
    }
}

/// What one more field makes of the message that is held.
pub open spec fn oneof_step<O: Oneof>(
    state: Option<(u32, Seq<WireField>)>,
    field: WireField,
    limit: nat,
) -> Option<Option<(u32, Seq<WireField>)>> {
    if !O::has(field.number) {
        Some(state)
    } else {
        match field.value {
            WireValue::Bytes(bytes) => match read_fields(bytes, (limit - 1) as nat) {
                None => None,
                Some(inner) => if !O::valid(field.number, inner, (limit - 1) as nat) {
                    None
                } else {
                    match state {
                        Some((number, earlier)) if number == field.number => Some(
                            Some((number, earlier + inner)),
                        ),
                        _ => Some(Some((field.number, inner))),
                    }
                },
            },
            _ => None,
        }
    }
}

/// Fields that hold no message leave none.
pub proof fn lemma_oneof_lacks<O: Oneof>(fields: Seq<WireField>, limit: nat)
    requires
        forall|i: int| 0 <= i < fields.len() ==> !O::has((#[trigger] fields[i]).number),
    ensures
        oneof_state::<O>(fields, limit) == Some(None::<(u32, Seq<WireField>)>),
    decreases fields.len(),
{
    if fields.len() > 0 {
        let front = fields.drop_last();
        assert forall|i: int| 0 <= i < front.len() implies !O::has((#[trigger] front[i]).number) by {
            assert(front[i] == fields[i]);
        }
        lemma_oneof_lacks::<O>(front, limit);
        assert(!O::has(fields[fields.len() - 1].number));
    }
}

/// After fields that hold no message, those that follow decide.
pub proof fn lemma_oneof_concat<O: Oneof>(
    left: Seq<WireField>,
    right: Seq<WireField>,
    limit: nat,
)
    requires
        oneof_state::<O>(left, limit) == Some(None::<(u32, Seq<WireField>)>),
    ensures
        oneof_state::<O>(left + right, limit) == oneof_state::<O>(right, limit),
    decreases right.len(),
{
    if right.len() == 0 {
        assert(left + right =~= left);
    } else {
        lemma_oneof_concat::<O>(left, right.drop_last(), limit);
        assert((left + right).drop_last() =~= left + right.drop_last());
        assert((left + right).last() == right.last());
    }
}

/// One field that holds a message decides.
pub proof fn lemma_oneof_single<O: Oneof>(number: u32, inner: Seq<WireField>, limit: nat)
    requires
        O::has(number),
        O::valid(number, inner, (limit - 1) as nat),
        read_fields(fields_bytes(inner), (limit - 1) as nat) == Some(inner),
    ensures
        oneof_state::<O>(
            seq![WireField { number, value: WireValue::Bytes(fields_bytes(inner)) }],
            limit,
        ) == Some(Some((number, inner))),
{
    reveal_with_fuel(oneof_state, 2);
    let fields = seq![WireField { number, value: WireValue::Bytes(fields_bytes(inner)) }];
    assert(fields.drop_last() =~= seq![]);
}

proof fn lemma_oneof_prefix<O: Oneof>(fields: Seq<WireField>, count: int, limit: nat)
    requires
        0 <= count <= fields.len(),
        oneof_state::<O>(fields.take(count), limit) is None,
    ensures
        oneof_state::<O>(fields, limit) is None,
    decreases fields.len() - count,
{
    if count < fields.len() {
        let next = fields.take(count + 1);
        assert(next.drop_last() =~= fields.take(count));
        lemma_oneof_prefix::<O>(fields, count + 1, limit);
    } else {
        assert(fields.take(count) =~= fields);
    }
}

/// The state of a `oneof`, as it was read.
pub open spec fn state_view(state: Option<(u32, Vec<Field>)>) -> Option<(u32, Seq<WireField>)> {
    match state {
        Some((number, fields)) => Some((number, wire_fields(fields@))),
        None => None,
    }
}

/// Reads the number and the fields of the message that is held.
pub fn find_oneof<O: Oneof>(fields: &Vec<Field>, limit: u32) -> (result: Result<
    Option<(u32, Vec<Field>)>,
    DecodeError,
>)
    requires
        limit > O::depth() + 1,
    ensures
        match result {
            Ok(state) => oneof_state::<O>(wire_fields(fields@), limit as nat) == Some(
                state_view(state),
            ),
            Err(_) => oneof_state::<O>(wire_fields(fields@), limit as nat) is None,
        },
{
    let ghost all = wire_fields(fields@);
    let mut state: Option<(u32, Vec<Field>)> = None;
    let mut index: usize = 0;
    assert(all.take(0) =~= seq![]);
    while index < fields.len()
        invariant
            index <= fields@.len(),
            all == wire_fields(fields@),
            limit > O::depth() + 1,
            oneof_state::<O>(all.take(index as int), limit as nat) == Some(state_view(state)),
        decreases fields@.len() - index,
    {
        let ghost next = all.take(index + 1);
        let ghost before = state_view(state);
        proof {
            assert(next.drop_last() =~= all.take(index as int));
            assert(next.last() == fields@[index as int]@);
            if oneof_state::<O>(next, limit as nat) is None {
                lemma_oneof_prefix::<O>(all, index + 1, limit as nat);
            }
        }
        let number: u32 = fields[index].number;
        if O::is_member(number) {
            match &fields[index].value {
                FieldValue::Bytes(bytes) => {
                    let inner: Vec<Field> = get_fields(bytes.as_slice(), limit - 1)?;
                    if !O::is_valid(number, &inner, limit - 1) {
                        return Err(DecodeError);
                    }
                    let ghost added = wire_fields(inner@);
                    state = match state {
                        Some((current, earlier)) => {
                            if current == number {
                                let mut both: Vec<Field> = earlier;
                                let ghost first = wire_fields(both@);
                                append_fields(&mut both, inner);
                                assert(wire_fields(both@) =~= first + added);
                                Some((current, both))
                            } else {
                                Some((number, inner))
                            }
                        },
                        None => Some((number, inner)),
                    };
                },
                _ => {
                    return Err(DecodeError);
                },
            }
        }
        index += 1;
    }
    assert(all.take(index as int) =~= all);
    Ok(state)
}

/// What a change record is.
#[derive(Clone, Debug, PartialEq, Eq)]
pub enum ManifestRecord {
    File(FileRecord),
    Tombstone(TombstoneRecord),
}

/// The contents of `ManifestRecord`.
pub enum ManifestRecordView {
    File(FileRecordView),
    Tombstone(TombstoneRecordView),
}

impl View for ManifestRecord {
    type V = ManifestRecordView;

    open spec fn view(&self) -> ManifestRecordView {
        match *self {
            ManifestRecord::File(message) => ManifestRecordView::File(message@),
            ManifestRecord::Tombstone(message) => ManifestRecordView::Tombstone(message@),
        }
    }
}

/// A change record with the version of its format.
#[derive(Clone, Debug, Default, PartialEq, Eq)]
pub struct ManifestEnvelope {
    pub format_version: u32,
    pub record: Option<ManifestRecord>,
}

/// The contents of `ManifestEnvelope`.
pub struct ManifestEnvelopeView {
    pub format_version: u32,
    pub record: Option<ManifestRecordView>,
}

impl View for ManifestEnvelope {
    type V = ManifestEnvelopeView;

    open spec fn view(&self) -> ManifestEnvelopeView {
        ManifestEnvelopeView {
            format_version: self.format_version,
            record: option_view(self.record),
        }
    }
}

impl Oneof for ManifestEnvelope {
    open spec fn has(number: u32) -> bool {
        2 <= number <= 3
    }

    open spec fn valid(number: u32, fields: Seq<WireField>, limit: nat) -> bool {
        ManifestRecordView::variant_of(number, fields, limit) is Some
    }

    open spec fn depth() -> nat {
        1
    }

    fn is_member(number: u32) -> (member: bool) {
        2 <= number && number <= 3
    }

    fn is_valid(number: u32, fields: &Vec<Field>, limit: u32) -> (valid: bool) {
        ManifestRecord::variant(number, fields, limit).is_ok()
    }
}

impl ManifestRecordView {
    /// The number of the field that holds the message.
    pub open spec fn number(self) -> u32 {
        match self {
            ManifestRecordView::File(_) => 2,
            ManifestRecordView::Tombstone(_) => 3,
        }
    }

    /// The fields of the message.
    pub open spec fn inner(self) -> Seq<WireField> {
        match self {
            ManifestRecordView::File(view) => FileRecord::fields_of(view),
            ManifestRecordView::Tombstone(view) => TombstoneRecord::fields_of(view),
        }
    }

    /// The message that the fields in the field with the given number stand for.
    pub open spec fn variant_of(number: u32, fields: Seq<WireField>, limit: nat) -> Option<ManifestRecordView> {
        if number == 2 {
            match FileRecord::message_of(fields, limit) {
                Some(view) => Some(ManifestRecordView::File(view)),
                None => None,
            }
        } else if number == 3 {
            match TombstoneRecord::message_of(fields, limit) {
                Some(view) => Some(ManifestRecordView::Tombstone(view)),
                None => None,
            }
        } else {
            None
        }
    }
}

impl ManifestRecord {
    fn variant(number: u32, fields: &Vec<Field>, limit: u32) -> (result: Result<Self, DecodeError>)
        requires
            limit > 1,
        ensures
            match result {
                Ok(message) => ManifestRecordView::variant_of(number, wire_fields(fields@), limit as nat) == Some(
                    message@,
                ),
                Err(_) => ManifestRecordView::variant_of(number, wire_fields(fields@), limit as nat) is None,
            },
    {
        if number == 2 {
            Ok(ManifestRecord::File(FileRecord::get(fields, limit)?))
        } else if number == 3 {
            Ok(ManifestRecord::Tombstone(TombstoneRecord::get(fields, limit)?))
        } else {
            Err(DecodeError)
        }
    }

    fn number(&self) -> (number: u32)
        ensures
            number == self@.number(),
    {
        match self {
            ManifestRecord::File(_) => 2,
            ManifestRecord::Tombstone(_) => 3,
        }
    }

    fn payload(&self) -> (bytes: Vec<u8>)
        ensures
            bytes@ == fields_bytes(self@.inner()),
    {
        match self {
            ManifestRecord::File(message) => encode_message(message),
            ManifestRecord::Tombstone(message) => encode_message(message),
        }
    }
}

impl ManifestEnvelopeView {
    /// The field of the message that is held.
    pub open spec fn held(self) -> Seq<WireField> {
        match self.record {
            Some(message) => seq![
                WireField {
                    number: message.number(),
                    value: WireValue::Bytes(fields_bytes(message.inner())),
                },
            ],
            None => seq![],
        }
    }
}

impl WireMessage for ManifestEnvelope {
    open spec fn fields_of(view: ManifestEnvelopeView) -> Seq<WireField> {
        varint_field(1, view.format_version as u64) + view.held()
    }

    open spec fn message_of(fields: Seq<WireField>, limit: nat) -> Option<ManifestEnvelopeView> {
        match oneof_state::<ManifestEnvelope>(fields, limit) {
            Some(state) => match state {
                None => if only_varints(fields, 1) {
                    Some(ManifestEnvelopeView { format_version: low_word(scalar(fields, 1)), record: None })
                } else {
                    None
                },
                Some((number, inner)) => match ManifestRecordView::variant_of(number, inner, (limit - 1) as nat) {
                    Some(message) => if only_varints(fields, 1) {
                        Some(ManifestEnvelopeView { format_version: low_word(scalar(fields, 1)), record: Some(message) })
                    } else {
                        None
                    },
                    None => None,
                },
            },
            None => None,
        }
    }

    open spec fn nesting() -> nat {
        2
    }

    fn put(&self, target: &mut Vec<u8>) {
        let ghost start = target@;
        let ghost view = self@;
        put_uint(target, 1, self.format_version as u64);
        let ghost first = varint_field(1, view.format_version as u64);
        if let Some(message) = &self.record {
            let payload: Vec<u8> = message.payload();
            put_payload(target, message.number(), payload.as_slice());
            assert(payload_fields(view.record->0.number(), seq![payload@]) =~= view.held());
        }
        proof {
            lemma_fields_bytes_concat(first, view.held());
            assert(target@ =~= start + (fields_bytes(first) + fields_bytes(view.held())));
        }
    }

    fn get(fields: &Vec<Field>, limit: u32) -> (result: Result<Self, DecodeError>) {
        let format_version: u32 = to_low_word(find_varint(fields, 1)?);
        match find_oneof::<ManifestEnvelope>(fields, limit)? {
            Some((number, inner)) => {
                let message: ManifestRecord = ManifestRecord::variant(number, &inner, limit - 1)?;
                Ok(ManifestEnvelope { format_version, record: Some(message) })
            },
            None => Ok(ManifestEnvelope { format_version, record: None }),
        }
    }

    proof fn lemma_reads_back(view: ManifestEnvelopeView, limit: nat) {
        broadcast use group_fields;

        let fields = ManifestEnvelope::fields_of(view);
        let first = varint_field(1, view.format_version as u64);
        assert(numbered(fields));
        lemma_fields_ok(fields);
        lemma_oneof_lacks::<ManifestEnvelope>(first, limit);
        lemma_oneof_concat::<ManifestEnvelope>(first, view.held(), limit);
        if let Some(message) = view.record {
            assert(fields[fields.len() - 1] == view.held()[0]);
            match message {
                ManifestRecordView::File(inner) => {
                    FileRecord::lemma_reads_back(inner, (limit - 1) as nat);
                    lemma_fields_round_trip(FileRecord::fields_of(inner), (limit - 1) as nat);
                },
                ManifestRecordView::Tombstone(inner) => {
                    TombstoneRecord::lemma_reads_back(inner, (limit - 1) as nat);
                    lemma_fields_round_trip(TombstoneRecord::fields_of(inner), (limit - 1) as nat);
                },
            }
            lemma_oneof_single::<ManifestEnvelope>(message.number(), message.inner(), limit);
        }
        lemma_only_varints_concat(first, view.held(), 1);
        lemma_last_varint_concat(first, view.held(), 1);
        assert(lacks(view.held(), 1));
        lemma_lacks(view.held(), 1);
    }

    proof fn lemma_nesting() {
    }
}

/// The messages on the control stream.
#[derive(Clone, Debug, PartialEq, Eq)]
pub enum ControlMessage {
    ChangeLogRequest(ChangeLogRequest),
    ChangeBatch(ChangeBatch),
    ObjectRangeRequest(ObjectRangeRequest),
    ObjectOffer(ObjectOffer),
    ObjectAcknowledgement(ObjectAcknowledgement),
}

/// The contents of `ControlMessage`.
pub enum ControlMessageView {
    ChangeLogRequest(ChangeLogRequestView),
    ChangeBatch(ChangeBatchView),
    ObjectRangeRequest(ObjectRangeRequestView),
    ObjectOffer(ObjectOfferView),
    ObjectAcknowledgement(ObjectAcknowledgementView),
}

impl View for ControlMessage {
    type V = ControlMessageView;

    open spec fn view(&self) -> ControlMessageView {
        match *self {
            ControlMessage::ChangeLogRequest(message) => ControlMessageView::ChangeLogRequest(message@),
            ControlMessage::ChangeBatch(message) => ControlMessageView::ChangeBatch(message@),
            ControlMessage::ObjectRangeRequest(message) => ControlMessageView::ObjectRangeRequest(message@),
            ControlMessage::ObjectOffer(message) => ControlMessageView::ObjectOffer(message@),
            ControlMessage::ObjectAcknowledgement(message) => ControlMessageView::ObjectAcknowledgement(message@),
        }
    }
}

/// A message on the control stream.
#[derive(Clone, Debug, Default, PartialEq, Eq)]
pub struct ControlEnvelope {
    pub message: Option<ControlMessage>,
}

/// The contents of `ControlEnvelope`.
pub struct ControlEnvelopeView {
    pub message: Option<ControlMessageView>,
}

impl View for ControlEnvelope {
    type V = ControlEnvelopeView;

    open spec fn view(&self) -> ControlEnvelopeView {
        ControlEnvelopeView {
            message: option_view(self.message),
        }
    }
}

impl Oneof for ControlEnvelope {
    open spec fn has(number: u32) -> bool {
        1 <= number <= 5
    }

    open spec fn valid(number: u32, fields: Seq<WireField>, limit: nat) -> bool {
        ControlMessageView::variant_of(number, fields, limit) is Some
    }

    open spec fn depth() -> nat {
        1
    }

    fn is_member(number: u32) -> (member: bool) {
        1 <= number && number <= 5
    }

    fn is_valid(number: u32, fields: &Vec<Field>, limit: u32) -> (valid: bool) {
        ControlMessage::variant(number, fields, limit).is_ok()
    }
}

impl ControlMessageView {
    /// The number of the field that holds the message.
    pub open spec fn number(self) -> u32 {
        match self {
            ControlMessageView::ChangeLogRequest(_) => 1,
            ControlMessageView::ChangeBatch(_) => 2,
            ControlMessageView::ObjectRangeRequest(_) => 3,
            ControlMessageView::ObjectOffer(_) => 4,
            ControlMessageView::ObjectAcknowledgement(_) => 5,
        }
    }

    /// The fields of the message.
    pub open spec fn inner(self) -> Seq<WireField> {
        match self {
            ControlMessageView::ChangeLogRequest(view) => ChangeLogRequest::fields_of(view),
            ControlMessageView::ChangeBatch(view) => ChangeBatch::fields_of(view),
            ControlMessageView::ObjectRangeRequest(view) => ObjectRangeRequest::fields_of(view),
            ControlMessageView::ObjectOffer(view) => ObjectOffer::fields_of(view),
            ControlMessageView::ObjectAcknowledgement(view) => ObjectAcknowledgement::fields_of(view),
        }
    }

    /// The message that the fields in the field with the given number stand for.
    pub open spec fn variant_of(number: u32, fields: Seq<WireField>, limit: nat) -> Option<ControlMessageView> {
        if number == 1 {
            match ChangeLogRequest::message_of(fields, limit) {
                Some(view) => Some(ControlMessageView::ChangeLogRequest(view)),
                None => None,
            }
        } else if number == 2 {
            match ChangeBatch::message_of(fields, limit) {
                Some(view) => Some(ControlMessageView::ChangeBatch(view)),
                None => None,
            }
        } else if number == 3 {
            match ObjectRangeRequest::message_of(fields, limit) {
                Some(view) => Some(ControlMessageView::ObjectRangeRequest(view)),
                None => None,
            }
        } else if number == 4 {
            match ObjectOffer::message_of(fields, limit) {
                Some(view) => Some(ControlMessageView::ObjectOffer(view)),
                None => None,
            }
        } else if number == 5 {
            match ObjectAcknowledgement::message_of(fields, limit) {
                Some(view) => Some(ControlMessageView::ObjectAcknowledgement(view)),
                None => None,
            }
        } else {
            None
        }
    }
}

impl ControlMessage {
    fn variant(number: u32, fields: &Vec<Field>, limit: u32) -> (result: Result<Self, DecodeError>)
        requires
            limit > 1,
        ensures
            match result {
                Ok(message) => ControlMessageView::variant_of(number, wire_fields(fields@), limit as nat) == Some(
                    message@,
                ),
                Err(_) => ControlMessageView::variant_of(number, wire_fields(fields@), limit as nat) is None,
            },
    {
        if number == 1 {
            Ok(ControlMessage::ChangeLogRequest(ChangeLogRequest::get(fields, limit)?))
        } else if number == 2 {
            Ok(ControlMessage::ChangeBatch(ChangeBatch::get(fields, limit)?))
        } else if number == 3 {
            Ok(ControlMessage::ObjectRangeRequest(ObjectRangeRequest::get(fields, limit)?))
        } else if number == 4 {
            Ok(ControlMessage::ObjectOffer(ObjectOffer::get(fields, limit)?))
        } else if number == 5 {
            Ok(ControlMessage::ObjectAcknowledgement(ObjectAcknowledgement::get(fields, limit)?))
        } else {
            Err(DecodeError)
        }
    }

    fn number(&self) -> (number: u32)
        ensures
            number == self@.number(),
    {
        match self {
            ControlMessage::ChangeLogRequest(_) => 1,
            ControlMessage::ChangeBatch(_) => 2,
            ControlMessage::ObjectRangeRequest(_) => 3,
            ControlMessage::ObjectOffer(_) => 4,
            ControlMessage::ObjectAcknowledgement(_) => 5,
        }
    }

    fn payload(&self) -> (bytes: Vec<u8>)
        ensures
            bytes@ == fields_bytes(self@.inner()),
    {
        match self {
            ControlMessage::ChangeLogRequest(message) => encode_message(message),
            ControlMessage::ChangeBatch(message) => encode_message(message),
            ControlMessage::ObjectRangeRequest(message) => encode_message(message),
            ControlMessage::ObjectOffer(message) => encode_message(message),
            ControlMessage::ObjectAcknowledgement(message) => encode_message(message),
        }
    }
}

impl ControlEnvelopeView {
    /// The field of the message that is held.
    pub open spec fn held(self) -> Seq<WireField> {
        match self.message {
            Some(message) => seq![
                WireField {
                    number: message.number(),
                    value: WireValue::Bytes(fields_bytes(message.inner())),
                },
            ],
            None => seq![],
        }
    }
}

impl WireMessage for ControlEnvelope {
    open spec fn fields_of(view: ControlEnvelopeView) -> Seq<WireField> {
        view.held()
    }

    open spec fn message_of(fields: Seq<WireField>, limit: nat) -> Option<ControlEnvelopeView> {
        match oneof_state::<ControlEnvelope>(fields, limit) {
            Some(state) => match state {
                None => Some(ControlEnvelopeView { message: None }),
                Some((number, inner)) => match ControlMessageView::variant_of(number, inner, (limit - 1) as nat) {
                    Some(message) => Some(ControlEnvelopeView { message: Some(message) }),
                    None => None,
                },
            },
            None => None,
        }
    }

    open spec fn nesting() -> nat {
        2
    }

    fn put(&self, target: &mut Vec<u8>) {
        let ghost start = target@;
        let ghost view = self@;
        if let Some(message) = &self.message {
            let payload: Vec<u8> = message.payload();
            put_payload(target, message.number(), payload.as_slice());
            assert(payload_fields(view.message->0.number(), seq![payload@]) =~= view.held());
        }
        proof {
            assert(target@ =~= start + fields_bytes(view.held()));
        }
    }

    fn get(fields: &Vec<Field>, limit: u32) -> (result: Result<Self, DecodeError>) {
        match find_oneof::<ControlEnvelope>(fields, limit)? {
            Some((number, inner)) => {
                let message: ControlMessage = ControlMessage::variant(number, &inner, limit - 1)?;
                Ok(ControlEnvelope { message: Some(message) })
            },
            None => Ok(ControlEnvelope { message: None }),
        }
    }

    proof fn lemma_reads_back(view: ControlEnvelopeView, limit: nat) {
        broadcast use group_fields;

        let fields = ControlEnvelope::fields_of(view);
        let first = Seq::<WireField>::empty();
        assert(first + view.held() =~= view.held());
        assert(numbered(fields));
        lemma_fields_ok(fields);
        lemma_oneof_lacks::<ControlEnvelope>(first, limit);
        lemma_oneof_concat::<ControlEnvelope>(first, view.held(), limit);
        if let Some(message) = view.message {
            assert(fields[fields.len() - 1] == view.held()[0]);
            match message {
                ControlMessageView::ChangeLogRequest(inner) => {
                    ChangeLogRequest::lemma_reads_back(inner, (limit - 1) as nat);
                    lemma_fields_round_trip(ChangeLogRequest::fields_of(inner), (limit - 1) as nat);
                },
                ControlMessageView::ChangeBatch(inner) => {
                    ChangeBatch::lemma_reads_back(inner, (limit - 1) as nat);
                    lemma_fields_round_trip(ChangeBatch::fields_of(inner), (limit - 1) as nat);
                },
                ControlMessageView::ObjectRangeRequest(inner) => {
                    ObjectRangeRequest::lemma_reads_back(inner, (limit - 1) as nat);
                    lemma_fields_round_trip(ObjectRangeRequest::fields_of(inner), (limit - 1) as nat);
                },
                ControlMessageView::ObjectOffer(inner) => {
                    ObjectOffer::lemma_reads_back(inner, (limit - 1) as nat);
                    lemma_fields_round_trip(ObjectOffer::fields_of(inner), (limit - 1) as nat);
                },
                ControlMessageView::ObjectAcknowledgement(inner) => {
                    ObjectAcknowledgement::lemma_reads_back(inner, (limit - 1) as nat);
                    lemma_fields_round_trip(ObjectAcknowledgement::fields_of(inner), (limit - 1) as nat);
                },
            }
            lemma_oneof_single::<ControlEnvelope>(message.number(), message.inner(), limit);
        }
    }

    proof fn lemma_nesting() {
    }
}

} // verus!
