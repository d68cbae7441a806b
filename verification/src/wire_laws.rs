//! What the encoding promises: how numbers are written, which field counts, and under which number
//! each part of a message stands.
use vstd::prelude::*;
use vstd::utf8::{decode_utf8, decode_utf8_encode_utf8, encode_utf8, valid_utf8};

use crate::bytes::be_value;
use crate::envelope::{envelope_bytes, parsed_envelope, EnvelopeError, ObjectKind, ObjectView};
use crate::fields::{
    enum_number, enum_value, last_payload, listed_values, payloads, unzigzag, zigzag,
};
use crate::frame::{framed, unframed};
use crate::message::{encoded, message_in, messages_in, WireMessage};
use crate::oneof::{
    oneof_state, ControlEnvelope, ControlMessageView, ManifestEnvelope, ManifestRecordView, Oneof,
};
use crate::proto::{field_bytes, read_key, read_varint, varint_bytes, WireField, WireValue};
use crate::protocol::{LimitsView, ProtocolError};
use crate::wire::{
    scalar, ChangeBatch, ChangeLogRequest, ChunkReference, EncryptedChange, FileRecord, Handshake,
    HandshakeAck, ObjectAcknowledgement, ObjectOffer, ObjectRangeRequest, ObjectRequest,
    ObjectStreamHeader, SessionChallenge, SessionHello, SessionProof, TombstoneRecord,
    VersionCounter,
};

verus! {

/// The number whose groups of seven bits the bytes hold, the lowest first.
pub open spec fn in_groups(bytes: Seq<u8>) -> nat
    decreases bytes.len(),
{
    if bytes.len() == 0 {
        0
    } else {
        bytes[0] as nat % 128 + 128 * in_groups(bytes.drop_first())
    }
}

/// A number is written in groups of seven bits, the lowest first; each byte but the last says that
/// another follows, and no group is written in vain.
pub proof fn law_number_is_written_in_groups(value: nat)
    ensures
        ({
            let bytes = varint_bytes(value);
            &&& bytes.len() >= 1
            &&& in_groups(bytes) == value
            &&& forall|i: int| 0 <= i < bytes.len() - 1 ==> #[trigger] bytes[i] >= 128
            &&& bytes.last() < 128
            &&& bytes.len() > 1 ==> bytes.last() > 0
        }),
    decreases value,
{
    let bytes = varint_bytes(value);
    if value < 128 {
        assert(bytes.drop_first().len() == 0);
        assert(in_groups(bytes.drop_first()) == 0);
    } else {
        let rest = varint_bytes(value / 128);
        law_number_is_written_in_groups(value / 128);
        assert(bytes.drop_first() =~= rest);
        assert(bytes[0] == 128 + value % 128);
        assert(bytes[0] as nat % 128 == value % 128);
        assert(bytes.last() == rest.last());
        assert forall|i: int| 0 <= i < bytes.len() - 1 implies #[trigger] bytes[i] >= 128 by {
            if i > 0 {
                assert(bytes[i] == rest[i - 1]);
            }
        }
        if rest.len() == 1 {
            assert(rest[0] == rest.last());
            assert(in_groups(rest.drop_first()) == 0);
        }
    }
}

/// A number is read up to the first byte that says that no other follows, which is the tenth at
/// the latest.
pub proof fn law_number_is_read_to_its_last_group(bytes: Seq<u8>)
    ensures
        read_varint(bytes, 0) matches Some((value, count)) ==> {
            &&& 1 <= count <= 10
            &&& count <= bytes.len()
            &&& value == in_groups(bytes.take(count as int))
            &&& bytes[count - 1] < 128
            &&& forall|i: int| 0 <= i < count - 1 ==> #[trigger] bytes[i] >= 128
        },
{
    lemma_read_groups(bytes, 0);
}

/// A number is read wherever there is one: bytes that say that another follows, at most nine of
/// them, and one that does not, which holds a single bit where it is the tenth.
pub proof fn law_every_number_is_read(bytes: Seq<u8>, count: int)
    requires
        1 <= count <= 10,
        count <= bytes.len(),
        forall|i: int| 0 <= i < count - 1 ==> #[trigger] bytes[i] >= 128,
        bytes[count - 1] < 128,
    ensures
        read_varint(bytes, 0) is Some <==> count < 10 || bytes[9] <= 1,
        read_varint(bytes, 0) matches Some((_, read)) ==> read == count,
{
    lemma_read_count(bytes, 0, count);
}

proof fn lemma_read_count(bytes: Seq<u8>, depth: nat, count: int)
    requires
        1 <= count <= 10 - depth,
        count <= bytes.len(),
        forall|i: int| 0 <= i < count - 1 ==> #[trigger] bytes[i] >= 128,
        bytes[count - 1] < 128,
    ensures
        read_varint(bytes, depth) is Some <==> count + depth < 10 || bytes[count - 1] <= 1,
        read_varint(bytes, depth) matches Some((_, read)) ==> read == count,
    decreases count,
{
    if count > 1 {
        let rest = bytes.drop_first();
        assert(bytes[0] >= 128);
        assert forall|i: int| 0 <= i < count - 2 implies #[trigger] rest[i] >= 128 by {
            assert(rest[i] == bytes[i + 1]);
        }
        assert(rest[count - 2] == bytes[count - 1]);
        lemma_read_count(rest, depth + 1, count - 1);
    }
}

proof fn lemma_read_groups(bytes: Seq<u8>, depth: nat)
    requires
        depth <= 10,
    ensures
        read_varint(bytes, depth) matches Some((value, count)) ==> {
            &&& 1 <= count <= 10 - depth
            &&& count <= bytes.len()
            &&& value == in_groups(bytes.take(count as int))
            &&& bytes[count - 1] < 128
            &&& forall|i: int| 0 <= i < count - 1 ==> #[trigger] bytes[i] >= 128
        },
    decreases bytes.len(),
{
    if bytes.len() > 0 && depth < 10 {
        if bytes[0] < 128 {
            let first = bytes.take(1);
            assert(first[0] == bytes[0]);
            assert(first.drop_first().len() == 0);
            assert(in_groups(first.drop_first()) == 0);
        } else {
            let rest = bytes.drop_first();
            lemma_read_groups(rest, depth + 1);
            if read_varint(rest, depth + 1) is Some {
                let (high, count) = read_varint(rest, depth + 1)->0;
                assert(bytes.take((count + 1) as int).drop_first() =~= rest.take(count as int));
                assert(bytes.take((count + 1) as int)[0] == bytes[0]);
                assert(bytes[count as int] == rest[count - 1]);
                assert forall|i: int| 0 <= i < count implies #[trigger] bytes[i] >= 128 by {
                    if i > 0 {
                        assert(bytes[i] == rest[i - 1]);
                    }
                }
            }
        }
    }
}

/// The key of a field holds its number and, in the three lowest bits, how its value is written.
pub proof fn law_key_holds_number_and_type(bytes: Seq<u8>)
    ensures
        match read_key(bytes) {
            Some((number, wire_type, count)) => {
                &&& read_varint(bytes, 0) == Some(((number * 8 + wire_type) as nat, count))
                &&& number >= 1
                &&& wire_type <= 5
            },
            None => match read_varint(bytes, 0) {
                Some((key, _)) => key > 0xffff_ffff || key % 8 > 5 || key < 8,
                None => true,
            },
        },
{
}

/// A field is written as its key and its value, bytes with their number before them.
pub proof fn law_field_is_written_as_key_and_value(number: u32, value: u64, bytes: Seq<u8>)
    requires
        1 <= number <= 0x1fff_ffff,
    ensures
        field_bytes(WireField { number, value: WireValue::Varint(value) }) == varint_bytes(
            (8 * number) as nat,
        ) + varint_bytes(value as nat),
        field_bytes(WireField { number, value: WireValue::Bytes(bytes) }) == varint_bytes(
            (8 * number + 2) as nat,
        ) + varint_bytes(bytes.len()) + bytes,
{
}

/// The number that counts among fields: that of the last field with the given number that holds
/// one.
pub open spec fn number_at(fields: Seq<WireField>, number: u32) -> u64
    decreases fields.len(),
{
    if fields.len() == 0 {
        0
    } else if fields.last().number == number && fields.last().value is Varint {
        fields.last().value->Varint_0
    } else {
        number_at(fields.drop_last(), number)
    }
}

/// The bytes that count among fields: those of the last field with the given number that holds
/// some.
pub open spec fn bytes_at(fields: Seq<WireField>, number: u32) -> Seq<u8>
    decreases fields.len(),
{
    if fields.len() == 0 {
        seq![]
    } else if fields.last().number == number && fields.last().value is Bytes {
        fields.last().value->Bytes_0
    } else {
        bytes_at(fields.drop_last(), number)
    }
}

proof fn lemma_at(fields: Seq<WireField>, number: u32)
    ensures
        number_at(fields, number) == scalar(fields, number),
        bytes_at(fields, number) == last_payload(payloads(fields, number)),
    decreases fields.len(),
{
    if fields.len() > 0 {
        lemma_at(fields.drop_last(), number);
    }
}

proof fn lemma_last_number(fields: Seq<WireField>)
    ensures
        forall|number: u32| #[trigger] number_at(fields, number) == scalar(fields, number),
        forall|number: u32| #[trigger]
            bytes_at(fields, number) == last_payload(payloads(fields, number)),
{
    assert forall|number: u32| #[trigger] number_at(fields, number) == scalar(fields, number) by {
        lemma_at(fields, number);
    }
    assert forall|number: u32| #[trigger] bytes_at(fields, number) == last_payload(
        payloads(fields, number),
    ) by {
        lemma_at(fields, number);
    }
}

proof fn lemma_text_at(fields: Seq<WireField>, number: u32)
    requires
        forall|i: int|
            0 <= i < payloads(fields, number).len() ==> valid_utf8(
                #[trigger] payloads(fields, number)[i],
            ),
    ensures
        encode_utf8(decode_utf8(last_payload(payloads(fields, number)))) == last_payload(
            payloads(fields, number),
        ),
{
    let listed = payloads(fields, number);
    if listed.len() > 0 {
        assert(valid_utf8(listed[listed.len() - 1]));
    }
    decode_utf8_encode_utf8(last_payload(listed));
}

/// Of the fields with one number every one that holds bytes is listed, in order.
pub proof fn law_payloads_are_listed_in_order(fields: Seq<WireField>, field: WireField, number: u32)
    ensures
        payloads(seq![], number).len() == 0,
        payloads(fields.push(field), number) == if field.number == number
            && field.value is Bytes {
            payloads(fields, number).push(field.value->Bytes_0)
        } else {
            payloads(fields, number)
        },
{
    assert(fields.push(field).drop_last() =~= fields);
}

/// Signed numbers are written so that small ones stay short: zero, minus one, one, minus two and
/// so on are numbered through.
pub proof fn law_signed_numbers_are_numbered_through(value: i64)
    ensures
        zigzag(value) == if value >= 0 {
            2 * value
        } else {
            2 * -value - 1
        },
        unzigzag(zigzag(value)) == value,
{
}

/// A number of an enumeration stands for itself, a negative one in two's complement.
pub proof fn law_enumeration_numbers_stand_for_themselves(value: i32)
    ensures
        enum_number(enum_value(value)) == value,
        value >= 0 ==> enum_value(value) == value,
        value < 0 ==> enum_value(value) == 0x1_0000_0000_0000_0000 + value,
{
}

/// The field under which each message stands in an envelope.
pub proof fn law_messages_stand_under_their_numbers(
    control: ControlMessageView,
    record: ManifestRecordView,
)
    ensures
        control.number() == match control {
            ControlMessageView::ChangeLogRequest(_) => 1u32,
            ControlMessageView::ChangeBatch(_) => 2u32,
            ControlMessageView::ObjectRangeRequest(_) => 3u32,
            ControlMessageView::ObjectOffer(_) => 4u32,
            ControlMessageView::ObjectAcknowledgement(_) => 5u32,
        },
        record.number() == match record {
            ManifestRecordView::File(_) => 2u32,
            ManifestRecordView::Tombstone(_) => 3u32,
        },
        ControlEnvelope::has(control.number()),
        ManifestEnvelope::has(record.number()),
{
}

/// An envelope holds the message of the last field that holds one: the first of several under
/// another number are given up.
pub proof fn law_envelope_holds_the_last_message(
    fields: Seq<WireField>,
    field: WireField,
    limit: nat,
)
    requires
        ControlEnvelope::message_of(fields.push(field), limit) matches Some(view)
            && view.message is Some,
        1 <= field.number <= 5,
    ensures
        ControlEnvelope::message_of(fields.push(field), limit)->0.message->0.number()
            == field.number,
{
    assert(fields.push(field).drop_last() =~= fields);
    let state = oneof_state::<ControlEnvelope>(fields.push(field), limit);
    assert(state is Some);
    let (number, _) = (state->0)->0;
    assert(number == field.number);
}

/// A frame is the length of its message, in four bytes with the highest first, and the message.
pub proof fn law_frame_is_length_and_message<M: WireMessage>(view: M::V, limits: LimitsView)
    requires
        limits.maximum_control_frame_bytes <= 4_194_304,
    ensures
        framed::<M>(view, limits) is Ok <==> encoded::<M>(view).len()
            <= limits.maximum_control_frame_bytes,
        framed::<M>(view, limits) matches Ok(frame) ==> {
            &&& frame.len() == encoded::<M>(view).len() + 4
            &&& frame.skip(4) == encoded::<M>(view)
            &&& frame[0] * 0x100_0000 + frame[1] * 0x1_0000 + frame[2] * 0x100 + frame[3]
                == encoded::<M>(view).len()
        },
{
    let length = encoded::<M>(view).len();
    if length <= limits.maximum_control_frame_bytes {
        crate::bytes::lemma_be_bounds();
        crate::bytes::lemma_be_bytes_len(length, 4);
        crate::bytes::lemma_be_value_of_be_bytes(length, 4);
        let header = crate::bytes::be_bytes(length, 4);
        let frame = framed::<M>(view, limits)->Ok_0;
        assert(frame.skip(4) =~= encoded::<M>(view));
        assert(frame.take(4) =~= header);
        lemma_four(header);
        assert(frame[0] == header[0] && frame[1] == header[1] && frame[2] == header[2] && frame[3]
            == header[3]);
    }
}

proof fn lemma_four(header: Seq<u8>)
    requires
        header.len() == 4,
    ensures
        be_value(header) == header[0] * 0x100_0000 + header[1] * 0x1_0000 + header[2] * 0x100
            + header[3],
{
    reveal_with_fuel(be_value, 5);
}

/// A frame is read where its length is that of what follows and within the limit, and what follows
/// is a message; and nowhere else.
pub proof fn law_whole_frames_are_read<M: WireMessage>(frame: Seq<u8>, limits: LimitsView)
    ensures
        unframed::<M>(frame, limits) is Ok <==> {
            &&& frame.len() >= 4
            &&& frame[0] * 0x100_0000 + frame[1] * 0x1_0000 + frame[2] * 0x100 + frame[3]
                == frame.len() - 4
            &&& frame.len() - 4 <= limits.maximum_control_frame_bytes
            &&& crate::message::decoded::<M>(frame.skip(4)) is Some
        },
        unframed::<M>(frame, limits) matches Ok(view) ==> crate::message::decoded::<M>(
            frame.skip(4),
        ) == Some(view),
        unframed::<M>(frame, limits) matches Err(error) ==> match error {
            ProtocolError::ControlFrameHeaderTooShort { .. } => frame.len() < 4,
            ProtocolError::ControlFrameTooLarge { maximum, .. } => {
                &&& maximum == limits.maximum_control_frame_bytes
                &&& frame[0] * 0x100_0000 + frame[1] * 0x1_0000 + frame[2] * 0x100 + frame[3]
                    > maximum
            },
            ProtocolError::ControlFrameLengthMismatch { .. } => frame[0] * 0x100_0000 + frame[1]
                * 0x1_0000 + frame[2] * 0x100 + frame[3] != frame.len() - 4,
            ProtocolError::Decode => crate::message::decoded::<M>(frame.skip(4)) is None,
            _ => false,
        },
{
    if frame.len() >= 4 {
        lemma_four(frame.take(4));
    }
}

/// An object lies in its envelope behind a header of seventy-two bytes: the letters of the format,
/// its version, the kind, the content, the nonce and the length of the rest.
pub proof fn law_envelope_has_its_layout(object: ObjectView)
    requires
        object.nonce.len() == 24,
        object.format_version == 1,
        object.ciphertext.len() < 0x1_0000_0000_0000_0000,
    ensures
        ({
            let bytes = envelope_bytes(object);
            &&& bytes.len() == 72 + object.ciphertext.len()
            &&& bytes.take(4) == seq![79u8, 82u8, 66u8, 84u8]
            &&& bytes[4] == 0 && bytes[5] == 1
            &&& bytes[6] == if object.kind == ObjectKind::Chunk {
                1u8
            } else {
                2u8
            }
            &&& bytes[7] == 0
            &&& bytes.subrange(8, 40) == object.content_id@
            &&& bytes.subrange(40, 64) == object.nonce
            &&& be_value(bytes.subrange(64, 72)) == object.ciphertext.len()
            &&& bytes.skip(72) == object.ciphertext
        }),
{
    let bytes = envelope_bytes(object);
    let length = crate::bytes::be_bytes(object.ciphertext.len(), 8);
    let version = crate::bytes::be_bytes(1, 2);
    crate::bytes::lemma_be_bounds();
    crate::bytes::lemma_be_bytes_len(object.ciphertext.len(), 8);
    crate::bytes::lemma_be_value_of_be_bytes(object.ciphertext.len(), 8);
    crate::bytes::lemma_be_bytes_len(1, 2);
    object.content_id.lemma_view();
    assert(version =~= seq![0u8, 1u8]) by {
        reveal_with_fuel(crate::bytes::be_bytes, 3);
    }
    assert(bytes.take(4) =~= seq![79u8, 82u8, 66u8, 84u8]);
    assert(bytes[4] == version[0] && bytes[5] == version[1]);
    assert(bytes.subrange(8, 40) =~= object.content_id@);
    assert(bytes.subrange(40, 64) =~= object.nonce);
    assert(bytes.subrange(64, 72) =~= length);
    assert(bytes.skip(72) =~= object.ciphertext);
}

/// Why an envelope is not read: the reason names what is amiss with it.
pub proof fn law_refused_envelope_names_its_reason(bytes: Seq<u8>)
    requires
        bytes.len() <= usize::MAX,
        parsed_envelope(bytes) is Err,
    ensures
        match parsed_envelope(bytes)->Err_0 {
            EnvelopeError::HeaderTooShort { actual } => actual == bytes.len() && actual < 72,
            EnvelopeError::InvalidMagic => bytes.take(4) != seq![79u8, 82u8, 66u8, 84u8],
            EnvelopeError::UnsupportedFormatVersion(version) => version != 1,
            EnvelopeError::UnknownObjectKind(kind) => kind == bytes[6] && kind != 1 && kind != 2,
            EnvelopeError::UnsupportedFlags(flags) => flags == bytes[7] && flags != 0,
            EnvelopeError::LengthMismatch { declared, actual } => actual == bytes.len() - 72
                && declared != actual,
            EnvelopeError::DeclaredLengthTooLarge(declared) => declared > usize::MAX,
            EnvelopeError::CiphertextTooShort { actual } => actual == bytes.len() - 72 && actual
                < 16,
            _ => false,
        },
{
}

/// Each part of an entry of a version is read from the field with its number.
pub proof fn law_version_entry_is_read_by_number(fields: Seq<WireField>, limit: nat)
    ensures
        VersionCounter::message_of(fields, limit) matches Some(view) ==> {
            &&& view.device_id == bytes_at(fields, 1)
            &&& view.counter == number_at(fields, 2)
        },
{
    lemma_last_number(fields);
}

/// Each part of a reference to a chunk is read from the field with its number.
pub proof fn law_chunk_reference_is_read_by_number(fields: Seq<WireField>, limit: nat)
    ensures
        ChunkReference::message_of(fields, limit) matches Some(view) ==> {
            &&& view.content_id == bytes_at(fields, 1)
            &&& view.plaintext_size == number_at(fields, 2) % 0x1_0000_0000
        },
{
    lemma_last_number(fields);
}

/// Each part of the record of a file is read from the field with its number.
pub proof fn law_file_record_is_read_by_number(fields: Seq<WireField>, limit: nat)
    ensures
        FileRecord::message_of(fields, limit) matches Some(view) ==> {
            &&& view.file_id == bytes_at(fields, 1)
            &&& view.revision_id == bytes_at(fields, 2)
            &&& encode_utf8(view.relative_path) == bytes_at(fields, 3)
            &&& view.size == number_at(fields, 4)
            &&& view.modified_at_unix_ms == unzigzag(number_at(fields, 5))
            &&& messages_in::<VersionCounter>(payloads(fields, 6), limit) == Some(view.version)
            &&& messages_in::<ChunkReference>(payloads(fields, 7), limit) == Some(view.chunks)
        },
{
    lemma_last_number(fields);
    if FileRecord::message_of(fields, limit) is Some {
        lemma_text_at(fields, 3);
    }
}

/// Each part of the record of a deletion is read from the field with its number.
pub proof fn law_deletion_record_is_read_by_number(fields: Seq<WireField>, limit: nat)
    ensures
        TombstoneRecord::message_of(fields, limit) matches Some(view) ==> {
            &&& view.file_id == bytes_at(fields, 1)
            &&& view.revision_id == bytes_at(fields, 2)
            &&& encode_utf8(view.relative_path) == bytes_at(fields, 3)
            &&& view.deleted_at_unix_ms == unzigzag(number_at(fields, 4))
            &&& messages_in::<VersionCounter>(payloads(fields, 5), limit) == Some(view.version)
        },
{
    lemma_last_number(fields);
    if TombstoneRecord::message_of(fields, limit) is Some {
        lemma_text_at(fields, 3);
    }
}

/// Each part of a handshake is read from the field with its number.
pub proof fn law_handshake_is_read_by_number(fields: Seq<WireField>, limit: nat)
    ensures
        Handshake::message_of(fields, limit) matches Some(view) ==> {
            &&& view.minimum_protocol_version == number_at(fields, 1) % 0x1_0000_0000
            &&& view.maximum_protocol_version == number_at(fields, 2) % 0x1_0000_0000
            &&& view.device_id == bytes_at(fields, 3)
            &&& view.group_id == bytes_at(fields, 4)
            &&& listed_values(fields, 5) matches Some(values) && view.capabilities.len() == values.len()
                && forall|i: int|
                0 <= i < values.len() ==> #[trigger] view.capabilities[i] == enum_number(values[i])
            &&& view.maximum_control_frame_bytes == number_at(fields, 6) % 0x1_0000_0000
            &&& view.maximum_object_bytes == number_at(fields, 7)
        },
{
    lemma_last_number(fields);
}

/// Each part of an acknowledged handshake is read from the field with its number.
pub proof fn law_handshake_acknowledgement_is_read_by_number(fields: Seq<WireField>, limit: nat)
    ensures
        HandshakeAck::message_of(fields, limit) matches Some(view) ==> {
            &&& view.selected_protocol_version == number_at(fields, 1) % 0x1_0000_0000
            &&& listed_values(fields, 2) matches Some(values) && view.capabilities.len() == values.len()
                && forall|i: int|
                0 <= i < values.len() ==> #[trigger] view.capabilities[i] == enum_number(values[i])
            &&& view.maximum_control_frame_bytes == number_at(fields, 3) % 0x1_0000_0000
            &&& view.maximum_object_bytes == number_at(fields, 4)
        },
{
    lemma_last_number(fields);
}

/// Each part of a hello is read from the field with its number.
pub proof fn law_hello_is_read_by_number(fields: Seq<WireField>, limit: nat)
    ensures
        SessionHello::message_of(fields, limit) matches Some(view) ==> {
            &&& message_in::<Handshake>(payloads(fields, 1), limit) == Some(view.handshake)
            &&& view.nonce == bytes_at(fields, 2)
            &&& view.transport_binding == bytes_at(fields, 3)
            &&& view.public_key == bytes_at(fields, 4)
            &&& view.enrollment_proof == bytes_at(fields, 5)
            &&& view.listen_port == number_at(fields, 6) % 0x1_0000_0000
        },
{
    lemma_last_number(fields);
}

/// Each part of a challenge is read from the field with its number.
pub proof fn law_challenge_is_read_by_number(fields: Seq<WireField>, limit: nat)
    ensures
        SessionChallenge::message_of(fields, limit) matches Some(view) ==> {
            &&& message_in::<Handshake>(payloads(fields, 1), limit) == Some(view.handshake)
            &&& message_in::<HandshakeAck>(payloads(fields, 2), limit) == Some(view.acknowledgement)
            &&& view.nonce == bytes_at(fields, 3)
            &&& view.responder_signature == bytes_at(fields, 4)
        },
{
    lemma_last_number(fields);
}

/// Each part of a proof is read from the field with its number.
pub proof fn law_proof_is_read_by_number(fields: Seq<WireField>, limit: nat)
    ensures
        SessionProof::message_of(fields, limit) matches Some(view) ==> {
            &&& view.initiator_signature == bytes_at(fields, 1)
        },
{
    lemma_last_number(fields);
}

/// Each part of a request for objects is read from the field with its number.
pub proof fn law_object_request_is_read_by_number(fields: Seq<WireField>, limit: nat)
    ensures
        ObjectRequest::message_of(fields, limit) matches Some(view) ==> {
            &&& view.request_id == bytes_at(fields, 1)
            &&& view.content_ids == payloads(fields, 2)
        },
{
    lemma_last_number(fields);
}

/// Each part of a request for the rest of an object is read from the field with its number.
pub proof fn law_range_request_is_read_by_number(fields: Seq<WireField>, limit: nat)
    ensures
        ObjectRangeRequest::message_of(fields, limit) matches Some(view) ==> {
            &&& view.request_id == bytes_at(fields, 1)
            &&& view.content_id == bytes_at(fields, 2)
            &&& view.start_offset == number_at(fields, 3)
        },
{
    lemma_last_number(fields);
}

/// Each part of an offer is read from the field with its number.
pub proof fn law_offer_is_read_by_number(fields: Seq<WireField>, limit: nat)
    ensures
        ObjectOffer::message_of(fields, limit) matches Some(view) ==> {
            &&& view.request_id == bytes_at(fields, 1)
            &&& view.content_id == bytes_at(fields, 2)
            &&& view.encrypted_size == number_at(fields, 3)
            &&& view.start_offset == number_at(fields, 4)
        },
{
    lemma_last_number(fields);
}

/// Each part of the header of a stream is read from the field with its number.
pub proof fn law_stream_header_is_read_by_number(fields: Seq<WireField>, limit: nat)
    ensures
        ObjectStreamHeader::message_of(fields, limit) matches Some(view) ==> {
            &&& view.request_id == bytes_at(fields, 1)
            &&& view.content_id == bytes_at(fields, 2)
            &&& view.encrypted_size == number_at(fields, 3)
            &&& view.start_offset == number_at(fields, 4)
        },
{
    lemma_last_number(fields);
}

/// Each part of an acknowledgement is read from the field with its number.
pub proof fn law_acknowledgement_is_read_by_number(fields: Seq<WireField>, limit: nat)
    ensures
        ObjectAcknowledgement::message_of(fields, limit) matches Some(view) ==> {
            &&& view.request_id == bytes_at(fields, 1)
            &&& view.content_id == bytes_at(fields, 2)
            &&& view.status == enum_number(number_at(fields, 3))
        },
{
    lemma_last_number(fields);
}

/// Each part of a request for changes is read from the field with its number.
pub proof fn law_log_request_is_read_by_number(fields: Seq<WireField>, limit: nat)
    ensures
        ChangeLogRequest::message_of(fields, limit) matches Some(view) ==> {
            &&& view.after_sequence == number_at(fields, 1)
            &&& view.maximum_records == number_at(fields, 2) % 0x1_0000_0000
        },
{
    lemma_last_number(fields);
}

/// Each part of a change is read from the field with its number.
pub proof fn law_change_is_read_by_number(fields: Seq<WireField>, limit: nat)
    ensures
        EncryptedChange::message_of(fields, limit) matches Some(view) ==> {
            &&& view.sequence == number_at(fields, 1)
            &&& view.revision_id == bytes_at(fields, 2)
            &&& view.content_id == bytes_at(fields, 3)
            &&& view.encrypted_record == bytes_at(fields, 4)
            &&& view.author_device_id == bytes_at(fields, 5)
            &&& view.signature == bytes_at(fields, 6)
        },
{
    lemma_last_number(fields);
}

/// Each part of a batch is read from the field with its number.
pub proof fn law_batch_is_read_by_number(fields: Seq<WireField>, limit: nat)
    ensures
        ChangeBatch::message_of(fields, limit) matches Some(view) ==> {
            &&& messages_in::<EncryptedChange>(payloads(fields, 1), limit) == Some(view.records)
            &&& view.high_watermark == number_at(fields, 2)
            &&& view.has_more <==> number_at(fields, 3) != 0
        },
{
    lemma_last_number(fields);
}

} // verus!
