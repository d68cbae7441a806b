//! The messages that devices exchange, and the records that they encrypt.
use vstd::prelude::*;
use vstd::utf8::{decode_utf8, encode_utf8};

use crate::fields::{
    all_text, byte_strings, bytes_field, enum_number, enum_value, find_bytes, find_payloads,
    find_text, find_values, find_varint, from_zigzag, group_fields, last_payload, last_varint,
    lemma_text_payload, listed_values, low_word, only_bytes, only_varints, payload_fields,
    payloads, put_bytes, put_uint, put_values, to_enum_number, to_enum_value, to_low_word,
    to_zigzag, unzigzag, values_field, varint_field, zigzag,
};
use crate::message::{
    encoded, find_message, find_messages, flatten_fields, lemma_message_in, lemma_messages_in,
    lemma_part, lemma_parts_ok, lemma_payload_len, lemma_put_part, lemma_put_start, list_payloads,
    list_view, message_in, messages_in, option_payloads, option_view, owned, put_byte_strings,
    put_message, put_messages, WireMessage,
};
use crate::proto::{DecodeError, Field, WireField};

verus! {

/// The value of the last integer field with the given number, zero where there is none.
pub open spec fn scalar(fields: Seq<WireField>, number: u32) -> u64 {
    match last_varint(fields, number) {
        Some(value) => value,
        None => 0,
    }
}

/// The integer that stands for a truth value.
pub open spec fn bool_value(value: bool) -> u64 {
    if value {
        1
    } else {
        0
    }
}

/// The integers that stand for signed numbers.
pub open spec fn enum_values(values: Seq<i32>) -> Seq<u64> {
    Seq::new(values.len(), |i: int| enum_value(values[i]))
}

/// The signed numbers that integers stand for.
pub open spec fn enum_numbers(values: Seq<u64>) -> Seq<i32> {
    Seq::new(values.len(), |i: int| enum_number(values[i]))
}

fn to_bool_value(value: bool) -> (result: u64)
    ensures
        result == bool_value(value),
{
    if value {
        1
    } else {
        0
    }
}

fn to_enum_values(values: &Vec<i32>) -> (result: Vec<u64>)
    ensures
        result@ == enum_values(values@),
{
    let mut result: Vec<u64> = Vec::new();
    let mut index: usize = 0;
    while index < values.len()
        invariant
            index <= values@.len(),
            result@.len() == index,
            forall|i: int| 0 <= i < index ==> result@[i] == enum_value(values@[i]),
        decreases values@.len() - index,
    {
        result.push(to_enum_value(values[index]));
        index += 1;
    }
    assert(result@ =~= enum_values(values@));
    result
}

fn to_enum_numbers(values: &Vec<u64>) -> (result: Vec<i32>)
    ensures
        result@ == enum_numbers(values@),
{
    let mut result: Vec<i32> = Vec::new();
    let mut index: usize = 0;
    while index < values.len()
        invariant
            index <= values@.len(),
            result@.len() == index,
            forall|i: int| 0 <= i < index ==> result@[i] == enum_number(values@[i]),
        decreases values@.len() - index,
    {
        result.push(to_enum_number(values[index]));
        index += 1;
    }
    assert(result@ =~= enum_numbers(values@));
    result
}

/// The counter of one device.
#[derive(Clone, Debug, Default, PartialEq, Eq)]
pub struct VersionCounter {
    pub device_id: Vec<u8>,
    pub counter: u64,
}

/// The contents of `VersionCounter`.
pub struct VersionCounterView {
    pub device_id: Seq<u8>,
    pub counter: u64,
}

impl View for VersionCounter {
    type V = VersionCounterView;

    open spec fn view(&self) -> VersionCounterView {
        VersionCounterView {
            device_id: self.device_id@,
            counter: self.counter,
        }
    }
}

impl VersionCounterView {
    /// The fields of each number.
    pub open spec fn parts(self) -> Seq<Seq<WireField>> {
        seq![
            bytes_field(1, self.device_id),
            varint_field(2, self.counter),
        ]
    }
}

impl WireMessage for VersionCounter {
    open spec fn fields_of(view: VersionCounterView) -> Seq<WireField> {
        flatten_fields(view.parts())
    }

    open spec fn message_of(fields: Seq<WireField>, limit: nat) -> Option<VersionCounterView> {
        if {
            &&& only_bytes(fields, 1)
            &&& only_varints(fields, 2)
        } {
            Some(
                VersionCounterView {
                    device_id: last_payload(payloads(fields, 1)),
                    counter: scalar(fields, 2),
                },
            )
        } else {
            None
        }
    }

    open spec fn nesting() -> nat {
        0
    }

    fn put(&self, target: &mut Vec<u8>) {
        let ghost start = target@;
        let ghost parts = self@.parts();
        proof {
            lemma_put_start(start, parts);
        }
        let ghost before1 = target@;
        put_bytes(target, 1, self.device_id.as_slice());
        proof {
            lemma_put_part(start, parts, 0, before1, target@);
        }
        let ghost before2 = target@;
        put_uint(target, 2, self.counter);
        proof {
            lemma_put_part(start, parts, 1, before2, target@);
        }
        assert(parts.take(2) =~= parts);
    }

    fn get(fields: &Vec<Field>, limit: u32) -> (result: Result<Self, DecodeError>) {
        let device_id: Vec<u8> = find_bytes(fields, 1)?;
        let counter: u64 = find_varint(fields, 2)?;
        Ok(VersionCounter { device_id, counter })
    }

    proof fn lemma_reads_back(view: VersionCounterView, limit: nat) {
        broadcast use group_fields;

        let parts = view.parts();
        let fields = VersionCounter::fields_of(view);
        assert(owned(parts));
        lemma_parts_ok(parts);
        lemma_part(parts, 1);
        lemma_part(parts, 2);
        assert(last_payload(payloads(fields, 1)) =~= view.device_id);
    }

    proof fn lemma_nesting() {
    }
}

/// One chunk of a file.
#[derive(Clone, Debug, Default, PartialEq, Eq)]
pub struct ChunkReference {
    pub content_id: Vec<u8>,
    pub plaintext_size: u32,
}

/// The contents of `ChunkReference`.
pub struct ChunkReferenceView {
    pub content_id: Seq<u8>,
    pub plaintext_size: u32,
}

impl View for ChunkReference {
    type V = ChunkReferenceView;

    open spec fn view(&self) -> ChunkReferenceView {
        ChunkReferenceView {
            content_id: self.content_id@,
            plaintext_size: self.plaintext_size,
        }
    }
}

impl ChunkReferenceView {
    /// The fields of each number.
    pub open spec fn parts(self) -> Seq<Seq<WireField>> {
        seq![
            bytes_field(1, self.content_id),
            varint_field(2, self.plaintext_size as u64),
        ]
    }
}

impl WireMessage for ChunkReference {
    open spec fn fields_of(view: ChunkReferenceView) -> Seq<WireField> {
        flatten_fields(view.parts())
    }

    open spec fn message_of(fields: Seq<WireField>, limit: nat) -> Option<ChunkReferenceView> {
        if {
            &&& only_bytes(fields, 1)
            &&& only_varints(fields, 2)
        } {
            Some(
                ChunkReferenceView {
                    content_id: last_payload(payloads(fields, 1)),
                    plaintext_size: low_word(scalar(fields, 2)),
                },
            )
        } else {
            None
        }
    }

    open spec fn nesting() -> nat {
        0
    }

    fn put(&self, target: &mut Vec<u8>) {
        let ghost start = target@;
        let ghost parts = self@.parts();
        proof {
            lemma_put_start(start, parts);
        }
        let ghost before1 = target@;
        put_bytes(target, 1, self.content_id.as_slice());
        proof {
            lemma_put_part(start, parts, 0, before1, target@);
        }
        let ghost before2 = target@;
        put_uint(target, 2, self.plaintext_size as u64);
        proof {
            lemma_put_part(start, parts, 1, before2, target@);
        }
        assert(parts.take(2) =~= parts);
    }

    fn get(fields: &Vec<Field>, limit: u32) -> (result: Result<Self, DecodeError>) {
        let content_id: Vec<u8> = find_bytes(fields, 1)?;
        let plaintext_size: u32 = to_low_word(find_varint(fields, 2)?);
        Ok(ChunkReference { content_id, plaintext_size })
    }

    proof fn lemma_reads_back(view: ChunkReferenceView, limit: nat) {
        broadcast use group_fields;

        let parts = view.parts();
        let fields = ChunkReference::fields_of(view);
        assert(owned(parts));
        lemma_parts_ok(parts);
        lemma_part(parts, 1);
        lemma_part(parts, 2);
        assert(last_payload(payloads(fields, 1)) =~= view.content_id);
    }

    proof fn lemma_nesting() {
    }
}

/// A revision of a file.
#[derive(Clone, Debug, Default, PartialEq, Eq)]
pub struct FileRecord {
    pub file_id: Vec<u8>,
    pub revision_id: Vec<u8>,
    pub relative_path: String,
    pub size: u64,
    pub modified_at_unix_ms: i64,
    pub version: Vec<VersionCounter>,
    pub chunks: Vec<ChunkReference>,
}

/// The contents of `FileRecord`.
pub struct FileRecordView {
    pub file_id: Seq<u8>,
    pub revision_id: Seq<u8>,
    pub relative_path: Seq<char>,
    pub size: u64,
    pub modified_at_unix_ms: i64,
    pub version: Seq<VersionCounterView>,
    pub chunks: Seq<ChunkReferenceView>,
}

impl View for FileRecord {
    type V = FileRecordView;

    open spec fn view(&self) -> FileRecordView {
        FileRecordView {
            file_id: self.file_id@,
            revision_id: self.revision_id@,
            relative_path: self.relative_path@,
            size: self.size,
            modified_at_unix_ms: self.modified_at_unix_ms,
            version: list_view(self.version@),
            chunks: list_view(self.chunks@),
        }
    }
}

impl FileRecordView {
    /// The fields of each number.
    pub open spec fn parts(self) -> Seq<Seq<WireField>> {
        seq![
            bytes_field(1, self.file_id),
            bytes_field(2, self.revision_id),
            bytes_field(3, encode_utf8(self.relative_path)),
            varint_field(4, self.size),
            varint_field(5, zigzag(self.modified_at_unix_ms)),
            payload_fields(6, list_payloads::<VersionCounter>(self.version)),
            payload_fields(7, list_payloads::<ChunkReference>(self.chunks)),
        ]
    }
}

impl WireMessage for FileRecord {
    open spec fn fields_of(view: FileRecordView) -> Seq<WireField> {
        flatten_fields(view.parts())
    }

    open spec fn message_of(fields: Seq<WireField>, limit: nat) -> Option<FileRecordView> {
        if {
            &&& only_bytes(fields, 1)
            &&& only_bytes(fields, 2)
            &&& only_bytes(fields, 3) && all_text(payloads(fields, 3))
            &&& only_varints(fields, 4)
            &&& only_varints(fields, 5)
            &&& only_bytes(fields, 6) && messages_in::<VersionCounter>(payloads(fields, 6), limit) is Some
            &&& only_bytes(fields, 7) && messages_in::<ChunkReference>(payloads(fields, 7), limit) is Some
        } {
            Some(
                FileRecordView {
                    file_id: last_payload(payloads(fields, 1)),
                    revision_id: last_payload(payloads(fields, 2)),
                    relative_path: decode_utf8(last_payload(payloads(fields, 3))),
                    size: scalar(fields, 4),
                    modified_at_unix_ms: unzigzag(scalar(fields, 5)),
                    version: messages_in::<VersionCounter>(payloads(fields, 6), limit)->0,
                    chunks: messages_in::<ChunkReference>(payloads(fields, 7), limit)->0,
                },
            )
        } else {
            None
        }
    }

    open spec fn nesting() -> nat {
        1
    }

    fn put(&self, target: &mut Vec<u8>) {
        let ghost start = target@;
        let ghost parts = self@.parts();
        proof {
            lemma_put_start(start, parts);
        }
        let ghost before1 = target@;
        put_bytes(target, 1, self.file_id.as_slice());
        proof {
            lemma_put_part(start, parts, 0, before1, target@);
        }
        let ghost before2 = target@;
        put_bytes(target, 2, self.revision_id.as_slice());
        proof {
            lemma_put_part(start, parts, 1, before2, target@);
        }
        let ghost before3 = target@;
        put_bytes(target, 3, self.relative_path.as_str().as_bytes());
        proof {
            lemma_put_part(start, parts, 2, before3, target@);
        }
        let ghost before4 = target@;
        put_uint(target, 4, self.size);
        proof {
            lemma_put_part(start, parts, 3, before4, target@);
        }
        let ghost before5 = target@;
        put_uint(target, 5, to_zigzag(self.modified_at_unix_ms));
        proof {
            lemma_put_part(start, parts, 4, before5, target@);
        }
        let ghost before6 = target@;
        put_messages(target, 6, &self.version);
        proof {
            lemma_put_part(start, parts, 5, before6, target@);
        }
        let ghost before7 = target@;
        put_messages(target, 7, &self.chunks);
        proof {
            lemma_put_part(start, parts, 6, before7, target@);
        }
        assert(parts.take(7) =~= parts);
    }

    fn get(fields: &Vec<Field>, limit: u32) -> (result: Result<Self, DecodeError>) {
        let file_id: Vec<u8> = find_bytes(fields, 1)?;
        let revision_id: Vec<u8> = find_bytes(fields, 2)?;
        let relative_path: String = find_text(fields, 3)?;
        let size: u64 = find_varint(fields, 4)?;
        let modified_at_unix_ms: i64 = from_zigzag(find_varint(fields, 5)?);
        let version: Vec<VersionCounter> = find_messages(fields, 6, limit)?;
        let chunks: Vec<ChunkReference> = find_messages(fields, 7, limit)?;
        Ok(FileRecord { file_id, revision_id, relative_path, size, modified_at_unix_ms, version, chunks })
    }

    proof fn lemma_reads_back(view: FileRecordView, limit: nat) {
        broadcast use group_fields;

        let parts = view.parts();
        let fields = FileRecord::fields_of(view);
        assert(owned(parts));
        lemma_parts_ok(parts);
        lemma_part(parts, 1);
        lemma_part(parts, 2);
        lemma_part(parts, 3);
        lemma_part(parts, 4);
        lemma_part(parts, 5);
        lemma_part(parts, 6);
        lemma_part(parts, 7);
        assert(last_payload(payloads(fields, 1)) =~= view.file_id);
        assert(last_payload(payloads(fields, 2)) =~= view.revision_id);
        lemma_text_payload(view.relative_path);
        assert(last_payload(payloads(fields, 3)) =~= encode_utf8(view.relative_path));
        assert(payloads(fields, 6) =~= list_payloads::<VersionCounter>(view.version));
        lemma_payload_len(fields, 6);
        assert forall|i: int| 0 <= i < view.version.len() implies encoded::<VersionCounter>(#[trigger] view.version[i]).len() <= u64::MAX by {
            assert(payloads(fields, 6)[i] == encoded::<VersionCounter>(view.version[i]));
        }
        lemma_messages_in::<VersionCounter>(view.version, limit);
        assert(payloads(fields, 7) =~= list_payloads::<ChunkReference>(view.chunks));
        lemma_payload_len(fields, 7);
        assert forall|i: int| 0 <= i < view.chunks.len() implies encoded::<ChunkReference>(#[trigger] view.chunks[i]).len() <= u64::MAX by {
            assert(payloads(fields, 7)[i] == encoded::<ChunkReference>(view.chunks[i]));
        }
        lemma_messages_in::<ChunkReference>(view.chunks, limit);
    }

    proof fn lemma_nesting() {
    }
}

/// The deletion of a file.
#[derive(Clone, Debug, Default, PartialEq, Eq)]
pub struct TombstoneRecord {
    pub file_id: Vec<u8>,
    pub revision_id: Vec<u8>,
    pub relative_path: String,
    pub deleted_at_unix_ms: i64,
    pub version: Vec<VersionCounter>,
}

/// The contents of `TombstoneRecord`.
pub struct TombstoneRecordView {
    pub file_id: Seq<u8>,
    pub revision_id: Seq<u8>,
    pub relative_path: Seq<char>,
    pub deleted_at_unix_ms: i64,
    pub version: Seq<VersionCounterView>,
}

impl View for TombstoneRecord {
    type V = TombstoneRecordView;

    open spec fn view(&self) -> TombstoneRecordView {
        TombstoneRecordView {
            file_id: self.file_id@,
            revision_id: self.revision_id@,
            relative_path: self.relative_path@,
            deleted_at_unix_ms: self.deleted_at_unix_ms,
            version: list_view(self.version@),
        }
    }
}

impl TombstoneRecordView {
    /// The fields of each number.
    pub open spec fn parts(self) -> Seq<Seq<WireField>> {
        seq![
            bytes_field(1, self.file_id),
            bytes_field(2, self.revision_id),
            bytes_field(3, encode_utf8(self.relative_path)),
            varint_field(4, zigzag(self.deleted_at_unix_ms)),
            payload_fields(5, list_payloads::<VersionCounter>(self.version)),
        ]
    }
}

impl WireMessage for TombstoneRecord {
    open spec fn fields_of(view: TombstoneRecordView) -> Seq<WireField> {
        flatten_fields(view.parts())
    }

    open spec fn message_of(fields: Seq<WireField>, limit: nat) -> Option<TombstoneRecordView> {
        if {
            &&& only_bytes(fields, 1)
            &&& only_bytes(fields, 2)
            &&& only_bytes(fields, 3) && all_text(payloads(fields, 3))
            &&& only_varints(fields, 4)
            &&& only_bytes(fields, 5) && messages_in::<VersionCounter>(payloads(fields, 5), limit) is Some
        } {
            Some(
                TombstoneRecordView {
                    file_id: last_payload(payloads(fields, 1)),
                    revision_id: last_payload(payloads(fields, 2)),
                    relative_path: decode_utf8(last_payload(payloads(fields, 3))),
                    deleted_at_unix_ms: unzigzag(scalar(fields, 4)),
                    version: messages_in::<VersionCounter>(payloads(fields, 5), limit)->0,
                },
            )
        } else {
            None
        }
    }

    open spec fn nesting() -> nat {
        1
    }

    fn put(&self, target: &mut Vec<u8>) {
        let ghost start = target@;
        let ghost parts = self@.parts();
        proof {
            lemma_put_start(start, parts);
        }
        let ghost before1 = target@;
        put_bytes(target, 1, self.file_id.as_slice());
        proof {
            lemma_put_part(start, parts, 0, before1, target@);
        }
        let ghost before2 = target@;
        put_bytes(target, 2, self.revision_id.as_slice());
        proof {
            lemma_put_part(start, parts, 1, before2, target@);
        }
        let ghost before3 = target@;
        put_bytes(target, 3, self.relative_path.as_str().as_bytes());
        proof {
            lemma_put_part(start, parts, 2, before3, target@);
        }
        let ghost before4 = target@;
        put_uint(target, 4, to_zigzag(self.deleted_at_unix_ms));
        proof {
            lemma_put_part(start, parts, 3, before4, target@);
        }
        let ghost before5 = target@;
        put_messages(target, 5, &self.version);
        proof {
            lemma_put_part(start, parts, 4, before5, target@);
        }
        assert(parts.take(5) =~= parts);
    }

    fn get(fields: &Vec<Field>, limit: u32) -> (result: Result<Self, DecodeError>) {
        let file_id: Vec<u8> = find_bytes(fields, 1)?;
        let revision_id: Vec<u8> = find_bytes(fields, 2)?;
        let relative_path: String = find_text(fields, 3)?;
        let deleted_at_unix_ms: i64 = from_zigzag(find_varint(fields, 4)?);
        let version: Vec<VersionCounter> = find_messages(fields, 5, limit)?;
        Ok(TombstoneRecord { file_id, revision_id, relative_path, deleted_at_unix_ms, version })
    }

    proof fn lemma_reads_back(view: TombstoneRecordView, limit: nat) {
        broadcast use group_fields;

        let parts = view.parts();
        let fields = TombstoneRecord::fields_of(view);
        assert(owned(parts));
        lemma_parts_ok(parts);
        lemma_part(parts, 1);
        lemma_part(parts, 2);
        lemma_part(parts, 3);
        lemma_part(parts, 4);
        lemma_part(parts, 5);
        assert(last_payload(payloads(fields, 1)) =~= view.file_id);
        assert(last_payload(payloads(fields, 2)) =~= view.revision_id);
        lemma_text_payload(view.relative_path);
        assert(last_payload(payloads(fields, 3)) =~= encode_utf8(view.relative_path));
        assert(payloads(fields, 5) =~= list_payloads::<VersionCounter>(view.version));
        lemma_payload_len(fields, 5);
        assert forall|i: int| 0 <= i < view.version.len() implies encoded::<VersionCounter>(#[trigger] view.version[i]).len() <= u64::MAX by {
            assert(payloads(fields, 5)[i] == encoded::<VersionCounter>(view.version[i]));
        }
        lemma_messages_in::<VersionCounter>(view.version, limit);
    }

    proof fn lemma_nesting() {
    }
}

/// What a device offers at the start of a session.
#[derive(Clone, Debug, Default, PartialEq, Eq)]
pub struct Handshake {
    pub minimum_protocol_version: u32,
    pub maximum_protocol_version: u32,
    pub device_id: Vec<u8>,
    pub group_id: Vec<u8>,
    pub capabilities: Vec<i32>,
    pub maximum_control_frame_bytes: u32,
    pub maximum_object_bytes: u64,
}

/// The contents of `Handshake`.
pub struct HandshakeView {
    pub minimum_protocol_version: u32,
    pub maximum_protocol_version: u32,
    pub device_id: Seq<u8>,
    pub group_id: Seq<u8>,
    pub capabilities: Seq<i32>,
    pub maximum_control_frame_bytes: u32,
    pub maximum_object_bytes: u64,
}

impl View for Handshake {
    type V = HandshakeView;

    open spec fn view(&self) -> HandshakeView {
        HandshakeView {
            minimum_protocol_version: self.minimum_protocol_version,
            maximum_protocol_version: self.maximum_protocol_version,
            device_id: self.device_id@,
            group_id: self.group_id@,
            capabilities: self.capabilities@,
            maximum_control_frame_bytes: self.maximum_control_frame_bytes,
            maximum_object_bytes: self.maximum_object_bytes,
        }
    }
}

impl HandshakeView {
    /// The fields of each number.
    pub open spec fn parts(self) -> Seq<Seq<WireField>> {
        seq![
            varint_field(1, self.minimum_protocol_version as u64),
            varint_field(2, self.maximum_protocol_version as u64),
            bytes_field(3, self.device_id),
            bytes_field(4, self.group_id),
            values_field(5, enum_values(self.capabilities)),
            varint_field(6, self.maximum_control_frame_bytes as u64),
            varint_field(7, self.maximum_object_bytes),
        ]
    }
}

impl WireMessage for Handshake {
    open spec fn fields_of(view: HandshakeView) -> Seq<WireField> {
        flatten_fields(view.parts())
    }

    open spec fn message_of(fields: Seq<WireField>, limit: nat) -> Option<HandshakeView> {
        if {
            &&& only_varints(fields, 1)
            &&& only_varints(fields, 2)
            &&& only_bytes(fields, 3)
            &&& only_bytes(fields, 4)
            &&& listed_values(fields, 5) is Some
            &&& only_varints(fields, 6)
            &&& only_varints(fields, 7)
        } {
            Some(
                HandshakeView {
                    minimum_protocol_version: low_word(scalar(fields, 1)),
                    maximum_protocol_version: low_word(scalar(fields, 2)),
                    device_id: last_payload(payloads(fields, 3)),
                    group_id: last_payload(payloads(fields, 4)),
                    capabilities: enum_numbers(listed_values(fields, 5)->0),
                    maximum_control_frame_bytes: low_word(scalar(fields, 6)),
                    maximum_object_bytes: scalar(fields, 7),
                },
            )
        } else {
            None
        }
    }

    open spec fn nesting() -> nat {
        0
    }

    fn put(&self, target: &mut Vec<u8>) {
        let ghost start = target@;
        let ghost parts = self@.parts();
        proof {
            lemma_put_start(start, parts);
        }
        let ghost before1 = target@;
        put_uint(target, 1, self.minimum_protocol_version as u64);
        proof {
            lemma_put_part(start, parts, 0, before1, target@);
        }
        let ghost before2 = target@;
        put_uint(target, 2, self.maximum_protocol_version as u64);
        proof {
            lemma_put_part(start, parts, 1, before2, target@);
        }
        let ghost before3 = target@;
        put_bytes(target, 3, self.device_id.as_slice());
        proof {
            lemma_put_part(start, parts, 2, before3, target@);
        }
        let ghost before4 = target@;
        put_bytes(target, 4, self.group_id.as_slice());
        proof {
            lemma_put_part(start, parts, 3, before4, target@);
        }
        let ghost before5 = target@;
        put_values(target, 5, &to_enum_values(&self.capabilities));
        proof {
            lemma_put_part(start, parts, 4, before5, target@);
        }
        let ghost before6 = target@;
        put_uint(target, 6, self.maximum_control_frame_bytes as u64);
        proof {
            lemma_put_part(start, parts, 5, before6, target@);
        }
        let ghost before7 = target@;
        put_uint(target, 7, self.maximum_object_bytes);
        proof {
            lemma_put_part(start, parts, 6, before7, target@);
        }
        assert(parts.take(7) =~= parts);
    }

    fn get(fields: &Vec<Field>, limit: u32) -> (result: Result<Self, DecodeError>) {
        let minimum_protocol_version: u32 = to_low_word(find_varint(fields, 1)?);
        let maximum_protocol_version: u32 = to_low_word(find_varint(fields, 2)?);
        let device_id: Vec<u8> = find_bytes(fields, 3)?;
        let group_id: Vec<u8> = find_bytes(fields, 4)?;
        let capabilities: Vec<i32> = to_enum_numbers(&find_values(fields, 5)?);
        let maximum_control_frame_bytes: u32 = to_low_word(find_varint(fields, 6)?);
        let maximum_object_bytes: u64 = find_varint(fields, 7)?;
        Ok(Handshake { minimum_protocol_version, maximum_protocol_version, device_id, group_id, capabilities, maximum_control_frame_bytes, maximum_object_bytes })
    }

    proof fn lemma_reads_back(view: HandshakeView, limit: nat) {
        broadcast use group_fields;

        let parts = view.parts();
        let fields = Handshake::fields_of(view);
        assert(owned(parts));
        lemma_parts_ok(parts);
        lemma_part(parts, 1);
        lemma_part(parts, 2);
        lemma_part(parts, 3);
        lemma_part(parts, 4);
        lemma_part(parts, 5);
        lemma_part(parts, 6);
        lemma_part(parts, 7);
        assert(last_payload(payloads(fields, 3)) =~= view.device_id);
        assert(last_payload(payloads(fields, 4)) =~= view.group_id);
        assert(enum_numbers(enum_values(view.capabilities)) =~= view.capabilities);
        assert(listed_values(fields, 5)->0 =~= enum_values(view.capabilities));
    }

    proof fn lemma_nesting() {
    }
}

/// What two devices agree on.
#[derive(Clone, Debug, Default, PartialEq, Eq)]
pub struct HandshakeAck {
    pub selected_protocol_version: u32,
    pub capabilities: Vec<i32>,
    pub maximum_control_frame_bytes: u32,
    pub maximum_object_bytes: u64,
}

/// The contents of `HandshakeAck`.
pub struct HandshakeAckView {
    pub selected_protocol_version: u32,
    pub capabilities: Seq<i32>,
    pub maximum_control_frame_bytes: u32,
    pub maximum_object_bytes: u64,
}

impl View for HandshakeAck {
    type V = HandshakeAckView;

    open spec fn view(&self) -> HandshakeAckView {
        HandshakeAckView {
            selected_protocol_version: self.selected_protocol_version,
            capabilities: self.capabilities@,
            maximum_control_frame_bytes: self.maximum_control_frame_bytes,
            maximum_object_bytes: self.maximum_object_bytes,
        }
    }
}

impl HandshakeAckView {
    /// The fields of each number.
    pub open spec fn parts(self) -> Seq<Seq<WireField>> {
        seq![
            varint_field(1, self.selected_protocol_version as u64),
            values_field(2, enum_values(self.capabilities)),
            varint_field(3, self.maximum_control_frame_bytes as u64),
            varint_field(4, self.maximum_object_bytes),
        ]
    }
}

impl WireMessage for HandshakeAck {
    open spec fn fields_of(view: HandshakeAckView) -> Seq<WireField> {
        flatten_fields(view.parts())
    }

    open spec fn message_of(fields: Seq<WireField>, limit: nat) -> Option<HandshakeAckView> {
        if {
            &&& only_varints(fields, 1)
            &&& listed_values(fields, 2) is Some
            &&& only_varints(fields, 3)
            &&& only_varints(fields, 4)
        } {
            Some(
                HandshakeAckView {
                    selected_protocol_version: low_word(scalar(fields, 1)),
                    capabilities: enum_numbers(listed_values(fields, 2)->0),
                    maximum_control_frame_bytes: low_word(scalar(fields, 3)),
                    maximum_object_bytes: scalar(fields, 4),
                },
            )
        } else {
            None
        }
    }

    open spec fn nesting() -> nat {
        0
    }

    fn put(&self, target: &mut Vec<u8>) {
        let ghost start = target@;
        let ghost parts = self@.parts();
        proof {
            lemma_put_start(start, parts);
        }
        let ghost before1 = target@;
        put_uint(target, 1, self.selected_protocol_version as u64);
        proof {
            lemma_put_part(start, parts, 0, before1, target@);
        }
        let ghost before2 = target@;
        put_values(target, 2, &to_enum_values(&self.capabilities));
        proof {
            lemma_put_part(start, parts, 1, before2, target@);
        }
        let ghost before3 = target@;
        put_uint(target, 3, self.maximum_control_frame_bytes as u64);
        proof {
            lemma_put_part(start, parts, 2, before3, target@);
        }
        let ghost before4 = target@;
        put_uint(target, 4, self.maximum_object_bytes);
        proof {
            lemma_put_part(start, parts, 3, before4, target@);
        }
        assert(parts.take(4) =~= parts);
    }

    fn get(fields: &Vec<Field>, limit: u32) -> (result: Result<Self, DecodeError>) {
        let selected_protocol_version: u32 = to_low_word(find_varint(fields, 1)?);
        let capabilities: Vec<i32> = to_enum_numbers(&find_values(fields, 2)?);
        let maximum_control_frame_bytes: u32 = to_low_word(find_varint(fields, 3)?);
        let maximum_object_bytes: u64 = find_varint(fields, 4)?;
        Ok(HandshakeAck { selected_protocol_version, capabilities, maximum_control_frame_bytes, maximum_object_bytes })
    }

    proof fn lemma_reads_back(view: HandshakeAckView, limit: nat) {
        broadcast use group_fields;

        let parts = view.parts();
        let fields = HandshakeAck::fields_of(view);
        assert(owned(parts));
        lemma_parts_ok(parts);
        lemma_part(parts, 1);
        lemma_part(parts, 2);
        lemma_part(parts, 3);
        lemma_part(parts, 4);
        assert(enum_numbers(enum_values(view.capabilities)) =~= view.capabilities);
        assert(listed_values(fields, 2)->0 =~= enum_values(view.capabilities));
    }

    proof fn lemma_nesting() {
    }
}

/// The first message of a session.
#[derive(Clone, Debug, Default, PartialEq, Eq)]
pub struct SessionHello {
    pub handshake: Option<Handshake>,
    pub nonce: Vec<u8>,
    pub transport_binding: Vec<u8>,
    pub public_key: Vec<u8>,
    pub enrollment_proof: Vec<u8>,
    pub listen_port: u32,
}

/// The contents of `SessionHello`.
pub struct SessionHelloView {
    pub handshake: Option<HandshakeView>,
    pub nonce: Seq<u8>,
    pub transport_binding: Seq<u8>,
    pub public_key: Seq<u8>,
    pub enrollment_proof: Seq<u8>,
    pub listen_port: u32,
}

impl View for SessionHello {
    type V = SessionHelloView;

    open spec fn view(&self) -> SessionHelloView {
        SessionHelloView {
            handshake: option_view(self.handshake),
            nonce: self.nonce@,
            transport_binding: self.transport_binding@,
            public_key: self.public_key@,
            enrollment_proof: self.enrollment_proof@,
            listen_port: self.listen_port,
        }
    }
}

impl SessionHelloView {
    /// The fields of each number.
    pub open spec fn parts(self) -> Seq<Seq<WireField>> {
        seq![
            payload_fields(1, option_payloads::<Handshake>(self.handshake)),
            bytes_field(2, self.nonce),
            bytes_field(3, self.transport_binding),
            bytes_field(4, self.public_key),
            bytes_field(5, self.enrollment_proof),
            varint_field(6, self.listen_port as u64),
        ]
    }
}

impl WireMessage for SessionHello {
    open spec fn fields_of(view: SessionHelloView) -> Seq<WireField> {
        flatten_fields(view.parts())
    }

    open spec fn message_of(fields: Seq<WireField>, limit: nat) -> Option<SessionHelloView> {
        if {
            &&& only_bytes(fields, 1) && message_in::<Handshake>(payloads(fields, 1), limit) is Some
            &&& only_bytes(fields, 2)
            &&& only_bytes(fields, 3)
            &&& only_bytes(fields, 4)
            &&& only_bytes(fields, 5)
            &&& only_varints(fields, 6)
        } {
            Some(
                SessionHelloView {
                    handshake: message_in::<Handshake>(payloads(fields, 1), limit)->0,
                    nonce: last_payload(payloads(fields, 2)),
                    transport_binding: last_payload(payloads(fields, 3)),
                    public_key: last_payload(payloads(fields, 4)),
                    enrollment_proof: last_payload(payloads(fields, 5)),
                    listen_port: low_word(scalar(fields, 6)),
                },
            )
        } else {
            None
        }
    }

    open spec fn nesting() -> nat {
        1
    }

    fn put(&self, target: &mut Vec<u8>) {
        let ghost start = target@;
        let ghost parts = self@.parts();
        proof {
            lemma_put_start(start, parts);
        }
        let ghost before1 = target@;
        put_message(target, 1, &self.handshake);
        proof {
            lemma_put_part(start, parts, 0, before1, target@);
        }
        let ghost before2 = target@;
        put_bytes(target, 2, self.nonce.as_slice());
        proof {
            lemma_put_part(start, parts, 1, before2, target@);
        }
        let ghost before3 = target@;
        put_bytes(target, 3, self.transport_binding.as_slice());
        proof {
            lemma_put_part(start, parts, 2, before3, target@);
        }
        let ghost before4 = target@;
        put_bytes(target, 4, self.public_key.as_slice());
        proof {
            lemma_put_part(start, parts, 3, before4, target@);
        }
        let ghost before5 = target@;
        put_bytes(target, 5, self.enrollment_proof.as_slice());
        proof {
            lemma_put_part(start, parts, 4, before5, target@);
        }
        let ghost before6 = target@;
        put_uint(target, 6, self.listen_port as u64);
        proof {
            lemma_put_part(start, parts, 5, before6, target@);
        }
        assert(parts.take(6) =~= parts);
    }

    fn get(fields: &Vec<Field>, limit: u32) -> (result: Result<Self, DecodeError>) {
        let handshake: Option<Handshake> = find_message(fields, 1, limit)?;
        let nonce: Vec<u8> = find_bytes(fields, 2)?;
        let transport_binding: Vec<u8> = find_bytes(fields, 3)?;
        let public_key: Vec<u8> = find_bytes(fields, 4)?;
        let enrollment_proof: Vec<u8> = find_bytes(fields, 5)?;
        let listen_port: u32 = to_low_word(find_varint(fields, 6)?);
        Ok(SessionHello { handshake, nonce, transport_binding, public_key, enrollment_proof, listen_port })
    }

    proof fn lemma_reads_back(view: SessionHelloView, limit: nat) {
        broadcast use group_fields;

        let parts = view.parts();
        let fields = SessionHello::fields_of(view);
        assert(owned(parts));
        lemma_parts_ok(parts);
        lemma_part(parts, 1);
        lemma_part(parts, 2);
        lemma_part(parts, 3);
        lemma_part(parts, 4);
        lemma_part(parts, 5);
        lemma_part(parts, 6);
        assert(payloads(fields, 1) =~= option_payloads::<Handshake>(view.handshake));
        lemma_payload_len(fields, 1);
        if let Some(inner) = view.handshake {
            assert(payloads(fields, 1)[0] == encoded::<Handshake>(inner));
        }
        lemma_message_in::<Handshake>(view.handshake, limit);
        assert(last_payload(payloads(fields, 2)) =~= view.nonce);
        assert(last_payload(payloads(fields, 3)) =~= view.transport_binding);
        assert(last_payload(payloads(fields, 4)) =~= view.public_key);
        assert(last_payload(payloads(fields, 5)) =~= view.enrollment_proof);
    }

    proof fn lemma_nesting() {
    }
}

/// The answer to the first message of a session.
#[derive(Clone, Debug, Default, PartialEq, Eq)]
pub struct SessionChallenge {
    pub handshake: Option<Handshake>,
    pub acknowledgement: Option<HandshakeAck>,
    pub nonce: Vec<u8>,
    pub responder_signature: Vec<u8>,
}

/// The contents of `SessionChallenge`.
pub struct SessionChallengeView {
    pub handshake: Option<HandshakeView>,
    pub acknowledgement: Option<HandshakeAckView>,
    pub nonce: Seq<u8>,
    pub responder_signature: Seq<u8>,
}

impl View for SessionChallenge {
    type V = SessionChallengeView;

    open spec fn view(&self) -> SessionChallengeView {
        SessionChallengeView {
            handshake: option_view(self.handshake),
            acknowledgement: option_view(self.acknowledgement),
            nonce: self.nonce@,
            responder_signature: self.responder_signature@,
        }
    }
}

impl SessionChallengeView {
    /// The fields of each number.
    pub open spec fn parts(self) -> Seq<Seq<WireField>> {
        seq![
            payload_fields(1, option_payloads::<Handshake>(self.handshake)),
            payload_fields(2, option_payloads::<HandshakeAck>(self.acknowledgement)),
            bytes_field(3, self.nonce),
            bytes_field(4, self.responder_signature),
        ]
    }
}

impl WireMessage for SessionChallenge {
    open spec fn fields_of(view: SessionChallengeView) -> Seq<WireField> {
        flatten_fields(view.parts())
    }

    open spec fn message_of(fields: Seq<WireField>, limit: nat) -> Option<SessionChallengeView> {
        if {
            &&& only_bytes(fields, 1) && message_in::<Handshake>(payloads(fields, 1), limit) is Some
            &&& only_bytes(fields, 2) && message_in::<HandshakeAck>(payloads(fields, 2), limit) is Some
            &&& only_bytes(fields, 3)
            &&& only_bytes(fields, 4)
        } {
            Some(
                SessionChallengeView {
                    handshake: message_in::<Handshake>(payloads(fields, 1), limit)->0,
                    acknowledgement: message_in::<HandshakeAck>(payloads(fields, 2), limit)->0,
                    nonce: last_payload(payloads(fields, 3)),
                    responder_signature: last_payload(payloads(fields, 4)),
                },
            )
        } else {
            None
        }
    }

    open spec fn nesting() -> nat {
        1
    }

    fn put(&self, target: &mut Vec<u8>) {
        let ghost start = target@;
        let ghost parts = self@.parts();
        proof {
            lemma_put_start(start, parts);
        }
        let ghost before1 = target@;
        put_message(target, 1, &self.handshake);
        proof {
            lemma_put_part(start, parts, 0, before1, target@);
        }
        let ghost before2 = target@;
        put_message(target, 2, &self.acknowledgement);
        proof {
            lemma_put_part(start, parts, 1, before2, target@);
        }
        let ghost before3 = target@;
        put_bytes(target, 3, self.nonce.as_slice());
        proof {
            lemma_put_part(start, parts, 2, before3, target@);
        }
        let ghost before4 = target@;
        put_bytes(target, 4, self.responder_signature.as_slice());
        proof {
            lemma_put_part(start, parts, 3, before4, target@);
        }
        assert(parts.take(4) =~= parts);
    }

    fn get(fields: &Vec<Field>, limit: u32) -> (result: Result<Self, DecodeError>) {
        let handshake: Option<Handshake> = find_message(fields, 1, limit)?;
        let acknowledgement: Option<HandshakeAck> = find_message(fields, 2, limit)?;
        let nonce: Vec<u8> = find_bytes(fields, 3)?;
        let responder_signature: Vec<u8> = find_bytes(fields, 4)?;
        Ok(SessionChallenge { handshake, acknowledgement, nonce, responder_signature })
    }

    proof fn lemma_reads_back(view: SessionChallengeView, limit: nat) {
        broadcast use group_fields;

        let parts = view.parts();
        let fields = SessionChallenge::fields_of(view);
        assert(owned(parts));
        lemma_parts_ok(parts);
        lemma_part(parts, 1);
        lemma_part(parts, 2);
        lemma_part(parts, 3);
        lemma_part(parts, 4);
        assert(payloads(fields, 1) =~= option_payloads::<Handshake>(view.handshake));
        lemma_payload_len(fields, 1);
        if let Some(inner) = view.handshake {
            assert(payloads(fields, 1)[0] == encoded::<Handshake>(inner));
        }
        lemma_message_in::<Handshake>(view.handshake, limit);
        assert(payloads(fields, 2) =~= option_payloads::<HandshakeAck>(view.acknowledgement));
        lemma_payload_len(fields, 2);
        if let Some(inner) = view.acknowledgement {
            assert(payloads(fields, 2)[0] == encoded::<HandshakeAck>(inner));
        }
        lemma_message_in::<HandshakeAck>(view.acknowledgement, limit);
        assert(last_payload(payloads(fields, 3)) =~= view.nonce);
        assert(last_payload(payloads(fields, 4)) =~= view.responder_signature);
    }

    proof fn lemma_nesting() {
    }
}

/// The message that completes a session.
#[derive(Clone, Debug, Default, PartialEq, Eq)]
pub struct SessionProof {
    pub initiator_signature: Vec<u8>,
}

/// The contents of `SessionProof`.
pub struct SessionProofView {
    pub initiator_signature: Seq<u8>,
}

impl View for SessionProof {
    type V = SessionProofView;

    open spec fn view(&self) -> SessionProofView {
        SessionProofView {
            initiator_signature: self.initiator_signature@,
        }
    }
}

impl SessionProofView {
    /// The fields of each number.
    pub open spec fn parts(self) -> Seq<Seq<WireField>> {
        seq![
            bytes_field(1, self.initiator_signature),
        ]
    }
}

impl WireMessage for SessionProof {
    open spec fn fields_of(view: SessionProofView) -> Seq<WireField> {
        flatten_fields(view.parts())
    }

    open spec fn message_of(fields: Seq<WireField>, limit: nat) -> Option<SessionProofView> {
        if only_bytes(fields, 1) {
            Some(
                SessionProofView {
                    initiator_signature: last_payload(payloads(fields, 1)),
                },
            )
        } else {
            None
        }
    }

    open spec fn nesting() -> nat {
        0
    }

    fn put(&self, target: &mut Vec<u8>) {
        let ghost start = target@;
        let ghost parts = self@.parts();
        proof {
            lemma_put_start(start, parts);
        }
        let ghost before1 = target@;
        put_bytes(target, 1, self.initiator_signature.as_slice());
        proof {
            lemma_put_part(start, parts, 0, before1, target@);
        }
        assert(parts.take(1) =~= parts);
    }

    fn get(fields: &Vec<Field>, limit: u32) -> (result: Result<Self, DecodeError>) {
        let initiator_signature: Vec<u8> = find_bytes(fields, 1)?;
        Ok(SessionProof { initiator_signature })
    }

    proof fn lemma_reads_back(view: SessionProofView, limit: nat) {
        broadcast use group_fields;

        let parts = view.parts();
        let fields = SessionProof::fields_of(view);
        assert(owned(parts));
        lemma_parts_ok(parts);
        lemma_part(parts, 1);
        assert(last_payload(payloads(fields, 1)) =~= view.initiator_signature);
    }

    proof fn lemma_nesting() {
    }
}

/// Asks for objects.
#[derive(Clone, Debug, Default, PartialEq, Eq)]
pub struct ObjectRequest {
    pub request_id: Vec<u8>,
    pub content_ids: Vec<Vec<u8>>,
}

/// The contents of `ObjectRequest`.
pub struct ObjectRequestView {
    pub request_id: Seq<u8>,
    pub content_ids: Seq<Seq<u8>>,
}

impl View for ObjectRequest {
    type V = ObjectRequestView;

    open spec fn view(&self) -> ObjectRequestView {
        ObjectRequestView {
            request_id: self.request_id@,
            content_ids: byte_strings(self.content_ids@),
        }
    }
}

impl ObjectRequestView {
    /// The fields of each number.
    pub open spec fn parts(self) -> Seq<Seq<WireField>> {
        seq![
            bytes_field(1, self.request_id),
            payload_fields(2, self.content_ids),
        ]
    }
}

impl WireMessage for ObjectRequest {
    open spec fn fields_of(view: ObjectRequestView) -> Seq<WireField> {
        flatten_fields(view.parts())
    }

    open spec fn message_of(fields: Seq<WireField>, limit: nat) -> Option<ObjectRequestView> {
        if {
            &&& only_bytes(fields, 1)
            &&& only_bytes(fields, 2)
        } {
            Some(
                ObjectRequestView {
                    request_id: last_payload(payloads(fields, 1)),
                    content_ids: payloads(fields, 2),
                },
            )
        } else {
            None
        }
    }

    open spec fn nesting() -> nat {
        0
    }

    fn put(&self, target: &mut Vec<u8>) {
        let ghost start = target@;
        let ghost parts = self@.parts();
        proof {
            lemma_put_start(start, parts);
        }
        let ghost before1 = target@;
        put_bytes(target, 1, self.request_id.as_slice());
        proof {
            lemma_put_part(start, parts, 0, before1, target@);
        }
        let ghost before2 = target@;
        put_byte_strings(target, 2, &self.content_ids);
        proof {
            lemma_put_part(start, parts, 1, before2, target@);
        }
        assert(parts.take(2) =~= parts);
    }

    fn get(fields: &Vec<Field>, limit: u32) -> (result: Result<Self, DecodeError>) {
        let request_id: Vec<u8> = find_bytes(fields, 1)?;
        let content_ids: Vec<Vec<u8>> = find_payloads(fields, 2)?;
        Ok(ObjectRequest { request_id, content_ids })
    }

    proof fn lemma_reads_back(view: ObjectRequestView, limit: nat) {
        broadcast use group_fields;

        let parts = view.parts();
        let fields = ObjectRequest::fields_of(view);
        assert(owned(parts));
        lemma_parts_ok(parts);
        lemma_part(parts, 1);
        lemma_part(parts, 2);
        assert(last_payload(payloads(fields, 1)) =~= view.request_id);
        assert(payloads(fields, 2) =~= view.content_ids);
    }

    proof fn lemma_nesting() {
    }
}

/// Asks for an object from an offset on.
#[derive(Clone, Debug, Default, PartialEq, Eq)]
pub struct ObjectRangeRequest {
    pub request_id: Vec<u8>,
    pub content_id: Vec<u8>,
    pub start_offset: u64,
}

/// The contents of `ObjectRangeRequest`.
pub struct ObjectRangeRequestView {
    pub request_id: Seq<u8>,
    pub content_id: Seq<u8>,
    pub start_offset: u64,
}

impl View for ObjectRangeRequest {
    type V = ObjectRangeRequestView;

    open spec fn view(&self) -> ObjectRangeRequestView {
        ObjectRangeRequestView {
            request_id: self.request_id@,
            content_id: self.content_id@,
            start_offset: self.start_offset,
        }
    }
}

impl ObjectRangeRequestView {
    /// The fields of each number.
    pub open spec fn parts(self) -> Seq<Seq<WireField>> {
        seq![
            bytes_field(1, self.request_id),
            bytes_field(2, self.content_id),
            varint_field(3, self.start_offset),
        ]
    }
}

impl WireMessage for ObjectRangeRequest {
    open spec fn fields_of(view: ObjectRangeRequestView) -> Seq<WireField> {
        flatten_fields(view.parts())
    }

    open spec fn message_of(fields: Seq<WireField>, limit: nat) -> Option<ObjectRangeRequestView> {
        if {
            &&& only_bytes(fields, 1)
            &&& only_bytes(fields, 2)
            &&& only_varints(fields, 3)
        } {
            Some(
                ObjectRangeRequestView {
                    request_id: last_payload(payloads(fields, 1)),
                    content_id: last_payload(payloads(fields, 2)),
                    start_offset: scalar(fields, 3),
                },
            )
        } else {
            None
        }
    }

    open spec fn nesting() -> nat {
        0
    }

    fn put(&self, target: &mut Vec<u8>) {
        let ghost start = target@;
        let ghost parts = self@.parts();
        proof {
            lemma_put_start(start, parts);
        }
        let ghost before1 = target@;
        put_bytes(target, 1, self.request_id.as_slice());
        proof {
            lemma_put_part(start, parts, 0, before1, target@);
        }
        let ghost before2 = target@;
        put_bytes(target, 2, self.content_id.as_slice());
        proof {
            lemma_put_part(start, parts, 1, before2, target@);
        }
        let ghost before3 = target@;
        put_uint(target, 3, self.start_offset);
        proof {
            lemma_put_part(start, parts, 2, before3, target@);
        }
        assert(parts.take(3) =~= parts);
    }

    fn get(fields: &Vec<Field>, limit: u32) -> (result: Result<Self, DecodeError>) {
        let request_id: Vec<u8> = find_bytes(fields, 1)?;
        let content_id: Vec<u8> = find_bytes(fields, 2)?;
        let start_offset: u64 = find_varint(fields, 3)?;
        Ok(ObjectRangeRequest { request_id, content_id, start_offset })
    }

    proof fn lemma_reads_back(view: ObjectRangeRequestView, limit: nat) {
        broadcast use group_fields;

        let parts = view.parts();
        let fields = ObjectRangeRequest::fields_of(view);
        assert(owned(parts));
        lemma_parts_ok(parts);
        lemma_part(parts, 1);
        lemma_part(parts, 2);
        lemma_part(parts, 3);
        assert(last_payload(payloads(fields, 1)) =~= view.request_id);
        assert(last_payload(payloads(fields, 2)) =~= view.content_id);
    }

    proof fn lemma_nesting() {
    }
}

/// Offers an object from an offset on.
#[derive(Clone, Debug, Default, PartialEq, Eq)]
pub struct ObjectOffer {
    pub request_id: Vec<u8>,
    pub content_id: Vec<u8>,
    pub encrypted_size: u64,
    pub start_offset: u64,
}

/// The contents of `ObjectOffer`.
pub struct ObjectOfferView {
    pub request_id: Seq<u8>,
    pub content_id: Seq<u8>,
    pub encrypted_size: u64,
    pub start_offset: u64,
}

impl View for ObjectOffer {
    type V = ObjectOfferView;

    open spec fn view(&self) -> ObjectOfferView {
        ObjectOfferView {
            request_id: self.request_id@,
            content_id: self.content_id@,
            encrypted_size: self.encrypted_size,
            start_offset: self.start_offset,
        }
    }
}

impl ObjectOfferView {
    /// The fields of each number.
    pub open spec fn parts(self) -> Seq<Seq<WireField>> {
        seq![
            bytes_field(1, self.request_id),
            bytes_field(2, self.content_id),
            varint_field(3, self.encrypted_size),
            varint_field(4, self.start_offset),
        ]
    }
}

impl WireMessage for ObjectOffer {
    open spec fn fields_of(view: ObjectOfferView) -> Seq<WireField> {
        flatten_fields(view.parts())
    }

    open spec fn message_of(fields: Seq<WireField>, limit: nat) -> Option<ObjectOfferView> {
        if {
            &&& only_bytes(fields, 1)
            &&& only_bytes(fields, 2)
            &&& only_varints(fields, 3)
            &&& only_varints(fields, 4)
        } {
            Some(
                ObjectOfferView {
                    request_id: last_payload(payloads(fields, 1)),
                    content_id: last_payload(payloads(fields, 2)),
                    encrypted_size: scalar(fields, 3),
                    start_offset: scalar(fields, 4),
                },
            )
        } else {
            None
        }
    }

    open spec fn nesting() -> nat {
        0
    }

    fn put(&self, target: &mut Vec<u8>) {
        let ghost start = target@;
        let ghost parts = self@.parts();
        proof {
            lemma_put_start(start, parts);
        }
        let ghost before1 = target@;
        put_bytes(target, 1, self.request_id.as_slice());
        proof {
            lemma_put_part(start, parts, 0, before1, target@);
        }
        let ghost before2 = target@;
        put_bytes(target, 2, self.content_id.as_slice());
        proof {
            lemma_put_part(start, parts, 1, before2, target@);
        }
        let ghost before3 = target@;
        put_uint(target, 3, self.encrypted_size);
        proof {
            lemma_put_part(start, parts, 2, before3, target@);
        }
        let ghost before4 = target@;
        put_uint(target, 4, self.start_offset);
        proof {
            lemma_put_part(start, parts, 3, before4, target@);
        }
        assert(parts.take(4) =~= parts);
    }

    fn get(fields: &Vec<Field>, limit: u32) -> (result: Result<Self, DecodeError>) {
        let request_id: Vec<u8> = find_bytes(fields, 1)?;
        let content_id: Vec<u8> = find_bytes(fields, 2)?;
        let encrypted_size: u64 = find_varint(fields, 3)?;
        let start_offset: u64 = find_varint(fields, 4)?;
        Ok(ObjectOffer { request_id, content_id, encrypted_size, start_offset })
    }

    proof fn lemma_reads_back(view: ObjectOfferView, limit: nat) {
        broadcast use group_fields;

        let parts = view.parts();
        let fields = ObjectOffer::fields_of(view);
        assert(owned(parts));
        lemma_parts_ok(parts);
        lemma_part(parts, 1);
        lemma_part(parts, 2);
        lemma_part(parts, 3);
        lemma_part(parts, 4);
        assert(last_payload(payloads(fields, 1)) =~= view.request_id);
        assert(last_payload(payloads(fields, 2)) =~= view.content_id);
    }

    proof fn lemma_nesting() {
    }
}

/// Precedes the bytes of an object.
#[derive(Clone, Debug, Default, PartialEq, Eq)]
pub struct ObjectStreamHeader {
    pub request_id: Vec<u8>,
    pub content_id: Vec<u8>,
    pub encrypted_size: u64,
    pub start_offset: u64,
}

/// The contents of `ObjectStreamHeader`.
pub struct ObjectStreamHeaderView {
    pub request_id: Seq<u8>,
    pub content_id: Seq<u8>,
    pub encrypted_size: u64,
    pub start_offset: u64,
}

impl View for ObjectStreamHeader {
    type V = ObjectStreamHeaderView;

    open spec fn view(&self) -> ObjectStreamHeaderView {
        ObjectStreamHeaderView {
            request_id: self.request_id@,
            content_id: self.content_id@,
            encrypted_size: self.encrypted_size,
            start_offset: self.start_offset,
        }
    }
}

impl ObjectStreamHeaderView {
    /// The fields of each number.
    pub open spec fn parts(self) -> Seq<Seq<WireField>> {
        seq![
            bytes_field(1, self.request_id),
            bytes_field(2, self.content_id),
            varint_field(3, self.encrypted_size),
            varint_field(4, self.start_offset),
        ]
    }
}

impl WireMessage for ObjectStreamHeader {
    open spec fn fields_of(view: ObjectStreamHeaderView) -> Seq<WireField> {
        flatten_fields(view.parts())
    }

    open spec fn message_of(fields: Seq<WireField>, limit: nat) -> Option<ObjectStreamHeaderView> {
        if {
            &&& only_bytes(fields, 1)
            &&& only_bytes(fields, 2)
            &&& only_varints(fields, 3)
            &&& only_varints(fields, 4)
        } {
            Some(
                ObjectStreamHeaderView {
                    request_id: last_payload(payloads(fields, 1)),
                    content_id: last_payload(payloads(fields, 2)),
                    encrypted_size: scalar(fields, 3),
                    start_offset: scalar(fields, 4),
                },
            )
        } else {
            None
        }
    }

    open spec fn nesting() -> nat {
        0
    }

    fn put(&self, target: &mut Vec<u8>) {
        let ghost start = target@;
        let ghost parts = self@.parts();
        proof {
            lemma_put_start(start, parts);
        }
        let ghost before1 = target@;
        put_bytes(target, 1, self.request_id.as_slice());
        proof {
            lemma_put_part(start, parts, 0, before1, target@);
        }
        let ghost before2 = target@;
        put_bytes(target, 2, self.content_id.as_slice());
        proof {
            lemma_put_part(start, parts, 1, before2, target@);
        }
        let ghost before3 = target@;
        put_uint(target, 3, self.encrypted_size);
        proof {
            lemma_put_part(start, parts, 2, before3, target@);
        }
        let ghost before4 = target@;
        put_uint(target, 4, self.start_offset);
        proof {
            lemma_put_part(start, parts, 3, before4, target@);
        }
        assert(parts.take(4) =~= parts);
    }

    fn get(fields: &Vec<Field>, limit: u32) -> (result: Result<Self, DecodeError>) {
        let request_id: Vec<u8> = find_bytes(fields, 1)?;
        let content_id: Vec<u8> = find_bytes(fields, 2)?;
        let encrypted_size: u64 = find_varint(fields, 3)?;
        let start_offset: u64 = find_varint(fields, 4)?;
        Ok(ObjectStreamHeader { request_id, content_id, encrypted_size, start_offset })
    }

    proof fn lemma_reads_back(view: ObjectStreamHeaderView, limit: nat) {
        broadcast use group_fields;

        let parts = view.parts();
        let fields = ObjectStreamHeader::fields_of(view);
        assert(owned(parts));
        lemma_parts_ok(parts);
        lemma_part(parts, 1);
        lemma_part(parts, 2);
        lemma_part(parts, 3);
        lemma_part(parts, 4);
        assert(last_payload(payloads(fields, 1)) =~= view.request_id);
        assert(last_payload(payloads(fields, 2)) =~= view.content_id);
    }

    proof fn lemma_nesting() {
    }
}

/// Confirms the receipt of an object.
#[derive(Clone, Debug, Default, PartialEq, Eq)]
pub struct ObjectAcknowledgement {
    pub request_id: Vec<u8>,
    pub content_id: Vec<u8>,
    pub status: i32,
}

/// The contents of `ObjectAcknowledgement`.
pub struct ObjectAcknowledgementView {
    pub request_id: Seq<u8>,
    pub content_id: Seq<u8>,
    pub status: i32,
}

impl View for ObjectAcknowledgement {
    type V = ObjectAcknowledgementView;

    open spec fn view(&self) -> ObjectAcknowledgementView {
        ObjectAcknowledgementView {
            request_id: self.request_id@,
            content_id: self.content_id@,
            status: self.status,
        }
    }
}

impl ObjectAcknowledgementView {
    /// The fields of each number.
    pub open spec fn parts(self) -> Seq<Seq<WireField>> {
        seq![
            bytes_field(1, self.request_id),
            bytes_field(2, self.content_id),
            varint_field(3, enum_value(self.status)),
        ]
    }
}

impl WireMessage for ObjectAcknowledgement {
    open spec fn fields_of(view: ObjectAcknowledgementView) -> Seq<WireField> {
        flatten_fields(view.parts())
    }

    open spec fn message_of(fields: Seq<WireField>, limit: nat) -> Option<ObjectAcknowledgementView> {
        if {
            &&& only_bytes(fields, 1)
            &&& only_bytes(fields, 2)
            &&& only_varints(fields, 3)
        } {
            Some(
                ObjectAcknowledgementView {
                    request_id: last_payload(payloads(fields, 1)),
                    content_id: last_payload(payloads(fields, 2)),
                    status: enum_number(scalar(fields, 3)),
                },
            )
        } else {
            None
        }
    }

    open spec fn nesting() -> nat {
        0
    }

    fn put(&self, target: &mut Vec<u8>) {
        let ghost start = target@;
        let ghost parts = self@.parts();
        proof {
            lemma_put_start(start, parts);
        }
        let ghost before1 = target@;
        put_bytes(target, 1, self.request_id.as_slice());
        proof {
            lemma_put_part(start, parts, 0, before1, target@);
        }
        let ghost before2 = target@;
        put_bytes(target, 2, self.content_id.as_slice());
        proof {
            lemma_put_part(start, parts, 1, before2, target@);
        }
        let ghost before3 = target@;
        put_uint(target, 3, to_enum_value(self.status));
        proof {
            lemma_put_part(start, parts, 2, before3, target@);
        }
        assert(parts.take(3) =~= parts);
    }

    fn get(fields: &Vec<Field>, limit: u32) -> (result: Result<Self, DecodeError>) {
        let request_id: Vec<u8> = find_bytes(fields, 1)?;
        let content_id: Vec<u8> = find_bytes(fields, 2)?;
        let status: i32 = to_enum_number(find_varint(fields, 3)?);
        Ok(ObjectAcknowledgement { request_id, content_id, status })
    }

    proof fn lemma_reads_back(view: ObjectAcknowledgementView, limit: nat) {
        broadcast use group_fields;

        let parts = view.parts();
        let fields = ObjectAcknowledgement::fields_of(view);
        assert(owned(parts));
        lemma_parts_ok(parts);
        lemma_part(parts, 1);
        lemma_part(parts, 2);
        lemma_part(parts, 3);
        assert(last_payload(payloads(fields, 1)) =~= view.request_id);
        assert(last_payload(payloads(fields, 2)) =~= view.content_id);
    }

    proof fn lemma_nesting() {
    }
}

/// Asks for a page of changes.
#[derive(Clone, Debug, Default, PartialEq, Eq)]
pub struct ChangeLogRequest {
    pub after_sequence: u64,
    pub maximum_records: u32,
}

/// The contents of `ChangeLogRequest`.
pub struct ChangeLogRequestView {
    pub after_sequence: u64,
    pub maximum_records: u32,
}

impl View for ChangeLogRequest {
    type V = ChangeLogRequestView;

    open spec fn view(&self) -> ChangeLogRequestView {
        ChangeLogRequestView {
            after_sequence: self.after_sequence,
            maximum_records: self.maximum_records,
        }
    }
}

impl ChangeLogRequestView {
    /// The fields of each number.
    pub open spec fn parts(self) -> Seq<Seq<WireField>> {
        seq![
            varint_field(1, self.after_sequence),
            varint_field(2, self.maximum_records as u64),
        ]
    }
}

impl WireMessage for ChangeLogRequest {
    open spec fn fields_of(view: ChangeLogRequestView) -> Seq<WireField> {
        flatten_fields(view.parts())
    }

    open spec fn message_of(fields: Seq<WireField>, limit: nat) -> Option<ChangeLogRequestView> {
        if {
            &&& only_varints(fields, 1)
            &&& only_varints(fields, 2)
        } {
            Some(
                ChangeLogRequestView {
                    after_sequence: scalar(fields, 1),
                    maximum_records: low_word(scalar(fields, 2)),
                },
            )
        } else {
            None
        }
    }

    open spec fn nesting() -> nat {
        0
    }

    fn put(&self, target: &mut Vec<u8>) {
        let ghost start = target@;
        let ghost parts = self@.parts();
        proof {
            lemma_put_start(start, parts);
        }
        let ghost before1 = target@;
        put_uint(target, 1, self.after_sequence);
        proof {
            lemma_put_part(start, parts, 0, before1, target@);
        }
        let ghost before2 = target@;
        put_uint(target, 2, self.maximum_records as u64);
        proof {
            lemma_put_part(start, parts, 1, before2, target@);
        }
        assert(parts.take(2) =~= parts);
    }

    fn get(fields: &Vec<Field>, limit: u32) -> (result: Result<Self, DecodeError>) {
        let after_sequence: u64 = find_varint(fields, 1)?;
        let maximum_records: u32 = to_low_word(find_varint(fields, 2)?);
        Ok(ChangeLogRequest { after_sequence, maximum_records })
    }

    proof fn lemma_reads_back(view: ChangeLogRequestView, limit: nat) {
        broadcast use group_fields;

        let parts = view.parts();
        let fields = ChangeLogRequest::fields_of(view);
        assert(owned(parts));
        lemma_parts_ok(parts);
        lemma_part(parts, 1);
        lemma_part(parts, 2);
    }

    proof fn lemma_nesting() {
    }
}

/// One change with its signed, encrypted record.
#[derive(Clone, Debug, Default, PartialEq, Eq)]
pub struct EncryptedChange {
    pub sequence: u64,
    pub revision_id: Vec<u8>,
    pub content_id: Vec<u8>,
    pub encrypted_record: Vec<u8>,
    pub author_device_id: Vec<u8>,
    pub signature: Vec<u8>,
}

/// The contents of `EncryptedChange`.
pub struct EncryptedChangeView {
    pub sequence: u64,
    pub revision_id: Seq<u8>,
    pub content_id: Seq<u8>,
    pub encrypted_record: Seq<u8>,
    pub author_device_id: Seq<u8>,
    pub signature: Seq<u8>,
}

impl View for EncryptedChange {
    type V = EncryptedChangeView;

    open spec fn view(&self) -> EncryptedChangeView {
        EncryptedChangeView {
            sequence: self.sequence,
            revision_id: self.revision_id@,
            content_id: self.content_id@,
            encrypted_record: self.encrypted_record@,
            author_device_id: self.author_device_id@,
            signature: self.signature@,
        }
    }
}

impl EncryptedChangeView {
    /// The fields of each number.
    pub open spec fn parts(self) -> Seq<Seq<WireField>> {
        seq![
            varint_field(1, self.sequence),
            bytes_field(2, self.revision_id),
            bytes_field(3, self.content_id),
            bytes_field(4, self.encrypted_record),
            bytes_field(5, self.author_device_id),
            bytes_field(6, self.signature),
        ]
    }
}

impl WireMessage for EncryptedChange {
    open spec fn fields_of(view: EncryptedChangeView) -> Seq<WireField> {
        flatten_fields(view.parts())
    }

    open spec fn message_of(fields: Seq<WireField>, limit: nat) -> Option<EncryptedChangeView> {
        if {
            &&& only_varints(fields, 1)
            &&& only_bytes(fields, 2)
            &&& only_bytes(fields, 3)
            &&& only_bytes(fields, 4)
            &&& only_bytes(fields, 5)
            &&& only_bytes(fields, 6)
        } {
            Some(
                EncryptedChangeView {
                    sequence: scalar(fields, 1),
                    revision_id: last_payload(payloads(fields, 2)),
                    content_id: last_payload(payloads(fields, 3)),
                    encrypted_record: last_payload(payloads(fields, 4)),
                    author_device_id: last_payload(payloads(fields, 5)),
                    signature: last_payload(payloads(fields, 6)),
                },
            )
        } else {
            None
        }
    }

    open spec fn nesting() -> nat {
        0
    }

    fn put(&self, target: &mut Vec<u8>) {
        let ghost start = target@;
        let ghost parts = self@.parts();
        proof {
            lemma_put_start(start, parts);
        }
        let ghost before1 = target@;
        put_uint(target, 1, self.sequence);
        proof {
            lemma_put_part(start, parts, 0, before1, target@);
        }
        let ghost before2 = target@;
        put_bytes(target, 2, self.revision_id.as_slice());
        proof {
            lemma_put_part(start, parts, 1, before2, target@);
        }
        let ghost before3 = target@;
        put_bytes(target, 3, self.content_id.as_slice());
        proof {
            lemma_put_part(start, parts, 2, before3, target@);
        }
        let ghost before4 = target@;
        put_bytes(target, 4, self.encrypted_record.as_slice());
        proof {
            lemma_put_part(start, parts, 3, before4, target@);
        }
        let ghost before5 = target@;
        put_bytes(target, 5, self.author_device_id.as_slice());
        proof {
            lemma_put_part(start, parts, 4, before5, target@);
        }
        let ghost before6 = target@;
        put_bytes(target, 6, self.signature.as_slice());
        proof {
            lemma_put_part(start, parts, 5, before6, target@);
        }
        assert(parts.take(6) =~= parts);
    }

    fn get(fields: &Vec<Field>, limit: u32) -> (result: Result<Self, DecodeError>) {
        let sequence: u64 = find_varint(fields, 1)?;
        let revision_id: Vec<u8> = find_bytes(fields, 2)?;
        let content_id: Vec<u8> = find_bytes(fields, 3)?;
        let encrypted_record: Vec<u8> = find_bytes(fields, 4)?;
        let author_device_id: Vec<u8> = find_bytes(fields, 5)?;
        let signature: Vec<u8> = find_bytes(fields, 6)?;
        Ok(EncryptedChange { sequence, revision_id, content_id, encrypted_record, author_device_id, signature })
    }

    proof fn lemma_reads_back(view: EncryptedChangeView, limit: nat) {
        broadcast use group_fields;

        let parts = view.parts();
        let fields = EncryptedChange::fields_of(view);
        assert(owned(parts));
        lemma_parts_ok(parts);
        lemma_part(parts, 1);
        lemma_part(parts, 2);
        lemma_part(parts, 3);
        lemma_part(parts, 4);
        lemma_part(parts, 5);
        lemma_part(parts, 6);
        assert(last_payload(payloads(fields, 2)) =~= view.revision_id);
        assert(last_payload(payloads(fields, 3)) =~= view.content_id);
        assert(last_payload(payloads(fields, 4)) =~= view.encrypted_record);
        assert(last_payload(payloads(fields, 5)) =~= view.author_device_id);
        assert(last_payload(payloads(fields, 6)) =~= view.signature);
    }

    proof fn lemma_nesting() {
    }
}

/// A page of changes.
#[derive(Clone, Debug, Default, PartialEq, Eq)]
pub struct ChangeBatch {
    pub records: Vec<EncryptedChange>,
    pub high_watermark: u64,
    pub has_more: bool,
}

/// The contents of `ChangeBatch`.
pub struct ChangeBatchView {
    pub records: Seq<EncryptedChangeView>,
    pub high_watermark: u64,
    pub has_more: bool,
}

impl View for ChangeBatch {
    type V = ChangeBatchView;

    open spec fn view(&self) -> ChangeBatchView {
        ChangeBatchView {
            records: list_view(self.records@),
            high_watermark: self.high_watermark,
            has_more: self.has_more,
        }
    }
}

impl ChangeBatchView {
    /// The fields of each number.
    pub open spec fn parts(self) -> Seq<Seq<WireField>> {
        seq![
            payload_fields(1, list_payloads::<EncryptedChange>(self.records)),
            varint_field(2, self.high_watermark),
            varint_field(3, bool_value(self.has_more)),
        ]
    }
}

impl WireMessage for ChangeBatch {
    open spec fn fields_of(view: ChangeBatchView) -> Seq<WireField> {
        flatten_fields(view.parts())
    }

    open spec fn message_of(fields: Seq<WireField>, limit: nat) -> Option<ChangeBatchView> {
        if {
            &&& only_bytes(fields, 1) && messages_in::<EncryptedChange>(payloads(fields, 1), limit) is Some
            &&& only_varints(fields, 2)
            &&& only_varints(fields, 3)
        } {
            Some(
                ChangeBatchView {
                    records: messages_in::<EncryptedChange>(payloads(fields, 1), limit)->0,
                    high_watermark: scalar(fields, 2),
                    has_more: scalar(fields, 3) != 0,
                },
            )
        } else {
            None
        }
    }

    open spec fn nesting() -> nat {
        1
    }

    fn put(&self, target: &mut Vec<u8>) {
        let ghost start = target@;
        let ghost parts = self@.parts();
        proof {
            lemma_put_start(start, parts);
        }
        let ghost before1 = target@;
        put_messages(target, 1, &self.records);
        proof {
            lemma_put_part(start, parts, 0, before1, target@);
        }
        let ghost before2 = target@;
        put_uint(target, 2, self.high_watermark);
        proof {
            lemma_put_part(start, parts, 1, before2, target@);
        }
        let ghost before3 = target@;
        put_uint(target, 3, to_bool_value(self.has_more));
        proof {
            lemma_put_part(start, parts, 2, before3, target@);
        }
        assert(parts.take(3) =~= parts);
    }

    fn get(fields: &Vec<Field>, limit: u32) -> (result: Result<Self, DecodeError>) {
        let records: Vec<EncryptedChange> = find_messages(fields, 1, limit)?;
        let high_watermark: u64 = find_varint(fields, 2)?;
        let has_more: bool = find_varint(fields, 3)? != 0;
        Ok(ChangeBatch { records, high_watermark, has_more })
    }

    proof fn lemma_reads_back(view: ChangeBatchView, limit: nat) {
        broadcast use group_fields;

        let parts = view.parts();
        let fields = ChangeBatch::fields_of(view);
        assert(owned(parts));
        lemma_parts_ok(parts);
        lemma_part(parts, 1);
        lemma_part(parts, 2);
        lemma_part(parts, 3);
        assert(payloads(fields, 1) =~= list_payloads::<EncryptedChange>(view.records));
        lemma_payload_len(fields, 1);
        assert forall|i: int| 0 <= i < view.records.len() implies encoded::<EncryptedChange>(#[trigger] view.records[i]).len() <= u64::MAX by {
            assert(payloads(fields, 1)[i] == encoded::<EncryptedChange>(view.records[i]));
        }
        lemma_messages_in::<EncryptedChange>(view.records, limit);
    }

    proof fn lemma_nesting() {
    }
}

} // verus!
