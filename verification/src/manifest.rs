//! The plaintext of a change record: its canonical encoding, and what is refused.
use vstd::prelude::*;

use crate::bytes::{bytes_equal, copy_bytes};
use crate::ids::{lemma_uuid_bytes, uuid_of_bytes, ContentId, DeviceId, FileId, RevisionId};
use crate::message::{
    decode_message, decoded, encode_message, encoded, law_message_round_trips, list_view,
};
use crate::oneof::{ManifestEnvelope, ManifestEnvelopeView, ManifestRecord, ManifestRecordView};
use crate::outcome::agrees;
use crate::path::{path_forms, path_problem, PathError, PathProblem, RelativePath};
use crate::record::{
    ChangeRecord, ChunkRef, FileManifest, ManifestView, RecordView, Tombstone, TombstoneView,
};
use crate::version::{
    entry_ok, first_bad_entry, law_entries_are_order_independent, version_wf, VersionVector,
    VersionVectorError,
};
use crate::wire::{
    ChunkReference, ChunkReferenceView, FileRecord, FileRecordView, TombstoneRecord,
    TombstoneRecordView, VersionCounter, VersionCounterView,
};

verus! {

pub const MANIFEST_PLAINTEXT_FORMAT_VERSION: u32 = 1;

pub const MAXIMUM_MANIFEST_CHUNKS: usize = 1_000_000;

pub const MAXIMUM_MANIFEST_PLAINTEXT_BYTES: usize = 67_108_776;

#[derive(Clone, Debug, PartialEq, Eq)]
pub enum ManifestError {
    Decode,
    PlaintextTooLarge { actual: usize, maximum: usize },
    UnsupportedFormatVersion(u32),
    MissingRecord,
    InvalidIdentifierLength { field: &'static str, expected: usize, actual: usize },
    NilIdentifier { field: &'static str },
    Path(PathError),
    Version(VersionVectorError),
    EmptyVersionVector,
    VersionEntriesNotStrictlySorted { index: usize },
    TooManyChunks { actual: usize, maximum: usize },
    ZeroChunkSize { index: usize },
    FileSizeOverflow,
    FileSizeMismatch { declared: u64, actual: u64 },
    NonCanonical,
}

/// What is wrong with a record or with its encoding.
pub enum ManifestProblem {
    Decode,
    PlaintextTooLarge { actual: nat, maximum: nat },
    UnsupportedFormatVersion(u32),
    MissingRecord,
    InvalidIdentifierLength { field: Seq<char>, expected: nat, actual: nat },
    NilIdentifier { field: Seq<char> },
    Path(PathProblem),
    Version(VersionVectorError),
    EmptyVersionVector,
    VersionEntriesNotStrictlySorted { index: nat },
    TooManyChunks { actual: nat, maximum: nat },
    ZeroChunkSize { index: nat },
    FileSizeOverflow,
    FileSizeMismatch { declared: u64, actual: u64 },
    NonCanonical,
}

impl View for ManifestError {
    type V = ManifestProblem;

    open spec fn view(&self) -> ManifestProblem {
        match *self {
            ManifestError::Decode => ManifestProblem::Decode,
            ManifestError::PlaintextTooLarge { actual, maximum } =>
            ManifestProblem::PlaintextTooLarge { actual: actual as nat, maximum: maximum as nat },
            ManifestError::UnsupportedFormatVersion(version) =>
            ManifestProblem::UnsupportedFormatVersion(version),
            ManifestError::MissingRecord => ManifestProblem::MissingRecord,
            ManifestError::InvalidIdentifierLength { field, expected, actual } =>
            ManifestProblem::InvalidIdentifierLength {
                field: field@,
                expected: expected as nat,
                actual: actual as nat,
            },
            ManifestError::NilIdentifier { field } => ManifestProblem::NilIdentifier {
                field: field@,
            },
            ManifestError::Path(error) => ManifestProblem::Path(error@),
            ManifestError::Version(error) => ManifestProblem::Version(error),
            ManifestError::EmptyVersionVector => ManifestProblem::EmptyVersionVector,
            ManifestError::VersionEntriesNotStrictlySorted { index } =>
            ManifestProblem::VersionEntriesNotStrictlySorted { index: index as nat },
            ManifestError::TooManyChunks { actual, maximum } => ManifestProblem::TooManyChunks {
                actual: actual as nat,
                maximum: maximum as nat,
            },
            ManifestError::ZeroChunkSize { index } => ManifestProblem::ZeroChunkSize {
                index: index as nat,
            },
            ManifestError::FileSizeOverflow => ManifestProblem::FileSizeOverflow,
            ManifestError::FileSizeMismatch { declared, actual } =>
            ManifestProblem::FileSizeMismatch { declared, actual },
            ManifestError::NonCanonical => ManifestProblem::NonCanonical,
        }
    }
}

/// An identifier is not all zeros.
pub open spec fn uuid_problem(field: Seq<char>, value: u128) -> Option<ManifestProblem> {
    if value == 0 {
        Some(ManifestProblem::NilIdentifier { field })
    } else {
        None
    }
}

/// The identifier that a field of a record spells.
pub open spec fn manifest_uuid(field: Seq<char>, bytes: Seq<u8>) -> Result<u128, ManifestProblem> {
    if bytes.len() != 16 {
        Err(
            ManifestProblem::InvalidIdentifierLength { field, expected: 16, actual: bytes.len() },
        )
    } else {
        match uuid_problem(field, uuid_of_bytes(bytes)) {
            Some(problem) => Err(problem),
            None => Ok(uuid_of_bytes(bytes)),
        }
    }
}

/// The size of a file with the given chunks, where each chunk is acceptable.
pub open spec fn total_size(chunks: Seq<ChunkRef>) -> Result<u64, ManifestProblem>
    decreases chunks.len(),
{
    if chunks.len() == 0 {
        Ok(0)
    } else {
        match total_size(chunks.drop_last()) {
            Err(problem) => Err(problem),
            Ok(total) => if chunks.last().plaintext_size == 0 {
                Err(ManifestProblem::ZeroChunkSize { index: (chunks.len() - 1) as nat })
            } else if total + chunks.last().plaintext_size > u64::MAX {
                Err(ManifestProblem::FileSizeOverflow)
            } else {
                Ok((total + chunks.last().plaintext_size) as u64)
            },
        }
    }
}

/// What is wrong with a manifest, apart from its version.
pub open spec fn manifest_problem(manifest: ManifestView) -> Option<ManifestProblem> {
    if uuid_problem("file.file_id"@, manifest.file_id.value) is Some {
        uuid_problem("file.file_id"@, manifest.file_id.value)
    } else if uuid_problem("file.revision_id"@, manifest.revision_id.value) is Some {
        uuid_problem("file.revision_id"@, manifest.revision_id.value)
    } else if manifest.chunks.len() > MAXIMUM_MANIFEST_CHUNKS {
        Some(
            ManifestProblem::TooManyChunks {
                actual: manifest.chunks.len(),
                maximum: MAXIMUM_MANIFEST_CHUNKS as nat,
            },
        )
    } else {
        match total_size(manifest.chunks) {
            Err(problem) => Some(problem),
            Ok(total) => if total != manifest.size {
                Some(
                    ManifestProblem::FileSizeMismatch { declared: manifest.size, actual: total },
                )
            } else {
                None
            },
        }
    }
}

/// What is wrong with a record that cannot be encoded.
pub open spec fn record_problem(record: RecordView) -> Option<ManifestProblem> {
    let problem = match record {
        RecordView::File(manifest) => manifest_problem(manifest),
        RecordView::Tombstone(tombstone) => if uuid_problem(
            "tombstone.file_id"@,
            tombstone.file_id.value,
        ) is Some {
            uuid_problem("tombstone.file_id"@, tombstone.file_id.value)
        } else {
            uuid_problem("tombstone.revision_id"@, tombstone.revision_id.value)
        },
    };
    if problem is Some {
        problem
    } else if record.version().len() == 0 {
        Some(ManifestProblem::EmptyVersionVector)
    } else {
        None
    }
}

/// The counters that a version is written as.
pub open spec fn version_counters(version: Seq<(DeviceId, u64)>) -> Seq<VersionCounterView> {
    Seq::new(
        version.len(),
        |i: int|
            VersionCounterView { device_id: version[i].0.spec_bytes(), counter: version[i].1 },
    )
}

/// The references that chunks are written as.
pub open spec fn chunk_references(chunks: Seq<ChunkRef>) -> Seq<ChunkReferenceView> {
    Seq::new(
        chunks.len(),
        |i: int|
            ChunkReferenceView {
                content_id: chunks[i].content_id@,
                plaintext_size: chunks[i].plaintext_size,
            },
    )
}

/// The message that a record is written as.
pub open spec fn record_envelope(record: RecordView) -> ManifestEnvelopeView {
    ManifestEnvelopeView {
        format_version: MANIFEST_PLAINTEXT_FORMAT_VERSION,
        record: Some(
            match record {
                RecordView::File(manifest) => ManifestRecordView::File(
                    FileRecordView {
                        file_id: manifest.file_id.spec_bytes(),
                        revision_id: manifest.revision_id.spec_bytes(),
                        relative_path: manifest.path.display,
                        size: manifest.size,
                        modified_at_unix_ms: manifest.modified_at_unix_ms,
                        version: version_counters(manifest.version),
                        chunks: chunk_references(manifest.chunks),
                    },
                ),
                RecordView::Tombstone(tombstone) => ManifestRecordView::Tombstone(
                    TombstoneRecordView {
                        file_id: tombstone.file_id.spec_bytes(),
                        revision_id: tombstone.revision_id.spec_bytes(),
                        relative_path: tombstone.path.display,
                        deleted_at_unix_ms: tombstone.deleted_at_unix_ms,
                        version: version_counters(tombstone.version),
                    },
                ),
            },
        ),
    }
}

/// The plaintext of a record.
pub open spec fn record_bytes(record: RecordView) -> Seq<u8> {
    encoded::<ManifestEnvelope>(record_envelope(record))
}

/// The plaintext of a record, or what is wrong with the record.
pub open spec fn encoded_record(record: RecordView) -> Result<Seq<u8>, ManifestProblem> {
    match record_problem(record) {
        Some(problem) => Err(problem),
        None => if record_bytes(record).len() > MAXIMUM_MANIFEST_PLAINTEXT_BYTES {
            Err(
                ManifestProblem::PlaintextTooLarge {
                    actual: record_bytes(record).len(),
                    maximum: MAXIMUM_MANIFEST_PLAINTEXT_BYTES as nat,
                },
            )
        } else {
            Ok(record_bytes(record))
        },
    }
}

/// The entries that counters stand for, each device after the one before it.
pub open spec fn read_entries(counters: Seq<VersionCounterView>) -> Result<
    Seq<(DeviceId, u64)>,
    ManifestProblem,
>
    decreases counters.len(),
{
    if counters.len() == 0 {
        Ok(seq![])
    } else {
        match read_entries(counters.drop_last()) {
            Err(problem) => Err(problem),
            Ok(entries) => match manifest_uuid("version.device_id"@, counters.last().device_id) {
                Err(problem) => Err(problem),
                Ok(value) => if entries.len() > 0 && value <= entries.last().0.value {
                    Err(
                        ManifestProblem::VersionEntriesNotStrictlySorted {
                            index: (counters.len() - 1) as nat,
                        },
                    )
                } else {
                    Ok(entries.push((DeviceId { value }, counters.last().counter)))
                },
            },
        }
    }
}

/// The first device with a zero counter.
pub open spec fn first_zero(entries: Seq<(DeviceId, u64)>) -> Option<DeviceId>
    decreases entries.len(),
{
    if entries.len() == 0 {
        None
    } else if first_zero(entries.drop_last()) is Some {
        first_zero(entries.drop_last())
    } else if entries.last().1 == 0 {
        Some(entries.last().0)
    } else {
        None
    }
}

/// The version that counters stand for.
pub open spec fn read_version(counters: Seq<VersionCounterView>) -> Result<
    Seq<(DeviceId, u64)>,
    ManifestProblem,
> {
    if counters.len() == 0 {
        Err(ManifestProblem::EmptyVersionVector)
    } else {
        match read_entries(counters) {
            Err(problem) => Err(problem),
            Ok(entries) => match first_zero(entries) {
                Some(device_id) => Err(
                    ManifestProblem::Version(VersionVectorError::ZeroCounter { device_id }),
                ),
                None => Ok(entries),
            },
        }
    }
}

/// The chunks that references stand for.
pub open spec fn read_chunks(references: Seq<ChunkReferenceView>) -> Result<
    Seq<ChunkRef>,
    ManifestProblem,
>
    decreases references.len(),
{
    if references.len() == 0 {
        Ok(seq![])
    } else {
        match read_chunks(references.drop_last()) {
            Err(problem) => Err(problem),
            Ok(chunks) => if references.last().content_id.len() != 32 {
                Err(
                    ManifestProblem::InvalidIdentifierLength {
                        field: "file.chunks.content_id"@,
                        expected: 32,
                        actual: references.last().content_id.len(),
                    },
                )
            } else {
                Ok(
                    chunks.push(
                        ChunkRef {
                            content_id: ContentId::of_bytes(references.last().content_id),
                            plaintext_size: references.last().plaintext_size,
                        },
                    ),
                )
            },
        }
    }
}

/// The manifest that a file record stands for.
pub open spec fn read_file(file: FileRecordView) -> Result<ManifestView, ManifestProblem> {
    match read_chunks(file.chunks) {
        Err(problem) => Err(problem),
        Ok(chunks) => match manifest_uuid("file.file_id"@, file.file_id) {
            Err(problem) => Err(problem),
            Ok(file_id) => match manifest_uuid("file.revision_id"@, file.revision_id) {
                Err(problem) => Err(problem),
                Ok(revision_id) => match path_problem(file.relative_path) {
                    Some(problem) => Err(ManifestProblem::Path(problem)),
                    None => match read_version(file.version) {
                        Err(problem) => Err(problem),
                        Ok(version) => {
                            let manifest = ManifestView {
                                file_id: FileId { value: file_id },
                                revision_id: RevisionId { value: revision_id },
                                path: path_forms(file.relative_path),
                                size: file.size,
                                modified_at_unix_ms: file.modified_at_unix_ms,
                                version,
                                chunks,
                            };
                            match manifest_problem(manifest) {
                                Some(problem) => Err(problem),
                                None => Ok(manifest),
                            }
                        },
                    },
                },
            },
        },
    }
}

/// The tombstone that a tombstone record stands for.
pub open spec fn read_tombstone(tombstone: TombstoneRecordView) -> Result<
    TombstoneView,
    ManifestProblem,
> {
    match manifest_uuid("tombstone.file_id"@, tombstone.file_id) {
        Err(problem) => Err(problem),
        Ok(file_id) => match manifest_uuid("tombstone.revision_id"@, tombstone.revision_id) {
            Err(problem) => Err(problem),
            Ok(revision_id) => match path_problem(tombstone.relative_path) {
                Some(problem) => Err(ManifestProblem::Path(problem)),
                None => match read_version(tombstone.version) {
                    Err(problem) => Err(problem),
                    Ok(version) => Ok(
                        TombstoneView {
                            file_id: FileId { value: file_id },
                            revision_id: RevisionId { value: revision_id },
                            path: path_forms(tombstone.relative_path),
                            deleted_at_unix_ms: tombstone.deleted_at_unix_ms,
                            version,
                        },
                    ),
                },
            },
        },
    }
}

/// The record that a message stands for.
pub open spec fn read_record(envelope: ManifestEnvelopeView) -> Result<
    RecordView,
    ManifestProblem,
> {
    if envelope.format_version != MANIFEST_PLAINTEXT_FORMAT_VERSION {
        Err(ManifestProblem::UnsupportedFormatVersion(envelope.format_version))
    } else {
        match envelope.record {
            None => Err(ManifestProblem::MissingRecord),
            Some(ManifestRecordView::File(file)) => match read_file(file) {
                Err(problem) => Err(problem),
                Ok(manifest) => Ok(RecordView::File(manifest)),
            },
            Some(ManifestRecordView::Tombstone(tombstone)) => match read_tombstone(tombstone) {
                Err(problem) => Err(problem),
                Ok(tombstone) => Ok(RecordView::Tombstone(tombstone)),
            },
        }
    }
}

/// The record that bytes are the plaintext of, or what is wrong with them.
pub open spec fn decoded_record(bytes: Seq<u8>) -> Result<RecordView, ManifestProblem> {
    if bytes.len() > MAXIMUM_MANIFEST_PLAINTEXT_BYTES {
        Err(
            ManifestProblem::PlaintextTooLarge {
                actual: bytes.len(),
                maximum: MAXIMUM_MANIFEST_PLAINTEXT_BYTES as nat,
            },
        )
    } else {
        match decoded::<ManifestEnvelope>(bytes) {
            None => Err(ManifestProblem::Decode),
            Some(envelope) => match read_record(envelope) {
                Err(problem) => Err(problem),
                Ok(record) => match encoded_record(record) {
                    Err(problem) => Err(problem),
                    Ok(canonical) => if canonical != bytes {
                        Err(ManifestProblem::NonCanonical)
                    } else {
                        Ok(record)
                    },
                },
            },
        }
    }
}

fn validate_uuid(field: &'static str, value: u128) -> (result: Result<(), ManifestError>)
    ensures
        match result {
            Ok(_) => uuid_problem(field@, value) is None,
            Err(error) => uuid_problem(field@, value) == Some(error@),
        },
{
    if value == 0 {
        return Err(ManifestError::NilIdentifier { field });
    }
    Ok(())
}

fn decode_manifest_uuid(field: &'static str, bytes: &[u8]) -> (result: Result<
    u128,
    ManifestError,
>)
    ensures
        agrees(result, manifest_uuid(field@, bytes@)),
{
    if bytes.len() != 16 {
        return Err(
            ManifestError::InvalidIdentifierLength { field, expected: 16, actual: bytes.len() },
        );
    }
    let value: u128 = DeviceId::from_bytes(bytes).as_u128();
    validate_uuid(field, value)?;
    Ok(value)
}

fn decode_manifest_content_id(field: &'static str, bytes: &[u8]) -> (result: Result<
    ContentId,
    ManifestError,
>)
    ensures
        match result {
            Ok(content_id) => bytes@.len() == 32 && content_id == ContentId::of_bytes(bytes@),
            Err(error) => bytes@.len() != 32 && error@
                == (ManifestProblem::InvalidIdentifierLength {
                field: field@,
                expected: 32,
                actual: bytes@.len(),
            }),
        },
{
    match ContentId::from_slice(bytes) {
        Some(content_id) => Ok(content_id),
        None => Err(
            ManifestError::InvalidIdentifierLength { field, expected: 32, actual: bytes.len() },
        ),
    }
}

proof fn lemma_total_size_prefix(chunks: Seq<ChunkRef>, count: int)
    requires
        0 <= count <= chunks.len(),
        total_size(chunks.take(count)) is Err,
    ensures
        total_size(chunks) == total_size(chunks.take(count)),
    decreases chunks.len(),
{
    if count < chunks.len() {
        assert(chunks.drop_last().take(count) =~= chunks.take(count));
        lemma_total_size_prefix(chunks.drop_last(), count);
    } else {
        assert(chunks.take(count) =~= chunks);
    }
}

fn chunk_total(chunks: &Vec<ChunkRef>) -> (result: Result<u64, ManifestError>)
    ensures
        agrees(result, total_size(chunks@)),
{
    let mut total: u64 = 0;
    let mut index: usize = 0;
    assert(chunks@.take(0) =~= seq![]);
    while index < chunks.len()
        invariant
            index <= chunks@.len(),
            total_size(chunks@.take(index as int)) == Ok::<u64, ManifestProblem>(total),
        decreases chunks@.len() - index,
    {
        let ghost next = chunks@.take(index + 1);
        proof {
            assert(next.drop_last() =~= chunks@.take(index as int));
            assert(next.last() == chunks@[index as int]);
            if total_size(next) is Err {
                lemma_total_size_prefix(chunks@, index + 1);
            }
        }
        let size: u32 = chunks[index].plaintext_size;
        if size == 0 {
            return Err(ManifestError::ZeroChunkSize { index });
        }
        match total.checked_add(size as u64) {
            Some(sum) => {
                total = sum;
            },
            None => {
                return Err(ManifestError::FileSizeOverflow);
            },
        }
        index += 1;
    }
    assert(chunks@.take(index as int) =~= chunks@);
    Ok(total)
}

/// Tests a manifest, apart from its version.
pub fn validate_file_manifest(manifest: &FileManifest) -> (result: Result<(), ManifestError>)
    ensures
        match result {
            Ok(_) => manifest_problem(manifest@) is None,
            Err(error) => manifest_problem(manifest@) == Some(error@),
        },
{
    validate_uuid("file.file_id", manifest.file_id.value)?;
    validate_uuid("file.revision_id", manifest.revision_id.value)?;
    if manifest.chunks.len() > MAXIMUM_MANIFEST_CHUNKS {
        return Err(
            ManifestError::TooManyChunks {
                actual: manifest.chunks.len(),
                maximum: MAXIMUM_MANIFEST_CHUNKS,
            },
        );
    }
    let actual: u64 = chunk_total(&manifest.chunks)?;
    if actual != manifest.size {
        return Err(ManifestError::FileSizeMismatch { declared: manifest.size, actual });
    }
    Ok(())
}

fn encode_version(version: &VersionVector) -> (result: Result<Vec<VersionCounter>, ManifestError>)
    ensures
        match result {
            Ok(counters) => version@.len() > 0 && list_view(counters@) == version_counters(
                version@,
            ),
            Err(error) => version@.len() == 0 && error@ == ManifestProblem::EmptyVersionVector,
        },
{
    let entries: Vec<(DeviceId, u64)> = version.iter();
    if entries.len() == 0 {
        return Err(ManifestError::EmptyVersionVector);
    }
    let mut counters: Vec<VersionCounter> = Vec::new();
    let mut index: usize = 0;
    while index < entries.len()
        invariant
            index <= entries@.len(),
            counters@.len() == index,
            forall|i: int|
                0 <= i < index ==> (#[trigger] counters@[i])@ == version_counters(entries@)[i],
        decreases entries@.len() - index,
    {
        let (device_id, counter) = entries[index];
        counters.push(
            VersionCounter { device_id: copy_bytes(device_id.to_bytes().as_slice()), counter },
        );
        index += 1;
    }
    assert(list_view(counters@) =~= version_counters(version@));
    Ok(counters)
}

fn encode_chunks(chunks: &Vec<ChunkRef>) -> (references: Vec<ChunkReference>)
    ensures
        list_view(references@) == chunk_references(chunks@),
{
    let mut references: Vec<ChunkReference> = Vec::new();
    let mut index: usize = 0;
    while index < chunks.len()
        invariant
            index <= chunks@.len(),
            references@.len() == index,
            forall|i: int|
                0 <= i < index ==> (#[trigger] references@[i])@ == chunk_references(chunks@)[i],
        decreases chunks@.len() - index,
    {
        let chunk: ChunkRef = chunks[index];
        references.push(
            ChunkReference {
                content_id: copy_bytes(chunk.content_id.as_bytes().as_slice()),
                plaintext_size: chunk.plaintext_size,
            },
        );
        index += 1;
    }
    assert(list_view(references@) =~= chunk_references(chunks@));
    references
}

/// Encodes a record.
pub fn encode_change_record(record: &ChangeRecord) -> (result: Result<Vec<u8>, ManifestError>)
    ensures
        agrees(result, encoded_record(record@)),
        record@.wf(),
{
    let message: ManifestRecord = match record {
        ChangeRecord::File(manifest) => {
            proof {
                use_type_invariant(&manifest.relative_path);
                use_type_invariant(&manifest.version);
            }
            validate_file_manifest(manifest)?;
            ManifestRecord::File(
                FileRecord {
                    file_id: copy_bytes(manifest.file_id.to_bytes().as_slice()),
                    revision_id: copy_bytes(manifest.revision_id.to_bytes().as_slice()),
                    relative_path: manifest.relative_path.to_string(),
                    size: manifest.size,
                    modified_at_unix_ms: manifest.modified_at_unix_ms,
                    version: encode_version(&manifest.version)?,
                    chunks: encode_chunks(&manifest.chunks),
                },
            )
        },
        ChangeRecord::Tombstone(tombstone) => {
            proof {
                use_type_invariant(&tombstone.relative_path);
                use_type_invariant(&tombstone.version);
            }
            validate_uuid("tombstone.file_id", tombstone.file_id.value)?;
            validate_uuid("tombstone.revision_id", tombstone.revision_id.value)?;
            ManifestRecord::Tombstone(
                TombstoneRecord {
                    file_id: copy_bytes(tombstone.file_id.to_bytes().as_slice()),
                    revision_id: copy_bytes(tombstone.revision_id.to_bytes().as_slice()),
                    relative_path: tombstone.relative_path.to_string(),
                    deleted_at_unix_ms: tombstone.deleted_at_unix_ms,
                    version: encode_version(&tombstone.version)?,
                },
            )
        },
    };
    let envelope: ManifestEnvelope = ManifestEnvelope {
        format_version: MANIFEST_PLAINTEXT_FORMAT_VERSION,
        record: Some(message),
    };
    assert(envelope@ == record_envelope(record@));
    let bytes: Vec<u8> = encode_message(&envelope);
    if bytes.len() > MAXIMUM_MANIFEST_PLAINTEXT_BYTES {
        return Err(
            ManifestError::PlaintextTooLarge {
                actual: bytes.len(),
                maximum: MAXIMUM_MANIFEST_PLAINTEXT_BYTES,
            },
        );
    }
    Ok(bytes)
}

proof fn lemma_read_entries_prefix(counters: Seq<VersionCounterView>, count: int)
    requires
        0 <= count <= counters.len(),
        read_entries(counters.take(count)) is Err,
    ensures
        read_entries(counters) == read_entries(counters.take(count)),
    decreases counters.len(),
{
    if count < counters.len() {
        assert(counters.drop_last().take(count) =~= counters.take(count));
        lemma_read_entries_prefix(counters.drop_last(), count);
    } else {
        assert(counters.take(count) =~= counters);
    }
}

/// The entries that are read are in order.
proof fn lemma_read_entries_sorted(counters: Seq<VersionCounterView>)
    ensures
        read_entries(counters) matches Ok(entries) ==> {
            &&& entries.len() == counters.len()
            &&& forall|i: int, j: int|
                0 <= i < j < entries.len() ==> (#[trigger] entries[i]).0.value < (
                #[trigger] entries[j]).0.value
        },
    decreases counters.len(),
{
    if counters.len() > 0 {
        lemma_read_entries_sorted(counters.drop_last());
    }
}

proof fn lemma_first_zero_at(entries: Seq<(DeviceId, u64)>, index: int)
    requires
        0 <= index < entries.len(),
        entries[index].1 == 0,
        forall|j: int| 0 <= j < index ==> (#[trigger] entries[j]).1 > 0,
    ensures
        first_zero(entries) == Some(entries[index].0),
    decreases entries.len(),
{
    let front = entries.drop_last();
    if index < front.len() {
        lemma_first_zero_at(front, index);
    } else {
        lemma_first_zero_none(front);
    }
}

proof fn lemma_first_zero_none(entries: Seq<(DeviceId, u64)>)
    requires
        forall|j: int| 0 <= j < entries.len() ==> (#[trigger] entries[j]).1 > 0,
    ensures
        first_zero(entries) is None,
    decreases entries.len(),
{
    if entries.len() > 0 {
        lemma_first_zero_none(entries.drop_last());
    }
}

proof fn lemma_first_zero_positive(entries: Seq<(DeviceId, u64)>)
    requires
        first_zero(entries) is None,
    ensures
        forall|j: int| 0 <= j < entries.len() ==> (#[trigger] entries[j]).1 > 0,
    decreases entries.len(),
{
    if entries.len() > 0 {
        lemma_first_zero_positive(entries.drop_last());
        assert forall|j: int| 0 <= j < entries.len() implies (#[trigger] entries[j]).1 > 0 by {
            if j < entries.len() - 1 {
                assert(entries.drop_last()[j] == entries[j]);
            }
        }
    }
}

fn decode_version(counters: &Vec<VersionCounter>) -> (result: Result<VersionVector, ManifestError>)
    ensures
        agrees(result, read_version(list_view(counters@))),
{
    let ghost views = list_view(counters@);
    if counters.len() == 0 {
        return Err(ManifestError::EmptyVersionVector);
    }
    let mut entries: Vec<(DeviceId, u64)> = Vec::new();
    let mut index: usize = 0;
    assert(views.take(0) =~= seq![]);
    while index < counters.len()
        invariant
            index <= counters@.len(),
            views == list_view(counters@),
            entries@.len() == index,
            counters@.len() > 0,
            read_entries(views.take(index as int)) == Ok::<
                Seq<(DeviceId, u64)>,
                ManifestProblem,
            >(entries@),
        decreases counters@.len() - index,
    {
        let ghost next = views.take(index + 1);
        proof {
            assert(next.drop_last() =~= views.take(index as int));
            assert(next.last() == counters@[index as int]@);
            if read_entries(next) is Err {
                lemma_read_entries_prefix(views, index + 1);
            }
        }
        let value: u128 = decode_manifest_uuid(
            "version.device_id",
            counters[index].device_id.as_slice(),
        )?;
        if index > 0 && value <= entries[index - 1].0.value {
            return Err(ManifestError::VersionEntriesNotStrictlySorted { index });
        }
        entries.push((DeviceId { value }, counters[index].counter));
        index += 1;
    }
    let ghost read = entries@;
    proof {
        assert(views.take(index as int) =~= views);
        lemma_read_entries_sorted(views);
    }
    match VersionVector::from_entries(entries) {
        Ok(version) => {
            proof {
                assert forall|i: int| 0 <= i < read.len() implies (#[trigger] read[i]).1 > 0 by {
                    assert(entry_ok(read, i));
                }
                lemma_first_zero_none(read);
                law_entries_are_order_independent(version@, read);
            }
            Ok(version)
        },
        Err(error) => {
            proof {
                let bad = choose|i: int| #[trigger]
                    first_bad_entry(read, i) && error == if read[i].1 == 0 {
                        VersionVectorError::ZeroCounter { device_id: read[i].0 }
                    } else {
                        VersionVectorError::DuplicateDevice { device_id: read[i].0 }
                    };
                assert(!entry_ok(read, bad));
                assert forall|j: int| 0 <= j < bad implies (#[trigger] read[j]).1 > 0 by {
                    assert(entry_ok(read, j));
                }
                lemma_first_zero_at(read, bad);
            }
            Err(ManifestError::Version(error))
        },
    }
}

proof fn lemma_read_chunks_prefix(references: Seq<ChunkReferenceView>, count: int)
    requires
        0 <= count <= references.len(),
        read_chunks(references.take(count)) is Err,
    ensures
        read_chunks(references) == read_chunks(references.take(count)),
    decreases references.len(),
{
    if count < references.len() {
        assert(references.drop_last().take(count) =~= references.take(count));
        lemma_read_chunks_prefix(references.drop_last(), count);
    } else {
        assert(references.take(count) =~= references);
    }
}

fn decode_chunks(references: &Vec<ChunkReference>) -> (result: Result<
    Vec<ChunkRef>,
    ManifestError,
>)
    ensures
        agrees(result, read_chunks(list_view(references@))),
{
    let ghost views = list_view(references@);
    let mut chunks: Vec<ChunkRef> = Vec::new();
    let mut index: usize = 0;
    assert(views.take(0) =~= seq![]);
    while index < references.len()
        invariant
            index <= references@.len(),
            views == list_view(references@),
            read_chunks(views.take(index as int)) == Ok::<Seq<ChunkRef>, ManifestProblem>(chunks@),
        decreases references@.len() - index,
    {
        let ghost next = views.take(index + 1);
        proof {
            assert(next.drop_last() =~= views.take(index as int));
            assert(next.last() == references@[index as int]@);
            if read_chunks(next) is Err {
                lemma_read_chunks_prefix(views, index + 1);
            }
        }
        let content_id: ContentId = decode_manifest_content_id(
            "file.chunks.content_id",
            references[index].content_id.as_slice(),
        )?;
        chunks.push(ChunkRef { content_id, plaintext_size: references[index].plaintext_size });
        index += 1;
    }
    assert(views.take(index as int) =~= views);
    Ok(chunks)
}

fn decode_path(text: &str) -> (result: Result<RelativePath, ManifestError>)
    ensures
        match result {
            Ok(path) => path_problem(text@) is None && path@ == path_forms(text@),
            Err(error) => path_problem(text@) is Some && error@ == ManifestProblem::Path(
                path_problem(text@)->0,
            ),
        },
{
    match RelativePath::new(text) {
        Ok(path) => Ok(path),
        Err(error) => Err(ManifestError::Path(error)),
    }
}

fn decode_file_record(file: &FileRecord) -> (result: Result<FileManifest, ManifestError>)
    ensures
        agrees(result, read_file(file@)),
{
    let chunks: Vec<ChunkRef> = decode_chunks(&file.chunks)?;
    let file_id: u128 = decode_manifest_uuid("file.file_id", file.file_id.as_slice())?;
    let revision_id: u128 = decode_manifest_uuid("file.revision_id", file.revision_id.as_slice())?;
    let relative_path: RelativePath = decode_path(file.relative_path.as_str())?;
    let version: VersionVector = decode_version(&file.version)?;
    let manifest: FileManifest = FileManifest {
        file_id: FileId::from_u128(file_id),
        revision_id: RevisionId::from_u128(revision_id),
        relative_path,
        size: file.size,
        modified_at_unix_ms: file.modified_at_unix_ms,
        version,
        chunks,
    };
    validate_file_manifest(&manifest)?;
    Ok(manifest)
}

fn decode_tombstone_record(tombstone: &TombstoneRecord) -> (result: Result<
    Tombstone,
    ManifestError,
>)
    ensures
        agrees(result, read_tombstone(tombstone@)),
{
    let file_id: u128 = decode_manifest_uuid("tombstone.file_id", tombstone.file_id.as_slice())?;
    let revision_id: u128 = decode_manifest_uuid(
        "tombstone.revision_id",
        tombstone.revision_id.as_slice(),
    )?;
    let relative_path: RelativePath = decode_path(tombstone.relative_path.as_str())?;
    let version: VersionVector = decode_version(&tombstone.version)?;
    Ok(
        Tombstone {
            file_id: FileId::from_u128(file_id),
            revision_id: RevisionId::from_u128(revision_id),
            relative_path,
            deleted_at_unix_ms: tombstone.deleted_at_unix_ms,
            version,
        },
    )
}

/// Decodes a record. Only the encoding that the record itself has is accepted.
pub fn decode_change_record(bytes: &[u8]) -> (result: Result<ChangeRecord, ManifestError>)
    ensures
        agrees(result, decoded_record(bytes@)),
{
    if bytes.len() > MAXIMUM_MANIFEST_PLAINTEXT_BYTES {
        return Err(
            ManifestError::PlaintextTooLarge {
                actual: bytes.len(),
                maximum: MAXIMUM_MANIFEST_PLAINTEXT_BYTES,
            },
        );
    }
    let envelope: ManifestEnvelope = match decode_message(bytes) {
        Ok(envelope) => envelope,
        Err(_) => {
            return Err(ManifestError::Decode);
        },
    };
    if envelope.format_version != MANIFEST_PLAINTEXT_FORMAT_VERSION {
        return Err(ManifestError::UnsupportedFormatVersion(envelope.format_version));
    }
    let record: ChangeRecord = match &envelope.record {
        None => {
            return Err(ManifestError::MissingRecord);
        },
        Some(ManifestRecord::File(file)) => ChangeRecord::File(decode_file_record(file)?),
        Some(ManifestRecord::Tombstone(tombstone)) => ChangeRecord::Tombstone(
            decode_tombstone_record(tombstone)?,
        ),
    };
    let canonical: Vec<u8> = encode_change_record(&record)?;
    if !bytes_equal(canonical.as_slice(), bytes) {
        return Err(ManifestError::NonCanonical);
    }
    Ok(record)
}

proof fn lemma_entries_read_back(version: Seq<(DeviceId, u64)>)
    requires
        version_wf(version),
        forall|i: int| 0 <= i < version.len() ==> (#[trigger] version[i]).0.value != 0,
    ensures
        read_entries(version_counters(version)) == Ok::<Seq<(DeviceId, u64)>, ManifestProblem>(
            version,
        ),
    decreases version.len(),
{
    if version.len() > 0 {
        let front = version.drop_last();
        assert forall|i: int| 0 <= i < front.len() implies (#[trigger] front[i]).0.value != 0
            && front[i] == version[i] by {
            assert(front[i] == version[i]);
        }
        assert(version_wf(front));
        lemma_entries_read_back(front);
        assert(version_counters(version).drop_last() =~= version_counters(front));
        lemma_uuid_bytes(version.last().0.value);
        assert(version.last() == version[version.len() - 1]);
        if front.len() > 0 {
            assert(front.last() == version[version.len() - 2]);
        }
        assert(front.push(version.last()) =~= version);
    } else {
        assert(version =~= seq![]);
    }
}

proof fn lemma_chunks_read_back(chunks: Seq<ChunkRef>)
    ensures
        read_chunks(chunk_references(chunks)) == Ok::<Seq<ChunkRef>, ManifestProblem>(chunks),
    decreases chunks.len(),
{
    if chunks.len() > 0 {
        lemma_chunks_read_back(chunks.drop_last());
        assert(chunk_references(chunks).drop_last() =~= chunk_references(chunks.drop_last()));
        chunks.last().content_id.lemma_view();
        assert(chunks.drop_last().push(chunks.last()) =~= chunks);
    } else {
        assert(chunks =~= seq![]);
    }
}

/// Decoding an encoded record gives the record, where each device of its version has an
/// identifier that is not all zeros.
pub proof fn law_record_round_trips(record: RecordView)
    requires
        record.wf(),
        encoded_record(record) is Ok,
        forall|i: int|
            0 <= i < record.version().len() ==> (#[trigger] record.version()[i]).0.value != 0,
    ensures
        decoded_record(encoded_record(record)->Ok_0) == Ok::<RecordView, ManifestProblem>(record),
{
    law_message_round_trips::<ManifestEnvelope>(record_envelope(record));
    lemma_entries_read_back(record.version());
    assert(version_counters(record.version()).len() == record.version().len());
    lemma_first_zero_none(record.version());
    lemma_uuid_bytes(record.file_id().value);
    lemma_uuid_bytes(record.revision_id().value);
    if let RecordView::File(manifest) = record {
        lemma_chunks_read_back(manifest.chunks);
    }
    assert(read_record(record_envelope(record)) == Ok::<RecordView, ManifestProblem>(record));
}

/// A record has one plaintext: whatever bytes decode to it are its encoding.
pub proof fn law_record_encoding_is_canonical(bytes: Seq<u8>)
    requires
        decoded_record(bytes) is Ok,
    ensures
        encoded_record(decoded_record(bytes)->Ok_0) == Ok::<Seq<u8>, ManifestProblem>(bytes),
{
}

/// Two records with the same plaintext are the same record.
pub proof fn law_record_encoding_is_injective(left: RecordView, right: RecordView)
    requires
        left.wf(),
        right.wf(),
        encoded_record(left) is Ok,
        encoded_record(left) == encoded_record(right),
        forall|i: int|
            0 <= i < left.version().len() ==> (#[trigger] left.version()[i]).0.value != 0,
        forall|i: int|
            0 <= i < right.version().len() ==> (#[trigger] right.version()[i]).0.value != 0,
    ensures
        left == right,
{
    law_record_round_trips(left);
    law_record_round_trips(right);
}

/// What is decoded has a version that is not empty and a path and a version in canonical form.
pub proof fn law_decoded_record_is_well_formed(bytes: Seq<u8>)
    requires
        decoded_record(bytes) is Ok,
    ensures
        decoded_record(bytes)->Ok_0.version().len() > 0,
        version_wf(decoded_record(bytes)->Ok_0.version()),
        decoded_record(bytes)->Ok_0.file_id().value != 0,
        decoded_record(bytes)->Ok_0.revision_id().value != 0,
{
    let envelope = decoded::<ManifestEnvelope>(bytes)->0;
    let counters = match envelope.record->0 {
        ManifestRecordView::File(file) => file.version,
        ManifestRecordView::Tombstone(tombstone) => tombstone.version,
    };
    lemma_read_entries_sorted(counters);
    lemma_first_zero_positive(read_entries(counters)->Ok_0);
}

} // verus!
