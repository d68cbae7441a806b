//! The scan of the files of a device: what has changed since the last one.
use vstd::prelude::*;

use crate::catalog::{MemberStatus, StoreError};
use crate::content::{
    ChunkPayload, ChunkingConfig, ChunkingError, DEFAULT_AVERAGE_CHUNK_SIZE,
    DEFAULT_MAXIMUM_CHUNK_SIZE, DEFAULT_MINIMUM_CHUNK_SIZE,
};
use crate::crypto::{aead_limit, ed25519_signed};
use crate::envelope::{
    envelope_bytes, law_envelope_round_trips, parsed_envelope, EncryptedObject, EnvelopeError,
    ObjectKind,
};
use crate::history::{pending_keys, pending_list, signed_local_change_committed, LocalHead};
use crate::identity::{
    change_message, device_id_of, AuthorizationView, ChangeAuthorization, DeviceIdentity,
};
use crate::ids::{
    is_random_uuid, ContentId, DeviceId, FileId, GroupId, PathId, RevisionId,
};
use crate::keys::{CryptoError, GroupKeys, KeysView};
use crate::manifest::{ManifestError, ManifestProblem};
use crate::opening::{
    file_of, has_named_devices, is_sealed_record, open_record, opened_record, opens_to,
    seal_fresh_record, sealed_object, ObjectFiles, RecordError, RecordProblem, SealedRecord,
};
use crate::order::{ordered_ids, sorted};
use crate::outcome::agrees;
use crate::path::{PathError, PathForms, PathProblem, RelativePath};
use crate::placement::{milliseconds_at, unix_milliseconds, PlaceRefusal, Timestamp};
use crate::record::{
    same_chunks, ChangeRecord, ChangeRecordKind, ChunkRef, FileManifest, ManifestView, RecordView,
    Tombstone, TombstoneView,
};
use crate::store::{
    admission_verdict, after_load, after_look, file_bytes, is_present, loaded, member_at,
    with_object, Admission, Store, StoreView,
};
use crate::table::lookup;
use crate::version::{counter_of, is_incremented, VersionVector, VersionVectorError};

verus! {

pub const DEFAULT_MAXIMUM_READ_ATTEMPTS: usize = 3;

#[derive(Clone, Debug, PartialEq, Eq)]
pub enum ScanError {
    InvalidMaximumReadAttempts,
    Place(PlaceRefusal),
    PendingMaterializations { count: usize },
    InvalidPathComponent,
    NonUnicodePath,
    InvalidPortablePath(PathError),
    PathCollision { first: RelativePath, second: RelativePath },
    FileTypeChanged,
    FileChangedDuringRead { attempts: usize },
    TimestampOutOfRange,
    LocalHeadKindMismatch {
        path_id: PathId,
        expected: ChangeRecordKind,
        actual: ChangeRecordKind,
    },
    LocalHeadPathMismatch { path_id: PathId },
    Chunking(ChunkingError),
    Crypto(CryptoError),
    Envelope(EnvelopeError),
    Manifest(ManifestError),
    Version(VersionVectorError),
    Store(StoreError),
}

/// The contents of a `ScanError`.
pub enum ScanProblem {
    InvalidMaximumReadAttempts,
    Place(PlaceRefusal),
    PendingMaterializations { count: nat },
    InvalidPathComponent,
    NonUnicodePath,
    InvalidPortablePath(PathProblem),
    PathCollision { first: PathForms, second: PathForms },
    FileTypeChanged,
    FileChangedDuringRead { attempts: nat },
    TimestampOutOfRange,
    LocalHeadKindMismatch {
        path_id: PathId,
        expected: ChangeRecordKind,
        actual: ChangeRecordKind,
    },
    LocalHeadPathMismatch { path_id: PathId },
    Chunking(ChunkingError),
    Crypto(CryptoError),
    Envelope(EnvelopeError),
    Manifest(ManifestProblem),
    Version(VersionVectorError),
    Store(StoreError),
}

impl View for ScanError {
    type V = ScanProblem;

    open spec fn view(&self) -> ScanProblem {
        match *self {
            ScanError::InvalidMaximumReadAttempts => ScanProblem::InvalidMaximumReadAttempts,
            ScanError::Place(refusal) => ScanProblem::Place(refusal),
            ScanError::PendingMaterializations { count } => ScanProblem::PendingMaterializations {
                count: count as nat,
            },
            ScanError::InvalidPathComponent => ScanProblem::InvalidPathComponent,
            ScanError::NonUnicodePath => ScanProblem::NonUnicodePath,
            ScanError::InvalidPortablePath(error) => ScanProblem::InvalidPortablePath(error@),
            ScanError::PathCollision { first, second } => ScanProblem::PathCollision {
                first: first@,
                second: second@,
            },
            ScanError::FileTypeChanged => ScanProblem::FileTypeChanged,
            ScanError::FileChangedDuringRead { attempts } => ScanProblem::FileChangedDuringRead {
                attempts: attempts as nat,
            },
            ScanError::TimestampOutOfRange => ScanProblem::TimestampOutOfRange,
            ScanError::LocalHeadKindMismatch { path_id, expected, actual } =>
            ScanProblem::LocalHeadKindMismatch { path_id, expected, actual },
            ScanError::LocalHeadPathMismatch { path_id } => ScanProblem::LocalHeadPathMismatch {
                path_id,
            },
            ScanError::Chunking(error) => ScanProblem::Chunking(error),
            ScanError::Crypto(error) => ScanProblem::Crypto(error),
            ScanError::Envelope(error) => ScanProblem::Envelope(error),
            ScanError::Manifest(error) => ScanProblem::Manifest(error@),
            ScanError::Version(error) => ScanProblem::Version(error),
            ScanError::Store(error) => ScanProblem::Store(error),
        }
    }
}

/// What is wrong with a record, as what is wrong with a scan.
pub open spec fn record_trouble(problem: RecordProblem) -> ScanProblem {
    match problem {
        RecordProblem::Crypto(error) => ScanProblem::Crypto(error),
        RecordProblem::Envelope(error) => ScanProblem::Envelope(error),
        RecordProblem::Manifest(error) => ScanProblem::Manifest(error),
    }
}

/// The error of a scan that meets a record that cannot be sealed or opened.
pub fn scan_error(error: RecordError) -> (trouble: ScanError)
    ensures
        trouble@ == record_trouble(error@),
{
    match error {
        RecordError::Crypto(error) => ScanError::Crypto(error),
        RecordError::Envelope(error) => ScanError::Envelope(error),
        RecordError::Manifest(error) => ScanError::Manifest(error),
    }
}

/// How much a scan has found.
#[derive(Clone, Copy, Debug, Default, PartialEq, Eq, Structural)]
pub struct ScanReport {
    pub files_discovered: usize,
    pub file_changes: usize,
    pub files_unchanged: usize,
    pub tombstones_created: usize,
    pub chunks_stored: usize,
    pub chunks_reused: usize,
    pub plaintext_bytes: u64,
}

/// The sum of two numbers, or the largest number where it does not fit.
pub open spec fn saturated(left: int, right: int, maximum: int) -> int {
    if left + right > maximum {
        maximum
    } else {
        left + right
    }
}

/// The report with one more file.
pub open spec fn with_file(report: ScanReport, file: FileOutcome) -> ScanReport {
    ScanReport {
        plaintext_bytes: saturated(
            report.plaintext_bytes as int,
            file.plaintext_bytes as int,
            u64::MAX as int,
        ) as u64,
        chunks_stored: saturated(
            report.chunks_stored as int,
            file.chunks_stored as int,
            usize::MAX as int,
        ) as usize,
        chunks_reused: saturated(
            report.chunks_reused as int,
            file.chunks_reused as int,
            usize::MAX as int,
        ) as usize,
        file_changes: if file.changed {
            (report.file_changes + 1) as usize
        } else {
            report.file_changes
        },
        files_unchanged: if file.changed {
            report.files_unchanged
        } else {
            (report.files_unchanged + 1) as usize
        },
        ..report
    }
}

impl ScanReport {
    /// The number of changes that the scan committed.
    pub fn changes_committed(self) -> (count: usize)
        requires
            self.file_changes + self.tombstones_created <= usize::MAX,
        ensures
            count == self.file_changes + self.tombstones_created,
    {
        self.file_changes + self.tombstones_created
    }

    /// Counts a file.
    pub fn add_file(&mut self, file: FileOutcome)
        requires
            old(self).file_changes < usize::MAX,
            old(self).files_unchanged < usize::MAX,
        ensures
            *final(self) == with_file(*old(self), file),
    {
        self.plaintext_bytes = self.plaintext_bytes.saturating_add(file.plaintext_bytes);
        self.chunks_stored = self.chunks_stored.saturating_add(file.chunks_stored);
        self.chunks_reused = self.chunks_reused.saturating_add(file.chunks_reused);
        if file.changed {
            self.file_changes = self.file_changes + 1;
        } else {
            self.files_unchanged = self.files_unchanged + 1;
        }
    }

    /// Counts a tombstone.
    pub fn add_tombstone(&mut self)
        requires
            old(self).tombstones_created < usize::MAX,
        ensures
            *final(self) == (ScanReport {
                tombstones_created: (old(self).tombstones_created + 1) as usize,
                ..*old(self)
            }),
    {
        self.tombstones_created = self.tombstones_created + 1;
    }
}

/// What became of a file.
#[derive(Clone, Copy, Debug, PartialEq, Eq, Structural)]
pub struct FileOutcome {
    pub changed: bool,
    pub plaintext_bytes: u64,
    pub chunks_stored: usize,
    pub chunks_reused: usize,
}

/// The length of a file and when it was last changed.
#[derive(Clone, Copy, Debug, PartialEq, Eq, Structural)]
pub struct FileSnapshot {
    pub length: u64,
    pub modified_at: Timestamp,
}

/// A file that was read while it did not change.
#[derive(Debug)]
pub struct IngestedFile {
    pub plaintext_bytes: u64,
    pub modified_at_unix_ms: i64,
    pub chunks: Vec<ChunkRef>,
    pub chunks_stored: usize,
    pub chunks_reused: usize,
}

/// The contents of an `IngestedFile`.
pub struct IngestedView {
    pub plaintext_bytes: u64,
    pub modified_at_unix_ms: i64,
    pub chunks: Seq<ChunkRef>,
    pub chunks_stored: usize,
    pub chunks_reused: usize,
}

impl View for IngestedFile {
    type V = IngestedView;

    open spec fn view(&self) -> IngestedView {
        IngestedView {
            plaintext_bytes: self.plaintext_bytes,
            modified_at_unix_ms: self.modified_at_unix_ms,
            chunks: self.chunks@,
            chunks_stored: self.chunks_stored,
            chunks_reused: self.chunks_reused,
        }
    }
}

/// How far the reading of a file has come.
#[derive(Debug)]
pub struct Reading {
    pub attempts: usize,
    pub chunks: Vec<ChunkRef>,
    pub chunks_stored: usize,
    pub chunks_reused: usize,
}

/// The contents of a `Reading`.
pub struct ReadingView {
    pub attempts: nat,
    pub chunks: Seq<ChunkRef>,
    pub chunks_stored: nat,
    pub chunks_reused: nat,
}

impl View for Reading {
    type V = ReadingView;

    open spec fn view(&self) -> ReadingView {
        ReadingView {
            attempts: self.attempts as nat,
            chunks: self.chunks@,
            chunks_stored: self.chunks_stored as nat,
            chunks_reused: self.chunks_reused as nat,
        }
    }
}

/// Reads the files of a device.
#[derive(Clone, Copy, Debug, PartialEq, Eq)]
pub struct FullScanner {
    pub chunking: ChunkingConfig,
    pub maximum_read_attempts: usize,
}

impl Default for FullScanner {
    fn default() -> (scanner: Self)
        ensures
            scanner.maximum_read_attempts == DEFAULT_MAXIMUM_READ_ATTEMPTS,
            scanner.chunking.minimum() == DEFAULT_MINIMUM_CHUNK_SIZE,
            scanner.chunking.average() == DEFAULT_AVERAGE_CHUNK_SIZE,
            scanner.chunking.maximum() == DEFAULT_MAXIMUM_CHUNK_SIZE,
    {
        FullScanner {
            chunking: ChunkingConfig::default(),
            maximum_read_attempts: DEFAULT_MAXIMUM_READ_ATTEMPTS,
        }
    }
}

/// Why a scan cannot start, if it cannot: only an active member scans, and only while nothing is
/// being brought to a path.
pub open spec fn scan_problem(store: StoreView, group_id: GroupId, device_id: DeviceId) -> Option<
    ScanProblem,
> {
    match member_at(store, group_id, device_id) {
        Err(error) => Some(ScanProblem::Store(error)),
        Ok(None) => Some(ScanProblem::Store(StoreError::UnknownGroupMember { device_id })),
        Ok(Some(member)) => if member.status != MemberStatus::Active {
            Some(ScanProblem::Store(StoreError::MemberRevoked { device_id }))
        } else {
            match pending_list(store, group_id, sorted(pending_keys(store.pending, group_id))) {
                Err(error) => Some(ScanProblem::Store(error)),
                Ok(list) => if list.len() > 0 {
                    Some(ScanProblem::PendingMaterializations { count: list.len() })
                } else {
                    None
                },
            }
        },
    }
}

/// What becomes of one chunk of a file.
pub enum ChunkFate {
    /// The object is there.
    Reused,
    /// The object is stored in the given form.
    Stored(Seq<u8>),
}

/// What becomes of a chunk that is sealed under a nonce, and the store with it: `file` is what the
/// file of the object holds.
pub open spec fn sealed_chunk_admitted(
    store: StoreView,
    keys: KeysView,
    content_id: ContentId,
    plaintext: Seq<u8>,
    file: Option<Seq<u8>>,
    nonce: Seq<u8>,
    now: i64,
) -> (StoreView, Result<ChunkFate, ScanProblem>) {
    if plaintext.len() + 88 > usize::MAX {
        (store, Err(ScanProblem::Envelope(EnvelopeError::CiphertextLengthOverflow)))
    } else {
        let bytes = envelope_bytes(sealed_object(keys, ObjectKind::Chunk, nonce, plaintext));
        match admission_verdict(keys, ObjectKind::Chunk, content_id, bytes, file) {
            Err(error) => (store, Err(ScanProblem::Store(error))),
            Ok(admission) => (
                with_object(store, keys, ObjectKind::Chunk, content_id, bytes, file, now),
                Ok(
                    match admission {
                        Admission::Stored => ChunkFate::Stored(bytes),
                        Admission::AlreadyPresent => ChunkFate::Reused,
                    },
                ),
            ),
        }
    }
}

/// The stored form of a chunk opens to the given plaintext.
pub open spec fn chunk_opens_to(
    keys: KeysView,
    content_id: ContentId,
    bytes: Seq<u8>,
    plaintext: Seq<u8>,
) -> bool {
    &&& parsed_envelope(bytes) matches Ok(object)
    &&& keys.opened(ObjectKind::Chunk, content_id, object) == Ok::<Seq<u8>, CryptoError>(plaintext)
}

/// What becomes of one chunk of a file, and the store with it: `file` is what the file of the
/// object holds.
pub open spec fn chunk_ingested(
    store: StoreView,
    keys: KeysView,
    content_id: ContentId,
    plaintext: Seq<u8>,
    file: Option<Seq<u8>>,
    nonce: Seq<u8>,
    now: i64,
) -> (StoreView, Result<ChunkFate, ScanProblem>) {
    let looked = after_look(store, keys.group_id, content_id, file is Some);
    if is_present(store, keys.group_id, content_id, file is Some) {
        (looked, Ok(ChunkFate::Reused))
    } else if plaintext.len() >= aead_limit() {
        (looked, Err(ScanProblem::Crypto(CryptoError::Encryption)))
    } else {
        sealed_chunk_admitted(looked, keys, content_id, plaintext, file, nonce, now)
    }
}

/// A reading takes in a chunk as its fate says; a chunk that meets a problem changes nothing.
pub open spec fn is_chunk_taken(
    before: ReadingView,
    after: ReadingView,
    content_id: ContentId,
    size: nat,
    result: Result<Option<Vec<u8>>, ScanError>,
    outcome: Result<ChunkFate, ScanProblem>,
) -> bool {
    match outcome {
        Err(problem) => {
            &&& result matches Err(error)
            &&& error@ == problem
            &&& after == before
        },
        Ok(fate) => {
            &&& result matches Ok(stored)
            &&& match fate {
                ChunkFate::Stored(bytes) => stored is Some && stored->0@ == bytes,
                ChunkFate::Reused => stored is None,
            }
            &&& after == with_chunk(before, content_id, size, fate)
        },
    }
}

/// The reading with one more chunk.
pub open spec fn with_chunk(
    reading: ReadingView,
    content_id: ContentId,
    size: nat,
    fate: ChunkFate,
) -> ReadingView {
    ReadingView {
        chunks: reading.chunks.push(ChunkRef { content_id, plaintext_size: size as u32 }),
        chunks_stored: match fate {
            ChunkFate::Stored(_) => reading.chunks_stored + 1,
            ChunkFate::Reused => reading.chunks_stored,
        },
        chunks_reused: match fate {
            ChunkFate::Stored(_) => reading.chunks_reused,
            ChunkFate::Reused => reading.chunks_reused + 1,
        },
        ..reading
    }
}

/// What an attempt to read a file comes to.
pub enum AttemptView {
    Stable(IngestedView),
    Again,
}

/// What an attempt to read a file comes to: the file was read where it was the same before, after
/// and at its path, and is read again otherwise, as often as allowed.
pub open spec fn attempt_judged(
    maximum_attempts: nat,
    reading: ReadingView,
    before: FileSnapshot,
    after_handle: FileSnapshot,
    after_path: Option<FileSnapshot>,
) -> Result<AttemptView, ScanProblem> {
    if before == after_handle && after_path == Some(before) {
        match milliseconds_at(before.modified_at) {
            None => Err(ScanProblem::TimestampOutOfRange),
            Some(milliseconds) => Ok(
                AttemptView::Stable(
                    IngestedView {
                        plaintext_bytes: before.length,
                        modified_at_unix_ms: milliseconds,
                        chunks: reading.chunks,
                        chunks_stored: reading.chunks_stored as usize,
                        chunks_reused: reading.chunks_reused as usize,
                    },
                ),
            ),
        }
    } else if reading.attempts >= maximum_attempts {
        Err(ScanProblem::FileChangedDuringRead { attempts: maximum_attempts })
    } else {
        Ok(AttemptView::Again)
    }
}

impl Reading {
    /// The reading of a file, before the first attempt.
    pub fn new() -> (reading: Self)
        ensures
            reading@ == (ReadingView {
                attempts: 0,
                chunks: seq![],
                chunks_stored: 0,
                chunks_reused: 0,
            }),
    {
        Reading { attempts: 0, chunks: Vec::new(), chunks_stored: 0, chunks_reused: 0 }
    }

    /// Starts the next attempt, which reads the chunks anew.
    pub fn next_attempt(&mut self)
        requires
            old(self).attempts < usize::MAX,
        ensures
            final(self)@ == (ReadingView {
                attempts: old(self)@.attempts + 1,
                chunks: seq![],
                ..old(self)@
            }),
    {
        self.attempts = self.attempts + 1;
        self.chunks = Vec::new();
    }

    /// Takes in one chunk of the file, sealed under a fresh nonce where it is new: gives what is to
    /// be stored. `file` is what the file of the object holds.
    pub fn ingest_chunk(
        &mut self,
        payload: &ChunkPayload,
        keys: &GroupKeys,
        store: &mut Store,
        file: Option<&[u8]>,
        now: i64,
    ) -> (result: Result<Option<Vec<u8>>, ScanError>)
        requires
            old(self).chunks_stored < usize::MAX,
            old(self).chunks_reused < usize::MAX,
        ensures
            ({
                &&& !is_present(old(store)@, keys@.group_id, payload.id(), file is Some)
                &&& result matches Err(error)
                &&& error@ == ScanProblem::Crypto(CryptoError::Randomness)
                &&& final(self)@ == old(self)@
                &&& final(store)@ == after_look(
                    old(store)@,
                    keys@.group_id,
                    payload.id(),
                    file is Some,
                )
            }) || exists|nonce: Seq<u8>|
                {
                    let (after, outcome) = #[trigger] chunk_ingested(
                        old(store)@,
                        keys@,
                        payload.id(),
                        payload@,
                        file_bytes(file),
                        nonce,
                        now,
                    );
                    &&& nonce.len() == 24
                    &&& final(store)@ == after
                    &&& is_chunk_taken(
                        old(self)@,
                        final(self)@,
                        payload.id(),
                        payload@.len(),
                        result,
                        outcome,
                    )
                },
            result matches Ok(Some(bytes)) ==> chunk_opens_to(
                keys@,
                payload.id(),
                bytes@,
                payload@,
            ),
    {
        if store.has_object(keys.group_id(), payload.content_id(), file.is_some()) {
            self.reuse(payload.descriptor().chunk_ref());
            proof {
                let nonce: Seq<u8> = Seq::new(24, |i: int| 0u8);
                assert(chunk_ingested(
                    old(store)@,
                    keys@,
                    payload.id(),
                    payload@,
                    file_bytes(file),
                    nonce,
                    now,
                ).1 == Ok::<ChunkFate, ScanProblem>(ChunkFate::Reused));
                assert(nonce.len() == 24);
            }
            return Ok(None);
        }
        match keys.seal_chunk(payload.data()) {
            Ok(object) => {
                let ghost nonce = object@.nonce;
                let result = self.admit_chunk(payload, object, keys, store, file, now);
                assert(store@ == chunk_ingested(
                    old(store)@,
                    keys@,
                    payload.id(),
                    payload@,
                    file_bytes(file),
                    nonce,
                    now,
                ).0);
                result
            },
            Err(CryptoError::Randomness) => Err(ScanError::Crypto(CryptoError::Randomness)),
            Err(error) => {
                proof {
                    let nonce: Seq<u8> = Seq::new(24, |i: int| 0u8);
                    assert(chunk_ingested(
                        old(store)@,
                        keys@,
                        payload.id(),
                        payload@,
                        file_bytes(file),
                        nonce,
                        now,
                    ).1 == Err::<ChunkFate, ScanProblem>(ScanProblem::Crypto(error)));
                    assert(nonce.len() == 24);
                }
                Err(ScanError::Crypto(error))
            },
        }
    }

    /// Takes in one chunk of the file, sealed under a nonce where it is new: gives what is to be
    /// stored. `file` is what the file of the object holds.
    pub fn ingest_chunk_with(
        &mut self,
        payload: &ChunkPayload,
        keys: &GroupKeys,
        store: &mut Store,
        file: Option<&[u8]>,
        nonce: [u8; 24],
        now: i64,
    ) -> (result: Result<Option<Vec<u8>>, ScanError>)
        requires
            old(self).chunks_stored < usize::MAX,
            old(self).chunks_reused < usize::MAX,
        ensures
            ({
                let (after, outcome) = chunk_ingested(
                    old(store)@,
                    keys@,
                    payload.id(),
                    payload@,
                    file_bytes(file),
                    nonce@,
                    now,
                );
                &&& final(store)@ == after
                &&& is_chunk_taken(
                    old(self)@,
                    final(self)@,
                    payload.id(),
                    payload@.len(),
                    result,
                    outcome,
                )
            }),
            result matches Ok(Some(bytes)) ==> chunk_opens_to(
                keys@,
                payload.id(),
                bytes@,
                payload@,
            ),
    {
        if store.has_object(keys.group_id(), payload.content_id(), file.is_some()) {
            self.reuse(payload.descriptor().chunk_ref());
            return Ok(None);
        }
        match keys.seal_with_nonce(
            ObjectKind::Chunk,
            keys.identify_chunk(payload.data()),
            nonce,
            payload.data(),
        ) {
            Ok(object) => self.admit_chunk(payload, object, keys, store, file, now),
            Err(error) => Err(ScanError::Crypto(error)),
        }
    }

    fn reuse(&mut self, chunk: ChunkRef)
        requires
            old(self).chunks_reused < usize::MAX,
        ensures
            final(self)@ == with_chunk(
                old(self)@,
                chunk.content_id,
                chunk.plaintext_size as nat,
                ChunkFate::Reused,
            ),
    {
        self.chunks_reused = self.chunks_reused + 1;
        self.chunks.push(chunk);
    }

    fn admit_chunk(
        &mut self,
        payload: &ChunkPayload,
        object: EncryptedObject,
        keys: &GroupKeys,
        store: &mut Store,
        file: Option<&[u8]>,
        now: i64,
    ) -> (result: Result<Option<Vec<u8>>, ScanError>)
        requires
            old(self).chunks_stored < usize::MAX,
            old(self).chunks_reused < usize::MAX,
            object@ == sealed_object(keys@, ObjectKind::Chunk, object@.nonce, payload@),
            object@.ciphertext.len() == payload@.len() + 16,
            object@.nonce.len() == 24,
            keys@.opened(ObjectKind::Chunk, object@.content_id, object@) == Ok::<
                Seq<u8>,
                CryptoError,
            >(payload@),
        ensures
            result matches Ok(Some(bytes)) ==> chunk_opens_to(
                keys@,
                payload.id(),
                bytes@,
                payload@,
            ),
            ({
                let (after, outcome) = sealed_chunk_admitted(
                    old(store)@,
                    keys@,
                    payload.id(),
                    payload@,
                    file_bytes(file),
                    object@.nonce,
                    now,
                );
                &&& final(store)@ == after
                &&& is_chunk_taken(
                    old(self)@,
                    final(self)@,
                    payload.id(),
                    payload@.len(),
                    result,
                    outcome,
                )
            }),
    {
        let bytes: Vec<u8> = match object.to_bytes() {
            Ok(bytes) => bytes,
            Err(error) => {
                return Err(ScanError::Envelope(error));
            },
        };
        proof {
            law_envelope_round_trips(object@);
        }
        match store.admit_object(
            keys,
            ObjectKind::Chunk,
            payload.content_id(),
            bytes.as_slice(),
            file,
            now,
        ) {
            Ok(Admission::Stored) => {
                self.chunks_stored = self.chunks_stored + 1;
                self.chunks.push(payload.descriptor().chunk_ref());
                Ok(Some(bytes))
            },
            Ok(Admission::AlreadyPresent) => {
                self.reuse(payload.descriptor().chunk_ref());
                Ok(None)
            },
            Err(error) => Err(ScanError::Store(error)),
        }
    }
}

/// What an attempt to read a file comes to.
#[derive(Debug)]
pub enum Attempt {
    Stable(IngestedFile),
    Again(Reading),
}

impl FullScanner {
    pub fn new(chunking: ChunkingConfig, maximum_read_attempts: usize) -> (result: Result<
        Self,
        ScanError,
    >)
        ensures
            match result {
                Ok(scanner) => maximum_read_attempts > 0 && scanner == (FullScanner {
                    chunking,
                    maximum_read_attempts,
                }),
                Err(error) => maximum_read_attempts == 0 && error@
                    == ScanProblem::InvalidMaximumReadAttempts,
            },
    {
        if maximum_read_attempts == 0 {
            return Err(ScanError::InvalidMaximumReadAttempts);
        }
        Ok(FullScanner { chunking, maximum_read_attempts })
    }

    /// Checks that the device may scan: only an active member scans, and only while nothing is
    /// being brought to a path.
    pub fn begin_scan(&self, identity: &DeviceIdentity, keys: &GroupKeys, store: &Store) -> (result:
        Result<(), ScanError>)
        ensures
            match result {
                Ok(_) => scan_problem(
                    store@,
                    keys@.group_id,
                    device_id_of(identity.key()),
                ) is None,
                Err(error) => scan_problem(
                    store@,
                    keys@.group_id,
                    device_id_of(identity.key()),
                ) == Some(error@),
            },
    {
        let device_id: DeviceId = identity.device_id();
        match store.group_member(keys.group_id(), device_id) {
            Err(error) => {
                return Err(ScanError::Store(error));
            },
            Ok(None) => {
                return Err(ScanError::Store(StoreError::UnknownGroupMember { device_id }));
            },
            Ok(Some(member)) => {
                if member.status != MemberStatus::Active {
                    return Err(ScanError::Store(StoreError::MemberRevoked { device_id }));
                }
            },
        }
        match store.pending_materializations(keys.group_id()) {
            Err(error) => Err(ScanError::Store(error)),
            Ok(list) => {
                if list.len() > 0 {
                    return Err(ScanError::PendingMaterializations { count: list.len() });
                }
                Ok(())
            },
        }
    }

    /// Judges an attempt to read a file by what the file was before it, what it was after it and
    /// what is at its path then.
    pub fn judge_attempt(
        &self,
        reading: Reading,
        before: FileSnapshot,
        after_handle: FileSnapshot,
        after_path: Option<FileSnapshot>,
    ) -> (result: Result<Attempt, ScanError>)
        ensures
            match result {
                Err(error) => attempt_judged(
                    self.maximum_read_attempts as nat,
                    reading@,
                    before,
                    after_handle,
                    after_path,
                ) == Err::<AttemptView, ScanProblem>(error@),
                Ok(Attempt::Stable(file)) => attempt_judged(
                    self.maximum_read_attempts as nat,
                    reading@,
                    before,
                    after_handle,
                    after_path,
                ) == Ok::<AttemptView, ScanProblem>(AttemptView::Stable(file@)),
                Ok(Attempt::Again(next)) => next@ == reading@ && attempt_judged(
                    self.maximum_read_attempts as nat,
                    reading@,
                    before,
                    after_handle,
                    after_path,
                ) == Ok::<AttemptView, ScanProblem>(AttemptView::Again),
            },
    {
        let at_path: bool = match after_path {
            Some(snapshot) => snapshot == before,
            None => false,
        };
        if before == after_handle && at_path {
            return match unix_milliseconds(before.modified_at) {
                Some(milliseconds) => Ok(
                    Attempt::Stable(
                        IngestedFile {
                            plaintext_bytes: before.length,
                            modified_at_unix_ms: milliseconds,
                            chunks: reading.chunks,
                            chunks_stored: reading.chunks_stored,
                            chunks_reused: reading.chunks_reused,
                        },
                    ),
                ),
                None => Err(ScanError::TimestampOutOfRange),
            };
        }
        if reading.attempts >= self.maximum_read_attempts {
            return Err(
                ScanError::FileChangedDuringRead { attempts: self.maximum_read_attempts },
            );
        }
        Ok(Attempt::Again(reading))
    }
}

/// The record of a head, as a scan loads it, and the store after it was loaded.
pub open spec fn local_record(
    store: StoreView,
    keys: KeysView,
    files: Seq<(ContentId, Seq<u8>)>,
    head: LocalHead,
) -> (StoreView, Result<RecordView, ScanProblem>) {
    let file = lookup(files, head.content_id);
    (
        after_load(store, keys, ObjectKind::Manifest, head.content_id, file),
        match loaded(store, keys, ObjectKind::Manifest, head.content_id, file) {
            Err(error) => Err(ScanProblem::Store(error)),
            Ok(bytes) => match opened_record(keys, head.content_id, bytes) {
                Err(problem) => Err(record_trouble(problem)),
                Ok(record) => if record.kind() != head.kind {
                    Err(
                        ScanProblem::LocalHeadKindMismatch {
                            path_id: head.path_id,
                            expected: head.kind,
                            actual: record.kind(),
                        },
                    )
                } else if keys.path_id(record.path().comparison_key) != head.path_id {
                    Err(ScanProblem::LocalHeadPathMismatch { path_id: head.path_id })
                } else {
                    Ok(record)
                },
            },
        },
    )
}

/// Loads the record of a head. `files` holds the file of its manifest.
pub fn load_local_record(
    head: LocalHead,
    keys: &GroupKeys,
    store: &mut Store,
    files: &ObjectFiles,
) -> (result: Result<ChangeRecord, ScanError>)
    ensures
        final(store)@ == local_record(old(store)@, keys@, files@, head).0,
        agrees(result, local_record(old(store)@, keys@, files@, head).1),
{
    let encrypted_bytes: Vec<u8> = match store.load_object(
        keys,
        ObjectKind::Manifest,
        head.content_id,
        file_of(files, head.content_id),
    ) {
        Ok(bytes) => bytes,
        Err(error) => {
            return Err(ScanError::Store(error));
        },
    };
    let record: ChangeRecord = match open_record(
        keys,
        head.content_id,
        encrypted_bytes.as_slice(),
    ) {
        Ok(record) => record,
        Err(error) => {
            return Err(scan_error(error));
        },
    };
    if record.kind() != head.kind {
        return Err(
            ScanError::LocalHeadKindMismatch {
                path_id: head.path_id,
                expected: head.kind,
                actual: record.kind(),
            },
        );
    }
    if keys.identify_path(record.relative_path()) != head.path_id {
        return Err(ScanError::LocalHeadPathMismatch { path_id: head.path_id });
    }
    Ok(record)
}

/// A file is as its record says.
pub open spec fn is_unchanged(previous: RecordView, path: PathForms, file: IngestedView) -> bool {
    match previous {
        RecordView::File(manifest) => {
            &&& manifest.path == path
            &&& manifest.size == file.plaintext_bytes
            &&& manifest.modified_at_unix_ms == file.modified_at_unix_ms
            &&& manifest.chunks == file.chunks
        },
        RecordView::Tombstone(_) => false,
    }
}

/// `record` is the revision of a file that follows on `previous`: the same file with what was
/// read, one change further on this device.
pub open spec fn is_next_revision(
    previous: Option<RecordView>,
    path: PathForms,
    file: IngestedView,
    device_id: DeviceId,
    new_file_id: FileId,
    revision_id: RevisionId,
    record: ManifestView,
) -> bool {
    &&& record.file_id == match previous {
        Some(previous) => previous.file_id(),
        None => new_file_id,
    }
    &&& record.revision_id == revision_id
    &&& record.path == path
    &&& record.size == file.plaintext_bytes
    &&& record.modified_at_unix_ms == file.modified_at_unix_ms
    &&& record.chunks == file.chunks
    &&& is_incremented(version_before(previous), record.version, device_id)
}

/// The version of a record, empty where there is none.
pub open spec fn version_before(previous: Option<RecordView>) -> Seq<(DeviceId, u64)> {
    match previous {
        Some(previous) => previous.version(),
        None => seq![],
    }
}

fn is_as_recorded(
    previous: Option<&ChangeRecord>,
    relative_path: &RelativePath,
    file: &IngestedFile,
) -> (same: bool)
    ensures
        same == (previous is Some && is_unchanged(previous->0@, relative_path@, file@)),
{
    match previous {
        Some(ChangeRecord::File(manifest)) => {
            manifest.relative_path.same(relative_path) && manifest.size == file.plaintext_bytes
                && manifest.modified_at_unix_ms == file.modified_at_unix_ms && same_chunks(
                &manifest.chunks,
                &file.chunks,
            )
        },
        _ => false,
    }
}

fn next_version(previous: Option<&ChangeRecord>, device_id: DeviceId) -> (result: Result<
    VersionVector,
    ScanError,
>)
    ensures
        ({
            let before = version_before(
                match previous {
                    Some(record) => Some(record@),
                    None => None,
                },
            );
            match result {
                Ok(version) => counter_of(before, device_id) != u64::MAX && is_incremented(
                    before,
                    version@,
                    device_id,
                ),
                Err(error) => counter_of(before, device_id) == u64::MAX && error@
                    == ScanProblem::Version(VersionVectorError::CounterOverflow { device_id }),
            }
        }),
{
    let mut version: VersionVector = match previous {
        Some(record) => record.version().clone(),
        None => VersionVector::default(),
    };
    match version.increment(device_id) {
        Ok(_) => Ok(version),
        Err(error) => Err(ScanError::Version(error)),
    }
}

/// The record of a file that was read, none where it is unchanged. The identifiers are those that
/// a new file and a new revision get.
pub fn next_file_record(
    previous: Option<&ChangeRecord>,
    relative_path: &RelativePath,
    file: IngestedFile,
    device_id: DeviceId,
    new_file_id: FileId,
    revision_id: RevisionId,
) -> (result: Result<Option<ChangeRecord>, ScanError>)
    ensures
        ({
            let before = match previous {
                Some(record) => Some(record@),
                None => None,
            };
            let unchanged = before is Some && is_unchanged(before->0, relative_path@, file@);
            let full = counter_of(version_before(before), device_id) == u64::MAX;
            match result {
                Ok(None) => unchanged,
                Ok(Some(record)) => {
                    &&& !unchanged
                    &&& !full
                    &&& record@ matches RecordView::File(manifest)
                    &&& is_next_revision(
                        before,
                        relative_path@,
                        file@,
                        device_id,
                        new_file_id,
                        revision_id,
                        manifest,
                    )
                },
                Err(error) => {
                    &&& !unchanged
                    &&& full
                    &&& error@ == ScanProblem::Version(
                        VersionVectorError::CounterOverflow { device_id },
                    )
                },
            }
        }),
{
    if is_as_recorded(previous, relative_path, &file) {
        return Ok(None);
    }
    let version: VersionVector = next_version(previous, device_id)?;
    let file_id: FileId = match previous {
        Some(record) => record.file_id(),
        None => new_file_id,
    };
    Ok(
        Some(
            ChangeRecord::File(
                FileManifest {
                    file_id,
                    revision_id,
                    relative_path: relative_path.clone(),
                    size: file.plaintext_bytes,
                    modified_at_unix_ms: file.modified_at_unix_ms,
                    version,
                    chunks: file.chunks,
                },
            ),
        ),
    )
}

/// `tombstone` says that the file of a manifest was found gone, one change further on this device.
pub open spec fn is_tombstone_of(
    manifest: ManifestView,
    device_id: DeviceId,
    revision_id: RevisionId,
    now: Timestamp,
    tombstone: TombstoneView,
) -> bool {
    &&& tombstone.file_id == manifest.file_id
    &&& tombstone.revision_id == revision_id
    &&& tombstone.path == manifest.path
    &&& Some(tombstone.deleted_at_unix_ms) == milliseconds_at(now)
    &&& is_incremented(manifest.version, tombstone.version, device_id)
}

/// What the tombstone of a file that is gone holds besides the identifier of its revision.
struct Burial {
    manifest: FileManifest,
    deleted_at_unix_ms: i64,
    version: VersionVector,
}

fn prepare_burial(
    head: LocalHead,
    previous: &ChangeRecord,
    device_id: DeviceId,
    now: Timestamp,
) -> (result: Result<Burial, ScanError>)
    ensures
        match previous@ {
            RecordView::Tombstone(_) => result matches Err(error) && error@
                == (ScanProblem::LocalHeadKindMismatch {
                path_id: head.path_id,
                expected: ChangeRecordKind::File,
                actual: ChangeRecordKind::Tombstone,
            }),
            RecordView::File(manifest) => if counter_of(manifest.version, device_id) == u64::MAX {
                result matches Err(error) && error@ == ScanProblem::Version(
                    VersionVectorError::CounterOverflow { device_id },
                )
            } else if milliseconds_at(now) is None {
                result matches Err(error) && error@ == ScanProblem::TimestampOutOfRange
            } else {
                &&& result matches Ok(burial)
                &&& burial.manifest@ == manifest
                &&& Some(burial.deleted_at_unix_ms) == milliseconds_at(now)
                &&& is_incremented(manifest.version, burial.version@, device_id)
            },
        },
{
    match previous {
        ChangeRecord::Tombstone(_) => Err(
            ScanError::LocalHeadKindMismatch {
                path_id: head.path_id,
                expected: ChangeRecordKind::File,
                actual: ChangeRecordKind::Tombstone,
            },
        ),
        ChangeRecord::File(manifest) => {
            let mut version: VersionVector = manifest.version.clone();
            if let Err(error) = version.increment(device_id) {
                return Err(ScanError::Version(error));
            }
            match unix_milliseconds(now) {
                Some(deleted_at_unix_ms) => Ok(
                    Burial { manifest: manifest.clone(), deleted_at_unix_ms, version },
                ),
                None => Err(ScanError::TimestampOutOfRange),
            }
        },
    }
}

impl Burial {
    fn tombstone(self, revision_id: RevisionId) -> (record: ChangeRecord)
        ensures
            record@ == RecordView::Tombstone(
                TombstoneView {
                    file_id: self.manifest@.file_id,
                    revision_id,
                    path: self.manifest@.path,
                    deleted_at_unix_ms: self.deleted_at_unix_ms,
                    version: self.version@,
                },
            ),
    {
        ChangeRecord::Tombstone(
            Tombstone {
                file_id: self.manifest.file_id,
                revision_id,
                relative_path: self.manifest.relative_path,
                deleted_at_unix_ms: self.deleted_at_unix_ms,
                version: self.version,
            },
        )
    }
}

/// The tombstone of a file that is gone, with the identifier of its revision and when it was
/// found gone.
pub fn next_tombstone(
    head: LocalHead,
    previous: &ChangeRecord,
    device_id: DeviceId,
    revision_id: RevisionId,
    now: Timestamp,
) -> (result: Result<ChangeRecord, ScanError>)
    ensures
        match previous@ {
            RecordView::Tombstone(_) => result matches Err(error) && error@
                == (ScanProblem::LocalHeadKindMismatch {
                path_id: head.path_id,
                expected: ChangeRecordKind::File,
                actual: ChangeRecordKind::Tombstone,
            }),
            RecordView::File(manifest) => if counter_of(manifest.version, device_id) == u64::MAX {
                result matches Err(error) && error@ == ScanProblem::Version(
                    VersionVectorError::CounterOverflow { device_id },
                )
            } else if milliseconds_at(now) is None {
                result matches Err(error) && error@ == ScanProblem::TimestampOutOfRange
            } else {
                &&& result matches Ok(record)
                &&& record@ matches RecordView::Tombstone(tombstone)
                &&& is_tombstone_of(manifest, device_id, revision_id, now, tombstone)
            },
        },
{
    match prepare_burial(head, previous, device_id, now) {
        Ok(burial) => Ok(burial.tombstone(revision_id)),
        Err(error) => Err(error),
    }
}

/// `manifest` is the revision of a file that follows on `previous`, with fresh identifiers.
pub open spec fn is_fresh_revision(
    previous: Option<RecordView>,
    path: PathForms,
    file: IngestedView,
    device_id: DeviceId,
    manifest: ManifestView,
) -> bool {
    exists|new_file_id: FileId, revision_id: RevisionId|
        is_random_uuid(new_file_id.value) && is_random_uuid(revision_id.value)
            && #[trigger] is_next_revision(
            previous,
            path,
            file,
            device_id,
            new_file_id,
            revision_id,
            manifest,
        )
}

/// `tombstone` says that the file of a manifest was found gone, under a fresh identifier.
pub open spec fn is_fresh_tombstone(
    manifest: ManifestView,
    device_id: DeviceId,
    now: Timestamp,
    tombstone: TombstoneView,
) -> bool {
    exists|revision_id: RevisionId|
        is_random_uuid(revision_id.value) && #[trigger] is_tombstone_of(
            manifest,
            device_id,
            revision_id,
            now,
            tombstone,
        )
}

/// `result` is a record in plain and in sealed form, or why it could not be sealed.
pub open spec fn is_drawn_up(
    keys: KeysView,
    record: RecordView,
    result: Result<(ChangeRecord, SealedRecord), ScanError>,
) -> bool {
    match result {
        Ok((plain, sealed)) => {
            &&& plain@ == record
            &&& is_sealed_record(keys, record, Ok(sealed@))
            &&& has_named_devices(record) ==> opens_to(keys, sealed@, record)
        },
        Err(error) => exists|problem: RecordProblem|
            error@ == #[trigger] record_trouble(problem) && is_sealed_record(
                keys,
                record,
                Err(problem),
            ),
    }
}

fn draw_up(keys: &GroupKeys, record: ChangeRecord) -> (result: Result<
    (ChangeRecord, SealedRecord),
    ScanError,
>)
    ensures
        is_drawn_up(keys@, record@, result),
{
    match seal_fresh_record(keys, &record) {
        Ok(sealed) => Ok((record, sealed)),
        Err(error) => {
            let ghost problem = error@;
            assert(is_sealed_record(keys@, record@, Err(problem)));
            Err(scan_error(error))
        },
    }
}

/// What comes of drawing up the record of a file that was read: none where the file is unchanged.
pub open spec fn is_revised(
    keys: KeysView,
    before: Option<RecordView>,
    path: PathForms,
    file: IngestedView,
    device_id: DeviceId,
    result: Result<Option<(ChangeRecord, SealedRecord)>, ScanError>,
) -> bool {
    if before is Some && is_unchanged(before->0, path, file) {
        result matches Ok(drawn) && drawn is None
    } else if counter_of(version_before(before), device_id) == u64::MAX {
        result matches Err(error) && error@ == ScanProblem::Version(
            VersionVectorError::CounterOverflow { device_id },
        )
    } else {
        exists|manifest: ManifestView|
            #[trigger] is_fresh_revision(before, path, file, device_id, manifest) && match result {
                Ok(drawn) => drawn is Some && is_drawn_up(
                    keys,
                    RecordView::File(manifest),
                    Ok(drawn->0),
                ),
                Err(error) => is_drawn_up(keys, RecordView::File(manifest), Err(error)),
            }
    }
}

fn fresh_file_record(
    previous: Option<&ChangeRecord>,
    relative_path: &RelativePath,
    file: IngestedFile,
    device_id: DeviceId,
) -> (result: Result<Option<ChangeRecord>, ScanError>)
    ensures
        ({
            let before = match previous {
                Some(record) => Some(record@),
                None => None,
            };
            if before is Some && is_unchanged(before->0, relative_path@, file@) {
                result matches Ok(record) && record is None
            } else if counter_of(version_before(before), device_id) == u64::MAX {
                result matches Err(error) && error@ == ScanProblem::Version(
                    VersionVectorError::CounterOverflow { device_id },
                )
            } else {
                &&& result matches Ok(record)
                &&& record is Some
                &&& record->0@ is File
                &&& is_fresh_revision(
                    before,
                    relative_path@,
                    file@,
                    device_id,
                    record->0@->File_0,
                )
            }
        }),
{
    if is_as_recorded(previous, relative_path, &file) {
        return Ok(None);
    }
    let version: VersionVector = next_version(previous, device_id)?;
    let revision_id: RevisionId = RevisionId::new();
    let file_id: FileId = match previous {
        Some(record) => record.file_id(),
        None => FileId::new(),
    };
    let manifest: FileManifest = FileManifest {
        file_id,
        revision_id,
        relative_path: relative_path.clone(),
        size: file.plaintext_bytes,
        modified_at_unix_ms: file.modified_at_unix_ms,
        version,
        chunks: file.chunks,
    };
    proof {
        let before = match previous {
            Some(record) => Some(record@),
            None => None,
        };
        let new_file_id = match previous {
            Some(_) => FileId { value: revision_id.value },
            None => file_id,
        };
        assert(is_next_revision(
            before,
            relative_path@,
            file@,
            device_id,
            new_file_id,
            revision_id,
            manifest@,
        ));
    }
    Ok(Some(ChangeRecord::File(manifest)))
}

/// Draws up the record of a file that was read, with fresh identifiers and in sealed form; none
/// where the file is unchanged.
pub fn revise_file(
    previous: Option<&ChangeRecord>,
    relative_path: &RelativePath,
    file: IngestedFile,
    identity: &DeviceIdentity,
    keys: &GroupKeys,
) -> (result: Result<Option<(ChangeRecord, SealedRecord)>, ScanError>)
    ensures
        is_revised(
            keys@,
            match previous {
                Some(record) => Some(record@),
                None => None,
            },
            relative_path@,
            file@,
            device_id_of(identity.key()),
            result,
        ),
{
    match fresh_file_record(previous, relative_path, file, identity.device_id()) {
        Ok(None) => Ok(None),
        Ok(Some(record)) => {
            assert(record@ == RecordView::File(record@->File_0));
            match draw_up(keys, record) {
                Ok(drawn) => Ok(Some(drawn)),
                Err(error) => Err(error),
            }
        },
        Err(error) => Err(error),
    }
}

/// Draws up the tombstone of a file that was found gone, with a fresh identifier and in sealed
/// form.
pub fn bury_file(
    head: LocalHead,
    previous: &ChangeRecord,
    identity: &DeviceIdentity,
    keys: &GroupKeys,
    now: Timestamp,
) -> (result: Result<(ChangeRecord, SealedRecord), ScanError>)
    ensures
        ({
            let device_id = device_id_of(identity.key());
            match previous@ {
                RecordView::Tombstone(_) => result matches Err(error) && error@
                    == (ScanProblem::LocalHeadKindMismatch {
                    path_id: head.path_id,
                    expected: ChangeRecordKind::File,
                    actual: ChangeRecordKind::Tombstone,
                }),
                RecordView::File(manifest) => if counter_of(manifest.version, device_id)
                    == u64::MAX {
                    result matches Err(error) && error@ == ScanProblem::Version(
                        VersionVectorError::CounterOverflow { device_id },
                    )
                } else if milliseconds_at(now) is None {
                    result matches Err(error) && error@ == ScanProblem::TimestampOutOfRange
                } else {
                    exists|tombstone: TombstoneView|
                        #[trigger] is_fresh_tombstone(manifest, device_id, now, tombstone)
                            && is_drawn_up(keys@, RecordView::Tombstone(tombstone), result)
                },
            }
        }),
{
    match prepare_burial(head, previous, identity.device_id(), now) {
        Ok(burial) => {
            let revision_id: RevisionId = RevisionId::new();
            let record: ChangeRecord = burial.tombstone(revision_id);
            assert(is_tombstone_of(
                previous@->File_0,
                device_id_of(identity.key()),
                revision_id,
                now,
                record@->Tombstone_0,
            ));
            assert(is_fresh_tombstone(
                previous@->File_0,
                device_id_of(identity.key()),
                now,
                record@->Tombstone_0,
            ));
            draw_up(keys, record)
        },
        Err(error) => Err(error),
    }
}

/// What a device signs a change with.
pub open spec fn authorized(
    secret: Seq<u8>,
    device_id: DeviceId,
    group_id: GroupId,
    revision_id: RevisionId,
    content_id: ContentId,
) -> AuthorizationView {
    AuthorizationView {
        author_device_id: device_id,
        signature: ed25519_signed(
            secret,
            change_message(group_id, device_id, revision_id, content_id),
        ),
    }
}

/// The store with a record of this device, signed by it, as the head of its path: `file` is what
/// the file of the manifest holds.
pub open spec fn local_record_committed(
    store: StoreView,
    keys: KeysView,
    record: RecordView,
    content_id: ContentId,
    bytes: Seq<u8>,
    path_id: PathId,
    expected_previous: Option<ContentId>,
    authorization: AuthorizationView,
    file: Option<Seq<u8>>,
    now: i64,
) -> (StoreView, Option<StoreError>) {
    match admission_verdict(keys, ObjectKind::Manifest, content_id, bytes, file) {
        Err(error) => (store, Some(error)),
        Ok(_) => {
            let (after, result) = signed_local_change_committed(
                with_object(
                    store,
                    keys,
                    ObjectKind::Manifest,
                    content_id,
                    bytes,
                    file,
                    now,
                ),
                keys.group_id,
                path_id,
                expected_previous,
                record.revision_id(),
                record.kind(),
                content_id,
                authorization,
                ordered_ids(record.chunk_ids()),
            );
            (
                after,
                match result {
                    Ok(_) => None,
                    Err(error) => Some(error),
                },
            )
        },
    }
}

/// Commits a record of this device in its sealed form, signed by it. `file` is what the file of
/// the manifest holds.
pub fn commit_local_record(
    record: &ChangeRecord,
    sealed: &SealedRecord,
    path_id: PathId,
    expected_previous: Option<ContentId>,
    identity: &DeviceIdentity,
    keys: &GroupKeys,
    store: &mut Store,
    file: Option<&[u8]>,
    now: i64,
) -> (result: Result<(), ScanError>)
    ensures
        ({
            let (after, problem) = local_record_committed(
                old(store)@,
                keys@,
                record@,
                sealed.content_id,
                sealed.bytes@,
                path_id,
                expected_previous,
                authorized(
                    identity.secret(),
                    device_id_of(identity.key()),
                    keys@.group_id,
                    record@.revision_id(),
                    sealed.content_id,
                ),
                file_bytes(file),
                now,
            );
            &&& final(store)@ == after
            &&& match result {
                Ok(_) => problem is None,
                Err(error) => problem is Some && error@ == ScanProblem::Store(problem->0),
            }
        }),
{
    let authorization: ChangeAuthorization = identity.authorize_change(
        keys.group_id(),
        record.revision_id(),
        sealed.content_id,
    );
    match store.commit_signed_local_change(
        keys,
        path_id,
        expected_previous,
        record.revision_id(),
        record.kind(),
        sealed.content_id,
        authorization,
        sealed.bytes.as_slice(),
        &record.chunk_ids(),
        file,
        now,
    ) {
        Ok(_) => Ok(()),
        Err(error) => Err(ScanError::Store(error)),
    }
}

} // verus!
