//! Records and files as they are loaded from the store.
use vstd::prelude::*;

use crate::bytes::append_bytes;
use crate::catalog::{RevisionKey, StoreError};
use crate::conflict::ReconcileError;
use crate::envelope::{parsed_envelope, EncryptedObject, EnvelopeError, ObjectKind};
use crate::history::{LocalHead, PendingMaterialization, PendingView};
use crate::identity::{AuthorizationView, ChangeAuthorization};
use crate::ids::{ContentId, GroupId, PathId, RevisionId};
use crate::keys::{CryptoError, GroupKeys, KeysView};
use crate::manifest::{ManifestError, ManifestProblem};
use crate::opening::{
    file_of, open_record, opened_record, ObjectFiles, RecordError, RecordProblem,
};
use crate::order::{order_ids, ordered_ids};
use crate::outcome::agrees;
use crate::path::{PathError, PathForms, PathProblem, RelativePath};
use crate::record::{
    ChangeRecord, ChangeRecordKind, ChunkRef, FileManifest, ManifestView, RecordView,
};
use crate::store::{
    after_load, after_look, authentication_verdict, is_present, lemma_authorization_ext, loaded,
    with_authentication, Store, StoreView,
};
use crate::table::lookup;

verus! {

#[derive(Clone, Debug, PartialEq, Eq)]
pub enum ApplyError {
    RecordPathMismatch { expected: PathId, actual: PathId },
    RecordKindMismatch { path_id: PathId, expected: ChangeRecordKind, actual: ChangeRecordKind },
    RecordContentMismatch { path_id: PathId },
    AuthenticationContentMismatch { revision_id: RevisionId },
    ChangeAuthorizationMismatch { revision_id: RevisionId },
    InvalidKeepBothDecision,
    ConflictPathOccupied { path: RelativePath, existing: ContentId, target: ContentId },
    PendingTargetMismatch { path_id: PathId, pending: ContentId, requested: ContentId },
    MissingStageName(PathId),
    ChunkSizeMismatch { content_id: ContentId, expected: u32, actual: usize },
    FileSizeMismatch { expected: u64, actual: u64 },
    FileSizeOverflow,
    TimestampOutOfRange,
    MaterializationJournalMissing { path_id: PathId, target_content_id: ContentId },
    Randomness,
    Reconcile(ReconcileError),
    Path(PathError),
    Crypto(CryptoError),
    Envelope(EnvelopeError),
    Manifest(ManifestError),
    Store(StoreError),
}

/// The contents of an `ApplyError`.
pub enum ApplyProblem {
    RecordPathMismatch { expected: PathId, actual: PathId },
    RecordKindMismatch { path_id: PathId, expected: ChangeRecordKind, actual: ChangeRecordKind },
    RecordContentMismatch { path_id: PathId },
    AuthenticationContentMismatch { revision_id: RevisionId },
    ChangeAuthorizationMismatch { revision_id: RevisionId },
    InvalidKeepBothDecision,
    ConflictPathOccupied { path: PathForms, existing: ContentId, target: ContentId },
    PendingTargetMismatch { path_id: PathId, pending: ContentId, requested: ContentId },
    MissingStageName(PathId),
    ChunkSizeMismatch { content_id: ContentId, expected: u32, actual: nat },
    FileSizeMismatch { expected: u64, actual: nat },
    FileSizeOverflow,
    TimestampOutOfRange,
    MaterializationJournalMissing { path_id: PathId, target_content_id: ContentId },
    Randomness,
    Reconcile(ReconcileError),
    Path(PathProblem),
    Crypto(CryptoError),
    Envelope(EnvelopeError),
    Manifest(ManifestProblem),
    Store(StoreError),
}

impl View for ApplyError {
    type V = ApplyProblem;

    open spec fn view(&self) -> ApplyProblem {
        match *self {
            ApplyError::RecordPathMismatch { expected, actual } =>
            ApplyProblem::RecordPathMismatch { expected, actual },
            ApplyError::RecordKindMismatch { path_id, expected, actual } =>
            ApplyProblem::RecordKindMismatch { path_id, expected, actual },
            ApplyError::RecordContentMismatch { path_id } => ApplyProblem::RecordContentMismatch {
                path_id,
            },
            ApplyError::AuthenticationContentMismatch { revision_id } =>
            ApplyProblem::AuthenticationContentMismatch { revision_id },
            ApplyError::ChangeAuthorizationMismatch { revision_id } =>
            ApplyProblem::ChangeAuthorizationMismatch { revision_id },
            ApplyError::InvalidKeepBothDecision => ApplyProblem::InvalidKeepBothDecision,
            ApplyError::ConflictPathOccupied { path, existing, target } =>
            ApplyProblem::ConflictPathOccupied { path: path@, existing, target },
            ApplyError::PendingTargetMismatch { path_id, pending, requested } =>
            ApplyProblem::PendingTargetMismatch { path_id, pending, requested },
            ApplyError::MissingStageName(path_id) => ApplyProblem::MissingStageName(path_id),
            ApplyError::ChunkSizeMismatch { content_id, expected, actual } =>
            ApplyProblem::ChunkSizeMismatch { content_id, expected, actual: actual as nat },
            ApplyError::FileSizeMismatch { expected, actual } => ApplyProblem::FileSizeMismatch {
                expected,
                actual: actual as nat,
            },
            ApplyError::FileSizeOverflow => ApplyProblem::FileSizeOverflow,
            ApplyError::TimestampOutOfRange => ApplyProblem::TimestampOutOfRange,
            ApplyError::MaterializationJournalMissing { path_id, target_content_id } =>
            ApplyProblem::MaterializationJournalMissing { path_id, target_content_id },
            ApplyError::Randomness => ApplyProblem::Randomness,
            ApplyError::Reconcile(error) => ApplyProblem::Reconcile(error),
            ApplyError::Path(error) => ApplyProblem::Path(error@),
            ApplyError::Crypto(error) => ApplyProblem::Crypto(error),
            ApplyError::Envelope(error) => ApplyProblem::Envelope(error),
            ApplyError::Manifest(error) => ApplyProblem::Manifest(error@),
            ApplyError::Store(error) => ApplyProblem::Store(error),
        }
    }
}

/// What is wrong with a record, as what is wrong with its application.
pub open spec fn record_failure(problem: RecordProblem) -> ApplyProblem {
    match problem {
        RecordProblem::Crypto(error) => ApplyProblem::Crypto(error),
        RecordProblem::Envelope(error) => ApplyProblem::Envelope(error),
        RecordProblem::Manifest(error) => ApplyProblem::Manifest(error),
    }
}

/// The error of applying a record that cannot be sealed or opened.
pub fn record_error(error: RecordError) -> (failure: ApplyError)
    ensures
        failure@ == record_failure(error@),
{
    match error {
        RecordError::Crypto(error) => ApplyError::Crypto(error),
        RecordError::Envelope(error) => ApplyError::Envelope(error),
        RecordError::Manifest(error) => ApplyError::Manifest(error),
    }
}

/// A record with its encrypted form and the signature that is known for it.
#[derive(Debug)]
pub struct LoadedRecord {
    pub record: ChangeRecord,
    pub content_id: ContentId,
    pub authorization: Option<ChangeAuthorization>,
    pub encrypted_bytes: Vec<u8>,
}

/// The contents of a `LoadedRecord`.
pub struct LoadedView {
    pub record: RecordView,
    pub content_id: ContentId,
    pub authorization: Option<AuthorizationView>,
    pub encrypted_bytes: Seq<u8>,
}

/// A signature that may be known.
pub open spec fn signature_view(authorization: Option<ChangeAuthorization>) -> Option<
    AuthorizationView,
> {
    match authorization {
        Some(authorization) => Some(authorization@),
        None => None,
    }
}

impl View for LoadedRecord {
    type V = LoadedView;

    open spec fn view(&self) -> LoadedView {
        LoadedView {
            record: self.record@,
            content_id: self.content_id,
            authorization: signature_view(self.authorization),
            encrypted_bytes: self.encrypted_bytes@,
        }
    }
}

/// The record that a manifest in the store holds, and the store after it was loaded.
pub open spec fn record_loaded(
    store: StoreView,
    keys: KeysView,
    files: Seq<(ContentId, Seq<u8>)>,
    content_id: ContentId,
) -> (StoreView, Result<LoadedView, ApplyProblem>) {
    let file = lookup(files, content_id);
    let after = after_load(store, keys, ObjectKind::Manifest, content_id, file);
    match loaded(store, keys, ObjectKind::Manifest, content_id, file) {
        Err(error) => (after, Err(ApplyProblem::Store(error))),
        Ok(bytes) => match opened_record(keys, content_id, bytes) {
            Err(problem) => (after, Err(record_failure(problem))),
            Ok(record) => {
                let revision_id = record.revision_id();
                let key = RevisionKey { group_id: keys.group_id, revision_id };
                match lookup(after.authentications, key) {
                    Some(row) => if row.content_id != content_id {
                        (
                            after,
                            Err(ApplyProblem::AuthenticationContentMismatch { revision_id }),
                        )
                    } else {
                        (
                            after,
                            Ok(
                                LoadedView {
                                    record,
                                    content_id,
                                    authorization: Some(row.authorization),
                                    encrypted_bytes: bytes,
                                },
                            ),
                        )
                    },
                    None => (
                        after,
                        Ok(
                            LoadedView {
                                record,
                                content_id,
                                authorization: None,
                                encrypted_bytes: bytes,
                            },
                        ),
                    ),
                }
            },
        },
    }
}

/// Loads the record that a manifest in the store holds. `files` holds the manifest's file.
pub fn load_record_object(
    content_id: ContentId,
    keys: &GroupKeys,
    store: &mut Store,
    files: &ObjectFiles,
) -> (result: Result<LoadedRecord, ApplyError>)
    ensures
        final(store)@ == record_loaded(old(store)@, keys@, files@, content_id).0,
        agrees(result, record_loaded(old(store)@, keys@, files@, content_id).1),
{
    let encrypted_bytes: Vec<u8> = match store.load_object(
        keys,
        ObjectKind::Manifest,
        content_id,
        file_of(files, content_id),
    ) {
        Ok(bytes) => bytes,
        Err(error) => {
            return Err(ApplyError::Store(error));
        },
    };
    let record: ChangeRecord = match open_record(keys, content_id, encrypted_bytes.as_slice()) {
        Ok(record) => record,
        Err(error) => {
            return Err(record_error(error));
        },
    };
    match store.change_authentication(keys.group_id(), record.revision_id()) {
        Some(authentication) => {
            if authentication.content_id != content_id {
                return Err(
                    ApplyError::AuthenticationContentMismatch {
                        revision_id: record.revision_id(),
                    },
                );
            }
            Ok(
                LoadedRecord {
                    record,
                    content_id,
                    authorization: Some(authentication.authorization),
                    encrypted_bytes,
                },
            )
        },
        None => Ok(LoadedRecord { record, content_id, authorization: None, encrypted_bytes }),
    }
}

/// A loaded record with the signature that came with it, and the store with that signature.
pub open spec fn attached(
    store: StoreView,
    group_id: GroupId,
    record: LoadedView,
    authorization: AuthorizationView,
) -> (StoreView, Result<LoadedView, ApplyProblem>) {
    let revision_id = record.record.revision_id();
    match record.authorization {
        Some(existing) => if existing != authorization {
            (store, Err(ApplyProblem::ChangeAuthorizationMismatch { revision_id }))
        } else {
            (store, Ok(record))
        },
        None => match authentication_verdict(
            store,
            group_id,
            revision_id,
            record.content_id,
            authorization,
        ) {
            Err(error) => (store, Err(ApplyProblem::Store(error))),
            Ok(_) => (
                with_authentication(
                    store,
                    group_id,
                    revision_id,
                    record.content_id,
                    authorization,
                ),
                Ok(LoadedView { authorization: Some(authorization), ..record }),
            ),
        },
    }
}

/// Adds the signature that came with a record to it and to the store.
pub fn attach_incoming_authorization(
    loaded: LoadedRecord,
    authorization: ChangeAuthorization,
    keys: &GroupKeys,
    store: &mut Store,
) -> (result: Result<LoadedRecord, ApplyError>)
    ensures
        final(store)@ == attached(
            old(store)@,
            keys@.group_id,
            loaded@,
            authorization@,
        ).0,
        agrees(result, attached(old(store)@, keys@.group_id, loaded@, authorization@).1),
{
    let revision_id: RevisionId = loaded.record.revision_id();
    if let Some(existing) = loaded.authorization {
        proof {
            lemma_authorization_ext(existing, authorization);
        }
        if existing != authorization {
            return Err(ApplyError::ChangeAuthorizationMismatch { revision_id });
        }
        return Ok(loaded);
    }
    if let Err(error) = store.admit_change_authentication(
        keys.group_id(),
        revision_id,
        loaded.content_id,
        authorization,
    ) {
        return Err(ApplyError::Store(error));
    }
    Ok(
        LoadedRecord {
            record: loaded.record,
            content_id: loaded.content_id,
            authorization: Some(authorization),
            encrypted_bytes: loaded.encrypted_bytes,
        },
    )
}

/// What is wrong with the record of a head.
pub open spec fn head_problem(keys: KeysView, head: LocalHead, record: RecordView) -> Option<
    ApplyProblem,
> {
    let actual = keys.path_id(record.path().comparison_key);
    if record.kind() != head.kind {
        Some(
            ApplyProblem::RecordKindMismatch {
                path_id: head.path_id,
                expected: head.kind,
                actual: record.kind(),
            },
        )
    } else if actual != head.path_id {
        Some(ApplyProblem::RecordPathMismatch { expected: head.path_id, actual })
    } else {
        None
    }
}

/// The record of a head, and the store after it was loaded.
pub open spec fn head_loaded(
    store: StoreView,
    keys: KeysView,
    files: Seq<(ContentId, Seq<u8>)>,
    head: LocalHead,
) -> (StoreView, Result<RecordView, ApplyProblem>) {
    let (after, result) = record_loaded(store, keys, files, head.content_id);
    match result {
        Err(problem) => (after, Err(problem)),
        Ok(loaded) => match head_problem(keys, head, loaded.record) {
            Some(problem) => (after, Err(problem)),
            None => (after, Ok(loaded.record)),
        },
    }
}

/// Loads the record of a head. `files` holds the file of its manifest.
pub fn load_head_record(
    head: LocalHead,
    keys: &GroupKeys,
    store: &mut Store,
    files: &ObjectFiles,
) -> (result: Result<ChangeRecord, ApplyError>)
    ensures
        final(store)@ == head_loaded(old(store)@, keys@, files@, head).0,
        agrees(result, head_loaded(old(store)@, keys@, files@, head).1),
{
    let loaded: LoadedRecord = load_record_object(head.content_id, keys, store, files)?;
    if loaded.record.kind() != head.kind {
        return Err(
            ApplyError::RecordKindMismatch {
                path_id: head.path_id,
                expected: head.kind,
                actual: loaded.record.kind(),
            },
        );
    }
    let actual: PathId = keys.identify_path(loaded.record.relative_path());
    if actual != head.path_id {
        return Err(ApplyError::RecordPathMismatch { expected: head.path_id, actual });
    }
    Ok(loaded.record)
}

/// What is wrong with the record that is being brought to a path.
pub open spec fn pending_problem(keys: KeysView, pending: PendingView, record: RecordView) -> Option<
    ApplyProblem,
> {
    let actual = keys.path_id(record.path().comparison_key);
    if actual != pending.path_id {
        Some(ApplyProblem::RecordPathMismatch { expected: pending.path_id, actual })
    } else if record.kind() != pending.kind {
        Some(
            ApplyProblem::RecordKindMismatch {
                path_id: pending.path_id,
                expected: pending.kind,
                actual: record.kind(),
            },
        )
    } else {
        None
    }
}

/// Checks that a record is the one that is being brought to a path.
pub fn validate_pending_record(
    pending: &PendingMaterialization,
    record: &ChangeRecord,
    keys: &GroupKeys,
) -> (result: Result<(), ApplyError>)
    ensures
        match result {
            Ok(_) => pending_problem(keys@, pending@, record@) is None,
            Err(error) => pending_problem(keys@, pending@, record@) == Some(error@),
        },
{
    let actual: PathId = keys.identify_path(record.relative_path());
    if actual != pending.path_id {
        return Err(ApplyError::RecordPathMismatch { expected: pending.path_id, actual });
    }
    if record.kind() != pending.kind {
        return Err(
            ApplyError::RecordKindMismatch {
                path_id: pending.path_id,
                expected: pending.kind,
                actual: record.kind(),
            },
        );
    }
    Ok(())
}

/// Those of the chunks that are not there, or the first that is there and damaged; and the store
/// after they were looked at.
pub open spec fn preflighted(
    store: StoreView,
    keys: KeysView,
    files: Seq<(ContentId, Seq<u8>)>,
    chunks: Seq<ContentId>,
) -> (StoreView, Result<Seq<ContentId>, StoreError>)
    decreases chunks.len(),
{
    if chunks.len() == 0 {
        (store, Ok(seq![]))
    } else {
        let (before, result) = preflighted(store, keys, files, chunks.drop_last());
        match result {
            Err(error) => (before, Err(error)),
            Ok(missing) => {
                let content_id = chunks.last();
                let file = lookup(files, content_id);
                let looked = after_look(before, keys.group_id, content_id, file is Some);
                if !is_present(before, keys.group_id, content_id, file is Some) {
                    (looked, Ok(missing.push(content_id)))
                } else {
                    let after = after_load(looked, keys, ObjectKind::Chunk, content_id, file);
                    match loaded(looked, keys, ObjectKind::Chunk, content_id, file) {
                        Err(error) => (after, Err(error)),
                        Ok(_) => (after, Ok(missing)),
                    }
                }
            },
        }
    }
}

proof fn lemma_preflighted_prefix(
    store: StoreView,
    keys: KeysView,
    files: Seq<(ContentId, Seq<u8>)>,
    chunks: Seq<ContentId>,
    count: int,
)
    requires
        0 <= count <= chunks.len(),
        preflighted(store, keys, files, chunks.take(count)).1 is Err,
    ensures
        preflighted(store, keys, files, chunks) == preflighted(
            store,
            keys,
            files,
            chunks.take(count),
        ),
    decreases chunks.len(),
{
    if count < chunks.len() {
        assert(chunks.drop_last().take(count) =~= chunks.take(count));
        lemma_preflighted_prefix(store, keys, files, chunks.drop_last(), count);
    } else {
        assert(chunks.take(count) =~= chunks);
    }
}

fn look_at_chunks(
    chunks: &Vec<ContentId>,
    keys: &GroupKeys,
    store: &mut Store,
    files: &ObjectFiles,
) -> (result: Result<Vec<ContentId>, StoreError>)
    ensures
        final(store)@ == preflighted(old(store)@, keys@, files@, chunks@).0,
        match result {
            Ok(missing) => preflighted(old(store)@, keys@, files@, chunks@).1 == Ok::<
                Seq<ContentId>,
                StoreError,
            >(missing@),
            Err(error) => preflighted(old(store)@, keys@, files@, chunks@).1 == Err::<
                Seq<ContentId>,
                StoreError,
            >(error),
        },
{
    let mut missing: Vec<ContentId> = Vec::new();
    let mut index: usize = 0;
    assert(chunks@.take(0) =~= seq![]);
    while index < chunks.len()
        invariant
            index <= chunks@.len(),
            preflighted(old(store)@, keys@, files@, chunks@.take(index as int)) == (
                store@,
                Ok::<Seq<ContentId>, StoreError>(missing@),
            ),
        decreases chunks@.len() - index,
    {
        let ghost next = chunks@.take(index + 1);
        proof {
            assert(next.drop_last() =~= chunks@.take(index as int));
            assert(next.last() == chunks@[index as int]);
            if preflighted(old(store)@, keys@, files@, next).1 is Err {
                lemma_preflighted_prefix(old(store)@, keys@, files@, chunks@, index + 1);
            }
        }
        let content_id: ContentId = chunks[index];
        let file: Option<&[u8]> = file_of(files, content_id);
        if !store.has_object(keys.group_id(), content_id, file.is_some()) {
            missing.push(content_id);
        } else if let Err(error) = store.load_object(keys, ObjectKind::Chunk, content_id, file) {
            return Err(error);
        }
        index += 1;
    }
    assert(chunks@.take(index as int) =~= chunks@);
    Ok(missing)
}

/// The chunks of a record that are not there, or why one that is there cannot be used; and the
/// store after they were looked at.
pub open spec fn chunks_checked(
    store: StoreView,
    keys: KeysView,
    files: Seq<(ContentId, Seq<u8>)>,
    record: RecordView,
) -> (StoreView, Result<Seq<ContentId>, ApplyProblem>) {
    let (after, result) = preflighted(store, keys, files, ordered_ids(record.chunk_ids()));
    (
        after,
        match result {
            Ok(missing) => Ok(missing),
            Err(error) => Err(ApplyProblem::Store(error)),
        },
    )
}

/// Tells which chunks of a record are not there. `files` holds the files of chunks.
pub fn preflight_chunks(
    record: &ChangeRecord,
    keys: &GroupKeys,
    store: &mut Store,
    files: &ObjectFiles,
) -> (result: Result<Vec<ContentId>, ApplyError>)
    ensures
        final(store)@ == chunks_checked(old(store)@, keys@, files@, record@).0,
        agrees(result, chunks_checked(old(store)@, keys@, files@, record@).1),
{
    let chunks: Vec<ContentId> = order_ids(&record.chunk_ids());
    match look_at_chunks(&chunks, keys, store, files) {
        Ok(missing) => Ok(missing),
        Err(error) => Err(ApplyError::Store(error)),
    }
}

/// The plaintext of one chunk, and the store after it was loaded.
pub open spec fn chunk_content(
    store: StoreView,
    keys: KeysView,
    files: Seq<(ContentId, Seq<u8>)>,
    chunk: ChunkRef,
) -> (StoreView, Result<Seq<u8>, ApplyProblem>) {
    let file = lookup(files, chunk.content_id);
    let after = after_load(store, keys, ObjectKind::Chunk, chunk.content_id, file);
    (
        after,
        match loaded(store, keys, ObjectKind::Chunk, chunk.content_id, file) {
            Err(error) => Err(ApplyProblem::Store(error)),
            Ok(bytes) => match parsed_envelope(bytes) {
                Err(error) => Err(ApplyProblem::Envelope(error)),
                Ok(object) => match keys.opened(ObjectKind::Chunk, chunk.content_id, object) {
                    Err(error) => Err(ApplyProblem::Crypto(error)),
                    Ok(plaintext) => if plaintext.len() != chunk.plaintext_size {
                        Err(
                            ApplyProblem::ChunkSizeMismatch {
                                content_id: chunk.content_id,
                                expected: chunk.plaintext_size,
                                actual: plaintext.len(),
                            },
                        )
                    } else {
                        Ok(plaintext)
                    },
                },
            },
        },
    )
}

/// The plaintext of chunks, one after the other, and the store after they were loaded.
pub open spec fn chunks_content(
    store: StoreView,
    keys: KeysView,
    files: Seq<(ContentId, Seq<u8>)>,
    chunks: Seq<ChunkRef>,
) -> (StoreView, Result<Seq<u8>, ApplyProblem>)
    decreases chunks.len(),
{
    if chunks.len() == 0 {
        (store, Ok(seq![]))
    } else {
        let (before, result) = chunks_content(store, keys, files, chunks.drop_last());
        match result {
            Err(problem) => (before, Err(problem)),
            Ok(content) => {
                let (after, outcome) = chunk_content(before, keys, files, chunks.last());
                match outcome {
                    Err(problem) => (after, Err(problem)),
                    Ok(plaintext) => if content.len() + plaintext.len() > u64::MAX {
                        (after, Err(ApplyProblem::FileSizeOverflow))
                    } else {
                        (after, Ok(content + plaintext))
                    },
                }
            },
        }
    }
}

/// The plaintext of a file, and the store after its chunks were loaded.
pub open spec fn file_content(
    store: StoreView,
    keys: KeysView,
    files: Seq<(ContentId, Seq<u8>)>,
    manifest: ManifestView,
) -> (StoreView, Result<Seq<u8>, ApplyProblem>) {
    let (after, result) = chunks_content(store, keys, files, manifest.chunks);
    match result {
        Err(problem) => (after, Err(problem)),
        Ok(content) => if content.len() != manifest.size {
            (
                after,
                Err(
                    ApplyProblem::FileSizeMismatch {
                        expected: manifest.size,
                        actual: content.len(),
                    },
                ),
            )
        } else {
            (after, Ok(content))
        },
    }
}

fn load_chunk(chunk: ChunkRef, keys: &GroupKeys, store: &mut Store, files: &ObjectFiles) -> (result:
    Result<Vec<u8>, ApplyError>)
    ensures
        final(store)@ == chunk_content(old(store)@, keys@, files@, chunk).0,
        agrees(result, chunk_content(old(store)@, keys@, files@, chunk).1),
{
    let encrypted: Vec<u8> = match store.load_object(
        keys,
        ObjectKind::Chunk,
        chunk.content_id,
        file_of(files, chunk.content_id),
    ) {
        Ok(bytes) => bytes,
        Err(error) => {
            return Err(ApplyError::Store(error));
        },
    };
    let object: EncryptedObject = match EncryptedObject::from_bytes(encrypted.as_slice()) {
        Ok(object) => object,
        Err(error) => {
            return Err(ApplyError::Envelope(error));
        },
    };
    let plaintext: Vec<u8> = match keys.open_chunk(chunk.content_id, &object) {
        Ok(plaintext) => plaintext,
        Err(error) => {
            return Err(ApplyError::Crypto(error));
        },
    };
    if plaintext.len() as u64 != chunk.plaintext_size as u64 {
        return Err(
            ApplyError::ChunkSizeMismatch {
                content_id: chunk.content_id,
                expected: chunk.plaintext_size,
                actual: plaintext.len(),
            },
        );
    }
    Ok(plaintext)
}

proof fn lemma_content_prefix(
    store: StoreView,
    keys: KeysView,
    files: Seq<(ContentId, Seq<u8>)>,
    chunks: Seq<ChunkRef>,
    count: int,
)
    requires
        0 <= count <= chunks.len(),
        chunks_content(store, keys, files, chunks.take(count)).1 is Err,
    ensures
        chunks_content(store, keys, files, chunks) == chunks_content(
            store,
            keys,
            files,
            chunks.take(count),
        ),
    decreases chunks.len(),
{
    if count < chunks.len() {
        assert(chunks.drop_last().take(count) =~= chunks.take(count));
        lemma_content_prefix(store, keys, files, chunks.drop_last(), count);
    } else {
        assert(chunks.take(count) =~= chunks);
    }
}

fn join_chunks(
    chunks: &Vec<ChunkRef>,
    keys: &GroupKeys,
    store: &mut Store,
    files: &ObjectFiles,
) -> (result: Result<Vec<u8>, ApplyError>)
    ensures
        final(store)@ == chunks_content(old(store)@, keys@, files@, chunks@).0,
        agrees(result, chunks_content(old(store)@, keys@, files@, chunks@).1),
{
    let mut content: Vec<u8> = Vec::new();
    let mut index: usize = 0;
    assert(chunks@.take(0) =~= seq![]);
    while index < chunks.len()
        invariant
            index <= chunks@.len(),
            chunks_content(old(store)@, keys@, files@, chunks@.take(index as int)) == (
                store@,
                Ok::<Seq<u8>, ApplyProblem>(content@),
            ),
        decreases chunks@.len() - index,
    {
        let ghost next = chunks@.take(index + 1);
        proof {
            assert(next.drop_last() =~= chunks@.take(index as int));
            assert(next.last() == chunks@[index as int]);
            if chunks_content(old(store)@, keys@, files@, next).1 is Err {
                lemma_content_prefix(old(store)@, keys@, files@, chunks@, index + 1);
            }
        }
        let plaintext: Vec<u8> = load_chunk(chunks[index], keys, store, files)?;
        if (content.len() as u64).checked_add(plaintext.len() as u64).is_none() {
            return Err(ApplyError::FileSizeOverflow);
        }
        append_bytes(&mut content, plaintext.as_slice());
        index += 1;
    }
    assert(chunks@.take(index as int) =~= chunks@);
    Ok(content)
}

/// The plaintext of a file, put together from its chunks. `files` holds the chunks' files.
pub fn assemble_file(
    manifest: &FileManifest,
    keys: &GroupKeys,
    store: &mut Store,
    files: &ObjectFiles,
) -> (result: Result<Vec<u8>, ApplyError>)
    ensures
        final(store)@ == file_content(old(store)@, keys@, files@, manifest@).0,
        agrees(result, file_content(old(store)@, keys@, files@, manifest@).1),
{
    let content: Vec<u8> = join_chunks(&manifest.chunks, keys, store, files)?;
    if content.len() as u64 != manifest.size {
        return Err(
            ApplyError::FileSizeMismatch {
                expected: manifest.size,
                actual: content.len() as u64,
            },
        );
    }
    Ok(content)
}

} // verus!
