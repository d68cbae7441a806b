//! The exchange of changes: batches that a device sends of its log, and those that it admits from
//! a peer.
use vstd::prelude::*;

use crate::batch::{
    validate_change_batch, validated_batch, BatchView, ChangeView, ValidatedChangeBatch,
    ValidatedEncryptedChange,
};
use crate::bytes::copy_bytes;
use crate::catalog::{sequence_problem, DeviceKey, MemberStatus, RevisionKey, StoreError};
use crate::envelope::{EnvelopeError, ObjectKind};
use crate::history::{
    change_page, signed_change_committed, watermark_at, ChangeCommit, ChangePage, StoredChange,
};
use crate::ids::{ContentId, DeviceId, GroupId, RevisionId};
use crate::keys::{CryptoError, GroupKeys, KeysView};
use crate::manifest::{ManifestError, ManifestProblem};
use crate::message::list_view;
use crate::opening::{
    file_of, open_record, opened_record, ObjectFiles, RecordError, RecordProblem,
};
use crate::order::{has_content_id, order_ids, ordered_ids};
use crate::outcome::agrees;
use crate::protocol::{LimitsView, ProtocolError, ProtocolLimits};
use crate::record::{ChangeRecord, RecordView};
use crate::store::{
    admission_verdict, after_load, after_look, authentication_verdict, is_present, loaded,
    member_at, with_authentication, with_object, with_requests, Admission, Store, StoreView,
};
use crate::table::{lookup, put};
use crate::wire::{ChangeBatch, ChangeBatchView, EncryptedChange, EncryptedChangeView};

verus! {

#[derive(Clone, Copy, Debug, PartialEq, Eq)]
pub enum ChangeBatchBuildError {
    UnsignedChange { revision_id: RevisionId },
    AuthenticationContentMismatch { revision_id: RevisionId },
    Store(StoreError),
}

impl View for ChangeBatchBuildError {
    type V = ChangeBatchBuildError;

    open spec fn view(&self) -> ChangeBatchBuildError {
        *self
    }
}

/// The message for one entry of the log, and the store after its manifest was loaded.
pub open spec fn outgoing_change(
    store: StoreView,
    keys: KeysView,
    files: Seq<(ContentId, Seq<u8>)>,
    change: StoredChange,
) -> (StoreView, Result<EncryptedChangeView, ChangeBatchBuildError>) {
    let revision_id = change.revision_id;
    match lookup(store.authentications, RevisionKey { group_id: keys.group_id, revision_id }) {
        None => (store, Err(ChangeBatchBuildError::UnsignedChange { revision_id })),
        Some(row) => if row.content_id != change.content_id {
            (store, Err(ChangeBatchBuildError::AuthenticationContentMismatch { revision_id }))
        } else {
            let file = lookup(files, change.content_id);
            (
                after_load(store, keys, ObjectKind::Manifest, change.content_id, file),
                match loaded(store, keys, ObjectKind::Manifest, change.content_id, file) {
                    Err(error) => Err(ChangeBatchBuildError::Store(error)),
                    Ok(bytes) => Ok(
                        EncryptedChangeView {
                            sequence: change.sequence,
                            revision_id: revision_id.spec_bytes(),
                            content_id: change.content_id@,
                            encrypted_record: bytes,
                            author_device_id: row.authorization.author_device_id.spec_bytes(),
                            signature: row.authorization.signature,
                        },
                    ),
                },
            )
        },
    }
}

/// The messages for entries of the log, and the store after their manifests were loaded.
pub open spec fn outgoing_changes(
    store: StoreView,
    keys: KeysView,
    files: Seq<(ContentId, Seq<u8>)>,
    changes: Seq<StoredChange>,
) -> (StoreView, Result<Seq<EncryptedChangeView>, ChangeBatchBuildError>)
    decreases changes.len(),
{
    if changes.len() == 0 {
        (store, Ok(seq![]))
    } else {
        let (before, result) = outgoing_changes(store, keys, files, changes.drop_last());
        match result {
            Err(error) => (before, Err(error)),
            Ok(records) => {
                let (after, outcome) = outgoing_change(before, keys, files, changes.last());
                match outcome {
                    Err(error) => (after, Err(error)),
                    Ok(record) => (after, Ok(records.push(record))),
                }
            },
        }
    }
}

/// Whether the log goes on after a page of it.
pub open spec fn has_more(
    records: Seq<StoredChange>,
    after_sequence: u64,
    high_watermark: u64,
) -> bool {
    if records.len() == 0 {
        high_watermark > after_sequence
    } else {
        records.last().sequence < high_watermark
    }
}

/// The batch of changes after a given one, and the store after their manifests were loaded.
pub open spec fn outgoing_batch(
    store: StoreView,
    keys: KeysView,
    files: Seq<(ContentId, Seq<u8>)>,
    after_sequence: u64,
    maximum: nat,
) -> (StoreView, Result<ChangeBatchView, ChangeBatchBuildError>) {
    match change_page(store, keys.group_id, after_sequence, maximum) {
        Err(error) => (store, Err(ChangeBatchBuildError::Store(error))),
        Ok(page) => {
            let (after, result) = outgoing_changes(store, keys, files, page.records);
            match result {
                Err(error) => (after, Err(error)),
                Ok(records) => (
                    after,
                    Ok(
                        ChangeBatchView {
                            records,
                            high_watermark: page.high_watermark,
                            has_more: has_more(
                                page.records,
                                after_sequence,
                                page.high_watermark,
                            ),
                        },
                    ),
                ),
            }
        },
    }
}

proof fn lemma_outgoing_prefix(
    store: StoreView,
    keys: KeysView,
    files: Seq<(ContentId, Seq<u8>)>,
    changes: Seq<StoredChange>,
    count: int,
)
    requires
        0 <= count <= changes.len(),
        outgoing_changes(store, keys, files, changes.take(count)).1 is Err,
    ensures
        outgoing_changes(store, keys, files, changes) == outgoing_changes(
            store,
            keys,
            files,
            changes.take(count),
        ),
    decreases changes.len(),
{
    if count < changes.len() {
        assert(changes.drop_last().take(count) =~= changes.take(count));
        lemma_outgoing_prefix(store, keys, files, changes.drop_last(), count);
    } else {
        assert(changes.take(count) =~= changes);
    }
}

fn build_change(
    keys: &GroupKeys,
    store: &mut Store,
    files: &ObjectFiles,
    change: StoredChange,
) -> (result: Result<EncryptedChange, ChangeBatchBuildError>)
    ensures
        final(store)@ == outgoing_change(old(store)@, keys@, files@, change).0,
        agrees(result, outgoing_change(old(store)@, keys@, files@, change).1),
{
    let authentication = match store.change_authentication(keys.group_id(), change.revision_id) {
        Some(authentication) => authentication,
        None => {
            return Err(
                ChangeBatchBuildError::UnsignedChange { revision_id: change.revision_id },
            );
        },
    };
    if authentication.content_id != change.content_id {
        return Err(
            ChangeBatchBuildError::AuthenticationContentMismatch {
                revision_id: change.revision_id,
            },
        );
    }
    let encrypted_record: Vec<u8> = match store.load_object(
        keys,
        ObjectKind::Manifest,
        change.content_id,
        file_of(files, change.content_id),
    ) {
        Ok(bytes) => bytes,
        Err(error) => {
            return Err(ChangeBatchBuildError::Store(error));
        },
    };
    Ok(
        EncryptedChange {
            sequence: change.sequence,
            revision_id: copy_bytes(change.revision_id.to_bytes().as_slice()),
            content_id: copy_bytes(change.content_id.as_bytes().as_slice()),
            encrypted_record,
            author_device_id: copy_bytes(
                authentication.authorization.author_device_id.to_bytes().as_slice(),
            ),
            signature: copy_bytes(authentication.authorization.signature.as_bytes().as_slice()),
        },
    )
}

fn build_changes(
    keys: &GroupKeys,
    store: &mut Store,
    files: &ObjectFiles,
    changes: &Vec<StoredChange>,
) -> (result: Result<Vec<EncryptedChange>, ChangeBatchBuildError>)
    ensures
        final(store)@ == outgoing_changes(old(store)@, keys@, files@, changes@).0,
        match result {
            Ok(records) => outgoing_changes(old(store)@, keys@, files@, changes@).1 == Ok::<
                Seq<EncryptedChangeView>,
                ChangeBatchBuildError,
            >(list_view(records@)),
            Err(error) => outgoing_changes(old(store)@, keys@, files@, changes@).1 == Err::<
                Seq<EncryptedChangeView>,
                ChangeBatchBuildError,
            >(error),
        },
{
    let mut records: Vec<EncryptedChange> = Vec::new();
    let mut index: usize = 0;
    proof {
        assert(changes@.take(0) =~= seq![]);
        assert(list_view(records@) =~= seq![]);
    }
    while index < changes.len()
        invariant
            index <= changes@.len(),
            outgoing_changes(old(store)@, keys@, files@, changes@.take(index as int)) == (
                store@,
                Ok::<Seq<EncryptedChangeView>, ChangeBatchBuildError>(list_view(records@)),
            ),
        decreases changes@.len() - index,
    {
        let ghost before = list_view(records@);
        let ghost next = changes@.take(index + 1);
        proof {
            assert(next.drop_last() =~= changes@.take(index as int));
            assert(next.last() == changes@[index as int]);
            if outgoing_changes(old(store)@, keys@, files@, next).1 is Err {
                lemma_outgoing_prefix(old(store)@, keys@, files@, changes@, index + 1);
            }
        }
        let record: EncryptedChange = build_change(keys, store, files, changes[index])?;
        let ghost view = record@;
        records.push(record);
        assert(list_view(records@) =~= before.push(view));
        index += 1;
    }
    assert(changes@.take(index as int) =~= changes@);
    Ok(records)
}

/// Builds the batch of changes after a given one. `files` holds the files of their manifests.
pub fn build_change_batch(
    keys: &GroupKeys,
    store: &mut Store,
    after_sequence: u64,
    maximum_records: usize,
    files: &ObjectFiles,
) -> (result: Result<ChangeBatch, ChangeBatchBuildError>)
    ensures
        final(store)@ == outgoing_batch(
            old(store)@,
            keys@,
            files@,
            after_sequence,
            maximum_records as nat,
        ).0,
        agrees(
            result,
            outgoing_batch(
                old(store)@,
                keys@,
                files@,
                after_sequence,
                maximum_records as nat,
            ).1,
        ),
{
    let page: ChangePage = match store.changes_after(
        keys.group_id(),
        after_sequence,
        maximum_records,
    ) {
        Ok(page) => page,
        Err(error) => {
            return Err(ChangeBatchBuildError::Store(error));
        },
    };
    let records: Vec<EncryptedChange> = build_changes(keys, store, files, &page.records)?;
    let count: usize = page.records.len();
    let more: bool = if count == 0 {
        page.high_watermark > after_sequence
    } else {
        page.records[count - 1].sequence < page.high_watermark
    };
    Ok(ChangeBatch { records, high_watermark: page.high_watermark, has_more: more })
}

#[derive(Clone, Debug, PartialEq, Eq)]
pub enum ChangeBatchAdmissionError {
    Protocol(ProtocolError),
    RevisionMismatch { advertised: RevisionId, manifest: RevisionId },
    Crypto(CryptoError),
    Envelope(EnvelopeError),
    Manifest(ManifestError),
    Store(StoreError),
}

/// Why a batch is refused.
pub enum AdmissionProblem {
    Protocol(ProtocolError),
    RevisionMismatch { advertised: RevisionId, manifest: RevisionId },
    Crypto(CryptoError),
    Envelope(EnvelopeError),
    Manifest(ManifestProblem),
    Store(StoreError),
}

impl View for ChangeBatchAdmissionError {
    type V = AdmissionProblem;

    open spec fn view(&self) -> AdmissionProblem {
        match *self {
            ChangeBatchAdmissionError::Protocol(error) => AdmissionProblem::Protocol(error),
            ChangeBatchAdmissionError::RevisionMismatch { advertised, manifest } =>
            AdmissionProblem::RevisionMismatch { advertised, manifest },
            ChangeBatchAdmissionError::Crypto(error) => AdmissionProblem::Crypto(error),
            ChangeBatchAdmissionError::Envelope(error) => AdmissionProblem::Envelope(error),
            ChangeBatchAdmissionError::Manifest(error) => AdmissionProblem::Manifest(error@),
            ChangeBatchAdmissionError::Store(error) => AdmissionProblem::Store(error),
        }
    }
}

/// What became of a batch.
#[derive(Clone, Debug, Default, PartialEq, Eq)]
pub struct ChangeBatchAdmissionReport {
    pub records_committed: usize,
    pub records_replayed: usize,
    pub missing_content_ids: Vec<ContentId>,
    pub peer_high_watermark: u64,
}

/// The contents of a `ChangeBatchAdmissionReport`.
pub struct AdmissionReportView {
    pub records_committed: nat,
    pub records_replayed: nat,
    pub missing_content_ids: Seq<ContentId>,
    pub peer_high_watermark: u64,
}

impl View for ChangeBatchAdmissionReport {
    type V = AdmissionReportView;

    open spec fn view(&self) -> AdmissionReportView {
        AdmissionReportView {
            records_committed: self.records_committed as nat,
            records_replayed: self.records_replayed as nat,
            missing_content_ids: self.missing_content_ids@,
            peer_high_watermark: self.peer_high_watermark,
        }
    }
}

/// What is wrong with a record, as what is wrong with the batch that it is in.
pub open spec fn record_refusal(problem: RecordProblem) -> AdmissionProblem {
    match problem {
        RecordProblem::Crypto(error) => AdmissionProblem::Crypto(error),
        RecordProblem::Envelope(error) => AdmissionProblem::Envelope(error),
        RecordProblem::Manifest(error) => AdmissionProblem::Manifest(error),
    }
}

/// The store after it was asked for objects, given which of their files are there.
pub open spec fn after_looks(
    store: StoreView,
    group_id: GroupId,
    content_ids: Seq<ContentId>,
    present: Seq<ContentId>,
) -> StoreView
    decreases content_ids.len(),
{
    if content_ids.len() == 0 {
        store
    } else {
        let content_id = content_ids.last();
        after_look(
            after_looks(store, group_id, content_ids.drop_last(), present),
            group_id,
            content_id,
            present.contains(content_id),
        )
    }
}

/// Those of the objects that are not there.
pub open spec fn missing_of(
    store: StoreView,
    group_id: GroupId,
    content_ids: Seq<ContentId>,
    present: Seq<ContentId>,
) -> Seq<ContentId>
    decreases content_ids.len(),
{
    if content_ids.len() == 0 {
        seq![]
    } else {
        let front = content_ids.drop_last();
        let content_id = content_ids.last();
        let before = missing_of(store, group_id, front, present);
        if is_present(
            after_looks(store, group_id, front, present),
            group_id,
            content_id,
            present.contains(content_id),
        ) {
            before
        } else {
            before.push(content_id)
        }
    }
}

/// Tells which of the objects are not there, given which of their files are.
pub fn find_missing(
    store: &mut Store,
    group_id: GroupId,
    content_ids: &Vec<ContentId>,
    present: &Vec<ContentId>,
) -> (missing: Vec<ContentId>)
    ensures
        missing@ == missing_of(old(store)@, group_id, content_ids@, present@),
        final(store)@ == after_looks(old(store)@, group_id, content_ids@, present@),
{
    let ghost start = store@;
    let mut missing: Vec<ContentId> = Vec::new();
    let mut index: usize = 0;
    assert(content_ids@.take(0) =~= seq![]);
    while index < content_ids.len()
        invariant
            index <= content_ids@.len(),
            missing@ == missing_of(start, group_id, content_ids@.take(index as int), present@),
            store@ == after_looks(start, group_id, content_ids@.take(index as int), present@),
        decreases content_ids@.len() - index,
    {
        proof {
            assert(content_ids@.take(index + 1).drop_last() =~= content_ids@.take(index as int));
            assert(content_ids@.take(index + 1).last() == content_ids@[index as int]);
        }
        let content_id: ContentId = content_ids[index];
        let file_present: bool = has_content_id(present, content_id);
        if !store.has_object(group_id, content_id, file_present) {
            missing.push(content_id);
        }
        index += 1;
    }
    assert(content_ids@.take(index as int) =~= content_ids@);
    missing
}

/// The outcome of admitting a manifest and committing the signed change that it holds.
pub open spec fn signed_change_admitted(
    store: StoreView,
    keys: KeysView,
    change: ChangeView,
    chunks: Seq<ContentId>,
    existing: Option<Seq<u8>>,
    now: i64,
) -> (StoreView, Result<ChangeCommit, StoreError>) {
    match admission_verdict(
        keys,
        ObjectKind::Manifest,
        change.content_id,
        change.encrypted_record,
        existing,
    ) {
        Err(error) => (store, Err(error)),
        Ok(_) => signed_change_committed(
            with_object(
                store,
                keys,
                ObjectKind::Manifest,
                change.content_id,
                change.encrypted_record,
                existing,
                now,
            ),
            keys.group_id,
            change.revision_id,
            change.content_id,
            change.authorization,
            ordered_ids(chunks),
        ),
    }
}

/// What became of one change of a batch.
pub enum ChangeFate {
    Committed,
    Replayed,
    Missing(Seq<ContentId>),
}

/// What becomes of one change of a batch: `files` holds the files of manifests, `present` names
/// the chunks whose files are there.
#[verifier::opaque]
pub open spec fn incoming_change(
    store: StoreView,
    keys: KeysView,
    files: Seq<(ContentId, Seq<u8>)>,
    present: Seq<ContentId>,
    change: ChangeView,
    now: i64,
) -> (StoreView, Result<ChangeFate, AdmissionProblem>) {
    let existing = lookup(files, change.content_id);
    match opened_record(keys, change.content_id, change.encrypted_record) {
        Err(problem) => (store, Err(record_refusal(problem))),
        Ok(record) => if record.revision_id() != change.revision_id {
            (
                store,
                Err(
                    AdmissionProblem::RevisionMismatch {
                        advertised: change.revision_id,
                        manifest: record.revision_id(),
                    },
                ),
            )
        } else {
            match admission_verdict(
                keys,
                ObjectKind::Manifest,
                change.content_id,
                change.encrypted_record,
                existing,
            ) {
                Err(error) => (store, Err(AdmissionProblem::Store(error))),
                Ok(admission) => {
                    let admitted = with_object(
                        store,
                        keys,
                        ObjectKind::Manifest,
                        change.content_id,
                        change.encrypted_record,
                        existing,
                        now,
                    );
                    match authentication_verdict(
                        admitted,
                        keys.group_id,
                        change.revision_id,
                        change.content_id,
                        change.authorization,
                    ) {
                        Err(error) => (admitted, Err(AdmissionProblem::Store(error))),
                        Ok(_) => incoming_chunks(
                            with_authentication(
                                admitted,
                                keys.group_id,
                                change.revision_id,
                                change.content_id,
                                change.authorization,
                            ),
                            keys,
                            present,
                            change,
                            record,
                            if admission == Admission::AlreadyPresent {
                                existing
                            } else {
                                Some(change.encrypted_record)
                            },
                            now,
                        ),
                    }
                },
            }
        },
    }
}

/// What becomes of a change whose manifest and signature are recorded: it is committed once all
/// its chunks are there.
pub open spec fn incoming_chunks(
    store: StoreView,
    keys: KeysView,
    present: Seq<ContentId>,
    change: ChangeView,
    record: RecordView,
    existing: Option<Seq<u8>>,
    now: i64,
) -> (StoreView, Result<ChangeFate, AdmissionProblem>) {
    let chunks = ordered_ids(record.chunk_ids());
    let missing = missing_of(store, keys.group_id, chunks, present);
    let looked = after_looks(store, keys.group_id, chunks, present);
    if missing.len() > 0 {
        (looked, Ok(ChangeFate::Missing(missing)))
    } else {
        let (after, result) = signed_change_admitted(looked, keys, change, chunks, existing, now);
        (
            after,
            match result {
                Err(error) => Err(AdmissionProblem::Store(error)),
                Ok(commit) => if commit.inserted {
                    Ok(ChangeFate::Committed)
                } else {
                    Ok(ChangeFate::Replayed)
                },
            },
        )
    }
}

/// What became of the changes of a batch so far.
pub struct Tally {
    pub committed: nat,
    pub replayed: nat,
    pub missing: Seq<ContentId>,
}

/// The tally with one more change.
pub open spec fn tallied(tally: Tally, fate: ChangeFate) -> Tally {
    match fate {
        ChangeFate::Committed => Tally { committed: tally.committed + 1, ..tally },
        ChangeFate::Replayed => Tally { replayed: tally.replayed + 1, ..tally },
        ChangeFate::Missing(ids) => Tally { missing: tally.missing + ids, ..tally },
    }
}

/// What becomes of the changes of a batch.
pub open spec fn incoming_changes(
    store: StoreView,
    keys: KeysView,
    files: Seq<(ContentId, Seq<u8>)>,
    present: Seq<ContentId>,
    changes: Seq<ChangeView>,
    now: i64,
) -> (StoreView, Result<Tally, AdmissionProblem>)
    decreases changes.len(),
{
    if changes.len() == 0 {
        (store, Ok(Tally { committed: 0, replayed: 0, missing: seq![] }))
    } else {
        let (before, result) = incoming_changes(
            store,
            keys,
            files,
            present,
            changes.drop_last(),
            now,
        );
        match result {
            Err(problem) => (before, Err(problem)),
            Ok(tally) => {
                let (after, outcome) = incoming_change(
                    before,
                    keys,
                    files,
                    present,
                    changes.last(),
                    now,
                );
                match outcome {
                    Err(problem) => (after, Err(problem)),
                    Ok(fate) => (after, Ok(tallied(tally, fate))),
                }
            },
        }
    }
}

/// How far a peer's log counts as read once all of a batch is admitted.
pub open spec fn accepted_through(batch: BatchView, known: u64) -> u64 {
    if batch.has_more {
        if batch.records.len() == 0 {
            known
        } else {
            batch.records.last().sequence
        }
    } else {
        batch.high_watermark
    }
}

/// What becomes of a batch from a peer.
pub open spec fn incoming_batch(
    store: StoreView,
    keys: KeysView,
    files: Seq<(ContentId, Seq<u8>)>,
    present: Seq<ContentId>,
    peer_device_id: DeviceId,
    batch: ChangeBatchView,
    limits: LimitsView,
    now: i64,
) -> (StoreView, Result<AdmissionReportView, AdmissionProblem>) {
    match member_at(store, keys.group_id, peer_device_id) {
        Err(error) => (store, Err(AdmissionProblem::Store(error))),
        Ok(None) => (
            store,
            Err(
                AdmissionProblem::Store(
                    StoreError::UnknownGroupMember { device_id: peer_device_id },
                ),
            ),
        ),
        Ok(Some(member)) => if member.status != MemberStatus::Active {
            (
                store,
                Err(
                    AdmissionProblem::Store(
                        StoreError::MemberRevoked { device_id: peer_device_id },
                    ),
                ),
            )
        } else {
            match validated_batch(batch, limits) {
                Err(error) => (store, Err(AdmissionProblem::Protocol(error))),
                Ok(validated) => {
                    let (after, result) = incoming_changes(
                        store,
                        keys,
                        files,
                        present,
                        validated.records,
                        now,
                    );
                    match result {
                        Err(problem) => (after, Err(problem)),
                        Ok(tally) => settled_batch(
                            after,
                            keys.group_id,
                            peer_device_id,
                            present,
                            validated,
                            tally,
                            watermark_at(store, keys.group_id, peer_device_id),
                            now,
                        ),
                    }
                },
            }
        },
    }
}

/// The end of the admission of a batch: what is missing is asked of the peer, or else the peer's
/// log counts as read.
pub open spec fn settled_batch(
    store: StoreView,
    group_id: GroupId,
    peer_device_id: DeviceId,
    present: Seq<ContentId>,
    batch: BatchView,
    tally: Tally,
    known: u64,
    now: i64,
) -> (StoreView, Result<AdmissionReportView, AdmissionProblem>) {
    if tally.missing.len() > 0 {
        let missing = ordered_ids(tally.missing);
        (
            with_requests(
                store,
                group_id,
                peer_device_id,
                ordered_ids(missing),
                present,
                now,
            ).0,
            Ok(
                AdmissionReportView {
                    records_committed: tally.committed,
                    records_replayed: tally.replayed,
                    missing_content_ids: missing,
                    peer_high_watermark: known,
                },
            ),
        )
    } else {
        let through = accepted_through(batch, known);
        match sequence_problem(through) {
            Some(error) => (store, Err(AdmissionProblem::Store(error))),
            None => {
                let current = watermark_at(store, group_id, peer_device_id);
                let recorded = if current > through {
                    current
                } else {
                    through
                };
                (
                    StoreView {
                        watermarks: put(
                            store.watermarks,
                            DeviceKey { group_id, device_id: peer_device_id },
                            recorded,
                        ),
                        ..store
                    },
                    Ok(
                        AdmissionReportView {
                            records_committed: tally.committed,
                            records_replayed: tally.replayed,
                            missing_content_ids: seq![],
                            peer_high_watermark: recorded,
                        },
                    ),
                )
            },
        }
    }
}

/// What became of one change of a batch.
enum AdmittedChange {
    Committed,
    Replayed,
    Missing(Vec<ContentId>),
}

impl View for AdmittedChange {
    type V = ChangeFate;

    closed spec fn view(&self) -> ChangeFate {
        match *self {
            AdmittedChange::Committed => ChangeFate::Committed,
            AdmittedChange::Replayed => ChangeFate::Replayed,
            AdmittedChange::Missing(ids) => ChangeFate::Missing(ids@),
        }
    }
}

fn admit_change(
    change: &ValidatedEncryptedChange,
    keys: &GroupKeys,
    store: &mut Store,
    files: &ObjectFiles,
    present: &Vec<ContentId>,
    now: i64,
) -> (result: Result<AdmittedChange, ChangeBatchAdmissionError>)
    ensures
        final(store)@ == incoming_change(old(store)@, keys@, files@, present@, change@, now).0,
        agrees(
            result,
            incoming_change(old(store)@, keys@, files@, present@, change@, now).1,
        ),
{
    proof {
        reveal(incoming_change);
    }
    let record: ChangeRecord = match open_record(
        keys,
        change.content_id,
        change.encrypted_record.as_slice(),
    ) {
        Ok(record) => record,
        Err(RecordError::Crypto(error)) => {
            return Err(ChangeBatchAdmissionError::Crypto(error));
        },
        Err(RecordError::Envelope(error)) => {
            return Err(ChangeBatchAdmissionError::Envelope(error));
        },
        Err(RecordError::Manifest(error)) => {
            return Err(ChangeBatchAdmissionError::Manifest(error));
        },
    };
    if record.revision_id() != change.revision_id {
        return Err(
            ChangeBatchAdmissionError::RevisionMismatch {
                advertised: change.revision_id,
                manifest: record.revision_id(),
            },
        );
    }
    let group_id: GroupId = keys.group_id();
    let existing: Option<&[u8]> = file_of(files, change.content_id);
    let admission: Admission = match store.admit_object(
        keys,
        ObjectKind::Manifest,
        change.content_id,
        change.encrypted_record.as_slice(),
        existing,
        now,
    ) {
        Ok(admission) => admission,
        Err(error) => {
            return Err(ChangeBatchAdmissionError::Store(error));
        },
    };
    if let Err(error) = store.admit_change_authentication(
        group_id,
        change.revision_id,
        change.content_id,
        change.authorization,
    ) {
        return Err(ChangeBatchAdmissionError::Store(error));
    }
    let chunks: Vec<ContentId> = order_ids(&record.chunk_ids());
    let missing: Vec<ContentId> = find_missing(store, group_id, &chunks, present);
    if missing.len() > 0 {
        return Ok(AdmittedChange::Missing(missing));
    }
    let written: Option<&[u8]> = match admission {
        Admission::AlreadyPresent => existing,
        Admission::Stored => Some(change.encrypted_record.as_slice()),
    };
    match store.commit_signed_change(
        keys,
        change.revision_id,
        change.content_id,
        change.authorization,
        change.encrypted_record.as_slice(),
        &chunks,
        written,
        now,
    ) {
        Ok(commit) => if commit.inserted {
            Ok(AdmittedChange::Committed)
        } else {
            Ok(AdmittedChange::Replayed)
        },
        Err(error) => Err(ChangeBatchAdmissionError::Store(error)),
    }
}

proof fn lemma_incoming_prefix(
    store: StoreView,
    keys: KeysView,
    files: Seq<(ContentId, Seq<u8>)>,
    present: Seq<ContentId>,
    changes: Seq<ChangeView>,
    now: i64,
    count: int,
)
    requires
        0 <= count <= changes.len(),
        incoming_changes(store, keys, files, present, changes.take(count), now).1 is Err,
    ensures
        incoming_changes(store, keys, files, present, changes, now) == incoming_changes(
            store,
            keys,
            files,
            present,
            changes.take(count),
            now,
        ),
    decreases changes.len(),
{
    if count < changes.len() {
        assert(changes.drop_last().take(count) =~= changes.take(count));
        lemma_incoming_prefix(store, keys, files, present, changes.drop_last(), now, count);
    } else {
        assert(changes.take(count) =~= changes);
    }
}

/// What became of the changes of a batch.
struct AdmittedChanges {
    committed: usize,
    replayed: usize,
    missing: Vec<ContentId>,
}

impl View for AdmittedChanges {
    type V = Tally;

    closed spec fn view(&self) -> Tally {
        Tally {
            committed: self.committed as nat,
            replayed: self.replayed as nat,
            missing: self.missing@,
        }
    }
}

fn admit_changes(
    changes: &Vec<ValidatedEncryptedChange>,
    keys: &GroupKeys,
    store: &mut Store,
    files: &ObjectFiles,
    present: &Vec<ContentId>,
    now: i64,
) -> (result: Result<AdmittedChanges, ChangeBatchAdmissionError>)
    ensures
        final(store)@ == incoming_changes(
            old(store)@,
            keys@,
            files@,
            present@,
            list_view(changes@),
            now,
        ).0,
        agrees(
            result,
            incoming_changes(old(store)@, keys@, files@, present@, list_view(changes@), now).1,
        ),
{
    let mut committed: usize = 0;
    let mut replayed: usize = 0;
    let mut missing: Vec<ContentId> = Vec::new();
    let ghost views = list_view(changes@);
    let mut index: usize = 0;
    assert(views.take(0) =~= seq![]);
    while index < changes.len()
        invariant
            index <= changes@.len(),
            views == list_view(changes@),
            committed + replayed <= index,
            incoming_changes(
                old(store)@,
                keys@,
                files@,
                present@,
                views.take(index as int),
                now,
            ) == (
                store@,
                Ok::<Tally, AdmissionProblem>(
                    Tally {
                        committed: committed as nat,
                        replayed: replayed as nat,
                        missing: missing@,
                    },
                ),
            ),
        decreases changes@.len() - index,
    {
        let ghost next = views.take(index + 1);
        proof {
            assert(next.drop_last() =~= views.take(index as int));
            assert(next.last() == changes@[index as int]@);
            if incoming_changes(old(store)@, keys@, files@, present@, next, now).1 is Err {
                lemma_incoming_prefix(
                    old(store)@,
                    keys@,
                    files@,
                    present@,
                    views,
                    now,
                    index + 1,
                );
            }
        }
        match admit_change(&changes[index], keys, store, files, present, now)? {
            AdmittedChange::Committed => {
                committed += 1;
            },
            AdmittedChange::Replayed => {
                replayed += 1;
            },
            AdmittedChange::Missing(ids) => {
                append_ids(&mut missing, &ids);
            },
        }
        index += 1;
    }
    assert(views.take(index as int) =~= views);
    Ok(AdmittedChanges { committed, replayed, missing })
}

/// Admits a batch of changes from a peer. `files` holds the files of manifests, `present` names
/// the chunks whose files are there.
pub fn admit_change_batch(
    peer_device_id: DeviceId,
    batch: &ChangeBatch,
    keys: &GroupKeys,
    store: &mut Store,
    limits: ProtocolLimits,
    files: &ObjectFiles,
    present: &Vec<ContentId>,
    now: i64,
) -> (result: Result<ChangeBatchAdmissionReport, ChangeBatchAdmissionError>)
    ensures
        final(store)@ == incoming_batch(
            old(store)@,
            keys@,
            files@,
            present@,
            peer_device_id,
            batch@,
            limits@,
            now,
        ).0,
        agrees(
            result,
            incoming_batch(
                old(store)@,
                keys@,
                files@,
                present@,
                peer_device_id,
                batch@,
                limits@,
                now,
            ).1,
        ),
{
    let group_id: GroupId = keys.group_id();
    match store.group_member(group_id, peer_device_id) {
        Err(error) => {
            return Err(ChangeBatchAdmissionError::Store(error));
        },
        Ok(None) => {
            return Err(
                ChangeBatchAdmissionError::Store(
                    StoreError::UnknownGroupMember { device_id: peer_device_id },
                ),
            );
        },
        Ok(Some(peer)) => {
            if peer.status != MemberStatus::Active {
                return Err(
                    ChangeBatchAdmissionError::Store(
                        StoreError::MemberRevoked { device_id: peer_device_id },
                    ),
                );
            }
        },
    }
    let validated: ValidatedChangeBatch = match validate_change_batch(batch, limits) {
        Ok(validated) => validated,
        Err(error) => {
            return Err(ChangeBatchAdmissionError::Protocol(error));
        },
    };
    let known: u64 = store.peer_high_watermark(group_id, peer_device_id);
    let admitted: AdmittedChanges = admit_changes(
        &validated.records,
        keys,
        store,
        files,
        present,
        now,
    )?;
    settle_batch(&validated, admitted, group_id, peer_device_id, store, present, known, now)
}

fn settle_batch(
    batch: &ValidatedChangeBatch,
    admitted: AdmittedChanges,
    group_id: GroupId,
    peer_device_id: DeviceId,
    store: &mut Store,
    present: &Vec<ContentId>,
    known: u64,
    now: i64,
) -> (result: Result<ChangeBatchAdmissionReport, ChangeBatchAdmissionError>)
    ensures
        final(store)@ == settled_batch(
            old(store)@,
            group_id,
            peer_device_id,
            present@,
            batch@,
            admitted@,
            known,
            now,
        ).0,
        agrees(
            result,
            settled_batch(
                old(store)@,
                group_id,
                peer_device_id,
                present@,
                batch@,
                admitted@,
                known,
                now,
            ).1,
        ),
{
    if admitted.missing.len() > 0 {
        let missing_content_ids: Vec<ContentId> = order_ids(&admitted.missing);
        store.queue_object_requests(
            group_id,
            peer_device_id,
            &missing_content_ids,
            present,
            now,
        );
        return Ok(
            ChangeBatchAdmissionReport {
                records_committed: admitted.committed,
                records_replayed: admitted.replayed,
                missing_content_ids,
                peer_high_watermark: known,
            },
        );
    }
    let count: usize = batch.records.len();
    let through: u64 = if batch.has_more {
        if count == 0 {
            known
        } else {
            batch.records[count - 1].sequence
        }
    } else {
        batch.high_watermark
    };
    match store.record_peer_high_watermark(group_id, peer_device_id, through) {
        Ok(peer_high_watermark) => Ok(
            ChangeBatchAdmissionReport {
                records_committed: admitted.committed,
                records_replayed: admitted.replayed,
                missing_content_ids: Vec::new(),
                peer_high_watermark,
            },
        ),
        Err(error) => Err(ChangeBatchAdmissionError::Store(error)),
    }
}

/// Appends identifiers to others.
pub fn append_ids(target: &mut Vec<ContentId>, ids: &Vec<ContentId>)
    ensures
        final(target)@ == old(target)@ + ids@,
{
    let ghost start = target@;
    let mut index: usize = 0;
    assert(ids@.take(0) =~= seq![]);
    assert(start + ids@.take(0) =~= start);
    while index < ids.len()
        invariant
            index <= ids@.len(),
            target@ == start + ids@.take(index as int),
        decreases ids@.len() - index,
    {
        target.push(ids[index]);
        assert(ids@.take(index + 1) =~= ids@.take(index as int).push(ids@[index as int]));
        index += 1;
    }
    assert(ids@.take(index as int) =~= ids@);
}

} // verus!
