//! How a change that arrives is carried out to the end: when it is refused, how two edits are put
//! in place beside each other, and what is left of it once it is done.
use vstd::prelude::*;
use vstd::string::StringSliceAdditionalSpecFns;

use crate::applier::{
    apply_begun, apply_resumed, conflict_files, copy_made, keep_both,
};
use crate::apply::{
    begun, ensured, finished, job_committed, job_problem, pending_for_record, pending_found,
    pending_row, JobView, OutcomeView, SequelView, StepView,
};
use crate::catalog::{PathKey, RevisionKey, StoreError};
use crate::chance::DrawView;
use crate::conflict::{reconciled, ReconcileAction};
use crate::conflict_name::conflict_display;
use crate::conflict_record::{conflict_derived, conflict_manifest, conflict_uuid, device_label};
use crate::envelope::ObjectKind;
use crate::history::{
    head_at, is_materialized, local_head_committed, signed_local_change_committed, LocalHead,
    MaterializationAdmission, PendingView,
};
use crate::identity::AuthorizationView;
use crate::ids::{ContentId, RevisionId};
use crate::keys::KeysView;
use crate::loading::{
    attached, chunks_checked, head_loaded, record_loaded, ApplyProblem, LoadedView,
};
use crate::opening::{opened_record, sealed_record, SealedView};
use crate::order::ordered_ids;
use crate::path::{path_forms, path_problem};
use crate::record::{ChangeRecordKind, ManifestView, RecordView};
use crate::store::{
    admission_verdict, after_load, authentication_verdict, loaded, verified_object,
    with_authentication, with_object, StoreView,
};
use crate::table::{lemma_lookup_put, lookup, removed};

verus! {

/// A record is loaded where its object is there and genuine, holds a record, and no other contents
/// are on record for its revision; and nowhere else. It comes with the signature that is on
/// record.
pub proof fn law_record_is_loaded_with_its_signature(
    store: StoreView,
    keys: KeysView,
    files: Seq<(ContentId, Seq<u8>)>,
    content_id: ContentId,
)
    ensures
        ({
            let (after, result) = record_loaded(store, keys, files, content_id);
            let file = lookup(files, content_id);
            let bytes = loaded(store, keys, ObjectKind::Manifest, content_id, file);
            let opened = opened_record(keys, content_id, file->0);
            let row = lookup(
                store.authentications,
                RevisionKey { group_id: keys.group_id, revision_id: opened->Ok_0.revision_id() },
            );
            &&& after == after_load(store, keys, ObjectKind::Manifest, content_id, file)
            &&& result is Ok <==> {
                &&& bytes is Ok
                &&& opened is Ok
                &&& row matches Some(row) ==> row.content_id == content_id
            }
            &&& result matches Ok(record) ==> {
                &&& record.record == opened->Ok_0
                &&& record.content_id == content_id
                &&& Some(record.encrypted_bytes) == file
                &&& record.authorization is Some <==> row is Some
                &&& record.authorization is Some ==> record.authorization->0
                    == row->0.authorization
            }
            &&& result is Err && bytes is Ok && opened is Ok ==> result->Err_0
                == (ApplyProblem::AuthenticationContentMismatch {
                revision_id: opened->Ok_0.revision_id(),
            })
            &&& bytes is Err ==> result->Err_0 == ApplyProblem::Store(bytes->Err_0)
        }),
{
}

/// A change that arrives without its record, or with a signature that is not the one on record or
/// does not count, is refused; what was noted of its object stays.
pub proof fn law_unsigned_arrivals_are_refused(
    store: StoreView,
    keys: KeysView,
    files: Seq<(ContentId, Seq<u8>)>,
    content_id: ContentId,
    authorization: AuthorizationView,
    draw: DrawView,
    now: i64,
)
    ensures
        ({
            let (read, record) = record_loaded(store, keys, files, content_id);
            let (after, result) = apply_begun(
                store,
                keys,
                files,
                content_id,
                authorization,
                draw,
                now,
            );
            match record {
                Err(problem) => after == read && result == Err::<StepView, ApplyProblem>(problem),
                Ok(record) => match record.authorization {
                    Some(existing) => existing != authorization ==> after == read && result
                        == Err::<StepView, ApplyProblem>(
                        ApplyProblem::ChangeAuthorizationMismatch {
                            revision_id: record.record.revision_id(),
                        },
                    ),
                    None => authentication_verdict(
                        read,
                        keys.group_id,
                        record.record.revision_id(),
                        content_id,
                        authorization,
                    ) matches Err(error) ==> after == read && result == Err::<
                        StepView,
                        ApplyProblem,
                    >(ApplyProblem::Store(error)),
                },
            }
        }),
{
}

/// A signature is attached to a record once: the one on record has to be the same, and a new one
/// has to count and is put on record.
pub proof fn law_signature_is_attached_once(
    store: StoreView,
    keys: KeysView,
    record: LoadedView,
    authorization: AuthorizationView,
)
    ensures
        ({
            let (after, result) = attached(store, keys.group_id, record, authorization);
            let verdict = authentication_verdict(
                store,
                keys.group_id,
                record.record.revision_id(),
                record.content_id,
                authorization,
            );
            &&& result is Ok <==> if record.authorization is Some {
                record.authorization->0 == authorization
            } else {
                verdict is Ok
            }
            &&& result matches Ok(signed) ==> {
                &&& signed.authorization == Some(authorization)
                &&& signed.record == record.record
                &&& signed.content_id == record.content_id
                &&& signed.encrypted_bytes == record.encrypted_bytes
            }
            &&& result is Err ==> after == store
            &&& record.authorization is Some ==> after == store
            &&& record.authorization is None && verdict is Ok ==> after == with_authentication(
                store,
                keys.group_id,
                record.record.revision_id(),
                record.content_id,
                authorization,
            )
        }),
{
}

/// What stands at a path is what its record says, of the kind and at the path of the head; or it
/// is not gone by.
pub proof fn law_head_is_loaded_as_it_stands(
    store: StoreView,
    keys: KeysView,
    files: Seq<(ContentId, Seq<u8>)>,
    head: LocalHead,
)
    ensures
        ({
            let (after, result) = head_loaded(store, keys, files, head);
            let (read, record) = record_loaded(store, keys, files, head.content_id);
            &&& after == read
            &&& match record {
                Err(problem) => result == Err::<RecordView, ApplyProblem>(problem),
                Ok(record) => {
                    &&& result is Ok <==> {
                        &&& record.record is File <==> head.kind == ChangeRecordKind::File
                        &&& keys.path_id(record.record.path().comparison_key) == head.path_id
                    }
                    &&& result is Ok ==> result->Ok_0 == record.record
                },
            }
        }),
{
}

/// Where the two edits that meet both have all their chunks, the copy is put in place first, never
/// over anything; where the incoming edit stays at the path, it follows, in the place of the one
/// that was there; and it is told that both were kept once nothing is left to be done.
pub proof fn law_both_edits_are_put_in_place(
    store: StoreView,
    keys: KeysView,
    files: Seq<(ContentId, Seq<u8>)>,
    local: ManifestView,
    previous: ContentId,
    incoming: LoadedView,
    canonical_revision: RevisionId,
    conflict_revision: RevisionId,
    draw: DrawView,
    now: i64,
)
    requires
        incoming.record matches RecordView::File(theirs) && {
            ||| canonical_revision == theirs.revision_id && conflict_revision == local.revision_id
            ||| canonical_revision == local.revision_id && conflict_revision == theirs.revision_id
                && local.revision_id != theirs.revision_id
        },
    ensures
        ({
            let theirs = incoming.record->File_0;
            let incoming_stays = canonical_revision == theirs.revision_id;
            let (first, ours_missing) = chunks_checked(
                store,
                keys,
                files,
                RecordView::File(local),
            );
            let (second, theirs_missing) = chunks_checked(first, keys, files, incoming.record);
            let (derived, copy) = conflict_derived(
                second,
                keys,
                files,
                if incoming_stays {
                    local
                } else {
                    theirs
                },
                draw.nonce,
                now,
            );
            let (placed, place) = ensured(
                derived,
                keys,
                conflict_files(keys, files, copy->Ok_0),
                copy->Ok_0,
                None,
                true,
                draw.token,
            );
            let (replaced, replacement) = ensured(
                placed,
                keys,
                files,
                incoming,
                Some(previous),
                false,
                draw.token,
            );
            let outcome = OutcomeView::KeptBoth {
                canonical_revision,
                conflict_revision,
                conflict_path: copy->Ok_0.record.path(),
            };
            let (after, result) = keep_both(
                store,
                keys,
                files,
                RecordView::File(local),
                previous,
                incoming,
                canonical_revision,
                conflict_revision,
                draw,
                now,
            );
            if ours_missing is Err {
                after == first && result == Err::<StepView, ApplyProblem>(ours_missing->Err_0)
            } else if theirs_missing is Err {
                after == second && result == Err::<StepView, ApplyProblem>(theirs_missing->Err_0)
            } else if ours_missing->Ok_0.len() + theirs_missing->Ok_0.len() > 0 {
                &&& after == second
                &&& result == Ok::<StepView, ApplyProblem>(
                    StepView::Done(
                        OutcomeView::MissingObjects {
                            content_ids: ordered_ids(ours_missing->Ok_0 + theirs_missing->Ok_0),
                        },
                    ),
                )
            } else if copy is Err {
                after == derived && result == Err::<StepView, ApplyProblem>(copy->Err_0)
            } else {
                match place {
                    Err(problem) => after == placed && result == Err::<StepView, ApplyProblem>(
                        problem,
                    ),
                    Ok(Some(job)) => after == placed && result == Ok::<StepView, ApplyProblem>(
                        StepView::Materialize {
                            job,
                            sequel: if incoming_stays {
                                SequelView::Replace {
                                    incoming,
                                    expected_previous_content_id: previous,
                                    outcome,
                                }
                            } else {
                                SequelView::Finish(outcome)
                            },
                        },
                    ),
                    Ok(None) => if !incoming_stays {
                        after == placed && result == Ok::<StepView, ApplyProblem>(
                            StepView::Done(outcome),
                        )
                    } else {
                        &&& after == replaced
                        &&& match replacement {
                            Err(problem) => result == Err::<StepView, ApplyProblem>(problem),
                            Ok(Some(job)) => result == Ok::<StepView, ApplyProblem>(
                                StepView::Materialize { job, sequel: SequelView::Finish(outcome) },
                            ),
                            Ok(None) => result == Ok::<StepView, ApplyProblem>(
                                StepView::Done(outcome),
                            ),
                        }
                    },
                }
            }
        }),
{
}

/// The copy of an edit is read from its file where that is genuine, and otherwise from what was
/// just made of it; no other file is looked at.
pub proof fn law_copy_is_read_from_its_genuine_file(
    keys: KeysView,
    files: Seq<(ContentId, Seq<u8>)>,
    copy: LoadedView,
    other: ContentId,
)
    requires
        other != copy.content_id,
    ensures
        ({
            let stored = conflict_files(keys, files, copy);
            let file = lookup(files, copy.content_id);
            &&& lookup(stored, other) is None
            &&& lookup(stored, copy.content_id) == if file is Some && verified_object(
                keys,
                ObjectKind::Manifest,
                copy.content_id,
                file->0,
            ) is Ok {
                file
            } else {
                Some(copy.encrypted_bytes)
            }
        }),
{
    let bytes = match lookup(files, copy.content_id) {
        Some(bytes) => if verified_object(
            keys,
            ObjectKind::Manifest,
            copy.content_id,
            bytes,
        ) is Ok {
            bytes
        } else {
            copy.encrypted_bytes
        },
        None => copy.encrypted_bytes,
    };
    lemma_lookup_put(
        Seq::<(ContentId, Seq<u8>)>::empty(),
        copy.content_id,
        bytes,
        copy.content_id,
    );
    lemma_lookup_put(Seq::<(ContentId, Seq<u8>)>::empty(), copy.content_id, bytes, other);
}

/// A copy is made where two edits meet that are both kept and have all their chunks, of the one
/// that does not stay at the path; and nowhere else.
pub proof fn law_copy_is_made_where_both_are_kept(
    before: StoreView,
    keys: KeysView,
    files: Seq<(ContentId, Seq<u8>)>,
    content_id: ContentId,
    authorization: AuthorizationView,
    nonce: Option<Seq<u8>>,
    now: i64,
    unsigned: LoadedView,
    incoming: LoadedView,
    head: LocalHead,
    local: RecordView,
)
    requires
        record_loaded(before, keys, files, content_id).1 == Ok::<LoadedView, ApplyProblem>(
            unsigned,
        ),
        ({
            let read = record_loaded(before, keys, files, content_id).0;
            let (store, result) = attached(read, keys.group_id, unsigned, authorization);
            let path_id = keys.path_id(incoming.record.path().comparison_key);
            &&& result == Ok::<LoadedView, ApplyProblem>(incoming)
            &&& pending_found(store, keys.group_id, path_id) == Ok::<
                Option<PendingView>,
                StoreError,
            >(None)
            &&& head_at(store, keys.group_id, path_id) == Some(head)
            &&& head_loaded(store, keys, files, head).1 == Ok::<RecordView, ApplyProblem>(local)
        }),
    ensures
        ({
            let read = record_loaded(before, keys, files, content_id).0;
            let store = attached(read, keys.group_id, unsigned, authorization).0;
            let looked = head_loaded(store, keys, files, head).0;
            let made = copy_made(before, keys, files, content_id, authorization, nonce, now);
            match (reconciled(local, incoming.record), local, incoming.record) {
                (
                    Ok(ReconcileAction::KeepBoth { canonical_revision, conflict_revision }),
                    RecordView::File(ours),
                    RecordView::File(theirs),
                ) => {
                    let (first, ours_missing) = chunks_checked(looked, keys, files, local);
                    let (second, theirs_missing) = chunks_checked(
                        first,
                        keys,
                        files,
                        incoming.record,
                    );
                    let complete = (ours_missing matches Ok(ids) && ids.len() == 0) && (
                    theirs_missing matches Ok(ids) && ids.len() == 0);
                    if complete && canonical_revision == theirs.revision_id && conflict_revision
                        == ours.revision_id {
                        is_copy(conflict_derived(second, keys, files, ours, nonce, now).1, made)
                    } else if complete && canonical_revision == ours.revision_id
                        && conflict_revision == theirs.revision_id {
                        is_copy(conflict_derived(second, keys, files, theirs, nonce, now).1, made)
                    } else {
                        made is None
                    }
                },
                _ => made is None,
            }
        }),
{
}

/// What was made is the copy that was derived, where one was.
pub open spec fn is_copy(
    derived: Result<LoadedView, ApplyProblem>,
    made: Option<SealedView>,
) -> bool {
    match derived {
        Ok(copy) => made matches Some(sealed) && sealed.content_id == copy.content_id
            && sealed.bytes == copy.encrypted_bytes,
        Err(_) => made is None,
    }
}

/// A record that stands at its path already needs nothing; whatever is put at a path is noted in
/// the store, and nothing else is changed by that.
pub proof fn law_record_in_place_needs_nothing(
    store: StoreView,
    keys: KeysView,
    files: Seq<(ContentId, Seq<u8>)>,
    record: LoadedView,
    expected_previous: Option<ContentId>,
    reject_occupied: bool,
    token: Option<Seq<u8>>,
)
    ensures
        ({
            let path_id = keys.path_id(record.record.path().comparison_key);
            let (after, result) = ensured(
                store,
                keys,
                files,
                record,
                expected_previous,
                reject_occupied,
                token,
            );
            match (
                pending_found(store, keys.group_id, path_id),
                head_at(store, keys.group_id, path_id),
            ) {
                (Err(_), _) => after == store,
                (Ok(Some(pending)), _) => {
                    &&& after == store
                    &&& result is Ok <==> pending.target_content_id == record.content_id
                        && job_problem(keys, JobView { pending, loaded: record }) is None
                },
                (Ok(None), Some(head)) => if head.content_id == record.content_id {
                    let (read, existing) = head_loaded(store, keys, files, head);
                    &&& after == read
                    &&& existing == Ok::<RecordView, ApplyProblem>(record.record) <==> result
                        == Ok::<Option<JobView>, ApplyProblem>(None)
                    &&& existing matches Err(problem) ==> result == Err::<
                        Option<JobView>,
                        ApplyProblem,
                    >(problem)
                    &&& existing is Ok && existing->Ok_0 != record.record ==> result == Err::<
                        Option<JobView>,
                        ApplyProblem,
                    >(ApplyProblem::RecordContentMismatch { path_id })
                } else if reject_occupied {
                    after == store
                } else {
                    is_noted(store, keys, record, expected_previous, token, after, result)
                },
                (Ok(None), None) => is_noted(
                    store,
                    keys,
                    record,
                    expected_previous,
                    token,
                    after,
                    result,
                ),
            }
        }),
{
}

/// The record is noted for its path, unless a file lacks the chance for its stage or the store
/// refuses it.
pub open spec fn is_noted(
    store: StoreView,
    keys: KeysView,
    record: LoadedView,
    expected_previous: Option<ContentId>,
    token: Option<Seq<u8>>,
    after: StoreView,
    result: Result<Option<JobView>, ApplyProblem>,
) -> bool {
    let (noted, verdict) = begun(
        store,
        keys.group_id,
        record,
        pending_for_record(keys, record, expected_previous, token),
    );
    if record.record is File && token is None {
        after == store && result == Err::<Option<JobView>, ApplyProblem>(ApplyProblem::Randomness)
    } else {
        &&& after == noted
        &&& result is Ok <==> verdict is Ok
        &&& verdict matches Err(error) ==> result == Err::<Option<JobView>, ApplyProblem>(
            ApplyProblem::Store(error),
        )
    }
}

/// A job that is done is committed, and what was noted for its path is taken away; where the
/// commitment fails, or nothing was noted, that is reported and what was noted stays.
pub proof fn law_done_job_is_no_longer_noted(
    store: StoreView,
    keys: KeysView,
    job: JobView,
    file: Option<Seq<u8>>,
    now: i64,
)
    ensures
        ({
            let pending = job.pending;
            let (committed, commit) = job_committed(store, keys, job, file, now);
            let (after, result) = finished(store, keys, job, file, now);
            let there = is_materialized(
                committed,
                keys.group_id,
                pending.path_id,
                pending.target_content_id,
            );
            &&& result is Ok <==> commit is Ok && there
            &&& result is Ok ==> after == StoreView {
                pending: removed(
                    committed.pending,
                    PathKey { group_id: keys.group_id, path_id: pending.path_id },
                ),
                ..committed
            }
            &&& result is Err ==> after == committed
            &&& commit matches Err(error) ==> result == Err::<(), ApplyProblem>(
                ApplyProblem::Store(error),
            )
            &&& commit is Ok && !there ==> result == Err::<(), ApplyProblem>(
                ApplyProblem::MaterializationJournalMissing {
                    path_id: pending.path_id,
                    target_content_id: pending.target_content_id,
                },
            )
        }),
{
}

/// Where the copy was put in place for an edit that gives way, the incoming edit is put in its
/// place next, in the store that the copy has left.
pub proof fn law_incoming_edit_follows_the_copy(
    store: StoreView,
    keys: KeysView,
    files: Seq<(ContentId, Seq<u8>)>,
    job: JobView,
    incoming: LoadedView,
    previous: ContentId,
    outcome: OutcomeView,
    draw: DrawView,
    now: i64,
)
    requires
        finished(store, keys, job, lookup(files, job.pending.target_content_id), now).1 is Ok,
    ensures
        ({
            let done = finished(
                store,
                keys,
                job,
                lookup(files, job.pending.target_content_id),
                now,
            ).0;
            apply_resumed(
                store,
                keys,
                files,
                job,
                SequelView::Replace { incoming, expected_previous_content_id: previous, outcome },
                draw,
                now,
            ).0 == ensured(done, keys, files, incoming, Some(previous), false, draw.token).0
        }),
{
}

/// A job commits its record as the head of its path, in the place of what was expected there: with
/// the signature that it came with, or as the device's own where it has none. Where its object is
/// not admitted, nothing is committed.
pub proof fn law_job_commits_its_record(
    store: StoreView,
    keys: KeysView,
    job: JobView,
    file: Option<Seq<u8>>,
    now: i64,
)
    ensures
        ({
            let target = job.pending.target_content_id;
            let record = job.loaded.record;
            let bytes = job.loaded.encrypted_bytes;
            let kind = if record is File {
                ChangeRecordKind::File
            } else {
                ChangeRecordKind::Tombstone
            };
            let admitted = with_object(
                store,
                keys,
                ObjectKind::Manifest,
                target,
                bytes,
                file,
                now,
            );
            let (after, result) = job_committed(store, keys, job, file, now);
            match (
                admission_verdict(keys, ObjectKind::Manifest, target, bytes, file),
                job.loaded.authorization,
            ) {
                (Err(error), _) => after == store && result == Err::<(), StoreError>(error),
                (Ok(_), Some(authorization)) => {
                    let (committed, commit) = signed_local_change_committed(
                        admitted,
                        keys.group_id,
                        job.pending.path_id,
                        job.pending.expected_previous_content_id,
                        record.revision_id(),
                        kind,
                        target,
                        authorization,
                        ordered_ids(record.chunk_ids()),
                    );
                    &&& after == committed
                    &&& result is Ok <==> commit is Ok
                    &&& commit matches Err(error) ==> result == Err::<(), StoreError>(error)
                },
                (Ok(_), None) => (after, result) == local_head_committed(
                    admitted,
                    keys.group_id,
                    job.pending.path_id,
                    job.pending.expected_previous_content_id,
                    kind,
                    target,
                    ordered_ids(record.chunk_ids()),
                ),
            }
        }),
{
}

/// What is noted for a path is noted with the signature that it came with, once; where the store
/// refuses it, nothing is noted.
pub proof fn law_change_is_noted_with_its_signature(
    store: StoreView,
    keys: KeysView,
    record: LoadedView,
    pending: PendingView,
)
    ensures
        ({
            let (after, result) = begun(store, keys.group_id, record, pending);
            let key = PathKey { group_id: keys.group_id, path_id: pending.path_id };
            let signed = match record.authorization {
                Some(authorization) => with_authentication(
                    store,
                    keys.group_id,
                    record.record.revision_id(),
                    record.content_id,
                    authorization,
                ),
                None => store,
            };
            &&& result is Err ==> after == store
            &&& result matches Ok(MaterializationAdmission::AlreadyPending) ==> after == signed
            &&& result matches Ok(MaterializationAdmission::Queued) ==> {
                &&& after == StoreView { pending: after.pending, ..signed }
                &&& lookup(after.pending, key) matches Some(row)
                &&& row.target_content_id == pending.target_content_id
                &&& row.expected_previous_content_id == pending.expected_previous_content_id
                &&& row.kind == pending.kind
                &&& row.stage_name == pending.stage_name
            }
        }),
{
    let key = PathKey { group_id: keys.group_id, path_id: pending.path_id };
    lemma_lookup_put(store.pending, key, pending_row(pending), key);
}

/// The copy of an edit is a file of its own: its path is that of the copy, its identifiers are
/// derived for it, each for a purpose of its own, and the rest is that of the edit. There is one
/// wherever that path is a path.
pub proof fn law_copy_is_a_file_of_its_own(keys: KeysView, source: ManifestView)
    ensures
        ({
            let display = conflict_display(
                source.path.display,
                device_label(source.version),
                source.modified_at_unix_ms as int,
                source.revision_id,
            );
            let path = path_forms(display);
            match conflict_manifest(keys, source) {
                Err(problem) => path_problem(display) == Some(problem),
                Ok(copy) => {
                    &&& path_problem(display) is None
                    &&& copy.path == path
                    &&& copy.file_id.value == conflict_uuid(
                        keys,
                        "orbit/conflict-file-id/v1".spec_bytes(),
                        source,
                        path,
                    )
                    &&& copy.revision_id.value == conflict_uuid(
                        keys,
                        "orbit/conflict-revision-id/v1".spec_bytes(),
                        source,
                        path,
                    )
                    &&& copy.size == source.size
                    &&& copy.modified_at_unix_ms == source.modified_at_unix_ms
                    &&& copy.version == source.version
                    &&& copy.chunks == source.chunks
                },
            }
        }),
{
}

/// The copy of an edit is sealed and admitted like any record, and carries no signature; where it
/// cannot be, nothing is left of it.
pub proof fn law_copy_is_admitted_unsigned(
    store: StoreView,
    keys: KeysView,
    files: Seq<(ContentId, Seq<u8>)>,
    source: ManifestView,
    nonce: Seq<u8>,
    now: i64,
)
    ensures
        ({
            let (after, result) = conflict_derived(store, keys, files, source, Some(nonce), now);
            let manifest = conflict_manifest(keys, source);
            let record = RecordView::File(manifest->Ok_0);
            let sealed = sealed_record(keys, record, nonce);
            let content_id = sealed->Ok_0.content_id;
            let bytes = sealed->Ok_0.bytes;
            let existing = lookup(files, content_id);
            let verdict = admission_verdict(
                keys,
                ObjectKind::Manifest,
                content_id,
                bytes,
                existing,
            );
            &&& result is Ok <==> manifest is Ok && sealed is Ok && verdict is Ok
            &&& result is Err ==> after == store
            &&& result matches Ok(copy) ==> {
                &&& copy.record == record
                &&& copy.content_id == content_id
                &&& copy.encrypted_bytes == bytes
                &&& copy.authorization is None
                &&& after == with_object(
                    store,
                    keys,
                    ObjectKind::Manifest,
                    content_id,
                    bytes,
                    existing,
                    now,
                )
            }
        }),
{
}

} // verus!
