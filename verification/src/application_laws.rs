//! What becomes of a change that arrives: that it takes its path, gives way, or is kept beside
//! what stands there.
use vstd::prelude::*;

use crate::applier::{
    apply_begun, apply_resumed, conflict_files, keep_both, recovery_begun, RecoveryView,
};
use crate::apply::{
    begun, ensured, find_pending, finished, job_problem, pending_for_record, pending_found,
    JobView, OutcomeView, SequelView, StepView,
};
use crate::catalog::{stage_name_of, PathKey, PendingRowView, RevisionKey, StoreError};
use crate::chance::DrawView;
use crate::conflict::{reconciled, ReconcileAction, ReconcileError};
use crate::conflict_record::conflict_derived;
use crate::history::{head_at, pending_keys, pending_list, pending_of, LocalHead, PendingView};
use crate::identity::AuthorizationView;
use crate::ids::{ContentId, GroupId, PathId};
use crate::keys::KeysView;
use crate::loading::{
    attached, chunks_checked, head_loaded, pending_problem, record_loaded, ApplyProblem, LoadedView,
};
use crate::opening::opened_record;
use crate::order::{lemma_sorted, sorted, SortKey};
use crate::record::{ChangeRecordKind, ManifestView, RecordView};
use crate::store::StoreView;
use crate::table::{distinct_keys, lemma_found, lemma_lookup, lookup};
use crate::text::hex_text;

verus! {

/// A change has arrived with its signature: `incoming` is its record, and `store` is what the
/// catalog is then.
pub open spec fn has_arrived(
    before: StoreView,
    keys: KeysView,
    files: Seq<(ContentId, Seq<u8>)>,
    content_id: ContentId,
    authorization: AuthorizationView,
    store: StoreView,
    incoming: LoadedView,
) -> bool {
    &&& record_loaded(before, keys, files, content_id).1 matches Ok(unsigned)
    &&& attached(
        record_loaded(before, keys, files, content_id).0,
        keys.group_id,
        unsigned,
        authorization,
    ) == (store, Ok::<LoadedView, ApplyProblem>(incoming))
}

/// What has arrived is the record that the file of the object holds, under the signature that it
/// came with, and that signature is on record.
pub proof fn law_arrived_record_is_that_of_its_file(
    before: StoreView,
    keys: KeysView,
    files: Seq<(ContentId, Seq<u8>)>,
    content_id: ContentId,
    authorization: AuthorizationView,
    store: StoreView,
    incoming: LoadedView,
)
    requires
        has_arrived(before, keys, files, content_id, authorization, store, incoming),
    ensures
        incoming.content_id == content_id,
        incoming.authorization == Some(authorization),
        lookup(files, content_id) == Some(incoming.encrypted_bytes),
        opened_record(keys, content_id, incoming.encrypted_bytes) == Ok::<
            RecordView,
            crate::opening::RecordProblem,
        >(incoming.record),
        lookup(
            store.authentications,
            RevisionKey { group_id: keys.group_id, revision_id: incoming.record.revision_id() },
        ) matches Some(row) && row.content_id == content_id && row.authorization == authorization,
{
    let loaded = record_loaded(before, keys, files, content_id).0;
    let key = RevisionKey { group_id: keys.group_id, revision_id: incoming.record.revision_id() };
    crate::table::lemma_lookup_put(
        loaded.authentications,
        key,
        crate::catalog::AuthenticationRowView { content_id, authorization },
        key,
    );
}

/// The job puts the record at the path of the record, in the place of what is expected there,
/// through a stage of its own where it is a file.
pub open spec fn is_job_for(
    keys: KeysView,
    record: LoadedView,
    expected_previous: Option<ContentId>,
    token: Option<Seq<u8>>,
    job: JobView,
) -> bool {
    &&& job.loaded == record
    &&& job.pending.path_id == keys.path_id(record.record.path().comparison_key)
    &&& job.pending.target_content_id == record.content_id
    &&& job.pending.expected_previous_content_id == expected_previous
    &&& record.record is File ==> {
        &&& job.pending.kind == ChangeRecordKind::File
        &&& token is Some
        &&& job.pending.stage_name == Some(stage_name_of(hex_text(token->0)))
    }
    &&& record.record is Tombstone ==> {
        &&& job.pending.kind == ChangeRecordKind::Tombstone
        &&& job.pending.stage_name is None
    }
}

/// What is told of a record that was put at its path.
pub open spec fn is_applied(record: RecordView, outcome: OutcomeView) -> bool {
    &&& outcome matches OutcomeView::Applied { revision_id, kind }
    &&& revision_id == record.revision_id()
    &&& record is File ==> kind == ChangeRecordKind::File
    &&& record is Tombstone ==> kind == ChangeRecordKind::Tombstone
}

/// A change whose path is free, or which takes the place of what stands there, is put there once
/// all its chunks are at hand: it is noted first, with what it is to take the place of. Where
/// chunks are missing it waits for them, and nothing else can become of it but an error of its
/// chunks, of the catalog or of chance.
pub proof fn law_newer_change_takes_its_path(
    before: StoreView,
    keys: KeysView,
    files: Seq<(ContentId, Seq<u8>)>,
    content_id: ContentId,
    authorization: AuthorizationView,
    draw: DrawView,
    now: i64,
    store: StoreView,
    incoming: LoadedView,
)
    requires
        has_arrived(before, keys, files, content_id, authorization, store, incoming),
        pending_found(
            store,
            keys.group_id,
            keys.path_id(incoming.record.path().comparison_key),
        ) == Ok::<Option<PendingView>, StoreError>(None),
        head_at(
            store,
            keys.group_id,
            keys.path_id(incoming.record.path().comparison_key),
        ) matches Some(head) ==> {
            &&& head_loaded(store, keys, files, head).1 matches Ok(local)
            &&& reconciled(local, incoming.record) == Ok::<ReconcileAction, ReconcileError>(
                ReconcileAction::UseIncoming,
            )
        },
    ensures
        ({
            let path_id = keys.path_id(incoming.record.path().comparison_key);
            let head = head_at(store, keys.group_id, path_id);
            let looked = match head {
                Some(head) => head_loaded(store, keys, files, head).0,
                None => store,
            };
            let expected = match head {
                Some(head) => Some(head.content_id),
                None => None,
            };
            let (checked, missing) = chunks_checked(looked, keys, files, incoming.record);
            let (after, result) = apply_begun(
                before,
                keys,
                files,
                content_id,
                authorization,
                draw,
                now,
            );
            let pending = pending_for_record(keys, incoming, expected, draw.token);
            let noted = begun(checked, keys.group_id, incoming, pending);
            match missing {
                Err(problem) => result == Err::<StepView, ApplyProblem>(problem),
                Ok(ids) => if ids.len() > 0 {
                    result == Ok::<StepView, ApplyProblem>(
                        StepView::Done(OutcomeView::MissingObjects { content_ids: ids }),
                    )
                } else if incoming.record is File && draw.token is None {
                    result == Err::<StepView, ApplyProblem>(ApplyProblem::Randomness)
                } else if noted.1 is Err {
                    result == Err::<StepView, ApplyProblem>(ApplyProblem::Store(noted.1->Err_0))
                } else {
                    &&& result matches Ok(StepView::Materialize { job, sequel })
                    &&& is_job_for(keys, incoming, expected, draw.token, job)
                    &&& sequel matches SequelView::Finish(outcome)
                    &&& is_applied(incoming.record, outcome)
                    &&& after == noted.0
                },
            }
        }),
{
}

/// A change that what stands at its path has seen already is passed over, and it is told which
/// revision stays; one that stands there is no change; and one of another file, or another
/// record of the same revision, is an error.
pub proof fn law_older_change_gives_way(
    before: StoreView,
    keys: KeysView,
    files: Seq<(ContentId, Seq<u8>)>,
    content_id: ContentId,
    authorization: AuthorizationView,
    draw: DrawView,
    now: i64,
    store: StoreView,
    incoming: LoadedView,
    head: LocalHead,
    local: RecordView,
)
    requires
        has_arrived(before, keys, files, content_id, authorization, store, incoming),
        pending_found(
            store,
            keys.group_id,
            keys.path_id(incoming.record.path().comparison_key),
        ) == Ok::<Option<PendingView>, StoreError>(None),
        head_at(
            store,
            keys.group_id,
            keys.path_id(incoming.record.path().comparison_key),
        ) == Some(head),
        head_loaded(store, keys, files, head).1 == Ok::<RecordView, ApplyProblem>(local),
    ensures
        ({
            let (after, result) = apply_begun(
                before,
                keys,
                files,
                content_id,
                authorization,
                draw,
                now,
            );
            match reconciled(local, incoming.record) {
                Ok(ReconcileAction::KeepLocal) => result == Ok::<StepView, ApplyProblem>(
                    StepView::Done(OutcomeView::KeptLocal { revision_id: local.revision_id() }),
                ) && after.heads == store.heads && after.pending == store.pending,
                Ok(ReconcileAction::NoChange) => result == Ok::<StepView, ApplyProblem>(
                    StepView::Done(OutcomeView::NoChange),
                ) && after.heads == store.heads && after.pending == store.pending,
                Err(error) => result == Err::<StepView, ApplyProblem>(
                    ApplyProblem::Reconcile(error),
                ),
                _ => true,
            }
        }),
{
}

/// Two edits that are both kept: once the chunks of both are at hand, the conflict copy is made,
/// of the one that does not stay at the path. Where that is the incoming one, its copy is all
/// that is to be done; where it is the one in place, the incoming one takes its place once the
/// copy is there. Either way it is told which revision is which, and where the copy is.
pub proof fn law_conflict_copy_is_made_of_the_other_edit(
    store: StoreView,
    keys: KeysView,
    files: Seq<(ContentId, Seq<u8>)>,
    local: ManifestView,
    previous: ContentId,
    incoming: LoadedView,
    draw: DrawView,
    now: i64,
)
    requires
        incoming.record matches RecordView::File(manifest) && manifest.revision_id
            != local.revision_id,
        reconciled(RecordView::File(local), incoming.record) matches Ok(action)
            && action is KeepBoth,
    ensures
        ({
            let action = reconciled(RecordView::File(local), incoming.record)->Ok_0;
            let theirs = incoming.record->File_0;
            let incoming_stays = action->canonical_revision == theirs.revision_id;
            let other = if incoming_stays {
                local
            } else {
                theirs
            };
            let (first, ours_missing) = chunks_checked(
                store,
                keys,
                files,
                RecordView::File(local),
            );
            let (second, theirs_missing) = chunks_checked(first, keys, files, incoming.record);
            let (derived, copy) = conflict_derived(second, keys, files, other, draw.nonce, now);
            let (after, result) = keep_both(
                store,
                keys,
                files,
                RecordView::File(local),
                previous,
                incoming,
                action->canonical_revision,
                action->conflict_revision,
                draw,
                now,
            );
            match result {
                Ok(StepView::Done(OutcomeView::MissingObjects { content_ids })) => {
                    ||| ours_missing is Ok && ours_missing->Ok_0.len() > 0
                    ||| theirs_missing is Ok && theirs_missing->Ok_0.len() > 0
                },
                Ok(step) => {
                    let outcome = OutcomeView::KeptBoth {
                        canonical_revision: action->canonical_revision,
                        conflict_revision: action->conflict_revision,
                        conflict_path: copy->Ok_0.record.path(),
                    };
                    &&& ours_missing is Ok && ours_missing->Ok_0.len() == 0
                    &&& theirs_missing is Ok && theirs_missing->Ok_0.len() == 0
                    &&& copy is Ok
                    &&& match step {
                        StepView::Done(told) => told == outcome,
                        StepView::Materialize { job, sequel } => {
                            ||| {
                                &&& job.loaded == copy->Ok_0
                                &&& !incoming_stays
                                &&& sequel == SequelView::Finish(outcome)
                            }
                            ||| {
                                &&& job.loaded == copy->Ok_0
                                &&& incoming_stays
                                &&& sequel == SequelView::Replace {
                                    incoming,
                                    expected_previous_content_id: previous,
                                    outcome,
                                }
                            }
                            ||| {
                                &&& job.loaded == incoming
                                &&& incoming_stays
                                &&& sequel == SequelView::Finish(outcome)
                            }
                        },
                    }
                },
                Err(problem) => {
                    ||| ours_missing is Err
                    ||| theirs_missing is Err
                    ||| copy is Err
                    ||| {
                        let stored = conflict_files(keys, files, copy->Ok_0);
                        let (placed, place) = ensured(
                            derived,
                            keys,
                            stored,
                            copy->Ok_0,
                            None,
                            true,
                            draw.token,
                        );
                        ||| place is Err
                        ||| {
                            &&& place == Ok::<Option<JobView>, ApplyProblem>(None)
                            &&& incoming_stays
                            &&& ensured(
                                placed,
                                keys,
                                files,
                                incoming,
                                Some(previous),
                                false,
                                draw.token,
                            ).1 is Err
                        }
                    }
                },
            }
        }),
{
    let action = reconciled(RecordView::File(local), incoming.record)->Ok_0;
    let (first, ours_missing) = chunks_checked(store, keys, files, RecordView::File(local));
    let (second, theirs_missing) = chunks_checked(first, keys, files, incoming.record);
    if ours_missing is Ok && theirs_missing is Ok {
        let missing = ours_missing->Ok_0 + theirs_missing->Ok_0;
        if missing.len() > 0 {
            assert(ours_missing->Ok_0.len() > 0 || theirs_missing->Ok_0.len() > 0);
        }
    }
}

/// Where two edits are both kept, applying the incoming one is just that, for the edits that
/// meet at the path.
pub proof fn law_concurrent_change_is_kept_beside(
    before: StoreView,
    keys: KeysView,
    files: Seq<(ContentId, Seq<u8>)>,
    content_id: ContentId,
    authorization: AuthorizationView,
    draw: DrawView,
    now: i64,
    store: StoreView,
    incoming: LoadedView,
    head: LocalHead,
    local: ManifestView,
)
    requires
        has_arrived(before, keys, files, content_id, authorization, store, incoming),
        pending_found(
            store,
            keys.group_id,
            keys.path_id(incoming.record.path().comparison_key),
        ) == Ok::<Option<PendingView>, StoreError>(None),
        head_at(
            store,
            keys.group_id,
            keys.path_id(incoming.record.path().comparison_key),
        ) == Some(head),
        head_loaded(store, keys, files, head).1 == Ok::<RecordView, ApplyProblem>(
            RecordView::File(local),
        ),
        reconciled(RecordView::File(local), incoming.record) matches Ok(action)
            && action is KeepBoth,
    ensures
        ({
            let action = reconciled(RecordView::File(local), incoming.record)->Ok_0;
            apply_begun(before, keys, files, content_id, authorization, draw, now) == keep_both(
                head_loaded(store, keys, files, head).0,
                keys,
                files,
                RecordView::File(local),
                head.content_id,
                incoming,
                action->canonical_revision,
                action->conflict_revision,
                draw,
                now,
            )
        }),
{
}

/// A change that was noted before goes on as it was noted, once its chunks are at hand; another
/// one waits until that is done.
pub proof fn law_noted_change_goes_on(
    before: StoreView,
    keys: KeysView,
    files: Seq<(ContentId, Seq<u8>)>,
    content_id: ContentId,
    authorization: AuthorizationView,
    draw: DrawView,
    now: i64,
    store: StoreView,
    incoming: LoadedView,
    pending: PendingView,
)
    requires
        has_arrived(before, keys, files, content_id, authorization, store, incoming),
        pending_found(
            store,
            keys.group_id,
            keys.path_id(incoming.record.path().comparison_key),
        ) == Ok::<Option<PendingView>, StoreError>(Some(pending)),
    ensures
        ({
            let (after, result) = apply_begun(
                before,
                keys,
                files,
                content_id,
                authorization,
                draw,
                now,
            );
            let (checked, missing) = chunks_checked(store, keys, files, incoming.record);
            if pending.target_content_id != content_id {
                &&& after == store
                &&& result == Err::<StepView, ApplyProblem>(
                    ApplyProblem::PendingTargetMismatch {
                        path_id: pending.path_id,
                        pending: pending.target_content_id,
                        requested: content_id,
                    },
                )
            } else {
                match missing {
                    Err(problem) => result == Err::<StepView, ApplyProblem>(problem),
                    Ok(ids) => if ids.len() > 0 {
                        result == Ok::<StepView, ApplyProblem>(
                            StepView::Done(OutcomeView::MissingObjects { content_ids: ids }),
                        )
                    } else {
                        match result {
                            Ok(StepView::Materialize { job, sequel }) => {
                                &&& job == JobView { pending, loaded: incoming }
                                &&& sequel matches SequelView::Finish(outcome)
                                &&& is_applied(incoming.record, outcome)
                                &&& after == checked
                            },
                            Ok(_) => false,
                            Err(problem) => job_problem(
                                keys,
                                JobView { pending, loaded: incoming },
                            ) == Some(problem),
                        }
                    },
                }
            }
        }),
{
}

/// A job fits its record exactly where it puts it at the record's path, as what the record is,
/// and has a stage where that is a file.
pub proof fn law_job_fits_its_record(keys: KeysView, job: JobView)
    ensures
        job_problem(keys, job) is None <==> {
            &&& job.pending.path_id == keys.path_id(job.loaded.record.path().comparison_key)
            &&& job.loaded.record is File ==> job.pending.kind == ChangeRecordKind::File
                && job.pending.stage_name is Some
            &&& job.loaded.record is Tombstone ==> job.pending.kind == ChangeRecordKind::Tombstone
        },
{
}

/// Once a job is done, what was to be told is told; and where the copy of the edit in place was
/// what was done, the incoming edit is next, in the place of that edit.
pub proof fn law_done_job_is_followed_up(
    store: StoreView,
    keys: KeysView,
    files: Seq<(ContentId, Seq<u8>)>,
    job: JobView,
    sequel: SequelView,
    draw: DrawView,
    now: i64,
)
    ensures
        ({
            let (done, finish) = finished(
                store,
                keys,
                job,
                lookup(files, job.pending.target_content_id),
                now,
            );
            let (after, result) = apply_resumed(store, keys, files, job, sequel, draw, now);
            match finish {
                Err(problem) => result == Err::<StepView, ApplyProblem>(problem) && after == done,
                Ok(_) => match sequel {
                    SequelView::Finish(outcome) => result == Ok::<StepView, ApplyProblem>(
                        StepView::Done(outcome),
                    ) && after == done,
                    SequelView::Replace {
                        incoming,
                        expected_previous_content_id,
                        outcome,
                    } => match ensured(
                        done,
                        keys,
                        files,
                        incoming,
                        Some(expected_previous_content_id),
                        false,
                        draw.token,
                    ).1 {
                        Err(problem) => result == Err::<StepView, ApplyProblem>(problem),
                        Ok(None) => result == Ok::<StepView, ApplyProblem>(
                            StepView::Done(outcome),
                        ),
                        Ok(Some(next)) => result == Ok::<StepView, ApplyProblem>(
                            StepView::Materialize { job: next, sequel: SequelView::Finish(outcome) },
                        ),
                    },
                },
            }
        }),
{
}

/// What is to be put at a path is noted once: what was noted is gone on with, what stands there
/// needs nothing, a conflict copy never takes the place of anything, and whatever else is put
/// there is noted with what it takes the place of.
pub proof fn law_record_is_ensured_once(
    store: StoreView,
    keys: KeysView,
    files: Seq<(ContentId, Seq<u8>)>,
    record: LoadedView,
    expected_previous: Option<ContentId>,
    reject_occupied: bool,
    token: Option<Seq<u8>>,
)
    ensures
        ({
            let path_id = keys.path_id(record.record.path().comparison_key);
            let result = ensured(
                store,
                keys,
                files,
                record,
                expected_previous,
                reject_occupied,
                token,
            ).1;
            let head = head_at(store, keys.group_id, path_id);
            match pending_found(store, keys.group_id, path_id) {
                Err(error) => result == Err::<Option<JobView>, ApplyProblem>(
                    ApplyProblem::Store(error),
                ),
                Ok(Some(pending)) => match result {
                    Ok(job) => pending.target_content_id == record.content_id && job == Some(
                        JobView { pending, loaded: record },
                    ),
                    Err(problem) => pending.target_content_id != record.content_id
                        || job_problem(keys, JobView { pending, loaded: record }) == Some(problem),
                },
                Ok(None) => {
                    &&& (head matches Some(head) && head.content_id == record.content_id) ==> (
                    result is Ok ==> result->Ok_0 is None && head_loaded(
                        store,
                        keys,
                        files,
                        head->0,
                    ).1 == Ok::<RecordView, ApplyProblem>(record.record))
                    &&& (head matches Some(head) && head.content_id != record.content_id
                        && reject_occupied) ==> result == Err::<Option<JobView>, ApplyProblem>(
                        ApplyProblem::ConflictPathOccupied {
                            path: record.record.path(),
                            existing: head->0.content_id,
                            target: record.content_id,
                        },
                    )
                    &&& (head is None || (head->0.content_id != record.content_id
                        && !reject_occupied)) ==> match result {
                        Ok(job) => job is Some && is_job_for(
                            keys,
                            record,
                            expected_previous,
                            token,
                            job->0,
                        ),
                        Err(problem) => {
                            ||| problem == ApplyProblem::Randomness && record.record is File
                                && token is None
                            ||| begun(
                                store,
                                keys.group_id,
                                record,
                                pending_for_record(keys, record, expected_previous, token),
                            ).1 is Err
                        },
                    }
                },
            }
        }),
{
}

/// What was left undone is taken up again: each change that was noted is put at its path once
/// its chunks are at hand, and else told of with the chunks that it waits for.
pub proof fn law_noted_change_is_recovered(
    store: StoreView,
    keys: KeysView,
    files: Seq<(ContentId, Seq<u8>)>,
    pending: PendingView,
)
    ensures
        ({
            let (first, load) = record_loaded(store, keys, files, pending.target_content_id);
            let (after, result) = recovery_begun(store, keys, files, pending);
            match result {
                Ok(RecoveryView::Materialize(job)) => {
                    &&& load is Ok
                    &&& job == JobView { pending, loaded: load->Ok_0 }
                    &&& job_problem(keys, job) is None
                    &&& chunks_checked(first, keys, files, load->Ok_0.record).1 == Ok::<
                        Seq<ContentId>,
                        ApplyProblem,
                    >(seq![])
                },
                Ok(RecoveryView::Blocked(blocked)) => {
                    &&& load is Ok
                    &&& blocked.path_id == pending.path_id
                    &&& blocked.missing_content_ids.len() > 0
                    &&& chunks_checked(first, keys, files, load->Ok_0.record).1 == Ok::<
                        Seq<ContentId>,
                        ApplyProblem,
                    >(blocked.missing_content_ids)
                },
                Err(problem) => {
                    ||| load == Err::<LoadedView, ApplyProblem>(problem)
                    ||| load is Ok && pending_problem(keys, pending, load->Ok_0.record) == Some(
                        problem,
                    )
                    ||| load is Ok && chunks_checked(first, keys, files, load->Ok_0.record).1
                        == Err::<Seq<ContentId>, ApplyProblem>(problem)
                    ||| load is Ok && job_problem(
                        keys,
                        JobView { pending, loaded: load->Ok_0 },
                    ) == Some(problem)
                },
            }
        }),
{
    let (first, load) = record_loaded(store, keys, files, pending.target_content_id);
    if load is Ok {
        match chunks_checked(first, keys, files, load->Ok_0.record).1 {
            Ok(missing) => {
                if missing.len() == 0 {
                    assert(missing =~= seq![]);
                }
            },
            Err(_) => {},
        }
    }
}

proof fn lemma_pending_key(
    rows: Seq<(PathKey, PendingRowView)>,
    group_id: GroupId,
    index: int,
)
    requires
        0 <= index < rows.len(),
        rows[index].0.group_id == group_id,
    ensures
        pending_keys(rows, group_id).contains(
            SortKey {
                time: 0,
                high: rows[index].0.path_id.high,
                low: rows[index].0.path_id.low,
            },
        ),
    decreases rows.len(),
{
    let key = SortKey {
        time: 0,
        high: rows[index].0.path_id.high,
        low: rows[index].0.path_id.low,
    };
    let all = pending_keys(rows, group_id);
    let front = rows.drop_last();
    if index == rows.len() - 1 {
        assert(all[all.len() - 1] == key);
    } else {
        let before = pending_keys(front, group_id);
        assert(front[index] == rows[index]);
        lemma_pending_key(front, group_id, index);
        let m = choose|m: int| 0 <= m < before.len() && before[m] == key;
        assert(all[m] == key);
    }
}

proof fn lemma_pending_key_row(
    rows: Seq<(PathKey, PendingRowView)>,
    group_id: GroupId,
    index: int,
) -> (row: int)
    requires
        0 <= index < pending_keys(rows, group_id).len(),
    ensures
        0 <= row < rows.len(),
        rows[row].0.group_id == group_id,
        pending_keys(rows, group_id)[index] == (SortKey {
            time: 0,
            high: rows[row].0.path_id.high,
            low: rows[row].0.path_id.low,
        }),
    decreases rows.len(),
{
    let front = rows.drop_last();
    if index < pending_keys(front, group_id).len() {
        let row = lemma_pending_key_row(front, group_id, index);
        assert(rows[row] == front[row]);
        row
    } else {
        rows.len() - 1
    }
}

proof fn lemma_pending_listed(store: StoreView, group_id: GroupId, keys: Seq<SortKey>, index: int)
    requires
        0 <= index < keys.len(),
        pending_list(store, group_id, keys) is Ok,
    ensures
        pending_list(store, group_id, keys)->Ok_0.len() == keys.len(),
        ({
            let path_id = PathId { high: keys[index].high, low: keys[index].low };
            pending_of(path_id, lookup(store.pending, PathKey { group_id, path_id })->0) == Ok::<
                PendingView,
                StoreError,
            >(pending_list(store, group_id, keys)->Ok_0[index])
        }),
    decreases keys.len(),
{
    let front = keys.drop_last();
    if index < front.len() {
        lemma_pending_listed(store, group_id, front, index);
        assert(front[index] == keys[index]);
    } else if front.len() > 0 {
        lemma_pending_listed(store, group_id, front, 0);
    }
}

proof fn lemma_find_pending(list: Seq<PendingView>, path_id: PathId)
    ensures
        match find_pending(list, path_id) {
            Some(pending) => list.contains(pending) && pending.path_id == path_id,
            None => forall|i: int| 0 <= i < list.len() ==> (#[trigger] list[i]).path_id != path_id,
        },
    decreases list.len(),
{
    if list.len() > 0 {
        let front = list.drop_last();
        lemma_find_pending(front, path_id);
        assert(list[list.len() - 1] == list.last());
        match find_pending(front, path_id) {
            Some(pending) => {
                let k = choose|k: int| 0 <= k < front.len() && front[k] == pending;
                assert(list[k] == pending);
            },
            None => {
                if find_pending(list, path_id) is None {
                    assert forall|i: int| 0 <= i < list.len() implies (#[trigger] list[i]).path_id
                        != path_id by {
                        if i < front.len() {
                            assert(front[i] == list[i]);
                        }
                    }
                }
            },
        }
    }
}

/// What is to be put at a path is found exactly where it is noted, and as it is noted.
pub proof fn law_noted_change_is_found_at_its_path(
    store: StoreView,
    group_id: GroupId,
    path_id: PathId,
)
    requires
        distinct_keys(store.pending),
    ensures
        match pending_found(store, group_id, path_id) {
            Ok(None) => lookup(store.pending, PathKey { group_id, path_id }) is None,
            Ok(Some(pending)) => {
                &&& lookup(store.pending, PathKey { group_id, path_id }) matches Some(row)
                &&& pending.path_id == path_id
                &&& pending.target_content_id == row.target_content_id
                &&& pending.expected_previous_content_id == row.expected_previous_content_id
                &&& pending.kind == row.kind
                &&& pending.stage_name == row.stage_name
            },
            Err(_) => true,
        },
{
    let keys = pending_keys(store.pending, group_id);
    let listed = sorted(keys);
    lemma_sorted(keys);
    match pending_list(store, group_id, listed) {
        Err(_) => {},
        Ok(list) => {
            lemma_find_pending(list, path_id);
            let key = PathKey { group_id, path_id };
            if listed.len() > 0 {
                lemma_pending_listed(store, group_id, listed, 0);
            }
            match find_pending(list, path_id) {
                Some(pending) => {
                    let k = choose|k: int| 0 <= k < list.len() && list[k] == pending;
                    lemma_pending_listed(store, group_id, listed, k);
                    assert(keys.contains(listed[k]));
                    let m = choose|m: int| 0 <= m < keys.len() && keys[m] == listed[k];
                    let row = lemma_pending_key_row(store.pending, group_id, m);
                    lemma_found(store.pending, row);
                },
                None => {
                    lemma_lookup(store.pending, key);
                    match lookup(store.pending, key) {
                        Some(value) => {
                            let i = choose|i: int|
                                0 <= i < store.pending.len() && store.pending[i] == (key, value);
                            lemma_pending_key(store.pending, group_id, i);
                            let sort_key = SortKey {
                                time: 0,
                                high: path_id.high,
                                low: path_id.low,
                            };
                            assert(listed.contains(sort_key));
                            let k = choose|k: int|
                                0 <= k < listed.len() && listed[k] == sort_key;
                            lemma_pending_listed(store, group_id, listed, k);
                            assert(list[k].path_id == path_id);
                        },
                        None => {},
                    }
                },
            }
        },
    }
}

} // verus!
