//! The steps by which an incoming change is applied.
use vstd::prelude::*;

use crate::apply::{
    applied_outcome, ensured, finish_materialization, finished, job_begun, job_problem,
    outcome_of, pending_found, ApplyOutcome, ApplyStep, BlockedMaterialization, BlockedView, Job,
    JobView, MaterializationRecoveryReport, OutcomeView, Sequel, SequelView, StepView,
};
use crate::apply::{begin_job, check_job, ensure_materialized, pending_for, Ensured};
use crate::bytes::copy_bytes;
use crate::catalog::StoreError;
use crate::chance::{nothing_drawn, Chance, Draw, DrawView};
use crate::conflict::{reconcile_change, reconciled, ReconcileAction};
use crate::conflict_record::{conflict_derived, derive_conflict_record};
use crate::envelope::ObjectKind;
use crate::exchange::append_ids;
use crate::history::{
    head_at, pending_keys, pending_list, pending_views, LocalHead, PendingMaterialization,
    PendingView,
};
use crate::identity::{AuthorizationView, ChangeAuthorization};
use crate::ids::{ContentId, GroupId, PathId, RevisionId};
use crate::keys::{CryptoError, GroupKeys, KeysView};
use crate::loading::{
    attach_incoming_authorization, attached, chunks_checked, head_loaded, load_head_record,
    load_record_object, pending_problem, preflight_chunks, record_loaded, validate_pending_record,
    ApplyError, ApplyProblem, LoadedRecord, LoadedView,
};
use crate::opening::{file_of, ObjectFiles, SealedRecord, SealedView};
use crate::order::{order_ids, ordered_ids, sorted};
use crate::outcome::agrees;
use crate::path::RelativePath;
use crate::record::{ChangeRecord, FileManifest, ManifestView, RecordView};
use crate::store::{verified_object, verify_object, Store, StoreView};
use crate::table::{lookup, put};

verus! {

/// The step that a job stands for.
pub open spec fn job_step(
    result: (StoreView, Result<Option<JobView>, ApplyProblem>),
    sequel: SequelView,
    outcome: OutcomeView,
) -> (StoreView, Result<StepView, ApplyProblem>) {
    match result.1 {
        Err(problem) => (result.0, Err(problem)),
        Ok(Some(job)) => (result.0, Ok(StepView::Materialize { job, sequel })),
        Ok(None) => (result.0, Ok(StepView::Done(outcome))),
    }
}

/// The step for a record that takes the path: `previous` is what it takes the place of.
pub open spec fn incoming_used(
    store: StoreView,
    keys: KeysView,
    files: Seq<(ContentId, Seq<u8>)>,
    incoming: LoadedView,
    previous: Option<ContentId>,
    token: Option<Seq<u8>>,
) -> (StoreView, Result<StepView, ApplyProblem>) {
    let (checked, result) = chunks_checked(store, keys, files, incoming.record);
    match result {
        Err(problem) => (checked, Err(problem)),
        Ok(missing) => if missing.len() > 0 {
            (
                checked,
                Ok(StepView::Done(OutcomeView::MissingObjects { content_ids: missing })),
            )
        } else {
            job_step(
                job_begun(checked, keys, incoming, previous, token),
                SequelView::Finish(outcome_of(incoming.record)),
                outcome_of(incoming.record),
            )
        },
    }
}

/// The step for a record whose path is waiting for something.
pub open spec fn pending_continued(
    store: StoreView,
    keys: KeysView,
    files: Seq<(ContentId, Seq<u8>)>,
    incoming: LoadedView,
    pending: PendingView,
) -> (StoreView, Result<StepView, ApplyProblem>) {
    let job = JobView { pending, loaded: incoming };
    if pending.target_content_id != incoming.content_id {
        (
            store,
            Err(
                ApplyProblem::PendingTargetMismatch {
                    path_id: pending.path_id,
                    pending: pending.target_content_id,
                    requested: incoming.content_id,
                },
            ),
        )
    } else {
        let (checked, result) = chunks_checked(store, keys, files, incoming.record);
        match result {
            Err(problem) => (checked, Err(problem)),
            Ok(missing) => if missing.len() > 0 {
                (
                    checked,
                    Ok(StepView::Done(OutcomeView::MissingObjects { content_ids: missing })),
                )
            } else {
                match job_problem(keys, job) {
                    Some(problem) => (checked, Err(problem)),
                    None => (
                        checked,
                        Ok(
                            StepView::Materialize {
                                job,
                                sequel: SequelView::Finish(outcome_of(incoming.record)),
                            },
                        ),
                    ),
                }
            },
        }
    }
}

/// The step after the conflict copy is in place: `canonical` where the incoming record takes the
/// path.
pub open spec fn both_kept(
    store: StoreView,
    keys: KeysView,
    files: Seq<(ContentId, Seq<u8>)>,
    canonical: bool,
    incoming: LoadedView,
    previous: ContentId,
    outcome: OutcomeView,
    token: Option<Seq<u8>>,
) -> (StoreView, Result<StepView, ApplyProblem>) {
    if canonical {
        job_step(
            ensured(store, keys, files, incoming, Some(previous), false, token),
            SequelView::Finish(outcome),
            outcome,
        )
    } else {
        (store, Ok(StepView::Done(outcome)))
    }
}

/// The file of the manifest of a conflict copy once it was derived: the one that was there, where
/// it is sound, and else the one that the derivation has made.
pub open spec fn conflict_files(
    keys: KeysView,
    files: Seq<(ContentId, Seq<u8>)>,
    conflict: LoadedView,
) -> Seq<(ContentId, Seq<u8>)> {
    let content_id = conflict.content_id;
    put(
        Seq::<(ContentId, Seq<u8>)>::empty(),
        content_id,
        match lookup(files, content_id) {
            Some(bytes) => if verified_object(keys, ObjectKind::Manifest, content_id, bytes) is Ok {
                bytes
            } else {
                conflict.encrypted_bytes
            },
            None => conflict.encrypted_bytes,
        },
    )
}

/// The step that makes the conflict copy of the losing one of two revisions.
pub open spec fn conflict_begun(
    store: StoreView,
    keys: KeysView,
    files: Seq<(ContentId, Seq<u8>)>,
    local: ManifestView,
    previous: ContentId,
    incoming: LoadedView,
    incoming_manifest: ManifestView,
    canonical: bool,
    canonical_revision: RevisionId,
    conflict_revision: RevisionId,
    draw: DrawView,
    now: i64,
) -> (StoreView, Result<StepView, ApplyProblem>) {
    let source = if canonical {
        local
    } else {
        incoming_manifest
    };
    let (derived, result) = conflict_derived(store, keys, files, source, draw.nonce, now);
    match result {
        Err(problem) => (derived, Err(problem)),
        Ok(conflict) => conflict_placed(
            derived,
            keys,
            files,
            conflict,
            previous,
            incoming,
            canonical,
            OutcomeView::KeptBoth {
                canonical_revision,
                conflict_revision,
                conflict_path: conflict.record.path(),
            },
            draw.token,
        ),
    }
}

/// The step that brings a conflict copy to its path, or what follows where it is there already.
pub open spec fn conflict_placed(
    store: StoreView,
    keys: KeysView,
    files: Seq<(ContentId, Seq<u8>)>,
    conflict: LoadedView,
    previous: ContentId,
    incoming: LoadedView,
    canonical: bool,
    outcome: OutcomeView,
    token: Option<Seq<u8>>,
) -> (StoreView, Result<StepView, ApplyProblem>) {
    let stored = conflict_files(keys, files, conflict);
    let (after, begun) = ensured(store, keys, stored, conflict, None, true, token);
    match begun {
        Err(problem) => (after, Err(problem)),
        Ok(Some(job)) => (
            after,
            Ok(
                StepView::Materialize {
                    job,
                    sequel: if canonical {
                        SequelView::Replace {
                            incoming,
                            expected_previous_content_id: previous,
                            outcome,
                        }
                    } else {
                        SequelView::Finish(outcome)
                    },
                },
            ),
        ),
        Ok(None) => both_kept(after, keys, files, canonical, incoming, previous, outcome, token),
    }
}

/// The conflict copy that was derived, in the form in which it is stored.
pub open spec fn derived_copy(derived: (StoreView, Result<LoadedView, ApplyProblem>)) -> Option<
    SealedView,
> {
    match derived.1 {
        Ok(conflict) => Some(
            SealedView { content_id: conflict.content_id, bytes: conflict.encrypted_bytes },
        ),
        Err(_) => None,
    }
}

/// Whether the incoming one of two revisions takes the path; none where the decision is not about
/// these two.
pub open spec fn incoming_wins(
    local: ManifestView,
    incoming: ManifestView,
    canonical_revision: RevisionId,
    conflict_revision: RevisionId,
) -> Option<bool> {
    if incoming.revision_id == canonical_revision && local.revision_id == conflict_revision {
        Some(true)
    } else if local.revision_id == canonical_revision && incoming.revision_id
        == conflict_revision {
        Some(false)
    } else {
        None
    }
}

/// The step for two revisions that are both kept.
pub open spec fn keep_both(
    store: StoreView,
    keys: KeysView,
    files: Seq<(ContentId, Seq<u8>)>,
    local: RecordView,
    previous: ContentId,
    incoming: LoadedView,
    canonical_revision: RevisionId,
    conflict_revision: RevisionId,
    draw: DrawView,
    now: i64,
) -> (StoreView, Result<StepView, ApplyProblem>) {
    match (local, incoming.record) {
        (RecordView::File(manifest), RecordView::File(incoming_manifest)) => match incoming_wins(
            manifest,
            incoming_manifest,
            canonical_revision,
            conflict_revision,
        ) {
            None => (store, Err(ApplyProblem::InvalidKeepBothDecision)),
            Some(canonical) => {
                let (first, local_result) = chunks_checked(store, keys, files, local);
                match local_result {
                    Err(problem) => (first, Err(problem)),
                    Ok(local_missing) => {
                        let (second, incoming_result) = chunks_checked(
                            first,
                            keys,
                            files,
                            incoming.record,
                        );
                        match incoming_result {
                            Err(problem) => (second, Err(problem)),
                            Ok(incoming_missing) => {
                                let missing = local_missing + incoming_missing;
                                if missing.len() > 0 {
                                    (
                                        second,
                                        Ok(
                                            StepView::Done(
                                                OutcomeView::MissingObjects {
                                                    content_ids: ordered_ids(missing),
                                                },
                                            ),
                                        ),
                                    )
                                } else {
                                    conflict_begun(
                                        second,
                                        keys,
                                        files,
                                        manifest,
                                        previous,
                                        incoming,
                                        incoming_manifest,
                                        canonical,
                                        canonical_revision,
                                        conflict_revision,
                                        draw,
                                        now,
                                    )
                                }
                            },
                        }
                    },
                }
            },
        },
        _ => (store, Err(ApplyProblem::InvalidKeepBothDecision)),
    }
}

/// The conflict copy that is made for two revisions that are both kept.
pub open spec fn copy_for_both(
    store: StoreView,
    keys: KeysView,
    files: Seq<(ContentId, Seq<u8>)>,
    local: RecordView,
    incoming: LoadedView,
    canonical_revision: RevisionId,
    conflict_revision: RevisionId,
    nonce: Option<Seq<u8>>,
    now: i64,
) -> Option<SealedView> {
    match (local, incoming.record) {
        (RecordView::File(manifest), RecordView::File(incoming_manifest)) => match incoming_wins(
            manifest,
            incoming_manifest,
            canonical_revision,
            conflict_revision,
        ) {
            None => None,
            Some(canonical) => {
                let (first, local_result) = chunks_checked(store, keys, files, local);
                let (second, incoming_result) = chunks_checked(
                    first,
                    keys,
                    files,
                    incoming.record,
                );
                if (local_result matches Ok(missing) && missing.len() == 0) && (
                incoming_result matches Ok(missing) && missing.len() == 0) {
                    derived_copy(
                        conflict_derived(
                            second,
                            keys,
                            files,
                            if canonical {
                                manifest
                            } else {
                                incoming_manifest
                            },
                            nonce,
                            now,
                        ),
                    )
                } else {
                    None
                }
            },
        },
        _ => None,
    }
}

/// The conflict copy that is made for a record where another one is at its path.
pub open spec fn copy_for_head(
    store: StoreView,
    keys: KeysView,
    files: Seq<(ContentId, Seq<u8>)>,
    head: LocalHead,
    incoming: LoadedView,
    nonce: Option<Seq<u8>>,
    now: i64,
) -> Option<SealedView> {
    let (after, result) = head_loaded(store, keys, files, head);
    match result {
        Err(_) => None,
        Ok(local) => match reconciled(local, incoming.record) {
            Ok(ReconcileAction::KeepBoth { canonical_revision, conflict_revision }) =>
            copy_for_both(
                after,
                keys,
                files,
                local,
                incoming,
                canonical_revision,
                conflict_revision,
                nonce,
                now,
            ),
            _ => None,
        },
    }
}

/// The step for a record where another one is at its path.
pub open spec fn head_met(
    store: StoreView,
    keys: KeysView,
    files: Seq<(ContentId, Seq<u8>)>,
    head: LocalHead,
    incoming: LoadedView,
    draw: DrawView,
    now: i64,
) -> (StoreView, Result<StepView, ApplyProblem>) {
    let (after, result) = head_loaded(store, keys, files, head);
    match result {
        Err(problem) => (after, Err(problem)),
        Ok(local) => match reconciled(local, incoming.record) {
            Err(error) => (after, Err(ApplyProblem::Reconcile(error))),
            Ok(ReconcileAction::NoChange) => (after, Ok(StepView::Done(OutcomeView::NoChange))),
            Ok(ReconcileAction::KeepLocal) => (
                after,
                Ok(
                    StepView::Done(
                        OutcomeView::KeptLocal { revision_id: local.revision_id() },
                    ),
                ),
            ),
            Ok(ReconcileAction::UseIncoming) => incoming_used(
                after,
                keys,
                files,
                incoming,
                Some(head.content_id),
                draw.token,
            ),
            Ok(ReconcileAction::KeepBoth { canonical_revision, conflict_revision }) => keep_both(
                after,
                keys,
                files,
                local,
                head.content_id,
                incoming,
                canonical_revision,
                conflict_revision,
                draw,
                now,
            ),
        },
    }
}

/// The step for a signed record.
pub open spec fn record_met(
    store: StoreView,
    keys: KeysView,
    files: Seq<(ContentId, Seq<u8>)>,
    incoming: LoadedView,
    draw: DrawView,
    now: i64,
) -> (StoreView, Result<StepView, ApplyProblem>) {
    let path_id = keys.path_id(incoming.record.path().comparison_key);
    match pending_found(store, keys.group_id, path_id) {
        Err(error) => (store, Err(ApplyProblem::Store(error))),
        Ok(Some(pending)) => pending_continued(store, keys, files, incoming, pending),
        Ok(None) => match head_at(store, keys.group_id, path_id) {
            Some(head) => head_met(store, keys, files, head, incoming, draw, now),
            None => incoming_used(store, keys, files, incoming, None, draw.token),
        },
    }
}

/// The first step of applying the change whose manifest has the given identifier.
pub open spec fn apply_begun(
    store: StoreView,
    keys: KeysView,
    files: Seq<(ContentId, Seq<u8>)>,
    target_content_id: ContentId,
    authorization: AuthorizationView,
    draw: DrawView,
    now: i64,
) -> (StoreView, Result<StepView, ApplyProblem>) {
    let (loaded, load) = record_loaded(store, keys, files, target_content_id);
    match load {
        Err(problem) => (loaded, Err(problem)),
        Ok(unsigned) => {
            let (signed, attach) = attached(loaded, keys.group_id, unsigned, authorization);
            match attach {
                Err(problem) => (signed, Err(problem)),
                Ok(incoming) => record_met(signed, keys, files, incoming, draw, now),
            }
        },
    }
}

/// The conflict copy that the first step of applying a change makes, in the form in which it is
/// stored.
pub open spec fn copy_made(
    store: StoreView,
    keys: KeysView,
    files: Seq<(ContentId, Seq<u8>)>,
    target_content_id: ContentId,
    authorization: AuthorizationView,
    nonce: Option<Seq<u8>>,
    now: i64,
) -> Option<SealedView> {
    let (loaded, load) = record_loaded(store, keys, files, target_content_id);
    match load {
        Err(_) => None,
        Ok(unsigned) => {
            let (signed, attach) = attached(loaded, keys.group_id, unsigned, authorization);
            match attach {
                Err(_) => None,
                Ok(incoming) => {
                    let path_id = keys.path_id(incoming.record.path().comparison_key);
                    match (
                        pending_found(signed, keys.group_id, path_id),
                        head_at(signed, keys.group_id, path_id),
                    ) {
                        (Ok(None), Some(head)) => copy_for_head(
                            signed,
                            keys,
                            files,
                            head,
                            incoming,
                            nonce,
                            now,
                        ),
                        _ => None,
                    }
                },
            }
        },
    }
}

/// The problem is that the source of randomness fails.
pub open spec fn is_randomness(problem: ApplyProblem) -> bool {
    problem == ApplyProblem::Randomness || problem == ApplyProblem::Crypto(CryptoError::Randomness)
}

/// The first step of applying a change asks chance for something, the name of a staging file or a
/// nonce: it fails where nothing is drawn.
pub open spec fn needs_draw(
    store: StoreView,
    keys: KeysView,
    files: Seq<(ContentId, Seq<u8>)>,
    target_content_id: ContentId,
    authorization: AuthorizationView,
    now: i64,
) -> bool {
    apply_begun(
        store,
        keys,
        files,
        target_content_id,
        authorization,
        nothing_drawn(),
        now,
    ).1 matches Err(problem) && is_randomness(problem)
}

/// The step after a job was done asks chance for the name of a staging file: it fails where
/// nothing is drawn.
pub open spec fn resumption_needs_draw(
    store: StoreView,
    keys: KeysView,
    files: Seq<(ContentId, Seq<u8>)>,
    job: JobView,
    sequel: SequelView,
    now: i64,
) -> bool {
    apply_resumed(store, keys, files, job, sequel, nothing_drawn(), now).1 matches Err(problem)
        && is_randomness(problem)
}

/// The step after a job was done.
pub open spec fn apply_resumed(
    store: StoreView,
    keys: KeysView,
    files: Seq<(ContentId, Seq<u8>)>,
    job: JobView,
    sequel: SequelView,
    draw: DrawView,
    now: i64,
) -> (StoreView, Result<StepView, ApplyProblem>) {
    let file = lookup(files, job.pending.target_content_id);
    let (after, result) = finished(store, keys, job, file, now);
    match result {
        Err(problem) => (after, Err(problem)),
        Ok(_) => match sequel {
            SequelView::Finish(outcome) => (after, Ok(StepView::Done(outcome))),
            SequelView::Replace { incoming, expected_previous_content_id, outcome } => both_kept(
                after,
                keys,
                files,
                true,
                incoming,
                expected_previous_content_id,
                outcome,
                draw.token,
            ),
        },
    }
}

/// What becomes of something that was being brought to a path when the device stopped.
pub enum RecoveryView {
    Blocked(BlockedView),
    Materialize(JobView),
}

/// What becomes of something that was being brought to a path when the device stopped.
pub open spec fn recovery_begun(
    store: StoreView,
    keys: KeysView,
    files: Seq<(ContentId, Seq<u8>)>,
    pending: PendingView,
) -> (StoreView, Result<RecoveryView, ApplyProblem>) {
    let (first, load) = record_loaded(store, keys, files, pending.target_content_id);
    match load {
        Err(problem) => (first, Err(problem)),
        Ok(loaded) => match pending_problem(keys, pending, loaded.record) {
            Some(problem) => (first, Err(problem)),
            None => {
                let (second, check) = chunks_checked(first, keys, files, loaded.record);
                let job = JobView { pending, loaded };
                match check {
                    Err(problem) => (second, Err(problem)),
                    Ok(missing) => if missing.len() > 0 {
                        (
                            second,
                            Ok(
                                RecoveryView::Blocked(
                                    BlockedView {
                                        path_id: pending.path_id,
                                        missing_content_ids: missing,
                                    },
                                ),
                            ),
                        )
                    } else {
                        match job_problem(keys, job) {
                            Some(problem) => (second, Err(problem)),
                            None => (second, Ok(RecoveryView::Materialize(job))),
                        }
                    },
                }
            },
        },
    }
}

/// What becomes of something that was being brought to a path when the device stopped.
#[derive(Debug)]
pub enum RecoveryStep {
    Blocked(BlockedMaterialization),
    Materialize(Job),
}

impl View for RecoveryStep {
    type V = RecoveryView;

    open spec fn view(&self) -> RecoveryView {
        match *self {
            RecoveryStep::Blocked(blocked) => RecoveryView::Blocked(blocked@),
            RecoveryStep::Materialize(job) => RecoveryView::Materialize(job@),
        }
    }
}

/// The contents of a `MaterializationRecoveryReport`.
pub struct RecoveryReportView {
    pub completed: nat,
    pub blocked: Seq<BlockedView>,
}

impl RecoveryReportView {
    /// The report with one more that is blocked.
    pub open spec fn with_blocked(self, blocked: BlockedView) -> RecoveryReportView {
        RecoveryReportView { blocked: self.blocked.push(blocked), ..self }
    }

    /// The report with one more that is completed.
    pub open spec fn with_completion(self) -> RecoveryReportView {
        RecoveryReportView { completed: self.completed + 1, ..self }
    }
}

impl View for MaterializationRecoveryReport {
    type V = RecoveryReportView;

    open spec fn view(&self) -> RecoveryReportView {
        RecoveryReportView {
            completed: self.completed as nat,
            blocked: self.blocked@.map_values(|blocked: BlockedMaterialization| blocked@),
        }
    }
}

/// How far what was being brought to paths when the device stopped has been taken up.
#[derive(Debug)]
pub struct Recovery {
    pub remaining: Vec<PendingMaterialization>,
    pub report: MaterializationRecoveryReport,
}

/// Applies incoming changes to the files of a device.
#[derive(Clone, Copy, Debug, Default, PartialEq, Eq)]
pub struct IncomingApplier;

/// The result of a step and the store after it are as specified.
spec fn gives(
    result: Result<ApplyStep, ApplyError>,
    after: StoreView,
    expected: (StoreView, Result<StepView, ApplyProblem>),
) -> bool {
    after == expected.0 && agrees(result, expected.1)
}

fn use_incoming(
    incoming: LoadedRecord,
    previous: Option<ContentId>,
    keys: &GroupKeys,
    store: &mut Store,
    files: &ObjectFiles,
    chance: &Chance,
) -> (result: Result<ApplyStep, ApplyError>)
    ensures
        exists|token: Option<Seq<u8>>|
            chance.allows_token(token) && gives(
                result,
                final(store)@,
                #[trigger] incoming_used(
                    old(store)@,
                    keys@,
                    files@,
                    incoming@,
                    previous,
                    token,
                ),
            ),
{
    let ghost before = store@;
    let ghost view = incoming@;
    let ghost unasked = chance.unasked().token;
    let ghost step = incoming_used(before, keys@, files@, view, previous, unasked);
    assert(chance.allows_token(unasked));
    let missing: Vec<ContentId> = preflight_chunks(&incoming.record, keys, store, files)?;
    if missing.len() > 0 {
        return Ok(ApplyStep::Done(ApplyOutcome::MissingObjects { content_ids: missing }));
    }
    let ghost checked = store@;
    let outcome: ApplyOutcome = applied_outcome(&incoming.record);
    let begun: Result<Job, ApplyError> = begin_job(incoming, previous, keys, store, chance);
    proof {
        let token = choose|token: Option<Seq<u8>>|
            {
                let (after, outcome) = #[trigger] job_begun(checked, keys@, view, previous, token);
                &&& chance.allows_token(token)
                &&& store@ == after
                &&& match begun {
                    Ok(job) => outcome == Ok::<Option<JobView>, ApplyProblem>(Some(job@))
                        && job_problem(keys@, job@) is None,
                    Err(error) => outcome == Err::<Option<JobView>, ApplyProblem>(error@),
                }
            };
        let step = incoming_used(before, keys@, files@, view, previous, token);
        assert(step == job_step(
            job_begun(checked, keys@, view, previous, token),
            SequelView::Finish(outcome@),
            outcome@,
        ));
    }
    match begun {
        Ok(job) => Ok(ApplyStep::Materialize { job, sequel: Sequel::Finish(outcome) }),
        Err(error) => Err(error),
    }
}

fn continue_pending(
    incoming: LoadedRecord,
    pending: PendingMaterialization,
    keys: &GroupKeys,
    store: &mut Store,
    files: &ObjectFiles,
) -> (result: Result<ApplyStep, ApplyError>)
    ensures
        final(store)@ == pending_continued(
            old(store)@,
            keys@,
            files@,
            incoming@,
            pending@,
        ).0,
        agrees(
            result,
            pending_continued(old(store)@, keys@, files@, incoming@, pending@).1,
        ),
{
    if pending.target_content_id != incoming.content_id {
        return Err(
            ApplyError::PendingTargetMismatch {
                path_id: pending.path_id,
                pending: pending.target_content_id,
                requested: incoming.content_id,
            },
        );
    }
    let missing: Vec<ContentId> = preflight_chunks(&incoming.record, keys, store, files)?;
    if missing.len() > 0 {
        return Ok(ApplyStep::Done(ApplyOutcome::MissingObjects { content_ids: missing }));
    }
    let outcome: ApplyOutcome = applied_outcome(&incoming.record);
    let job: Job = Job { pending, loaded: incoming };
    check_job(&job, keys)?;
    Ok(ApplyStep::Materialize { job, sequel: Sequel::Finish(outcome) })
}

fn finish_both(
    incoming: LoadedRecord,
    previous: ContentId,
    outcome: ApplyOutcome,
    keys: &GroupKeys,
    store: &mut Store,
    files: &ObjectFiles,
    chance: &Chance,
) -> (result: Result<ApplyStep, ApplyError>)
    ensures
        exists|token: Option<Seq<u8>>|
            chance.allows_token(token) && gives(
                result,
                final(store)@,
                #[trigger] both_kept(
                    old(store)@,
                    keys@,
                    files@,
                    true,
                    incoming@,
                    previous,
                    outcome@,
                    token,
                ),
            ),
{
    let ghost before = store@;
    let ghost view = incoming@;
    let ensured_step: Result<Ensured, ApplyError> = ensure_materialized(
        incoming,
        Some(previous),
        false,
        keys,
        store,
        files,
        chance,
    );
    proof {
        let token = choose|token: Option<Seq<u8>>|
            {
                let (after, outcome) = #[trigger] ensured(
                    before,
                    keys@,
                    files@,
                    view,
                    Some(previous),
                    false,
                    token,
                );
                chance.allows_token(token) && store@ == after && agrees(ensured_step, outcome)
            };
        let step = both_kept(before, keys@, files@, true, view, previous, outcome@, token);
        assert(step == job_step(
            ensured(before, keys@, files@, view, Some(previous), false, token),
            SequelView::Finish(outcome@),
            outcome@,
        ));
    }
    match ensured_step {
        Ok(Ensured::There) => Ok(ApplyStep::Done(outcome)),
        Ok(Ensured::Begin(job)) => Ok(
            ApplyStep::Materialize { job, sequel: Sequel::Finish(outcome) },
        ),
        Err(error) => Err(error),
    }
}

fn stored_conflict(conflict: &LoadedRecord, keys: &GroupKeys, files: &ObjectFiles) -> (stored:
    ObjectFiles)
    ensures
        stored@ == conflict_files(keys@, files@, conflict@),
{
    let content_id: ContentId = conflict.content_id;
    let made: &[u8] = conflict.encrypted_bytes.as_slice();
    let bytes: &[u8] = match file_of(files, content_id) {
        Some(bytes) => match verify_object(keys, ObjectKind::Manifest, content_id, bytes) {
            Ok(_) => bytes,
            Err(_) => made,
        },
        None => made,
    };
    let mut stored: ObjectFiles = ObjectFiles::new();
    stored.put(content_id, copy_bytes(bytes));
    stored
}

/// The sealed form of a record that may be missing.
pub open spec fn sealed_view(sealed: Option<SealedRecord>) -> Option<SealedView> {
    match sealed {
        Some(sealed) => Some(sealed@),
        None => None,
    }
}

proof fn lemma_there(
    store: StoreView,
    keys: KeysView,
    files: Seq<(ContentId, Seq<u8>)>,
    record: LoadedView,
    expected_previous: Option<ContentId>,
    reject_occupied: bool,
    token: Option<Seq<u8>>,
    other: Option<Seq<u8>>,
)
    requires
        ensured(store, keys, files, record, expected_previous, reject_occupied, token).1 matches Ok(
            None,
        ),
    ensures
        ensured(store, keys, files, record, expected_previous, reject_occupied, other) == ensured(
            store,
            keys,
            files,
            record,
            expected_previous,
            reject_occupied,
            token,
        ),
{
}

fn place_conflict(
    conflict: LoadedRecord,
    previous: ContentId,
    incoming: LoadedRecord,
    canonical: bool,
    outcome: ApplyOutcome,
    keys: &GroupKeys,
    store: &mut Store,
    files: &ObjectFiles,
    chance: &Chance,
) -> (result: Result<ApplyStep, ApplyError>)
    ensures
        exists|token: Option<Seq<u8>>|
            chance.allows_token(token) && gives(
                result,
                final(store)@,
                #[trigger] conflict_placed(
                    old(store)@,
                    keys@,
                    files@,
                    conflict@,
                    previous,
                    incoming@,
                    canonical,
                    outcome@,
                    token,
                ),
            ),
{
    let ghost before = store@;
    let ghost conflict_view = conflict@;
    let ghost view = incoming@;
    let ghost outcome_view = outcome@;
    let stored: ObjectFiles = stored_conflict(&conflict, keys, files);
    let begun: Result<Ensured, ApplyError> = ensure_materialized(
        conflict,
        None,
        true,
        keys,
        store,
        &stored,
        chance,
    );
    let ghost token = choose|token: Option<Seq<u8>>|
        {
            let (after, outcome) = #[trigger] ensured(
                before,
                keys@,
                stored@,
                conflict_view,
                None,
                true,
                token,
            );
            chance.allows_token(token) && store@ == after && agrees(begun, outcome)
        };
    let ghost step = conflict_placed(
        before,
        keys@,
        files@,
        conflict_view,
        previous,
        view,
        canonical,
        outcome_view,
        token,
    );
    match begun {
        Err(error) => Err(error),
        Ok(Ensured::Begin(job)) => {
            let sequel: Sequel = if canonical {
                Sequel::Replace { incoming, expected_previous_content_id: previous, outcome }
            } else {
                Sequel::Finish(outcome)
            };
            Ok(ApplyStep::Materialize { job, sequel })
        },
        Ok(Ensured::There) => {
            if !canonical {
                return Ok(ApplyStep::Done(outcome));
            }
            let ghost after = store@;
            let result: Result<ApplyStep, ApplyError> = finish_both(
                incoming,
                previous,
                outcome,
                keys,
                store,
                files,
                chance,
            );
            proof {
                let other = choose|other: Option<Seq<u8>>|
                    chance.allows_token(other) && gives(
                        result,
                        store@,
                        #[trigger] both_kept(
                            after,
                            keys@,
                            files@,
                            true,
                            view,
                            previous,
                            outcome_view,
                            other,
                        ),
                    );
                lemma_there(before, keys@, stored@, conflict_view, None, true, token, other);
                assert(gives(
                    result,
                    store@,
                    conflict_placed(
                        before,
                        keys@,
                        files@,
                        conflict_view,
                        previous,
                        view,
                        canonical,
                        outcome_view,
                        other,
                    ),
                ));
            }
            result
        },
    }
}

fn begin_conflict(
    local: &FileManifest,
    incoming_manifest: &FileManifest,
    previous: ContentId,
    incoming: LoadedRecord,
    canonical: bool,
    canonical_revision: RevisionId,
    conflict_revision: RevisionId,
    keys: &GroupKeys,
    store: &mut Store,
    files: &ObjectFiles,
    chance: &Chance,
    now: i64,
    made: &mut Option<SealedRecord>,
) -> (result: Result<ApplyStep, ApplyError>)
    requires
        *old(made) is None,
    ensures
        exists|draw: DrawView|
            {
                &&& chance.allows(draw)
                &&& gives(
                    result,
                    final(store)@,
                    #[trigger] conflict_begun(
                        old(store)@,
                        keys@,
                        files@,
                        local@,
                        previous,
                        incoming@,
                        incoming_manifest@,
                        canonical,
                        canonical_revision,
                        conflict_revision,
                        draw,
                        now,
                    ),
                )
                &&& sealed_view(*final(made)) == derived_copy(
                    conflict_derived(
                        old(store)@,
                        keys@,
                        files@,
                        if canonical {
                            local@
                        } else {
                            incoming_manifest@
                        },
                        draw.nonce,
                        now,
                    ),
                )
            },
{
    let ghost before = store@;
    let ghost view = incoming@;
    let source: &FileManifest = if canonical {
        local
    } else {
        incoming_manifest
    };
    let derived: Result<LoadedRecord, ApplyError> = derive_conflict_record(
        source,
        keys,
        store,
        files,
        chance,
        now,
    );
    let ghost nonce = choose|nonce: Option<Seq<u8>>|
        {
            let (after, outcome) = #[trigger] conflict_derived(
                before,
                keys@,
                files@,
                source@,
                nonce,
                now,
            );
            chance.allows_nonce(nonce) && store@ == after && agrees(derived, outcome)
        };
    let ghost unasked = DrawView { token: chance.unasked().token, nonce };
    assert(chance.allows(unasked));
    let ghost step = conflict_begun(
        before,
        keys@,
        files@,
        local@,
        previous,
        view,
        incoming_manifest@,
        canonical,
        canonical_revision,
        conflict_revision,
        unasked,
        now,
    );
    let conflict: LoadedRecord = match derived {
        Ok(conflict) => conflict,
        Err(error) => {
            return Err(error);
        },
    };
    let ghost after_derivation = store@;
    let ghost conflict_view = conflict@;
    *made = Some(
        SealedRecord {
            content_id: conflict.content_id,
            bytes: copy_bytes(conflict.encrypted_bytes.as_slice()),
        },
    );
    let conflict_path: RelativePath = conflict.record.relative_path().clone();
    let outcome: ApplyOutcome = ApplyOutcome::KeptBoth {
        canonical_revision,
        conflict_revision,
        conflict_path,
    };
    let ghost outcome_view = outcome@;
    let result: Result<ApplyStep, ApplyError> = place_conflict(
        conflict,
        previous,
        incoming,
        canonical,
        outcome,
        keys,
        store,
        files,
        chance,
    );
    proof {
        let token = choose|token: Option<Seq<u8>>|
            chance.allows_token(token) && gives(
                result,
                store@,
                #[trigger] conflict_placed(
                    after_derivation,
                    keys@,
                    files@,
                    conflict_view,
                    previous,
                    view,
                    canonical,
                    outcome_view,
                    token,
                ),
            );
        let draw = DrawView { token, nonce };
        assert(chance.allows(draw));
        assert(gives(
            result,
            store@,
            conflict_begun(
                before,
                keys@,
                files@,
                local@,
                previous,
                view,
                incoming_manifest@,
                canonical,
                canonical_revision,
                conflict_revision,
                draw,
                now,
            ),
        ));
    }
    result
}

fn apply_keep_both(
    local: &ChangeRecord,
    previous: ContentId,
    incoming: LoadedRecord,
    canonical_revision: RevisionId,
    conflict_revision: RevisionId,
    keys: &GroupKeys,
    store: &mut Store,
    files: &ObjectFiles,
    chance: &Chance,
    now: i64,
    made: &mut Option<SealedRecord>,
) -> (result: Result<ApplyStep, ApplyError>)
    requires
        *old(made) is None,
    ensures
        exists|draw: DrawView|
            {
                &&& chance.allows(draw)
                &&& gives(
                    result,
                    final(store)@,
                    #[trigger] keep_both(
                        old(store)@,
                        keys@,
                        files@,
                        local@,
                        previous,
                        incoming@,
                        canonical_revision,
                        conflict_revision,
                        draw,
                        now,
                    ),
                )
                &&& sealed_view(*final(made)) == copy_for_both(
                    old(store)@,
                    keys@,
                    files@,
                    local@,
                    incoming@,
                    canonical_revision,
                    conflict_revision,
                    draw.nonce,
                    now,
                )
            },
{
    let ghost before = store@;
    let ghost view = incoming@;
    let ghost unasked = chance.unasked();
    assert(chance.allows(unasked));
    let ghost step = keep_both(
        before,
        keys@,
        files@,
        local@,
        previous,
        view,
        canonical_revision,
        conflict_revision,
        unasked,
        now,
    );
    let local_manifest: &FileManifest = match local {
        ChangeRecord::File(manifest) => manifest,
        ChangeRecord::Tombstone(_) => {
            return Err(ApplyError::InvalidKeepBothDecision);
        },
    };
    let incoming_manifest: FileManifest = match &incoming.record {
        ChangeRecord::File(manifest) => manifest.clone(),
        ChangeRecord::Tombstone(_) => {
            return Err(ApplyError::InvalidKeepBothDecision);
        },
    };
    let canonical: bool = if incoming_manifest.revision_id == canonical_revision
        && local_manifest.revision_id == conflict_revision {
        true
    } else if local_manifest.revision_id == canonical_revision && incoming_manifest.revision_id
        == conflict_revision {
        false
    } else {
        return Err(ApplyError::InvalidKeepBothDecision);
    };
    let mut missing: Vec<ContentId> = preflight_chunks(local, keys, store, files)?;
    let incoming_missing: Vec<ContentId> = preflight_chunks(
        &incoming.record,
        keys,
        store,
        files,
    )?;
    append_ids(&mut missing, &incoming_missing);
    if missing.len() > 0 {
        return Ok(
            ApplyStep::Done(ApplyOutcome::MissingObjects { content_ids: order_ids(&missing) }),
        );
    }
    let ghost checked = store@;
    let result: Result<ApplyStep, ApplyError> = begin_conflict(
        local_manifest,
        &incoming_manifest,
        previous,
        incoming,
        canonical,
        canonical_revision,
        conflict_revision,
        keys,
        store,
        files,
        chance,
        now,
        made,
    );
    proof {
        let draw = choose|draw: DrawView|
            {
                &&& chance.allows(draw)
                &&& gives(
                    result,
                    store@,
                    #[trigger] conflict_begun(
                        checked,
                        keys@,
                        files@,
                        local_manifest@,
                        previous,
                        view,
                        incoming_manifest@,
                        canonical,
                        canonical_revision,
                        conflict_revision,
                        draw,
                        now,
                    ),
                )
                &&& sealed_view(*made) == derived_copy(
                    conflict_derived(
                        checked,
                        keys@,
                        files@,
                        if canonical {
                            local_manifest@
                        } else {
                            incoming_manifest@
                        },
                        draw.nonce,
                        now,
                    ),
                )
            };
        assert(gives(
            result,
            store@,
            keep_both(
                before,
                keys@,
                files@,
                local@,
                previous,
                view,
                canonical_revision,
                conflict_revision,
                draw,
                now,
            ),
        ));
    }
    result
}

fn meet_head(
    head: LocalHead,
    incoming: LoadedRecord,
    keys: &GroupKeys,
    store: &mut Store,
    files: &ObjectFiles,
    chance: &Chance,
    now: i64,
    made: &mut Option<SealedRecord>,
) -> (result: Result<ApplyStep, ApplyError>)
    requires
        *old(made) is None,
    ensures
        exists|draw: DrawView|
            {
                &&& chance.allows(draw)
                &&& gives(
                    result,
                    final(store)@,
                    #[trigger] head_met(
                        old(store)@,
                        keys@,
                        files@,
                        head,
                        incoming@,
                        draw,
                        now,
                    ),
                )
                &&& sealed_view(*final(made)) == copy_for_head(
                    old(store)@,
                    keys@,
                    files@,
                    head,
                    incoming@,
                    draw.nonce,
                    now,
                )
            },
{
    let ghost before = store@;
    let ghost view = incoming@;
    let ghost unasked = chance.unasked();
    assert(chance.allows(unasked));
    let ghost step = head_met(before, keys@, files@, head, view, unasked, now);
    let local: ChangeRecord = load_head_record(head, keys, store, files)?;
    let ghost loaded = store@;
    match reconcile_change(&local, &incoming.record) {
        Err(error) => Err(ApplyError::Reconcile(error)),
        Ok(ReconcileAction::NoChange) => Ok(ApplyStep::Done(ApplyOutcome::NoChange)),
        Ok(ReconcileAction::KeepLocal) => Ok(
            ApplyStep::Done(ApplyOutcome::KeptLocal { revision_id: local.revision_id() }),
        ),
        Ok(ReconcileAction::UseIncoming) => {
            let result: Result<ApplyStep, ApplyError> = use_incoming(
                incoming,
                Some(head.content_id),
                keys,
                store,
                files,
                chance,
            );
            proof {
                let token = choose|token: Option<Seq<u8>>|
                    chance.allows_token(token) && gives(
                        result,
                        store@,
                        #[trigger] incoming_used(
                            loaded,
                            keys@,
                            files@,
                            view,
                            Some(head.content_id),
                            token,
                        ),
                    );
                let draw = DrawView { token, nonce: unasked.nonce };
                assert(chance.allows(draw));
                assert(gives(
                    result,
                    store@,
                    head_met(before, keys@, files@, head, view, draw, now),
                ));
            }
            result
        },
        Ok(ReconcileAction::KeepBoth { canonical_revision, conflict_revision }) => {
            let result: Result<ApplyStep, ApplyError> = apply_keep_both(
                &local,
                head.content_id,
                incoming,
                canonical_revision,
                conflict_revision,
                keys,
                store,
                files,
                chance,
                now,
                made,
            );
            proof {
                let draw = choose|draw: DrawView|
                    {
                        &&& chance.allows(draw)
                        &&& gives(
                            result,
                            store@,
                            #[trigger] keep_both(
                                loaded,
                                keys@,
                                files@,
                                local@,
                                head.content_id,
                                view,
                                canonical_revision,
                                conflict_revision,
                                draw,
                                now,
                            ),
                        )
                        &&& sealed_view(*made) == copy_for_both(
                            loaded,
                            keys@,
                            files@,
                            local@,
                            view,
                            canonical_revision,
                            conflict_revision,
                            draw.nonce,
                            now,
                        )
                    };
                assert(gives(
                    result,
                    store@,
                    head_met(before, keys@, files@, head, view, draw, now),
                ));
            }
            result
        },
    }
}

fn begin_change(
    target_content_id: ContentId,
    authorization: ChangeAuthorization,
    keys: &GroupKeys,
    store: &mut Store,
    files: &ObjectFiles,
    chance: &Chance,
    now: i64,
    made: &mut Option<SealedRecord>,
) -> (result: Result<ApplyStep, ApplyError>)
    requires
        *old(made) is None,
    ensures
        exists|draw: DrawView|
            {
                &&& chance.allows(draw)
                &&& gives(
                    result,
                    final(store)@,
                    #[trigger] apply_begun(
                        old(store)@,
                        keys@,
                        files@,
                        target_content_id,
                        authorization@,
                        draw,
                        now,
                    ),
                )
                &&& sealed_view(*final(made)) == copy_made(
                    old(store)@,
                    keys@,
                    files@,
                    target_content_id,
                    authorization@,
                    draw.nonce,
                    now,
                )
            },
{
    let ghost before = store@;
    let ghost unasked = chance.unasked();
    assert(chance.allows(unasked));
    let ghost step = apply_begun(
        before,
        keys@,
        files@,
        target_content_id,
        authorization@,
        unasked,
        now,
    );
    let unsigned: LoadedRecord = load_record_object(target_content_id, keys, store, files)?;
    let incoming: LoadedRecord = attach_incoming_authorization(
        unsigned,
        authorization,
        keys,
        store,
    )?;
    let ghost signed = store@;
    let ghost view = incoming@;
    let group_id: GroupId = keys.group_id();
    let path_id: PathId = keys.identify_path(incoming.record.relative_path());
    match pending_for(store, group_id, path_id) {
        Err(error) => {
            return Err(ApplyError::Store(error));
        },
        Ok(Some(pending)) => {
            return continue_pending(incoming, pending, keys, store, files);
        },
        Ok(None) => {},
    }
    match store.local_head(group_id, path_id) {
        Some(head) => {
            let result: Result<ApplyStep, ApplyError> = meet_head(
                head,
                incoming,
                keys,
                store,
                files,
                chance,
                now,
                made,
            );
            proof {
                let draw = choose|draw: DrawView|
                    {
                        &&& chance.allows(draw)
                        &&& gives(
                            result,
                            store@,
                            #[trigger] head_met(signed, keys@, files@, head, view, draw, now),
                        )
                        &&& sealed_view(*made) == copy_for_head(
                            signed,
                            keys@,
                            files@,
                            head,
                            view,
                            draw.nonce,
                            now,
                        )
                    };
                assert(gives(
                    result,
                    store@,
                    apply_begun(
                        before,
                        keys@,
                        files@,
                        target_content_id,
                        authorization@,
                        draw,
                        now,
                    ),
                ));
            }
            result
        },
        None => {
            let result: Result<ApplyStep, ApplyError> = use_incoming(
                incoming,
                None,
                keys,
                store,
                files,
                chance,
            );
            proof {
                let token = choose|token: Option<Seq<u8>>|
                    chance.allows_token(token) && gives(
                        result,
                        store@,
                        #[trigger] incoming_used(signed, keys@, files@, view, None, token),
                    );
                let draw = DrawView { token, nonce: unasked.nonce };
                assert(chance.allows(draw));
                assert(gives(
                    result,
                    store@,
                    apply_begun(
                        before,
                        keys@,
                        files@,
                        target_content_id,
                        authorization@,
                        draw,
                        now,
                    ),
                ));
            }
            result
        },
    }
}

fn finish_change(
    job: &Job,
    sequel: Sequel,
    keys: &GroupKeys,
    store: &mut Store,
    files: &ObjectFiles,
    chance: &Chance,
    now: i64,
) -> (result: Result<ApplyStep, ApplyError>)
    ensures
        exists|draw: DrawView|
            chance.allows(draw) && gives(
                result,
                final(store)@,
                #[trigger] apply_resumed(
                    old(store)@,
                    keys@,
                    files@,
                    job@,
                    sequel@,
                    draw,
                    now,
                ),
            ),
{
    let ghost before = store@;
    let ghost unasked = chance.unasked();
    assert(chance.allows(unasked));
    let ghost step = apply_resumed(before, keys@, files@, job@, sequel@, unasked, now);
    finish_materialization(
        job,
        keys,
        store,
        file_of(files, job.pending.target_content_id),
        now,
    )?;
    let ghost done = store@;
    let ghost sequel_view = sequel@;
    match sequel {
        Sequel::Finish(outcome) => Ok(ApplyStep::Done(outcome)),
        Sequel::Replace { incoming, expected_previous_content_id, outcome } => {
            let ghost view = incoming@;
            let ghost outcome_view = outcome@;
            let result: Result<ApplyStep, ApplyError> = finish_both(
                incoming,
                expected_previous_content_id,
                outcome,
                keys,
                store,
                files,
                chance,
            );
            proof {
                let token = choose|token: Option<Seq<u8>>|
                    chance.allows_token(token) && gives(
                        result,
                        store@,
                        #[trigger] both_kept(
                            done,
                            keys@,
                            files@,
                            true,
                            view,
                            expected_previous_content_id,
                            outcome_view,
                            token,
                        ),
                    );
                let draw = DrawView { token, nonce: unasked.nonce };
                assert(chance.allows(draw));
                assert(gives(
                    result,
                    store@,
                    apply_resumed(before, keys@, files@, job@, sequel_view, draw, now),
                ));
            }
            result
        },
    }
}

proof fn lemma_undrawn_conflict(
    store: StoreView,
    keys: KeysView,
    files: Seq<(ContentId, Seq<u8>)>,
    local: ManifestView,
    previous: ContentId,
    incoming: LoadedView,
    incoming_manifest: ManifestView,
    canonical: bool,
    canonical_revision: RevisionId,
    conflict_revision: RevisionId,
    draw: DrawView,
    now: i64,
)
    ensures
        ({
            let step = conflict_begun(
                store,
                keys,
                files,
                local,
                previous,
                incoming,
                incoming_manifest,
                canonical,
                canonical_revision,
                conflict_revision,
                nothing_drawn(),
                now,
            );
            ||| step.1 matches Err(problem) && is_randomness(problem)
            ||| step == conflict_begun(
                store,
                keys,
                files,
                local,
                previous,
                incoming,
                incoming_manifest,
                canonical,
                canonical_revision,
                conflict_revision,
                draw,
                now,
            )
        }),
{
}

proof fn lemma_undrawn_head(
    store: StoreView,
    keys: KeysView,
    files: Seq<(ContentId, Seq<u8>)>,
    head: LocalHead,
    incoming: LoadedView,
    draw: DrawView,
    now: i64,
)
    ensures
        ({
            let step = head_met(store, keys, files, head, incoming, nothing_drawn(), now);
            ||| step.1 matches Err(problem) && is_randomness(problem)
            ||| step == head_met(store, keys, files, head, incoming, draw, now)
        }),
{
    let (after, result) = head_loaded(store, keys, files, head);
    if let Ok(local) = result {
        if let Ok(ReconcileAction::KeepBoth { canonical_revision, conflict_revision }) = reconciled(
            local,
            incoming.record,
        ) {
            let (first, local_result) = chunks_checked(after, keys, files, local);
            let (second, incoming_result) = chunks_checked(first, keys, files, incoming.record);
            if let (RecordView::File(manifest), RecordView::File(incoming_manifest)) = (
                local,
                incoming.record,
            ) {
                if let Some(canonical) = incoming_wins(
                    manifest,
                    incoming_manifest,
                    canonical_revision,
                    conflict_revision,
                ) {
                    lemma_undrawn_conflict(
                        second,
                        keys,
                        files,
                        manifest,
                        head.content_id,
                        incoming,
                        incoming_manifest,
                        canonical,
                        canonical_revision,
                        conflict_revision,
                        draw,
                        now,
                    );
                }
            }
        }
    }
}

proof fn lemma_undrawn(
    store: StoreView,
    keys: KeysView,
    files: Seq<(ContentId, Seq<u8>)>,
    target_content_id: ContentId,
    authorization: AuthorizationView,
    draw: DrawView,
    now: i64,
)
    requires
        !needs_draw(store, keys, files, target_content_id, authorization, now),
    ensures
        apply_begun(store, keys, files, target_content_id, authorization, draw, now)
            == apply_begun(
            store,
            keys,
            files,
            target_content_id,
            authorization,
            nothing_drawn(),
            now,
        ),
{
    let (loaded, load) = record_loaded(store, keys, files, target_content_id);
    if let Ok(unsigned) = load {
        let (signed, attach) = attached(loaded, keys.group_id, unsigned, authorization);
        if let Ok(incoming) = attach {
            let path_id = keys.path_id(incoming.record.path().comparison_key);
            if let Some(head) = head_at(signed, keys.group_id, path_id) {
                lemma_undrawn_head(signed, keys, files, head, incoming, draw, now);
            }
        }
    }
}

impl IncomingApplier {
    /// Takes the first step of applying the change whose manifest has the given identifier, with
    /// what chance gives where it is asked. `files` holds the files of the objects that it needs:
    /// the manifest of the change, the manifest of the head of its path, the chunks of both and
    /// the manifests of their conflict copies. `made` gets the conflict copy that was made.
    pub fn apply_with(
        &self,
        target_content_id: ContentId,
        authorization: ChangeAuthorization,
        keys: &GroupKeys,
        store: &mut Store,
        files: &ObjectFiles,
        draw: &Draw,
        now: i64,
        made: &mut Option<SealedRecord>,
    ) -> (result: Result<ApplyStep, ApplyError>)
        ensures
            final(store)@ == apply_begun(
                old(store)@,
                keys@,
                files@,
                target_content_id,
                authorization@,
                draw@,
                now,
            ).0,
            agrees(
                result,
                apply_begun(
                    old(store)@,
                    keys@,
                    files@,
                    target_content_id,
                    authorization@,
                    draw@,
                    now,
                ).1,
            ),
            sealed_view(*final(made)) == copy_made(
                old(store)@,
                keys@,
                files@,
                target_content_id,
                authorization@,
                draw@.nonce,
                now,
            ),
    {
        *made = None;
        let chance: Chance = Chance::Given(*draw);
        begin_change(target_content_id, authorization, keys, store, files, &chance, now, made)
    }

    /// Takes the first step of applying the change whose manifest has the given identifier. Chance
    /// is asked where a file is to be staged or a conflict copy is to be sealed, and not before.
    /// `files` holds the files of the objects that the step needs. `made` gets the conflict copy
    /// that was made.
    pub fn apply(
        &self,
        target_content_id: ContentId,
        authorization: ChangeAuthorization,
        keys: &GroupKeys,
        store: &mut Store,
        files: &ObjectFiles,
        now: i64,
        made: &mut Option<SealedRecord>,
    ) -> (result: Result<ApplyStep, ApplyError>)
        ensures
            exists|draw: DrawView|
                {
                    let (after, outcome) = #[trigger] apply_begun(
                        old(store)@,
                        keys@,
                        files@,
                        target_content_id,
                        authorization@,
                        draw,
                        now,
                    );
                    &&& Chance::Fresh.allows(draw)
                    &&& final(store)@ == after
                    &&& agrees(result, outcome)
                    &&& sealed_view(*final(made)) == copy_made(
                        old(store)@,
                        keys@,
                        files@,
                        target_content_id,
                        authorization@,
                        draw.nonce,
                        now,
                    )
                },
            (result matches Err(error) && is_randomness(error@)) ==> needs_draw(
                old(store)@,
                keys@,
                files@,
                target_content_id,
                authorization@,
                now,
            ),
            !needs_draw(old(store)@, keys@, files@, target_content_id, authorization@, now)
                ==> forall|draw: DrawView|
                {
                    let (after, outcome) = #[trigger] apply_begun(
                        old(store)@,
                        keys@,
                        files@,
                        target_content_id,
                        authorization@,
                        draw,
                        now,
                    );
                    final(store)@ == after && agrees(result, outcome)
                },
    {
        let ghost before = store@;
        *made = None;
        let result: Result<ApplyStep, ApplyError> = begin_change(
            target_content_id,
            authorization,
            keys,
            store,
            files,
            &Chance::Fresh,
            now,
            made,
        );
        proof {
            if !needs_draw(before, keys@, files@, target_content_id, authorization@, now) {
                assert forall|draw: DrawView|
                    #[trigger] apply_begun(
                        before,
                        keys@,
                        files@,
                        target_content_id,
                        authorization@,
                        draw,
                        now,
                    ) == apply_begun(
                        before,
                        keys@,
                        files@,
                        target_content_id,
                        authorization@,
                        nothing_drawn(),
                        now,
                    ) by {
                    lemma_undrawn(
                        before,
                        keys@,
                        files@,
                        target_content_id,
                        authorization@,
                        draw,
                        now,
                    );
                }
            }
        }
        result
    }

    /// Takes the step after a job was done, with what chance gives where it is asked. `files`
    /// holds the files of the manifests of the job and of what follows.
    pub fn resume_with(
        &self,
        job: &Job,
        sequel: Sequel,
        keys: &GroupKeys,
        store: &mut Store,
        files: &ObjectFiles,
        draw: &Draw,
        now: i64,
    ) -> (result: Result<ApplyStep, ApplyError>)
        ensures
            final(store)@ == apply_resumed(
                old(store)@,
                keys@,
                files@,
                job@,
                sequel@,
                draw@,
                now,
            ).0,
            agrees(
                result,
                apply_resumed(old(store)@, keys@, files@, job@, sequel@, draw@, now).1,
            ),
    {
        let chance: Chance = Chance::Given(*draw);
        finish_change(job, sequel, keys, store, files, &chance, now)
    }

    /// Takes the step after a job was done. Chance is asked where a file is to be staged, and not
    /// before. `files` holds the files of the manifests of the job and of what follows.
    pub fn resume(
        &self,
        job: &Job,
        sequel: Sequel,
        keys: &GroupKeys,
        store: &mut Store,
        files: &ObjectFiles,
        now: i64,
    ) -> (result: Result<ApplyStep, ApplyError>)
        ensures
            exists|draw: DrawView|
                {
                    let (after, outcome) = #[trigger] apply_resumed(
                        old(store)@,
                        keys@,
                        files@,
                        job@,
                        sequel@,
                        draw,
                        now,
                    );
                    Chance::Fresh.allows(draw) && final(store)@ == after && agrees(result, outcome)
                },
            (result matches Err(error) && is_randomness(error@)) ==> resumption_needs_draw(
                old(store)@,
                keys@,
                files@,
                job@,
                sequel@,
                now,
            ),
            !resumption_needs_draw(old(store)@, keys@, files@, job@, sequel@, now) ==> forall|
                draw: DrawView,
            |
                {
                    let (after, outcome) = #[trigger] apply_resumed(
                        old(store)@,
                        keys@,
                        files@,
                        job@,
                        sequel@,
                        draw,
                        now,
                    );
                    final(store)@ == after && agrees(result, outcome)
                },
    {
        let ghost before = store@;
        let ghost sequel_view = sequel@;
        let result: Result<ApplyStep, ApplyError> = finish_change(
            job,
            sequel,
            keys,
            store,
            files,
            &Chance::Fresh,
            now,
        );
        proof {
            if !resumption_needs_draw(before, keys@, files@, job@, sequel_view, now) {
                assert forall|draw: DrawView|
                    #[trigger] apply_resumed(
                        before,
                        keys@,
                        files@,
                        job@,
                        sequel_view,
                        draw,
                        now,
                    ) == apply_resumed(
                        before,
                        keys@,
                        files@,
                        job@,
                        sequel_view,
                        nothing_drawn(),
                        now,
                    ) by {}
            }
        }
        result
    }

    /// Starts to take up what was being brought to paths when the device stopped.
    pub fn recover_pending_materializations(&self, keys: &GroupKeys, store: &Store) -> (result:
        Result<Recovery, ApplyError>)
        ensures
            ({
                let list = pending_list(
                    store@,
                    keys@.group_id,
                    sorted(pending_keys(store@.pending, keys@.group_id)),
                );
                match result {
                    Ok(recovery) => {
                        &&& list == Ok::<Seq<PendingView>, StoreError>(
                            pending_views(recovery.remaining@),
                        )
                        &&& recovery.report@ == RecoveryReportView { completed: 0, blocked: seq![] }
                    },
                    Err(error) => list is Err && error@ == ApplyProblem::Store(list->Err_0),
                }
            }),
    {
        match store.pending_materializations(keys.group_id()) {
            Ok(remaining) => {
                let report: MaterializationRecoveryReport = MaterializationRecoveryReport {
                    completed: 0,
                    blocked: Vec::new(),
                };
                assert(report@.blocked =~= seq![]);
                Ok(Recovery { remaining, report })
            },
            Err(error) => Err(ApplyError::Store(error)),
        }
    }

    /// Takes up the first of what was being brought to paths when the device stopped: the job to
    /// do, or none where it stays blocked. `files` holds the files of its manifest and of its
    /// chunks.
    pub fn recover_next(
        &self,
        recovery: &mut Recovery,
        keys: &GroupKeys,
        store: &mut Store,
        files: &ObjectFiles,
    ) -> (result: Result<Option<Job>, ApplyError>)
        requires
            old(recovery).remaining@.len() > 0,
        ensures
            ({
                let pending = old(recovery).remaining@[0]@;
                let (after, outcome) = recovery_begun(old(store)@, keys@, files@, pending);
                &&& final(store)@ == after
                &&& final(recovery).remaining@ == old(recovery).remaining@.skip(1)
                &&& match result {
                    Err(error) => outcome == Err::<RecoveryView, ApplyProblem>(error@)
                        && final(recovery).report@ == old(recovery).report@,
                    Ok(Some(job)) => outcome == Ok::<RecoveryView, ApplyProblem>(
                        RecoveryView::Materialize(job@),
                    ) && final(recovery).report@ == old(recovery).report@,
                    Ok(None) => outcome matches Ok(RecoveryView::Blocked(blocked))
                        && final(recovery).report@ == old(recovery).report@.with_blocked(blocked),
                }
            }),
    {
        let pending: PendingMaterialization = recovery.remaining.remove(0);
        proof {
            assert(recovery.remaining@ =~= old(recovery).remaining@.skip(1));
        }
        match self.recover_pending_materialization(pending, keys, store, files)? {
            RecoveryStep::Materialize(job) => Ok(Some(job)),
            RecoveryStep::Blocked(blocked) => {
                let ghost before = recovery.report@;
                let ghost view = blocked@;
                recovery.report.blocked.push(blocked);
                assert(recovery.report@.blocked =~= before.blocked.push(view));
                Ok(None)
            },
        }
    }

    /// Records that a job that was taken up again is done. `files` holds the file of its
    /// manifest.
    pub fn recover_finish(
        &self,
        recovery: &mut Recovery,
        job: &Job,
        keys: &GroupKeys,
        store: &mut Store,
        files: &ObjectFiles,
        now: i64,
    ) -> (result: Result<(), ApplyError>)
        requires
            old(recovery).report.completed < usize::MAX,
        ensures
            ({
                let file = lookup(files@, job.pending.target_content_id);
                let (after, outcome) = finished(old(store)@, keys@, job@, file, now);
                &&& final(store)@ == after
                &&& final(recovery).remaining@ == old(recovery).remaining@
                &&& match result {
                    Ok(_) => outcome is Ok && final(recovery).report@ == old(
                        recovery,
                    ).report@.with_completion(),
                    Err(error) => outcome == Err::<(), ApplyProblem>(error@)
                        && final(recovery).report@ == old(recovery).report@,
                }
            }),
    {
        finish_materialization(
            job,
            keys,
            store,
            file_of(files, job.pending.target_content_id),
            now,
        )?;
        recovery.report.completed = recovery.report.completed + 1;
        Ok(())
    }

    /// Takes up something that was being brought to a path when the device stopped. `files` holds
    /// the files of its manifest and of its chunks.
    pub fn recover_pending_materialization(
        &self,
        pending: PendingMaterialization,
        keys: &GroupKeys,
        store: &mut Store,
        files: &ObjectFiles,
    ) -> (result: Result<RecoveryStep, ApplyError>)
        ensures
            final(store)@ == recovery_begun(old(store)@, keys@, files@, pending@).0,
            agrees(result, recovery_begun(old(store)@, keys@, files@, pending@).1),
    {
        let loaded: LoadedRecord = load_record_object(
            pending.target_content_id,
            keys,
            store,
            files,
        )?;
        validate_pending_record(&pending, &loaded.record, keys)?;
        let missing: Vec<ContentId> = preflight_chunks(&loaded.record, keys, store, files)?;
        if missing.len() > 0 {
            return Ok(
                RecoveryStep::Blocked(
                    BlockedMaterialization {
                        path_id: pending.path_id,
                        missing_content_ids: missing,
                    },
                ),
            );
        }
        let job: Job = Job { pending, loaded };
        check_job(&job, keys)?;
        Ok(RecoveryStep::Materialize(job))
    }
}

} // verus!
