//! The application of incoming changes to the files of a device.
//!
//! Bringing a change to its path goes in steps. A step looks at the store and tells what to do
//! next: to bring a file to a path or to remove it there, after which the next step records what
//! was done; or nothing more.
use vstd::prelude::*;

use crate::catalog::{
    stage_name_of, str_of, text_of, PathKey, PendingRowView, StoreError,
};
use crate::chance::{drawn_bytes, Chance};
use crate::envelope::ObjectKind;
use crate::history::{
    begin_signed_verdict, begin_verdict, head_at, is_materialized, local_head_committed,
    pending_keys, pending_list, pending_views, signed_local_change_committed, with_pending,
    MaterializationAdmission, PendingMaterialization, PendingView,
};
use crate::ids::{ContentId, GroupId, PathId, RevisionId};
use crate::keys::{GroupKeys, KeysView};
use crate::loading::{
    head_loaded, load_head_record, pending_problem, validate_pending_record, ApplyError,
    ApplyProblem, LoadedRecord, LoadedView,
};
use crate::opening::ObjectFiles;
use crate::order::{ordered_ids, sorted};
use crate::outcome::agrees;
use crate::path::{PathForms, RelativePath};
use crate::record::{ChangeRecord, ChangeRecordKind, RecordView};
use crate::store::{
    admission_verdict, file_bytes, with_authentication, with_object, Store, StoreView,
};
use crate::table::removed;
use crate::text::{hex_text, push_hex};

verus! {

/// What became of an incoming change.
#[derive(Clone, Debug, PartialEq, Eq)]
pub enum ApplyOutcome {
    NoChange,
    KeptLocal { revision_id: RevisionId },
    Applied { revision_id: RevisionId, kind: ChangeRecordKind },
    MissingObjects { content_ids: Vec<ContentId> },
    KeptBoth {
        canonical_revision: RevisionId,
        conflict_revision: RevisionId,
        conflict_path: RelativePath,
    },
}

/// The contents of an `ApplyOutcome`.
pub enum OutcomeView {
    NoChange,
    KeptLocal { revision_id: RevisionId },
    Applied { revision_id: RevisionId, kind: ChangeRecordKind },
    MissingObjects { content_ids: Seq<ContentId> },
    KeptBoth {
        canonical_revision: RevisionId,
        conflict_revision: RevisionId,
        conflict_path: PathForms,
    },
}

impl View for ApplyOutcome {
    type V = OutcomeView;

    open spec fn view(&self) -> OutcomeView {
        match *self {
            ApplyOutcome::NoChange => OutcomeView::NoChange,
            ApplyOutcome::KeptLocal { revision_id } => OutcomeView::KeptLocal { revision_id },
            ApplyOutcome::Applied { revision_id, kind } => OutcomeView::Applied {
                revision_id,
                kind,
            },
            ApplyOutcome::MissingObjects { content_ids } => OutcomeView::MissingObjects {
                content_ids: content_ids@,
            },
            ApplyOutcome::KeptBoth { canonical_revision, conflict_revision, conflict_path } =>
            OutcomeView::KeptBoth {
                canonical_revision,
                conflict_revision,
                conflict_path: conflict_path@,
            },
        }
    }
}

#[derive(Clone, Debug, PartialEq, Eq)]
pub struct BlockedMaterialization {
    pub path_id: PathId,
    pub missing_content_ids: Vec<ContentId>,
}

/// The contents of a `BlockedMaterialization`.
pub struct BlockedView {
    pub path_id: PathId,
    pub missing_content_ids: Seq<ContentId>,
}

impl View for BlockedMaterialization {
    type V = BlockedView;

    open spec fn view(&self) -> BlockedView {
        BlockedView {
            path_id: self.path_id,
            missing_content_ids: self.missing_content_ids@,
        }
    }
}

#[derive(Clone, Debug, Default, PartialEq, Eq)]
pub struct MaterializationRecoveryReport {
    pub completed: usize,
    pub blocked: Vec<BlockedMaterialization>,
}

/// What is to be brought to a path: the file that a manifest describes, by way of the staging
/// file; or nothing where the record is a tombstone.
#[derive(Debug)]
pub struct Job {
    pub pending: PendingMaterialization,
    pub loaded: LoadedRecord,
}

/// The contents of a `Job`.
pub struct JobView {
    pub pending: PendingView,
    pub loaded: LoadedView,
}

impl View for Job {
    type V = JobView;

    open spec fn view(&self) -> JobView {
        JobView { pending: self.pending@, loaded: self.loaded@ }
    }
}

/// What follows once a job is done.
#[derive(Debug)]
pub enum Sequel {
    /// The change is applied.
    Finish(ApplyOutcome),
    /// The incoming record takes the place of the one whose conflict copy was made.
    Replace {
        incoming: LoadedRecord,
        expected_previous_content_id: ContentId,
        outcome: ApplyOutcome,
    },
}

/// The contents of a `Sequel`.
pub enum SequelView {
    Finish(OutcomeView),
    Replace {
        incoming: LoadedView,
        expected_previous_content_id: ContentId,
        outcome: OutcomeView,
    },
}

impl View for Sequel {
    type V = SequelView;

    open spec fn view(&self) -> SequelView {
        match *self {
            Sequel::Finish(outcome) => SequelView::Finish(outcome@),
            Sequel::Replace { incoming, expected_previous_content_id, outcome } =>
            SequelView::Replace {
                incoming: incoming@,
                expected_previous_content_id,
                outcome: outcome@,
            },
        }
    }
}

/// What to do next.
#[derive(Debug)]
pub enum ApplyStep {
    Done(ApplyOutcome),
    Materialize { job: Job, sequel: Sequel },
}

/// The contents of an `ApplyStep`.
pub enum StepView {
    Done(OutcomeView),
    Materialize { job: JobView, sequel: SequelView },
}

impl View for ApplyStep {
    type V = StepView;

    open spec fn view(&self) -> StepView {
        match *self {
            ApplyStep::Done(outcome) => StepView::Done(outcome@),
            ApplyStep::Materialize { job, sequel } => StepView::Materialize {
                job: job@,
                sequel: sequel@,
            },
        }
    }
}

/// The outcome of bringing a record to its path.
pub open spec fn outcome_of(record: RecordView) -> OutcomeView {
    OutcomeView::Applied { revision_id: record.revision_id(), kind: record.kind() }
}

/// The outcome of bringing a record to its path.
pub fn applied_outcome(record: &ChangeRecord) -> (outcome: ApplyOutcome)
    ensures
        outcome@ == outcome_of(record@),
{
    ApplyOutcome::Applied { revision_id: record.revision_id(), kind: record.kind() }
}

/// The name of the staging file with the given random bytes, for a record that has a file.
pub open spec fn staged_as(kind: ChangeRecordKind, token: Option<Seq<u8>>) -> Option<Seq<char>> {
    match (kind, token) {
        (ChangeRecordKind::File, Some(bytes)) => Some(stage_name_of(hex_text(bytes))),
        _ => None,
    }
}

/// The name of the staging file with the given random bytes, for a record that has a file.
pub fn stage_name(kind: ChangeRecordKind, token: Option<[u8; 16]>) -> (name: Option<String>)
    ensures
        text_of(name) == staged_as(kind, drawn_bytes(token)),
{
    match (kind, token) {
        (ChangeRecordKind::File, Some(bytes)) => {
            let mut name: String = ".orbit-stage-".to_owned();
            push_hex(&mut name, bytes.as_slice());
            vstd::string::StringExecFns::append(&mut name, ".tmp");
            Some(name)
        },
        _ => None,
    }
}

/// What is being brought to a path, among what is being brought to the paths of a group.
pub open spec fn find_pending(list: Seq<PendingView>, path_id: PathId) -> Option<PendingView>
    decreases list.len(),
{
    if list.len() == 0 {
        None
    } else {
        match find_pending(list.drop_last(), path_id) {
            Some(pending) => Some(pending),
            None => if list.last().path_id == path_id {
                Some(list.last())
            } else {
                None
            },
        }
    }
}

/// What is being brought to a path, or why what is being brought to paths cannot be told.
pub open spec fn pending_found(store: StoreView, group_id: GroupId, path_id: PathId) -> Result<
    Option<PendingView>,
    StoreError,
> {
    match pending_list(store, group_id, sorted(pending_keys(store.pending, group_id))) {
        Err(error) => Err(error),
        Ok(list) => Ok(find_pending(list, path_id)),
    }
}

pub(crate) fn pending_for(store: &Store, group_id: GroupId, path_id: PathId) -> (result: Result<
    Option<PendingMaterialization>,
    StoreError,
>)
    ensures
        match result {
            Ok(Some(pending)) => pending_found(store@, group_id, path_id) == Ok::<
                Option<PendingView>,
                StoreError,
            >(Some(pending@)),
            Ok(None) => pending_found(store@, group_id, path_id) == Ok::<
                Option<PendingView>,
                StoreError,
            >(None),
            Err(error) => pending_found(store@, group_id, path_id) == Err::<
                Option<PendingView>,
                StoreError,
            >(error),
        },
{
    let list: Vec<PendingMaterialization> = store.pending_materializations(group_id)?;
    let ghost views = pending_views(list@);
    let mut index: usize = 0;
    assert(views.take(0) =~= seq![]);
    while index < list.len()
        invariant
            index <= list@.len(),
            views == pending_views(list@),
            find_pending(views.take(index as int), path_id) is None,
            pending_found(store@, group_id, path_id) == Ok::<Option<PendingView>, StoreError>(
                find_pending(views, path_id),
            ),
        decreases list@.len() - index,
    {
        proof {
            assert(views.take(index + 1).drop_last() =~= views.take(index as int));
            assert(views.take(index + 1).last() == list@[index as int]@);
        }
        if list[index].path_id == path_id {
            proof {
                lemma_find_pending(views, path_id, index + 1);
            }
            let pending: &PendingMaterialization = &list[index];
            return Ok(
                Some(
                    PendingMaterialization {
                        path_id: pending.path_id,
                        target_content_id: pending.target_content_id,
                        expected_previous_content_id: pending.expected_previous_content_id,
                        kind: pending.kind,
                        stage_name: copy_name(&pending.stage_name),
                    },
                ),
            );
        }
        index += 1;
    }
    assert(views.take(index as int) =~= views);
    Ok(None)
}

fn copy_name(name: &Option<String>) -> (copy: Option<String>)
    ensures
        text_of(copy) == text_of(*name),
{
    match name {
        Some(name) => Some(name.as_str().to_owned()),
        None => None,
    }
}

proof fn lemma_find_pending(list: Seq<PendingView>, path_id: PathId, count: int)
    requires
        0 <= count <= list.len(),
        find_pending(list.take(count), path_id) is Some,
    ensures
        find_pending(list, path_id) == find_pending(list.take(count), path_id),
    decreases list.len(),
{
    if count < list.len() {
        assert(list.drop_last().take(count) =~= list.take(count));
        lemma_find_pending(list.drop_last(), path_id, count);
    } else {
        assert(list.take(count) =~= list);
    }
}

/// Why a job cannot be done.
pub open spec fn job_problem(keys: KeysView, job: JobView) -> Option<ApplyProblem> {
    match pending_problem(keys, job.pending, job.loaded.record) {
        Some(problem) => Some(problem),
        None => if job.loaded.record.kind() == ChangeRecordKind::File
            && job.pending.stage_name is None {
            Some(ApplyProblem::MissingStageName(job.pending.path_id))
        } else {
            None
        },
    }
}

pub(crate) fn check_job(job: &Job, keys: &GroupKeys) -> (result: Result<(), ApplyError>)
    ensures
        match result {
            Ok(_) => job_problem(keys@, job@) is None,
            Err(error) => job_problem(keys@, job@) == Some(error@),
        },
{
    validate_pending_record(&job.pending, &job.loaded.record, keys)?;
    if job.loaded.record.kind() == ChangeRecordKind::File && job.pending.stage_name.is_none() {
        return Err(ApplyError::MissingStageName(job.pending.path_id));
    }
    Ok(())
}

/// The note that a record is being brought to its path.
pub open spec fn pending_for_record(
    keys: KeysView,
    record: LoadedView,
    expected_previous: Option<ContentId>,
    token: Option<Seq<u8>>,
) -> PendingView {
    PendingView {
        path_id: keys.path_id(record.record.path().comparison_key),
        target_content_id: record.content_id,
        expected_previous_content_id: expected_previous,
        kind: record.record.kind(),
        stage_name: staged_as(record.record.kind(), token),
    }
}

/// The row that notes what is being brought to a path.
pub open spec fn pending_row(pending: PendingView) -> PendingRowView {
    PendingRowView {
        target_content_id: pending.target_content_id,
        expected_previous_content_id: pending.expected_previous_content_id,
        kind: pending.kind,
        stage_name: pending.stage_name,
    }
}

/// The store with a note that a record is being brought to its path, and its signature where it
/// has one.
pub open spec fn begun(
    store: StoreView,
    group_id: GroupId,
    record: LoadedView,
    pending: PendingView,
) -> (StoreView, Result<MaterializationAdmission, StoreError>) {
    let row = pending_row(pending);
    match record.authorization {
        Some(authorization) => {
            let revision_id = record.record.revision_id();
            let verdict = begin_signed_verdict(
                store,
                group_id,
                pending.path_id,
                revision_id,
                row,
                authorization,
            );
            let authenticated = with_authentication(
                store,
                group_id,
                revision_id,
                record.content_id,
                authorization,
            );
            (
                match verdict {
                    Ok(MaterializationAdmission::Queued) => with_pending(
                        authenticated,
                        group_id,
                        pending.path_id,
                        row,
                    ),
                    Ok(MaterializationAdmission::AlreadyPending) => authenticated,
                    Err(_) => store,
                },
                verdict,
            )
        },
        None => {
            let verdict = begin_verdict(store, group_id, pending.path_id, row);
            (
                match verdict {
                    Ok(MaterializationAdmission::Queued) => with_pending(
                        store,
                        group_id,
                        pending.path_id,
                        row,
                    ),
                    _ => store,
                },
                verdict,
            )
        },
    }
}

fn begin(
    loaded: &LoadedRecord,
    expected_previous: Option<ContentId>,
    keys: &GroupKeys,
    store: &mut Store,
    token: Option<[u8; 16]>,
) -> (result: Result<PendingMaterialization, ApplyError>)
    ensures
        ({
            let pending = pending_for_record(
                keys@,
                loaded@,
                expected_previous,
                drawn_bytes(token),
            );
            let (after, outcome) = begun(old(store)@, keys@.group_id, loaded@, pending);
            &&& final(store)@ == after
            &&& match result {
                Ok(value) => outcome is Ok && value@ == pending,
                Err(error) => outcome is Err && error@ == ApplyProblem::Store(outcome->Err_0),
            }
        }),
{
    let kind: ChangeRecordKind = loaded.record.kind();
    let name: Option<String> = stage_name(kind, token);
    let path_id: PathId = keys.identify_path(loaded.record.relative_path());
    let name_text: Option<&str> = match &name {
        Some(text) => Some(text.as_str()),
        None => None,
    };
    assert(str_of(name_text) == text_of(name));
    let begun: Result<MaterializationAdmission, StoreError> = match loaded.authorization {
        Some(authorization) => store.begin_signed_materialization(
            keys.group_id(),
            path_id,
            loaded.record.revision_id(),
            loaded.content_id,
            expected_previous,
            kind,
            name_text,
            authorization,
        ),
        None => store.begin_materialization(
            keys.group_id(),
            path_id,
            loaded.content_id,
            expected_previous,
            kind,
            name_text,
        ),
    };
    match begun {
        Ok(_) => Ok(
            PendingMaterialization {
                path_id,
                target_content_id: loaded.content_id,
                expected_previous_content_id: expected_previous,
                kind,
                stage_name: name,
            },
        ),
        Err(error) => Err(ApplyError::Store(error)),
    }
}

/// The job that brings a record to its path, none where it is there already; and the store with
/// the note of the job.
pub open spec fn ensured(
    store: StoreView,
    keys: KeysView,
    files: Seq<(ContentId, Seq<u8>)>,
    record: LoadedView,
    expected_previous: Option<ContentId>,
    reject_occupied: bool,
    token: Option<Seq<u8>>,
) -> (StoreView, Result<Option<JobView>, ApplyProblem>) {
    let path_id = keys.path_id(record.record.path().comparison_key);
    match pending_found(store, keys.group_id, path_id) {
        Err(error) => (store, Err(ApplyProblem::Store(error))),
        Ok(Some(pending)) => {
            let job = JobView { pending, loaded: record };
            if pending.target_content_id != record.content_id {
                (
                    store,
                    Err(
                        ApplyProblem::PendingTargetMismatch {
                            path_id,
                            pending: pending.target_content_id,
                            requested: record.content_id,
                        },
                    ),
                )
            } else {
                match job_problem(keys, job) {
                    Some(problem) => (store, Err(problem)),
                    None => (store, Ok(Some(job))),
                }
            }
        },
        Ok(None) => match head_at(store, keys.group_id, path_id) {
            Some(head) => if head.content_id == record.content_id {
                let (after, result) = head_loaded(store, keys, files, head);
                match result {
                    Err(problem) => (after, Err(problem)),
                    Ok(existing) => if existing == record.record {
                        (after, Ok(None))
                    } else {
                        (after, Err(ApplyProblem::RecordContentMismatch { path_id }))
                    },
                }
            } else if reject_occupied {
                (
                    store,
                    Err(
                        ApplyProblem::ConflictPathOccupied {
                            path: record.record.path(),
                            existing: head.content_id,
                            target: record.content_id,
                        },
                    ),
                )
            } else {
                job_begun(store, keys, record, expected_previous, token)
            },
            None => job_begun(store, keys, record, expected_previous, token),
        },
    }
}

/// The job that brings a record to its path, and the store with the note of the job. A file is
/// staged under a name that chance gives.
pub open spec fn job_begun(
    store: StoreView,
    keys: KeysView,
    record: LoadedView,
    expected_previous: Option<ContentId>,
    token: Option<Seq<u8>>,
) -> (StoreView, Result<Option<JobView>, ApplyProblem>) {
    if record.record.kind() == ChangeRecordKind::File && token is None {
        (store, Err(ApplyProblem::Randomness))
    } else {
        let pending = pending_for_record(keys, record, expected_previous, token);
        let (after, result) = begun(store, keys.group_id, record, pending);
        match result {
            Err(error) => (after, Err(ApplyProblem::Store(error))),
            Ok(_) => (after, Ok(Some(JobView { pending, loaded: record }))),
        }
    }
}

/// What a record has to do to be at its path.
pub enum Ensured {
    There,
    Begin(Job),
}

impl View for Ensured {
    type V = Option<JobView>;

    open spec fn view(&self) -> Option<JobView> {
        match *self {
            Ensured::There => None,
            Ensured::Begin(job) => Some(job@),
        }
    }
}

pub(crate) fn begin_job(
    loaded: LoadedRecord,
    expected_previous: Option<ContentId>,
    keys: &GroupKeys,
    store: &mut Store,
    chance: &Chance,
) -> (result: Result<Job, ApplyError>)
    ensures
        exists|token: Option<Seq<u8>>|
            {
                let (after, outcome) = #[trigger] job_begun(
                    old(store)@,
                    keys@,
                    loaded@,
                    expected_previous,
                    token,
                );
                &&& chance.allows_token(token)
                &&& final(store)@ == after
                &&& match result {
                    Ok(job) => outcome == Ok::<Option<JobView>, ApplyProblem>(Some(job@))
                        && job_problem(keys@, job@) is None,
                    Err(error) => outcome == Err::<Option<JobView>, ApplyProblem>(error@),
                }
            },
{
    let ghost before = store@;
    let ghost view = loaded@;
    let token: Option<[u8; 16]> = match loaded.record.kind() {
        ChangeRecordKind::File => chance.token(),
        ChangeRecordKind::Tombstone => match chance {
            Chance::Given(draw) => draw.token,
            Chance::Fresh => None,
        },
    };
    proof {
        assert(chance.allows_token(drawn_bytes(token)));
        let _ = job_begun(before, keys@, view, expected_previous, drawn_bytes(token));
    }
    if loaded.record.kind() == ChangeRecordKind::File && token.is_none() {
        return Err(ApplyError::Randomness);
    }
    let pending: PendingMaterialization = begin(
        &loaded,
        expected_previous,
        keys,
        store,
        token,
    )?;
    Ok(Job { pending, loaded })
}

pub(crate) fn ensure_materialized(
    loaded: LoadedRecord,
    expected_previous: Option<ContentId>,
    reject_occupied_path: bool,
    keys: &GroupKeys,
    store: &mut Store,
    files: &ObjectFiles,
    chance: &Chance,
) -> (result: Result<Ensured, ApplyError>)
    ensures
        exists|token: Option<Seq<u8>>|
            {
                let (after, outcome) = #[trigger] ensured(
                    old(store)@,
                    keys@,
                    files@,
                    loaded@,
                    expected_previous,
                    reject_occupied_path,
                    token,
                );
                chance.allows_token(token) && final(store)@ == after && agrees(result, outcome)
            },
{
    let ghost before = store@;
    let ghost view = loaded@;
    let ghost unasked = chance.unasked().token;
    assert(chance.allows_token(unasked));
    let ghost (after, outcome) = ensured(
        before,
        keys@,
        files@,
        view,
        expected_previous,
        reject_occupied_path,
        unasked,
    );
    let group_id: GroupId = keys.group_id();
    let path_id: PathId = keys.identify_path(loaded.record.relative_path());
    match pending_for(store, group_id, path_id) {
        Err(error) => {
            return Err(ApplyError::Store(error));
        },
        Ok(Some(pending)) => {
            if pending.target_content_id != loaded.content_id {
                return Err(
                    ApplyError::PendingTargetMismatch {
                        path_id,
                        pending: pending.target_content_id,
                        requested: loaded.content_id,
                    },
                );
            }
            let job: Job = Job { pending, loaded };
            check_job(&job, keys)?;
            return Ok(Ensured::Begin(job));
        },
        Ok(None) => {},
    }
    if let Some(head) = store.local_head(group_id, path_id) {
        if head.content_id == loaded.content_id {
            let existing: ChangeRecord = load_head_record(head, keys, store, files)?;
            if existing.same(&loaded.record) {
                return Ok(Ensured::There);
            }
            return Err(ApplyError::RecordContentMismatch { path_id });
        }
        if reject_occupied_path {
            return Err(
                ApplyError::ConflictPathOccupied {
                    path: loaded.record.relative_path().clone(),
                    existing: head.content_id,
                    target: loaded.content_id,
                },
            );
        }
    }
    let begun: Result<Job, ApplyError> = begin_job(loaded, expected_previous, keys, store, chance);
    proof {
        let token = choose|token: Option<Seq<u8>>|
            {
                let (after, outcome) = #[trigger] job_begun(
                    before,
                    keys@,
                    view,
                    expected_previous,
                    token,
                );
                &&& chance.allows_token(token)
                &&& store@ == after
                &&& match begun {
                    Ok(job) => outcome == Ok::<Option<JobView>, ApplyProblem>(Some(job@))
                        && job_problem(keys@, job@) is None,
                    Err(error) => outcome == Err::<Option<JobView>, ApplyProblem>(error@),
                }
            };
        assert(ensured(
            before,
            keys@,
            files@,
            view,
            expected_previous,
            reject_occupied_path,
            token,
        ) == job_begun(before, keys@, view, expected_previous, token));
    }
    match begun {
        Ok(job) => Ok(Ensured::Begin(job)),
        Err(error) => Err(error),
    }
}

/// The store after a job was done, or why what was done cannot be recorded: `file` is what the
/// file of the manifest holds.
pub open spec fn finished(
    store: StoreView,
    keys: KeysView,
    job: JobView,
    file: Option<Seq<u8>>,
    now: i64,
) -> (StoreView, Result<(), ApplyProblem>) {
    let pending = job.pending;
    let (committed, result) = job_committed(store, keys, job, file, now);
    match result {
        Err(error) => (committed, Err(ApplyProblem::Store(error))),
        Ok(_) => if is_materialized(
            committed,
            keys.group_id,
            pending.path_id,
            pending.target_content_id,
        ) {
            (
                StoreView {
                    pending: removed(
                        committed.pending,
                        PathKey { group_id: keys.group_id, path_id: pending.path_id },
                    ),
                    ..committed
                },
                Ok(()),
            )
        } else {
            (
                committed,
                Err(
                    ApplyProblem::MaterializationJournalMissing {
                        path_id: pending.path_id,
                        target_content_id: pending.target_content_id,
                    },
                ),
            )
        },
    }
}

/// The store with a record as the head of its path: in the log as well where it is signed.
pub open spec fn job_committed(
    store: StoreView,
    keys: KeysView,
    job: JobView,
    file: Option<Seq<u8>>,
    now: i64,
) -> (StoreView, Result<(), StoreError>) {
    let pending = job.pending;
    let record = job.loaded;
    let bytes = record.encrypted_bytes;
    let chunks = ordered_ids(record.record.chunk_ids());
    match admission_verdict(
        keys,
        ObjectKind::Manifest,
        pending.target_content_id,
        bytes,
        file,
    ) {
        Err(error) => (store, Err(error)),
        Ok(_) => {
            let admitted = with_object(
                store,
                keys,
                ObjectKind::Manifest,
                pending.target_content_id,
                bytes,
                file,
                now,
            );
            match record.authorization {
                Some(authorization) => {
                    let (after, result) = signed_local_change_committed(
                        admitted,
                        keys.group_id,
                        pending.path_id,
                        pending.expected_previous_content_id,
                        record.record.revision_id(),
                        record.record.kind(),
                        pending.target_content_id,
                        authorization,
                        chunks,
                    );
                    (
                        after,
                        match result {
                            Ok(_) => Ok(()),
                            Err(error) => Err(error),
                        },
                    )
                },
                None => local_head_committed(
                    admitted,
                    keys.group_id,
                    pending.path_id,
                    pending.expected_previous_content_id,
                    record.record.kind(),
                    pending.target_content_id,
                    chunks,
                ),
            }
        },
    }
}

/// Records that a job was done. `file` is what the file of the manifest holds.
pub fn finish_materialization(
    job: &Job,
    keys: &GroupKeys,
    store: &mut Store,
    file: Option<&[u8]>,
    now: i64,
) -> (result: Result<(), ApplyError>)
    ensures
        final(store)@ == finished(old(store)@, keys@, job@, file_bytes(file), now).0,
        match result {
            Ok(_) => finished(old(store)@, keys@, job@, file_bytes(file), now).1 is Ok,
            Err(error) => finished(old(store)@, keys@, job@, file_bytes(file), now).1 == Err::<
                (),
                ApplyProblem,
            >(error@),
        },
{
    let pending: &PendingMaterialization = &job.pending;
    let loaded: &LoadedRecord = &job.loaded;
    let chunks: Vec<ContentId> = loaded.record.chunk_ids();
    match loaded.authorization {
        Some(authorization) => {
            if let Err(error) = store.commit_signed_local_change(
                keys,
                pending.path_id,
                pending.expected_previous_content_id,
                loaded.record.revision_id(),
                loaded.record.kind(),
                pending.target_content_id,
                authorization,
                loaded.encrypted_bytes.as_slice(),
                &chunks,
                file,
                now,
            ) {
                return Err(ApplyError::Store(error));
            }
        },
        None => {
            if let Err(error) = store.commit_local_only_head(
                keys,
                pending.path_id,
                pending.expected_previous_content_id,
                loaded.record.kind(),
                pending.target_content_id,
                loaded.encrypted_bytes.as_slice(),
                &chunks,
                file,
                now,
            ) {
                return Err(ApplyError::Store(error));
            }
        },
    }
    if !store.complete_materialization(
        keys.group_id(),
        pending.path_id,
        pending.target_content_id,
    ) {
        return Err(
            ApplyError::MaterializationJournalMissing {
                path_id: pending.path_id,
                target_content_id: pending.target_content_id,
            },
        );
    }
    Ok(())
}

} // verus!
