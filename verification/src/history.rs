//! The history of a store: its change log, the heads of its paths, what is being brought to them,
//! and what nothing needs any longer.
use vstd::prelude::*;

use crate::catalog::{
    sequence_problem, sequence_to_i64, stage_problem, str_of, text_of,
    validate_materialization_stage, AuthenticationRowView, ChangeRow, DeviceKey, HeadRow,
    ObjectKey, ObjectRow, PathKey, PendingRow, PendingRowView, ReferenceKey, StoreError,
};
use crate::envelope::ObjectKind;
use crate::identity::{AuthorizationView, ChangeAuthorization};
use crate::ids::{ContentId, DeviceId, GroupId, PathId, RevisionId};
use crate::keys::GroupKeys;
use crate::order::{
    at_most, ids_of_keys, key_ids, lemma_sorted, order_ids, ordered_ids, sort_keys, sorted, SortKey,
};
use crate::outcome::agrees;
use crate::record::ChangeRecordKind;
use crate::store::{
    admission_verdict, authentication_verdict, file_bytes, kind_problem, with_authentication,
    with_object, Store, StoreView,
};
use crate::table::{kept, lookup, put, removed};
use crate::text::text_equal;

verus! {

/// What stands at a path.
#[derive(Clone, Copy, Debug, PartialEq, Eq, Structural)]
pub struct LocalHead {
    pub path_id: PathId,
    pub content_id: ContentId,
    pub kind: ChangeRecordKind,
}

/// What is being brought to a path.
#[derive(Clone, Debug, PartialEq, Eq)]
pub struct PendingMaterialization {
    pub path_id: PathId,
    pub target_content_id: ContentId,
    pub expected_previous_content_id: Option<ContentId>,
    pub kind: ChangeRecordKind,
    pub stage_name: Option<String>,
}

/// The contents of a `PendingMaterialization`.
pub struct PendingView {
    pub path_id: PathId,
    pub target_content_id: ContentId,
    pub expected_previous_content_id: Option<ContentId>,
    pub kind: ChangeRecordKind,
    pub stage_name: Option<Seq<char>>,
}

impl View for PendingMaterialization {
    type V = PendingView;

    open spec fn view(&self) -> PendingView {
        PendingView {
            path_id: self.path_id,
            target_content_id: self.target_content_id,
            expected_previous_content_id: self.expected_previous_content_id,
            kind: self.kind,
            stage_name: text_of(self.stage_name),
        }
    }
}

#[derive(Clone, Copy, Debug, PartialEq, Eq, Structural)]
pub enum MaterializationAdmission {
    Queued,
    AlreadyPending,
}

/// The place of a change in the log, and whether it is new there.
#[derive(Clone, Copy, Debug, PartialEq, Eq, Structural)]
pub struct ChangeCommit {
    pub sequence: u64,
    pub inserted: bool,
}

/// An entry of the change log of a group.
#[derive(Clone, Copy, Debug, PartialEq, Eq)]
pub struct StoredChange {
    pub sequence: u64,
    pub revision_id: RevisionId,
    pub content_id: ContentId,
}

/// Some of the entries of the change log of a group.
#[derive(Clone, Debug, PartialEq, Eq)]
pub struct ChangePage {
    pub records: Vec<StoredChange>,
    pub high_watermark: u64,
}

/// The contents of a `ChangePage`.
pub struct PageView {
    pub records: Seq<StoredChange>,
    pub high_watermark: u64,
}

impl View for ChangePage {
    type V = PageView;

    open spec fn view(&self) -> PageView {
        PageView { records: self.records@, high_watermark: self.high_watermark }
    }
}

/// What a collection of garbage removed.
#[derive(Clone, Copy, Debug, Default, PartialEq, Eq, Structural)]
pub struct GarbageCollectionReport {
    pub removed_objects: usize,
    pub removed_encrypted_bytes: u64,
}

/// What stands at a path.
pub open spec fn head_at(store: StoreView, group_id: GroupId, path_id: PathId) -> Option<LocalHead> {
    match lookup(store.heads, PathKey { group_id, path_id }) {
        Some(row) => Some(LocalHead { path_id, content_id: row.content_id, kind: row.kind }),
        None => None,
    }
}

/// What the content of the head of a path is.
pub open spec fn head_content(
    store: StoreView,
    group_id: GroupId,
    path_id: PathId,
) -> Option<ContentId> {
    match lookup(store.heads, PathKey { group_id, path_id }) {
        Some(row) => Some(row.content_id),
        None => None,
    }
}

/// What the heads of a group are sorted by.
pub open spec fn head_keys(rows: Seq<(PathKey, HeadRow)>, group_id: GroupId) -> Seq<SortKey>
    decreases rows.len(),
{
    if rows.len() == 0 {
        seq![]
    } else {
        let before = head_keys(rows.drop_last(), group_id);
        let key = rows.last().0;
        if key.group_id == group_id {
            before.push(SortKey { time: 0, high: key.path_id.high, low: key.path_id.low })
        } else {
            before
        }
    }
}

/// The heads of a group in the order of their paths.
pub open spec fn heads_of(store: StoreView, group_id: GroupId) -> Seq<LocalHead> {
    let keys = sorted(head_keys(store.heads, group_id));
    Seq::new(
        keys.len(),
        |i: int| head_at(store, group_id, PathId { high: keys[i].high, low: keys[i].low })->0,
    )
}

/// What a row that says what is being brought to a path stands for, where it makes sense.
pub open spec fn pending_of(path_id: PathId, row: PendingRowView) -> Result<
    PendingView,
    StoreError,
> {
    match stage_problem(row.kind, row.stage_name) {
        Some(error) => Err(error),
        None => Ok(
            PendingView {
                path_id,
                target_content_id: row.target_content_id,
                expected_previous_content_id: row.expected_previous_content_id,
                kind: row.kind,
                stage_name: row.stage_name,
            },
        ),
    }
}

/// What is being brought to a path.
pub open spec fn pending_at(store: StoreView, group_id: GroupId, path_id: PathId) -> Result<
    Option<PendingView>,
    StoreError,
> {
    match lookup(store.pending, PathKey { group_id, path_id }) {
        None => Ok(None),
        Some(row) => match pending_of(path_id, row) {
            Err(error) => Err(error),
            Ok(pending) => Ok(Some(pending)),
        },
    }
}

/// What the paths of a group to which something is being brought are sorted by.
pub open spec fn pending_keys(rows: Seq<(PathKey, PendingRowView)>, group_id: GroupId) -> Seq<
    SortKey,
>
    decreases rows.len(),
{
    if rows.len() == 0 {
        seq![]
    } else {
        let before = pending_keys(rows.drop_last(), group_id);
        let key = rows.last().0;
        if key.group_id == group_id {
            before.push(SortKey { time: 0, high: key.path_id.high, low: key.path_id.low })
        } else {
            before
        }
    }
}

/// What is being brought to paths, in their order, or the first row that makes no sense.
pub open spec fn pending_list(store: StoreView, group_id: GroupId, keys: Seq<SortKey>) -> Result<
    Seq<PendingView>,
    StoreError,
>
    decreases keys.len(),
{
    if keys.len() == 0 {
        Ok(seq![])
    } else {
        match pending_list(store, group_id, keys.drop_last()) {
            Err(error) => Err(error),
            Ok(before) => {
                let path_id = PathId { high: keys.last().high, low: keys.last().low };
                match pending_of(path_id, lookup(store.pending, PathKey { group_id, path_id })->0) {
                    Err(error) => Err(error),
                    Ok(pending) => Ok(before.push(pending)),
                }
            },
        }
    }
}

/// Whether something may be brought to a path.
pub open spec fn materialization_verdict(
    store: StoreView,
    group_id: GroupId,
    path_id: PathId,
    row: PendingRowView,
) -> Result<MaterializationAdmission, StoreError> {
    let actual = head_content(store, group_id, path_id);
    let expected = row.expected_previous_content_id;
    match pending_at(store, group_id, path_id) {
        Err(error) => Err(error),
        Ok(Some(existing)) => if existing.target_content_id == row.target_content_id
            && existing.expected_previous_content_id == expected && existing.kind == row.kind
            && existing.stage_name == row.stage_name {
            if actual != expected && actual != Some(row.target_content_id) {
                Err(StoreError::StaleLocalHead { path_id, expected, actual })
            } else {
                Ok(MaterializationAdmission::AlreadyPending)
            }
        } else {
            Err(StoreError::MaterializationInProgress { path_id })
        },
        Ok(None) => if actual != expected {
            Err(StoreError::StaleLocalHead { path_id, expected, actual })
        } else {
            Ok(MaterializationAdmission::Queued)
        },
    }
}

/// Whether an object may be brought to a path.
pub open spec fn begin_verdict(
    store: StoreView,
    group_id: GroupId,
    path_id: PathId,
    row: PendingRowView,
) -> Result<MaterializationAdmission, StoreError> {
    match stage_problem(row.kind, row.stage_name) {
        Some(error) => Err(error),
        None => match kind_problem(
            store,
            group_id,
            row.target_content_id,
            ObjectKind::Manifest,
        ) {
            Some(error) => Err(error),
            None => materialization_verdict(store, group_id, path_id, row),
        },
    }
}

/// Whether a signed change may be brought to a path.
pub open spec fn begin_signed_verdict(
    store: StoreView,
    group_id: GroupId,
    path_id: PathId,
    revision_id: RevisionId,
    row: PendingRowView,
    authorization: AuthorizationView,
) -> Result<MaterializationAdmission, StoreError> {
    match stage_problem(row.kind, row.stage_name) {
        Some(error) => Err(error),
        None => match authentication_verdict(
            store,
            group_id,
            revision_id,
            row.target_content_id,
            authorization,
        ) {
            Err(error) => Err(error),
            Ok(_) => materialization_verdict(store, group_id, path_id, row),
        },
    }
}

/// The store with a note of what is being brought to a path.
pub open spec fn with_pending(
    store: StoreView,
    group_id: GroupId,
    path_id: PathId,
    row: PendingRowView,
) -> StoreView {
    StoreView { pending: put(store.pending, PathKey { group_id, path_id }, row), ..store }
}

/// What was being brought to a path has become its head.
pub open spec fn is_materialized(
    store: StoreView,
    group_id: GroupId,
    path_id: PathId,
    target_content_id: ContentId,
) -> bool {
    match lookup(store.pending, PathKey { group_id, path_id }) {
        Some(row) => row.target_content_id == target_content_id && head_content(
            store,
            group_id,
            path_id,
        ) == Some(target_content_id),
        None => false,
    }
}

/// The entry of the change log for a revision.
pub open spec fn change_of(
    changes: Seq<ChangeRow>,
    group_id: GroupId,
    revision_id: RevisionId,
) -> Option<ChangeRow>
    decreases changes.len(),
{
    if changes.len() == 0 {
        None
    } else if change_of(changes.drop_last(), group_id, revision_id) is Some {
        change_of(changes.drop_last(), group_id, revision_id)
    } else if changes.last().group_id == group_id && changes.last().revision_id == revision_id {
        Some(changes.last())
    } else {
        None
    }
}

/// The number of the last entry of the change log, zero where it is empty.
pub open spec fn last_sequence(changes: Seq<ChangeRow>) -> u64 {
    if changes.len() == 0 {
        0
    } else {
        changes.last().sequence
    }
}

/// The first chunk that is not there.
pub open spec fn chunk_problem(
    store: StoreView,
    group_id: GroupId,
    chunks: Seq<ContentId>,
) -> Option<StoreError>
    decreases chunks.len(),
{
    if chunks.len() == 0 {
        None
    } else if chunk_problem(store, group_id, chunks.drop_last()) is Some {
        chunk_problem(store, group_id, chunks.drop_last())
    } else {
        kind_problem(store, group_id, chunks.last(), ObjectKind::Chunk)
    }
}

/// What is wrong with a manifest or with the chunks that it needs.
pub open spec fn graph_problem(
    store: StoreView,
    group_id: GroupId,
    content_id: ContentId,
    chunks: Seq<ContentId>,
) -> Option<StoreError> {
    match kind_problem(store, group_id, content_id, ObjectKind::Manifest) {
        Some(error) => Some(error),
        None => chunk_problem(store, group_id, chunks),
    }
}

/// The place that a change has or gets in the log.
pub open spec fn commit_verdict(
    store: StoreView,
    group_id: GroupId,
    revision_id: RevisionId,
    content_id: ContentId,
    chunks: Seq<ContentId>,
) -> Result<ChangeCommit, StoreError> {
    match change_of(store.changes, group_id, revision_id) {
        Some(row) => if row.content_id != content_id {
            Err(StoreError::RevisionContentMismatch { revision_id })
        } else {
            Ok(ChangeCommit { sequence: row.sequence, inserted: false })
        },
        None => match graph_problem(store, group_id, content_id, chunks) {
            Some(error) => Err(error),
            None => if last_sequence(store.changes) >= i64::MAX {
                Err(StoreError::CatalogFull)
            } else {
                Ok(
                    ChangeCommit {
                        sequence: (last_sequence(store.changes) + 1) as u64,
                        inserted: true,
                    },
                )
            },
        },
    }
}

/// The references of an object with those to the given chunks.
pub open spec fn with_references(
    references: Seq<(ReferenceKey, ())>,
    group_id: GroupId,
    owner_content_id: ContentId,
    chunks: Seq<ContentId>,
) -> Seq<(ReferenceKey, ())>
    decreases chunks.len(),
{
    if chunks.len() == 0 {
        references
    } else {
        put(
            with_references(references, group_id, owner_content_id, chunks.drop_last()),
            ReferenceKey {
                group_id,
                owner_content_id,
                referenced_content_id: chunks.last(),
            },
            (),
        )
    }
}

/// The store with a change at the end of the log.
pub open spec fn with_change(
    store: StoreView,
    group_id: GroupId,
    revision_id: RevisionId,
    content_id: ContentId,
    chunks: Seq<ContentId>,
    commit: ChangeCommit,
) -> StoreView {
    if commit.inserted {
        StoreView {
            changes: store.changes.push(
                ChangeRow { sequence: commit.sequence, group_id, revision_id, content_id },
            ),
            references: with_references(store.references, group_id, content_id, chunks),
            ..store
        }
    } else {
        store
    }
}

/// The store with the given head at a path.
pub open spec fn with_head(
    store: StoreView,
    group_id: GroupId,
    path_id: PathId,
    content_id: ContentId,
    kind: ChangeRecordKind,
) -> StoreView {
    StoreView {
        heads: put(store.heads, PathKey { group_id, path_id }, HeadRow { content_id, kind }),
        ..store
    }
}

/// Whether content may become the head of a path: true where it is the head already.
pub open spec fn head_verdict(
    store: StoreView,
    group_id: GroupId,
    path_id: PathId,
    expected_previous: Option<ContentId>,
    kind: ChangeRecordKind,
    content_id: ContentId,
) -> Result<bool, StoreError> {
    match pending_at(store, group_id, path_id) {
        Err(error) => Err(error),
        Ok(pending) => if pending is Some && pending->0.target_content_id != content_id {
            Err(StoreError::MaterializationInProgress { path_id })
        } else {
            match head_at(store, group_id, path_id) {
                Some(head) => if head.content_id == content_id {
                    if head.kind != kind {
                        Err(
                            StoreError::LocalHeadKindMismatch {
                                path_id,
                                expected: kind,
                                actual: head.kind,
                            },
                        )
                    } else {
                        Ok(true)
                    }
                } else if expected_previous != Some(head.content_id) {
                    Err(
                        StoreError::StaleLocalHead {
                            path_id,
                            expected: expected_previous,
                            actual: Some(head.content_id),
                        },
                    )
                } else {
                    Ok(false)
                },
                None => if expected_previous is Some {
                    Err(
                        StoreError::StaleLocalHead {
                            path_id,
                            expected: expected_previous,
                            actual: None,
                        },
                    )
                } else {
                    Ok(false)
                },
            }
        },
    }
}

/// The outcome of committing a change, after its manifest was admitted.
pub open spec fn change_committed(
    store: StoreView,
    group_id: GroupId,
    revision_id: RevisionId,
    content_id: ContentId,
    chunks: Seq<ContentId>,
) -> (StoreView, Result<ChangeCommit, StoreError>) {
    match commit_verdict(store, group_id, revision_id, content_id, chunks) {
        Err(error) => (store, Err(error)),
        Ok(commit) => (
            with_change(store, group_id, revision_id, content_id, chunks, commit),
            Ok(commit),
        ),
    }
}

/// The outcome of committing a signed change, after its manifest was admitted.
pub open spec fn signed_change_committed(
    store: StoreView,
    group_id: GroupId,
    revision_id: RevisionId,
    content_id: ContentId,
    authorization: AuthorizationView,
    chunks: Seq<ContentId>,
) -> (StoreView, Result<ChangeCommit, StoreError>) {
    match authentication_verdict(store, group_id, revision_id, content_id, authorization) {
        Err(error) => (store, Err(error)),
        Ok(_) => match commit_verdict(store, group_id, revision_id, content_id, chunks) {
            Err(error) => (store, Err(error)),
            Ok(commit) => (
                with_change(
                    with_authentication(store, group_id, revision_id, content_id, authorization),
                    group_id,
                    revision_id,
                    content_id,
                    chunks,
                    commit,
                ),
                Ok(commit),
            ),
        },
    }
}

/// The outcome of committing a change that becomes the head of a path, after its manifest was
/// admitted.
pub open spec fn local_change_committed(
    store: StoreView,
    group_id: GroupId,
    path_id: PathId,
    expected_previous: Option<ContentId>,
    revision_id: RevisionId,
    kind: ChangeRecordKind,
    content_id: ContentId,
    chunks: Seq<ContentId>,
) -> (StoreView, Result<ChangeCommit, StoreError>) {
    match head_verdict(store, group_id, path_id, expected_previous, kind, content_id) {
        Err(error) => (store, Err(error)),
        Ok(already) => match commit_verdict(store, group_id, revision_id, content_id, chunks) {
            Err(error) => (store, Err(error)),
            Ok(commit) => {
                let changed = with_change(
                    store,
                    group_id,
                    revision_id,
                    content_id,
                    chunks,
                    commit,
                );
                (
                    if already {
                        changed
                    } else {
                        with_head(changed, group_id, path_id, content_id, kind)
                    },
                    Ok(commit),
                )
            },
        },
    }
}

/// The outcome of committing a signed change that becomes the head of a path, after its manifest
/// was admitted.
pub open spec fn signed_local_change_committed(
    store: StoreView,
    group_id: GroupId,
    path_id: PathId,
    expected_previous: Option<ContentId>,
    revision_id: RevisionId,
    kind: ChangeRecordKind,
    content_id: ContentId,
    authorization: AuthorizationView,
    chunks: Seq<ContentId>,
) -> (StoreView, Result<ChangeCommit, StoreError>) {
    match authentication_verdict(store, group_id, revision_id, content_id, authorization) {
        Err(error) => (store, Err(error)),
        Ok(_) => {
            let (committed, result) = local_change_committed(
                with_authentication(store, group_id, revision_id, content_id, authorization),
                group_id,
                path_id,
                expected_previous,
                revision_id,
                kind,
                content_id,
                chunks,
            );
            match result {
                Err(error) => (store, Err(error)),
                Ok(commit) => (committed, Ok(commit)),
            }
        },
    }
}

/// The outcome of making content the head of a path without entering it into the log, after its
/// manifest was admitted.
pub open spec fn local_head_committed(
    store: StoreView,
    group_id: GroupId,
    path_id: PathId,
    expected_previous: Option<ContentId>,
    kind: ChangeRecordKind,
    content_id: ContentId,
    chunks: Seq<ContentId>,
) -> (StoreView, Result<(), StoreError>) {
    match head_verdict(store, group_id, path_id, expected_previous, kind, content_id) {
        Err(error) => (store, Err(error)),
        Ok(true) => (store, Ok(())),
        Ok(false) => match graph_problem(store, group_id, content_id, chunks) {
            Some(error) => (store, Err(error)),
            None => (
                with_head(
                    StoreView {
                        references: with_references(
                            store.references,
                            group_id,
                            content_id,
                            chunks,
                        ),
                        ..store
                    },
                    group_id,
                    path_id,
                    content_id,
                    kind,
                ),
                Ok(()),
            ),
        },
    }
}

/// The entries of the change log of a group after a given one.
pub open spec fn changes_of(
    changes: Seq<ChangeRow>,
    group_id: GroupId,
    after_sequence: u64,
) -> Seq<StoredChange>
    decreases changes.len(),
{
    if changes.len() == 0 {
        seq![]
    } else {
        let before = changes_of(changes.drop_last(), group_id, after_sequence);
        let row = changes.last();
        if row.group_id == group_id && row.sequence > after_sequence {
            before.push(
                StoredChange {
                    sequence: row.sequence,
                    revision_id: row.revision_id,
                    content_id: row.content_id,
                },
            )
        } else {
            before
        }
    }
}

/// The highest number in the change log of a group, zero where it is empty.
pub open spec fn high_watermark(changes: Seq<ChangeRow>, group_id: GroupId) -> u64
    decreases changes.len(),
{
    if changes.len() == 0 {
        0
    } else {
        let before = high_watermark(changes.drop_last(), group_id);
        if changes.last().group_id == group_id && changes.last().sequence > before {
            changes.last().sequence
        } else {
            before
        }
    }
}

/// Some of the entries of the change log of a group after a given one.
pub open spec fn change_page(
    store: StoreView,
    group_id: GroupId,
    after_sequence: u64,
    maximum: nat,
) -> Result<PageView, StoreError> {
    match sequence_problem(after_sequence) {
        Some(error) => Err(error),
        None => Ok(
            PageView {
                records: at_most(changes_of(store.changes, group_id, after_sequence), maximum),
                high_watermark: high_watermark(store.changes, group_id),
            },
        ),
    }
}

/// How far the change log of a peer has been read.
pub open spec fn watermark_at(store: StoreView, group_id: GroupId, device_id: DeviceId) -> u64 {
    match lookup(store.watermarks, DeviceKey { group_id, device_id }) {
        Some(sequence) => sequence,
        None => 0,
    }
}

/// How many changes pin an object.
pub open spec fn change_pins(changes: Seq<ChangeRow>, key: ObjectKey) -> nat
    decreases changes.len(),
{
    if changes.len() == 0 {
        0
    } else {
        change_pins(changes.drop_last(), key) + if changes.last().group_id == key.group_id
            && changes.last().content_id == key.content_id {
            1nat
        } else {
            0nat
        }
    }
}

/// How many other objects pin an object.
pub open spec fn reference_pins(rows: Seq<(ReferenceKey, ())>, key: ObjectKey) -> nat
    decreases rows.len(),
{
    if rows.len() == 0 {
        0
    } else {
        reference_pins(rows.drop_last(), key) + if rows.last().0.group_id == key.group_id
            && rows.last().0.referenced_content_id == key.content_id {
            1nat
        } else {
            0nat
        }
    }
}

/// How many heads pin an object.
pub open spec fn head_pins(rows: Seq<(PathKey, HeadRow)>, key: ObjectKey) -> nat
    decreases rows.len(),
{
    if rows.len() == 0 {
        0
    } else {
        head_pins(rows.drop_last(), key) + if rows.last().0.group_id == key.group_id
            && rows.last().1.content_id == key.content_id {
            1nat
        } else {
            0nat
        }
    }
}

/// How often an object is being brought to a path.
pub open spec fn pending_pins(rows: Seq<(PathKey, PendingRowView)>, key: ObjectKey) -> nat
    decreases rows.len(),
{
    if rows.len() == 0 {
        0
    } else {
        pending_pins(rows.drop_last(), key) + if rows.last().0.group_id == key.group_id
            && rows.last().1.target_content_id == key.content_id {
            1nat
        } else {
            0nat
        }
    }
}

/// How many signatures pin an object.
pub open spec fn authentication_pins(
    rows: Seq<(crate::catalog::RevisionKey, AuthenticationRowView)>,
    key: ObjectKey,
) -> nat
    decreases rows.len(),
{
    if rows.len() == 0 {
        0
    } else {
        authentication_pins(rows.drop_last(), key) + if rows.last().0.group_id == key.group_id
            && rows.last().1.content_id == key.content_id {
            1nat
        } else {
            0nat
        }
    }
}

/// How often an object is pinned.
pub open spec fn reference_count(store: StoreView, key: ObjectKey) -> nat {
    change_pins(store.changes, key) + reference_pins(store.references, key) + head_pins(
        store.heads,
        key,
    ) + pending_pins(store.pending, key) + authentication_pins(store.authentications, key)
}

/// An object of the group that nothing pins and that was verified by the given time.
pub open spec fn is_garbage(
    store: StoreView,
    group_id: GroupId,
    verified_before: i64,
    row: (ObjectKey, ObjectRow),
) -> bool {
    row.0.group_id == group_id && row.1.verified_at_unix_ms <= verified_before && reference_count(
        store,
        row.0,
    ) == 0
}

/// What the garbage of a group is sorted by: when it was verified.
pub open spec fn garbage_keys(
    store: StoreView,
    rows: Seq<(ObjectKey, ObjectRow)>,
    group_id: GroupId,
    verified_before: i64,
) -> Seq<SortKey>
    decreases rows.len(),
{
    if rows.len() == 0 {
        seq![]
    } else {
        let before = garbage_keys(store, rows.drop_last(), group_id, verified_before);
        let row = rows.last();
        if is_garbage(store, group_id, verified_before, row) {
            before.push(
                SortKey {
                    time: row.1.verified_at_unix_ms,
                    high: row.0.content_id.high,
                    low: row.0.content_id.low,
                },
            )
        } else {
            before
        }
    }
}

/// The oldest garbage of a group.
pub open spec fn garbage_of(
    store: StoreView,
    group_id: GroupId,
    verified_before: i64,
    maximum: nat,
) -> Seq<ContentId> {
    key_ids(
        at_most(sorted(garbage_keys(store, store.objects, group_id, verified_before)), maximum),
    )
}

/// The store without the given objects, and without what they need.
pub open spec fn without_objects(
    store: StoreView,
    group_id: GroupId,
    content_ids: Seq<ContentId>,
) -> StoreView {
    StoreView {
        objects: kept(
            store.objects,
            |key: ObjectKey| !(key.group_id == group_id && content_ids.contains(key.content_id)),
        ),
        references: kept(
            store.references,
            |key: ReferenceKey|
                !(key.group_id == group_id && content_ids.contains(key.owner_content_id)),
        ),
        ..store
    }
}

/// The size of the given objects together, as far as it can be represented.
pub open spec fn total_size(
    store: StoreView,
    group_id: GroupId,
    content_ids: Seq<ContentId>,
) -> u64
    decreases content_ids.len(),
{
    if content_ids.len() == 0 {
        0
    } else {
        let before = total_size(store, group_id, content_ids.drop_last());
        let size = object_size(store, group_id, content_ids.last());
        if before + size > u64::MAX {
            u64::MAX
        } else {
            (before + size) as u64
        }
    }
}

/// The size of an object.
pub open spec fn object_size(store: StoreView, group_id: GroupId, content_id: ContentId) -> u64 {
    match lookup(store.objects, ObjectKey { group_id, content_id }) {
        Some(row) => row.encrypted_size,
        None => 0,
    }
}

fn same_name(left: &Option<String>, right: &Option<String>) -> (same: bool)
    ensures
        same == (text_of(*left) == text_of(*right)),
{
    match (left, right) {
        (Some(left), Some(right)) => text_equal(left.as_str(), right.as_str()),
        (None, None) => true,
        _ => false,
    }
}

fn same_content(left: Option<ContentId>, right: Option<ContentId>) -> (same: bool)
    ensures
        same == (left == right),
{
    match (left, right) {
        (Some(left), Some(right)) => left == right,
        (None, None) => true,
        _ => false,
    }
}

fn name_of(name: Option<&str>) -> (owned: Option<String>)
    ensures
        text_of(owned) == str_of(name),
{
    match name {
        Some(name) => Some(name.to_owned()),
        None => None,
    }
}

fn copy_name(name: &Option<String>) -> (copy: Option<String>)
    ensures
        text_of(copy) == text_of(*name),
{
    match name {
        Some(name) => Some(name.clone()),
        None => None,
    }
}

fn check_stage(kind: ChangeRecordKind, name: &Option<String>) -> (result: Result<(), StoreError>)
    ensures
        match result {
            Ok(_) => stage_problem(kind, text_of(*name)) is None,
            Err(error) => stage_problem(kind, text_of(*name)) == Some(error),
        },
{
    match name {
        Some(name) => validate_materialization_stage(kind, Some(name.as_str())),
        None => validate_materialization_stage(kind, None),
    }
}

impl Store {
    /// What stands at a path.
    pub fn local_head(&self, group_id: GroupId, path_id: PathId) -> (head: Option<LocalHead>)
        ensures
            head == head_at(self@, group_id, path_id),
    {
        match self.heads.get(PathKey { group_id, path_id }) {
            Some(row) => Some(LocalHead { path_id, content_id: row.content_id, kind: row.kind }),
            None => None,
        }
    }

    /// The heads of a group in the order of their paths.
    pub fn local_heads(&self, group_id: GroupId) -> (heads: Vec<LocalHead>)
        ensures
            heads@ == heads_of(self@, group_id),
    {
        let ghost rows = self@.heads;
        let mut keys: Vec<SortKey> = Vec::new();
        let mut index: usize = 0;
        assert(rows.take(0) =~= seq![]);
        while index < self.heads.len()
            invariant
                index <= rows.len(),
                rows == self@.heads,
                keys@ == head_keys(rows.take(index as int), group_id),
                forall|i: int|
                    0 <= i < keys@.len() ==> head_at(
                        self@,
                        group_id,
                        PathId { high: (#[trigger] keys@[i]).high, low: keys@[i].low },
                    ) is Some,
            decreases rows.len() - index,
        {
            proof {
                assert(rows.take(index + 1).drop_last() =~= rows.take(index as int));
                assert(rows.take(index + 1).last() == rows[index as int]);
            }
            let key: PathKey = self.heads.key(index);
            if key.group_id == group_id {
                proof {
                    crate::table::lemma_lookup(rows, key);
                }
                keys.push(SortKey { time: 0, high: key.path_id.high, low: key.path_id.low });
            }
            index += 1;
        }
        assert(rows.take(index as int) =~= rows);
        let page: Vec<SortKey> = sort_keys(&keys);
        let mut heads: Vec<LocalHead> = Vec::new();
        let mut place: usize = 0;
        proof {
            lemma_sorted(keys@);
        }
        while place < page.len()
            invariant
                place <= page@.len(),
                page@ == sorted(keys@),
                forall|i: int| 0 <= i < page@.len() ==> keys@.contains(#[trigger] page@[i]),
                forall|i: int|
                    0 <= i < keys@.len() ==> head_at(
                        self@,
                        group_id,
                        PathId { high: (#[trigger] keys@[i]).high, low: keys@[i].low },
                    ) is Some,
                heads@.len() == place,
                forall|i: int|
                    0 <= i < place ==> heads@[i] == head_at(
                        self@,
                        group_id,
                        PathId { high: page@[i].high, low: page@[i].low },
                    )->0,
            decreases page@.len() - place,
        {
            let path_id: PathId = PathId { high: page[place].high, low: page[place].low };
            proof {
                assert(keys@.contains(page@[place as int]));
                let k = choose|k: int| 0 <= k < keys@.len() && keys@[k] == page@[place as int];
                assert(keys@[k].high == path_id.high);
            }
            if let Some(head) = self.local_head(group_id, path_id) {
                heads.push(head);
            }
            place += 1;
        }
        assert(heads@ =~= heads_of(self@, group_id));
        heads
    }

    /// What is being brought to a path.
    pub fn pending_materialization(&self, group_id: GroupId, path_id: PathId) -> (result: Result<
        Option<PendingMaterialization>,
        StoreError,
    >)
        ensures
            match result {
                Ok(Some(pending)) => pending_at(self@, group_id, path_id) == Ok::<
                    Option<PendingView>,
                    StoreError,
                >(Some(pending@)),
                Ok(None) => pending_at(self@, group_id, path_id) == Ok::<
                    Option<PendingView>,
                    StoreError,
                >(None),
                Err(error) => pending_at(self@, group_id, path_id) == Err::<
                    Option<PendingView>,
                    StoreError,
                >(error),
            },
    {
        match self.pending.get(PathKey { group_id, path_id }) {
            None => Ok(None),
            Some(row) => {
                check_stage(row.kind, &row.stage_name)?;
                Ok(
                    Some(
                        PendingMaterialization {
                            path_id,
                            target_content_id: row.target_content_id,
                            expected_previous_content_id: row.expected_previous_content_id,
                            kind: row.kind,
                            stage_name: copy_name(&row.stage_name),
                        },
                    ),
                )
            },
        }
    }

    /// What is being brought to the paths of a group, in their order.
    pub fn pending_materializations(&self, group_id: GroupId) -> (result: Result<
        Vec<PendingMaterialization>,
        StoreError,
    >)
        ensures
            match result {
                Ok(list) => pending_list(
                    self@,
                    group_id,
                    sorted(pending_keys(self@.pending, group_id)),
                ) == Ok::<Seq<PendingView>, StoreError>(pending_views(list@)),
                Err(error) => pending_list(
                    self@,
                    group_id,
                    sorted(pending_keys(self@.pending, group_id)),
                ) == Err::<Seq<PendingView>, StoreError>(error),
            },
    {
        let ghost rows = self@.pending;
        let mut keys: Vec<SortKey> = Vec::new();
        let mut index: usize = 0;
        assert(rows.take(0) =~= seq![]);
        while index < self.pending.len()
            invariant
                index <= rows.len(),
                rows == self@.pending,
                keys@ == pending_keys(rows.take(index as int), group_id),
                forall|i: int|
                    0 <= i < keys@.len() ==> lookup(
                        rows,
                        PathKey {
                            group_id,
                            path_id: PathId { high: (#[trigger] keys@[i]).high, low: keys@[i].low },
                        },
                    ) is Some,
            decreases rows.len() - index,
        {
            proof {
                assert(rows.take(index + 1).drop_last() =~= rows.take(index as int));
                assert(rows.take(index + 1).last() == rows[index as int]);
            }
            let key: PathKey = self.pending.key(index);
            if key.group_id == group_id {
                proof {
                    crate::table::lemma_lookup(rows, key);
                }
                keys.push(SortKey { time: 0, high: key.path_id.high, low: key.path_id.low });
            }
            index += 1;
        }
        assert(rows.take(index as int) =~= rows);
        let page: Vec<SortKey> = sort_keys(&keys);
        let mut list: Vec<PendingMaterialization> = Vec::new();
        let mut place: usize = 0;
        proof {
            lemma_sorted(keys@);
            assert(page@.take(0) =~= seq![]);
            assert(pending_views(list@) =~= seq![]);
        }
        while place < page.len()
            invariant
                place <= page@.len(),
                rows == self@.pending,
                page@ == sorted(keys@),
                keys@ == pending_keys(self@.pending, group_id),
                forall|i: int| 0 <= i < page@.len() ==> keys@.contains(#[trigger] page@[i]),
                forall|i: int|
                    0 <= i < keys@.len() ==> lookup(
                        rows,
                        PathKey {
                            group_id,
                            path_id: PathId { high: (#[trigger] keys@[i]).high, low: keys@[i].low },
                        },
                    ) is Some,
                pending_list(self@, group_id, page@.take(place as int)) == Ok::<
                    Seq<PendingView>,
                    StoreError,
                >(pending_views(list@)),
            decreases page@.len() - place,
        {
            let path_id: PathId = PathId { high: page[place].high, low: page[place].low };
            let ghost before = pending_views(list@);
            proof {
                assert(keys@.contains(page@[place as int]));
                let k = choose|k: int| 0 <= k < keys@.len() && keys@[k] == page@[place as int];
                assert(keys@[k].high == path_id.high);
                assert(page@.take(place + 1).drop_last() =~= page@.take(place as int));
                assert(page@.take(place + 1).last() == page@[place as int]);
                if pending_list(self@, group_id, page@.take(place + 1)) is Err {
                    lemma_pending_prefix(self@, group_id, page@, place + 1);
                }
            }
            if let Some(pending) = self.pending_materialization(group_id, path_id)? {
                let ghost view = pending@;
                list.push(pending);
                assert(pending_views(list@) =~= before.push(view));
            }
            place += 1;
        }
        assert(page@.take(place as int) =~= page@);
        Ok(list)
    }

    fn check_materialization(
        &self,
        group_id: GroupId,
        path_id: PathId,
        row: &PendingRow,
    ) -> (result: Result<MaterializationAdmission, StoreError>)
        ensures
            result == materialization_verdict(self@, group_id, path_id, row@),
    {
        let actual: Option<ContentId> = self.head_content_id(group_id, path_id);
        let expected: Option<ContentId> = row.expected_previous_content_id;
        if let Some(existing) = self.pending_materialization(group_id, path_id)? {
            if existing.target_content_id == row.target_content_id && same_content(
                existing.expected_previous_content_id,
                expected,
            ) && existing.kind == row.kind && same_name(&existing.stage_name, &row.stage_name) {
                if !same_content(actual, expected) && !same_content(
                    actual,
                    Some(row.target_content_id),
                ) {
                    return Err(StoreError::StaleLocalHead { path_id, expected, actual });
                }
                return Ok(MaterializationAdmission::AlreadyPending);
            }
            return Err(StoreError::MaterializationInProgress { path_id });
        }
        if !same_content(actual, expected) {
            return Err(StoreError::StaleLocalHead { path_id, expected, actual });
        }
        Ok(MaterializationAdmission::Queued)
    }

    fn head_content_id(&self, group_id: GroupId, path_id: PathId) -> (content: Option<ContentId>)
        ensures
            content == head_content(self@, group_id, path_id),
    {
        match self.heads.get(PathKey { group_id, path_id }) {
            Some(row) => Some(row.content_id),
            None => None,
        }
    }

    /// Notes that an object is being brought to a path.
    pub fn begin_materialization(
        &mut self,
        group_id: GroupId,
        path_id: PathId,
        target_content_id: ContentId,
        expected_previous_content_id: Option<ContentId>,
        kind: ChangeRecordKind,
        stage_name: Option<&str>,
    ) -> (result: Result<MaterializationAdmission, StoreError>)
        ensures
            ({
                let row = PendingRowView {
                    target_content_id,
                    expected_previous_content_id,
                    kind,
                    stage_name: str_of(stage_name),
                };
                &&& result == begin_verdict(old(self)@, group_id, path_id, row)
                &&& final(self)@ == if result == Ok::<MaterializationAdmission, StoreError>(
                    MaterializationAdmission::Queued,
                ) {
                    with_pending(old(self)@, group_id, path_id, row)
                } else {
                    old(self)@
                }
            }),
    {
        validate_materialization_stage(kind, stage_name)?;
        self.require_object_kind(group_id, target_content_id, ObjectKind::Manifest)?;
        let row: PendingRow = PendingRow {
            target_content_id,
            expected_previous_content_id,
            kind,
            stage_name: name_of(stage_name),
        };
        let admission: MaterializationAdmission = self.check_materialization(
            group_id,
            path_id,
            &row,
        )?;
        if admission == MaterializationAdmission::Queued {
            self.pending.put(PathKey { group_id, path_id }, row);
        }
        Ok(admission)
    }

    /// Notes that a signed change is being brought to a path, and its signature.
    pub fn begin_signed_materialization(
        &mut self,
        group_id: GroupId,
        path_id: PathId,
        revision_id: RevisionId,
        target_content_id: ContentId,
        expected_previous_content_id: Option<ContentId>,
        kind: ChangeRecordKind,
        stage_name: Option<&str>,
        authorization: ChangeAuthorization,
    ) -> (result: Result<MaterializationAdmission, StoreError>)
        ensures
            ({
                let row = PendingRowView {
                    target_content_id,
                    expected_previous_content_id,
                    kind,
                    stage_name: str_of(stage_name),
                };
                let authenticated = with_authentication(
                    old(self)@,
                    group_id,
                    revision_id,
                    target_content_id,
                    authorization@,
                );
                &&& result == begin_signed_verdict(
                    old(self)@,
                    group_id,
                    path_id,
                    revision_id,
                    row,
                    authorization@,
                )
                &&& final(self)@ == match result {
                    Ok(MaterializationAdmission::Queued) => with_pending(
                        authenticated,
                        group_id,
                        path_id,
                        row,
                    ),
                    Ok(MaterializationAdmission::AlreadyPending) => authenticated,
                    Err(_) => old(self)@,
                }
            }),
    {
        validate_materialization_stage(kind, stage_name)?;
        self.check_authentication(group_id, revision_id, target_content_id, authorization)?;
        let row: PendingRow = PendingRow {
            target_content_id,
            expected_previous_content_id,
            kind,
            stage_name: name_of(stage_name),
        };
        let admission: MaterializationAdmission = self.check_materialization(
            group_id,
            path_id,
            &row,
        )?;
        self.admit_change_authentication(group_id, revision_id, target_content_id, authorization)?;
        if admission == MaterializationAdmission::Queued {
            self.pending.put(PathKey { group_id, path_id }, row);
        }
        Ok(admission)
    }

    /// Forgets what was being brought to a path once it is the head there.
    pub fn complete_materialization(
        &mut self,
        group_id: GroupId,
        path_id: PathId,
        target_content_id: ContentId,
    ) -> (completed: bool)
        ensures
            completed == is_materialized(old(self)@, group_id, path_id, target_content_id),
            final(self)@ == if completed {
                StoreView {
                    pending: removed(old(self)@.pending, PathKey { group_id, path_id }),
                    ..old(self)@
                }
            } else {
                old(self)@
            },
    {
        let key: PathKey = PathKey { group_id, path_id };
        let targeted: bool = match self.pending.get(key) {
            Some(row) => row.target_content_id == target_content_id,
            None => false,
        };
        if !targeted || !same_content(
            self.head_content_id(group_id, path_id),
            Some(target_content_id),
        ) {
            return false;
        }
        self.pending.remove(key);
        true
    }

    fn find_change(&self, group_id: GroupId, revision_id: RevisionId) -> (found: Option<ChangeRow>)
        ensures
            found == change_of(self@.changes, group_id, revision_id),
    {
        let ghost rows = self@.changes;
        let mut index: usize = 0;
        assert(rows.take(0) =~= seq![]);
        while index < self.changes.len()
            invariant
                index <= rows.len(),
                rows == self@.changes,
                change_of(rows.take(index as int), group_id, revision_id) is None,
            decreases rows.len() - index,
        {
            proof {
                assert(rows.take(index + 1).drop_last() =~= rows.take(index as int));
                assert(rows.take(index + 1).last() == rows[index as int]);
            }
            let row: ChangeRow = self.changes[index];
            if row.group_id == group_id && row.revision_id == revision_id {
                proof {
                    lemma_change_prefix(rows, index + 1, group_id, revision_id);
                }
                return Some(row);
            }
            index += 1;
        }
        assert(rows.take(index as int) =~= rows);
        None
    }

    fn check_graph(
        &self,
        group_id: GroupId,
        content_id: ContentId,
        chunks: &Vec<ContentId>,
    ) -> (result: Result<(), StoreError>)
        ensures
            match result {
                Ok(_) => graph_problem(self@, group_id, content_id, chunks@) is None,
                Err(error) => graph_problem(self@, group_id, content_id, chunks@) == Some(error),
            },
    {
        self.require_object_kind(group_id, content_id, ObjectKind::Manifest)?;
        let mut index: usize = 0;
        assert(chunks@.take(0) =~= seq![]);
        while index < chunks.len()
            invariant
                index <= chunks@.len(),
                kind_problem(self@, group_id, content_id, ObjectKind::Manifest) is None,
                chunk_problem(self@, group_id, chunks@.take(index as int)) is None,
            decreases chunks@.len() - index,
        {
            proof {
                assert(chunks@.take(index + 1).drop_last() =~= chunks@.take(index as int));
                assert(chunks@.take(index + 1).last() == chunks@[index as int]);
                if chunk_problem(self@, group_id, chunks@.take(index + 1)) is Some {
                    lemma_chunk_prefix(self@, group_id, chunks@, index + 1);
                }
            }
            self.require_object_kind(group_id, chunks[index], ObjectKind::Chunk)?;
            index += 1;
        }
        assert(chunks@.take(index as int) =~= chunks@);
        Ok(())
    }

    fn check_commit(
        &self,
        group_id: GroupId,
        revision_id: RevisionId,
        content_id: ContentId,
        chunks: &Vec<ContentId>,
    ) -> (result: Result<ChangeCommit, StoreError>)
        ensures
            result == commit_verdict(self@, group_id, revision_id, content_id, chunks@),
    {
        if let Some(row) = self.find_change(group_id, revision_id) {
            if row.content_id != content_id {
                return Err(StoreError::RevisionContentMismatch { revision_id });
            }
            return Ok(ChangeCommit { sequence: row.sequence, inserted: false });
        }
        self.check_graph(group_id, content_id, chunks)?;
        let last: u64 = if self.changes.len() == 0 {
            0
        } else {
            self.changes[self.changes.len() - 1].sequence
        };
        if last >= 0x7fff_ffff_ffff_ffff {
            return Err(StoreError::CatalogFull);
        }
        Ok(ChangeCommit { sequence: last + 1, inserted: true })
    }

    fn add_references(&mut self, group_id: GroupId, owner: ContentId, chunks: &Vec<ContentId>)
        ensures
            final(self)@ == (StoreView {
                references: with_references(old(self)@.references, group_id, owner, chunks@),
                ..old(self)@
            }),
    {
        let ghost start = self@;
        let mut index: usize = 0;
        assert(chunks@.take(0) =~= seq![]);
        while index < chunks.len()
            invariant
                index <= chunks@.len(),
                self@ == (StoreView {
                    references: with_references(
                        start.references,
                        group_id,
                        owner,
                        chunks@.take(index as int),
                    ),
                    ..start
                }),
            decreases chunks@.len() - index,
        {
            proof {
                assert(chunks@.take(index + 1).drop_last() =~= chunks@.take(index as int));
                assert(chunks@.take(index + 1).last() == chunks@[index as int]);
            }
            self.references.put(
                ReferenceKey {
                    group_id,
                    owner_content_id: owner,
                    referenced_content_id: chunks[index],
                },
                (),
            );
            index += 1;
        }
        assert(chunks@.take(index as int) =~= chunks@);
    }

    fn apply_change(
        &mut self,
        group_id: GroupId,
        revision_id: RevisionId,
        content_id: ContentId,
        chunks: &Vec<ContentId>,
        commit: ChangeCommit,
    )
        ensures
            final(self)@ == with_change(
                old(self)@,
                group_id,
                revision_id,
                content_id,
                chunks@,
                commit,
            ),
    {
        if commit.inserted {
            self.changes.push(
                ChangeRow { sequence: commit.sequence, group_id, revision_id, content_id },
            );
            self.add_references(group_id, content_id, chunks);
        }
    }

    fn check_head(
        &self,
        group_id: GroupId,
        path_id: PathId,
        expected_previous: Option<ContentId>,
        kind: ChangeRecordKind,
        content_id: ContentId,
    ) -> (result: Result<bool, StoreError>)
        ensures
            result == head_verdict(
                self@,
                group_id,
                path_id,
                expected_previous,
                kind,
                content_id,
            ),
    {
        if let Some(pending) = self.pending_materialization(group_id, path_id)? {
            if pending.target_content_id != content_id {
                return Err(StoreError::MaterializationInProgress { path_id });
            }
        }
        let actual: Option<LocalHead> = self.local_head(group_id, path_id);
        if let Some(head) = actual {
            if head.content_id == content_id {
                if head.kind != kind {
                    return Err(
                        StoreError::LocalHeadKindMismatch {
                            path_id,
                            expected: kind,
                            actual: head.kind,
                        },
                    );
                }
                return Ok(true);
            }
        }
        let actual_content_id: Option<ContentId> = match actual {
            Some(head) => Some(head.content_id),
            None => None,
        };
        if !same_content(actual_content_id, expected_previous) {
            return Err(
                StoreError::StaleLocalHead {
                    path_id,
                    expected: expected_previous,
                    actual: actual_content_id,
                },
            );
        }
        Ok(false)
    }

    /// Enters a change into the log. Its manifest is admitted first, given what the file in its
    /// place holds.
    pub fn commit_change(
        &mut self,
        keys: &GroupKeys,
        revision_id: RevisionId,
        content_id: ContentId,
        encrypted_record: &[u8],
        referenced_chunks: &Vec<ContentId>,
        existing: Option<&[u8]>,
        now: i64,
    ) -> (result: Result<ChangeCommit, StoreError>)
        ensures
            ({
                let admitted = with_object(
                    old(self)@,
                    keys@,
                    ObjectKind::Manifest,
                    content_id,
                    encrypted_record@,
                    file_bytes(existing),
                    now,
                );
                match admission_verdict(
                    keys@,
                    ObjectKind::Manifest,
                    content_id,
                    encrypted_record@,
                    file_bytes(existing),
                ) {
                    Err(error) => final(self)@ == old(self)@ && result == Err::<
                        ChangeCommit,
                        StoreError,
                    >(error),
                    Ok(_) => (final(self)@, result) == change_committed(
                        admitted,
                        keys@.group_id,
                        revision_id,
                        content_id,
                        ordered_ids(referenced_chunks@),
                    ),
                }
            }),
    {
        self.admit_object(
            keys,
            ObjectKind::Manifest,
            content_id,
            encrypted_record,
            existing,
            now,
        )?;
        let group_id: GroupId = keys.group_id();
        let chunks: Vec<ContentId> = order_ids(referenced_chunks);
        let commit: ChangeCommit = self.check_commit(group_id, revision_id, content_id, &chunks)?;
        self.apply_change(group_id, revision_id, content_id, &chunks, commit);
        Ok(commit)
    }

    /// Enters a signed change into the log, together with its signature. Its manifest is admitted
    /// first, given what the file in its place holds.
    pub fn commit_signed_change(
        &mut self,
        keys: &GroupKeys,
        revision_id: RevisionId,
        content_id: ContentId,
        authorization: ChangeAuthorization,
        encrypted_record: &[u8],
        referenced_chunks: &Vec<ContentId>,
        existing: Option<&[u8]>,
        now: i64,
    ) -> (result: Result<ChangeCommit, StoreError>)
        ensures
            ({
                let admitted = with_object(
                    old(self)@,
                    keys@,
                    ObjectKind::Manifest,
                    content_id,
                    encrypted_record@,
                    file_bytes(existing),
                    now,
                );
                match admission_verdict(
                    keys@,
                    ObjectKind::Manifest,
                    content_id,
                    encrypted_record@,
                    file_bytes(existing),
                ) {
                    Err(error) => final(self)@ == old(self)@ && result == Err::<
                        ChangeCommit,
                        StoreError,
                    >(error),
                    Ok(_) => (final(self)@, result) == signed_change_committed(
                        admitted,
                        keys@.group_id,
                        revision_id,
                        content_id,
                        authorization@,
                        ordered_ids(referenced_chunks@),
                    ),
                }
            }),
    {
        self.admit_object(
            keys,
            ObjectKind::Manifest,
            content_id,
            encrypted_record,
            existing,
            now,
        )?;
        let group_id: GroupId = keys.group_id();
        let chunks: Vec<ContentId> = order_ids(referenced_chunks);
        self.check_authentication(group_id, revision_id, content_id, authorization)?;
        let commit: ChangeCommit = self.check_commit(group_id, revision_id, content_id, &chunks)?;
        self.admit_change_authentication(group_id, revision_id, content_id, authorization)?;
        self.apply_change(group_id, revision_id, content_id, &chunks, commit);
        Ok(commit)
    }

    /// Enters a change into the log and makes it the head of a path, where the head is the
    /// expected one. Its manifest is admitted first, given what the file in its place holds.
    pub fn commit_local_change(
        &mut self,
        keys: &GroupKeys,
        path_id: PathId,
        expected_previous: Option<ContentId>,
        revision_id: RevisionId,
        kind: ChangeRecordKind,
        content_id: ContentId,
        encrypted_record: &[u8],
        referenced_chunks: &Vec<ContentId>,
        existing: Option<&[u8]>,
        now: i64,
    ) -> (result: Result<ChangeCommit, StoreError>)
        ensures
            ({
                let admitted = with_object(
                    old(self)@,
                    keys@,
                    ObjectKind::Manifest,
                    content_id,
                    encrypted_record@,
                    file_bytes(existing),
                    now,
                );
                match admission_verdict(
                    keys@,
                    ObjectKind::Manifest,
                    content_id,
                    encrypted_record@,
                    file_bytes(existing),
                ) {
                    Err(error) => final(self)@ == old(self)@ && result == Err::<
                        ChangeCommit,
                        StoreError,
                    >(error),
                    Ok(_) => (final(self)@, result) == local_change_committed(
                        admitted,
                        keys@.group_id,
                        path_id,
                        expected_previous,
                        revision_id,
                        kind,
                        content_id,
                        ordered_ids(referenced_chunks@),
                    ),
                }
            }),
    {
        self.admit_object(
            keys,
            ObjectKind::Manifest,
            content_id,
            encrypted_record,
            existing,
            now,
        )?;
        let group_id: GroupId = keys.group_id();
        let chunks: Vec<ContentId> = order_ids(referenced_chunks);
        let already: bool = self.check_head(
            group_id,
            path_id,
            expected_previous,
            kind,
            content_id,
        )?;
        let commit: ChangeCommit = self.check_commit(group_id, revision_id, content_id, &chunks)?;
        self.apply_change(group_id, revision_id, content_id, &chunks, commit);
        if !already {
            self.heads.put(PathKey { group_id, path_id }, HeadRow { content_id, kind });
        }
        Ok(commit)
    }

    /// Makes content the head of a path, where the head is the expected one, without entering it
    /// into the log. Its manifest is admitted first, given what the file in its place holds.
    pub fn commit_local_only_head(
        &mut self,
        keys: &GroupKeys,
        path_id: PathId,
        expected_previous: Option<ContentId>,
        kind: ChangeRecordKind,
        content_id: ContentId,
        encrypted_record: &[u8],
        referenced_chunks: &Vec<ContentId>,
        existing: Option<&[u8]>,
        now: i64,
    ) -> (result: Result<(), StoreError>)
        ensures
            ({
                let admitted = with_object(
                    old(self)@,
                    keys@,
                    ObjectKind::Manifest,
                    content_id,
                    encrypted_record@,
                    file_bytes(existing),
                    now,
                );
                match admission_verdict(
                    keys@,
                    ObjectKind::Manifest,
                    content_id,
                    encrypted_record@,
                    file_bytes(existing),
                ) {
                    Err(error) => final(self)@ == old(self)@ && result == Err::<(), StoreError>(
                        error,
                    ),
                    Ok(_) => (final(self)@, result) == local_head_committed(
                        admitted,
                        keys@.group_id,
                        path_id,
                        expected_previous,
                        kind,
                        content_id,
                        ordered_ids(referenced_chunks@),
                    ),
                }
            }),
    {
        self.admit_object(
            keys,
            ObjectKind::Manifest,
            content_id,
            encrypted_record,
            existing,
            now,
        )?;
        let group_id: GroupId = keys.group_id();
        let chunks: Vec<ContentId> = order_ids(referenced_chunks);
        if self.check_head(group_id, path_id, expected_previous, kind, content_id)? {
            return Ok(());
        }
        self.check_graph(group_id, content_id, &chunks)?;
        self.add_references(group_id, content_id, &chunks);
        self.heads.put(PathKey { group_id, path_id }, HeadRow { content_id, kind });
        Ok(())
    }

    /// Enters a signed change into the log, together with its signature, and makes it the head of
    /// a path, where the head is the expected one. Its manifest is admitted first, given what the
    /// file in its place holds.
    pub fn commit_signed_local_change(
        &mut self,
        keys: &GroupKeys,
        path_id: PathId,
        expected_previous: Option<ContentId>,
        revision_id: RevisionId,
        kind: ChangeRecordKind,
        content_id: ContentId,
        authorization: ChangeAuthorization,
        encrypted_record: &[u8],
        referenced_chunks: &Vec<ContentId>,
        existing: Option<&[u8]>,
        now: i64,
    ) -> (result: Result<ChangeCommit, StoreError>)
        ensures
            ({
                let admitted = with_object(
                    old(self)@,
                    keys@,
                    ObjectKind::Manifest,
                    content_id,
                    encrypted_record@,
                    file_bytes(existing),
                    now,
                );
                match admission_verdict(
                    keys@,
                    ObjectKind::Manifest,
                    content_id,
                    encrypted_record@,
                    file_bytes(existing),
                ) {
                    Err(error) => final(self)@ == old(self)@ && result == Err::<
                        ChangeCommit,
                        StoreError,
                    >(error),
                    Ok(_) => (final(self)@, result) == signed_local_change_committed(
                        admitted,
                        keys@.group_id,
                        path_id,
                        expected_previous,
                        revision_id,
                        kind,
                        content_id,
                        authorization@,
                        ordered_ids(referenced_chunks@),
                    ),
                }
            }),
    {
        self.admit_object(
            keys,
            ObjectKind::Manifest,
            content_id,
            encrypted_record,
            existing,
            now,
        )?;
        let group_id: GroupId = keys.group_id();
        let chunks: Vec<ContentId> = order_ids(referenced_chunks);
        let ghost admitted = self@;
        self.check_authentication(group_id, revision_id, content_id, authorization)?;
        let ghost authenticated = with_authentication(
            admitted,
            group_id,
            revision_id,
            content_id,
            authorization@,
        );
        proof {
            lemma_chunk_problem_frame(admitted, authenticated, group_id, chunks@);
            assert(pending_at(admitted, group_id, path_id) == pending_at(
                authenticated,
                group_id,
                path_id,
            ));
        }
        let already: bool = self.check_head(
            group_id,
            path_id,
            expected_previous,
            kind,
            content_id,
        )?;
        let commit: ChangeCommit = self.check_commit(group_id, revision_id, content_id, &chunks)?;
        self.admit_change_authentication(group_id, revision_id, content_id, authorization)?;
        self.apply_change(group_id, revision_id, content_id, &chunks, commit);
        if !already {
            self.heads.put(PathKey { group_id, path_id }, HeadRow { content_id, kind });
        }
        Ok(commit)
    }

    /// The entries of the change log of a group after a given one, at most as many as asked for.
    pub fn changes_after(&self, group_id: GroupId, after_sequence: u64, maximum: usize) -> (result:
        Result<ChangePage, StoreError>)
        ensures
            agrees(result, change_page(self@, group_id, after_sequence, maximum as nat)),
    {
        sequence_to_i64(after_sequence)?;
        let ghost rows = self@.changes;
        let mut records: Vec<StoredChange> = Vec::new();
        let mut watermark: u64 = 0;
        let mut index: usize = 0;
        assert(rows.take(0) =~= seq![]);
        while index < self.changes.len()
            invariant
                index <= rows.len(),
                rows == self@.changes,
                watermark == high_watermark(rows.take(index as int), group_id),
                records@ == at_most(
                    changes_of(rows.take(index as int), group_id, after_sequence),
                    maximum as nat,
                ),
            decreases rows.len() - index,
        {
            let ghost before = changes_of(rows.take(index as int), group_id, after_sequence);
            proof {
                assert(rows.take(index + 1).drop_last() =~= rows.take(index as int));
                assert(rows.take(index + 1).last() == rows[index as int]);
            }
            let row: ChangeRow = self.changes[index];
            if row.group_id == group_id {
                if row.sequence > watermark {
                    watermark = row.sequence;
                }
                if row.sequence > after_sequence {
                    let change: StoredChange = StoredChange {
                        sequence: row.sequence,
                        revision_id: row.revision_id,
                        content_id: row.content_id,
                    };
                    if records.len() < maximum {
                        records.push(change);
                        assert(records@ =~= at_most(before.push(change), maximum as nat));
                    } else {
                        assert(records@ =~= at_most(before.push(change), maximum as nat));
                    }
                }
            }
            index += 1;
        }
        assert(rows.take(index as int) =~= rows);
        Ok(ChangePage { records, high_watermark: watermark })
    }

    /// How far the change log of a peer has been read.
    pub fn peer_high_watermark(&self, group_id: GroupId, peer_device_id: DeviceId) -> (sequence: u64)
        ensures
            sequence == watermark_at(self@, group_id, peer_device_id),
    {
        match self.watermarks.get(DeviceKey { group_id, device_id: peer_device_id }) {
            Some(sequence) => *sequence,
            None => 0,
        }
    }

    /// Records how far the change log of a peer has been read. It never goes back.
    pub fn record_peer_high_watermark(
        &mut self,
        group_id: GroupId,
        peer_device_id: DeviceId,
        sequence: u64,
    ) -> (result: Result<u64, StoreError>)
        ensures
            match sequence_problem(sequence) {
                Some(error) => result == Err::<u64, StoreError>(error) && final(self)@
                    == old(self)@,
                None => {
                    let known = watermark_at(old(self)@, group_id, peer_device_id);
                    let recorded = if known > sequence {
                        known
                    } else {
                        sequence
                    };
                    &&& result == Ok::<u64, StoreError>(recorded)
                    &&& final(self)@ == (StoreView {
                        watermarks: put(
                            old(self)@.watermarks,
                            DeviceKey { group_id, device_id: peer_device_id },
                            recorded,
                        ),
                        ..old(self)@
                    })
                },
            },
    {
        sequence_to_i64(sequence)?;
        let known: u64 = self.peer_high_watermark(group_id, peer_device_id);
        let recorded: u64 = if known > sequence {
            known
        } else {
            sequence
        };
        self.watermarks.put(DeviceKey { group_id, device_id: peer_device_id }, recorded);
        Ok(recorded)
    }

    fn count_pins(&self, key: ObjectKey) -> (count: u128)
        ensures
            count == reference_count(self@, key),
    {
        let ghost view = self@;
        let mut count: u128 = 0;
        let mut index: usize = 0;
        assert(view.changes.take(0) =~= seq![]);
        while index < self.changes.len()
            invariant
                index <= view.changes.len(),
                view == self@,
                count <= index,
                count == change_pins(view.changes.take(index as int), key),
            decreases view.changes.len() - index,
        {
            proof {
                let rows = view.changes;
                assert(rows.take(index + 1).drop_last() =~= rows.take(index as int));
                assert(rows.take(index + 1).last() == rows[index as int]);
            }
            if self.changes[index].group_id == key.group_id && self.changes[index].content_id
                == key.content_id {
                count += 1;
            }
            index += 1;
        }
        assert(view.changes.take(index as int) =~= view.changes);
        let ghost first = count;
        index = 0;
        assert(view.references.take(0) =~= seq![]);
        while index < self.references.len()
            invariant
                index <= view.references.len(),
                view == self@,
                first <= usize::MAX,
                count <= first + index,
                count == first + reference_pins(view.references.take(index as int), key),
            decreases view.references.len() - index,
        {
            proof {
                let rows = view.references;
                assert(rows.take(index + 1).drop_last() =~= rows.take(index as int));
                assert(rows.take(index + 1).last() == rows[index as int]);
            }
            let reference: ReferenceKey = self.references.key(index);
            if reference.group_id == key.group_id && reference.referenced_content_id
                == key.content_id {
                count += 1;
            }
            index += 1;
        }
        assert(view.references.take(index as int) =~= view.references);
        let ghost second = count;
        index = 0;
        assert(view.heads.take(0) =~= seq![]);
        while index < self.heads.len()
            invariant
                index <= view.heads.len(),
                view == self@,
                second <= 2 * usize::MAX,
                count <= second + index,
                count == second + head_pins(view.heads.take(index as int), key),
            decreases view.heads.len() - index,
        {
            proof {
                let rows = view.heads;
                assert(rows.take(index + 1).drop_last() =~= rows.take(index as int));
                assert(rows.take(index + 1).last() == rows[index as int]);
            }
            if self.heads.key(index).group_id == key.group_id && self.heads.value(index).content_id
                == key.content_id {
                count += 1;
            }
            index += 1;
        }
        assert(view.heads.take(index as int) =~= view.heads);
        let ghost third = count;
        index = 0;
        assert(view.pending.take(0) =~= seq![]);
        while index < self.pending.len()
            invariant
                index <= view.pending.len(),
                view == self@,
                third <= 3 * usize::MAX,
                count <= third + index,
                count == third + pending_pins(view.pending.take(index as int), key),
            decreases view.pending.len() - index,
        {
            proof {
                let rows = view.pending;
                assert(rows.take(index + 1).drop_last() =~= rows.take(index as int));
                assert(rows.take(index + 1).last() == rows[index as int]);
            }
            if self.pending.key(index).group_id == key.group_id && self.pending.value(
                index,
            ).target_content_id == key.content_id {
                count += 1;
            }
            index += 1;
        }
        assert(view.pending.take(index as int) =~= view.pending);
        let ghost fourth = count;
        index = 0;
        assert(view.authentications.take(0) =~= seq![]);
        while index < self.authentications.len()
            invariant
                index <= view.authentications.len(),
                view == self@,
                fourth <= 4 * usize::MAX,
                count <= fourth + index,
                count == fourth + authentication_pins(
                    view.authentications.take(index as int),
                    key,
                ),
            decreases view.authentications.len() - index,
        {
            proof {
                let rows = view.authentications;
                assert(rows.take(index + 1).drop_last() =~= rows.take(index as int));
                assert(rows.take(index + 1).last() == rows[index as int]);
            }
            if self.authentications.key(index).group_id == key.group_id
                && self.authentications.value(index).content_id == key.content_id {
                count += 1;
            }
            index += 1;
        }
        assert(view.authentications.take(index as int) =~= view.authentications);
        count
    }

    /// How often an object is pinned, where it is known.
    pub fn object_reference_count(&self, group_id: GroupId, content_id: ContentId) -> (count: Option<
        u128,
    >)
        ensures
            match lookup(self@.objects, ObjectKey { group_id, content_id }) {
                Some(_) => count is Some && count->0 == reference_count(
                    self@,
                    ObjectKey { group_id, content_id },
                ),
                None => count is None,
            },
    {
        let key: ObjectKey = ObjectKey { group_id, content_id };
        if self.objects.has(key) {
            Some(self.count_pins(key))
        } else {
            None
        }
    }

    fn find_garbage(&self, group_id: GroupId, verified_before: i64) -> (keys: Vec<SortKey>)
        ensures
            keys@ == garbage_keys(self@, self@.objects, group_id, verified_before),
    {
        let ghost rows = self@.objects;
        let mut keys: Vec<SortKey> = Vec::new();
        let mut index: usize = 0;
        assert(rows.take(0) =~= seq![]);
        while index < self.objects.len()
            invariant
                index <= rows.len(),
                rows == self@.objects,
                keys@ == garbage_keys(
                    self@,
                    rows.take(index as int),
                    group_id,
                    verified_before,
                ),
            decreases rows.len() - index,
        {
            proof {
                assert(rows.take(index + 1).drop_last() =~= rows.take(index as int));
                assert(rows.take(index + 1).last() == rows[index as int]);
            }
            let key: ObjectKey = self.objects.key(index);
            let row: ObjectRow = *self.objects.value(index);
            if key.group_id == group_id && row.verified_at_unix_ms <= verified_before
                && self.count_pins(key) == 0 {
                keys.push(
                    SortKey {
                        time: row.verified_at_unix_ms,
                        high: key.content_id.high,
                        low: key.content_id.low,
                    },
                );
            }
            index += 1;
        }
        assert(rows.take(index as int) =~= rows);
        keys
    }

    /// Removes the oldest objects of a group that nothing pins, at most as many as asked for, and
    /// tells which they are.
    pub fn collect_garbage(
        &mut self,
        group_id: GroupId,
        verified_before_unix_ms: i64,
        maximum: usize,
    ) -> (outcome: (GarbageCollectionReport, Vec<ContentId>))
        ensures
            ({
                let garbage = garbage_of(
                    old(self)@,
                    group_id,
                    verified_before_unix_ms,
                    maximum as nat,
                );
                &&& outcome.1@ == garbage
                &&& outcome.0.removed_objects == garbage.len()
                &&& outcome.0.removed_encrypted_bytes == total_size(old(self)@, group_id, garbage)
                &&& final(self)@ == without_objects(old(self)@, group_id, garbage)
            }),
    {
        let keys: Vec<SortKey> = sort_keys(&self.find_garbage(group_id, verified_before_unix_ms));
        let garbage: Vec<ContentId> = ids_of_keys(&keys, maximum);
        let mut total: u64 = 0;
        let mut index: usize = 0;
        assert(garbage@.take(0) =~= seq![]);
        while index < garbage.len()
            invariant
                index <= garbage@.len(),
                total == total_size(self@, group_id, garbage@.take(index as int)),
            decreases garbage@.len() - index,
        {
            proof {
                assert(garbage@.take(index + 1).drop_last() =~= garbage@.take(index as int));
                assert(garbage@.take(index + 1).last() == garbage@[index as int]);
            }
            let size: u64 = match self.objects.get(
                ObjectKey { group_id, content_id: garbage[index] },
            ) {
                Some(row) => row.encrypted_size,
                None => 0,
            };
            total = match total.checked_add(size) {
                Some(sum) => sum,
                None => u64::MAX,
            };
            index += 1;
        }
        assert(garbage@.take(index as int) =~= garbage@);
        let keep_object = |key: ObjectKey| -> (answer: bool)
            ensures
                answer == !(key.group_id == group_id && garbage@.contains(key.content_id)),
        {
            !(key.group_id == group_id && crate::order::has_content_id(&garbage, key.content_id))
        };
        let keep_reference = |key: ReferenceKey| -> (answer: bool)
            ensures
                answer == !(key.group_id == group_id && garbage@.contains(key.owner_content_id)),
        {
            !(key.group_id == group_id && crate::order::has_content_id(
                &garbage,
                key.owner_content_id,
            ))
        };
        let ghost ids = garbage@;
        self.objects.retain(
            keep_object,
            Ghost(|key: ObjectKey| !(key.group_id == group_id && ids.contains(key.content_id))),
        );
        self.references.retain(
            keep_reference,
            Ghost(
                |key: ReferenceKey|
                    !(key.group_id == group_id && ids.contains(key.owner_content_id)),
            ),
        );
        (
            GarbageCollectionReport {
                removed_objects: garbage.len(),
                removed_encrypted_bytes: total,
            },
            garbage,
        )
    }
}

/// The contents of what is being brought to paths.
pub open spec fn pending_views(list: Seq<PendingMaterialization>) -> Seq<PendingView> {
    Seq::new(list.len(), |i: int| list[i]@)
}

proof fn lemma_pending_prefix(
    store: StoreView,
    group_id: GroupId,
    keys: Seq<SortKey>,
    count: int,
)
    requires
        0 <= count <= keys.len(),
        pending_list(store, group_id, keys.take(count)) is Err,
    ensures
        pending_list(store, group_id, keys) == pending_list(store, group_id, keys.take(count)),
    decreases keys.len(),
{
    if count < keys.len() {
        assert(keys.drop_last().take(count) =~= keys.take(count));
        lemma_pending_prefix(store, group_id, keys.drop_last(), count);
    } else {
        assert(keys.take(count) =~= keys);
    }
}

proof fn lemma_change_prefix(
    changes: Seq<ChangeRow>,
    count: int,
    group_id: GroupId,
    revision_id: RevisionId,
)
    requires
        0 <= count <= changes.len(),
        change_of(changes.take(count), group_id, revision_id) is Some,
    ensures
        change_of(changes, group_id, revision_id) == change_of(
            changes.take(count),
            group_id,
            revision_id,
        ),
    decreases changes.len(),
{
    if count < changes.len() {
        assert(changes.drop_last().take(count) =~= changes.take(count));
        lemma_change_prefix(changes.drop_last(), count, group_id, revision_id);
    } else {
        assert(changes.take(count) =~= changes);
    }
}

proof fn lemma_chunk_prefix(
    store: StoreView,
    group_id: GroupId,
    chunks: Seq<ContentId>,
    count: int,
)
    requires
        0 <= count <= chunks.len(),
        chunk_problem(store, group_id, chunks.take(count)) is Some,
    ensures
        chunk_problem(store, group_id, chunks) == chunk_problem(
            store,
            group_id,
            chunks.take(count),
        ),
    decreases chunks.len(),
{
    if count < chunks.len() {
        assert(chunks.drop_last().take(count) =~= chunks.take(count));
        lemma_chunk_prefix(store, group_id, chunks.drop_last(), count);
    } else {
        assert(chunks.take(count) =~= chunks);
    }
}

proof fn lemma_chunk_problem_frame(
    left: StoreView,
    right: StoreView,
    group_id: GroupId,
    chunks: Seq<ContentId>,
)
    requires
        left.objects == right.objects,
    ensures
        chunk_problem(left, group_id, chunks) == chunk_problem(right, group_id, chunks),
    decreases chunks.len(),
{
    if chunks.len() > 0 {
        lemma_chunk_problem_frame(left, right, group_id, chunks.drop_last());
    }
}

} // verus!
