//! When a change is committed, and what becomes of the paths of a folder by it.
use vstd::prelude::*;

use crate::catalog::{
    is_stage_name, ChangeRow, HeadRow, ObjectKey, PathKey, PeerObjectKey, PendingRowView,
    ReferenceKey, RequestRow, StoreError,
};
use crate::envelope::ObjectKind;
use crate::history::{
    begin_signed_verdict, begin_verdict, change_committed, change_of, chunk_problem,
    commit_verdict, head_at, head_keys, head_verdict, heads_of, is_materialized,
    local_head_committed, pending_at, signed_change_committed, signed_local_change_committed,
    with_references, without_objects, MaterializationAdmission,
};
use crate::identity::AuthorizationView;
use crate::ids::{ContentId, DeviceId, GroupId, PathId, RevisionId};
use crate::order::{lemma_sorted, not_after, sorted, SortKey};
use crate::record::ChangeRecordKind;
use crate::store::{
    authentication_verdict, kind_problem, pending_requests, request_keys, with_authentication,
    StoreView,
};
use crate::table::{
    distinct_keys, lemma_found, lemma_lookup, lemma_lookup_kept, lemma_lookup_put, lookup,
};

verus! {

/// What stands at a path, where something does.
pub open spec fn head_row(store: StoreView, group_id: GroupId, path_id: PathId) -> Option<HeadRow> {
    lookup(store.heads, PathKey { group_id, path_id })
}

/// What is still to be put at a path, where something is.
pub open spec fn pending_at_path(
    store: StoreView,
    group_id: GroupId,
    path_id: PathId,
) -> Option<PendingRowView> {
    lookup(store.pending, PathKey { group_id, path_id })
}

/// The contents of the head, none where there is no head.
pub open spec fn contents_at(
    store: StoreView,
    group_id: GroupId,
    path_id: PathId,
) -> Option<ContentId> {
    match head_row(store, group_id, path_id) {
        Some(row) => Some(row.content_id),
        None => None,
    }
}

/// A file that is to be put at a path has a stage, a deletion has none.
pub open spec fn is_staged(kind: ChangeRecordKind, stage_name: Option<Seq<char>>) -> bool {
    match kind {
        ChangeRecordKind::File => stage_name is Some && is_stage_name(stage_name->0),
        ChangeRecordKind::Tombstone => stage_name is None,
    }
}

/// The head of a path is read as it is recorded.
pub proof fn law_head_is_read_as_recorded(store: StoreView, group_id: GroupId, path_id: PathId)
    ensures
        match (head_row(store, group_id, path_id), head_at(store, group_id, path_id)) {
            (None, None) => true,
            (Some(row), Some(head)) => {
                &&& head.path_id == path_id
                &&& head.content_id == row.content_id
                &&& head.kind == row.kind
            },
            _ => false,
        },
{
}

proof fn lemma_head_keys(rows: Seq<(PathKey, HeadRow)>, group_id: GroupId, index: int)
    requires
        0 <= index < rows.len(),
        rows[index].0.group_id == group_id,
    ensures
        head_keys(rows, group_id).contains(
            SortKey {
                time: 0,
                high: rows[index].0.path_id.high,
                low: rows[index].0.path_id.low,
            },
        ),
    decreases rows.len(),
{
    let key = SortKey {
        time: 0,
        high: rows[index].0.path_id.high,
        low: rows[index].0.path_id.low,
    };
    let all = head_keys(rows, group_id);
    let front = rows.drop_last();
    if index == rows.len() - 1 {
        assert(all[all.len() - 1] == key);
    } else {
        let before = head_keys(front, group_id);
        assert(front[index] == rows[index]);
        lemma_head_keys(front, group_id, index);
        let m = choose|m: int| 0 <= m < before.len() && before[m] == key;
        assert(all[m] == key);
    }
}

proof fn lemma_head_row(rows: Seq<(PathKey, HeadRow)>, group_id: GroupId, index: int) -> (row: int)
    requires
        0 <= index < head_keys(rows, group_id).len(),
    ensures
        0 <= row < rows.len(),
        rows[row].0.group_id == group_id,
        head_keys(rows, group_id)[index] == (SortKey {
            time: 0,
            high: rows[row].0.path_id.high,
            low: rows[row].0.path_id.low,
        }),
    decreases rows.len(),
{
    let front = rows.drop_last();
    if index < head_keys(front, group_id).len() {
        let row = lemma_head_row(front, group_id, index);
        assert(rows[row] == front[row]);
        row
    } else {
        rows.len() - 1
    }
}

/// The heads of a group are listed all of them and no others, in the order of their paths.
pub proof fn law_every_head_is_listed(store: StoreView, group_id: GroupId)
    ensures
        forall|i: int|
            0 <= i < store.heads.len() && (#[trigger] store.heads[i]).0.group_id == group_id
                ==> heads_of(store, group_id).contains(
                head_at(store, group_id, store.heads[i].0.path_id)->0,
            ),
        forall|k: int|
            0 <= k < heads_of(store, group_id).len() ==> head_at(
                store,
                group_id,
                (#[trigger] heads_of(store, group_id)[k]).path_id,
            ) == Some(heads_of(store, group_id)[k]),
        forall|k: int, m: int|
            0 <= k < m < heads_of(store, group_id).len() ==> {
                let left = (#[trigger] heads_of(store, group_id)[k]).path_id;
                let right = (#[trigger] heads_of(store, group_id)[m]).path_id;
                left.high < right.high || (left.high == right.high && left.low <= right.low)
            },
{
    let keys = head_keys(store.heads, group_id);
    lemma_sorted(keys);
    let listed = sorted(keys);
    let heads = heads_of(store, group_id);
    assert forall|i: int|
        0 <= i < store.heads.len() && (#[trigger] store.heads[i]).0.group_id
            == group_id implies heads.contains(
        head_at(store, group_id, store.heads[i].0.path_id)->0,
    ) by {
        let path_id = store.heads[i].0.path_id;
        let key = SortKey { time: 0, high: path_id.high, low: path_id.low };
        lemma_head_keys(store.heads, group_id, i);
        assert(listed.contains(key));
        let k = choose|k: int| 0 <= k < listed.len() && listed[k] == key;
        assert(heads[k] == head_at(
            store,
            group_id,
            PathId { high: key.high, low: key.low },
        )->0);
    }
    assert forall|k: int| 0 <= k < heads.len() implies {
        &&& head_at(store, group_id, (#[trigger] heads[k]).path_id) == Some(heads[k])
        &&& heads[k].path_id == (PathId { high: listed[k].high, low: listed[k].low })
        &&& listed[k].time == 0
    } by {
        assert(keys.contains(listed[k]));
        let m = choose|m: int| 0 <= m < keys.len() && keys[m] == listed[k];
        let i = lemma_head_row(store.heads, group_id, m);
        let path_id = PathId { high: listed[k].high, low: listed[k].low };
        lemma_lookup(store.heads, PathKey { group_id, path_id });
        assert(store.heads[i].0 == PathKey { group_id, path_id });
    }
    assert forall|k: int, m: int| 0 <= k < m < heads.len() implies {
        let left = (#[trigger] heads[k]).path_id;
        let right = (#[trigger] heads[m]).path_id;
        left.high < right.high || (left.high == right.high && left.low <= right.low)
    } by {
        assert(not_after(listed[k], listed[m]));
        assert(heads[k].path_id == PathId { high: listed[k].high, low: listed[k].low });
        assert(heads[m].path_id == PathId { high: listed[m].high, low: listed[m].low });
    }
}

/// A change may be put at a path exactly where it has a stage if it is a file and none if it is
/// a deletion, its record is at hand, nothing else is to be put there, and what stands there is
/// what it is to take the place of. Where it was noted before, it may be there already.
pub proof fn law_one_change_is_put_at_a_path_at_a_time(
    store: StoreView,
    group_id: GroupId,
    path_id: PathId,
    row: PendingRowView,
)
    ensures
        ({
            let verdict = begin_verdict(store, group_id, path_id, row);
            let at_hand = kind_problem(
                store,
                group_id,
                row.target_content_id,
                ObjectKind::Manifest,
            ) is None;
            let found = pending_at_path(store, group_id, path_id);
            let actual = contents_at(store, group_id, path_id);
            &&& verdict == Ok::<MaterializationAdmission, StoreError>(
                MaterializationAdmission::Queued,
            ) <==> {
                &&& is_staged(row.kind, row.stage_name)
                &&& at_hand
                &&& found is None
                &&& actual == row.expected_previous_content_id
            }
            &&& verdict == Ok::<MaterializationAdmission, StoreError>(
                MaterializationAdmission::AlreadyPending,
            ) <==> {
                &&& is_staged(row.kind, row.stage_name)
                &&& at_hand
                &&& found == Some(row)
                &&& actual == row.expected_previous_content_id || actual == Some(
                    row.target_content_id,
                )
            }
        }),
{
}

/// A signed change may be put at a path exactly where it could be without its signature, but
/// that its signature counts, or is on record, in the place of its record being at hand.
pub proof fn law_signed_change_needs_its_signature(
    store: StoreView,
    group_id: GroupId,
    path_id: PathId,
    revision_id: RevisionId,
    row: PendingRowView,
    authorization: AuthorizationView,
)
    ensures
        ({
            let verdict = begin_signed_verdict(
                store,
                group_id,
                path_id,
                revision_id,
                row,
                authorization,
            );
            let signed = authentication_verdict(
                store,
                group_id,
                revision_id,
                row.target_content_id,
                authorization,
            ) is Ok;
            let found = pending_at_path(store, group_id, path_id);
            let actual = contents_at(store, group_id, path_id);
            &&& verdict == Ok::<MaterializationAdmission, StoreError>(
                MaterializationAdmission::Queued,
            ) <==> {
                &&& is_staged(row.kind, row.stage_name)
                &&& signed
                &&& found is None
                &&& actual == row.expected_previous_content_id
            }
            &&& verdict == Ok::<MaterializationAdmission, StoreError>(
                MaterializationAdmission::AlreadyPending,
            ) <==> {
                &&& is_staged(row.kind, row.stage_name)
                &&& signed
                &&& found == Some(row)
                &&& actual == row.expected_previous_content_id || actual == Some(
                    row.target_content_id,
                )
            }
        }),
{
}

/// A change has been put at its path exactly where it was to be put there and stands there.
pub proof fn law_change_is_done_when_it_stands_at_its_path(
    store: StoreView,
    group_id: GroupId,
    path_id: PathId,
    target_content_id: ContentId,
)
    ensures
        is_materialized(store, group_id, path_id, target_content_id) <==> {
            &&& pending_at_path(store, group_id, path_id) matches Some(row)
            &&& row.target_content_id == target_content_id
            &&& contents_at(store, group_id, path_id) == Some(target_content_id)
        },
{
}

proof fn lemma_change_of(
    changes: Seq<ChangeRow>,
    group_id: GroupId,
    revision_id: RevisionId,
)
    ensures
        match change_of(changes, group_id, revision_id) {
            Some(row) => {
                &&& changes.contains(row)
                &&& row.group_id == group_id
                &&& row.revision_id == revision_id
            },
            None => forall|i: int|
                0 <= i < changes.len() ==> (#[trigger] changes[i]).group_id != group_id
                    || changes[i].revision_id != revision_id,
        },
    decreases changes.len(),
{
    if changes.len() > 0 {
        let front = changes.drop_last();
        lemma_change_of(front, group_id, revision_id);
        assert(changes[changes.len() - 1] == changes.last());
        match change_of(front, group_id, revision_id) {
            Some(row) => {
                let k = choose|k: int| 0 <= k < front.len() && front[k] == row;
                assert(changes[k] == row);
            },
            None => {
                if change_of(changes, group_id, revision_id) is None {
                    assert forall|i: int| 0 <= i < changes.len() implies (
                    #[trigger] changes[i]).group_id != group_id || changes[i].revision_id
                        != revision_id by {
                        if i < front.len() {
                            assert(front[i] == changes[i]);
                        }
                    }
                }
            },
        }
    }
}

proof fn lemma_chunk_problem(store: StoreView, group_id: GroupId, chunks: Seq<ContentId>)
    ensures
        chunk_problem(store, group_id, chunks) is None <==> forall|i: int|
            0 <= i < chunks.len() ==> kind_problem(
                store,
                group_id,
                #[trigger] chunks[i],
                ObjectKind::Chunk,
            ) is None,
    decreases chunks.len(),
{
    if chunks.len() > 0 {
        let front = chunks.drop_last();
        lemma_chunk_problem(store, group_id, front);
        assert forall|i: int| 0 <= i < front.len() implies #[trigger] front[i] == chunks[i] by {}
        assert(chunks[chunks.len() - 1] == chunks.last());
        if chunk_problem(store, group_id, chunks) is None {
            assert forall|i: int| 0 <= i < chunks.len() implies kind_problem(
                store,
                group_id,
                #[trigger] chunks[i],
                ObjectKind::Chunk,
            ) is None by {
                if i < front.len() {
                    assert(front[i] == chunks[i]);
                }
            }
        } else if chunk_problem(store, group_id, front) is Some {
            if forall|i: int|
                0 <= i < chunks.len() ==> kind_problem(
                    store,
                    group_id,
                    #[trigger] chunks[i],
                    ObjectKind::Chunk,
                ) is None {
                assert forall|i: int| 0 <= i < front.len() implies kind_problem(
                    store,
                    group_id,
                    #[trigger] front[i],
                    ObjectKind::Chunk,
                ) is None by {
                    assert(chunks[i] == front[i]);
                }
            }
        }
    }
}

/// A revision that is not in the log is committed exactly where its record and all its chunks
/// are at hand and the log is not full: it gets the next number and stands at the end of the
/// log. One that is there is not committed again, and one with other contents is refused.
pub proof fn law_complete_changes_are_committed_at_the_end(
    store: StoreView,
    group_id: GroupId,
    revision_id: RevisionId,
    content_id: ContentId,
    chunks: Seq<ContentId>,
)
    ensures
        ({
            let (after, result) = change_committed(
                store,
                group_id,
                revision_id,
                content_id,
                chunks,
            );
            let logged = exists|i: int|
                0 <= i < store.changes.len() && (#[trigger] store.changes[i]).group_id == group_id
                    && store.changes[i].revision_id == revision_id;
            let next = if store.changes.len() == 0 {
                1int
            } else {
                store.changes[store.changes.len() - 1].sequence + 1
            };
            &&& !logged ==> {
                &&& result is Ok <==> {
                    &&& kind_problem(store, group_id, content_id, ObjectKind::Manifest) is None
                    &&& forall|i: int|
                        0 <= i < chunks.len() ==> kind_problem(
                            store,
                            group_id,
                            #[trigger] chunks[i],
                            ObjectKind::Chunk,
                        ) is None
                    &&& next <= i64::MAX
                }
                &&& result is Ok ==> {
                    &&& result->Ok_0.inserted
                    &&& result->Ok_0.sequence == next
                    &&& after.changes == store.changes.push(
                        ChangeRow {
                            sequence: next as u64,
                            group_id,
                            revision_id,
                            content_id,
                        },
                    )
                }
            }
            &&& logged ==> {
                &&& after == store
                &&& result is Ok ==> !result->Ok_0.inserted && exists|i: int|
                    {
                        &&& 0 <= i < store.changes.len()
                        &&& (#[trigger] store.changes[i]).group_id == group_id
                        &&& store.changes[i].revision_id == revision_id
                        &&& store.changes[i].content_id == content_id
                        &&& store.changes[i].sequence == result->Ok_0.sequence
                    }
                &&& result is Err ==> result->Err_0 == (StoreError::RevisionContentMismatch {
                    revision_id,
                })
            }
            &&& result is Err ==> after == store
            &&& after == StoreView {
                changes: after.changes,
                references: after.references,
                ..store
            }
        }),
{
    lemma_change_of(store.changes, group_id, revision_id);
    lemma_chunk_problem(store, group_id, chunks);
    match change_of(store.changes, group_id, revision_id) {
        Some(row) => {
            let k = choose|k: int| 0 <= k < store.changes.len() && store.changes[k] == row;
            assert(store.changes[k].group_id == group_id);
        },
        None => {},
    }
}

proof fn lemma_references(
    references: Seq<(ReferenceKey, ())>,
    group_id: GroupId,
    owner: ContentId,
    chunks: Seq<ContentId>,
    key: ReferenceKey,
)
    ensures
        lookup(with_references(references, group_id, owner, chunks), key) is Some <==> {
            ||| lookup(references, key) is Some
            ||| key.group_id == group_id && key.owner_content_id == owner && chunks.contains(
                key.referenced_content_id,
            )
        },
    decreases chunks.len(),
{
    if chunks.len() > 0 {
        let front = chunks.drop_last();
        lemma_references(references, group_id, owner, front, key);
        let added = ReferenceKey {
            group_id,
            owner_content_id: owner,
            referenced_content_id: chunks.last(),
        };
        lemma_lookup_put(with_references(references, group_id, owner, front), added, (), key);
        assert(chunks.contains(key.referenced_content_id) <==> front.contains(
            key.referenced_content_id,
        ) || key.referenced_content_id == chunks.last()) by {
            if front.contains(key.referenced_content_id) {
                let k = choose|k: int|
                    0 <= k < front.len() && front[k] == key.referenced_content_id;
                assert(chunks[k] == key.referenced_content_id);
            }
            if key.referenced_content_id == chunks.last() {
                assert(chunks[chunks.len() - 1] == key.referenced_content_id);
            }
            if chunks.contains(key.referenced_content_id) {
                let k = choose|k: int|
                    0 <= k < chunks.len() && chunks[k] == key.referenced_content_id;
                if k < front.len() {
                    assert(front[k] == key.referenced_content_id);
                }
            }
        }
    }
}

/// A committed change refers to each of its chunks, and to nothing else that it did not refer
/// to before.
pub proof fn law_committed_changes_refer_to_their_chunks(
    store: StoreView,
    group_id: GroupId,
    revision_id: RevisionId,
    content_id: ContentId,
    chunks: Seq<ContentId>,
    key: ReferenceKey,
)
    requires
        commit_verdict(store, group_id, revision_id, content_id, chunks) matches Ok(commit)
            && commit.inserted,
    ensures
        lookup(
            change_committed(store, group_id, revision_id, content_id, chunks).0.references,
            key,
        ) is Some <==> {
            ||| lookup(store.references, key) is Some
            ||| key.group_id == group_id && key.owner_content_id == content_id && chunks.contains(
                key.referenced_content_id,
            )
        },
{
    lemma_references(store.references, group_id, content_id, chunks, key);
}

/// A local change may take its path exactly where nothing else is to be put there and what
/// stands there is what it is to take the place of, or is the change itself.
pub proof fn law_local_change_takes_the_place_of_what_it_knows(
    store: StoreView,
    group_id: GroupId,
    path_id: PathId,
    expected_previous: Option<ContentId>,
    kind: ChangeRecordKind,
    content_id: ContentId,
)
    requires
        pending_at(store, group_id, path_id) is Ok,
    ensures
        ({
            let verdict = head_verdict(
                store,
                group_id,
                path_id,
                expected_previous,
                kind,
                content_id,
            );
            let found = pending_at_path(store, group_id, path_id);
            let head = head_row(store, group_id, path_id);
            &&& verdict == Ok::<bool, StoreError>(false) <==> {
                &&& found is None || found->0.target_content_id == content_id
                &&& head is Some ==> head->0.content_id != content_id
                &&& contents_at(store, group_id, path_id) == expected_previous
            }
            &&& verdict == Ok::<bool, StoreError>(true) <==> {
                &&& found is None || found->0.target_content_id == content_id
                &&& head == Some(HeadRow { content_id, kind })
            }
            &&& (found is Some && found->0.target_content_id != content_id) ==> verdict == Err::<
                bool,
                StoreError,
            >(StoreError::MaterializationInProgress { path_id })
        }),
{
}

/// A local change that is committed stands at its path, is in the log, and leaves every other
/// path; one that is signed has its signature on record as well.
pub proof fn law_committed_local_change_stands_at_its_path(
    store: StoreView,
    group_id: GroupId,
    path_id: PathId,
    expected_previous: Option<ContentId>,
    revision_id: RevisionId,
    kind: ChangeRecordKind,
    content_id: ContentId,
    authorization: AuthorizationView,
    chunks: Seq<ContentId>,
    other: PathKey,
)
    requires
        other != (PathKey { group_id, path_id }),
    ensures
        ({
            let (after, result) = signed_local_change_committed(
                store,
                group_id,
                path_id,
                expected_previous,
                revision_id,
                kind,
                content_id,
                authorization,
                chunks,
            );
            let signed = with_authentication(
                store,
                group_id,
                revision_id,
                content_id,
                authorization,
            );
            &&& result is Ok <==> {
                &&& authentication_verdict(
                    store,
                    group_id,
                    revision_id,
                    content_id,
                    authorization,
                ) is Ok
                &&& head_verdict(
                    signed,
                    group_id,
                    path_id,
                    expected_previous,
                    kind,
                    content_id,
                ) is Ok
                &&& commit_verdict(signed, group_id, revision_id, content_id, chunks) is Ok
            }
            &&& result is Ok ==> {
                &&& head_row(after, group_id, path_id) == Some(HeadRow { content_id, kind })
                &&& lookup(after.heads, other) == lookup(store.heads, other)
                &&& change_of(after.changes, group_id, revision_id) is Some
                &&& change_of(after.changes, group_id, revision_id)->0.content_id == content_id
                &&& change_of(after.changes, group_id, revision_id)->0.sequence
                    == result->Ok_0.sequence
                &&& after.authentications == signed.authentications
                &&& after.objects == store.objects
                &&& after.pending == store.pending
                &&& after.members == store.members
                &&& after.watermarks == store.watermarks
                &&& after.requests == store.requests
                &&& after.transfers == store.transfers
            }
            &&& result is Err ==> after == store
        }),
{
    let signed = with_authentication(store, group_id, revision_id, content_id, authorization);
    let key = PathKey { group_id, path_id };
    lemma_lookup_put(store.heads, key, HeadRow { content_id, kind }, key);
    lemma_lookup_put(store.heads, key, HeadRow { content_id, kind }, other);
    lemma_change_of(signed.changes, group_id, revision_id);
    match commit_verdict(signed, group_id, revision_id, content_id, chunks) {
        Ok(commit) => {
            if commit.inserted {
                let row = ChangeRow {
                    sequence: commit.sequence,
                    group_id,
                    revision_id,
                    content_id,
                };
                let changes = signed.changes.push(row);
                assert(changes.drop_last() =~= signed.changes);
                assert(changes.last() == row);
            }
        },
        Err(_) => {},
    }
}

/// A head of this device alone stands at its path like any other, but the log does not have it.
pub proof fn law_local_head_stands_at_its_path(
    store: StoreView,
    group_id: GroupId,
    path_id: PathId,
    expected_previous: Option<ContentId>,
    kind: ChangeRecordKind,
    content_id: ContentId,
    chunks: Seq<ContentId>,
    other: PathKey,
)
    requires
        other != (PathKey { group_id, path_id }),
    ensures
        ({
            let (after, result) = local_head_committed(
                store,
                group_id,
                path_id,
                expected_previous,
                kind,
                content_id,
                chunks,
            );
            let verdict = head_verdict(
                store,
                group_id,
                path_id,
                expected_previous,
                kind,
                content_id,
            );
            &&& result is Ok <==> {
                ||| verdict == Ok::<bool, StoreError>(true)
                ||| verdict == Ok::<bool, StoreError>(false) && kind_problem(
                    store,
                    group_id,
                    content_id,
                    ObjectKind::Manifest,
                ) is None && forall|i: int|
                    0 <= i < chunks.len() ==> kind_problem(
                        store,
                        group_id,
                        #[trigger] chunks[i],
                        ObjectKind::Chunk,
                    ) is None
            }
            &&& result is Ok ==> {
                &&& head_row(after, group_id, path_id) == Some(HeadRow { content_id, kind })
                &&& lookup(after.heads, other) == lookup(store.heads, other)
                &&& after.changes == store.changes
            }
            &&& result is Err ==> after == store
        }),
{
    let key = PathKey { group_id, path_id };
    lemma_chunk_problem(store, group_id, chunks);
    lemma_lookup_put(store.heads, key, HeadRow { content_id, kind }, key);
    lemma_lookup_put(store.heads, key, HeadRow { content_id, kind }, other);
}

/// A head of this device alone refers to its chunks like any other, and changes nothing but its
/// path and what it refers to.
pub proof fn law_local_head_refers_to_its_chunks(
    store: StoreView,
    group_id: GroupId,
    path_id: PathId,
    expected_previous: Option<ContentId>,
    kind: ChangeRecordKind,
    content_id: ContentId,
    chunks: Seq<ContentId>,
    key: ReferenceKey,
)
    requires
        head_verdict(store, group_id, path_id, expected_previous, kind, content_id) == Ok::<
            bool,
            StoreError,
        >(false),
        local_head_committed(
            store,
            group_id,
            path_id,
            expected_previous,
            kind,
            content_id,
            chunks,
        ).1 is Ok,
    ensures
        ({
            let after = local_head_committed(
                store,
                group_id,
                path_id,
                expected_previous,
                kind,
                content_id,
                chunks,
            ).0;
            &&& after == StoreView { heads: after.heads, references: after.references, ..store }
            &&& lookup(after.references, key) is Some <==> {
                ||| lookup(store.references, key) is Some
                ||| key.group_id == group_id && key.owner_content_id == content_id
                    && chunks.contains(key.referenced_content_id)
            }
        }),
{
    lemma_references(store.references, group_id, content_id, chunks, key);
}

/// Committing a signed change changes the log, the signatures and the references alone, by what
/// committing it and putting its signature on record change.
pub proof fn law_signed_commit_is_a_commit_and_a_signature(
    store: StoreView,
    group_id: GroupId,
    revision_id: RevisionId,
    content_id: ContentId,
    authorization: AuthorizationView,
    chunks: Seq<ContentId>,
)
    ensures
        ({
            let (after, result) = signed_change_committed(
                store,
                group_id,
                revision_id,
                content_id,
                authorization,
                chunks,
            );
            let (committed, commit) = change_committed(
                store,
                group_id,
                revision_id,
                content_id,
                chunks,
            );
            &&& result is Ok ==> {
                &&& commit == result
                &&& after.changes == committed.changes
                &&& after.references == committed.references
                &&& after == StoreView {
                    changes: after.changes,
                    references: after.references,
                    authentications: after.authentications,
                    ..store
                }
            }
            &&& result is Err ==> after == store
        }),
{
}

/// A change of a peer that is committed is in the log under its number with its signature on
/// record, and touches no path.
pub proof fn law_committed_signed_change_is_logged_and_signed(
    store: StoreView,
    group_id: GroupId,
    revision_id: RevisionId,
    content_id: ContentId,
    authorization: AuthorizationView,
    chunks: Seq<ContentId>,
)
    ensures
        ({
            let (after, result) = signed_change_committed(
                store,
                group_id,
                revision_id,
                content_id,
                authorization,
                chunks,
            );
            let signed = with_authentication(
                store,
                group_id,
                revision_id,
                content_id,
                authorization,
            );
            &&& result is Ok <==> {
                &&& authentication_verdict(
                    store,
                    group_id,
                    revision_id,
                    content_id,
                    authorization,
                ) is Ok
                &&& commit_verdict(store, group_id, revision_id, content_id, chunks) is Ok
            }
            &&& result is Ok ==> {
                &&& change_of(after.changes, group_id, revision_id) is Some
                &&& change_of(after.changes, group_id, revision_id)->0.content_id == content_id
                &&& change_of(after.changes, group_id, revision_id)->0.sequence
                    == result->Ok_0.sequence
                &&& after.authentications == signed.authentications
                &&& after.heads == store.heads
                &&& after.pending == store.pending
                &&& after.objects == store.objects
                &&& after.watermarks == store.watermarks
            }
            &&& result is Err ==> after == store
        }),
{
    lemma_change_of(store.changes, group_id, revision_id);
    match commit_verdict(store, group_id, revision_id, content_id, chunks) {
        Ok(commit) => {
            if commit.inserted {
                let row = ChangeRow {
                    sequence: commit.sequence,
                    group_id,
                    revision_id,
                    content_id,
                };
                let changes = store.changes.push(row);
                assert(changes.drop_last() =~= store.changes);
                assert(changes.last() == row);
            }
        },
        Err(_) => {},
    }
}

/// Collecting objects removes those objects and what they refer to, and nothing else.
pub proof fn law_collection_removes_what_it_names(
    store: StoreView,
    group_id: GroupId,
    content_ids: Seq<ContentId>,
    key: ObjectKey,
    reference: ReferenceKey,
)
    ensures
        ({
            let after = without_objects(store, group_id, content_ids);
            &&& lookup(after.objects, key) == if key.group_id == group_id
                && content_ids.contains(key.content_id) {
                None
            } else {
                lookup(store.objects, key)
            }
            &&& lookup(after.references, reference) == if reference.group_id == group_id
                && content_ids.contains(reference.owner_content_id) {
                None
            } else {
                lookup(store.references, reference)
            }
            &&& after == StoreView {
                objects: after.objects,
                references: after.references,
                ..store
            }
        }),
{
    let objects = |key: ObjectKey|
        !(key.group_id == group_id && content_ids.contains(key.content_id));
    let references = |key: ReferenceKey|
        !(key.group_id == group_id && content_ids.contains(key.owner_content_id));
    lemma_lookup_kept(store.objects, objects, key);
    lemma_lookup_kept(store.references, references, reference);
}

proof fn lemma_request_keys(
    rows: Seq<(PeerObjectKey, RequestRow)>,
    group_id: GroupId,
    peer_device_id: DeviceId,
)
    ensures
        forall|k: int|
            0 <= k < request_keys(rows, group_id, peer_device_id).len() ==> exists|i: int|
                {
                    &&& 0 <= i < rows.len()
                    &&& (#[trigger] rows[i]).0.group_id == group_id
                    &&& rows[i].0.peer_device_id == peer_device_id
                    &&& #[trigger] request_keys(rows, group_id, peer_device_id)[k] == (SortKey {
                        time: rows[i].1.requested_at_unix_ms,
                        high: rows[i].0.content_id.high,
                        low: rows[i].0.content_id.low,
                    })
                },
        forall|i: int|
            0 <= i < rows.len() && (#[trigger] rows[i]).0.group_id == group_id
                && rows[i].0.peer_device_id == peer_device_id ==> request_keys(
                rows,
                group_id,
                peer_device_id,
            ).contains(
                SortKey {
                    time: rows[i].1.requested_at_unix_ms,
                    high: rows[i].0.content_id.high,
                    low: rows[i].0.content_id.low,
                },
            ),
    decreases rows.len(),
{
    if rows.len() > 0 {
        let front = rows.drop_last();
        let before = request_keys(front, group_id, peer_device_id);
        let all = request_keys(rows, group_id, peer_device_id);
        lemma_request_keys(front, group_id, peer_device_id);
        assert(rows[rows.len() - 1] == rows.last());
        assert forall|k: int| 0 <= k < all.len() implies exists|i: int|
            {
                &&& 0 <= i < rows.len()
                &&& (#[trigger] rows[i]).0.group_id == group_id
                &&& rows[i].0.peer_device_id == peer_device_id
                &&& #[trigger] all[k] == (SortKey {
                    time: rows[i].1.requested_at_unix_ms,
                    high: rows[i].0.content_id.high,
                    low: rows[i].0.content_id.low,
                })
            } by {
            if k < before.len() {
                assert(all[k] == before[k]);
                let i = choose|i: int|
                    {
                        &&& 0 <= i < front.len()
                        &&& (#[trigger] front[i]).0.group_id == group_id
                        &&& front[i].0.peer_device_id == peer_device_id
                        &&& before[k] == (SortKey {
                            time: front[i].1.requested_at_unix_ms,
                            high: front[i].0.content_id.high,
                            low: front[i].0.content_id.low,
                        })
                    };
                assert(rows[i] == front[i]);
            } else {
                assert(rows[rows.len() - 1].0.group_id == group_id);
            }
        }
        assert forall|i: int|
            0 <= i < rows.len() && (#[trigger] rows[i]).0.group_id == group_id
                && rows[i].0.peer_device_id == peer_device_id implies all.contains(
            SortKey {
                time: rows[i].1.requested_at_unix_ms,
                high: rows[i].0.content_id.high,
                low: rows[i].0.content_id.low,
            },
        ) by {
            let key = SortKey {
                time: rows[i].1.requested_at_unix_ms,
                high: rows[i].0.content_id.high,
                low: rows[i].0.content_id.low,
            };
            if i < front.len() {
                assert(front[i] == rows[i]);
                assert(before.contains(key));
                let m = choose|m: int| 0 <= m < before.len() && before[m] == key;
                assert(all[m] == key);
            } else {
                assert(all[all.len() - 1] == key);
            }
        }
    }
}

/// What was asked of a peer is listed oldest first, each with what is on record of it; nothing
/// that was asked of another, and all of it where the list is not cut short.
pub proof fn law_requests_are_listed_oldest_first(
    store: StoreView,
    group_id: GroupId,
    peer_device_id: DeviceId,
    maximum: nat,
)
    requires
        distinct_keys(store.requests),
    ensures
        ({
            let list = pending_requests(store, group_id, peer_device_id, maximum);
            &&& list.len() <= maximum
            &&& forall|k: int|
                0 <= k < list.len() ==> {
                    let state = #[trigger] list[k];
                    let row = lookup(
                        store.requests,
                        PeerObjectKey { group_id, peer_device_id, content_id: state.content_id },
                    );
                    &&& row is Some
                    &&& state.requested_at_unix_ms == row->0.requested_at_unix_ms
                    &&& state.attempt_count == row->0.attempt_count
                    &&& state.last_attempt_at_unix_ms == row->0.last_attempt_at_unix_ms
                }
            &&& forall|k: int, m: int|
                0 <= k < m < list.len() ==> (#[trigger] list[k]).requested_at_unix_ms <= (
                #[trigger] list[m]).requested_at_unix_ms
            &&& forall|i: int|
                0 <= i < store.requests.len() && (#[trigger] store.requests[i]).0.group_id
                    == group_id && store.requests[i].0.peer_device_id == peer_device_id
                    && list.len() < maximum ==> exists|k: int|
                    0 <= k < list.len() && (#[trigger] list[k]).content_id
                        == store.requests[i].0.content_id
        }),
{
    let rows = store.requests;
    let keys = request_keys(rows, group_id, peer_device_id);
    lemma_request_keys(rows, group_id, peer_device_id);
    lemma_sorted(keys);
    let listed = sorted(keys);
    let list = pending_requests(store, group_id, peer_device_id, maximum);
    assert forall|k: int| 0 <= k < list.len() implies {
        let state = #[trigger] list[k];
        let row = lookup(
            rows,
            PeerObjectKey { group_id, peer_device_id, content_id: state.content_id },
        );
        &&& row is Some
        &&& state.requested_at_unix_ms == row->0.requested_at_unix_ms
        &&& state.attempt_count == row->0.attempt_count
        &&& state.last_attempt_at_unix_ms == row->0.last_attempt_at_unix_ms
        &&& state.requested_at_unix_ms == listed[k].time
    } by {
        assert(keys.contains(listed[k]));
        let m = choose|m: int| 0 <= m < keys.len() && keys[m] == listed[k];
        let i = choose|i: int|
            {
                &&& 0 <= i < rows.len()
                &&& (#[trigger] rows[i]).0.group_id == group_id
                &&& rows[i].0.peer_device_id == peer_device_id
                &&& keys[m] == (SortKey {
                    time: rows[i].1.requested_at_unix_ms,
                    high: rows[i].0.content_id.high,
                    low: rows[i].0.content_id.low,
                })
            };
        let content_id = ContentId { high: listed[k].high, low: listed[k].low };
        assert(rows[i].0 == PeerObjectKey { group_id, peer_device_id, content_id });
        lemma_found(rows, i);
    }
    assert forall|k: int, m: int| 0 <= k < m < list.len() implies (
    #[trigger] list[k]).requested_at_unix_ms <= (#[trigger] list[m]).requested_at_unix_ms by {
        assert(not_after(listed[k], listed[m]));
        assert(list[k].requested_at_unix_ms == listed[k].time);
        assert(list[m].requested_at_unix_ms == listed[m].time);
    }
    assert forall|i: int|
        0 <= i < rows.len() && (#[trigger] rows[i]).0.group_id == group_id
            && rows[i].0.peer_device_id == peer_device_id && list.len() < maximum implies exists|
        k: int,
    | 0 <= k < list.len() && (#[trigger] list[k]).content_id == rows[i].0.content_id by {
        let key = SortKey {
            time: rows[i].1.requested_at_unix_ms,
            high: rows[i].0.content_id.high,
            low: rows[i].0.content_id.low,
        };
        assert(listed.contains(key));
        let k = choose|k: int| 0 <= k < listed.len() && listed[k] == key;
        assert(list[k].content_id == rows[i].0.content_id);
    }
}

} // verus!
