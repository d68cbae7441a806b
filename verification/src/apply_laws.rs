//! What the application of changes keeps.
use vstd::prelude::*;

use crate::applier::{
    apply_begun, apply_resumed, conflict_begun, conflict_files, head_met, incoming_used,
    incoming_wins, is_randomness, keep_both, needs_draw, record_met, recovery_begun,
};
use crate::apply::{
    begun, ensured, finished, job_begun, job_committed, pending_for_record, pending_found,
    pending_row, JobView, OutcomeView, SequelView, StepView,
};
use crate::catalog::{MemberStatus, ObjectKey, ObjectRow, PathKey, RevisionKey, StoreError};
use crate::chance::{nothing_drawn, DrawView};
use crate::conflict::{
    law_reconciliation_is_idempotent, reconciled, ReconcileAction, ReconcileError,
};
use crate::conflict_record::conflict_derived;
use crate::envelope::ObjectKind;
use crate::history::{
    begin_signed_verdict, head_at, head_content, is_materialized, LocalHead, PendingView,
};
use crate::identity::{change_verified, AuthorizationView};
use crate::ids::{ContentId, GroupId, PathId, RevisionId};
use crate::keys::KeysView;
use crate::loading::{
    attached, chunks_checked, head_loaded, preflighted, record_loaded, ApplyProblem, LoadedView,
};
use crate::opening::opened_record;
use crate::order::{
    id_before, is_ascending, lemma_ordered_ids, lemma_ordered_ids_ascend, ordered_ids,
};
use crate::record::{ManifestView, RecordView};
use crate::store::{
    after_load, after_look, authentication_verdict, is_present, member_at, verified_object,
    with_authentication, with_object, StoreView,
};
use crate::store_laws::{
    is_consistent, is_known, law_admission_keeps_consistency, law_admitted_materialization_is_known,
    law_authentication_keeps_consistency, law_local_commit_keeps_consistency,
    law_loss_keeps_consistency, law_materialization_keeps_consistency,
    law_signed_commit_keeps_consistency,
};
use crate::table::{lemma_lookup, lemma_lookup_kept, lemma_lookup_put, lookup, other_than, removed};

verus! {

/// The second store is consistent if the first is.
pub open spec fn keeps(before: StoreView, after: StoreView) -> bool {
    is_consistent(before) ==> is_consistent(after)
}

/// The two stores agree on what is at the paths, what is being brought there and what is in the
/// log.
pub open spec fn leaves_paths(before: StoreView, after: StoreView) -> bool {
    &&& after.heads == before.heads
    &&& after.pending == before.pending
    &&& after.changes == before.changes
}

proof fn lemma_load(
    store: StoreView,
    keys: KeysView,
    kind: ObjectKind,
    content_id: ContentId,
    file: Option<Seq<u8>>,
)
    ensures
        keeps(store, after_load(store, keys, kind, content_id, file)),
        leaves_paths(store, after_load(store, keys, kind, content_id, file)),
{
    if is_consistent(store) {
        law_loss_keeps_consistency(store, keys.group_id, content_id, false);
    }
}

proof fn lemma_record_loaded(
    store: StoreView,
    keys: KeysView,
    files: Seq<(ContentId, Seq<u8>)>,
    content_id: ContentId,
)
    ensures
        keeps(store, record_loaded(store, keys, files, content_id).0),
        leaves_paths(store, record_loaded(store, keys, files, content_id).0),
{
    lemma_load(store, keys, ObjectKind::Manifest, content_id, lookup(files, content_id));
}

proof fn lemma_head_loaded(
    store: StoreView,
    keys: KeysView,
    files: Seq<(ContentId, Seq<u8>)>,
    head: LocalHead,
)
    ensures
        keeps(store, head_loaded(store, keys, files, head).0),
        leaves_paths(store, head_loaded(store, keys, files, head).0),
{
    lemma_record_loaded(store, keys, files, head.content_id);
}

proof fn lemma_attached(
    store: StoreView,
    group_id: GroupId,
    record: LoadedView,
    authorization: AuthorizationView,
)
    ensures
        keeps(store, attached(store, group_id, record, authorization).0),
        leaves_paths(store, attached(store, group_id, record, authorization).0),
{
    if is_consistent(store) {
        law_authentication_keeps_consistency(
            store,
            group_id,
            record.record.revision_id(),
            record.content_id,
            authorization,
        );
    }
}

proof fn lemma_preflighted(
    store: StoreView,
    keys: KeysView,
    files: Seq<(ContentId, Seq<u8>)>,
    chunks: Seq<ContentId>,
)
    ensures
        keeps(store, preflighted(store, keys, files, chunks).0),
        leaves_paths(store, preflighted(store, keys, files, chunks).0),
    decreases chunks.len(),
{
    if chunks.len() > 0 {
        lemma_preflighted(store, keys, files, chunks.drop_last());
        let before = preflighted(store, keys, files, chunks.drop_last()).0;
        let content_id = chunks.last();
        let file = lookup(files, content_id);
        if is_consistent(before) {
            law_loss_keeps_consistency(before, keys.group_id, content_id, file is Some);
        }
        let looked = after_look(before, keys.group_id, content_id, file is Some);
        lemma_load(looked, keys, ObjectKind::Chunk, content_id, file);
    }
}

proof fn lemma_begun(
    store: StoreView,
    keys: KeysView,
    record: LoadedView,
    expected_previous: Option<ContentId>,
    token: Option<Seq<u8>>,
)
    ensures
        keeps(store, job_begun(store, keys, record, expected_previous, token).0),
{
    let pending = pending_for_record(keys, record, expected_previous, token);
    let row = pending_row(pending);
    if is_consistent(store) {
        match record.authorization {
            Some(authorization) => {
                let revision_id = record.record.revision_id();
                law_authentication_keeps_consistency(
                    store,
                    keys.group_id,
                    revision_id,
                    record.content_id,
                    authorization,
                );
                let authenticated = with_authentication(
                    store,
                    keys.group_id,
                    revision_id,
                    record.content_id,
                    authorization,
                );
                if begin_signed_verdict(
                    store,
                    keys.group_id,
                    pending.path_id,
                    revision_id,
                    row,
                    authorization,
                ) is Ok {
                    lemma_signed_is_known(
                        store,
                        keys.group_id,
                        revision_id,
                        record.content_id,
                        authorization,
                    );
                    law_materialization_keeps_consistency(
                        authenticated,
                        keys.group_id,
                        pending.path_id,
                        row,
                    );
                }
            },
            None => {
                if begun(store, keys.group_id, record, pending).1 is Ok {
                    law_admitted_materialization_is_known(
                        store,
                        keys.group_id,
                        pending.path_id,
                        row,
                    );
                    law_materialization_keeps_consistency(
                        store,
                        keys.group_id,
                        pending.path_id,
                        row,
                    );
                }
            },
        }
    }
}

proof fn lemma_signed_is_known(
    store: StoreView,
    group_id: GroupId,
    revision_id: RevisionId,
    content_id: ContentId,
    authorization: AuthorizationView,
)
    requires
        is_consistent(store),
        authentication_verdict(
            store,
            group_id,
            revision_id,
            content_id,
            authorization,
        ) is Ok,
    ensures
        is_known(
            with_authentication(store, group_id, revision_id, content_id, authorization),
            group_id,
            content_id,
        ),
{
    let key = RevisionKey { group_id, revision_id };
    if let Some(row) = lookup(store.authentications, key) {
        lemma_lookup(store.authentications, key);
    }
}

proof fn lemma_ensured(
    store: StoreView,
    keys: KeysView,
    files: Seq<(ContentId, Seq<u8>)>,
    record: LoadedView,
    expected_previous: Option<ContentId>,
    reject_occupied: bool,
    token: Option<Seq<u8>>,
)
    ensures
        keeps(
            store,
            ensured(
                store,
                keys,
                files,
                record,
                expected_previous,
                reject_occupied,
                token,
            ).0,
        ),
{
    let path_id = keys.path_id(record.record.path().comparison_key);
    lemma_begun(store, keys, record, expected_previous, token);
    if let Some(head) = head_at(store, keys.group_id, path_id) {
        lemma_head_loaded(store, keys, files, head);
    }
}

proof fn lemma_used(
    store: StoreView,
    keys: KeysView,
    files: Seq<(ContentId, Seq<u8>)>,
    incoming: LoadedView,
    previous: Option<ContentId>,
    token: Option<Seq<u8>>,
)
    ensures
        ({
            let (after, result) = incoming_used(store, keys, files, incoming, previous, token);
            &&& keeps(store, after)
            &&& result matches Ok(StepView::Done(_)) ==> leaves_paths(store, after)
        }),
{
    lemma_preflighted(store, keys, files, ordered_ids(incoming.record.chunk_ids()));
    let checked = chunks_checked(store, keys, files, incoming.record).0;
    lemma_begun(checked, keys, incoming, previous, token);
}

proof fn lemma_conflict_derived(
    store: StoreView,
    keys: KeysView,
    files: Seq<(ContentId, Seq<u8>)>,
    source: ManifestView,
    nonce: Option<Seq<u8>>,
    now: i64,
)
    ensures
        keeps(store, conflict_derived(store, keys, files, source, nonce, now).0),
{
    if is_consistent(store) {
        assert forall|content_id: ContentId, bytes: Seq<u8>, existing: Option<Seq<u8>>|
            is_consistent(
                #[trigger] with_object(
                    store,
                    keys,
                    ObjectKind::Manifest,
                    content_id,
                    bytes,
                    existing,
                    now,
                ),
            ) by {
            law_admission_keeps_consistency(
                store,
                keys,
                ObjectKind::Manifest,
                content_id,
                bytes,
                existing,
                now,
            );
        }
    }
}

proof fn lemma_conflict_begun(
    store: StoreView,
    keys: KeysView,
    files: Seq<(ContentId, Seq<u8>)>,
    local: ManifestView,
    previous: ContentId,
    incoming: LoadedView,
    incoming_manifest: ManifestView,
    canonical: bool,
    canonical_revision: RevisionId,
    conflict_revision: RevisionId,
    draw: DrawView,
    now: i64,
)
    ensures
        keeps(
            store,
            conflict_begun(
                store,
                keys,
                files,
                local,
                previous,
                incoming,
                incoming_manifest,
                canonical,
                canonical_revision,
                conflict_revision,
                draw,
                now,
            ).0,
        ),
{
    let source = if canonical {
        local
    } else {
        incoming_manifest
    };
    lemma_conflict_derived(store, keys, files, source, draw.nonce, now);
    let (derived, result) = conflict_derived(store, keys, files, source, draw.nonce, now);
    if let Ok(conflict) = result {
        let stored = conflict_files(keys, files, conflict);
        lemma_ensured(derived, keys, stored, conflict, None, true, draw.token);
        let after = ensured(derived, keys, stored, conflict, None, true, draw.token).0;
        lemma_ensured(after, keys, files, incoming, Some(previous), false, draw.token);
    }
}

proof fn lemma_keep_both(
    store: StoreView,
    keys: KeysView,
    files: Seq<(ContentId, Seq<u8>)>,
    local: RecordView,
    previous: ContentId,
    incoming: LoadedView,
    canonical_revision: RevisionId,
    conflict_revision: RevisionId,
    draw: DrawView,
    now: i64,
)
    ensures
        ({
            let (after, result) = keep_both(
                store,
                keys,
                files,
                local,
                previous,
                incoming,
                canonical_revision,
                conflict_revision,
                draw,
                now,
            );
            &&& keeps(store, after)
            &&& result matches Ok(StepView::Done(OutcomeView::MissingObjects { content_ids }))
                ==> leaves_paths(store, after)
        }),
{
    if let (RecordView::File(manifest), RecordView::File(incoming_manifest)) = (
        local,
        incoming.record,
    ) {
        lemma_preflighted(store, keys, files, ordered_ids(local.chunk_ids()));
        let first = chunks_checked(store, keys, files, local).0;
        lemma_preflighted(first, keys, files, ordered_ids(incoming.record.chunk_ids()));
        let second = chunks_checked(first, keys, files, incoming.record).0;
        assert forall|canonical: bool|
            keeps(
                second,
                (#[trigger] conflict_begun(
                    second,
                    keys,
                    files,
                    manifest,
                    previous,
                    incoming,
                    incoming_manifest,
                    canonical,
                    canonical_revision,
                    conflict_revision,
                    draw,
                    now,
                )).0,
            ) by {
            lemma_conflict_begun(
                second,
                keys,
                files,
                manifest,
                previous,
                incoming,
                incoming_manifest,
                canonical,
                canonical_revision,
                conflict_revision,
                draw,
                now,
            );
        }
    }
}

proof fn lemma_head_met(
    store: StoreView,
    keys: KeysView,
    files: Seq<(ContentId, Seq<u8>)>,
    head: LocalHead,
    incoming: LoadedView,
    draw: DrawView,
    now: i64,
)
    ensures
        ({
            let (after, result) = head_met(store, keys, files, head, incoming, draw, now);
            &&& keeps(store, after)
            &&& result matches Ok(StepView::Done(outcome)) ==> outcome is KeptBoth
                || leaves_paths(store, after)
        }),
{
    lemma_head_loaded(store, keys, files, head);
    let (after, result) = head_loaded(store, keys, files, head);
    if let Ok(local) = result {
        lemma_used(after, keys, files, incoming, Some(head.content_id), draw.token);
        if let Ok(ReconcileAction::KeepBoth { canonical_revision, conflict_revision }) = reconciled(
            local,
            incoming.record,
        ) {
            lemma_keep_both(
                after,
                keys,
                files,
                local,
                head.content_id,
                incoming,
                canonical_revision,
                conflict_revision,
                draw,
                now,
            );
            lemma_keep_both_outcomes(
                after,
                keys,
                files,
                local,
                head.content_id,
                incoming,
                canonical_revision,
                conflict_revision,
                draw,
                now,
            );
        }
    }
}

proof fn lemma_keep_both_outcomes(
    store: StoreView,
    keys: KeysView,
    files: Seq<(ContentId, Seq<u8>)>,
    local: RecordView,
    previous: ContentId,
    incoming: LoadedView,
    canonical_revision: RevisionId,
    conflict_revision: RevisionId,
    draw: DrawView,
    now: i64,
)
    ensures
        keep_both(
            store,
            keys,
            files,
            local,
            previous,
            incoming,
            canonical_revision,
            conflict_revision,
            draw,
            now,
        ).1 matches Ok(StepView::Done(outcome)) ==> outcome is MissingObjects
            || outcome is KeptBoth,
{
}

proof fn lemma_record_met(
    store: StoreView,
    keys: KeysView,
    files: Seq<(ContentId, Seq<u8>)>,
    incoming: LoadedView,
    draw: DrawView,
    now: i64,
)
    ensures
        ({
            let (after, result) = record_met(store, keys, files, incoming, draw, now);
            &&& keeps(store, after)
            &&& result matches Ok(StepView::Done(outcome)) ==> outcome is KeptBoth
                || leaves_paths(store, after)
        }),
{
    let path_id = keys.path_id(incoming.record.path().comparison_key);
    lemma_preflighted(store, keys, files, ordered_ids(incoming.record.chunk_ids()));
    lemma_used(store, keys, files, incoming, None, draw.token);
    if let Some(head) = head_at(store, keys.group_id, path_id) {
        lemma_head_met(store, keys, files, head, incoming, draw, now);
    }
}

proof fn lemma_apply_begun(
    store: StoreView,
    keys: KeysView,
    files: Seq<(ContentId, Seq<u8>)>,
    target_content_id: ContentId,
    authorization: AuthorizationView,
    draw: DrawView,
    now: i64,
)
    ensures
        ({
            let (after, result) = apply_begun(
                store,
                keys,
                files,
                target_content_id,
                authorization,
                draw,
                now,
            );
            &&& keeps(store, after)
            &&& result matches Ok(StepView::Done(outcome)) ==> outcome is KeptBoth
                || leaves_paths(store, after)
        }),
{
    lemma_record_loaded(store, keys, files, target_content_id);
    let (loaded, load) = record_loaded(store, keys, files, target_content_id);
    if let Ok(unsigned) = load {
        lemma_attached(loaded, keys.group_id, unsigned, authorization);
        let (signed, attach) = attached(loaded, keys.group_id, unsigned, authorization);
        if let Ok(incoming) = attach {
            lemma_record_met(signed, keys, files, incoming, draw, now);
        }
    }
}

proof fn lemma_finished(
    store: StoreView,
    keys: KeysView,
    job: JobView,
    file: Option<Seq<u8>>,
    now: i64,
)
    ensures
        keeps(store, finished(store, keys, job, file, now).0),
{
    if is_consistent(store) {
        let pending = job.pending;
        let record = job.loaded;
        let chunks = ordered_ids(record.record.chunk_ids());
        law_admission_keeps_consistency(
            store,
            keys,
            ObjectKind::Manifest,
            pending.target_content_id,
            record.encrypted_bytes,
            file,
            now,
        );
        let admitted = with_object(
            store,
            keys,
            ObjectKind::Manifest,
            pending.target_content_id,
            record.encrypted_bytes,
            file,
            now,
        );
        if let Some(authorization) = record.authorization {
            law_signed_commit_keeps_consistency(
                admitted,
                keys.group_id,
                pending.path_id,
                pending.expected_previous_content_id,
                record.record.revision_id(),
                record.record.kind(),
                pending.target_content_id,
                authorization,
                chunks,
            );
        }
        law_local_commit_keeps_consistency(
            admitted,
            keys.group_id,
            pending.path_id,
            pending.expected_previous_content_id,
            record.record.revision_id(),
            record.record.kind(),
            pending.target_content_id,
            chunks,
        );
        let committed = job_committed(store, keys, job, file, now).0;
        assert(is_consistent(committed));
        lemma_completed(committed, keys.group_id, pending.path_id, pending.target_content_id);
    }
}

proof fn lemma_completed(
    store: StoreView,
    group_id: GroupId,
    path_id: PathId,
    target_content_id: ContentId,
)
    requires
        is_consistent(store),
    ensures
        is_materialized(store, group_id, path_id, target_content_id) ==> is_consistent(
            StoreView { pending: removed(store.pending, PathKey { group_id, path_id }), ..store },
        ),
{
    let key = PathKey { group_id, path_id };
    if let Some(row) = lookup(store.pending, key) {
        lemma_lookup(store.pending, key);
        law_materialization_keeps_consistency(store, group_id, path_id, row);
    }
}

/// Every step of applying a change, or of taking up what was left undone, keeps the store
/// consistent.
pub proof fn law_application_keeps_consistency(
    store: StoreView,
    keys: KeysView,
    files: Seq<(ContentId, Seq<u8>)>,
    target_content_id: ContentId,
    authorization: AuthorizationView,
    job: JobView,
    sequel: SequelView,
    pending: PendingView,
    draw: DrawView,
    now: i64,
)
    requires
        is_consistent(store),
    ensures
        is_consistent(
            apply_begun(store, keys, files, target_content_id, authorization, draw, now).0,
        ),
        is_consistent(apply_resumed(store, keys, files, job, sequel, draw, now).0),
        is_consistent(recovery_begun(store, keys, files, pending).0),
{
    lemma_apply_begun(store, keys, files, target_content_id, authorization, draw, now);
    let file = lookup(files, job.pending.target_content_id);
    lemma_finished(store, keys, job, file, now);
    let after = finished(store, keys, job, file, now).0;
    if let SequelView::Replace { incoming, expected_previous_content_id, outcome } = sequel {
        lemma_ensured(
            after,
            keys,
            files,
            incoming,
            Some(expected_previous_content_id),
            false,
            draw.token,
        );
    }
    lemma_record_loaded(store, keys, files, pending.target_content_id);
    let (first, load) = record_loaded(store, keys, files, pending.target_content_id);
    if let Ok(loaded) = load {
        lemma_preflighted(first, keys, files, ordered_ids(loaded.record.chunk_ids()));
    }
}

/// A change that is not applied leaves the paths alone: where its objects are missing, where the
/// local record stays and where there is nothing to change, no head, no note of a job and no
/// entry of the log is touched.
pub proof fn law_unapplied_change_leaves_the_paths(
    store: StoreView,
    keys: KeysView,
    files: Seq<(ContentId, Seq<u8>)>,
    target_content_id: ContentId,
    authorization: AuthorizationView,
    draw: DrawView,
    now: i64,
)
    ensures
        ({
            let (after, result) = apply_begun(
                store,
                keys,
                files,
                target_content_id,
                authorization,
                draw,
                now,
            );
            result matches Ok(StepView::Done(outcome)) ==> outcome is KeptBoth
                || leaves_paths(store, after)
        }),
{
    lemma_apply_begun(store, keys, files, target_content_id, authorization, draw, now);
}

proof fn lemma_look_elsewhere(
    store: StoreView,
    keys: KeysView,
    content_id: ContentId,
    file: Option<Seq<u8>>,
    other: ContentId,
    present: bool,
)
    requires
        content_id != other,
    ensures
        ({
            let looked = after_look(store, keys.group_id, content_id, file is Some);
            let loaded = after_load(looked, keys, ObjectKind::Chunk, content_id, file);
            &&& is_present(looked, keys.group_id, other, present) == is_present(
                store,
                keys.group_id,
                other,
                present,
            )
            &&& is_present(loaded, keys.group_id, other, present) == is_present(
                store,
                keys.group_id,
                other,
                present,
            )
        }),
{
    let group_id = keys.group_id;
    let key = ObjectKey { group_id, content_id };
    let row = lookup(store.objects, key)->0;
    lemma_lookup_put(
        store.objects,
        key,
        ObjectRow { available: false, ..row },
        ObjectKey { group_id, content_id: other },
    );
    let looked = after_look(store, keys.group_id, content_id, file is Some);
    let looked_row = lookup(looked.objects, key)->0;
    lemma_lookup_put(
        looked.objects,
        key,
        ObjectRow { available: false, ..looked_row },
        ObjectKey { group_id, content_id: other },
    );
}

proof fn lemma_missing(
    store: StoreView,
    keys: KeysView,
    files: Seq<(ContentId, Seq<u8>)>,
    chunks: Seq<ContentId>,
)
    requires
        chunks.no_duplicates(),
        is_ascending(chunks),
        preflighted(store, keys, files, chunks).1 is Ok,
    ensures
        ({
            let (after, result) = preflighted(store, keys, files, chunks);
            let missing = result->Ok_0;
            &&& is_ascending(missing)
            &&& forall|id: ContentId| #[trigger]
                missing.contains(id) == (chunks.contains(id) && !is_present(
                    store,
                    keys.group_id,
                    id,
                    lookup(files, id) is Some,
                ))
            &&& forall|id: ContentId, present: bool|
                !chunks.contains(id) ==> #[trigger] is_present(after, keys.group_id, id, present)
                    == is_present(store, keys.group_id, id, present)
        }),
    decreases chunks.len(),
{
    if chunks.len() > 0 {
        let front = chunks.drop_last();
        let last = chunks.last();
        assert(!front.contains(last)) by {
            if front.contains(last) {
                let k = choose|k: int| 0 <= k < front.len() && front[k] == last;
                assert(chunks[k] == chunks[chunks.len() - 1]);
            }
        }
        assert forall|i: int, j: int| 0 <= i < j < front.len() implies id_before(
            #[trigger] front[i],
            #[trigger] front[j],
        ) by {
            assert(front[i] == chunks[i] && front[j] == chunks[j]);
        }
        lemma_missing(store, keys, files, front);
        let (before, result) = preflighted(store, keys, files, front);
        let missing = result->Ok_0;
        let file = lookup(files, last);
        assert forall|id: ContentId| #[trigger] chunks.contains(id) == (front.contains(id) || id
            == last) by {
            if chunks.contains(id) {
                let k = choose|k: int| 0 <= k < chunks.len() && chunks[k] == id;
                if k < front.len() {
                    assert(front[k] == id);
                }
            }
            if front.contains(id) {
                let k = choose|k: int| 0 <= k < front.len() && front[k] == id;
                assert(chunks[k] == id);
            }
            assert(chunks[chunks.len() - 1] == last);
        }
        assert forall|i: int| 0 <= i < missing.len() implies id_before(
            #[trigger] missing[i],
            last,
        ) by {
            assert(missing.contains(missing[i]));
            let k = choose|k: int| 0 <= k < front.len() && front[k] == missing[i];
            assert(chunks[k] == missing[i]);
            assert(chunks[chunks.len() - 1] == last);
        }
        let (after, outcome) = preflighted(store, keys, files, chunks);
        let all = outcome->Ok_0;
        assert forall|id: ContentId, present: bool| !chunks.contains(id) implies
            #[trigger] is_present(after, keys.group_id, id, present) == is_present(
            store,
            keys.group_id,
            id,
            present,
        ) by {
            lemma_look_elsewhere(before, keys, last, file, id, present);
        }
        if !is_present(before, keys.group_id, last, file is Some) {
            assert(all == missing.push(last));
            assert forall|id: ContentId| #[trigger] all.contains(id) == (missing.contains(id) || id
                == last) by {
                if missing.contains(id) {
                    let k = choose|k: int| 0 <= k < missing.len() && missing[k] == id;
                    assert(all[k] == id);
                }
                assert(all[all.len() - 1] == last);
            }
        }
    }
}

/// A change that takes a path and lacks chunks is not applied: the outcome names exactly the
/// chunks that are not there, in ascending order, whatever chance would give. Nothing is asked of
/// chance, and no head, no note of a job and no entry of the log is touched.
pub proof fn law_missing_chunks_are_named(
    store: StoreView,
    keys: KeysView,
    files: Seq<(ContentId, Seq<u8>)>,
    target_content_id: ContentId,
    authorization: AuthorizationView,
    draw: DrawView,
    now: i64,
    incoming: LoadedView,
)
    requires
        record_loaded(store, keys, files, target_content_id).1 matches Ok(unsigned) && {
            let loaded = record_loaded(store, keys, files, target_content_id).0;
            let (signed, result) = attached(loaded, keys.group_id, unsigned, authorization);
            let path_id = keys.path_id(incoming.record.path().comparison_key);
            &&& result == Ok::<LoadedView, ApplyProblem>(incoming)
            &&& pending_found(signed, keys.group_id, path_id) == Ok::<
                Option<PendingView>,
                StoreError,
            >(None)
            &&& head_at(signed, keys.group_id, path_id) matches Some(head) ==> head_loaded(
                signed,
                keys,
                files,
                head,
            ).1 matches Ok(local) && reconciled(local, incoming.record) == Ok::<
                ReconcileAction,
                ReconcileError,
            >(ReconcileAction::UseIncoming)
        },
        forall|id: ContentId| #[trigger]
            incoming.record.chunk_ids().contains(id) ==> match lookup(files, id) {
                Some(bytes) => verified_object(keys, ObjectKind::Chunk, id, bytes) is Ok,
                None => true,
            },
        exists|id: ContentId|
            incoming.record.chunk_ids().contains(id) && !#[trigger] is_present(
                reached(store, keys, files, target_content_id, authorization),
                keys.group_id,
                id,
                lookup(files, id) is Some,
            ),
    ensures
        ({
            let (after, result) = apply_begun(
                store,
                keys,
                files,
                target_content_id,
                authorization,
                draw,
                now,
            );
            &&& result matches Ok(StepView::Done(OutcomeView::MissingObjects { content_ids }))
            &&& is_ascending(content_ids)
            &&& forall|id: ContentId| #[trigger]
                content_ids.contains(id) == (incoming.record.chunk_ids().contains(id)
                    && !is_present(
                    reached(store, keys, files, target_content_id, authorization),
                    keys.group_id,
                    id,
                    lookup(files, id) is Some,
                ))
            &&& leaves_paths(store, after)
        }),
        !needs_draw(store, keys, files, target_content_id, authorization, now),
{
    let at = reached(store, keys, files, target_content_id, authorization);
    let chunks = ordered_ids(incoming.record.chunk_ids());
    lemma_ordered_ids(incoming.record.chunk_ids());
    lemma_ordered_ids_ascend(incoming.record.chunk_ids());
    lemma_sound_chunks(at, keys, files, chunks);
    lemma_missing(at, keys, files, chunks);
    let missing = preflighted(at, keys, files, chunks).1->Ok_0;
    let id = choose|id: ContentId|
        incoming.record.chunk_ids().contains(id) && !#[trigger] is_present(
            at,
            keys.group_id,
            id,
            lookup(files, id) is Some,
        );
    assert(missing.contains(id));
    lemma_apply_begun(store, keys, files, target_content_id, authorization, draw, now);
}

proof fn lemma_sound_chunks(
    store: StoreView,
    keys: KeysView,
    files: Seq<(ContentId, Seq<u8>)>,
    chunks: Seq<ContentId>,
)
    requires
        forall|id: ContentId| #[trigger]
            chunks.contains(id) ==> match lookup(files, id) {
                Some(bytes) => verified_object(keys, ObjectKind::Chunk, id, bytes) is Ok,
                None => true,
            },
    ensures
        preflighted(store, keys, files, chunks).1 is Ok,
    decreases chunks.len(),
{
    if chunks.len() > 0 {
        let front = chunks.drop_last();
        assert forall|id: ContentId| #[trigger] front.contains(id) implies match lookup(files, id) {
            Some(bytes) => verified_object(keys, ObjectKind::Chunk, id, bytes) is Ok,
            None => true,
        } by {
            let k = choose|k: int| 0 <= k < front.len() && front[k] == id;
            assert(chunks[k] == id);
            assert(chunks.contains(id));
        }
        lemma_sound_chunks(store, keys, files, front);
        assert(chunks[chunks.len() - 1] == chunks.last());
        assert(chunks.contains(chunks.last()));
    }
}

/// The store when the chunks of a change are looked at: its manifest was loaded and its signature
/// noted, and the head of its path was loaded where there is one.
pub open spec fn reached(
    store: StoreView,
    keys: KeysView,
    files: Seq<(ContentId, Seq<u8>)>,
    target_content_id: ContentId,
    authorization: AuthorizationView,
) -> StoreView {
    let (loaded, load) = record_loaded(store, keys, files, target_content_id);
    let (signed, attach) = attached(loaded, keys.group_id, load->Ok_0, authorization);
    let path_id = keys.path_id(attach->Ok_0.record.path().comparison_key);
    match head_at(signed, keys.group_id, path_id) {
        Some(head) => head_loaded(signed, keys, files, head).0,
        None => signed,
    }
}

proof fn lemma_conflict_ends(
    store: StoreView,
    keys: KeysView,
    files: Seq<(ContentId, Seq<u8>)>,
    local: ManifestView,
    previous: ContentId,
    incoming: LoadedView,
    incoming_manifest: ManifestView,
    canonical: bool,
    canonical_revision: RevisionId,
    conflict_revision: RevisionId,
    draw: DrawView,
    now: i64,
)
    ensures
        conflict_begun(
            store,
            keys,
            files,
            local,
            previous,
            incoming,
            incoming_manifest,
            canonical,
            canonical_revision,
            conflict_revision,
            draw,
            now,
        ).1 matches Ok(StepView::Done(outcome)) ==> outcome is KeptBoth,
{
}

proof fn lemma_both_end(
    store: StoreView,
    keys: KeysView,
    files: Seq<(ContentId, Seq<u8>)>,
    local: RecordView,
    previous: ContentId,
    incoming: LoadedView,
    canonical_revision: RevisionId,
    conflict_revision: RevisionId,
    draw: DrawView,
    now: i64,
)
    ensures
        ({
            let step = keep_both(
                store,
                keys,
                files,
                local,
                previous,
                incoming,
                canonical_revision,
                conflict_revision,
                draw,
                now,
            );
            (step.1 matches Ok(StepView::Done(outcome)) && !(outcome is KeptBoth)) ==> step
                == keep_both(
                store,
                keys,
                files,
                local,
                previous,
                incoming,
                canonical_revision,
                conflict_revision,
                nothing_drawn(),
                now,
            )
        }),
{
    if let (RecordView::File(manifest), RecordView::File(incoming_manifest)) = (
        local,
        incoming.record,
    ) {
        if let Some(canonical) = incoming_wins(
            manifest,
            incoming_manifest,
            canonical_revision,
            conflict_revision,
        ) {
            let first = chunks_checked(store, keys, files, local).0;
            let second = chunks_checked(first, keys, files, incoming.record).0;
            lemma_conflict_ends(
                second,
                keys,
                files,
                manifest,
                previous,
                incoming,
                incoming_manifest,
                canonical,
                canonical_revision,
                conflict_revision,
                draw,
                now,
            );
        }
    }
}

proof fn lemma_head_ends(
    store: StoreView,
    keys: KeysView,
    files: Seq<(ContentId, Seq<u8>)>,
    head: LocalHead,
    incoming: LoadedView,
    draw: DrawView,
    now: i64,
)
    ensures
        ({
            let step = head_met(store, keys, files, head, incoming, draw, now);
            (step.1 matches Ok(StepView::Done(outcome)) && !(outcome is KeptBoth)) ==> step
                == head_met(store, keys, files, head, incoming, nothing_drawn(), now)
        }),
{
    let (after, result) = head_loaded(store, keys, files, head);
    if let Ok(local) = result {
        if let Ok(ReconcileAction::KeepBoth { canonical_revision, conflict_revision }) = reconciled(
            local,
            incoming.record,
        ) {
            lemma_both_end(
                after,
                keys,
                files,
                local,
                head.content_id,
                incoming,
                canonical_revision,
                conflict_revision,
                draw,
                now,
            );
        }
    }
}

/// Chance decides nothing where nothing is staged and no conflict copy is sealed: a change that
/// ends with one step, other than with both revisions kept, ends so whatever chance would give.
pub proof fn law_unapplied_change_needs_no_chance(
    store: StoreView,
    keys: KeysView,
    files: Seq<(ContentId, Seq<u8>)>,
    target_content_id: ContentId,
    authorization: AuthorizationView,
    draw: DrawView,
    now: i64,
)
    requires
        apply_begun(store, keys, files, target_content_id, authorization, draw, now).1 matches Ok(
            StepView::Done(outcome),
        ) && !(outcome is KeptBoth),
    ensures
        !needs_draw(store, keys, files, target_content_id, authorization, now),
{
    let (loaded, load) = record_loaded(store, keys, files, target_content_id);
    let (signed, attach) = attached(loaded, keys.group_id, load->Ok_0, authorization);
    let incoming = attach->Ok_0;
    let path_id = keys.path_id(incoming.record.path().comparison_key);
    if let Some(head) = head_at(signed, keys.group_id, path_id) {
        lemma_head_ends(signed, keys, files, head, incoming, draw, now);
    }
}

proof fn lemma_loads_without_chance(
    store: StoreView,
    keys: KeysView,
    files: Seq<(ContentId, Seq<u8>)>,
    content_id: ContentId,
    head: LocalHead,
)
    ensures
        record_loaded(store, keys, files, content_id).1 matches Err(problem) ==> !is_randomness(
            problem,
        ),
        head_loaded(store, keys, files, head).1 matches Err(problem) ==> !is_randomness(problem),
{
}

/// Only a file needs chance, and only where its path waits for nothing: a tombstone, and what is
/// taken up again, is brought to its path without.
pub proof fn law_only_a_new_file_needs_chance(
    store: StoreView,
    keys: KeysView,
    files: Seq<(ContentId, Seq<u8>)>,
    target_content_id: ContentId,
    authorization: AuthorizationView,
    now: i64,
)
    requires
        needs_draw(store, keys, files, target_content_id, authorization, now),
    ensures
        record_loaded(store, keys, files, target_content_id).1 matches Ok(unsigned) && {
            let loaded = record_loaded(store, keys, files, target_content_id).0;
            let (signed, result) = attached(loaded, keys.group_id, unsigned, authorization);
            &&& result matches Ok(incoming)
            &&& incoming.record is File
            &&& pending_found(
                signed,
                keys.group_id,
                keys.path_id(incoming.record.path().comparison_key),
            ) == Ok::<Option<PendingView>, StoreError>(None)
        },
{
    let (loaded, load) = record_loaded(store, keys, files, target_content_id);
    let (signed, attach) = attached(loaded, keys.group_id, load->Ok_0, authorization);
    let incoming = attach->Ok_0;
    let path_id = keys.path_id(incoming.record.path().comparison_key);
    let head = head_at(signed, keys.group_id, path_id);
    lemma_loads_without_chance(store, keys, files, target_content_id, head->0);
    lemma_loads_without_chance(signed, keys, files, target_content_id, head->0);
}

proof fn lemma_conflict_with_chance(
    store: StoreView,
    keys: KeysView,
    files: Seq<(ContentId, Seq<u8>)>,
    local: ManifestView,
    previous: ContentId,
    incoming: LoadedView,
    incoming_manifest: ManifestView,
    canonical: bool,
    canonical_revision: RevisionId,
    conflict_revision: RevisionId,
    draw: DrawView,
    now: i64,
)
    requires
        draw.token is Some,
        draw.nonce is Some,
    ensures
        conflict_begun(
            store,
            keys,
            files,
            local,
            previous,
            incoming,
            incoming_manifest,
            canonical,
            canonical_revision,
            conflict_revision,
            draw,
            now,
        ).1 matches Err(problem) ==> !is_randomness(problem),
{
}

proof fn lemma_head_with_chance(
    store: StoreView,
    keys: KeysView,
    files: Seq<(ContentId, Seq<u8>)>,
    head: LocalHead,
    incoming: LoadedView,
    draw: DrawView,
    now: i64,
)
    requires
        draw.token is Some,
        draw.nonce is Some,
    ensures
        head_met(store, keys, files, head, incoming, draw, now).1 matches Err(problem)
            ==> !is_randomness(problem),
{
    lemma_loads_without_chance(store, keys, files, head.content_id, head);
    let (after, result) = head_loaded(store, keys, files, head);
    if let Ok(local) = result {
        if let Ok(ReconcileAction::KeepBoth { canonical_revision, conflict_revision }) = reconciled(
            local,
            incoming.record,
        ) {
            if let (RecordView::File(manifest), RecordView::File(incoming_manifest)) = (
                local,
                incoming.record,
            ) {
                let first = chunks_checked(after, keys, files, local).0;
                let second = chunks_checked(first, keys, files, incoming.record).0;
                if let Some(canonical) = incoming_wins(
                    manifest,
                    incoming_manifest,
                    canonical_revision,
                    conflict_revision,
                ) {
                    lemma_conflict_with_chance(
                        second,
                        keys,
                        files,
                        manifest,
                        head.content_id,
                        incoming,
                        incoming_manifest,
                        canonical,
                        canonical_revision,
                        conflict_revision,
                        draw,
                        now,
                    );
                }
            }
        }
    }
}

/// No step fails for want of randomness where chance gives what it is asked for.
pub proof fn law_chance_suffices(
    store: StoreView,
    keys: KeysView,
    files: Seq<(ContentId, Seq<u8>)>,
    target_content_id: ContentId,
    authorization: AuthorizationView,
    draw: DrawView,
    now: i64,
)
    requires
        draw.token is Some,
        draw.nonce is Some,
    ensures
        apply_begun(store, keys, files, target_content_id, authorization, draw, now).1 matches Err(
            problem,
        ) ==> !is_randomness(problem),
{
    let (loaded, load) = record_loaded(store, keys, files, target_content_id);
    let (signed, attach) = attached(loaded, keys.group_id, load->Ok_0, authorization);
    let incoming = attach->Ok_0;
    let path_id = keys.path_id(incoming.record.path().comparison_key);
    let head = head_at(signed, keys.group_id, path_id);
    lemma_loads_without_chance(store, keys, files, target_content_id, head->0);
    lemma_head_with_chance(signed, keys, files, head->0, incoming, draw, now);
}

/// Once a job is recorded, its record is at its path and nothing is being brought there.
pub proof fn law_finished_job_is_the_head(
    store: StoreView,
    keys: KeysView,
    job: JobView,
    file: Option<Seq<u8>>,
    now: i64,
)
    requires
        finished(store, keys, job, file, now).1 is Ok,
    ensures
        ({
            let after = finished(store, keys, job, file, now).0;
            let path_id = job.pending.path_id;
            &&& head_content(after, keys.group_id, path_id) == Some(
                job.pending.target_content_id,
            )
            &&& lookup(after.pending, PathKey { group_id: keys.group_id, path_id }) is None
        }),
{
    let key = PathKey { group_id: keys.group_id, path_id: job.pending.path_id };
    let committed = job_committed(store, keys, job, file, now).0;
    lemma_lookup_kept(committed.pending, other_than(key), key);
}

/// The losing one of two concurrent revisions is never given up before its copy is safe: a job
/// that touches the path of the two comes only once the conflict copy is the head of its own
/// path.
pub proof fn law_conflict_copy_comes_first(
    store: StoreView,
    keys: KeysView,
    files: Seq<(ContentId, Seq<u8>)>,
    local: ManifestView,
    previous: ContentId,
    incoming: LoadedView,
    incoming_manifest: ManifestView,
    canonical: bool,
    canonical_revision: RevisionId,
    conflict_revision: RevisionId,
    draw: DrawView,
    now: i64,
)
    ensures
        ({
            let source = if canonical {
                local
            } else {
                incoming_manifest
            };
            let (derived, conflict) = conflict_derived(
                store,
                keys,
                files,
                source,
                draw.nonce,
                now,
            );
            let (after, result) = conflict_begun(
                store,
                keys,
                files,
                local,
                previous,
                incoming,
                incoming_manifest,
                canonical,
                canonical_revision,
                conflict_revision,
                draw,
                now,
            );
            result matches Ok(StepView::Materialize { job, sequel }) ==> {
                &&& conflict is Ok
                &&& job.loaded == conflict->Ok_0 || head_content(
                    derived,
                    keys.group_id,
                    keys.path_id(conflict->Ok_0.record.path().comparison_key),
                ) == Some(conflict->Ok_0.content_id)
            }
        }),
{
}

/// A record that is already at its path is no change: applying it a second time does nothing.
pub proof fn law_application_is_idempotent(
    store: StoreView,
    keys: KeysView,
    files: Seq<(ContentId, Seq<u8>)>,
    incoming: LoadedView,
    draw: DrawView,
    now: i64,
)
    requires
        record_loaded(store, keys, files, incoming.content_id) == (
            store,
            Ok::<LoadedView, ApplyProblem>(incoming),
        ),
        pending_found(
            store,
            keys.group_id,
            keys.path_id(incoming.record.path().comparison_key),
        ) == Ok::<Option<PendingView>, StoreError>(None),
        head_at(store, keys.group_id, keys.path_id(incoming.record.path().comparison_key)) == Some(
            LocalHead {
                path_id: keys.path_id(incoming.record.path().comparison_key),
                content_id: incoming.content_id,
                kind: incoming.record.kind(),
            },
        ),
        incoming.authorization is Some,
    ensures
        apply_begun(
            store,
            keys,
            files,
            incoming.content_id,
            incoming.authorization->0,
            draw,
            now,
        ) == (store, Ok::<StepView, ApplyProblem>(StepView::Done(OutcomeView::NoChange))),
{
    law_reconciliation_is_idempotent(incoming.record);
}

/// The change is known to be by its author: it was authenticated before with the same signature,
/// or the author is an active member whose key verifies the signature.
pub open spec fn is_vouched_for(
    store: StoreView,
    group_id: GroupId,
    revision_id: RevisionId,
    content_id: ContentId,
    authorization: AuthorizationView,
) -> bool {
    match lookup(store.authentications, RevisionKey { group_id, revision_id }) {
        Some(row) => row.content_id == content_id && row.authorization == authorization,
        None => {
            &&& member_at(store, group_id, authorization.author_device_id) matches Ok(Some(member))
            &&& member.status == MemberStatus::Active
            &&& change_verified(
                member.public_key,
                group_id,
                revision_id,
                content_id,
                authorization,
            ) is Ok
        },
    }
}

/// Nothing is decided about a change whose author is not vouched for: wherever applying it takes a
/// step, its manifest opens under the identifier that was given and its signature holds.
pub proof fn law_only_authenticated_changes_are_applied(
    store: StoreView,
    keys: KeysView,
    files: Seq<(ContentId, Seq<u8>)>,
    target_content_id: ContentId,
    authorization: AuthorizationView,
    draw: DrawView,
    now: i64,
)
    requires
        apply_begun(store, keys, files, target_content_id, authorization, draw, now).1 is Ok,
    ensures
        lookup(files, target_content_id) matches Some(bytes) && {
            &&& opened_record(keys, target_content_id, bytes) matches Ok(record)
            &&& is_vouched_for(
                store,
                keys.group_id,
                record.revision_id(),
                target_content_id,
                authorization,
            )
        },
{
    let (loaded_store, load) = record_loaded(store, keys, files, target_content_id);
    assert(loaded_store.authentications == store.authentications);
    assert(loaded_store.members == store.members);
}

proof fn lemma_preflighted_chunks(
    store: StoreView,
    keys: KeysView,
    files: Seq<(ContentId, Seq<u8>)>,
    chunks: Seq<ContentId>,
)
    requires
        preflighted(store, keys, files, chunks).1 == Ok::<Seq<ContentId>, StoreError>(seq![]),
    ensures
        forall|i: int|
            0 <= i < chunks.len() ==> is_verified_chunk(keys, files, #[trigger] chunks[i]),
    decreases chunks.len(),
{
    if chunks.len() > 0 {
        let front = chunks.drop_last();
        let missing = preflighted(store, keys, files, front).1->Ok_0;
        assert(missing.push(chunks.last()).len() > 0);
        assert(missing =~= seq![]);
        lemma_preflighted_chunks(store, keys, files, front);
        assert forall|i: int| 0 <= i < chunks.len() implies is_verified_chunk(
            keys,
            files,
            #[trigger] chunks[i],
        ) by {
            if i < front.len() {
                assert(front[i] == chunks[i]);
            }
        }
    }
}

/// The file of a chunk is there and opens under the chunk's identifier.
pub open spec fn is_verified_chunk(
    keys: KeysView,
    files: Seq<(ContentId, Seq<u8>)>,
    content_id: ContentId,
) -> bool {
    &&& lookup(files, content_id) matches Some(bytes)
    &&& verified_object(keys, ObjectKind::Chunk, content_id, bytes) is Ok
}

proof fn lemma_checked_chunks(
    store: StoreView,
    keys: KeysView,
    files: Seq<(ContentId, Seq<u8>)>,
    record: RecordView,
)
    requires
        chunks_checked(store, keys, files, record).1 matches Ok(missing) && missing.len() == 0,
    ensures
        forall|id: ContentId| record.chunk_ids().contains(id) ==> #[trigger] is_verified_chunk(
            keys,
            files,
            id,
        ),
{
    let chunks = ordered_ids(record.chunk_ids());
    assert(preflighted(store, keys, files, chunks).1->Ok_0 =~= seq![]);
    lemma_preflighted_chunks(store, keys, files, chunks);
    lemma_ordered_ids(record.chunk_ids());
    assert forall|id: ContentId| record.chunk_ids().contains(id) implies
        #[trigger] is_verified_chunk(keys, files, id) by {
        assert(chunks.contains(id));
        let i = choose|i: int| 0 <= i < chunks.len() && chunks[i] == id;
        assert(is_verified_chunk(keys, files, chunks[i]));
    }
}

/// Nothing is brought to a path before every chunk of the change is there and opens under its
/// identifier.
pub proof fn law_chunks_are_verified_before_a_path_changes(
    store: StoreView,
    keys: KeysView,
    files: Seq<(ContentId, Seq<u8>)>,
    target_content_id: ContentId,
    authorization: AuthorizationView,
    draw: DrawView,
    now: i64,
    chunk_id: ContentId,
)
    requires
        apply_begun(store, keys, files, target_content_id, authorization, draw, now).1 matches Ok(
            StepView::Materialize { .. },
        ),
        opened_record(keys, target_content_id, lookup(files, target_content_id)->0) matches Ok(
            record,
        ) && record.chunk_ids().contains(chunk_id),
    ensures
        is_verified_chunk(keys, files, chunk_id),
{
    let (first, load) = record_loaded(store, keys, files, target_content_id);
    let unsigned = load->Ok_0;
    let (signed, attach) = attached(first, keys.group_id, unsigned, authorization);
    let incoming = attach->Ok_0;
    let path_id = keys.path_id(incoming.record.path().comparison_key);
    match pending_found(signed, keys.group_id, path_id) {
        Err(_) => {},
        Ok(Some(_)) => {
            lemma_checked_chunks(signed, keys, files, incoming.record);
        },
        Ok(None) => match head_at(signed, keys.group_id, path_id) {
            None => {
                lemma_checked_chunks(signed, keys, files, incoming.record);
            },
            Some(head) => {
                let (after, result) = head_loaded(signed, keys, files, head);
                let local = result->Ok_0;
                match reconciled(local, incoming.record) {
                    Ok(ReconcileAction::UseIncoming) => {
                        lemma_checked_chunks(after, keys, files, incoming.record);
                    },
                    Ok(ReconcileAction::KeepBoth { .. }) => {
                        let (between, local_result) = chunks_checked(after, keys, files, local);
                        let incoming_result = chunks_checked(
                            between,
                            keys,
                            files,
                            incoming.record,
                        ).1;
                        let missing = local_result->Ok_0 + incoming_result->Ok_0;
                        assert(missing.len() == 0);
                        lemma_checked_chunks(between, keys, files, incoming.record);
                    },
                    _ => {},
                }
            },
        },
    }
}

} // verus!
