//! What the exchange of changes keeps.
use vstd::prelude::*;

use crate::batch::{law_accepted_batch_is_ordered, validated_batch, BatchView, ChangeView};
use crate::catalog::DeviceKey;
use crate::envelope::ObjectKind;
use crate::exchange::{
    after_looks, incoming_batch, incoming_change, incoming_changes, incoming_chunks, settled_batch,
    signed_change_admitted, ChangeFate, Tally,
};
use crate::history::{change_of, watermark_at};
use crate::ids::{ContentId, DeviceId, GroupId};
use crate::keys::KeysView;
use crate::order::{lemma_ordered_ids, ordered_ids};
use crate::protocol::LimitsView;
use crate::record::{ChangeRecordKind, RecordView};
use crate::store::{with_authentication, with_object, with_requests, StoreView};
use crate::store_laws::{
    is_consistent, law_admission_keeps_consistency, law_authentication_keeps_consistency,
    law_loss_keeps_consistency, law_requests_keep_consistency, law_signed_commit_keeps_consistency,
    law_watermark_keeps_consistency,
};
use crate::table::{lemma_lookup_put, lookup, put};
use crate::wire::ChangeBatchView;

verus! {

proof fn lemma_looks(
    store: StoreView,
    group_id: GroupId,
    content_ids: Seq<ContentId>,
    present: Seq<ContentId>,
)
    ensures
        is_consistent(store) ==> is_consistent(
            after_looks(store, group_id, content_ids, present),
        ),
        after_looks(store, group_id, content_ids, present).watermarks == store.watermarks,
    decreases content_ids.len(),
{
    if content_ids.len() > 0 {
        let front = content_ids.drop_last();
        lemma_looks(store, group_id, front, present);
        let before = after_looks(store, group_id, front, present);
        let last = content_ids.last();
        if is_consistent(before) {
            law_loss_keeps_consistency(before, group_id, last, present.contains(last));
        }
    }
}

proof fn lemma_requests_watermarks(
    store: StoreView,
    group_id: GroupId,
    peer_device_id: DeviceId,
    content_ids: Seq<ContentId>,
    present: Seq<ContentId>,
    now: i64,
)
    ensures
        with_requests(store, group_id, peer_device_id, content_ids, present, now).0.watermarks
            == store.watermarks,
    decreases content_ids.len(),
{
    if content_ids.len() > 0 {
        lemma_requests_watermarks(
            store,
            group_id,
            peer_device_id,
            content_ids.drop_last(),
            present,
            now,
        );
    }
}

proof fn lemma_chunks(
    store: StoreView,
    keys: KeysView,
    present: Seq<ContentId>,
    change: ChangeView,
    record: RecordView,
    existing: Option<Seq<u8>>,
    now: i64,
)
    ensures
        ({
            let after = incoming_chunks(store, keys, present, change, record, existing, now).0;
            &&& is_consistent(store) ==> is_consistent(after)
            &&& after.watermarks == store.watermarks
        }),
{
    let chunks = ordered_ids(record.chunk_ids());
    lemma_looks(store, keys.group_id, chunks, present);
    let looked = after_looks(store, keys.group_id, chunks, present);
    if is_consistent(looked) {
        law_admission_keeps_consistency(
            looked,
            keys,
            ObjectKind::Manifest,
            change.content_id,
            change.encrypted_record,
            existing,
            now,
        );
        let admitted = with_object(
            looked,
            keys,
            ObjectKind::Manifest,
            change.content_id,
            change.encrypted_record,
            existing,
            now,
        );
        law_signed_commit_keeps_consistency(
            admitted,
            keys.group_id,
            arbitrary(),
            None,
            change.revision_id,
            ChangeRecordKind::File,
            change.content_id,
            change.authorization,
            ordered_ids(chunks),
        );
    }
}

proof fn lemma_change(
    store: StoreView,
    keys: KeysView,
    files: Seq<(ContentId, Seq<u8>)>,
    present: Seq<ContentId>,
    change: ChangeView,
    now: i64,
)
    ensures
        ({
            let after = incoming_change(store, keys, files, present, change, now).0;
            &&& is_consistent(store) ==> is_consistent(after)
            &&& after.watermarks == store.watermarks
        }),
{
    reveal(incoming_change);
    let existing = lookup(files, change.content_id);
    let admitted = with_object(
        store,
        keys,
        ObjectKind::Manifest,
        change.content_id,
        change.encrypted_record,
        existing,
        now,
    );
    let authenticated = with_authentication(
        admitted,
        keys.group_id,
        change.revision_id,
        change.content_id,
        change.authorization,
    );
    if is_consistent(store) {
        law_admission_keeps_consistency(
            store,
            keys,
            ObjectKind::Manifest,
            change.content_id,
            change.encrypted_record,
            existing,
            now,
        );
        law_authentication_keeps_consistency(
            admitted,
            keys.group_id,
            change.revision_id,
            change.content_id,
            change.authorization,
        );
    }
    assert forall|record: RecordView, written: Option<Seq<u8>>|
        ({
            let after = #[trigger] incoming_chunks(
                authenticated,
                keys,
                present,
                change,
                record,
                written,
                now,
            ).0;
            &&& is_consistent(authenticated) ==> is_consistent(after)
            &&& after.watermarks == authenticated.watermarks
        }) by {
        lemma_chunks(authenticated, keys, present, change, record, written, now);
    }
}

/// The change is in the log.
pub open spec fn is_logged(store: StoreView, group_id: GroupId, change: ChangeView) -> bool {
    match change_of(store.changes, group_id, change.revision_id) {
        Some(row) => row.content_id == change.content_id,
        None => false,
    }
}

proof fn lemma_logged(
    store: StoreView,
    keys: KeysView,
    files: Seq<(ContentId, Seq<u8>)>,
    present: Seq<ContentId>,
    change: ChangeView,
    now: i64,
)
    ensures
        ({
            let (after, result) = incoming_change(store, keys, files, present, change, now);
            &&& after.changes == store.changes || (after.changes.len() > 0
                && after.changes.drop_last() == store.changes)
            &&& match result {
                Ok(ChangeFate::Missing(ids)) => ids.len() > 0,
                Ok(_) => is_logged(after, keys.group_id, change),
                Err(_) => true,
            }
        }),
{
    reveal(incoming_change);
    let existing = lookup(files, change.content_id);
    let admitted = with_object(
        store,
        keys,
        ObjectKind::Manifest,
        change.content_id,
        change.encrypted_record,
        existing,
        now,
    );
    let authenticated = with_authentication(
        admitted,
        keys.group_id,
        change.revision_id,
        change.content_id,
        change.authorization,
    );
    assert(authenticated.changes == store.changes);
    assert forall|record: RecordView, written: Option<Seq<u8>>|
        ({
            let (after, result) = #[trigger] incoming_chunks(
                authenticated,
                keys,
                present,
                change,
                record,
                written,
                now,
            );
            &&& after.changes == authenticated.changes || (after.changes.len() > 0
                && after.changes.drop_last() == authenticated.changes)
            &&& match result {
                Ok(ChangeFate::Missing(ids)) => ids.len() > 0,
                Ok(_) => is_logged(after, keys.group_id, change),
                Err(_) => true,
            }
        }) by {
        lemma_logged_chunks(authenticated, keys, present, change, record, written, now);
    }
}

proof fn lemma_looks_changes(
    store: StoreView,
    group_id: GroupId,
    content_ids: Seq<ContentId>,
    present: Seq<ContentId>,
)
    ensures
        after_looks(store, group_id, content_ids, present).changes == store.changes,
    decreases content_ids.len(),
{
    if content_ids.len() > 0 {
        lemma_looks_changes(store, group_id, content_ids.drop_last(), present);
    }
}

proof fn lemma_logged_chunks(
    store: StoreView,
    keys: KeysView,
    present: Seq<ContentId>,
    change: ChangeView,
    record: RecordView,
    existing: Option<Seq<u8>>,
    now: i64,
)
    ensures
        ({
            let (after, result) = incoming_chunks(
                store,
                keys,
                present,
                change,
                record,
                existing,
                now,
            );
            &&& after.changes == store.changes || (after.changes.len() > 0
                && after.changes.drop_last() == store.changes)
            &&& match result {
                Ok(ChangeFate::Missing(ids)) => ids.len() > 0,
                Ok(_) => is_logged(after, keys.group_id, change),
                Err(_) => true,
            }
        }),
{
    let chunks = ordered_ids(record.chunk_ids());
    lemma_looks_changes(store, keys.group_id, chunks, present);
    let looked = after_looks(store, keys.group_id, chunks, present);
    let after = signed_change_admitted(looked, keys, change, chunks, existing, now).0;
    if after.changes.len() > store.changes.len() {
        assert(after.changes.drop_last() =~= store.changes);
    }
}

proof fn lemma_changes(
    store: StoreView,
    keys: KeysView,
    files: Seq<(ContentId, Seq<u8>)>,
    present: Seq<ContentId>,
    changes: Seq<ChangeView>,
    now: i64,
)
    ensures
        ({
            let after = incoming_changes(store, keys, files, present, changes, now).0;
            &&& is_consistent(store) ==> is_consistent(after)
            &&& after.watermarks == store.watermarks
        }),
    decreases changes.len(),
{
    if changes.len() > 0 {
        let front = changes.drop_last();
        lemma_changes(store, keys, files, present, front, now);
        let before = incoming_changes(store, keys, files, present, front, now).0;
        lemma_change(before, keys, files, present, changes.last(), now);
    }
}

proof fn lemma_log_keeps(
    before: StoreView,
    after: StoreView,
    group_id: GroupId,
    changes: Seq<ChangeView>,
)
    requires
        after.changes == before.changes || (after.changes.len() > 0 && after.changes.drop_last()
            == before.changes),
    ensures
        forall|i: int|
            0 <= i < changes.len() && is_logged(before, group_id, #[trigger] changes[i])
                ==> is_logged(after, group_id, changes[i]),
{
}

proof fn lemma_changes_logged(
    store: StoreView,
    keys: KeysView,
    files: Seq<(ContentId, Seq<u8>)>,
    present: Seq<ContentId>,
    changes: Seq<ChangeView>,
    now: i64,
)
    ensures
        ({
            let (after, result) = incoming_changes(store, keys, files, present, changes, now);
            match result {
                Ok(tally) => tally.missing.len() == 0 ==> {
                    &&& tally.committed + tally.replayed == changes.len()
                    &&& forall|i: int|
                        0 <= i < changes.len() ==> is_logged(
                            after,
                            keys.group_id,
                            #[trigger] changes[i],
                        )
                },
                Err(_) => true,
            }
        }),
    decreases changes.len(),
{
    if changes.len() > 0 {
        let front = changes.drop_last();
        lemma_changes_logged(store, keys, files, present, front, now);
        let before = incoming_changes(store, keys, files, present, front, now).0;
        lemma_logged(before, keys, files, present, changes.last(), now);
        let after = incoming_changes(store, keys, files, present, changes, now).0;
        if after.changes == before.changes || (after.changes.len() > 0
            && after.changes.drop_last() == before.changes) {
            lemma_log_keeps(before, after, keys.group_id, front);
        }
        let result = incoming_changes(store, keys, files, present, changes, now).1;
        if let Ok(tally) = result {
            if tally.missing.len() == 0 {
                assert forall|i: int| 0 <= i < changes.len() implies is_logged(
                    after,
                    keys.group_id,
                    #[trigger] changes[i],
                ) by {
                    if i < front.len() {
                        assert(front[i] == changes[i]);
                    }
                }
            }
        }
    }
}

/// Whatever a peer sends, the store stays consistent.
pub proof fn law_batch_keeps_consistency(
    store: StoreView,
    keys: KeysView,
    files: Seq<(ContentId, Seq<u8>)>,
    present: Seq<ContentId>,
    peer_device_id: DeviceId,
    batch: ChangeBatchView,
    limits: LimitsView,
    now: i64,
)
    requires
        is_consistent(store),
    ensures
        is_consistent(
            incoming_batch(store, keys, files, present, peer_device_id, batch, limits, now).0,
        ),
{
    let validated = validated_batch(batch, limits);
    if let Ok(view) = validated {
        lemma_changes(store, keys, files, present, view.records, now);
        let (after, result) = incoming_changes(store, keys, files, present, view.records, now);
        if let Ok(tally) = result {
            law_requests_keep_consistency(
                after,
                keys.group_id,
                peer_device_id,
                ordered_ids(ordered_ids(tally.missing)),
                present,
                now,
            );
            assert forall|sequence: u64|
                is_consistent(
                    (StoreView {
                        watermarks: #[trigger] put(
                            after.watermarks,
                            DeviceKey { group_id: keys.group_id, device_id: peer_device_id },
                            sequence,
                        ),
                        ..after
                    }),
                ) by {
                law_watermark_keeps_consistency(
                    after,
                    DeviceKey { group_id: keys.group_id, device_id: peer_device_id },
                    sequence,
                );
            }
        }
    }
}

/// A peer's log counts as read further only once every object that its changes need is there: a
/// batch that is refused, or that leaves objects missing, does not move the watermark.
pub proof fn law_watermark_waits_for_objects(
    store: StoreView,
    keys: KeysView,
    files: Seq<(ContentId, Seq<u8>)>,
    present: Seq<ContentId>,
    peer_device_id: DeviceId,
    batch: ChangeBatchView,
    limits: LimitsView,
    now: i64,
)
    ensures
        ({
            let (after, result) = incoming_batch(
                store,
                keys,
                files,
                present,
                peer_device_id,
                batch,
                limits,
                now,
            );
            match result {
                Err(_) => after.watermarks == store.watermarks,
                Ok(report) => {
                    &&& report.missing_content_ids.len() > 0 ==> after.watermarks
                        == store.watermarks
                    &&& report.peer_high_watermark == watermark_at(
                        after,
                        keys.group_id,
                        peer_device_id,
                    )
                },
            }
        }),
{
    if let Ok(view) = validated_batch(batch, limits) {
        lemma_changes(store, keys, files, present, view.records, now);
        let (after, result) = incoming_changes(store, keys, files, present, view.records, now);
        if let Ok(tally) = result {
            lemma_requests_watermarks(
                after,
                keys.group_id,
                peer_device_id,
                ordered_ids(ordered_ids(tally.missing)),
                present,
                now,
            );
            assert forall|sequence: u64|
                #![trigger put(
                    after.watermarks,
                    DeviceKey { group_id: keys.group_id, device_id: peer_device_id },
                    sequence,
                )]
                lookup(
                    put(
                        after.watermarks,
                        DeviceKey { group_id: keys.group_id, device_id: peer_device_id },
                        sequence,
                    ),
                    DeviceKey { group_id: keys.group_id, device_id: peer_device_id },
                ) == Some(sequence) by {
                lemma_lookup_put(
                    after.watermarks,
                    DeviceKey { group_id: keys.group_id, device_id: peer_device_id },
                    sequence,
                    DeviceKey { group_id: keys.group_id, device_id: peer_device_id },
                );
            }
        }
    }
}

/// The watermark of a peer never goes back, whatever the peer sends.
pub proof fn law_watermark_never_recedes(
    store: StoreView,
    keys: KeysView,
    files: Seq<(ContentId, Seq<u8>)>,
    present: Seq<ContentId>,
    peer_device_id: DeviceId,
    batch: ChangeBatchView,
    limits: LimitsView,
    now: i64,
)
    ensures
        watermark_at(
            incoming_batch(store, keys, files, present, peer_device_id, batch, limits, now).0,
            keys.group_id,
            peer_device_id,
        ) >= watermark_at(store, keys.group_id, peer_device_id),
{
    law_watermark_waits_for_objects(
        store,
        keys,
        files,
        present,
        peer_device_id,
        batch,
        limits,
        now,
    );
    if let Ok(view) = validated_batch(batch, limits) {
        lemma_changes(store, keys, files, present, view.records, now);
    }
}

/// Every change of a batch that leaves nothing missing is in the log: each was committed by this
/// batch or had been before.
pub proof fn law_complete_batch_is_committed(
    store: StoreView,
    keys: KeysView,
    files: Seq<(ContentId, Seq<u8>)>,
    present: Seq<ContentId>,
    peer_device_id: DeviceId,
    batch: ChangeBatchView,
    limits: LimitsView,
    now: i64,
)
    ensures
        ({
            let (after, result) = incoming_batch(
                store,
                keys,
                files,
                present,
                peer_device_id,
                batch,
                limits,
                now,
            );
            match (result, validated_batch(batch, limits)) {
                (Ok(report), Ok(validated)) => report.missing_content_ids.len() == 0 ==> {
                    &&& report.records_committed + report.records_replayed
                        == validated.records.len()
                    &&& forall|i: int|
                        0 <= i < validated.records.len() ==> is_logged(
                            after,
                            keys.group_id,
                            #[trigger] validated.records[i],
                        )
                },
                (Ok(_), Err(_)) => false,
                (Err(_), _) => true,
            }
        }),
{
    if let Ok(view) = validated_batch(batch, limits) {
        lemma_changes_logged(store, keys, files, present, view.records, now);
        let (after, result) = incoming_changes(store, keys, files, present, view.records, now);
        if let Ok(tally) = result {
            if tally.missing.len() > 0 {
                lemma_ordered_ids(tally.missing);
                assert(tally.missing.contains(tally.missing[0]));
                assert(ordered_ids(tally.missing).contains(tally.missing[0]));
            } else {
                lemma_settled_log(
                    after,
                    keys.group_id,
                    peer_device_id,
                    present,
                    view,
                    tally,
                    watermark_at(store, keys.group_id, peer_device_id),
                    now,
                );
            }
        }
    }
}

proof fn lemma_settled_log(
    store: StoreView,
    group_id: GroupId,
    peer_device_id: DeviceId,
    present: Seq<ContentId>,
    batch: BatchView,
    tally: Tally,
    known: u64,
    now: i64,
)
    requires
        tally.missing.len() == 0,
    ensures
        ({
            let (after, result) = settled_batch(
                store,
                group_id,
                peer_device_id,
                present,
                batch,
                tally,
                known,
                now,
            );
            &&& after.changes == store.changes
            &&& match result {
                Ok(report) => {
                    &&& report.records_committed == tally.committed
                    &&& report.records_replayed == tally.replayed
                },
                Err(_) => true,
            }
        }),
{
}

/// No more changes of a batch are committed or found in the log than it holds.
pub proof fn law_counts_are_bounded(
    store: StoreView,
    keys: KeysView,
    files: Seq<(ContentId, Seq<u8>)>,
    present: Seq<ContentId>,
    peer_device_id: DeviceId,
    batch: ChangeBatchView,
    limits: LimitsView,
    now: i64,
)
    ensures
        match incoming_batch(
            store,
            keys,
            files,
            present,
            peer_device_id,
            batch,
            limits,
            now,
        ).1 {
            Ok(report) => report.records_committed + report.records_replayed
                <= batch.records.len(),
            Err(_) => true,
        },
{
    if let Ok(view) = validated_batch(batch, limits) {
        law_accepted_batch_is_ordered(batch, limits);
        lemma_counts(store, keys, files, present, view.records, now);
        let (after, result) = incoming_changes(store, keys, files, present, view.records, now);
        if let Ok(tally) = result {
            lemma_settled_counts(
                after,
                keys.group_id,
                peer_device_id,
                present,
                view,
                tally,
                watermark_at(store, keys.group_id, peer_device_id),
                now,
            );
        }
    }
}

proof fn lemma_settled_counts(
    store: StoreView,
    group_id: GroupId,
    peer_device_id: DeviceId,
    present: Seq<ContentId>,
    batch: BatchView,
    tally: Tally,
    known: u64,
    now: i64,
)
    ensures
        settled_batch(
            store,
            group_id,
            peer_device_id,
            present,
            batch,
            tally,
            known,
            now,
        ).1 matches Ok(report) ==> report.records_committed == tally.committed
            && report.records_replayed == tally.replayed,
{
}

proof fn lemma_counts(
    store: StoreView,
    keys: KeysView,
    files: Seq<(ContentId, Seq<u8>)>,
    present: Seq<ContentId>,
    changes: Seq<ChangeView>,
    now: i64,
)
    ensures
        incoming_changes(store, keys, files, present, changes, now).1 matches Ok(tally)
            ==> tally.committed + tally.replayed <= changes.len(),
    decreases changes.len(),
{
    if changes.len() > 0 {
        lemma_counts(store, keys, files, present, changes.drop_last(), now);
    }
}

} // verus!
