//! How what one device does fits what another, or the same one later, makes of it.
use vstd::prelude::*;

use crate::batch::{
    object_problem, validated_batch, validated_change, validated_changes, ChangeView,
};
use crate::catalog::{
    ChangeRow, HeadRow, PathKey, PeerObjectKey, RequestRow, RevisionKey, StoreError, TransferRow,
};
use crate::envelope::{parsed_envelope, ObjectKind};
use crate::exchange::{outgoing_batch, outgoing_changes};
use crate::history::{
    change_page, changes_of, head_at, high_watermark, local_change_committed, LocalHead,
    StoredChange,
};
use crate::identity::AuthorizationView;
use crate::ids::{lemma_uuid_bytes, uuid_of_bytes, ContentId, DeviceId, GroupId, PathId};
use crate::keys::KeysView;
use crate::oneof::ControlMessageView;
use crate::opening::{opens_to, SealedView};
use crate::order::ordered_ids;
use crate::path::PathForms;
use crate::protocol::LimitsView;
use crate::pull::{object_begun, offer_accepted, ObjectReceipt, ObjectStepView};
use crate::record::{ManifestView, RecordView};
use crate::scan::{
    chunk_ingested, is_fresh_revision, is_unchanged, local_record, local_record_committed,
    ChunkFate, IngestedView, ScanProblem,
};
use crate::serve::{object_served, ServeActionView};
use crate::store::{
    after_look, completion_verdict, loaded, with_appended, with_authentication, with_completion,
    with_object, with_transfer_row, Admission, StoreView,
};
use crate::store_laws::{is_consistent, is_numbered, law_read_gives_back_what_was_written};
use crate::table::{lemma_lookup_put, lookup};
use crate::transfer::{range_request_of, ValidatedObjectRangeRequest};
use crate::transport::{enveloped, TransportProblem};
use crate::wire::EncryptedChangeView;

verus! {

proof fn lemma_entries_are_numbered(
    changes: Seq<ChangeRow>,
    group_id: GroupId,
    after_sequence: u64,
)
    requires
        is_numbered(changes),
    ensures
        ({
            let entries = changes_of(changes, group_id, after_sequence);
            &&& forall|i: int, j: int|
                0 <= i < j < entries.len() ==> (#[trigger] entries[i]).sequence < (
                #[trigger] entries[j]).sequence
            &&& forall|i: int|
                0 <= i < entries.len() ==> 0 < (#[trigger] entries[i]).sequence <= high_watermark(
                    changes,
                    group_id,
                )
            &&& changes.len() > 0 ==> forall|i: int|
                0 <= i < entries.len() ==> (#[trigger] entries[i]).sequence
                    <= changes.last().sequence
        }),
    decreases changes.len(),
{
    if changes.len() > 0 {
        let front = changes.drop_last();
        assert forall|i: int, j: int| 0 <= i < j < front.len() implies (
        #[trigger] front[i]).sequence < (#[trigger] front[j]).sequence by {
            assert(changes[i].sequence < changes[j].sequence);
        }
        assert forall|i: int| 0 <= i < front.len() implies 0 < (#[trigger] front[i]).sequence
            <= i64::MAX by {
            assert(0 < changes[i].sequence);
        }
        lemma_entries_are_numbered(front, group_id, after_sequence);
        let row = changes[changes.len() - 1];
        let before = changes_of(front, group_id, after_sequence);
        let entries = changes_of(changes, group_id, after_sequence);
        assert(0 < row.sequence);
        assert forall|i: int| 0 <= i < before.len() implies (#[trigger] before[i]).sequence
            < row.sequence by {
            assert(changes[front.len() - 1].sequence < row.sequence);
        }
        assert forall|i: int, j: int| 0 <= i < j < entries.len() implies (
        #[trigger] entries[i]).sequence < (#[trigger] entries[j]).sequence by {
            assert(entries[i] == before[i]);
            if j < before.len() {
                assert(entries[j] == before[j]);
            }
        }
        assert forall|i: int| 0 <= i < entries.len() implies 0 < (#[trigger] entries[i]).sequence
            <= high_watermark(changes, group_id) && entries[i].sequence <= row.sequence by {
            if i < before.len() {
                assert(entries[i] == before[i]);
            }
        }
    }
}

proof fn lemma_outgoing_changes(
    store: StoreView,
    keys: KeysView,
    files: Seq<(ContentId, Seq<u8>)>,
    changes: Seq<StoredChange>,
)
    requires
        outgoing_changes(store, keys, files, changes).1 is Ok,
    ensures
        ({
            let records = outgoing_changes(store, keys, files, changes).1->Ok_0;
            &&& records.len() == changes.len()
            &&& forall|i: int|
                0 <= i < records.len() ==> is_sent_as(changes[i], #[trigger] records[i])
        }),
    decreases changes.len(),
{
    if changes.len() > 0 {
        let front = changes.drop_last();
        lemma_outgoing_changes(store, keys, files, front);
        let before = outgoing_changes(store, keys, files, front).1->Ok_0;
        let records = outgoing_changes(store, keys, files, changes).1->Ok_0;
        assert(records =~= before.push(records.last()));
        let change = changes.last();
        let row = lookup(
            outgoing_changes(store, keys, files, front).0.authentications,
            RevisionKey { group_id: keys.group_id, revision_id: change.revision_id },
        )->0;
        lemma_uuid_bytes(row.authorization.author_device_id.value);
        assert(is_sent_as(changes.last(), records.last()));
        assert forall|i: int| 0 <= i < records.len() implies is_sent_as(
            changes[i],
            #[trigger] records[i],
        ) by {
            if i < before.len() {
                assert(front[i] == changes[i]);
                assert(before[i] == records[i]);
            }
        }
    }
}

/// A message carries an entry of the log with its manifest.
pub open spec fn is_sent_as(change: StoredChange, record: EncryptedChangeView) -> bool {
    &&& record.sequence == change.sequence
    &&& record.revision_id == change.revision_id.spec_bytes()
    &&& record.content_id == change.content_id@
    &&& record.author_device_id.len() == 16
    &&& forall|index: int, limits: LimitsView|
        record.encrypted_record.len() <= limits.maximum_encrypted_object_bytes
            ==> #[trigger] object_problem(
            index,
            change.content_id,
            record.encrypted_record,
            limits,
        ) is None
}

/// A message can be read under the given limits: no identifier in it is nil, its signature has its
/// length, and its manifest is not too large.
pub open spec fn is_readable(record: EncryptedChangeView, limits: LimitsView) -> bool {
    &&& uuid_of_bytes(record.revision_id) != 0
    &&& uuid_of_bytes(record.author_device_id) != 0
    &&& record.signature.len() == 64
    &&& record.encrypted_record.len() <= limits.maximum_encrypted_object_bytes
}

/// What is read of a message is the entry of the log that it carries.
pub open spec fn is_read_as(change: StoredChange, view: ChangeView) -> bool {
    &&& view.sequence == change.sequence
    &&& view.revision_id == change.revision_id
    &&& view.content_id == change.content_id
}

proof fn lemma_sent_changes_are_read(
    changes: Seq<StoredChange>,
    records: Seq<EncryptedChangeView>,
    limits: LimitsView,
)
    requires
        records.len() == changes.len(),
        forall|i: int| 0 <= i < records.len() ==> is_sent_as(changes[i], #[trigger] records[i]),
        forall|i: int| 0 <= i < records.len() ==> is_readable(#[trigger] records[i], limits),
        forall|i: int, j: int|
            0 <= i < j < changes.len() ==> (#[trigger] changes[i]).sequence < (
            #[trigger] changes[j]).sequence,
        forall|i: int| 0 <= i < changes.len() ==> 0 < (#[trigger] changes[i]).sequence,
    ensures
        validated_changes(records, limits) matches Ok(views) && {
            &&& views.len() == changes.len()
            &&& forall|i: int| 0 <= i < views.len() ==> is_read_as(changes[i], #[trigger] views[i])
        },
    decreases records.len(),
{
    if records.len() > 0 {
        let front = records.drop_last();
        let earlier = changes.drop_last();
        assert forall|i: int| 0 <= i < front.len() implies is_sent_as(
            earlier[i],
            #[trigger] front[i],
        ) by {
            assert(is_sent_as(changes[i], records[i]));
        }
        assert forall|i: int| 0 <= i < front.len() implies is_readable(#[trigger] front[i], limits) by {
            assert(is_readable(records[i], limits));
        }
        lemma_sent_changes_are_read(earlier, front, limits);
        let views = validated_changes(front, limits)->Ok_0;
        let index = records.len() - 1;
        let change = changes[index];
        let record = records[index];
        assert(is_sent_as(change, record) && is_readable(record, limits));
        let previous = crate::batch::last_sequence(views);
        if index > 0 {
            assert(is_read_as(earlier[index - 1], views[index - 1]));
            assert(changes[index - 1].sequence < changes[index].sequence);
        }
        assert(previous < record.sequence);
        lemma_uuid_bytes(change.revision_id.value);
        change.content_id.lemma_view();
        assert(object_problem(index, change.content_id, record.encrypted_record, limits) is None);
        let last = validated_change(index, previous, record, limits);
        assert(last is Ok && is_read_as(change, last->Ok_0));
        let all = validated_changes(records, limits)->Ok_0;
        assert(all =~= views.push(last->Ok_0));
        assert forall|i: int| 0 <= i < all.len() implies is_read_as(changes[i], #[trigger] all[i]) by {
            if i < views.len() {
                assert(is_read_as(earlier[i], views[i]));
            }
        }
    }
}

/// What a device sends of its log is accepted by a peer with the same limits, which reads the same
/// entries of the log from it. Identifiers that are nil, signatures of another length and
/// manifests beyond the limit are left out.
pub proof fn law_sent_batch_is_accepted(
    store: StoreView,
    keys: KeysView,
    files: Seq<(ContentId, Seq<u8>)>,
    after_sequence: u64,
    maximum: nat,
    limits: LimitsView,
)
    requires
        is_consistent(store),
        maximum <= limits.maximum_change_records_per_batch,
        outgoing_batch(store, keys, files, after_sequence, maximum).1 matches Ok(batch)
            && forall|i: int|
            0 <= i < batch.records.len() ==> is_readable(#[trigger] batch.records[i], limits),
    ensures
        ({
            let batch = outgoing_batch(store, keys, files, after_sequence, maximum).1->Ok_0;
            let page = change_page(store, keys.group_id, after_sequence, maximum)->Ok_0;
            &&& validated_batch(batch, limits) matches Ok(accepted)
            &&& accepted.high_watermark == page.high_watermark
            &&& accepted.has_more == batch.has_more
            &&& accepted.records.len() == page.records.len()
            &&& forall|i: int|
                0 <= i < page.records.len() ==> is_read_as(
                    page.records[i],
                    #[trigger] accepted.records[i],
                )
        }),
{
    let batch = outgoing_batch(store, keys, files, after_sequence, maximum).1->Ok_0;
    let page = change_page(store, keys.group_id, after_sequence, maximum)->Ok_0;
    let entries = changes_of(store.changes, keys.group_id, after_sequence);
    lemma_entries_are_numbered(store.changes, keys.group_id, after_sequence);
    assert forall|i: int| 0 <= i < page.records.len() implies #[trigger] page.records[i]
        == entries[i] by {}
    lemma_outgoing_changes(store, keys, files, page.records);
    assert(batch.records.len() == page.records.len());
    lemma_sent_changes_are_read(page.records, batch.records, limits);
    let views = validated_changes(batch.records, limits)->Ok_0;
    if views.len() > 0 {
        let index = views.len() - 1;
        assert(is_read_as(page.records[index], views[index]));
        assert(0 < page.records[index].sequence);
    }
}

/// A chunk that a scan has stored is reused by every later one, and the store stays as it is.
pub proof fn law_stored_chunk_is_reused(
    store: StoreView,
    keys: KeysView,
    content_id: ContentId,
    plaintext: Seq<u8>,
    file: Option<Seq<u8>>,
    nonce: Seq<u8>,
    now: i64,
    bytes: Seq<u8>,
    later_nonce: Seq<u8>,
    later: i64,
)
    requires
        chunk_ingested(store, keys, content_id, plaintext, file, nonce, now).1 == Ok::<
            ChunkFate,
            ScanProblem,
        >(ChunkFate::Stored(bytes)),
    ensures
        ({
            let after = chunk_ingested(store, keys, content_id, plaintext, file, nonce, now).0;
            chunk_ingested(after, keys, content_id, plaintext, Some(bytes), later_nonce, later) == (
                after,
                Ok::<ChunkFate, ScanProblem>(ChunkFate::Reused),
            )
        }),
{
    let looked = after_look(store, keys.group_id, content_id, file is Some);
    law_read_gives_back_what_was_written(
        looked,
        keys,
        ObjectKind::Chunk,
        content_id,
        bytes,
        file,
        now,
    );
}

/// A record that was committed is the head of its path, and is what a later scan loads of it,
/// which leaves the store as it is.
pub proof fn law_committed_record_is_loaded(
    store: StoreView,
    keys: KeysView,
    record: RecordView,
    sealed: SealedView,
    path_id: PathId,
    expected_previous: Option<ContentId>,
    authorization: AuthorizationView,
    now: i64,
    files: Seq<(ContentId, Seq<u8>)>,
)
    requires
        opens_to(keys, sealed, record),
        keys.path_id(record.path().comparison_key) == path_id,
        local_record_committed(
            store,
            keys,
            record,
            sealed.content_id,
            sealed.bytes,
            path_id,
            expected_previous,
            authorization,
            None,
            now,
        ).1 is None,
        lookup(files, sealed.content_id) == Some(sealed.bytes),
    ensures
        ({
            let after = local_record_committed(
                store,
                keys,
                record,
                sealed.content_id,
                sealed.bytes,
                path_id,
                expected_previous,
                authorization,
                None,
                now,
            ).0;
            let head = LocalHead { path_id, content_id: sealed.content_id, kind: record.kind() };
            &&& head_at(after, keys.group_id, path_id) == Some(head)
            &&& local_record(after, keys, files, head) == (
                after,
                Ok::<RecordView, ScanProblem>(record),
            )
        }),
{
    let group_id = keys.group_id;
    let written = with_object(
        store,
        keys,
        ObjectKind::Manifest,
        sealed.content_id,
        sealed.bytes,
        None,
        now,
    );
    law_read_gives_back_what_was_written(
        store,
        keys,
        ObjectKind::Manifest,
        sealed.content_id,
        sealed.bytes,
        None,
        now,
    );
    let signed = with_authentication(
        written,
        group_id,
        record.revision_id(),
        sealed.content_id,
        authorization,
    );
    let chunks = ordered_ids(record.chunk_ids());
    let after = local_change_committed(
        signed,
        group_id,
        path_id,
        expected_previous,
        record.revision_id(),
        record.kind(),
        sealed.content_id,
        chunks,
    ).0;
    lemma_lookup_put(
        signed.heads,
        PathKey { group_id, path_id },
        HeadRow { content_id: sealed.content_id, kind: record.kind() },
        PathKey { group_id, path_id },
    );
    assert(after.objects == written.objects);
}

/// A file that is read again as it was when its revision was recorded has no further revision:
/// what the head of its path says of it is what was read.
pub proof fn law_repeated_scan_changes_nothing(
    store: StoreView,
    keys: KeysView,
    previous: Option<RecordView>,
    path: PathForms,
    file: IngestedView,
    device_id: DeviceId,
    manifest: ManifestView,
    sealed: SealedView,
    expected_previous: Option<ContentId>,
    authorization: AuthorizationView,
    now: i64,
    files: Seq<(ContentId, Seq<u8>)>,
)
    requires
        is_fresh_revision(previous, path, file, device_id, manifest),
        opens_to(keys, sealed, RecordView::File(manifest)),
        local_record_committed(
            store,
            keys,
            RecordView::File(manifest),
            sealed.content_id,
            sealed.bytes,
            keys.path_id(path.comparison_key),
            expected_previous,
            authorization,
            None,
            now,
        ).1 is None,
        lookup(files, sealed.content_id) == Some(sealed.bytes),
    ensures
        ({
            let path_id = keys.path_id(path.comparison_key);
            let after = local_record_committed(
                store,
                keys,
                RecordView::File(manifest),
                sealed.content_id,
                sealed.bytes,
                path_id,
                expected_previous,
                authorization,
                None,
                now,
            ).0;
            &&& head_at(after, keys.group_id, path_id) matches Some(head)
            &&& local_record(after, keys, files, head).0 == after
            &&& local_record(after, keys, files, head).1 matches Ok(record)
            &&& is_unchanged(record, path, file)
        }),
{
    law_committed_record_is_loaded(
        store,
        keys,
        RecordView::File(manifest),
        sealed,
        keys.path_id(path.comparison_key),
        expected_previous,
        authorization,
        now,
        files,
    );
}

/// So many bytes of an object of the given size, which was asked of a peer, have arrived.
pub open spec fn has_arrived(
    store: StoreView,
    key: PeerObjectKey,
    encrypted_size: nat,
    received_size: u64,
) -> bool {
    &&& lookup(store.requests, key) is Some
    &&& match lookup(store.transfers, key) {
        None => received_size == 0,
        Some(row) => {
            &&& row.request_id != 0
            &&& row.encrypted_size == encrypted_size
            &&& row.received_size == received_size
        },
    }
}

/// What is asked of a peer is the rest of the object: the request starts where the transfer has
/// stopped, and the transfer stays as it is.
pub proof fn law_request_starts_where_the_transfer_stopped(
    store: StoreView,
    keys: KeysView,
    peer_device_id: DeviceId,
    content_id: ContentId,
    request_id: u128,
    limits: LimitsView,
    encrypted_size: nat,
    received_size: u64,
    file: Option<Seq<u8>>,
    existing: Option<Seq<u8>>,
    now: i64,
)
    requires
        request_id != 0,
        has_arrived(
            store,
            PeerObjectKey { group_id: keys.group_id, peer_device_id, content_id },
            encrypted_size,
            received_size,
        ),
        received_size < encrypted_size,
    ensures
        ({
            let key = PeerObjectKey { group_id: keys.group_id, peer_device_id, content_id };
            let (after, result) = object_begun(
                store,
                keys,
                peer_device_id,
                content_id,
                request_id,
                limits,
                file,
                existing,
                now,
            );
            &&& has_arrived(after, key, encrypted_size, received_size)
            &&& result matches Ok(step) ==> step == (ObjectStepView::Ask {
                envelope: enveloped(
                    ControlMessageView::ObjectRangeRequest(
                        range_request_of(request_id, content_id, received_size),
                    ),
                ),
                request: ValidatedObjectRangeRequest {
                    request_id,
                    content_id,
                    start_offset: received_size,
                },
            })
        }),
{
    let key = PeerObjectKey { group_id: keys.group_id, peer_device_id, content_id };
    lemma_uuid_bytes(request_id);
    content_id.lemma_view();
    let row = lookup(store.requests, key)->0;
    lemma_lookup_put(
        store.requests,
        key,
        RequestRow {
            attempt_count: (row.attempt_count + 1) as u64,
            last_attempt_at_unix_ms: Some(now),
            ..row
        },
        key,
    );
}

/// An object whose transfer was interrupted arrives whole: the peer sends what is still to come,
/// the bytes that had arrived and those that are sent make up the object, and it is accepted and
/// read as it is.
pub proof fn law_interrupted_object_arrives_whole(
    receiver: StoreView,
    sender: StoreView,
    keys: KeysView,
    peer_device_id: DeviceId,
    content_id: ContentId,
    request_id: u128,
    limits: LimitsView,
    bytes: Seq<u8>,
    received_size: u64,
    files: Seq<(ContentId, Seq<u8>)>,
    now: i64,
)
    requires
        request_id != 0,
        has_arrived(
            receiver,
            PeerObjectKey { group_id: keys.group_id, peer_device_id, content_id },
            bytes.len(),
            received_size,
        ),
        lookup(files, content_id) == Some(bytes),
        object_served(
            sender,
            keys,
            files,
            range_request_of(request_id, content_id, received_size),
            limits,
        ).1 is Ok,
    ensures
        ({
            let group_id = keys.group_id;
            let key = PeerObjectKey { group_id, peer_device_id, content_id };
            let request = ValidatedObjectRangeRequest {
                request_id,
                content_id,
                start_offset: received_size,
            };
            let kind = parsed_envelope(bytes)->Ok_0.kind;
            &&& object_served(
                sender,
                keys,
                files,
                range_request_of(request_id, content_id, received_size),
                limits,
            ).1->Ok_0 matches ServeActionView::Send { offer, transfer, encrypted_bytes }
            &&& bytes.take(received_size as int) + encrypted_bytes == bytes
            &&& offer_accepted(receiver, group_id, peer_device_id, offer, request, limits, false).1
                == Ok::<ObjectReceipt, TransportProblem>(
                ObjectReceipt { transfer, offset: received_size, persist: true },
            )
            &&& ({
                let begun = offer_accepted(
                    receiver,
                    group_id,
                    peer_device_id,
                    offer,
                    request,
                    limits,
                    false,
                ).0;
                let arrived = with_appended(
                    begun,
                    group_id,
                    peer_device_id,
                    content_id,
                    received_size,
                    encrypted_bytes.len(),
                    Some(received_size),
                );
                let after = with_completion(
                    arrived,
                    keys,
                    peer_device_id,
                    content_id,
                    Some(bytes),
                    None,
                    now,
                );
                &&& has_arrived(arrived, key, bytes.len(), bytes.len() as u64)
                &&& completion_verdict(
                    arrived,
                    keys,
                    peer_device_id,
                    content_id,
                    Some(bytes),
                    None,
                ) == Ok::<Admission, StoreError>(Admission::Stored)
                &&& loaded(after, keys, kind, content_id, Some(bytes)) == Ok::<
                    Seq<u8>,
                    StoreError,
                >(bytes)
            })
        }),
{
    let group_id = keys.group_id;
    let key = PeerObjectKey { group_id, peer_device_id, content_id };
    lemma_uuid_bytes(request_id);
    content_id.lemma_view();
    let rest = bytes.skip(received_size as int);
    assert(bytes.take(received_size as int) + rest =~= bytes);
    let encrypted_size = bytes.len() as u64;
    let row = TransferRow { request_id, encrypted_size, received_size };
    let looked = after_look(receiver, group_id, content_id, false);
    lemma_lookup_put(looked.transfers, key, row, key);
    let begun = with_transfer_row(looked, group_id, peer_device_id, content_id, row);
    let whole = TransferRow { received_size: encrypted_size, ..row };
    lemma_lookup_put(begun.transfers, key, whole, key);
    let arrived = with_transfer_row(begun, group_id, peer_device_id, content_id, whole);
    let kind = parsed_envelope(bytes)->Ok_0.kind;
    law_read_gives_back_what_was_written(arrived, keys, kind, content_id, bytes, None, now);
}

} // verus!
