//! What becomes of the store when two devices talk: what a change, a batch or an object leaves
//! behind, and what is sent without leaving anything.
use vstd::prelude::*;

use crate::batch::{validated_batch, ChangeView};
use crate::catalog::{
    MemberStatus, ObjectKey, ObjectRow, PeerObjectKey, RevisionKey, StoreError, TransferRow,
};
use crate::envelope::{parsed_envelope, ObjectKind};
use crate::exchange::{
    after_looks, incoming_batch, incoming_change, incoming_changes, incoming_chunks, missing_of,
    outgoing_change, outgoing_changes, settled_batch, AdmissionProblem, AdmissionReportView,
    ChangeBatchBuildError, ChangeFate, Tally,
};
use crate::history::{change_page, signed_change_committed, watermark_at, StoredChange};
use crate::ids::{ContentId, DeviceId, GroupId};
use crate::keys::KeysView;
use crate::opening::opened_record;
use crate::order::ordered_ids;
use crate::protocol::LimitsView;
use crate::pull::{object_begun, ObjectReceipt, ObjectStepView};
use crate::record::RecordView;
use crate::serve::{object_served, page_served};
use crate::store::{
    admission_verdict, after_load, after_look, authentication_verdict, completion_verdict,
    discarded_files, is_discarded, is_present, loaded, lost_objects, member_at, recovered_row,
    recovered_transfers, with_appended, with_authentication, with_completion, with_object,
    with_request, with_requests, with_transfer, Admission, StoreView, TransferFile,
};
use crate::table::{lemma_lookup_put, lookup};
use crate::transfer::range_requested;
use crate::transport::TransportProblem;
use crate::wire::{ChangeBatchView, ChangeLogRequestView, ObjectRangeRequestView};

verus! {

/// What a change leaves in the store: nothing where its record is not genuine, the record alone
/// where its signature does not count, and else the record, the signature and what its chunks
/// decide.
pub proof fn law_change_leaves_what_is_genuine_of_it(
    store: StoreView,
    keys: KeysView,
    files: Seq<(ContentId, Seq<u8>)>,
    present: Seq<ContentId>,
    change: ChangeView,
    now: i64,
)
    ensures
        ({
            let (after, result) = incoming_change(store, keys, files, present, change, now);
            let opened = opened_record(keys, change.content_id, change.encrypted_record);
            let existing = lookup(files, change.content_id);
            let verdict = admission_verdict(
                keys,
                ObjectKind::Manifest,
                change.content_id,
                change.encrypted_record,
                existing,
            );
            let admitted = with_object(
                store,
                keys,
                ObjectKind::Manifest,
                change.content_id,
                change.encrypted_record,
                existing,
                now,
            );
            let signed = authentication_verdict(
                admitted,
                keys.group_id,
                change.revision_id,
                change.content_id,
                change.authorization,
            );
            if opened is Err || opened->Ok_0.revision_id() != change.revision_id || verdict is Err {
                after == store && result is Err
            } else if signed is Err {
                &&& after == admitted
                &&& result matches Err(AdmissionProblem::Store(error)) && error == signed->Err_0
            } else {
                (after, result) == incoming_chunks(
                    with_authentication(
                        admitted,
                        keys.group_id,
                        change.revision_id,
                        change.content_id,
                        change.authorization,
                    ),
                    keys,
                    present,
                    change,
                    opened->Ok_0,
                    if verdict->Ok_0 == Admission::AlreadyPresent {
                        existing
                    } else {
                        Some(change.encrypted_record)
                    },
                    now,
                )
            }
        }),
{
    reveal(incoming_change);
}

/// A change all of whose chunks are there is committed: it counts as committed the first time and
/// as known from then on, and what hinders the commitment is reported.
pub proof fn law_change_with_all_chunks_is_committed(
    store: StoreView,
    keys: KeysView,
    present: Seq<ContentId>,
    change: ChangeView,
    record: RecordView,
    existing: Option<Seq<u8>>,
    now: i64,
)
    requires
        forall|id: ContentId| #[trigger]
            record.chunk_ids().contains(id) ==> is_present(
                store,
                keys.group_id,
                id,
                present.contains(id),
            ),
        admission_verdict(
            keys,
            ObjectKind::Manifest,
            change.content_id,
            change.encrypted_record,
            existing,
        ) is Ok,
    ensures
        ({
            let (after, result) = incoming_chunks(
                store,
                keys,
                present,
                change,
                record,
                existing,
                now,
            );
            let (committed, commit) = signed_change_committed(
                with_object(
                    store,
                    keys,
                    ObjectKind::Manifest,
                    change.content_id,
                    change.encrypted_record,
                    existing,
                    now,
                ),
                keys.group_id,
                change.revision_id,
                change.content_id,
                change.authorization,
                ordered_ids(ordered_ids(record.chunk_ids())),
            );
            &&& after == committed
            &&& match commit {
                Err(error) => result == Err::<ChangeFate, AdmissionProblem>(
                    AdmissionProblem::Store(error),
                ),
                Ok(commit) => {
                    &&& commit.inserted <==> result == Ok::<ChangeFate, AdmissionProblem>(
                        ChangeFate::Committed,
                    )
                    &&& !commit.inserted <==> result == Ok::<ChangeFate, AdmissionProblem>(
                        ChangeFate::Replayed,
                    )
                },
            }
        }),
{
    let chunks = ordered_ids(record.chunk_ids());
    crate::order::lemma_ordered_ids(record.chunk_ids());
    assert forall|i: int| 0 <= i < chunks.len() implies is_present(
        store,
        keys.group_id,
        #[trigger] chunks[i],
        present.contains(chunks[i]),
    ) by {
        assert(chunks.contains(chunks[i]));
        assert(record.chunk_ids().contains(chunks[i]));
    }
    lemma_all_there(store, keys.group_id, chunks, present);
}

proof fn lemma_all_there(
    store: StoreView,
    group_id: GroupId,
    chunks: Seq<ContentId>,
    present: Seq<ContentId>,
)
    requires
        forall|i: int|
            0 <= i < chunks.len() ==> is_present(
                store,
                group_id,
                #[trigger] chunks[i],
                present.contains(chunks[i]),
            ),
    ensures
        after_looks(store, group_id, chunks, present) == store,
        missing_of(store, group_id, chunks, present).len() == 0,
    decreases chunks.len(),
{
    if chunks.len() > 0 {
        let front = chunks.drop_last();
        assert forall|i: int| 0 <= i < front.len() implies is_present(
            store,
            group_id,
            #[trigger] front[i],
            present.contains(front[i]),
        ) by {
            assert(front[i] == chunks[i]);
        }
        lemma_all_there(store, group_id, front, present);
        assert(chunks.last() == chunks[chunks.len() - 1]);
    }
}

/// Changes are taken in one after the other, each in the store that the one before has left; the
/// first that is refused ends it, and each that is not is counted as what became of it.
pub proof fn law_changes_are_taken_in_one_by_one(
    store: StoreView,
    keys: KeysView,
    files: Seq<(ContentId, Seq<u8>)>,
    present: Seq<ContentId>,
    changes: Seq<ChangeView>,
    change: ChangeView,
    now: i64,
)
    ensures
        incoming_changes(store, keys, files, present, seq![], now) == (
            store,
            Ok::<Tally, AdmissionProblem>(Tally { committed: 0, replayed: 0, missing: seq![] }),
        ),
        ({
            let (before, earlier) = incoming_changes(store, keys, files, present, changes, now);
            let (after, result) = incoming_changes(
                store,
                keys,
                files,
                present,
                changes.push(change),
                now,
            );
            match earlier {
                Err(problem) => after == before && result == Err::<Tally, AdmissionProblem>(
                    problem,
                ),
                Ok(tally) => {
                    let (taken, fate) = incoming_change(before, keys, files, present, change, now);
                    &&& after == taken
                    &&& match fate {
                        Err(problem) => result == Err::<Tally, AdmissionProblem>(problem),
                        Ok(fate) => result matches Ok(sum) && {
                            &&& sum.committed == tally.committed + if fate is Committed {
                                1int
                            } else {
                                0
                            }
                            &&& sum.replayed == tally.replayed + if fate is Replayed {
                                1int
                            } else {
                                0
                            }
                            &&& sum.missing == match fate {
                                ChangeFate::Missing(ids) => tally.missing + ids,
                                _ => tally.missing,
                            }
                        },
                    }
                },
            }
        }),
{
    assert(changes.push(change).drop_last() =~= changes);
}

/// A well-formed batch of an active member is taken in change by change and then settled, by what
/// was on record of the member before.
pub proof fn law_batch_of_a_member_is_taken_in(
    store: StoreView,
    keys: KeysView,
    files: Seq<(ContentId, Seq<u8>)>,
    present: Seq<ContentId>,
    peer_device_id: DeviceId,
    batch: ChangeBatchView,
    limits: LimitsView,
    now: i64,
)
    requires
        member_at(store, keys.group_id, peer_device_id) matches Ok(Some(member)) && member.status
            == MemberStatus::Active,
    ensures
        ({
            let (after, result) = incoming_batch(
                store,
                keys,
                files,
                present,
                peer_device_id,
                batch,
                limits,
                now,
            );
            match validated_batch(batch, limits) {
                Err(error) => after == store && result == Err::<
                    AdmissionReportView,
                    AdmissionProblem,
                >(AdmissionProblem::Protocol(error)),
                Ok(validated) => {
                    let (taken, tally) = incoming_changes(
                        store,
                        keys,
                        files,
                        present,
                        validated.records,
                        now,
                    );
                    match tally {
                        Err(problem) => after == taken && result == Err::<
                            AdmissionReportView,
                            AdmissionProblem,
                        >(problem),
                        Ok(tally) => (after, result) == settled_batch(
                            taken,
                            keys.group_id,
                            peer_device_id,
                            present,
                            validated,
                            tally,
                            watermark_at(store, keys.group_id, peer_device_id),
                            now,
                        ),
                    }
                },
            }
        }),
{
}

/// Where chunks are missing, the peer is asked for them, and nothing is recorded of how far it
/// has been followed.
pub proof fn law_missing_chunks_are_asked_of_the_peer(
    store: StoreView,
    group_id: GroupId,
    peer_device_id: DeviceId,
    present: Seq<ContentId>,
    batch: crate::batch::BatchView,
    tally: Tally,
    known: u64,
    now: i64,
)
    requires
        tally.missing.len() > 0,
    ensures
        ({
            let (after, result) = settled_batch(
                store,
                group_id,
                peer_device_id,
                present,
                batch,
                tally,
                known,
                now,
            );
            &&& result is Ok
            &&& after == with_requests(
                store,
                group_id,
                peer_device_id,
                ordered_ids(ordered_ids(tally.missing)),
                present,
                now,
            ).0
        }),
{
}

/// A change can be sent: it is signed for its contents, and its record is there and genuine.
pub open spec fn can_be_sent(
    store: StoreView,
    keys: KeysView,
    files: Seq<(ContentId, Seq<u8>)>,
    change: StoredChange,
) -> bool {
    &&& lookup(
        store.authentications,
        RevisionKey { group_id: keys.group_id, revision_id: change.revision_id },
    ) matches Some(row) && row.content_id == change.content_id
    &&& loaded(
        store,
        keys,
        ObjectKind::Manifest,
        change.content_id,
        lookup(files, change.content_id),
    ) is Ok
}

/// Sending a change leaves the store as it is; a record that turns out not to be genuine is marked
/// as lost.
pub proof fn law_sending_a_change_leaves_the_store(
    store: StoreView,
    keys: KeysView,
    files: Seq<(ContentId, Seq<u8>)>,
    change: StoredChange,
)
    ensures
        ({
            let (after, result) = outgoing_change(store, keys, files, change);
            &&& result is Ok <==> can_be_sent(store, keys, files, change)
            &&& result is Ok ==> after == store
            &&& match result {
                Err(ChangeBatchBuildError::Store(_)) => after == after_load(
                    store,
                    keys,
                    ObjectKind::Manifest,
                    change.content_id,
                    lookup(files, change.content_id),
                ),
                _ => after == store,
            }
        }),
{
}

/// A page is sent where it may be asked for and each of its changes can be sent, and leaves the
/// store as it is.
pub proof fn law_page_of_sound_changes_is_sent(
    store: StoreView,
    keys: KeysView,
    files: Seq<(ContentId, Seq<u8>)>,
    request: ChangeLogRequestView,
    limits: LimitsView,
)
    requires
        1 <= request.maximum_records <= limits.maximum_change_records_per_batch,
        change_page(
            store,
            keys.group_id,
            request.after_sequence,
            request.maximum_records as nat,
        ) matches Ok(page) && forall|i: int|
            0 <= i < page.records.len() ==> can_be_sent(
                store,
                keys,
                files,
                #[trigger] page.records[i],
            ),
    ensures
        page_served(store, keys, files, request, limits).0 == store,
        page_served(store, keys, files, request, limits).1 is Ok,
{
    let page = change_page(
        store,
        keys.group_id,
        request.after_sequence,
        request.maximum_records as nat,
    )->Ok_0;
    lemma_sound_changes(store, keys, files, page.records);
}

proof fn lemma_sound_changes(
    store: StoreView,
    keys: KeysView,
    files: Seq<(ContentId, Seq<u8>)>,
    changes: Seq<StoredChange>,
)
    requires
        forall|i: int|
            0 <= i < changes.len() ==> can_be_sent(store, keys, files, #[trigger] changes[i]),
    ensures
        outgoing_changes(store, keys, files, changes).0 == store,
        outgoing_changes(store, keys, files, changes).1 is Ok,
    decreases changes.len(),
{
    if changes.len() > 0 {
        let front = changes.drop_last();
        assert forall|i: int| 0 <= i < front.len() implies can_be_sent(
            store,
            keys,
            files,
            #[trigger] front[i],
        ) by {
            assert(front[i] == changes[i]);
        }
        lemma_sound_changes(store, keys, files, front);
        assert(changes.last() == changes[changes.len() - 1]);
        law_sending_a_change_leaves_the_store(store, keys, files, changes.last());
    }
}

/// Sending an object leaves the store as it is; one whose file is gone is marked as lost.
pub proof fn law_sending_an_object_leaves_the_store(
    store: StoreView,
    keys: KeysView,
    files: Seq<(ContentId, Seq<u8>)>,
    request: ObjectRangeRequestView,
    limits: LimitsView,
)
    ensures
        ({
            let (after, result) = object_served(store, keys, files, request, limits);
            match range_requested(request, limits) {
                Err(error) => {
                    &&& after == store
                    &&& result matches Err(TransportProblem::Protocol(problem)) && problem == error
                },
                Ok(wanted) => if lookup(files, wanted.content_id) is Some {
                    after == store
                } else {
                    &&& after == after_look(store, keys.group_id, wanted.content_id, false)
                    &&& result matches Err(TransportProblem::Store(
                        StoreError::ObjectNotFound { .. },
                    ))
                },
            }
        }),
{
}

/// An object that has arrived whole is completed; otherwise it is asked for, unless the number of
/// attempts cannot be written or what is asked for lies behind every object that is admitted.
pub proof fn law_object_is_completed_or_asked_for(
    store: StoreView,
    keys: KeysView,
    peer_device_id: DeviceId,
    content_id: ContentId,
    request_id: u128,
    limits: LimitsView,
    file: Option<Seq<u8>>,
    existing: Option<Seq<u8>>,
    now: i64,
)
    requires
        request_id != 0,
    ensures
        ({
            let key = PeerObjectKey { group_id: keys.group_id, peer_device_id, content_id };
            let row = lookup(store.transfers, key);
            let (after, result) = object_begun(
                store,
                keys,
                peer_device_id,
                content_id,
                request_id,
                limits,
                file,
                existing,
                now,
            );
            if crate::store::transfer_at(store, keys.group_id, peer_device_id, content_id) is Err {
                after == store && result is Err
            } else if row is Some && row->0.received_size == row->0.encrypted_size {
                &&& after == with_completion(
                    store,
                    keys,
                    peer_device_id,
                    content_id,
                    file,
                    existing,
                    now,
                )
                &&& match completion_verdict(
                    store,
                    keys,
                    peer_device_id,
                    content_id,
                    file,
                    existing,
                ) {
                    Ok(admission) => result matches Ok(ObjectStepView::Done(object))
                        && object.admission == admission,
                    Err(error) => result matches Err(TransportProblem::Store(problem)) && problem
                        == error,
                }
            } else {
                let start: u64 = if row is Some {
                    row->0.received_size
                } else {
                    0
                };
                let exhausted = lookup(store.requests, key) matches Some(asked)
                    && asked.attempt_count >= 0x7fff_ffff_ffff_ffff;
                &&& result is Ok <==> start < limits.maximum_encrypted_object_bytes && !exhausted
                &&& result is Ok ==> result->Ok_0 is Ask
                &&& result is Err ==> after == store
                &&& after == StoreView { requests: after.requests, ..store }
            }
        }),
{
    crate::ids::lemma_uuid_bytes(request_id);
    ContentId::lemma_view(content_id);
}

/// An object that was received is completed, and one that was present leaves the store as it is.
pub proof fn law_received_object_is_completed(
    receipt: ObjectReceipt,
    store: StoreView,
    keys: KeysView,
    peer_device_id: DeviceId,
    received: u64,
    file: Option<Seq<u8>>,
    existing: Option<Seq<u8>>,
    now: i64,
)
    ensures
        receipt.settled(store, keys, peer_device_id, received, file, existing, now).0
            == if receipt.persist {
            with_completion(
                store,
                keys,
                peer_device_id,
                receipt.transfer.content_id,
                file,
                existing,
                now,
            )
        } else {
            store
        },
        receipt.settled(store, keys, peer_device_id, received, file, existing, now).1 is Ok
            <==> !receipt.persist || completion_verdict(
            store,
            keys,
            peer_device_id,
            receipt.transfer.content_id,
            file,
            existing,
        ) is Ok,
{
}

/// Asking for an object changes the requests alone, but that an object whose file is gone is
/// marked as lost.
pub proof fn law_asking_changes_the_requests_alone(
    store: StoreView,
    group_id: GroupId,
    peer_device_id: DeviceId,
    content_id: ContentId,
    file_present: bool,
    now: i64,
)
    ensures
        ({
            let after = with_request(
                store,
                group_id,
                peer_device_id,
                content_id,
                file_present,
                now,
            );
            after == StoreView {
                requests: after.requests,
                ..after_look(store, group_id, content_id, file_present)
            }
        }),
{
}

/// Objects are asked for one after the other, and each that was neither present nor asked for is
/// counted as new.
pub proof fn law_new_requests_are_counted(
    store: StoreView,
    group_id: GroupId,
    peer_device_id: DeviceId,
    content_ids: Seq<ContentId>,
    content_id: ContentId,
    present: Seq<ContentId>,
    now: i64,
)
    ensures
        with_requests(store, group_id, peer_device_id, seq![], present, now) == (store, 0nat),
        ({
            let (before, count) = with_requests(
                store,
                group_id,
                peer_device_id,
                content_ids,
                present,
                now,
            );
            let (after, sum) = with_requests(
                store,
                group_id,
                peer_device_id,
                content_ids.push(content_id),
                present,
                now,
            );
            let asked = lookup(
                before.requests,
                PeerObjectKey { group_id, peer_device_id, content_id },
            ) is Some;
            &&& after == with_request(
                before,
                group_id,
                peer_device_id,
                content_id,
                present.contains(content_id),
                now,
            )
            &&& sum == count + if asked || is_present(
                before,
                group_id,
                content_id,
                present.contains(content_id),
            ) {
                0nat
            } else {
                1nat
            }
        }),
{
    assert(content_ids.push(content_id).drop_last() =~= content_ids);
}

/// A transfer that begins, or goes on, changes its own row alone, but that an object whose file is
/// gone is marked as lost; one that cannot be leaves the store as it is.
pub proof fn law_transfer_changes_its_row_alone(
    store: StoreView,
    group_id: GroupId,
    peer_device_id: DeviceId,
    request_id: u128,
    content_id: ContentId,
    encrypted_size: u64,
    file_present: bool,
    other: PeerObjectKey,
)
    requires
        other != (PeerObjectKey { group_id, peer_device_id, content_id }),
    ensures
        ({
            let after = with_transfer(
                store,
                group_id,
                peer_device_id,
                request_id,
                content_id,
                encrypted_size,
                file_present,
            );
            &&& lookup(after.transfers, other) == lookup(store.transfers, other)
            &&& if request_id == 0 || encrypted_size == 0 || encrypted_size > 67_108_864 {
                after == store
            } else {
                after == StoreView {
                    transfers: after.transfers,
                    ..after_look(store, group_id, content_id, file_present)
                }
            }
        }),
{
    let key = PeerObjectKey { group_id, peer_device_id, content_id };
    let row = lookup(store.transfers, key);
    lemma_lookup_put(
        store.transfers,
        key,
        TransferRow { request_id, encrypted_size, received_size: 0 },
        other,
    );
    if row is Some {
        lemma_lookup_put(
            store.transfers,
            key,
            TransferRow { request_id, encrypted_size, received_size: row->0.received_size },
            other,
        );
    }
}

/// An object that has arrived whole is admitted as what its envelope says it is, like one that was
/// put there otherwise.
pub proof fn law_arrived_object_is_admitted_by_its_envelope(
    store: StoreView,
    keys: KeysView,
    peer_device_id: DeviceId,
    content_id: ContentId,
    file: Option<Seq<u8>>,
    existing: Option<Seq<u8>>,
    now: i64,
)
    requires
        completion_verdict(store, keys, peer_device_id, content_id, file, existing) is Ok,
    ensures
        file is Some,
        parsed_envelope(file->0) is Ok,
        ({
            let kind = parsed_envelope(file->0)->Ok_0.kind;
            &&& completion_verdict(store, keys, peer_device_id, content_id, file, existing)
                == admission_verdict(keys, kind, content_id, file->0, existing)
            &&& with_completion(store, keys, peer_device_id, content_id, file, existing, now)
                == with_object(store, keys, kind, content_id, file->0, existing, now)
        }),
{
}

/// What arrives of an object changes the row of its transfer alone.
pub proof fn law_arriving_bytes_change_their_row_alone(
    store: StoreView,
    group_id: GroupId,
    peer_device_id: DeviceId,
    content_id: ContentId,
    offset: u64,
    count: nat,
    file_size: Option<u64>,
    other: PeerObjectKey,
)
    requires
        other != (PeerObjectKey { group_id, peer_device_id, content_id }),
    ensures
        ({
            let after = with_appended(
                store,
                group_id,
                peer_device_id,
                content_id,
                offset,
                count,
                file_size,
            );
            &&& after == StoreView { transfers: after.transfers, ..store }
            &&& lookup(after.transfers, other) == lookup(store.transfers, other)
        }),
{
    let key = PeerObjectKey { group_id, peer_device_id, content_id };
    let row = lookup(store.transfers, key);
    if row is Some {
        lemma_lookup_put(
            store.transfers,
            key,
            TransferRow { received_size: (offset + count) as u64, ..row->0 },
            other,
        );
    }
}

/// The file of a transfer is thrown away where the transfer is, and of no other.
pub proof fn law_files_go_with_their_transfers(
    rows: Seq<(PeerObjectKey, TransferRow)>,
    files: Seq<TransferFile>,
    key: PeerObjectKey,
)
    ensures
        discarded_files(rows, files).contains(key) <==> exists|i: int|
            0 <= i < rows.len() && (#[trigger] rows[i]).0 == key && is_discarded(
                rows[i].1,
                files[i],
            ),
    decreases rows.len(),
{
    let all = discarded_files(rows, files);
    if rows.len() > 0 {
        let front = rows.drop_last();
        let last = rows.len() - 1;
        law_files_go_with_their_transfers(front, files, key);
        let before = discarded_files(front, files);
        assert(rows[last] == rows.last());
        if all.contains(key) {
            let k = all.index_of(key);
            if k < before.len() {
                assert(before[k] == key);
                let i = choose|i: int|
                    0 <= i < front.len() && (#[trigger] front[i]).0 == key && is_discarded(
                        front[i].1,
                        files[i],
                    );
                assert(rows[i] == front[i]);
            }
        }
        if exists|i: int|
            0 <= i < rows.len() && (#[trigger] rows[i]).0 == key && is_discarded(
                rows[i].1,
                files[i],
            ) {
            let i = choose|i: int|
                0 <= i < rows.len() && (#[trigger] rows[i]).0 == key && is_discarded(
                    rows[i].1,
                    files[i],
                );
            if i < last {
                assert(front[i] == rows[i]);
                let k = before.index_of(key);
                assert(all[k] == key);
            } else {
                assert(all[all.len() - 1] == key);
            }
        }
    }
}

/// Every object that was available and whose file is gone is counted as lost.
pub proof fn law_every_lost_object_is_counted(
    rows: Seq<(ObjectKey, ObjectRow)>,
    row: (ObjectKey, ObjectRow),
    present: Seq<ObjectKey>,
)
    ensures
        lost_objects(seq![], present) == 0,
        lost_objects(rows.push(row), present) == lost_objects(rows, present) + if row.1.available
            && !present.contains(row.0) {
            1nat
        } else {
            0nat
        },
{
    assert(rows.push(row).drop_last() =~= rows);
}

/// After a restart transfers are gone through one by one, in order: each goes by its own file, and
/// one that starts anew is forgotten.
pub proof fn law_transfers_are_recovered_one_by_one(
    rows: Seq<(PeerObjectKey, TransferRow)>,
    row: (PeerObjectKey, TransferRow),
    files: Seq<TransferFile>,
)
    ensures
        recovered_transfers(seq![], files).len() == 0,
        recovered_transfers(rows.push(row), files) == match recovered_row(
            row.1,
            files[rows.len() as int],
        ) {
            Some(recovered) => recovered_transfers(rows, files).push((row.0, recovered)),
            None => recovered_transfers(rows, files),
        },
{
    assert(rows.push(row).drop_last() =~= rows);
}

} // verus!
