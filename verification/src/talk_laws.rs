//! What two devices say to each other: what is sent of the log and of objects, what is accepted
//! of it, and what is answered.
use vstd::prelude::*;

use crate::batch::{validated_batch, validated_change, validated_changes, ChangeView};
use crate::catalog::{MemberStatus, PeerObjectKey, RequestRow, RevisionKey, StoreError};
use crate::envelope::{parsed_envelope, ObjectKind};
use crate::exchange::{
    after_looks, incoming_batch, incoming_change, incoming_chunks, missing_of, outgoing_batch,
    outgoing_change, outgoing_changes, settled_batch, AdmissionProblem, AdmissionReportView,
    ChangeBatchBuildError, ChangeFate, Tally,
};
use crate::history::{change_page, watermark_at, StoredChange};
use crate::ids::{uuid_bytes, uuid_of_bytes, ContentId, DeviceId, GroupId};
use crate::keys::KeysView;
use crate::oneof::{ControlEnvelopeView, ControlMessageView};
use crate::opening::opened_record;
use crate::order::ordered_ids;
use crate::protocol::{LimitsView, ProtocolError};
use crate::pull::{
    object_begun, page_received, page_retried, receipt_of, ObjectReceipt, ObjectStepView,
};
use crate::record::RecordView;
use crate::serve::{
    message_served, object_served, page_served, state_after, ServeActionView, ServeState,
};
use crate::store::{
    admission_verdict, after_look, authentication_verdict, completion_verdict, is_present, loaded,
    loaded_range, member_at, with_authentication, with_object, Admission,
    ObjectTransferAdmission, StoreView,
};
use crate::table::{lemma_lookup_put, lookup};
use crate::transfer::{
    offered_for, range_requested, ValidatedObjectRangeRequest, ValidatedObjectTransfer,
};
use crate::transport::TransportProblem;
use crate::wire::{
    ChangeBatchView, ChangeLogRequestView, EncryptedChangeView, ObjectOfferView,
    ObjectRangeRequestView,
};

verus! {

/// A change is sent as the log has it, with the bytes of its record and the signature on record
/// for it; without a signature for just these contents, or without a genuine record, it is not
/// sent.
pub proof fn law_change_is_sent_as_logged(
    store: StoreView,
    keys: KeysView,
    files: Seq<(ContentId, Seq<u8>)>,
    change: StoredChange,
)
    ensures
        ({
            let row = lookup(
                store.authentications,
                RevisionKey { group_id: keys.group_id, revision_id: change.revision_id },
            );
            let bytes = loaded(
                store,
                keys,
                ObjectKind::Manifest,
                change.content_id,
                lookup(files, change.content_id),
            );
            match outgoing_change(store, keys, files, change).1 {
                Ok(sent) => {
                    &&& row is Some
                    &&& row->0.content_id == change.content_id
                    &&& bytes == Ok::<Seq<u8>, StoreError>(sent.encrypted_record)
                    &&& sent.sequence == change.sequence
                    &&& sent.revision_id == uuid_bytes(change.revision_id.value)
                    &&& sent.content_id == change.content_id@
                    &&& sent.author_device_id == uuid_bytes(
                        row->0.authorization.author_device_id.value,
                    )
                    &&& sent.signature == row->0.authorization.signature
                },
                Err(ChangeBatchBuildError::UnsignedChange { revision_id }) => row is None
                    && revision_id == change.revision_id,
                Err(ChangeBatchBuildError::AuthenticationContentMismatch { revision_id }) => {
                    &&& row is Some
                    &&& row->0.content_id != change.content_id
                    &&& revision_id == change.revision_id
                },
                Err(ChangeBatchBuildError::Store(error)) => {
                    &&& row is Some
                    &&& row->0.content_id == change.content_id
                    &&& bytes == Err::<Seq<u8>, StoreError>(error)
                },
            }
        }),
{
}

proof fn lemma_outgoing_changes(
    store: StoreView,
    keys: KeysView,
    files: Seq<(ContentId, Seq<u8>)>,
    changes: Seq<StoredChange>,
)
    ensures
        outgoing_changes(store, keys, files, changes).1 matches Ok(records) ==> {
            &&& records.len() == changes.len()
            &&& forall|i: int|
                0 <= i < records.len() ==> {
                    &&& (#[trigger] records[i]).sequence == changes[i].sequence
                    &&& records[i].revision_id == uuid_bytes(changes[i].revision_id.value)
                    &&& records[i].content_id == changes[i].content_id@
                    &&& lookup(files, changes[i].content_id) == Some(records[i].encrypted_record)
                }
        },
    decreases changes.len(),
{
    if changes.len() > 0 {
        let front = changes.drop_last();
        lemma_outgoing_changes(store, keys, files, front);
        let (before, result) = outgoing_changes(store, keys, files, front);
        if result is Ok && outgoing_changes(store, keys, files, changes).1 is Ok {
            let records = outgoing_changes(store, keys, files, changes).1->Ok_0;
            law_change_is_sent_as_logged(before, keys, files, changes.last());
            assert forall|i: int| 0 <= i < records.len() implies {
                &&& (#[trigger] records[i]).sequence == changes[i].sequence
                &&& records[i].revision_id == uuid_bytes(changes[i].revision_id.value)
                &&& records[i].content_id == changes[i].content_id@
                &&& lookup(files, changes[i].content_id) == Some(records[i].encrypted_record)
            } by {
                if i < front.len() {
                    assert(records[i] == result->Ok_0[i]);
                    assert(front[i] == changes[i]);
                } else {
                    assert(changes[i] == changes.last());
                }
            }
        }
    }
}

/// A peer that asks for changes is sent the page of the log that it asked for, every change of
/// it in order and as it is on record, how far the log goes, and whether there is more.
pub proof fn law_peer_is_sent_the_page_it_asked_for(
    store: StoreView,
    keys: KeysView,
    files: Seq<(ContentId, Seq<u8>)>,
    request: ChangeLogRequestView,
    limits: LimitsView,
)
    ensures
        match page_served(store, keys, files, request, limits).1 {
            Ok(action) => {
                let page = change_page(
                    store,
                    keys.group_id,
                    request.after_sequence,
                    request.maximum_records as nat,
                );
                &&& 0 < request.maximum_records <= limits.maximum_change_records_per_batch
                &&& page is Ok
                &&& action matches ServeActionView::Reply(envelope)
                &&& envelope.message matches Some(ControlMessageView::ChangeBatch(batch))
                &&& batch.records.len() == page->Ok_0.records.len()
                &&& batch.high_watermark == page->Ok_0.high_watermark
                &&& batch.has_more == (batch.high_watermark > if batch.records.len() > 0 {
                    page->Ok_0.records[batch.records.len() - 1].sequence
                } else {
                    request.after_sequence
                })
                &&& forall|i: int|
                    0 <= i < batch.records.len() ==> {
                        let change = page->Ok_0.records[i];
                        &&& (#[trigger] batch.records[i]).sequence == change.sequence
                        &&& batch.records[i].revision_id == uuid_bytes(change.revision_id.value)
                        &&& batch.records[i].content_id == change.content_id@
                        &&& lookup(files, change.content_id) == Some(
                            batch.records[i].encrypted_record,
                        )
                    }
            },
            Err(TransportProblem::InvalidPageSize { actual, maximum }) => {
                &&& actual == request.maximum_records
                &&& maximum == limits.maximum_change_records_per_batch
                &&& actual == 0 || actual > maximum
            },
            Err(TransportProblem::ChangeBatchBuild(error)) => outgoing_batch(
                store,
                keys,
                files,
                request.after_sequence,
                request.maximum_records as nat,
            ).1 == Err::<ChangeBatchView, ChangeBatchBuildError>(error),
            Err(_) => false,
        },
{
    match change_page(
        store,
        keys.group_id,
        request.after_sequence,
        request.maximum_records as nat,
    ) {
        Ok(page) => {
            lemma_outgoing_changes(store, keys, files, page.records);
        },
        Err(_) => {},
    }
}

/// A peer that asks for an object is sent the rest of its file from where it asked, after an
/// offer that says of what, how much and from where, under the number of its request.
pub proof fn law_peer_is_sent_the_object_it_asked_for(
    store: StoreView,
    keys: KeysView,
    files: Seq<(ContentId, Seq<u8>)>,
    request: ObjectRangeRequestView,
    limits: LimitsView,
)
    ensures
        match object_served(store, keys, files, request, limits).1 {
            Ok(action) => {
                &&& action matches ServeActionView::Send { offer, transfer, encrypted_bytes }
                &&& request.request_id.len() == 16
                &&& transfer.request_id == uuid_of_bytes(request.request_id)
                &&& transfer.request_id != 0
                &&& request.content_id.len() == 32
                &&& transfer.content_id == ContentId::of_bytes(request.content_id)
                &&& transfer.start_offset == request.start_offset
                &&& lookup(files, transfer.content_id) matches Some(file)
                &&& transfer.encrypted_size == file.len()
                &&& transfer.encrypted_size <= limits.maximum_encrypted_object_bytes
                &&& file.take(request.start_offset as int) + encrypted_bytes == file
                &&& offer.message == Some(
                    ControlMessageView::ObjectOffer(
                        ObjectOfferView {
                            request_id: uuid_bytes(transfer.request_id),
                            content_id: transfer.content_id@,
                            encrypted_size: transfer.encrypted_size,
                            start_offset: transfer.start_offset,
                        },
                    ),
                )
            },
            Err(TransportProblem::Protocol(_)) => true,
            Err(TransportProblem::Store(error)) => {
                &&& range_requested(request, limits) matches Ok(wanted)
                &&& loaded_range(
                    store,
                    keys,
                    wanted.content_id,
                    wanted.start_offset,
                    lookup(files, wanted.content_id),
                ) is Err
            },
            Err(_) => false,
        },
{
    match range_requested(request, limits) {
        Ok(wanted) => {
            let file = lookup(files, wanted.content_id);
            match loaded_range(store, keys, wanted.content_id, wanted.start_offset, file) {
                Ok(range) => {
                    assert(file->0.take(wanted.start_offset as int) + file->0.skip(
                        wanted.start_offset as int,
                    ) =~= file->0);
                    crate::ids::lemma_uuid_bytes(wanted.request_id);
                    ContentId::lemma_view(wanted.content_id);
                },
                Err(_) => {},
            }
        },
        Err(_) => {},
    }
}

/// A request for an object is accepted exactly where it has a number, names an object, and asks
/// from a point that an object can have.
pub proof fn law_range_request_is_accepted(request: ObjectRangeRequestView, limits: LimitsView)
    ensures
        range_requested(request, limits) is Ok <==> {
            &&& request.request_id.len() == 16
            &&& uuid_of_bytes(request.request_id) != 0
            &&& request.content_id.len() == 32
            &&& request.start_offset < limits.maximum_encrypted_object_bytes
        },
{
}

/// An offer is accepted exactly where it answers the request, of the same object from the same
/// point under the same number, and the object is neither too small nor too large, and goes on
/// from that point.
pub proof fn law_offer_answers_the_request(
    offer: ObjectOfferView,
    request: ValidatedObjectRangeRequest,
    limits: LimitsView,
)
    requires
        request.request_id != 0,
    ensures
        offered_for(offer, request, limits) is Ok <==> {
            &&& offer.request_id.len() == 16
            &&& uuid_of_bytes(offer.request_id) == request.request_id
            &&& offer.content_id.len() == 32
            &&& ContentId::of_bytes(offer.content_id) == request.content_id
            &&& offer.start_offset == request.start_offset
            &&& 88 <= offer.encrypted_size <= limits.maximum_encrypted_object_bytes
            &&& offer.start_offset < offer.encrypted_size
        },
        offered_for(offer, request, limits) matches Ok(transfer) ==> transfer == (
        ValidatedObjectTransfer {
            request_id: request.request_id,
            content_id: request.content_id,
            encrypted_size: offer.encrypted_size,
            start_offset: request.start_offset,
        }),
{
}

/// A peer is answered by what it said: a request for changes with a page, a request for an
/// object with the object; while an object is under way only its acknowledgement is heard, and
/// everything else is refused.
pub proof fn law_peer_is_answered_by_what_it_said(
    store: StoreView,
    keys: KeysView,
    files: Seq<(ContentId, Seq<u8>)>,
    pending: Option<(u128, ContentId)>,
    envelope: ControlEnvelopeView,
    limits: LimitsView,
)
    ensures
        ({
            let answer = message_served(store, keys, files, pending, envelope, limits);
            match (envelope.message, pending) {
                (None, _) => answer == (
                    store,
                    Err::<ServeActionView, TransportProblem>(
                        TransportProblem::MissingControlMessage,
                    ),
                ),
                (Some(ControlMessageView::ChangeLogRequest(request)), None) => answer
                    == page_served(store, keys, files, request, limits),
                (Some(ControlMessageView::ObjectRangeRequest(request)), None) => answer
                    == object_served(store, keys, files, request, limits),
                (
                    Some(ControlMessageView::ObjectAcknowledgement(acknowledgement)),
                    Some((request_id, content_id)),
                ) => answer.0 == store && match answer.1 {
                    Ok(action) => {
                        &&& action is Wait
                        &&& acknowledgement.request_id == uuid_bytes(request_id)
                        &&& acknowledgement.content_id == content_id@
                        &&& acknowledgement.status == 1 || acknowledgement.status == 2
                    },
                    Err(TransportProblem::ObjectAcknowledgementMismatch) => {
                        ||| acknowledgement.request_id != uuid_bytes(request_id)
                        ||| acknowledgement.content_id != content_id@
                    },
                    Err(TransportProblem::InvalidObjectAcknowledgementStatus { actual }) => {
                        &&& actual == acknowledgement.status
                        &&& actual != 1 && actual != 2
                    },
                    Err(_) => false,
                },
                (Some(message), _) => answer.0 == store && answer.1 matches Err(
                    TransportProblem::UnexpectedControlMessage { .. },
                ),
            }
        }),
{
}

/// Serving a peer counts what was sent and heard; after an object was sent its acknowledgement
/// is waited for, and after that nothing is.
pub proof fn law_serving_counts_what_it_does(state: ServeState, action: ServeActionView)
    requires
        match action {
            ServeActionView::Send { encrypted_bytes, .. } => state.room_for(
                encrypted_bytes.len(),
            ),
            _ => state.room_for(0),
        },
    ensures
        ({
            let after = state_after(state, action);
            match action {
                ServeActionView::Wait => {
                    &&& after.pending is None
                    &&& after.report.acknowledgements_received
                        == state.report.acknowledgements_received + 1
                    &&& after.report.pages_sent == state.report.pages_sent
                    &&& after.report.objects_sent == state.report.objects_sent
                    &&& after.report.encrypted_bytes_sent == state.report.encrypted_bytes_sent
                },
                ServeActionView::Reply(_) => {
                    &&& after.pending == state.pending
                    &&& after.report.pages_sent == state.report.pages_sent + 1
                    &&& after.report.objects_sent == state.report.objects_sent
                    &&& after.report.encrypted_bytes_sent == state.report.encrypted_bytes_sent
                    &&& after.report.acknowledgements_received
                        == state.report.acknowledgements_received
                },
                ServeActionView::Send { transfer, encrypted_bytes, .. } => {
                    &&& after.pending == Some((transfer.request_id, transfer.content_id))
                    &&& after.report.objects_sent == state.report.objects_sent + 1
                    &&& after.report.encrypted_bytes_sent == state.report.encrypted_bytes_sent
                        + encrypted_bytes.len()
                    &&& after.report.pages_sent == state.report.pages_sent
                    &&& after.report.acknowledgements_received
                        == state.report.acknowledgements_received
                },
            }
        }),
{
}

/// A change is well formed exactly where its number goes on from the one before, its identifiers
/// are whole and not nil, its signature has 64 bytes, and its record is an object of the right
/// size and kind under the identifier that it names; it is then read as it was sent.
pub proof fn law_well_formed_change_is_read_as_sent(
    index: int,
    previous: u64,
    record: EncryptedChangeView,
    limits: LimitsView,
)
    ensures
        validated_change(index, previous, record, limits) is Ok <==> {
            &&& record.sequence > previous
            &&& record.revision_id.len() == 16
            &&& uuid_of_bytes(record.revision_id) != 0
            &&& record.content_id.len() == 32
            &&& record.author_device_id.len() == 16
            &&& uuid_of_bytes(record.author_device_id) != 0
            &&& record.signature.len() == 64
            &&& record.encrypted_record.len() <= limits.maximum_encrypted_object_bytes
            &&& parsed_envelope(record.encrypted_record) matches Ok(object)
            &&& object.kind == ObjectKind::Manifest
            &&& object.content_id == ContentId::of_bytes(record.content_id)
        },
        validated_change(index, previous, record, limits) matches Ok(change) ==> {
            &&& change.sequence == record.sequence
            &&& change.revision_id.value == uuid_of_bytes(record.revision_id)
            &&& change.content_id == ContentId::of_bytes(record.content_id)
            &&& change.authorization.author_device_id.value == uuid_of_bytes(
                record.author_device_id,
            )
            &&& change.authorization.signature == record.signature
            &&& change.encrypted_record == record.encrypted_record
        },
{
}

/// A batch is accepted exactly where it is not too long, each of its changes is well formed and
/// goes on from the one before, and it does not go further than it says; it is then read as it
/// was sent.
pub proof fn law_well_formed_batch_is_read_as_sent(batch: ChangeBatchView, limits: LimitsView)
    ensures
        validated_batch(batch, limits) is Ok <==> {
            &&& batch.records.len() <= limits.maximum_change_records_per_batch
            &&& forall|i: int|
                0 <= i < batch.records.len() ==> validated_change(
                    i,
                    if i == 0 {
                        0
                    } else {
                        batch.records[i - 1].sequence
                    },
                    #[trigger] batch.records[i],
                    limits,
                ) is Ok
            &&& batch.records.len() > 0 ==> batch.records[batch.records.len() - 1].sequence
                <= batch.high_watermark
        },
        validated_batch(batch, limits) matches Ok(read) ==> {
            &&& read.high_watermark == batch.high_watermark
            &&& read.has_more == batch.has_more
            &&& read.records.len() == batch.records.len()
            &&& forall|i: int|
                0 <= i < batch.records.len() ==> validated_change(
                    i,
                    if i == 0 {
                        0
                    } else {
                        batch.records[i - 1].sequence
                    },
                    #[trigger] batch.records[i],
                    limits,
                ) == Ok::<ChangeView, ProtocolError>(read.records[i])
        },
{
    lemma_validated_changes(batch.records, limits);
}

proof fn lemma_validated_changes(records: Seq<EncryptedChangeView>, limits: LimitsView)
    ensures
        validated_changes(records, limits) is Ok <==> forall|i: int|
            0 <= i < records.len() ==> validated_change(
                i,
                if i == 0 {
                    0
                } else {
                    records[i - 1].sequence
                },
                #[trigger] records[i],
                limits,
            ) is Ok,
        validated_changes(records, limits) matches Ok(changes) ==> {
            &&& changes.len() == records.len()
            &&& forall|i: int|
                0 <= i < records.len() ==> validated_change(
                    i,
                    if i == 0 {
                        0
                    } else {
                        records[i - 1].sequence
                    },
                    #[trigger] records[i],
                    limits,
                ) == Ok::<ChangeView, ProtocolError>(changes[i])
            &&& changes.len() > 0 ==> changes[changes.len() - 1].sequence
                == records[records.len() - 1].sequence
        },
    decreases records.len(),
{
    if records.len() > 0 {
        let front = records.drop_last();
        lemma_validated_changes(front, limits);
        let last = records.len() - 1;
        assert(records[last] == records.last());
        assert forall|i: int| 0 <= i < front.len() implies #[trigger] front[i] == records[i] by {}
        let previous: u64 = if last == 0 {
            0
        } else {
            records[last - 1].sequence
        };
        match validated_changes(front, limits) {
            Ok(changes) => {
                if changes.len() > 0 {
                    assert(front[last - 1] == records[last - 1]);
                }
                assert(crate::batch::last_sequence(changes) == previous);
                match validated_change(last, previous, records.last(), limits) {
                    Ok(change) => {
                        let all = changes.push(change);
                        assert forall|i: int| 0 <= i < records.len() implies validated_change(
                            i,
                            if i == 0 {
                                0
                            } else {
                                records[i - 1].sequence
                            },
                            #[trigger] records[i],
                            limits,
                        ) == Ok::<ChangeView, ProtocolError>(all[i]) by {
                            if i < last {
                                assert(front[i] == records[i]);
                                if i > 0 {
                                    assert(front[i - 1] == records[i - 1]);
                                }
                            }
                        }
                    },
                    Err(_) => {
                        assert(validated_change(last, previous, records[last], limits) is Err);
                    },
                }
            },
            Err(_) => {
                let i = choose|i: int|
                    0 <= i < front.len() && !(validated_change(
                        i,
                        if i == 0 {
                            0
                        } else {
                            front[i - 1].sequence
                        },
                        #[trigger] front[i],
                        limits,
                    ) is Ok);
                assert(front[i] == records[i]);
                if i > 0 {
                    assert(front[i - 1] == records[i - 1]);
                }
                assert(!(validated_change(
                    i,
                    if i == 0 {
                        0
                    } else {
                        records[i - 1].sequence
                    },
                    records[i],
                    limits,
                ) is Ok));
            },
        }
    }
}

/// A batch is taken in only from an active member of the group.
pub proof fn law_batches_are_taken_from_active_members(
    store: StoreView,
    keys: KeysView,
    files: Seq<(ContentId, Seq<u8>)>,
    present: Seq<ContentId>,
    peer_device_id: DeviceId,
    batch: ChangeBatchView,
    limits: LimitsView,
    now: i64,
)
    ensures
        ({
            let (after, result) = incoming_batch(
                store,
                keys,
                files,
                present,
                peer_device_id,
                batch,
                limits,
                now,
            );
            match member_at(store, keys.group_id, peer_device_id) {
                Ok(Some(member)) => member.status == MemberStatus::Revoked ==> after == store
                    && result == Err::<AdmissionReportView, AdmissionProblem>(
                    AdmissionProblem::Store(
                        StoreError::MemberRevoked { device_id: peer_device_id },
                    ),
                ),
                Ok(None) => after == store && result == Err::<
                    AdmissionReportView,
                    AdmissionProblem,
                >(
                    AdmissionProblem::Store(
                        StoreError::UnknownGroupMember { device_id: peer_device_id },
                    ),
                ),
                Err(error) => after == store && result == Err::<
                    AdmissionReportView,
                    AdmissionProblem,
                >(AdmissionProblem::Store(error)),
            }
        }),
        incoming_batch(store, keys, files, present, peer_device_id, batch, limits, now).1 is Ok
            ==> validated_batch(batch, limits) is Ok,
{
}

/// What is missing of a record is each of its chunks that is not present, once each; a record
/// with nothing missing is committed, and one that was committed before is only counted.
pub proof fn law_record_waits_for_its_chunks(
    store: StoreView,
    keys: KeysView,
    present: Seq<ContentId>,
    change: ChangeView,
    record: RecordView,
    existing: Option<Seq<u8>>,
    now: i64,
)
    ensures
        ({
            let (after, result) = incoming_chunks(
                store,
                keys,
                present,
                change,
                record,
                existing,
                now,
            );
            let absent = exists|id: ContentId|
                record.chunk_ids().contains(id) && !#[trigger] is_present(
                    store,
                    keys.group_id,
                    id,
                    present.contains(id),
                );
            &&& result matches Ok(ChangeFate::Missing(ids)) ==> {
                &&& absent
                &&& ids.len() > 0
                &&& forall|id: ContentId| #[trigger]
                    ids.contains(id) <==> record.chunk_ids().contains(id) && !is_present(
                        store,
                        keys.group_id,
                        id,
                        present.contains(id),
                    )
                &&& after.changes == store.changes
            }
            &&& absent ==> result matches Ok(ChangeFate::Missing(_))
        }),
{
    let chunks = ordered_ids(record.chunk_ids());
    crate::order::lemma_ordered_ids(record.chunk_ids());
    lemma_missing(store, keys.group_id, chunks, present);
    lemma_looks(store, keys.group_id, chunks, present);
    let missing = missing_of(store, keys.group_id, chunks, present);
    if missing.len() > 0 {
        assert(missing.contains(missing[0]));
        assert(!is_present(
            store,
            keys.group_id,
            missing[0],
            present.contains(missing[0]),
        ));
    }
    if exists|id: ContentId|
        record.chunk_ids().contains(id) && !#[trigger] is_present(
            store,
            keys.group_id,
            id,
            present.contains(id),
        ) {
        let id = choose|id: ContentId|
            record.chunk_ids().contains(id) && !#[trigger] is_present(
                store,
                keys.group_id,
                id,
                present.contains(id),
            );
        assert(chunks.contains(id));
        assert(missing.contains(id));
    }
}

proof fn lemma_looks(
    store: StoreView,
    group_id: GroupId,
    content_ids: Seq<ContentId>,
    present: Seq<ContentId>,
)
    ensures
        forall|id: ContentId|
            #![trigger present.contains(id)]
            is_present(
                after_looks(store, group_id, content_ids, present),
                group_id,
                id,
                present.contains(id),
            ) == is_present(store, group_id, id, present.contains(id)),
        after_looks(store, group_id, content_ids, present).changes == store.changes,
    decreases content_ids.len(),
{
    if content_ids.len() > 0 {
        let front = content_ids.drop_last();
        let last = content_ids.last();
        lemma_looks(store, group_id, front, present);
        let before = after_looks(store, group_id, front, present);
        assert forall|id: ContentId|
            #![trigger present.contains(id)]
            is_present(
                after_look(before, group_id, last, present.contains(last)),
                group_id,
                id,
                present.contains(id),
            ) == is_present(before, group_id, id, present.contains(id)) by {
            let key = crate::catalog::ObjectKey { group_id, content_id: last };
            match lookup(before.objects, key) {
                Some(row) => {
                    lemma_lookup_put(
                        before.objects,
                        key,
                        crate::catalog::ObjectRow { available: false, ..row },
                        crate::catalog::ObjectKey { group_id, content_id: id },
                    );
                },
                None => {},
            }
        }
    }
}

proof fn lemma_missing(
    store: StoreView,
    group_id: GroupId,
    content_ids: Seq<ContentId>,
    present: Seq<ContentId>,
)
    ensures
        forall|id: ContentId| #[trigger]
            missing_of(store, group_id, content_ids, present).contains(id)
                <==> content_ids.contains(id) && !is_present(
                store,
                group_id,
                id,
                present.contains(id),
            ),
    decreases content_ids.len(),
{
    let all = missing_of(store, group_id, content_ids, present);
    if content_ids.len() > 0 {
        let front = content_ids.drop_last();
        let last = content_ids.last();
        lemma_missing(store, group_id, front, present);
        lemma_looks(store, group_id, front, present);
        let before = missing_of(store, group_id, front, present);
        let looked = after_looks(store, group_id, front, present);
        assert(is_present(looked, group_id, last, present.contains(last)) == is_present(
            store,
            group_id,
            last,
            present.contains(last),
        ));
        assert forall|id: ContentId| #[trigger]
            all.contains(id) <==> content_ids.contains(id) && !is_present(
                store,
                group_id,
                id,
                present.contains(id),
            ) by {
            assert(content_ids.contains(id) <==> front.contains(id) || id == last) by {
                if front.contains(id) {
                    let k = choose|k: int| 0 <= k < front.len() && front[k] == id;
                    assert(content_ids[k] == id);
                }
                if id == last {
                    assert(content_ids[content_ids.len() - 1] == id);
                }
                if content_ids.contains(id) {
                    let k = choose|k: int| 0 <= k < content_ids.len() && content_ids[k] == id;
                    if k < front.len() {
                        assert(front[k] == id);
                    }
                }
            }
            assert(before.contains(id) ==> all.contains(id)) by {
                if before.contains(id) {
                    let k = choose|k: int| 0 <= k < before.len() && before[k] == id;
                    assert(all[k] == id);
                }
            }
            if !is_present(looked, group_id, last, present.contains(last)) {
                assert(all[all.len() - 1] == last);
                if all.contains(id) {
                    let k = choose|k: int| 0 <= k < all.len() && all[k] == id;
                    if k < before.len() {
                        assert(before[k] == id);
                    }
                }
            }
        }
    }
}

/// A change is taken in only where its record opens, is a record of the revision that the
/// change names, and its signature counts or is on record.
pub proof fn law_only_genuine_changes_are_taken_in(
    store: StoreView,
    keys: KeysView,
    files: Seq<(ContentId, Seq<u8>)>,
    present: Seq<ContentId>,
    change: ChangeView,
    now: i64,
)
    ensures
        ({
            let result = incoming_change(store, keys, files, present, change, now).1;
            let opened = opened_record(keys, change.content_id, change.encrypted_record);
            let existing = lookup(files, change.content_id);
            let admitted = with_object(
                store,
                keys,
                ObjectKind::Manifest,
                change.content_id,
                change.encrypted_record,
                existing,
                now,
            );
            let signed = authentication_verdict(
                admitted,
                keys.group_id,
                change.revision_id,
                change.content_id,
                change.authorization,
            );
            &&& result is Ok ==> {
                &&& opened is Ok
                &&& opened->Ok_0.revision_id() == change.revision_id
                &&& signed is Ok
            }
            &&& opened is Ok && opened->Ok_0.revision_id() != change.revision_id ==> result
                == Err::<ChangeFate, AdmissionProblem>(
                AdmissionProblem::RevisionMismatch {
                    advertised: change.revision_id,
                    manifest: opened->Ok_0.revision_id(),
                },
            )
            &&& (opened is Ok && opened->Ok_0.revision_id() == change.revision_id
                && admission_verdict(
                keys,
                ObjectKind::Manifest,
                change.content_id,
                change.encrypted_record,
                existing,
            ) is Ok && signed is Ok) ==> result == incoming_chunks(
                with_authentication(
                    admitted,
                    keys.group_id,
                    change.revision_id,
                    change.content_id,
                    change.authorization,
                ),
                keys,
                present,
                change,
                opened->Ok_0,
                if admission_verdict(
                    keys,
                    ObjectKind::Manifest,
                    change.content_id,
                    change.encrypted_record,
                    existing,
                )->Ok_0 == Admission::AlreadyPresent {
                    existing
                } else {
                    Some(change.encrypted_record)
                },
                now,
            ).1
        }),
{
    reveal(incoming_change);
}

/// How a batch ends: where chunks are missing they are asked for and what is recorded of the
/// peer stays; else it is recorded how far the batch went, never less than before.
pub proof fn law_batch_is_settled_once_complete(
    store: StoreView,
    group_id: GroupId,
    peer_device_id: DeviceId,
    present: Seq<ContentId>,
    batch: crate::batch::BatchView,
    tally: Tally,
    known: u64,
    now: i64,
)
    ensures
        ({
            let (after, result) = settled_batch(
                store,
                group_id,
                peer_device_id,
                present,
                batch,
                tally,
                known,
                now,
            );
            let through = if !batch.has_more {
                batch.high_watermark
            } else if batch.records.len() > 0 {
                batch.records[batch.records.len() - 1].sequence
            } else {
                known
            };
            let current = watermark_at(store, group_id, peer_device_id);
            match result {
                Ok(report) => {
                    &&& report.records_committed == tally.committed
                    &&& report.records_replayed == tally.replayed
                    &&& tally.missing.len() > 0 ==> {
                        &&& report.missing_content_ids == ordered_ids(tally.missing)
                        &&& report.peer_high_watermark == known
                    }
                    &&& tally.missing.len() == 0 ==> {
                        &&& report.missing_content_ids.len() == 0
                        &&& report.peer_high_watermark == if current > through {
                            current
                        } else {
                            through
                        }
                        &&& watermark_at(after, group_id, peer_device_id)
                            == report.peer_high_watermark
                    }
                },
                Err(problem) => {
                    &&& tally.missing.len() == 0
                    &&& through > i64::MAX
                    &&& after == store
                    &&& problem == AdmissionProblem::Store(StoreError::SequenceOutOfRange(through))
                },
            }
        }),
{
    let key = crate::catalog::DeviceKey { group_id, device_id: peer_device_id };
    let through = crate::exchange::accepted_through(batch, known);
    let current = watermark_at(store, group_id, peer_device_id);
    lemma_lookup_put(
        store.watermarks,
        key,
        if current > through {
            current
        } else {
            through
        },
        key,
    );
}

/// A page that was received is taken in as the batch that it holds; anything else that comes in
/// its place is refused.
pub proof fn law_received_page_is_taken_in(
    store: StoreView,
    keys: KeysView,
    files: Seq<(ContentId, Seq<u8>)>,
    present: Seq<ContentId>,
    peer_device_id: DeviceId,
    envelope: ControlEnvelopeView,
    limits: LimitsView,
    now: i64,
)
    ensures
        ({
            let (after, result) = page_received(
                store,
                keys,
                files,
                present,
                peer_device_id,
                envelope,
                limits,
                now,
            );
            match envelope.message {
                Some(ControlMessageView::ChangeBatch(batch)) => {
                    let (taken, report) = incoming_batch(
                        store,
                        keys,
                        files,
                        present,
                        peer_device_id,
                        batch,
                        limits,
                        now,
                    );
                    &&& after == taken
                    &&& report matches Ok(report) ==> result == Ok::<
                        (AdmissionReportView, ChangeBatchView),
                        TransportProblem,
                    >((report, batch))
                    &&& report matches Err(problem) ==> result == Err::<
                        (AdmissionReportView, ChangeBatchView),
                        TransportProblem,
                    >(TransportProblem::ChangeBatchAdmission(problem))
                },
                Some(_) => after == store && result matches Err(
                    TransportProblem::UnexpectedControlMessage { .. },
                ),
                None => after == store && result == Err::<
                    (AdmissionReportView, ChangeBatchView),
                    TransportProblem,
                >(TransportProblem::MissingControlMessage),
            }
        }),
{
}

/// A page is taken in again once what was missing has arrived; where something still is, that
/// is an error.
pub proof fn law_page_is_taken_in_again_whole(
    store: StoreView,
    keys: KeysView,
    files: Seq<(ContentId, Seq<u8>)>,
    present: Seq<ContentId>,
    peer_device_id: DeviceId,
    batch: ChangeBatchView,
    limits: LimitsView,
    now: i64,
)
    ensures
        ({
            let (after, result) = page_retried(
                store,
                keys,
                files,
                present,
                peer_device_id,
                batch,
                limits,
                now,
            );
            let (taken, report) = incoming_batch(
                store,
                keys,
                files,
                present,
                peer_device_id,
                batch,
                limits,
                now,
            );
            &&& after == taken
            &&& match report {
                Ok(report) => result == if report.missing_content_ids.len() == 0 {
                    Ok::<AdmissionReportView, TransportProblem>(report)
                } else {
                    Err(
                        TransportProblem::ObjectsStillMissing {
                            count: report.missing_content_ids.len(),
                        },
                    )
                },
                Err(problem) => result == Err::<AdmissionReportView, TransportProblem>(
                    TransportProblem::ChangeBatchAdmission(problem),
                ),
            }
        }),
{
}

/// An object is asked for from where what arrived of it ends, and not at all where all of it
/// has arrived; each time it is asked for counts as an attempt.
pub proof fn law_object_is_asked_for_from_where_it_ends(
    store: StoreView,
    keys: KeysView,
    peer_device_id: DeviceId,
    content_id: ContentId,
    request_id: u128,
    limits: LimitsView,
    file: Option<Seq<u8>>,
    existing: Option<Seq<u8>>,
    now: i64,
)
    requires
        request_id != 0,
    ensures
        ({
            let key = PeerObjectKey { group_id: keys.group_id, peer_device_id, content_id };
            let row = lookup(store.transfers, key);
            let (after, result) = object_begun(
                store,
                keys,
                peer_device_id,
                content_id,
                request_id,
                limits,
                file,
                existing,
                now,
            );
            match result {
                Ok(ObjectStepView::Done(object)) => {
                    &&& row is Some
                    &&& row->0.received_size == row->0.encrypted_size
                    &&& object.encrypted_bytes_received == 0
                    &&& completion_verdict(
                        store,
                        keys,
                        peer_device_id,
                        content_id,
                        file,
                        existing,
                    ) == Ok::<Admission, StoreError>(object.admission)
                },
                Ok(ObjectStepView::Ask { envelope, request }) => {
                    &&& row is Some ==> row->0.received_size != row->0.encrypted_size
                    &&& request.request_id == request_id
                    &&& request.content_id == content_id
                    &&& request.start_offset == if row is Some {
                        row->0.received_size
                    } else {
                        0
                    }
                    &&& envelope.message == Some(
                        ControlMessageView::ObjectRangeRequest(
                            ObjectRangeRequestView {
                                request_id: uuid_bytes(request_id),
                                content_id: content_id@,
                                start_offset: request.start_offset,
                            },
                        ),
                    )
                    &&& lookup(after.requests, key) == match lookup(store.requests, key) {
                        None => None,
                        Some(asked) => Some(
                            RequestRow {
                                requested_at_unix_ms: asked.requested_at_unix_ms,
                                attempt_count: (asked.attempt_count + 1) as u64,
                                last_attempt_at_unix_ms: Some(now),
                            },
                        ),
                    }
                },
                Err(_) => true,
            }
        }),
{
    let key = PeerObjectKey { group_id: keys.group_id, peer_device_id, content_id };
    crate::ids::lemma_uuid_bytes(request_id);
    ContentId::lemma_view(content_id);
    match lookup(store.requests, key) {
        Some(row) => {
            lemma_lookup_put(
                store.requests,
                key,
                RequestRow {
                    attempt_count: (row.attempt_count + 1) as u64,
                    last_attempt_at_unix_ms: Some(now),
                    ..row
                },
                key,
            );
        },
        None => {},
    }
}

/// An object is received from where it is known to end: what is present already is taken and
/// thrown away, and what would leave a gap is refused.
pub proof fn law_object_is_received_without_a_gap(
    transfer: ValidatedObjectTransfer,
    admission: ObjectTransferAdmission,
)
    ensures
        match receipt_of(transfer, admission) {
            Ok(receipt) => {
                &&& receipt.transfer == transfer
                &&& receipt.offset == transfer.start_offset
                &&& receipt.persist == !(admission is AlreadyPresent)
                &&& admission is Started ==> transfer.start_offset == 0
                &&& admission matches ObjectTransferAdmission::Resuming { received_size }
                    ==> transfer.start_offset == received_size
            },
            Err(TransportProblem::TransferResumeOffsetMismatch { requested, durable }) => {
                &&& requested == transfer.start_offset
                &&& durable != requested
                &&& admission is Started && durable == 0 || admission == (
                ObjectTransferAdmission::Resuming { received_size: durable })
            },
            Err(_) => false,
        },
{
}

/// Once an object was received, it is admitted and acknowledged as verified; one that was
/// present is acknowledged as such, and changes nothing.
pub proof fn law_received_object_is_acknowledged(
    receipt: ObjectReceipt,
    store: StoreView,
    keys: KeysView,
    peer_device_id: DeviceId,
    received: u64,
    file: Option<Seq<u8>>,
    existing: Option<Seq<u8>>,
    now: i64,
)
    ensures
        ({
            let (after, result) = receipt.settled(
                store,
                keys,
                peer_device_id,
                received,
                file,
                existing,
                now,
            );
            let content_id = receipt.transfer.content_id;
            match result {
                Ok((object, envelope)) => {
                    &&& object.encrypted_bytes_received == received
                    &&& envelope.message matches Some(
                        ControlMessageView::ObjectAcknowledgement(acknowledgement),
                    )
                    &&& acknowledgement.request_id == uuid_bytes(receipt.transfer.request_id)
                    &&& acknowledgement.content_id == content_id@
                    &&& receipt.persist ==> {
                        &&& acknowledgement.status == 1
                        &&& completion_verdict(
                            store,
                            keys,
                            peer_device_id,
                            content_id,
                            file,
                            existing,
                        ) == Ok::<Admission, StoreError>(object.admission)
                    }
                    &&& !receipt.persist ==> {
                        &&& acknowledgement.status == 2
                        &&& object.admission == Admission::AlreadyPresent
                        &&& after == store
                    }
                },
                Err(problem) => {
                    &&& receipt.persist
                    &&& problem matches TransportProblem::Store(error)
                    &&& completion_verdict(
                        store,
                        keys,
                        peer_device_id,
                        content_id,
                        file,
                        existing,
                    ) == Err::<Admission, StoreError>(error)
                },
            }
        }),
{
}

} // verus!
