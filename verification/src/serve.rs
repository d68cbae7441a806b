//! How a device answers a peer that asks for its changes and objects.
use vstd::prelude::*;

use crate::exchange::{build_change_batch, outgoing_batch};
use crate::ids::{lemma_uuid_bytes, ContentId};
use crate::keys::{GroupKeys, KeysView};
use crate::oneof::{ControlEnvelope, ControlEnvelopeView, ControlMessage, ControlMessageView};
use crate::opening::{file_of, ObjectFiles};
use crate::outcome::agrees;
use crate::protocol::{LimitsView, ProtocolLimits};
use crate::store::{after_look, loaded_range, EncryptedObjectRange, Store, StoreView};
use crate::table::lookup;
use crate::transfer::{
    build_object_offer, offer_of, offered, range_requested, validate_object_offer,
    validate_object_range_request, ValidatedObjectRangeRequest, ValidatedObjectTransfer,
};
use crate::transport::{
    acknowledgement_problem, control_envelope, enveloped, page_problem, require_control_message,
    unexpected, unexpected_control_message, validate_object_acknowledgement, validate_page_size,
    TransportError, TransportProblem,
};
use crate::wire::{
    ChangeLogRequest, ChangeLogRequestView, ObjectOffer, ObjectRangeRequest,
    ObjectRangeRequestView,
};

verus! {

#[derive(Clone, Copy, Debug, Default, PartialEq, Eq, Structural)]
pub struct ServeReport {
    pub pages_sent: usize,
    pub objects_sent: usize,
    pub encrypted_bytes_sent: u64,
    pub acknowledgements_received: usize,
}

/// How far a peer has been served: an object that was sent waits for its acknowledgement.
#[derive(Clone, Copy, Debug, Default, PartialEq, Eq)]
pub struct ServeState {
    pub pending: Option<(u128, ContentId)>,
    pub report: ServeReport,
}

/// What to do for a peer.
#[derive(Debug)]
pub enum ServeAction {
    /// Nothing.
    Wait,
    /// Say something.
    Reply(ControlEnvelope),
    /// Offer an object, and send it.
    Send { offer: ControlEnvelope, transfer: ValidatedObjectTransfer, encrypted_bytes: Vec<u8> },
}

/// The contents of a `ServeAction`.
pub enum ServeActionView {
    Wait,
    Reply(ControlEnvelopeView),
    Send {
        offer: ControlEnvelopeView,
        transfer: ValidatedObjectTransfer,
        encrypted_bytes: Seq<u8>,
    },
}

impl View for ServeAction {
    type V = ServeActionView;

    open spec fn view(&self) -> ServeActionView {
        match *self {
            ServeAction::Wait => ServeActionView::Wait,
            ServeAction::Reply(envelope) => ServeActionView::Reply(envelope@),
            ServeAction::Send { offer, transfer, encrypted_bytes } => ServeActionView::Send {
                offer: offer@,
                transfer,
                encrypted_bytes: encrypted_bytes@,
            },
        }
    }
}

/// The page of the log that a peer asks for, and the store after it was put together.
pub open spec fn page_served(
    store: StoreView,
    keys: KeysView,
    files: Seq<(ContentId, Seq<u8>)>,
    request: ChangeLogRequestView,
    limits: LimitsView,
) -> (StoreView, Result<ServeActionView, TransportProblem>) {
    match page_problem(request.maximum_records as usize, limits) {
        Some(problem) => (store, Err(problem)),
        None => {
            let (after, result) = outgoing_batch(
                store,
                keys,
                files,
                request.after_sequence,
                request.maximum_records as nat,
            );
            (
                after,
                match result {
                    Err(error) => Err(TransportProblem::ChangeBatchBuild(error)),
                    Ok(batch) => Ok(
                        ServeActionView::Reply(enveloped(ControlMessageView::ChangeBatch(batch))),
                    ),
                },
            )
        },
    }
}

/// The object that a peer asks for, and the store after it was loaded.
pub open spec fn object_served(
    store: StoreView,
    keys: KeysView,
    files: Seq<(ContentId, Seq<u8>)>,
    request: ObjectRangeRequestView,
    limits: LimitsView,
) -> (StoreView, Result<ServeActionView, TransportProblem>) {
    match range_requested(request, limits) {
        Err(error) => (store, Err(TransportProblem::Protocol(error))),
        Ok(wanted) => {
            let file = lookup(files, wanted.content_id);
            (
                after_look(store, keys.group_id, wanted.content_id, file is Some),
                match loaded_range(store, keys, wanted.content_id, wanted.start_offset, file) {
                    Err(error) => Err(TransportProblem::Store(error)),
                    Ok(range) => {
                        let offer = offer_of(wanted, range.encrypted_size);
                        match offered(offer, limits) {
                            Err(error) => Err(TransportProblem::Protocol(error)),
                            Ok(transfer) => Ok(
                                ServeActionView::Send {
                                    offer: enveloped(ControlMessageView::ObjectOffer(offer)),
                                    transfer,
                                    encrypted_bytes: range.encrypted_bytes,
                                },
                            ),
                        }
                    },
                },
            )
        },
    }
}

/// What to do about what a peer says: while an object waits for its acknowledgement, nothing else
/// is heard.
pub open spec fn message_served(
    store: StoreView,
    keys: KeysView,
    files: Seq<(ContentId, Seq<u8>)>,
    pending: Option<(u128, ContentId)>,
    envelope: ControlEnvelopeView,
    limits: LimitsView,
) -> (StoreView, Result<ServeActionView, TransportProblem>) {
    match (envelope.message, pending) {
        (None, _) => (store, Err(TransportProblem::MissingControlMessage)),
        (Some(message), Some((request_id, content_id))) => (
            store,
            match message {
                ControlMessageView::ObjectAcknowledgement(acknowledgement) => {
                    match acknowledgement_problem(acknowledgement, request_id, content_id) {
                        Some(problem) => Err(problem),
                        None => Ok(ServeActionView::Wait),
                    }
                },
                _ => Err(unexpected("object_acknowledgement", message)),
            },
        ),
        (Some(ControlMessageView::ChangeLogRequest(request)), None) => page_served(
            store,
            keys,
            files,
            request,
            limits,
        ),
        (Some(ControlMessageView::ObjectRangeRequest(request)), None) => object_served(
            store,
            keys,
            files,
            request,
            limits,
        ),
        (Some(message), None) => (
            store,
            Err(unexpected("change_log_request or object_range_request", message)),
        ),
    }
}

/// How far a peer has been served after an action.
pub open spec fn state_after(state: ServeState, action: ServeActionView) -> ServeState {
    match action {
        ServeActionView::Wait => ServeState {
            pending: None,
            report: ServeReport {
                acknowledgements_received: (state.report.acknowledgements_received + 1) as usize,
                ..state.report
            },
        },
        ServeActionView::Reply(_) => ServeState {
            report: ServeReport {
                pages_sent: (state.report.pages_sent + 1) as usize,
                ..state.report
            },
            ..state
        },
        ServeActionView::Send { transfer, encrypted_bytes, .. } => ServeState {
            pending: Some((transfer.request_id, transfer.content_id)),
            report: ServeReport {
                objects_sent: (state.report.objects_sent + 1) as usize,
                encrypted_bytes_sent: (state.report.encrypted_bytes_sent
                    + encrypted_bytes.len()) as u64,
                ..state.report
            },
        },
    }
}

fn serve_page(
    request: &ChangeLogRequest,
    keys: &GroupKeys,
    store: &mut Store,
    limits: ProtocolLimits,
    files: &ObjectFiles,
) -> (result: Result<ServeAction, TransportError>)
    ensures
        final(store)@ == page_served(old(store)@, keys@, files@, request@, limits@).0,
        agrees(result, page_served(old(store)@, keys@, files@, request@, limits@).1),
{
    let maximum_records: usize = request.maximum_records as usize;
    validate_page_size(maximum_records, limits)?;
    match build_change_batch(keys, store, request.after_sequence, maximum_records, files) {
        Ok(batch) => Ok(
            ServeAction::Reply(control_envelope(ControlMessage::ChangeBatch(batch))),
        ),
        Err(error) => Err(TransportError::ChangeBatchBuild(error)),
    }
}

fn serve_object(
    request: &ObjectRangeRequest,
    keys: &GroupKeys,
    store: &mut Store,
    limits: ProtocolLimits,
    files: &ObjectFiles,
) -> (result: Result<ServeAction, TransportError>)
    ensures
        final(store)@ == object_served(old(store)@, keys@, files@, request@, limits@).0,
        agrees(result, object_served(old(store)@, keys@, files@, request@, limits@).1),
{
    let wanted: ValidatedObjectRangeRequest = match validate_object_range_request(
        request,
        limits,
    ) {
        Ok(wanted) => wanted,
        Err(error) => {
            return Err(TransportError::Protocol(error));
        },
    };
    let range: EncryptedObjectRange = match store.load_object_range(
        keys,
        wanted.content_id,
        wanted.start_offset,
        file_of(files, wanted.content_id),
    ) {
        Ok(range) => range,
        Err(error) => {
            return Err(TransportError::Store(error));
        },
    };
    let offer: ObjectOffer = match build_object_offer(wanted, range.encrypted_size, limits) {
        Ok(offer) => offer,
        Err(error) => {
            return Err(TransportError::Protocol(error));
        },
    };
    match validate_object_offer(&offer, limits) {
        Ok(transfer) => Ok(
            ServeAction::Send {
                offer: control_envelope(ControlMessage::ObjectOffer(offer)),
                transfer,
                encrypted_bytes: range.encrypted_bytes,
            },
        ),
        Err(error) => Err(TransportError::Protocol(error)),
    }
}

impl ServeState {
    /// The start of serving a peer.
    pub fn new() -> (state: Self)
        ensures
            state == (ServeState {
                pending: None,
                report: ServeReport {
                    pages_sent: 0,
                    objects_sent: 0,
                    encrypted_bytes_sent: 0,
                    acknowledgements_received: 0,
                },
            }),
    {
        ServeState {
            pending: None,
            report: ServeReport {
                pages_sent: 0,
                objects_sent: 0,
                encrypted_bytes_sent: 0,
                acknowledgements_received: 0,
            },
        }
    }

    /// Tells what to do about what a peer says. `files` holds the files of the objects that it
    /// asks for.
    pub fn hear(
        &self,
        envelope: ControlEnvelope,
        keys: &GroupKeys,
        store: &mut Store,
        limits: ProtocolLimits,
        files: &ObjectFiles,
    ) -> (result: Result<ServeAction, TransportError>)
        ensures
            final(store)@ == message_served(
                old(store)@,
                keys@,
                files@,
                self.pending,
                envelope@,
                limits@,
            ).0,
            agrees(
                result,
                message_served(
                    old(store)@,
                    keys@,
                    files@,
                    self.pending,
                    envelope@,
                    limits@,
                ).1,
            ),
    {
        let message: ControlMessage = require_control_message(envelope)?;
        if let Some((request_id, content_id)) = self.pending {
            return match &message {
                ControlMessage::ObjectAcknowledgement(acknowledgement) => {
                    validate_object_acknowledgement(acknowledgement, request_id, content_id)?;
                    Ok(ServeAction::Wait)
                },
                _ => Err(unexpected_control_message("object_acknowledgement", &message)),
            };
        }
        match &message {
            ControlMessage::ChangeLogRequest(request) => serve_page(
                request,
                keys,
                store,
                limits,
                files,
            ),
            ControlMessage::ObjectRangeRequest(request) => serve_object(
                request,
                keys,
                store,
                limits,
                files,
            ),
            _ => Err(
                unexpected_control_message(
                    "change_log_request or object_range_request",
                    &message,
                ),
            ),
        }
    }

    /// There is room in the report for one more action with so many bytes.
    pub open spec fn room_for(self, bytes: nat) -> bool {
        &&& self.report.pages_sent < usize::MAX
        &&& self.report.objects_sent < usize::MAX
        &&& self.report.acknowledgements_received < usize::MAX
        &&& self.report.encrypted_bytes_sent + bytes <= u64::MAX
    }

    /// Tells whether there is room in the report for one more action with so many bytes.
    pub fn has_room_for(&self, bytes: usize) -> (room: bool)
        ensures
            room == self.room_for(bytes as nat),
    {
        self.report.pages_sent < usize::MAX && self.report.objects_sent < usize::MAX
            && self.report.acknowledgements_received < usize::MAX && bytes as u64 <= u64::MAX
            - self.report.encrypted_bytes_sent
    }

    /// Notes that what was to be done for a peer is done.
    pub fn done(&mut self, action: &ServeAction)
        requires
            match action@ {
                ServeActionView::Send { encrypted_bytes, .. } => old(self).room_for(
                    encrypted_bytes.len(),
                ),
                _ => old(self).room_for(0),
            },
        ensures
            *final(self) == state_after(*old(self), action@),
    {
        match action {
            ServeAction::Wait => {
                self.pending = None;
                self.report.acknowledgements_received = self.report.acknowledgements_received + 1;
            },
            ServeAction::Reply(_) => {
                self.report.pages_sent = self.report.pages_sent + 1;
            },
            ServeAction::Send { offer: _, transfer, encrypted_bytes } => {
                self.pending = Some((transfer.request_id, transfer.content_id));
                self.report.objects_sent = self.report.objects_sent + 1;
                self.report.encrypted_bytes_sent = self.report.encrypted_bytes_sent
                    + encrypted_bytes.len() as u64;
            },
        }
    }

    /// The report once a peer says nothing more: every object that was sent has been
    /// acknowledged.
    pub fn finish(&self) -> (result: Result<ServeReport, TransportError>)
        ensures
            match result {
                Ok(report) => self.pending is None && report == self.report,
                Err(error) => self.pending is Some && error@
                    == TransportProblem::MissingObjectAcknowledgement,
            },
    {
        if self.pending.is_some() {
            return Err(TransportError::MissingObjectAcknowledgement);
        }
        Ok(self.report)
    }
}

/// What a device offers is what it then sends: the bytes from the offset that was asked for to the
/// end of the object whose identifier was asked for.
pub proof fn law_offer_matches_what_is_sent(
    store: StoreView,
    keys: KeysView,
    files: Seq<(ContentId, Seq<u8>)>,
    request: ObjectRangeRequestView,
    limits: LimitsView,
)
    ensures
        object_served(store, keys, files, request, limits).1 matches Ok(action) ==> {
            &&& action matches ServeActionView::Send { offer, transfer, encrypted_bytes }
            &&& range_requested(request, limits) matches Ok(wanted)
            &&& transfer.content_id == wanted.content_id
            &&& transfer.request_id == wanted.request_id
            &&& transfer.start_offset == wanted.start_offset
            &&& transfer.start_offset + encrypted_bytes.len() == transfer.encrypted_size
        },
{
    if let Ok(wanted) = range_requested(request, limits) {
        let file = lookup(files, wanted.content_id);
        if let Ok(range) = loaded_range(
            store,
            keys,
            wanted.content_id,
            wanted.start_offset,
            file,
        ) {
            let offer = offer_of(wanted, range.encrypted_size);
            lemma_uuid_bytes(wanted.request_id);
            wanted.content_id.lemma_view();
        }
    }
}

} // verus!
