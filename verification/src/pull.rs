//! How a device asks a peer for its changes and for the objects that they need.
//!
//! The device asks for one page of the log after the other. What a page leaves missing is asked
//! for object by object, and the page is admitted again once everything is there.
use vstd::prelude::*;

use crate::bytes::copy_bytes;
use crate::catalog::{PeerObjectKey, RequestRow, StoreError};
use crate::exchange::{
    admit_change_batch, incoming_batch, AdmissionReportView, ChangeBatchAdmissionReport,
};
use crate::exchange_laws::law_counts_are_bounded;
use crate::history::watermark_at;
use crate::ids::{
    is_random_uuid, random_uuid, uuid_bytes, ContentId, DeviceId, GroupId,
};
use crate::keys::{GroupKeys, KeysView};
use crate::oneof::{ControlEnvelope, ControlEnvelopeView, ControlMessage, ControlMessageView};
use crate::opening::ObjectFiles;
use crate::outcome::agrees;
use crate::protocol::{LimitsView, ProtocolLimits};
use crate::store::{
    append_verdict, completion_verdict, file_bytes, transfer_at, transfer_verdict, with_appended,
    with_completion, with_transfer, Admission, IncomingObjectTransfer, ObjectTransferAdmission,
    Store, StoreView,
};
use crate::table::{lookup, put};
use crate::transfer::{
    build_object_range_request, offered_for, range_request_of, range_requested,
    validate_object_offer_for_request, validate_object_range_request, ValidatedObjectRangeRequest,
    ValidatedObjectTransfer,
};
use crate::transport::{
    control_envelope, enveloped, page_problem, require_control_message, unexpected,
    unexpected_control_message, validate_page_size, validate_session_group, AcknowledgementStatus,
    TransportError, TransportProblem,
};
use crate::wire::{
    ChangeBatch, ChangeBatchView, ChangeLogRequest, ChangeLogRequestView, ObjectAcknowledgement,
    ObjectAcknowledgementView, ObjectRangeRequest,
};

verus! {

/// How many bytes of an object are read at once.
pub const OBJECT_TRANSFER_BUFFER_SIZE: usize = 65536;

#[derive(Clone, Copy, Debug, Default, PartialEq, Eq, Structural)]
pub struct PullReport {
    pub pages_received: usize,
    pub records_committed: usize,
    pub records_replayed: usize,
    pub objects_requested: usize,
    pub objects_stored: usize,
    pub objects_reused: usize,
    pub encrypted_bytes_received: u64,
    pub peer_high_watermark: u64,
}

impl PullReport {
    /// The report before anything was received.
    pub open spec fn started(peer_high_watermark: u64) -> PullReport {
        PullReport {
            pages_received: 0,
            records_committed: 0,
            records_replayed: 0,
            objects_requested: 0,
            objects_stored: 0,
            objects_reused: 0,
            encrypted_bytes_received: 0,
            peer_high_watermark,
        }
    }

    /// There is room in the report for a page of so many changes and for what it leaves missing.
    pub open spec fn room_for(self, records: nat) -> bool {
        &&& self.pages_received < usize::MAX
        &&& self.records_committed + records <= usize::MAX
        &&& self.records_replayed + records <= usize::MAX
    }

    /// There is room in the report for one more object of so many bytes.
    pub open spec fn room_for_object(self, bytes: u64) -> bool {
        &&& self.objects_requested < usize::MAX
        &&& self.objects_stored < usize::MAX
        &&& self.objects_reused < usize::MAX
        &&& self.encrypted_bytes_received + bytes <= u64::MAX
    }

    /// Tells whether there is room in the report for a page of so many changes.
    pub fn has_room_for(&self, records: usize) -> (room: bool)
        ensures
            room == self.room_for(records as nat),
    {
        self.pages_received < usize::MAX && records <= usize::MAX - self.records_committed
            && records <= usize::MAX - self.records_replayed
    }

    /// Tells whether there is room in the report for one more object of so many bytes.
    pub fn has_room_for_object(&self, bytes: u64) -> (room: bool)
        ensures
            room == self.room_for_object(bytes),
    {
        self.objects_requested < usize::MAX && self.objects_stored < usize::MAX
            && self.objects_reused < usize::MAX && bytes <= u64::MAX
            - self.encrypted_bytes_received
    }

    /// Counts an object that turned out to be there.
    pub fn add_reused(&mut self)
        requires
            old(self).objects_reused < usize::MAX,
        ensures
            *final(self) == (PullReport {
                objects_reused: (old(self).objects_reused + 1) as usize,
                ..*old(self)
            }),
    {
        self.objects_reused = self.objects_reused + 1;
    }

    /// Counts an object that was pulled.
    pub fn add_object(&mut self, object: PulledObject)
        requires
            old(self).room_for_object(object.encrypted_bytes_received),
        ensures
            *final(self) == (PullReport {
                objects_requested: (old(self).objects_requested + 1) as usize,
                encrypted_bytes_received: (old(self).encrypted_bytes_received
                    + object.encrypted_bytes_received) as u64,
                objects_stored: if object.admission == Admission::Stored {
                    (old(self).objects_stored + 1) as usize
                } else {
                    old(self).objects_stored
                },
                objects_reused: if object.admission == Admission::AlreadyPresent {
                    (old(self).objects_reused + 1) as usize
                } else {
                    old(self).objects_reused
                },
                ..*old(self)
            }),
    {
        self.objects_requested = self.objects_requested + 1;
        self.encrypted_bytes_received = self.encrypted_bytes_received
            + object.encrypted_bytes_received;
        match object.admission {
            Admission::Stored => {
                self.objects_stored = self.objects_stored + 1;
            },
            Admission::AlreadyPresent => {
                self.objects_reused = self.objects_reused + 1;
            },
        }
    }
}

/// How far the log of a peer has been pulled.
#[derive(Clone, Copy, Debug, PartialEq, Eq)]
pub struct PullState {
    pub after_sequence: u64,
    pub maximum_records: u32,
    pub report: PullReport,
}

/// The start of a pull, or why there is none.
pub open spec fn pull_begun(
    store: StoreView,
    session_group_id: GroupId,
    group_id: GroupId,
    peer_device_id: DeviceId,
    maximum_records: usize,
    limits: LimitsView,
) -> Result<PullState, TransportProblem> {
    let watermark = watermark_at(store, group_id, peer_device_id);
    if session_group_id != group_id {
        Err(
            TransportProblem::SessionGroupMismatch {
                session: session_group_id,
                keys: group_id,
            },
        )
    } else if page_problem(maximum_records, limits) is Some {
        Err(page_problem(maximum_records, limits)->0)
    } else if maximum_records > u32::MAX {
        Err(
            TransportProblem::InvalidPageSize {
                actual: maximum_records,
                maximum: limits.maximum_change_records_per_batch,
            },
        )
    } else {
        Ok(
            PullState {
                after_sequence: watermark,
                maximum_records: maximum_records as u32,
                report: PullReport::started(watermark),
            },
        )
    }
}

/// Starts to pull the changes of a peer, after those that are known.
pub fn begin_pull(
    session_group_id: GroupId,
    peer_device_id: DeviceId,
    keys: &GroupKeys,
    store: &Store,
    maximum_records_per_page: usize,
    limits: ProtocolLimits,
) -> (result: Result<PullState, TransportError>)
    ensures
        match result {
            Ok(state) => pull_begun(
                store@,
                session_group_id,
                keys@.group_id,
                peer_device_id,
                maximum_records_per_page,
                limits@,
            ) == Ok::<PullState, TransportProblem>(state),
            Err(error) => pull_begun(
                store@,
                session_group_id,
                keys@.group_id,
                peer_device_id,
                maximum_records_per_page,
                limits@,
            ) == Err::<PullState, TransportProblem>(error@),
        },
{
    validate_session_group(session_group_id, keys)?;
    validate_page_size(maximum_records_per_page, limits)?;
    if maximum_records_per_page as u64 > u32::MAX as u64 {
        return Err(
            TransportError::InvalidPageSize {
                actual: maximum_records_per_page,
                maximum: limits.maximum_change_records_per_batch(),
            },
        );
    }
    let watermark: u64 = store.peer_high_watermark(keys.group_id(), peer_device_id);
    Ok(
        PullState {
            after_sequence: watermark,
            maximum_records: maximum_records_per_page as u32,
            report: PullReport {
                pages_received: 0,
                records_committed: 0,
                records_replayed: 0,
                objects_requested: 0,
                objects_stored: 0,
                objects_reused: 0,
                encrypted_bytes_received: 0,
                peer_high_watermark: watermark,
            },
        },
    )
}

/// A page of a peer's log.
#[derive(Debug)]
pub struct PulledPage {
    pub batch: ChangeBatch,
    pub missing_content_ids: Vec<ContentId>,
    pub high_watermark: u64,
}

/// The contents of a `PulledPage`.
pub struct PulledPageView {
    pub batch: ChangeBatchView,
    pub missing_content_ids: Seq<ContentId>,
    pub high_watermark: u64,
}

impl View for PulledPage {
    type V = PulledPageView;

    open spec fn view(&self) -> PulledPageView {
        PulledPageView {
            batch: self.batch@,
            missing_content_ids: self.missing_content_ids@,
            high_watermark: self.high_watermark,
        }
    }
}

/// The number of changes in an envelope.
pub open spec fn records_in(envelope: ControlEnvelopeView) -> nat {
    match envelope.message {
        Some(ControlMessageView::ChangeBatch(batch)) => batch.records.len(),
        _ => 0,
    }
}

/// What a page of a peer's log comes to: what was admitted of it and what it leaves missing.
pub open spec fn page_received(
    store: StoreView,
    keys: KeysView,
    files: Seq<(ContentId, Seq<u8>)>,
    present: Seq<ContentId>,
    peer_device_id: DeviceId,
    envelope: ControlEnvelopeView,
    limits: LimitsView,
    now: i64,
) -> (StoreView, Result<(AdmissionReportView, ChangeBatchView), TransportProblem>) {
    match envelope.message {
        None => (store, Err(TransportProblem::MissingControlMessage)),
        Some(ControlMessageView::ChangeBatch(batch)) => {
            let (after, result) = incoming_batch(
                store,
                keys,
                files,
                present,
                peer_device_id,
                batch,
                limits,
                now,
            );
            (
                after,
                match result {
                    Err(problem) => Err(TransportProblem::ChangeBatchAdmission(problem)),
                    Ok(report) => Ok((report, batch)),
                },
            )
        },
        Some(message) => (store, Err(unexpected("change_batch", message))),
    }
}

/// What admitting a page again comes to, once what it left missing was pulled.
pub open spec fn page_retried(
    store: StoreView,
    keys: KeysView,
    files: Seq<(ContentId, Seq<u8>)>,
    present: Seq<ContentId>,
    peer_device_id: DeviceId,
    batch: ChangeBatchView,
    limits: LimitsView,
    now: i64,
) -> (StoreView, Result<AdmissionReportView, TransportProblem>) {
    let (after, result) = incoming_batch(
        store,
        keys,
        files,
        present,
        peer_device_id,
        batch,
        limits,
        now,
    );
    (
        after,
        match result {
            Err(problem) => Err(TransportProblem::ChangeBatchAdmission(problem)),
            Ok(report) => if report.missing_content_ids.len() > 0 {
                Err(
                    TransportProblem::ObjectsStillMissing {
                        count: report.missing_content_ids.len(),
                    },
                )
            } else {
                Ok(report)
            },
        },
    )
}

/// Where the pull goes on after a page: none where the log ends there.
pub open spec fn page_followed(state: PullState, high_watermark: u64, has_more: bool) -> Result<
    Option<u64>,
    TransportProblem,
> {
    if !has_more {
        Ok(None)
    } else if high_watermark <= state.after_sequence {
        Err(
            TransportProblem::ChangePageMadeNoProgress {
                after_sequence: state.after_sequence,
                high_watermark,
            },
        )
    } else {
        Ok(Some(high_watermark))
    }
}

impl PullState {
    /// The request for the next page.
    pub fn request(&self) -> (envelope: ControlEnvelope)
        ensures
            envelope@ == enveloped(
                ControlMessageView::ChangeLogRequest(
                    ChangeLogRequestView {
                        after_sequence: self.after_sequence,
                        maximum_records: self.maximum_records,
                    },
                ),
            ),
    {
        control_envelope(
            ControlMessage::ChangeLogRequest(
                ChangeLogRequest {
                    after_sequence: self.after_sequence,
                    maximum_records: self.maximum_records,
                },
            ),
        )
    }

    /// Takes in the answer to the request for a page. `files` holds the files of manifests,
    /// `present` names the chunks whose files are there.
    pub fn receive_page(
        &mut self,
        envelope: ControlEnvelope,
        peer_device_id: DeviceId,
        keys: &GroupKeys,
        store: &mut Store,
        limits: ProtocolLimits,
        files: &ObjectFiles,
        present: &Vec<ContentId>,
        now: i64,
    ) -> (result: Result<PulledPage, TransportError>)
        requires
            old(self).report.room_for(records_in(envelope@)),
        ensures
            ({
                let (after, outcome) = page_received(
                    old(store)@,
                    keys@,
                    files@,
                    present@,
                    peer_device_id,
                    envelope@,
                    limits@,
                    now,
                );
                &&& final(store)@ == after
                &&& match result {
                    Err(error) => outcome is Err && outcome->Err_0 == error@ && *final(self)
                        == *old(self),
                    Ok(page) => {
                        &&& outcome matches Ok((report, batch))
                        &&& page@ == (PulledPageView {
                            batch,
                            missing_content_ids: report.missing_content_ids,
                            high_watermark: report.peer_high_watermark,
                        })
                        &&& *final(self) == (PullState {
                            report: PullReport {
                                pages_received: (old(self).report.pages_received + 1) as usize,
                                records_committed: (old(self).report.records_committed
                                    + report.records_committed) as usize,
                                records_replayed: (old(self).report.records_replayed
                                    + report.records_replayed) as usize,
                                ..old(self).report
                            },
                            ..*old(self)
                        })
                    },
                }
            }),
    {
        let batch: ChangeBatch = match require_control_message(envelope)? {
            ControlMessage::ChangeBatch(batch) => batch,
            message => {
                return Err(unexpected_control_message("change_batch", &message));
            },
        };
        proof {
            law_counts_are_bounded(
                store@,
                keys@,
                files@,
                present@,
                peer_device_id,
                batch@,
                limits@,
                now,
            );
        }
        let admission: ChangeBatchAdmissionReport = match admit_change_batch(
            peer_device_id,
            &batch,
            keys,
            store,
            limits,
            files,
            present,
            now,
        ) {
            Ok(admission) => admission,
            Err(error) => {
                return Err(TransportError::ChangeBatchAdmission(error));
            },
        };
        self.report.pages_received = self.report.pages_received + 1;
        self.report.records_committed = self.report.records_committed
            + admission.records_committed;
        self.report.records_replayed = self.report.records_replayed + admission.records_replayed;
        Ok(
            PulledPage {
                batch,
                missing_content_ids: admission.missing_content_ids,
                high_watermark: admission.peer_high_watermark,
            },
        )
    }

    /// Admits a page again, once what it left missing was pulled. `files` holds the files of
    /// manifests, `present` names the chunks whose files are there.
    pub fn retry_page(
        &mut self,
        page: &mut PulledPage,
        peer_device_id: DeviceId,
        keys: &GroupKeys,
        store: &mut Store,
        limits: ProtocolLimits,
        files: &ObjectFiles,
        present: &Vec<ContentId>,
        now: i64,
    ) -> (result: Result<(), TransportError>)
        requires
            old(self).report.room_for(old(page)@.batch.records.len()),
        ensures
            ({
                let (after, outcome) = page_retried(
                    old(store)@,
                    keys@,
                    files@,
                    present@,
                    peer_device_id,
                    old(page)@.batch,
                    limits@,
                    now,
                );
                &&& final(store)@ == after
                &&& match result {
                    Err(error) => outcome is Err && outcome->Err_0 == error@ && *final(self)
                        == *old(self) && final(page)@ == old(page)@,
                    Ok(_) => {
                        &&& outcome matches Ok(report)
                        &&& final(page)@ == (PulledPageView {
                            missing_content_ids: seq![],
                            high_watermark: report.peer_high_watermark,
                            ..old(page)@
                        })
                        &&& *final(self) == (PullState {
                            report: PullReport {
                                records_committed: (old(self).report.records_committed
                                    + report.records_committed) as usize,
                                ..old(self).report
                            },
                            ..*old(self)
                        })
                    },
                }
            }),
    {
        proof {
            law_counts_are_bounded(
                store@,
                keys@,
                files@,
                present@,
                peer_device_id,
                page.batch@,
                limits@,
                now,
            );
        }
        let admission: ChangeBatchAdmissionReport = match admit_change_batch(
            peer_device_id,
            &page.batch,
            keys,
            store,
            limits,
            files,
            present,
            now,
        ) {
            Ok(admission) => admission,
            Err(error) => {
                return Err(TransportError::ChangeBatchAdmission(error));
            },
        };
        if admission.missing_content_ids.len() > 0 {
            return Err(
                TransportError::ObjectsStillMissing { count: admission.missing_content_ids.len() },
            );
        }
        self.report.records_committed = self.report.records_committed
            + admission.records_committed;
        page.missing_content_ids = Vec::new();
        page.high_watermark = admission.peer_high_watermark;
        Ok(())
    }

    /// Notes how far a page went, and tells whether there is another to ask for: each page goes
    /// further than the one before.
    pub fn finish_page(&mut self, page: &PulledPage) -> (result: Result<bool, TransportError>)
        ensures
            ({
                let outcome = page_followed(
                    *old(self),
                    page@.high_watermark,
                    page@.batch.has_more,
                );
                let report = PullReport {
                    peer_high_watermark: page@.high_watermark,
                    ..old(self).report
                };
                match result {
                    Err(error) => {
                        &&& outcome is Err
                        &&& outcome->Err_0 == error@
                        &&& *final(self) == (PullState { report, ..*old(self) })
                    },
                    Ok(more) => {
                        &&& outcome is Ok
                        &&& more == (outcome->Ok_0 is Some)
                        &&& *final(self) == (PullState {
                            after_sequence: if more {
                                page@.high_watermark
                            } else {
                                old(self).after_sequence
                            },
                            report,
                            ..*old(self)
                        })
                        &&& more ==> final(self).after_sequence > old(self).after_sequence
                    },
                }
            }),
    {
        self.report.peer_high_watermark = page.high_watermark;
        if !page.batch.has_more {
            return Ok(false);
        }
        if page.high_watermark <= self.after_sequence {
            return Err(
                TransportError::ChangePageMadeNoProgress {
                    after_sequence: self.after_sequence,
                    high_watermark: page.high_watermark,
                },
            );
        }
        self.after_sequence = page.high_watermark;
        Ok(true)
    }
}

/// Checks that a peer says nothing more once everything was pulled.
pub fn end_pull(envelope: Option<ControlEnvelope>) -> (result: Result<(), TransportError>)
    ensures
        match envelope {
            None => result is Ok,
            Some(envelope) => result matches Err(error) && error@ == match envelope@.message {
                None => TransportProblem::MissingControlMessage,
                Some(message) => unexpected("control stream completion", message),
            },
        },
{
    match envelope {
        None => Ok(()),
        Some(envelope) => {
            let message: ControlMessage = require_control_message(envelope)?;
            Err(unexpected_control_message("control stream completion", &message))
        },
    }
}

/// An object that was pulled.
#[derive(Clone, Copy, Debug, PartialEq, Eq, Structural)]
pub struct PulledObject {
    pub admission: Admission,
    pub encrypted_bytes_received: u64,
}

/// What to do about an object that is missing.
#[derive(Debug)]
pub enum ObjectStep {
    /// It had arrived already.
    Done(PulledObject),
    /// It has to be asked for.
    Ask { envelope: ControlEnvelope, request: ValidatedObjectRangeRequest },
}

/// The contents of an `ObjectStep`.
pub enum ObjectStepView {
    Done(PulledObject),
    Ask { envelope: ControlEnvelopeView, request: ValidatedObjectRangeRequest },
}

impl View for ObjectStep {
    type V = ObjectStepView;

    open spec fn view(&self) -> ObjectStepView {
        match *self {
            ObjectStep::Done(object) => ObjectStepView::Done(object),
            ObjectStep::Ask { envelope, request } => ObjectStepView::Ask {
                envelope: envelope@,
                request,
            },
        }
    }
}

/// The store after an attempt to get an object was noted, where the object was asked for.
pub open spec fn attempt_noted(
    store: StoreView,
    group_id: GroupId,
    peer_device_id: DeviceId,
    content_id: ContentId,
    now: i64,
) -> (StoreView, Option<StoreError>) {
    let key = PeerObjectKey { group_id, peer_device_id, content_id };
    match lookup(store.requests, key) {
        None => (store, None),
        Some(row) => if row.attempt_count >= i64::MAX {
            (store, Some(StoreError::CatalogFull))
        } else {
            (
                StoreView {
                    requests: put(
                        store.requests,
                        key,
                        RequestRow {
                            attempt_count: (row.attempt_count + 1) as u64,
                            last_attempt_at_unix_ms: Some(now),
                            ..row
                        },
                    ),
                    ..store
                },
                None,
            )
        },
    }
}

/// What to do about an object that is missing: where it has arrived it is accepted, and else the
/// rest of it is asked for. `file` is what has arrived, `existing` what the object's file holds.
pub open spec fn object_begun(
    store: StoreView,
    keys: KeysView,
    peer_device_id: DeviceId,
    content_id: ContentId,
    request_id: u128,
    limits: LimitsView,
    file: Option<Seq<u8>>,
    existing: Option<Seq<u8>>,
    now: i64,
) -> (StoreView, Result<ObjectStepView, TransportProblem>) {
    match transfer_at(store, keys.group_id, peer_device_id, content_id) {
        Err(error) => (store, Err(TransportProblem::Store(error))),
        Ok(Some(transfer)) => if transfer.received_size == transfer.encrypted_size {
            (
                with_completion(
                    store,
                    keys,
                    peer_device_id,
                    content_id,
                    file,
                    existing,
                    now,
                ),
                match completion_verdict(
                    store,
                    keys,
                    peer_device_id,
                    content_id,
                    file,
                    existing,
                ) {
                    Err(error) => Err(TransportProblem::Store(error)),
                    Ok(admission) => Ok(
                        ObjectStepView::Done(
                            PulledObject { admission, encrypted_bytes_received: 0 },
                        ),
                    ),
                },
            )
        } else {
            object_asked(
                store,
                keys.group_id,
                peer_device_id,
                content_id,
                request_id,
                transfer.received_size,
                limits,
                now,
            )
        },
        Ok(None) => object_asked(
            store,
            keys.group_id,
            peer_device_id,
            content_id,
            request_id,
            0,
            limits,
            now,
        ),
    }
}

/// The request for the rest of an object, and the store with the attempt.
pub open spec fn object_asked(
    store: StoreView,
    group_id: GroupId,
    peer_device_id: DeviceId,
    content_id: ContentId,
    request_id: u128,
    start_offset: u64,
    limits: LimitsView,
    now: i64,
) -> (StoreView, Result<ObjectStepView, TransportProblem>) {
    let request = range_request_of(request_id, content_id, start_offset);
    match range_requested(request, limits) {
        Err(error) => (store, Err(TransportProblem::Protocol(error))),
        Ok(validated) => {
            let (after, problem) = attempt_noted(
                store,
                group_id,
                peer_device_id,
                content_id,
                now,
            );
            (
                after,
                match problem {
                    Some(error) => Err(TransportProblem::Store(error)),
                    None => Ok(
                        ObjectStepView::Ask {
                            envelope: enveloped(ControlMessageView::ObjectRangeRequest(request)),
                            request: validated,
                        },
                    ),
                },
            )
        },
    }
}

fn ask_for_object(
    content_id: ContentId,
    start_offset: u64,
    peer_device_id: DeviceId,
    group_id: GroupId,
    store: &mut Store,
    request_id: u128,
    limits: ProtocolLimits,
    now: i64,
) -> (result: Result<ObjectStep, TransportError>)
    ensures
        final(store)@ == object_asked(
            old(store)@,
            group_id,
            peer_device_id,
            content_id,
            request_id,
            start_offset,
            limits@,
            now,
        ).0,
        agrees(
            result,
            object_asked(
                old(store)@,
                group_id,
                peer_device_id,
                content_id,
                request_id,
                start_offset,
                limits@,
                now,
            ).1,
        ),
{
    let request: ObjectRangeRequest = match build_object_range_request(
        request_id,
        content_id,
        start_offset,
        limits,
    ) {
        Ok(request) => request,
        Err(error) => {
            return Err(TransportError::Protocol(error));
        },
    };
    let validated: ValidatedObjectRangeRequest = match validate_object_range_request(
        &request,
        limits,
    ) {
        Ok(validated) => validated,
        Err(error) => {
            return Err(TransportError::Protocol(error));
        },
    };
    match store.mark_object_request_attempt(group_id, peer_device_id, content_id, now) {
        Ok(_) => Ok(
            ObjectStep::Ask {
                envelope: control_envelope(ControlMessage::ObjectRangeRequest(request)),
                request: validated,
            },
        ),
        Err(error) => Err(TransportError::Store(error)),
    }
}

enum Start {
    Done(PulledObject),
    Ask(u64),
}

fn find_start(
    content_id: ContentId,
    peer_device_id: DeviceId,
    keys: &GroupKeys,
    store: &mut Store,
    file: Option<&[u8]>,
    existing: Option<&[u8]>,
    now: i64,
) -> (result: Result<Start, TransportError>)
    ensures
        forall|request_id: u128, limits: LimitsView|
            {
                let begun = #[trigger] object_begun(
                    old(store)@,
                    keys@,
                    peer_device_id,
                    content_id,
                    request_id,
                    limits,
                    file_bytes(file),
                    file_bytes(existing),
                    now,
                );
                match result {
                    Ok(Start::Done(object)) => begun == (
                        final(store)@,
                        Ok::<ObjectStepView, TransportProblem>(ObjectStepView::Done(object)),
                    ),
                    Ok(Start::Ask(start_offset)) => begun == object_asked(
                        final(store)@,
                        keys@.group_id,
                        peer_device_id,
                        content_id,
                        request_id,
                        start_offset,
                        limits,
                        now,
                    ),
                    Err(error) => begun == (
                        final(store)@,
                        Err::<ObjectStepView, TransportProblem>(error@),
                    ),
                }
            },
{
    let group_id: GroupId = keys.group_id();
    let transfer: Option<IncomingObjectTransfer> = match store.incoming_object_transfer(
        group_id,
        peer_device_id,
        content_id,
    ) {
        Ok(transfer) => transfer,
        Err(error) => {
            return Err(TransportError::Store(error));
        },
    };
    match transfer {
        Some(transfer) => {
            if transfer.received_size == transfer.encrypted_size {
                return match store.complete_object_transfer(
                    keys,
                    peer_device_id,
                    content_id,
                    file,
                    existing,
                    now,
                ) {
                    Ok(admission) => Ok(
                        Start::Done(PulledObject { admission, encrypted_bytes_received: 0 }),
                    ),
                    Err(error) => Err(TransportError::Store(error)),
                };
            }
            Ok(Start::Ask(transfer.received_size))
        },
        None => Ok(Start::Ask(0)),
    }
}

/// Starts to get an object that is missing, under a request with a fresh random identifier, which
/// is drawn where something is to be asked for. `file` is what has arrived of the object,
/// `existing` what the object's file holds.
pub fn begin_object(
    content_id: ContentId,
    peer_device_id: DeviceId,
    keys: &GroupKeys,
    store: &mut Store,
    limits: ProtocolLimits,
    file: Option<&[u8]>,
    existing: Option<&[u8]>,
    now: i64,
) -> (result: Result<ObjectStep, TransportError>)
    ensures
        exists|request_id: u128|
            {
                let (after, outcome) = #[trigger] object_begun(
                    old(store)@,
                    keys@,
                    peer_device_id,
                    content_id,
                    request_id,
                    limits@,
                    file_bytes(file),
                    file_bytes(existing),
                    now,
                );
                is_random_uuid(request_id) && final(store)@ == after && agrees(result, outcome)
            },
{
    let ghost before = store@;
    let start: Result<Start, TransportError> = find_start(
        content_id,
        peer_device_id,
        keys,
        store,
        file,
        existing,
        now,
    );
    proof {
        let unasked: u128 = 0x4000_8000_0000_0000_0000;
        assert(is_random_uuid(unasked));
        let begun = object_begun(
            before,
            keys@,
            peer_device_id,
            content_id,
            unasked,
            limits@,
            file_bytes(file),
            file_bytes(existing),
            now,
        );
    }
    match start {
        Ok(Start::Done(object)) => Ok(ObjectStep::Done(object)),
        Ok(Start::Ask(start_offset)) => {
            let request_id: u128 = random_uuid();
            proof {
                let begun = object_begun(
                    before,
                    keys@,
                    peer_device_id,
                    content_id,
                    request_id,
                    limits@,
                    file_bytes(file),
                    file_bytes(existing),
                    now,
                );
            }
            ask_for_object(
                content_id,
                start_offset,
                peer_device_id,
                keys.group_id(),
                store,
                request_id,
                limits,
                now,
            )
        },
        Err(error) => Err(error),
    }
}

/// Starts to get an object that is missing, under a request with the given identifier. `file` is
/// what has arrived of it, `existing` what the object's file holds.
pub fn begin_object_with(
    content_id: ContentId,
    peer_device_id: DeviceId,
    keys: &GroupKeys,
    store: &mut Store,
    request_id: u128,
    limits: ProtocolLimits,
    file: Option<&[u8]>,
    existing: Option<&[u8]>,
    now: i64,
) -> (result: Result<ObjectStep, TransportError>)
    ensures
        final(store)@ == object_begun(
            old(store)@,
            keys@,
            peer_device_id,
            content_id,
            request_id,
            limits@,
            file_bytes(file),
            file_bytes(existing),
            now,
        ).0,
        agrees(
            result,
            object_begun(
                old(store)@,
                keys@,
                peer_device_id,
                content_id,
                request_id,
                limits@,
                file_bytes(file),
                file_bytes(existing),
                now,
            ).1,
        ),
{
    match find_start(content_id, peer_device_id, keys, store, file, existing, now) {
        Ok(Start::Done(object)) => Ok(ObjectStep::Done(object)),
        Ok(Start::Ask(start_offset)) => ask_for_object(
            content_id,
            start_offset,
            peer_device_id,
            keys.group_id(),
            store,
            request_id,
            limits,
            now,
        ),
        Err(error) => Err(error),
    }
}

/// How far an object has arrived, and whether what arrives is kept.
#[derive(Clone, Copy, Debug, PartialEq, Eq, Structural)]
pub struct ObjectReceipt {
    pub transfer: ValidatedObjectTransfer,
    pub offset: u64,
    pub persist: bool,
}

/// How an object that is offered is received, and the store with the transfer: it is not kept
/// where it has come from elsewhere meanwhile.
pub open spec fn offer_accepted(
    store: StoreView,
    group_id: GroupId,
    peer_device_id: DeviceId,
    envelope: ControlEnvelopeView,
    request: ValidatedObjectRangeRequest,
    limits: LimitsView,
    file_present: bool,
) -> (StoreView, Result<ObjectReceipt, TransportProblem>) {
    match envelope.message {
        None => (store, Err(TransportProblem::MissingControlMessage)),
        Some(ControlMessageView::ObjectOffer(offer)) => match offered_for(
            offer,
            request,
            limits,
        ) {
            Err(error) => (store, Err(TransportProblem::Protocol(error))),
            Ok(transfer) => (
                with_transfer(
                    store,
                    group_id,
                    peer_device_id,
                    transfer.request_id,
                    transfer.content_id,
                    transfer.encrypted_size,
                    file_present,
                ),
                match transfer_verdict(
                    store,
                    group_id,
                    peer_device_id,
                    transfer.request_id,
                    transfer.content_id,
                    transfer.encrypted_size,
                    file_present,
                ) {
                    Err(error) => Err(TransportProblem::Store(error)),
                    Ok(admission) => receipt_of(transfer, admission),
                },
            ),
        },
        Some(message) => (store, Err(unexpected("object_offer", message))),
    }
}

/// The receipt of a transfer: it goes on where the store has left off.
pub open spec fn receipt_of(
    transfer: ValidatedObjectTransfer,
    admission: ObjectTransferAdmission,
) -> Result<ObjectReceipt, TransportProblem> {
    let durable = match admission {
        ObjectTransferAdmission::Started => 0,
        ObjectTransferAdmission::Resuming { received_size } => received_size,
        ObjectTransferAdmission::AlreadyPresent => transfer.start_offset,
    };
    if durable != transfer.start_offset {
        Err(
            TransportProblem::TransferResumeOffsetMismatch {
                requested: transfer.start_offset,
                durable,
            },
        )
    } else {
        Ok(
            ObjectReceipt {
                transfer,
                offset: transfer.start_offset,
                persist: admission != ObjectTransferAdmission::AlreadyPresent,
            },
        )
    }
}

/// Takes in the answer to the request for an object.
pub fn accept_offer(
    envelope: ControlEnvelope,
    request: ValidatedObjectRangeRequest,
    group_id: GroupId,
    peer_device_id: DeviceId,
    store: &mut Store,
    limits: ProtocolLimits,
    file_present: bool,
) -> (result: Result<ObjectReceipt, TransportError>)
    ensures
        ({
            let (after, outcome) = offer_accepted(
                old(store)@,
                group_id,
                peer_device_id,
                envelope@,
                request,
                limits@,
                file_present,
            );
            &&& final(store)@ == after
            &&& match result {
                Ok(receipt) => outcome == Ok::<ObjectReceipt, TransportProblem>(receipt),
                Err(error) => outcome == Err::<ObjectReceipt, TransportProblem>(error@),
            }
        }),
{
    let transfer: ValidatedObjectTransfer = match require_control_message(envelope)? {
        ControlMessage::ObjectOffer(offer) => match validate_object_offer_for_request(
            &offer,
            request,
            limits,
        ) {
            Ok(transfer) => transfer,
            Err(error) => {
                return Err(TransportError::Protocol(error));
            },
        },
        message => {
            return Err(unexpected_control_message("object_offer", &message));
        },
    };
    let admission: ObjectTransferAdmission = match store.begin_object_transfer(
        group_id,
        peer_device_id,
        transfer.request_id,
        transfer.content_id,
        transfer.encrypted_size,
        file_present,
    ) {
        Ok(admission) => admission,
        Err(error) => {
            return Err(TransportError::Store(error));
        },
    };
    let durable: u64 = match admission {
        ObjectTransferAdmission::Started => 0,
        ObjectTransferAdmission::Resuming { received_size } => received_size,
        ObjectTransferAdmission::AlreadyPresent => transfer.start_offset,
    };
    if durable != transfer.start_offset {
        return Err(
            TransportError::TransferResumeOffsetMismatch {
                requested: transfer.start_offset,
                durable,
            },
        );
    }
    Ok(
        ObjectReceipt {
            transfer,
            offset: transfer.start_offset,
            persist: admission != ObjectTransferAdmission::AlreadyPresent,
        },
    )
}

impl ObjectReceipt {
    /// The receipt of a transfer that goes on: no more than the object holds has arrived.
    pub open spec fn in_progress(self) -> bool {
        self.transfer.start_offset <= self.offset <= self.transfer.encrypted_size
    }

    /// How many bytes are read next, none once all have arrived.
    pub open spec fn next_bytes(self) -> int {
        if self.transfer.encrypted_size - self.offset < OBJECT_TRANSFER_BUFFER_SIZE {
            self.transfer.encrypted_size - self.offset
        } else {
            OBJECT_TRANSFER_BUFFER_SIZE as int
        }
    }

    /// Tells how many bytes are read next, none once all have arrived.
    pub fn wanted(&self) -> (count: usize)
        requires
            self.in_progress(),
        ensures
            count == self.next_bytes(),
    {
        let remaining: u64 = self.transfer.encrypted_size - self.offset;
        if remaining < OBJECT_TRANSFER_BUFFER_SIZE as u64 {
            remaining as usize
        } else {
            OBJECT_TRANSFER_BUFFER_SIZE
        }
    }

    /// Takes in bytes of the object, none where the stream has ended. `file_size` is the size of
    /// the file to which they go.
    pub fn take(
        &mut self,
        received: Option<&[u8]>,
        group_id: GroupId,
        peer_device_id: DeviceId,
        store: &mut Store,
        file_size: Option<u64>,
    ) -> (result: Result<(), TransportError>)
        requires
            old(self).in_progress(),
            received is Some ==> received->0@.len() <= old(self).next_bytes(),
        ensures
            final(self).in_progress(),
            match received {
                None => {
                    &&& result matches Err(error)
                    &&& error@ == (TransportProblem::ObjectStreamFinishedEarly {
                        expected: old(self).transfer.encrypted_size,
                        actual: old(self).offset,
                    })
                    &&& *final(self) == *old(self)
                    &&& final(store)@ == old(store)@
                },
                Some(bytes) => {
                    let verdict = append_verdict(
                        old(store)@,
                        group_id,
                        peer_device_id,
                        old(self).transfer.content_id,
                        old(self).offset,
                        bytes@.len(),
                        file_size,
                    );
                    let advanced = ObjectReceipt {
                        offset: (old(self).offset + bytes@.len()) as u64,
                        ..*old(self)
                    };
                    if !old(self).persist {
                        result is Ok && *final(self) == advanced && final(store)@ == old(store)@
                    } else {
                        &&& final(store)@ == with_appended(
                            old(store)@,
                            group_id,
                            peer_device_id,
                            old(self).transfer.content_id,
                            old(self).offset,
                            bytes@.len(),
                            file_size,
                        )
                        &&& match verdict {
                            Ok(_) => result is Ok && *final(self) == advanced,
                            Err(error) => {
                                &&& result matches Err(failure)
                                &&& failure@ == TransportProblem::Store(error)
                                &&& *final(self) == *old(self)
                            },
                        }
                    }
                },
            },
    {
        let bytes: &[u8] = match received {
            Some(bytes) => bytes,
            None => {
                return Err(
                    TransportError::ObjectStreamFinishedEarly {
                        expected: self.transfer.encrypted_size,
                        actual: self.offset,
                    },
                );
            },
        };
        if self.persist {
            if let Err(error) = store.append_object_transfer(
                group_id,
                peer_device_id,
                self.transfer.content_id,
                self.offset,
                bytes,
                file_size,
            ) {
                return Err(TransportError::Store(error));
            }
        }
        self.offset = self.offset + bytes.len() as u64;
        Ok(())
    }

    /// The number of bytes that arrived, once all have and nothing follows them.
    pub fn finish(&self, trailing: bool) -> (result: Result<u64, TransportError>)
        requires
            self.in_progress(),
        ensures
            if trailing {
                result matches Err(error) && error@
                    == TransportProblem::ObjectStreamHasTrailingBytes
            } else {
                result == Ok::<u64, TransportError>(
                    (self.offset - self.transfer.start_offset) as u64,
                )
            },
    {
        if trailing {
            return Err(TransportError::ObjectStreamHasTrailingBytes);
        }
        Ok(self.offset - self.transfer.start_offset)
    }

    /// What a peer is told about an object that has arrived, and the store with the object.
    pub open spec fn settled(
        self,
        store: StoreView,
        keys: KeysView,
        peer_device_id: DeviceId,
        received: u64,
        file: Option<Seq<u8>>,
        existing: Option<Seq<u8>>,
        now: i64,
    ) -> (StoreView, Result<(PulledObject, ControlEnvelopeView), TransportProblem>) {
        let content_id = self.transfer.content_id;
        if self.persist {
            (
                with_completion(
                    store,
                    keys,
                    peer_device_id,
                    content_id,
                    file,
                    existing,
                    now,
                ),
                match completion_verdict(
                    store,
                    keys,
                    peer_device_id,
                    content_id,
                    file,
                    existing,
                ) {
                    Err(error) => Err(TransportProblem::Store(error)),
                    Ok(admission) => Ok(
                        (
                            PulledObject { admission, encrypted_bytes_received: received },
                            acknowledged(self.transfer, AcknowledgementStatus::Verified),
                        ),
                    ),
                },
            )
        } else {
            (
                store,
                Ok(
                    (
                        PulledObject {
                            admission: Admission::AlreadyPresent,
                            encrypted_bytes_received: received,
                        },
                        acknowledged(self.transfer, AcknowledgementStatus::AlreadyPresent),
                    ),
                ),
            )
        }
    }

    /// Accepts an object that has arrived, and tells what the peer is told. `file` is what has
    /// arrived, `existing` what the object's file holds.
    pub fn settle(
        &self,
        keys: &GroupKeys,
        peer_device_id: DeviceId,
        store: &mut Store,
        received: u64,
        file: Option<&[u8]>,
        existing: Option<&[u8]>,
        now: i64,
    ) -> (result: Result<(PulledObject, ControlEnvelope), TransportError>)
        ensures
            ({
                let (after, outcome) = self.settled(
                    old(store)@,
                    keys@,
                    peer_device_id,
                    received,
                    file_bytes(file),
                    file_bytes(existing),
                    now,
                );
                &&& final(store)@ == after
                &&& match result {
                    Ok((object, envelope)) => outcome == Ok::<
                        (PulledObject, ControlEnvelopeView),
                        TransportProblem,
                    >((object, envelope@)),
                    Err(error) => outcome == Err::<
                        (PulledObject, ControlEnvelopeView),
                        TransportProblem,
                    >(error@),
                }
            }),
    {
        if self.persist {
            match store.complete_object_transfer(
                keys,
                peer_device_id,
                self.transfer.content_id,
                file,
                existing,
                now,
            ) {
                Ok(admission) => Ok(
                    (
                        PulledObject { admission, encrypted_bytes_received: received },
                        acknowledge(self.transfer, AcknowledgementStatus::Verified),
                    ),
                ),
                Err(error) => Err(TransportError::Store(error)),
            }
        } else {
            Ok(
                (
                    PulledObject {
                        admission: Admission::AlreadyPresent,
                        encrypted_bytes_received: received,
                    },
                    acknowledge(self.transfer, AcknowledgementStatus::AlreadyPresent),
                ),
            )
        }
    }
}

/// The acknowledgement of a transfer.
pub open spec fn acknowledged(
    transfer: ValidatedObjectTransfer,
    status: AcknowledgementStatus,
) -> ControlEnvelopeView {
    enveloped(
        ControlMessageView::ObjectAcknowledgement(
            ObjectAcknowledgementView {
                request_id: uuid_bytes(transfer.request_id),
                content_id: transfer.content_id@,
                status: status.spec_number(),
            },
        ),
    )
}

fn acknowledge(transfer: ValidatedObjectTransfer, status: AcknowledgementStatus) -> (envelope:
    ControlEnvelope)
    ensures
        envelope@ == acknowledged(transfer, status),
{
    let request: DeviceId = DeviceId { value: transfer.request_id };
    control_envelope(
        ControlMessage::ObjectAcknowledgement(
            ObjectAcknowledgement {
                request_id: copy_bytes(request.to_bytes().as_slice()),
                content_id: copy_bytes(transfer.content_id.as_bytes().as_slice()),
                status: status.number(),
            },
        ),
    )
}

} // verus!
