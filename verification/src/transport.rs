//! What two devices that are connected say to each other, and how each knows the other.
use vstd::prelude::*;

use crate::bytes::{be_decode, be_value, bytes_equal, lemma_be_bounds, lemma_be_bytes_of_be_value};
use crate::catalog::{MemberRole, MemberStatus, StoreError};
use crate::exchange::{AdmissionProblem, ChangeBatchAdmissionError, ChangeBatchBuildError};
use crate::handshake::{NegotiatedSession, SessionView};
use crate::identity::{device_id_of, lemma_public_key_ext, DeviceIdentity, DevicePublicKey};
use crate::ids::{uuid_bytes, ContentId, DeviceId, GroupId};
use crate::keys::{GroupKeys, KeysView};
use crate::oneof::{ControlEnvelope, ControlEnvelopeView, ControlMessage, ControlMessageView};
use crate::outcome::agrees;
use crate::protocol::{LimitsView, ProtocolError, ProtocolLimits};
use crate::session::{
    accept_session_hello, accepted, answer_session_challenge, answered, enrolled,
    verify_peer_enrollment, PeerEnrollment, SessionNonce, SessionTransportBinding,
};
use crate::store::{member_at, membership_verdict, with_member, Store, StoreView};
use crate::wire::{
    ObjectAcknowledgement, ObjectAcknowledgementView, SessionChallenge, SessionChallengeView,
    SessionHello, SessionHelloView, SessionProof, SessionProofView,
};

verus! {

#[derive(Clone, Debug, PartialEq, Eq)]
pub enum TransportError {
    Protocol(ProtocolError),
    Store(StoreError),
    ChangeBatchBuild(ChangeBatchBuildError),
    ChangeBatchAdmission(ChangeBatchAdmissionError),
    UnexpectedPeer { expected: DeviceId, actual: DeviceId },
    MissingControlMessage,
    UnexpectedControlMessage { expected: &'static str, actual: &'static str },
    InvalidPageSize { actual: usize, maximum: usize },
    ChangePageMadeNoProgress { after_sequence: u64, high_watermark: u64 },
    ObjectsStillMissing { count: usize },
    TransferResumeOffsetMismatch { requested: u64, durable: u64 },
    ObjectStreamFinishedEarly { expected: u64, actual: u64 },
    ObjectStreamHasTrailingBytes,
    ObjectAcknowledgementMismatch,
    InvalidObjectAcknowledgementStatus { actual: i32 },
    MissingObjectAcknowledgement,
    SessionGroupMismatch { session: GroupId, keys: GroupId },
}

/// The contents of a `TransportError`.
pub enum TransportProblem {
    Protocol(ProtocolError),
    Store(StoreError),
    ChangeBatchBuild(ChangeBatchBuildError),
    ChangeBatchAdmission(AdmissionProblem),
    UnexpectedPeer { expected: DeviceId, actual: DeviceId },
    MissingControlMessage,
    UnexpectedControlMessage { expected: &'static str, actual: &'static str },
    InvalidPageSize { actual: usize, maximum: usize },
    ChangePageMadeNoProgress { after_sequence: u64, high_watermark: u64 },
    ObjectsStillMissing { count: nat },
    TransferResumeOffsetMismatch { requested: u64, durable: u64 },
    ObjectStreamFinishedEarly { expected: u64, actual: u64 },
    ObjectStreamHasTrailingBytes,
    ObjectAcknowledgementMismatch,
    InvalidObjectAcknowledgementStatus { actual: i32 },
    MissingObjectAcknowledgement,
    SessionGroupMismatch { session: GroupId, keys: GroupId },
}

impl View for TransportError {
    type V = TransportProblem;

    open spec fn view(&self) -> TransportProblem {
        match *self {
            TransportError::Protocol(error) => TransportProblem::Protocol(error),
            TransportError::Store(error) => TransportProblem::Store(error),
            TransportError::ChangeBatchBuild(error) => TransportProblem::ChangeBatchBuild(error),
            TransportError::ChangeBatchAdmission(error) => TransportProblem::ChangeBatchAdmission(
                error@,
            ),
            TransportError::UnexpectedPeer { expected, actual } =>
            TransportProblem::UnexpectedPeer { expected, actual },
            TransportError::MissingControlMessage => TransportProblem::MissingControlMessage,
            TransportError::UnexpectedControlMessage { expected, actual } =>
            TransportProblem::UnexpectedControlMessage { expected, actual },
            TransportError::InvalidPageSize { actual, maximum } =>
            TransportProblem::InvalidPageSize { actual, maximum },
            TransportError::ChangePageMadeNoProgress { after_sequence, high_watermark } =>
            TransportProblem::ChangePageMadeNoProgress { after_sequence, high_watermark },
            TransportError::ObjectsStillMissing { count } =>
            TransportProblem::ObjectsStillMissing { count: count as nat },
            TransportError::TransferResumeOffsetMismatch { requested, durable } =>
            TransportProblem::TransferResumeOffsetMismatch { requested, durable },
            TransportError::ObjectStreamFinishedEarly { expected, actual } =>
            TransportProblem::ObjectStreamFinishedEarly { expected, actual },
            TransportError::ObjectStreamHasTrailingBytes =>
            TransportProblem::ObjectStreamHasTrailingBytes,
            TransportError::ObjectAcknowledgementMismatch =>
            TransportProblem::ObjectAcknowledgementMismatch,
            TransportError::InvalidObjectAcknowledgementStatus { actual } =>
            TransportProblem::InvalidObjectAcknowledgementStatus { actual },
            TransportError::MissingObjectAcknowledgement =>
            TransportProblem::MissingObjectAcknowledgement,
            TransportError::SessionGroupMismatch { session, keys } =>
            TransportProblem::SessionGroupMismatch { session, keys },
        }
    }
}

/// What became of an object that was sent.
#[derive(Clone, Copy, Debug, PartialEq, Eq, Structural)]
pub enum AcknowledgementStatus {
    Unspecified,
    Verified,
    AlreadyPresent,
}

impl AcknowledgementStatus {
    /// The number that stands for the status on the wire.
    pub open spec fn spec_number(self) -> i32 {
        match self {
            AcknowledgementStatus::Unspecified => 0,
            AcknowledgementStatus::Verified => 1,
            AcknowledgementStatus::AlreadyPresent => 2,
        }
    }

    /// The number that stands for the status on the wire.
    pub fn number(self) -> (number: i32)
        ensures
            number == self.spec_number(),
    {
        match self {
            AcknowledgementStatus::Unspecified => 0,
            AcknowledgementStatus::Verified => 1,
            AcknowledgementStatus::AlreadyPresent => 2,
        }
    }
}

/// The envelope of a message.
pub open spec fn enveloped(message: ControlMessageView) -> ControlEnvelopeView {
    ControlEnvelopeView { message: Some(message) }
}

/// The envelope of a message.
pub fn control_envelope(message: ControlMessage) -> (envelope: ControlEnvelope)
    ensures
        envelope@ == enveloped(message@),
{
    ControlEnvelope { message: Some(message) }
}

/// Takes the message out of an envelope.
pub fn require_control_message(envelope: ControlEnvelope) -> (result: Result<
    ControlMessage,
    TransportError,
>)
    ensures
        match result {
            Ok(message) => envelope@.message == Some(message@),
            Err(error) => envelope@.message is None && error@
                == TransportProblem::MissingControlMessage,
        },
{
    match envelope.message {
        Some(message) => Ok(message),
        None => Err(TransportError::MissingControlMessage),
    }
}

/// The name of the kind of a message.
pub open spec fn message_name(message: ControlMessageView) -> &'static str {
    match message {
        ControlMessageView::ChangeLogRequest(_) => "change_log_request",
        ControlMessageView::ChangeBatch(_) => "change_batch",
        ControlMessageView::ObjectRangeRequest(_) => "object_range_request",
        ControlMessageView::ObjectOffer(_) => "object_offer",
        ControlMessageView::ObjectAcknowledgement(_) => "object_acknowledgement",
    }
}

/// The name of the kind of a message.
pub fn control_message_name(message: &ControlMessage) -> (name: &'static str)
    ensures
        name == message_name(message@),
{
    match message {
        ControlMessage::ChangeLogRequest(_) => "change_log_request",
        ControlMessage::ChangeBatch(_) => "change_batch",
        ControlMessage::ObjectRangeRequest(_) => "object_range_request",
        ControlMessage::ObjectOffer(_) => "object_offer",
        ControlMessage::ObjectAcknowledgement(_) => "object_acknowledgement",
    }
}

/// What is wrong where another message was due.
pub open spec fn unexpected(
    expected: &'static str,
    message: ControlMessageView,
) -> TransportProblem {
    TransportProblem::UnexpectedControlMessage { expected, actual: message_name(message) }
}

/// The error where another message was due.
pub fn unexpected_control_message(expected: &'static str, actual: &ControlMessage) -> (error:
    TransportError)
    ensures
        error@ == unexpected(expected, actual@),
{
    TransportError::UnexpectedControlMessage { expected, actual: control_message_name(actual) }
}

/// What is wrong with the number of changes that are asked for at once.
pub open spec fn page_problem(maximum_records: usize, limits: LimitsView) -> Option<
    TransportProblem,
> {
    if maximum_records == 0 || maximum_records > limits.maximum_change_records_per_batch {
        Some(
            TransportProblem::InvalidPageSize {
                actual: maximum_records,
                maximum: limits.maximum_change_records_per_batch,
            },
        )
    } else {
        None
    }
}

/// Checks the number of changes that are asked for at once.
pub fn validate_page_size(maximum_records: usize, limits: ProtocolLimits) -> (result: Result<
    (),
    TransportError,
>)
    ensures
        match result {
            Ok(_) => page_problem(maximum_records, limits@) is None,
            Err(error) => page_problem(maximum_records, limits@) == Some(error@),
        },
{
    if maximum_records == 0 || maximum_records > limits.maximum_change_records_per_batch() {
        return Err(
            TransportError::InvalidPageSize {
                actual: maximum_records,
                maximum: limits.maximum_change_records_per_batch(),
            },
        );
    }
    Ok(())
}

/// Checks that a session is about the group whose keys are used.
pub fn validate_session_group(session_group_id: GroupId, keys: &GroupKeys) -> (result: Result<
    (),
    TransportError,
>)
    ensures
        match result {
            Ok(_) => session_group_id == keys@.group_id,
            Err(error) => session_group_id != keys@.group_id && error@
                == (TransportProblem::SessionGroupMismatch {
                session: session_group_id,
                keys: keys@.group_id,
            }),
        },
{
    if session_group_id != keys.group_id() {
        return Err(
            TransportError::SessionGroupMismatch {
                session: session_group_id,
                keys: keys.group_id(),
            },
        );
    }
    Ok(())
}

/// What is wrong with the acknowledgement of an object that was sent.
pub open spec fn acknowledgement_problem(
    acknowledgement: ObjectAcknowledgementView,
    request_id: u128,
    content_id: ContentId,
) -> Option<TransportProblem> {
    if acknowledgement.request_id != uuid_bytes(request_id) || acknowledgement.content_id
        != content_id@ {
        Some(TransportProblem::ObjectAcknowledgementMismatch)
    } else if acknowledgement.status != AcknowledgementStatus::Verified.spec_number()
        && acknowledgement.status != AcknowledgementStatus::AlreadyPresent.spec_number() {
        Some(
            TransportProblem::InvalidObjectAcknowledgementStatus {
                actual: acknowledgement.status,
            },
        )
    } else {
        None
    }
}

/// Checks the acknowledgement of an object that was sent.
pub fn validate_object_acknowledgement(
    acknowledgement: &ObjectAcknowledgement,
    request_id: u128,
    content_id: ContentId,
) -> (result: Result<(), TransportError>)
    ensures
        match result {
            Ok(_) => acknowledgement_problem(acknowledgement@, request_id, content_id) is None,
            Err(error) => acknowledgement_problem(acknowledgement@, request_id, content_id)
                == Some(error@),
        },
{
    let request: DeviceId = DeviceId { value: request_id };
    if !bytes_equal(
        acknowledgement.request_id.as_slice(),
        request.to_bytes().as_slice(),
    ) || !bytes_equal(
        acknowledgement.content_id.as_slice(),
        content_id.as_bytes().as_slice(),
    ) {
        return Err(TransportError::ObjectAcknowledgementMismatch);
    }
    if acknowledgement.status != AcknowledgementStatus::Verified.number()
        && acknowledgement.status != AcknowledgementStatus::AlreadyPresent.number() {
        return Err(
            TransportError::InvalidObjectAcknowledgementStatus {
                actual: acknowledgement.status,
            },
        );
    }
    Ok(())
}

/// The limits of a session: those settled on, and the device's own where nothing is settled.
pub open spec fn session_limits(local: LimitsView, session: SessionView) -> LimitsView {
    LimitsView {
        maximum_control_frame_bytes: session.maximum_control_frame_bytes,
        maximum_encrypted_object_bytes: session.maximum_encrypted_object_bytes,
        maximum_content_ids_per_request: local.maximum_content_ids_per_request,
        maximum_change_records_per_batch: local.maximum_change_records_per_batch,
    }
}

/// The limits of a session.
pub fn negotiated_protocol_limits(local: ProtocolLimits, session: &NegotiatedSession) -> (result:
    Result<ProtocolLimits, ProtocolError>)
    ensures
        match result {
            Ok(limits) => limits@ == session_limits(local@, session@) && limits@.wf(),
            Err(error) => session_limits(local@, session@).problem() == Some(error),
        },
{
    ProtocolLimits::new(
        session.maximum_control_frame_bytes(),
        session.maximum_encrypted_object_bytes(),
        local.maximum_content_ids_per_request(),
        local.maximum_change_records_per_batch(),
    )
}

/// The key of an active member.
pub open spec fn active_member(store: StoreView, group_id: GroupId, device_id: DeviceId) -> Result<
    Seq<u8>,
    StoreError,
> {
    match member_at(store, group_id, device_id) {
        Err(error) => Err(error),
        Ok(None) => Err(StoreError::UnknownGroupMember { device_id }),
        Ok(Some(member)) => if member.status != MemberStatus::Active {
            Err(StoreError::MemberRevoked { device_id })
        } else {
            Ok(member.public_key)
        },
    }
}

/// The key of an active member.
pub fn require_active_member(store: &Store, group_id: GroupId, device_id: DeviceId) -> (result:
    Result<DevicePublicKey, StoreError>)
    ensures
        match result {
            Ok(key) => active_member(store@, group_id, device_id) == Ok::<Seq<u8>, StoreError>(
                key@,
            ),
            Err(error) => active_member(store@, group_id, device_id) == Err::<
                Seq<u8>,
                StoreError,
            >(error),
        },
{
    match store.group_member(group_id, device_id)? {
        None => Err(StoreError::UnknownGroupMember { device_id }),
        Some(member) => {
            if member.status != MemberStatus::Active {
                return Err(StoreError::MemberRevoked { device_id });
            }
            Ok(member.public_key)
        },
    }
}

/// Why a device may not speak for itself in a group.
pub open spec fn local_problem(store: StoreView, group_id: GroupId, key: Seq<u8>) -> Option<
    StoreError,
> {
    match active_member(store, group_id, device_id_of(key)) {
        Err(error) => Some(error),
        Ok(member_key) => if member_key != key {
            Some(StoreError::MemberKeyMismatch { device_id: device_id_of(key) })
        } else {
            None
        },
    }
}

/// Checks that a device is an active member of a group under its own key.
pub fn require_local_identity(store: &Store, group_id: GroupId, identity: &DeviceIdentity) -> (result:
    Result<(), StoreError>)
    ensures
        match result {
            Ok(_) => local_problem(store@, group_id, identity.key()) is None,
            Err(error) => local_problem(store@, group_id, identity.key()) == Some(error),
        },
{
    let public_key: DevicePublicKey = require_active_member(
        store,
        group_id,
        identity.device_id(),
    )?;
    let own: DevicePublicKey = identity.public_key();
    proof {
        lemma_public_key_ext(public_key, own);
    }
    if public_key != own {
        return Err(StoreError::MemberKeyMismatch { device_id: identity.device_id() });
    }
    Ok(())
}

/// The number of bytes that the header of a frame announces, or why they are not read.
pub fn frame_payload_length(header: &[u8; 4], limits: ProtocolLimits) -> (result: Result<
    usize,
    ProtocolError,
>)
    ensures
        match result {
            Ok(length) => length == be_value(header@) && length
                <= limits@.maximum_control_frame_bytes,
            Err(error) => be_value(header@) > limits@.maximum_control_frame_bytes && error
                == (ProtocolError::ControlFrameTooLarge {
                actual: be_value(header@) as usize,
                maximum: limits@.maximum_control_frame_bytes,
            }),
        },
{
    proof {
        lemma_be_bounds();
        lemma_be_bytes_of_be_value(header@);
    }
    let length: usize = be_decode(header.as_slice()) as usize;
    let maximum: usize = limits.maximum_control_frame_bytes();
    if length > maximum {
        return Err(ProtocolError::ControlFrameTooLarge { actual: length, maximum });
    }
    Ok(length)
}

/// The key of the peer that a device connects to, or why it does not connect.
pub open spec fn outgoing_peer(
    store: StoreView,
    group_id: GroupId,
    key: Seq<u8>,
    peer_device_id: DeviceId,
) -> Result<Seq<u8>, StoreError> {
    match local_problem(store, group_id, key) {
        Some(error) => Err(error),
        None => active_member(store, group_id, peer_device_id),
    }
}

/// Checks that a device and the peer that it connects to are active members, and gives the key of
/// the peer.
pub fn begin_outgoing(
    identity: &DeviceIdentity,
    expected_peer_device_id: DeviceId,
    group_id: GroupId,
    store: &Store,
) -> (result: Result<DevicePublicKey, StoreError>)
    ensures
        match result {
            Ok(key) => outgoing_peer(
                store@,
                group_id,
                identity.key(),
                expected_peer_device_id,
            ) == Ok::<Seq<u8>, StoreError>(key@),
            Err(error) => outgoing_peer(
                store@,
                group_id,
                identity.key(),
                expected_peer_device_id,
            ) == Err::<Seq<u8>, StoreError>(error),
        },
{
    require_local_identity(store, group_id, identity)?;
    require_active_member(store, group_id, expected_peer_device_id)
}

/// What a device that has connected settles on with its peer, and how it proves itself.
pub open spec fn outgoing_settled(
    hello: SessionHelloView,
    challenge: SessionChallengeView,
    secret: Seq<u8>,
    peer_key: Seq<u8>,
    expected_peer_device_id: DeviceId,
    binding: Seq<u8>,
    group_id: GroupId,
    limits: LimitsView,
) -> Result<(SessionView, SessionProofView), TransportProblem> {
    match answered(hello, challenge, secret, peer_key, binding, group_id, limits) {
        Err(error) => Err(TransportProblem::Protocol(error)),
        Ok((session, answer)) => if session.remote_device_id != expected_peer_device_id {
            Err(
                TransportProblem::UnexpectedPeer {
                    expected: expected_peer_device_id,
                    actual: session.remote_device_id,
                },
            )
        } else {
            Ok((session, answer))
        },
    }
}

/// Answers the challenge of the peer that a device has connected to.
pub fn finish_outgoing(
    hello: &SessionHello,
    challenge: &SessionChallenge,
    identity: &DeviceIdentity,
    peer_public_key: DevicePublicKey,
    expected_peer_device_id: DeviceId,
    binding: SessionTransportBinding,
    group_id: GroupId,
    limits: ProtocolLimits,
) -> (result: Result<(NegotiatedSession, SessionProof), TransportError>)
    ensures
        agrees(
            result,
            outgoing_settled(
                hello@,
                challenge@,
                identity.secret(),
                peer_public_key@,
                expected_peer_device_id,
                binding@,
                group_id,
                limits@,
            ),
        ),
{
    match answer_session_challenge(
        hello,
        challenge,
        identity,
        peer_public_key,
        binding,
        group_id,
        limits,
    ) {
        Err(error) => Err(TransportError::Protocol(error)),
        Ok((session, answer)) => {
            if session.remote_device_id() != expected_peer_device_id {
                return Err(
                    TransportError::UnexpectedPeer {
                        expected: expected_peer_device_id,
                        actual: session.remote_device_id(),
                    },
                );
            }
            Ok((session, answer))
        },
    }
}

/// How a device answers a peer that has connected.
#[derive(Debug)]
pub struct IncomingAnswer {
    pub challenge: SessionChallenge,
    pub peer_public_key: DevicePublicKey,
    pub listen_port: Option<u16>,
}

/// The contents of an `IncomingAnswer`.
pub struct AnswerView {
    pub challenge: SessionChallengeView,
    pub peer_public_key: Seq<u8>,
    pub listen_port: Option<u16>,
}

impl View for IncomingAnswer {
    type V = AnswerView;

    open spec fn view(&self) -> AnswerView {
        AnswerView {
            challenge: self.challenge@,
            peer_public_key: self.peer_public_key@,
            listen_port: self.listen_port,
        }
    }
}

/// How a device answers a peer that has connected, and the store with the peer as a member: a
/// peer that knows the group's keys becomes one.
pub open spec fn incoming_answered(
    store: StoreView,
    hello: SessionHelloView,
    secret: Seq<u8>,
    nonce: Seq<u8>,
    binding: Seq<u8>,
    keys: KeysView,
    limits: LimitsView,
) -> (StoreView, Result<AnswerView, TransportProblem>) {
    match accepted(hello, secret, nonce, binding, keys.group_id, limits) {
        Err(error) => (store, Err(TransportProblem::Protocol(error))),
        Ok((session, challenge)) => match enrolled(hello, keys, binding) {
            Err(error) => (store, Err(TransportProblem::Protocol(error))),
            Ok(enrollment) => {
                let peer = session.remote_device_id;
                match member_at(store, keys.group_id, peer) {
                    Err(error) => (store, Err(TransportProblem::Store(error))),
                    Ok(Some(_)) => match active_member(store, keys.group_id, peer) {
                        Err(error) => (store, Err(TransportProblem::Store(error))),
                        Ok(peer_public_key) => (
                            store,
                            Ok(
                                AnswerView {
                                    challenge,
                                    peer_public_key,
                                    listen_port: enrollment.listen_port,
                                },
                            ),
                        ),
                    },
                    Ok(None) => match membership_verdict(
                        store,
                        keys.group_id,
                        enrollment.public_key,
                        MemberRole::Member,
                    ) {
                        Err(error) => (store, Err(TransportProblem::Store(error))),
                        Ok(_) => (
                            with_member(
                                store,
                                keys.group_id,
                                enrollment.public_key,
                                MemberRole::Member,
                            ),
                            Ok(
                                AnswerView {
                                    challenge,
                                    peer_public_key: enrollment.public_key,
                                    listen_port: enrollment.listen_port,
                                },
                            ),
                        ),
                    },
                }
            },
        },
    }
}

/// Answers a peer that has connected: a peer that knows the group's keys becomes a member.
pub fn answer_incoming(
    hello: &SessionHello,
    identity: &DeviceIdentity,
    nonce: SessionNonce,
    binding: SessionTransportBinding,
    keys: &GroupKeys,
    store: &mut Store,
    limits: ProtocolLimits,
) -> (result: Result<IncomingAnswer, TransportError>)
    ensures
        final(store)@ == incoming_answered(
            old(store)@,
            hello@,
            identity.secret(),
            nonce@,
            binding@,
            keys@,
            limits@,
        ).0,
        agrees(
            result,
            incoming_answered(
                old(store)@,
                hello@,
                identity.secret(),
                nonce@,
                binding@,
                keys@,
                limits@,
            ).1,
        ),
{
    let group_id: GroupId = keys.group_id();
    let (session, challenge): (NegotiatedSession, SessionChallenge) = match accept_session_hello(
        hello,
        identity,
        nonce,
        binding,
        group_id,
        limits,
    ) {
        Ok(accepted) => accepted,
        Err(error) => {
            return Err(TransportError::Protocol(error));
        },
    };
    let enrollment: PeerEnrollment = match verify_peer_enrollment(hello, keys, binding) {
        Ok(enrollment) => enrollment,
        Err(error) => {
            return Err(TransportError::Protocol(error));
        },
    };
    let peer: DeviceId = session.remote_device_id();
    let known: bool = match store.group_member(group_id, peer) {
        Ok(member) => member.is_some(),
        Err(error) => {
            return Err(TransportError::Store(error));
        },
    };
    let peer_public_key: DevicePublicKey = if known {
        match require_active_member(store, group_id, peer) {
            Ok(key) => key,
            Err(error) => {
                return Err(TransportError::Store(error));
            },
        }
    } else {
        match store.add_group_member(group_id, enrollment.public_key, MemberRole::Member) {
            Ok(_) => enrollment.public_key,
            Err(error) => {
                return Err(TransportError::Store(error));
            },
        }
    };
    Ok(IncomingAnswer { challenge, peer_public_key, listen_port: enrollment.listen_port })
}

/// Where a device lets a peer in, the peer is an active member of the group, and the key under
/// which its proof is then verified is the member's.
pub proof fn law_admitted_peer_is_an_active_member(
    store: StoreView,
    hello: SessionHelloView,
    secret: Seq<u8>,
    nonce: Seq<u8>,
    binding: Seq<u8>,
    keys: KeysView,
    limits: LimitsView,
)
    ensures
        ({
            let (after, result) = incoming_answered(
                store,
                hello,
                secret,
                nonce,
                binding,
                keys,
                limits,
            );
            result matches Ok(answer) ==> active_member(
                after,
                keys.group_id,
                device_id_of(answer.peer_public_key),
            ) == Ok::<Seq<u8>, StoreError>(answer.peer_public_key)
        }),
{
    if let Ok(enrollment) = enrolled(hello, keys, binding) {
        let key = crate::catalog::DeviceKey {
            group_id: keys.group_id,
            device_id: device_id_of(enrollment.public_key),
        };
        crate::table::lemma_lookup_put(
            store.members,
            key,
            crate::catalog::MemberRowView {
                public_key: enrollment.public_key,
                role: MemberRole::Member,
                status: MemberStatus::Active,
            },
            key,
        );
    }
}

} // verus!
