//! Sessions: how two devices prove to each other who they are.
use vstd::prelude::*;
use vstd::string::StringSliceAdditionalSpecFns;

use crate::bytes::{
    append_bytes, be_bytes, be_encode, bytes_equal, copy_bytes, lemma_be_bounds, lemma_be_bytes_len,
    lemma_be_value_of_be_bytes,
};
use crate::crypto::{
    ed25519_neutral, ed25519_public, ed25519_signed, ed25519_valid_key, ed25519_verified,
    random_bytes,
};
use crate::handshake::{
    current_handshake, handshake_of, law_peers_settle_on_the_same_terms, negotiate_handshake,
    negotiated, NegotiatedSession, SessionView,
};
use crate::identity::{
    device_id_of, session_message, session_verified, signature_of, AuthorizationView,
    DeviceIdentity, DevicePublicKey, IdentityError, SessionAuthorization, SessionSignature,
};
use crate::ids::{array_of, lemma_uuid_bytes, DeviceId, GroupId};
use crate::keys::{GroupKeys, KeysView};
use crate::message::{encode_message, encoded, law_message_round_trips, WireMessage};
use crate::outcome::agrees;
use crate::protocol::{identifier, parse_uuid, LimitsView, ProtocolError, ProtocolLimits};
use crate::wire::{
    Handshake, HandshakeAck, HandshakeAckView, HandshakeView, SessionChallenge,
    SessionChallengeView, SessionHello, SessionHelloView, SessionProof, SessionProofView,
};

verus! {

pub const SESSION_NONCE_SIZE: usize = 32;

pub const SESSION_TRANSPORT_BINDING_SIZE: usize = 32;

/// Thirty-two zero bytes.
pub open spec fn zeros() -> Seq<u8> {
    Seq::new(32, |i: int| 0u8)
}

fn is_zero(bytes: &[u8]) -> (zero: bool)
    requires
        bytes@.len() == 32,
    ensures
        zero == (bytes@ == zeros()),
{
    let nothing: [u8; 32] = [0u8; 32];
    assert(nothing@ =~= zeros());
    bytes_equal(bytes, nothing.as_slice())
}

/// A number that makes a session unlike any other.
#[derive(Clone, Copy, Debug, PartialEq, Eq, Hash)]
pub struct SessionNonce {
    bytes: [u8; 32],
}

impl View for SessionNonce {
    type V = Seq<u8>;

    closed spec fn view(&self) -> Seq<u8> {
        self.bytes@
    }
}

impl SessionNonce {
    /// A fresh random nonce.
    pub fn generate() -> (result: Result<Self, ProtocolError>)
        ensures
            match result {
                Ok(nonce) => nonce@.len() == 32,
                Err(error) => error == ProtocolError::Randomness,
            },
    {
        match random_bytes(SESSION_NONCE_SIZE) {
            Some(bytes) => Ok(SessionNonce { bytes: array_of(bytes.as_slice()) }),
            None => Err(ProtocolError::Randomness),
        }
    }

    /// The nonce with the given bytes, which are not all zero.
    pub fn from_bytes(bytes: [u8; 32]) -> (result: Result<Self, ProtocolError>)
        ensures
            match result {
                Ok(nonce) => bytes@ != zeros() && nonce@ == bytes@,
                Err(error) => bytes@ == zeros() && error == ProtocolError::ZeroSessionNonce,
            },
    {
        if is_zero(bytes.as_slice()) {
            return Err(ProtocolError::ZeroSessionNonce);
        }
        Ok(SessionNonce { bytes })
    }

    pub fn as_bytes(&self) -> (bytes: &[u8; 32])
        ensures
            bytes@ == self@,
            self@.len() == 32,
    {
        &self.bytes
    }
}

/// What ties a session to the encrypted connection that it runs over.
#[derive(Clone, Copy, Debug, PartialEq, Eq, Hash)]
pub struct SessionTransportBinding {
    bytes: [u8; 32],
}

impl View for SessionTransportBinding {
    type V = Seq<u8>;

    closed spec fn view(&self) -> Seq<u8> {
        self.bytes@
    }
}

impl SessionTransportBinding {
    /// The binding with the given bytes, which are not all zero.
    pub fn from_bytes(bytes: [u8; 32]) -> (result: Result<Self, ProtocolError>)
        ensures
            match result {
                Ok(binding) => bytes@ != zeros() && binding@ == bytes@,
                Err(error) => bytes@ == zeros() && error
                    == ProtocolError::ZeroSessionTransportBinding,
            },
    {
        if is_zero(bytes.as_slice()) {
            return Err(ProtocolError::ZeroSessionTransportBinding);
        }
        Ok(SessionTransportBinding { bytes })
    }

    pub fn as_bytes(&self) -> (bytes: &[u8; 32])
        ensures
            bytes@ == self@,
            self@.len() == 32,
    {
        &self.bytes
    }
}

/// The hello of a device.
pub open spec fn hello_of(
    key: Seq<u8>,
    keys: KeysView,
    limits: LimitsView,
    nonce: Seq<u8>,
    transport_binding: Seq<u8>,
    listen_port: u16,
) -> SessionHelloView {
    SessionHelloView {
        handshake: Some(handshake_of(device_id_of(key), keys.group_id, limits)),
        nonce,
        transport_binding,
        public_key: key,
        enrollment_proof: keys.enrollment_proof(key, nonce, transport_binding, listen_port),
        listen_port: listen_port as u32,
    }
}

/// The hello with which a device opens a session.
pub fn build_session_hello(
    identity: &DeviceIdentity,
    keys: &GroupKeys,
    limits: ProtocolLimits,
    nonce: SessionNonce,
    transport_binding: SessionTransportBinding,
    listen_port: u16,
) -> (hello: SessionHello)
    ensures
        hello@ == hello_of(
            identity.key(),
            keys@,
            limits@,
            nonce@,
            transport_binding@,
            listen_port,
        ),
{
    let proof_bytes: [u8; 32] = keys.peer_enrollment_proof(
        identity.public_key(),
        nonce.as_bytes().as_slice(),
        transport_binding.as_bytes().as_slice(),
        listen_port,
    );
    SessionHello {
        handshake: Some(current_handshake(identity.device_id(), keys.group_id(), limits)),
        nonce: copy_bytes(nonce.as_bytes().as_slice()),
        transport_binding: copy_bytes(transport_binding.as_bytes().as_slice()),
        public_key: copy_bytes(identity.public_key().as_bytes().as_slice()),
        enrollment_proof: copy_bytes(proof_bytes.as_slice()),
        listen_port: listen_port as u32,
    }
}

/// A device that has shown that it knows the group's keys.
#[derive(Clone, Copy, Debug, PartialEq, Eq)]
pub struct PeerEnrollment {
    pub public_key: DevicePublicKey,
    pub listen_port: Option<u16>,
}

/// The contents of a `PeerEnrollment`.
pub struct EnrollmentView {
    pub public_key: Seq<u8>,
    pub listen_port: Option<u16>,
}

impl View for PeerEnrollment {
    type V = EnrollmentView;

    open spec fn view(&self) -> EnrollmentView {
        EnrollmentView { public_key: self.public_key@, listen_port: self.listen_port }
    }
}

/// The handshake of a hello.
pub open spec fn hello_handshake(hello: SessionHelloView) -> Result<HandshakeView, ProtocolError> {
    match hello.handshake {
        Some(handshake) => Ok(handshake),
        None => Err(ProtocolError::MissingSessionField("session_hello.handshake")),
    }
}

/// The handshake of a challenge.
pub open spec fn challenge_handshake(challenge: SessionChallengeView) -> Result<
    HandshakeView,
    ProtocolError,
> {
    match challenge.handshake {
        Some(handshake) => Ok(handshake),
        None => Err(ProtocolError::MissingSessionField("session_challenge.handshake")),
    }
}

/// The acknowledgement of a challenge.
pub open spec fn challenge_acknowledgement(challenge: SessionChallengeView) -> Result<
    HandshakeAckView,
    ProtocolError,
> {
    match challenge.acknowledgement {
        Some(acknowledgement) => Ok(acknowledgement),
        None => Err(ProtocolError::MissingSessionField("session_challenge.acknowledgement")),
    }
}

fn session_hello_handshake(hello: &SessionHello) -> (result: Result<&Handshake, ProtocolError>)
    ensures
        match result {
            Ok(handshake) => hello_handshake(hello@) == Ok::<HandshakeView, ProtocolError>(
                handshake@,
            ),
            Err(error) => hello_handshake(hello@) == Err::<HandshakeView, ProtocolError>(error),
        },
{
    match &hello.handshake {
        Some(handshake) => Ok(handshake),
        None => Err(ProtocolError::MissingSessionField("session_hello.handshake")),
    }
}

fn session_challenge_handshake(challenge: &SessionChallenge) -> (result: Result<
    &Handshake,
    ProtocolError,
>)
    ensures
        match result {
            Ok(handshake) => challenge_handshake(challenge@) == Ok::<HandshakeView, ProtocolError>(
                handshake@,
            ),
            Err(error) => challenge_handshake(challenge@) == Err::<HandshakeView, ProtocolError>(
                error,
            ),
        },
{
    match &challenge.handshake {
        Some(handshake) => Ok(handshake),
        None => Err(ProtocolError::MissingSessionField("session_challenge.handshake")),
    }
}

fn session_challenge_acknowledgement(challenge: &SessionChallenge) -> (result: Result<
    &HandshakeAck,
    ProtocolError,
>)
    ensures
        match result {
            Ok(acknowledgement) => challenge_acknowledgement(challenge@) == Ok::<
                HandshakeAckView,
                ProtocolError,
            >(acknowledgement@),
            Err(error) => challenge_acknowledgement(challenge@) == Err::<
                HandshakeAckView,
                ProtocolError,
            >(error),
        },
{
    match &challenge.acknowledgement {
        Some(acknowledgement) => Ok(acknowledgement),
        None => Err(ProtocolError::MissingSessionField("session_challenge.acknowledgement")),
    }
}

/// The peer that a hello enrolls, or why it does not.
pub open spec fn enrolled(
    hello: SessionHelloView,
    keys: KeysView,
    transport_binding: Seq<u8>,
) -> Result<EnrollmentView, ProtocolError> {
    if hello.public_key.len() != 32 {
        Err(
            ProtocolError::InvalidEnrollmentPublicKeyLength {
                actual: hello.public_key.len() as usize,
            },
        )
    } else if !ed25519_valid_key(hello.public_key) {
        Err(ProtocolError::Identity(crate::identity::IdentityError::InvalidPublicKey))
    } else {
        match hello_handshake(hello) {
            Err(error) => Err(error),
            Ok(handshake) => match identifier("device_id", handshake.device_id) {
                Err(error) => Err(error),
                Ok(claimed) => if claimed != device_id_of(hello.public_key).value {
                    Err(
                        ProtocolError::PeerIdentityMismatch {
                            claimed: DeviceId { value: claimed },
                            authenticated: device_id_of(hello.public_key),
                        },
                    )
                } else if hello.listen_port > u16::MAX {
                    Err(ProtocolError::InvalidEnrollmentListenPort(hello.listen_port))
                } else if hello.enrollment_proof != keys.enrollment_proof(
                    hello.public_key,
                    hello.nonce,
                    transport_binding,
                    hello.listen_port as u16,
                ) {
                    Err(ProtocolError::InvalidEnrollmentProof)
                } else {
                    Ok(
                        EnrollmentView {
                            public_key: hello.public_key,
                            listen_port: if hello.listen_port == 0 {
                                None
                            } else {
                                Some(hello.listen_port as u16)
                            },
                        },
                    )
                },
            },
        }
    }
}

/// Tests that the sender of a hello knows the group's keys.
pub fn verify_peer_enrollment(
    hello: &SessionHello,
    keys: &GroupKeys,
    expected_transport_binding: SessionTransportBinding,
) -> (result: Result<PeerEnrollment, ProtocolError>)
    ensures
        agrees(result, enrolled(hello@, keys@, expected_transport_binding@)),
{
    if hello.public_key.len() != 32 {
        return Err(
            ProtocolError::InvalidEnrollmentPublicKeyLength { actual: hello.public_key.len() },
        );
    }
    let public_key: DevicePublicKey = match DevicePublicKey::from_bytes(
        array_of(hello.public_key.as_slice()),
    ) {
        Ok(public_key) => public_key,
        Err(error) => {
            return Err(ProtocolError::Identity(error));
        },
    };
    let claimed: DeviceId = parse_handshake_device_id(session_hello_handshake(hello)?)?;
    if claimed != public_key.device_id() {
        return Err(
            ProtocolError::PeerIdentityMismatch { claimed, authenticated: public_key.device_id() },
        );
    }
    if hello.listen_port > 65535 {
        return Err(ProtocolError::InvalidEnrollmentListenPort(hello.listen_port));
    }
    let listen_port: u16 = hello.listen_port as u16;
    let expected: [u8; 32] = keys.peer_enrollment_proof(
        public_key,
        hello.nonce.as_slice(),
        expected_transport_binding.as_bytes().as_slice(),
        listen_port,
    );
    if !bytes_equal(hello.enrollment_proof.as_slice(), expected.as_slice()) {
        return Err(ProtocolError::InvalidEnrollmentProof);
    }
    Ok(
        PeerEnrollment {
            public_key,
            listen_port: if listen_port != 0 {
                Some(listen_port)
            } else {
                None
            },
        },
    )
}

fn parse_handshake_device_id(handshake: &Handshake) -> (result: Result<DeviceId, ProtocolError>)
    ensures
        match result {
            Ok(device_id) => identifier("device_id", handshake@.device_id) == Ok::<
                u128,
                ProtocolError,
            >(device_id.value),
            Err(error) => identifier("device_id", handshake@.device_id) == Err::<
                u128,
                ProtocolError,
            >(error),
        },
{
    Ok(DeviceId::from_u128(parse_uuid("device_id", handshake.device_id.as_slice())?))
}

/// The nonce in a field of a message.
pub open spec fn nonce_in(field: &'static str, bytes: Seq<u8>) -> Result<Seq<u8>, ProtocolError> {
    if bytes.len() != 32 {
        Err(ProtocolError::InvalidSessionNonceLength { field, actual: bytes.len() as usize })
    } else if bytes == zeros() {
        Err(ProtocolError::ZeroSessionNonce)
    } else {
        Ok(bytes)
    }
}

fn parse_session_nonce(field: &'static str, bytes: &[u8]) -> (result: Result<
    SessionNonce,
    ProtocolError,
>)
    ensures
        agrees(result, nonce_in(field, bytes@)),
{
    if bytes.len() != 32 {
        return Err(ProtocolError::InvalidSessionNonceLength { field, actual: bytes.len() });
    }
    SessionNonce::from_bytes(array_of(bytes))
}

/// The signature in a field of a message.
pub open spec fn signature_in(field: &'static str, bytes: Seq<u8>) -> Result<
    Seq<u8>,
    ProtocolError,
> {
    if bytes.len() != 64 {
        Err(ProtocolError::InvalidSessionSignatureLength { field, actual: bytes.len() as usize })
    } else {
        Ok(bytes)
    }
}

fn parse_session_signature(field: &'static str, bytes: &[u8]) -> (result: Result<
    SessionSignature,
    ProtocolError,
>)
    ensures
        agrees(result, signature_in(field, bytes@)),
{
    if bytes.len() != 64 {
        return Err(ProtocolError::InvalidSessionSignatureLength { field, actual: bytes.len() });
    }
    Ok(SessionSignature::from_bytes(signature_of(bytes)))
}

/// What is wrong with the transport binding of a hello.
pub open spec fn binding_problem(hello: SessionHelloView, expected: Seq<u8>) -> Option<
    ProtocolError,
> {
    if hello.transport_binding.len() != 32 {
        Some(
            ProtocolError::InvalidSessionTransportBindingLength {
                actual: hello.transport_binding.len() as usize,
            },
        )
    } else if hello.transport_binding == zeros() {
        Some(ProtocolError::ZeroSessionTransportBinding)
    } else if hello.transport_binding != expected {
        Some(ProtocolError::SessionTransportBindingMismatch)
    } else {
        None
    }
}

fn validate_session_transport_binding(
    hello: &SessionHello,
    expected: SessionTransportBinding,
) -> (result: Result<(), ProtocolError>)
    ensures
        match result {
            Ok(_) => binding_problem(hello@, expected@) is None,
            Err(error) => binding_problem(hello@, expected@) == Some(error),
        },
{
    if hello.transport_binding.len() != 32 {
        return Err(
            ProtocolError::InvalidSessionTransportBindingLength {
                actual: hello.transport_binding.len(),
            },
        );
    }
    if is_zero(hello.transport_binding.as_slice()) {
        return Err(ProtocolError::ZeroSessionTransportBinding);
    }
    if !bytes_equal(hello.transport_binding.as_slice(), expected.as_bytes().as_slice()) {
        return Err(ProtocolError::SessionTransportBindingMismatch);
    }
    Ok(())
}

/// A message with its length in front.
pub open spec fn sized(bytes: Seq<u8>) -> Seq<u8> {
    be_bytes(bytes.len(), 8) + bytes
}

/// What both devices sign: everything that they have said.
pub open spec fn transcript_of(
    hello: SessionHelloView,
    responder_handshake: HandshakeView,
    acknowledgement: HandshakeAckView,
    responder_nonce: Seq<u8>,
) -> Seq<u8> {
    "orbit/session-transcript/v1".spec_bytes() + sized(encoded::<SessionHello>(hello)) + sized(
        encoded::<Handshake>(responder_handshake),
    ) + sized(encoded::<HandshakeAck>(acknowledgement)) + responder_nonce
}

fn append_transcript_message<M: WireMessage>(transcript: &mut Vec<u8>, message: &M)
    ensures
        final(transcript)@ == old(transcript)@ + sized(encoded::<M>(message@)),
{
    let bytes: Vec<u8> = encode_message(message);
    let ghost start = transcript@;
    append_bytes(transcript, be_encode(bytes.len() as u128, 8).as_slice());
    append_bytes(transcript, bytes.as_slice());
    assert(transcript@ =~= start + sized(bytes@));
}

fn session_transcript(
    hello: &SessionHello,
    responder_handshake: &Handshake,
    acknowledgement: &HandshakeAck,
    responder_nonce: SessionNonce,
) -> (result: Result<Vec<u8>, ProtocolError>)
    ensures
        match result {
            Ok(transcript) => nonce_in("session_hello.nonce", hello@.nonce) is Ok && transcript@
                == transcript_of(
                hello@,
                responder_handshake@,
                acknowledgement@,
                responder_nonce@,
            ),
            Err(error) => nonce_in("session_hello.nonce", hello@.nonce) == Err::<
                Seq<u8>,
                ProtocolError,
            >(error),
        },
{
    parse_session_nonce("session_hello.nonce", hello.nonce.as_slice())?;
    let mut transcript: Vec<u8> = Vec::new();
    append_bytes(&mut transcript, "orbit/session-transcript/v1".as_bytes());
    append_transcript_message(&mut transcript, hello);
    append_transcript_message(&mut transcript, responder_handshake);
    append_transcript_message(&mut transcript, acknowledgement);
    append_bytes(&mut transcript, responder_nonce.as_bytes().as_slice());
    assert(transcript@ =~= transcript_of(
        hello@,
        responder_handshake@,
        acknowledgement@,
        responder_nonce@,
    ));
    Ok(transcript)
}

/// What a device answers to a hello.
pub open spec fn accepted(
    hello: SessionHelloView,
    responder_secret: Seq<u8>,
    responder_nonce: Seq<u8>,
    transport_binding: Seq<u8>,
    group_id: GroupId,
    limits: LimitsView,
) -> Result<(SessionView, SessionChallengeView), ProtocolError> {
    let responder_id = device_id_of(ed25519_public(responder_secret));
    match hello_handshake(hello) {
        Err(error) => Err(error),
        Ok(handshake) => match nonce_in("session_hello.nonce", hello.nonce) {
            Err(error) => Err(error),
            Ok(_) => match binding_problem(hello, transport_binding) {
                Some(error) => Err(error),
                None => match negotiated(handshake, group_id, limits) {
                    Err(error) => Err(error),
                    Ok(session) => if session.remote_device_id == responder_id {
                        Err(ProtocolError::SelfConnection { device_id: responder_id })
                    } else {
                        let responder_handshake = handshake_of(responder_id, group_id, limits);
                        let transcript = transcript_of(
                            hello,
                            responder_handshake,
                            session.acknowledgement(),
                            responder_nonce,
                        );
                        Ok(
                            (
                                session,
                                SessionChallengeView {
                                    handshake: Some(responder_handshake),
                                    acknowledgement: Some(session.acknowledgement()),
                                    nonce: responder_nonce,
                                    responder_signature: ed25519_signed(
                                        responder_secret,
                                        session_message(responder_id, transcript),
                                    ),
                                },
                            ),
                        )
                    },
                },
            },
        },
    }
}

/// The signature is the device's own, and verifies under its key unless strict verification
/// refuses every signature that begins as this one does.
pub open spec fn signs(key: Seq<u8>, transcript: Seq<u8>, signature: Seq<u8>) -> bool {
    signature.take(32) != ed25519_neutral() ==> session_verified(
        key,
        transcript,
        AuthorizationView { author_device_id: device_id_of(key), signature },
    ) is Ok
}

/// Answers a hello with a challenge.
pub fn accept_session_hello(
    hello: &SessionHello,
    responder_identity: &DeviceIdentity,
    responder_nonce: SessionNonce,
    expected_transport_binding: SessionTransportBinding,
    expected_group_id: GroupId,
    local_limits: ProtocolLimits,
) -> (result: Result<(NegotiatedSession, SessionChallenge), ProtocolError>)
    ensures
        agrees(
            result,
            accepted(
                hello@,
                responder_identity.secret(),
                responder_nonce@,
                expected_transport_binding@,
                expected_group_id,
                local_limits@,
            ),
        ),
        result matches Ok((session, challenge)) ==> signs(
            responder_identity.key(),
            transcript_of(
                hello@,
                challenge@.handshake->0,
                challenge@.acknowledgement->0,
                challenge@.nonce,
            ),
            challenge@.responder_signature,
        ),
{
    let initiator_handshake: &Handshake = session_hello_handshake(hello)?;
    parse_session_nonce("session_hello.nonce", hello.nonce.as_slice())?;
    validate_session_transport_binding(hello, expected_transport_binding)?;
    let session: NegotiatedSession = negotiate_handshake(
        initiator_handshake,
        expected_group_id,
        local_limits,
    )?;
    let device_id: DeviceId = responder_identity.device_id();
    if session.remote_device_id() == device_id {
        return Err(ProtocolError::SelfConnection { device_id });
    }
    let responder_handshake: Handshake = current_handshake(
        device_id,
        expected_group_id,
        local_limits,
    );
    let acknowledgement: HandshakeAck = session.acknowledgement();
    let transcript: Vec<u8> = session_transcript(
        hello,
        &responder_handshake,
        &acknowledgement,
        responder_nonce,
    )?;
    let authorization: SessionAuthorization = responder_identity.authorize_session(
        transcript.as_slice(),
    );
    let challenge: SessionChallenge = SessionChallenge {
        handshake: Some(responder_handshake),
        acknowledgement: Some(acknowledgement),
        nonce: copy_bytes(responder_nonce.as_bytes().as_slice()),
        responder_signature: copy_bytes(authorization.signature.as_bytes().as_slice()),
    };
    Ok((session, challenge))
}

fn same_numbers(left: &Vec<i32>, right: &Vec<i32>) -> (same: bool)
    ensures
        same == (left@ == right@),
{
    if left.len() != right.len() {
        return false;
    }
    let mut index: usize = 0;
    while index < left.len()
        invariant
            index <= left@.len(),
            left@.len() == right@.len(),
            forall|i: int| 0 <= i < index ==> left@[i] == right@[i],
        decreases left@.len() - index,
    {
        if left[index] != right[index] {
            return false;
        }
        index += 1;
    }
    assert(left@ =~= right@);
    true
}

fn same_acknowledgement(left: &HandshakeAck, right: &HandshakeAck) -> (same: bool)
    ensures
        same == (left@ == right@),
{
    left.selected_protocol_version == right.selected_protocol_version && same_numbers(
        &left.capabilities,
        &right.capabilities,
    ) && left.maximum_control_frame_bytes == right.maximum_control_frame_bytes
        && left.maximum_object_bytes == right.maximum_object_bytes
}

/// What a device answers to a challenge.
pub open spec fn answered(
    hello: SessionHelloView,
    challenge: SessionChallengeView,
    initiator_secret: Seq<u8>,
    responder_key: Seq<u8>,
    transport_binding: Seq<u8>,
    group_id: GroupId,
    limits: LimitsView,
) -> Result<(SessionView, SessionProofView), ProtocolError> {
    let initiator_id = device_id_of(ed25519_public(initiator_secret));
    match hello_handshake(hello) {
        Err(error) => Err(error),
        Ok(initiator_handshake) => match binding_problem(hello, transport_binding) {
            Some(error) => Err(error),
            None => match identifier("device_id", initiator_handshake.device_id) {
                Err(error) => Err(error),
                Ok(claimed) => if claimed != initiator_id.value {
                    Err(ProtocolError::LocalIdentityMismatch)
                } else {
                    match challenge_handshake(challenge) {
                        Err(error) => Err(error),
                        Ok(responder_handshake) => match negotiated(
                            responder_handshake,
                            group_id,
                            limits,
                        ) {
                            Err(error) => Err(error),
                            Ok(session) => match verified_transcript(
                                hello,
                                challenge,
                                responder_handshake,
                                session,
                                responder_key,
                                "session_challenge.responder_signature",
                                challenge.responder_signature,
                            ) {
                                Err(error) => Err(error),
                                Ok(transcript) => Ok(
                                    (
                                        session,
                                        SessionProofView {
                                            initiator_signature: ed25519_signed(
                                                initiator_secret,
                                                session_message(initiator_id, transcript),
                                            ),
                                        },
                                    ),
                                ),
                            },
                        },
                    }
                },
            },
        },
    }
}

/// The transcript that the peer with the given key has signed, or why its signature is refused.
pub open spec fn verified_transcript(
    hello: SessionHelloView,
    challenge: SessionChallengeView,
    responder_handshake: HandshakeView,
    session: SessionView,
    peer_key: Seq<u8>,
    field: &'static str,
    signature: Seq<u8>,
) -> Result<Seq<u8>, ProtocolError> {
    if session.remote_device_id != device_id_of(peer_key) {
        Err(
            ProtocolError::PeerIdentityMismatch {
                claimed: session.remote_device_id,
                authenticated: device_id_of(peer_key),
            },
        )
    } else {
        match challenge_acknowledgement(challenge) {
            Err(error) => Err(error),
            Ok(acknowledgement) => signed_transcript(
                hello,
                challenge,
                responder_handshake,
                acknowledgement,
                session,
                peer_key,
                field,
                signature,
            ),
        }
    }
}

/// The transcript with the given acknowledgement, where the peer has signed it.
pub open spec fn signed_transcript(
    hello: SessionHelloView,
    challenge: SessionChallengeView,
    responder_handshake: HandshakeView,
    acknowledgement: HandshakeAckView,
    session: SessionView,
    peer_key: Seq<u8>,
    field: &'static str,
    signature: Seq<u8>,
) -> Result<Seq<u8>, ProtocolError> {
    if acknowledgement != session.acknowledgement() {
        Err(ProtocolError::HandshakeAcknowledgementMismatch)
    } else {
        match nonce_in("session_challenge.nonce", challenge.nonce) {
            Err(error) => Err(error),
            Ok(nonce) => match nonce_in("session_hello.nonce", hello.nonce) {
                Err(error) => Err(error),
                Ok(_) => match signature_in(field, signature) {
                    Err(error) => Err(error),
                    Ok(signature) => {
                        let transcript = transcript_of(
                            hello,
                            responder_handshake,
                            acknowledgement,
                            nonce,
                        );
                        match session_verified(
                            peer_key,
                            transcript,
                            AuthorizationView {
                                author_device_id: session.remote_device_id,
                                signature,
                            },
                        ) {
                            Err(error) => Err(ProtocolError::Identity(error)),
                            Ok(_) => Ok(transcript),
                        }
                    },
                },
            },
        }
    }
}

fn verify_transcript(
    hello: &SessionHello,
    challenge: &SessionChallenge,
    responder_handshake: &Handshake,
    acknowledgement: &HandshakeAck,
    session: &NegotiatedSession,
    peer_key: DevicePublicKey,
    field: &'static str,
    signature: &[u8],
) -> (result: Result<Vec<u8>, ProtocolError>)
    ensures
        agrees(
            result,
            signed_transcript(
                hello@,
                challenge@,
                responder_handshake@,
                acknowledgement@,
                session@,
                peer_key@,
                field,
                signature@,
            ),
        ),
{
    if !same_acknowledgement(acknowledgement, &session.acknowledgement()) {
        return Err(ProtocolError::HandshakeAcknowledgementMismatch);
    }
    let responder_nonce: SessionNonce = parse_session_nonce(
        "session_challenge.nonce",
        challenge.nonce.as_slice(),
    )?;
    let transcript: Vec<u8> = session_transcript(
        hello,
        responder_handshake,
        acknowledgement,
        responder_nonce,
    )?;
    let signature: SessionSignature = parse_session_signature(field, signature)?;
    match peer_key.verify_session(
        transcript.as_slice(),
        SessionAuthorization { author_device_id: session.remote_device_id(), signature },
    ) {
        Ok(_) => Ok(transcript),
        Err(error) => Err(ProtocolError::Identity(error)),
    }
}

/// Answers a challenge with a proof, once the responder's signature is verified.
pub fn answer_session_challenge(
    hello: &SessionHello,
    challenge: &SessionChallenge,
    initiator_identity: &DeviceIdentity,
    responder_public_key: DevicePublicKey,
    expected_transport_binding: SessionTransportBinding,
    expected_group_id: GroupId,
    local_limits: ProtocolLimits,
) -> (result: Result<(NegotiatedSession, SessionProof), ProtocolError>)
    ensures
        agrees(
            result,
            answered(
                hello@,
                challenge@,
                initiator_identity.secret(),
                responder_public_key@,
                expected_transport_binding@,
                expected_group_id,
                local_limits@,
            ),
        ),
        result matches Ok((session, answer)) ==> signs(
            initiator_identity.key(),
            transcript_of(
                hello@,
                challenge@.handshake->0,
                challenge@.acknowledgement->0,
                challenge@.nonce,
            ),
            answer@.initiator_signature,
        ),
{
    let initiator_handshake: &Handshake = session_hello_handshake(hello)?;
    validate_session_transport_binding(hello, expected_transport_binding)?;
    if parse_handshake_device_id(initiator_handshake)? != initiator_identity.device_id() {
        return Err(ProtocolError::LocalIdentityMismatch);
    }
    let responder_handshake: &Handshake = session_challenge_handshake(challenge)?;
    let session: NegotiatedSession = negotiate_handshake(
        responder_handshake,
        expected_group_id,
        local_limits,
    )?;
    if session.remote_device_id() != responder_public_key.device_id() {
        return Err(
            ProtocolError::PeerIdentityMismatch {
                claimed: session.remote_device_id(),
                authenticated: responder_public_key.device_id(),
            },
        );
    }
    let acknowledgement: &HandshakeAck = session_challenge_acknowledgement(challenge)?;
    let transcript: Vec<u8> = verify_transcript(
        hello,
        challenge,
        responder_handshake,
        acknowledgement,
        &session,
        responder_public_key,
        "session_challenge.responder_signature",
        challenge.responder_signature.as_slice(),
    )?;
    let authorization: SessionAuthorization = initiator_identity.authorize_session(
        transcript.as_slice(),
    );
    let answer: SessionProof = SessionProof {
        initiator_signature: copy_bytes(authorization.signature.as_bytes().as_slice()),
    };
    Ok((session, answer))
}

/// What a device makes of the proof that answers its challenge.
pub open spec fn proven(
    hello: SessionHelloView,
    challenge: SessionChallengeView,
    answer: SessionProofView,
    responder_key: Seq<u8>,
    initiator_key: Seq<u8>,
    transport_binding: Seq<u8>,
    group_id: GroupId,
    limits: LimitsView,
) -> Result<SessionView, ProtocolError> {
    match hello_handshake(hello) {
        Err(error) => Err(error),
        Ok(initiator_handshake) => match binding_problem(hello, transport_binding) {
            Some(error) => Err(error),
            None => match negotiated(initiator_handshake, group_id, limits) {
                Err(error) => Err(error),
                Ok(session) => if session.remote_device_id != device_id_of(initiator_key) {
                    Err(
                        ProtocolError::PeerIdentityMismatch {
                            claimed: session.remote_device_id,
                            authenticated: device_id_of(initiator_key),
                        },
                    )
                } else {
                    match challenge_handshake(challenge) {
                        Err(error) => Err(error),
                        Ok(responder_handshake) => match identifier(
                            "device_id",
                            responder_handshake.device_id,
                        ) {
                            Err(error) => Err(error),
                            Ok(claimed) => if claimed != device_id_of(responder_key).value {
                                Err(ProtocolError::LocalIdentityMismatch)
                            } else {
                                match verified_transcript(
                                    hello,
                                    challenge,
                                    responder_handshake,
                                    session,
                                    initiator_key,
                                    "session_proof.initiator_signature",
                                    answer.initiator_signature,
                                ) {
                                    Err(error) => Err(error),
                                    Ok(_) => Ok(session),
                                }
                            },
                        },
                    }
                },
            },
        },
    }
}

/// Verifies the proof that answers a challenge.
pub fn verify_session_proof(
    hello: &SessionHello,
    challenge: &SessionChallenge,
    answer: &SessionProof,
    responder_identity: &DeviceIdentity,
    initiator_public_key: DevicePublicKey,
    expected_transport_binding: SessionTransportBinding,
    expected_group_id: GroupId,
    local_limits: ProtocolLimits,
) -> (result: Result<NegotiatedSession, ProtocolError>)
    ensures
        agrees(
            result,
            proven(
                hello@,
                challenge@,
                answer@,
                responder_identity.key(),
                initiator_public_key@,
                expected_transport_binding@,
                expected_group_id,
                local_limits@,
            ),
        ),
{
    let initiator_handshake: &Handshake = session_hello_handshake(hello)?;
    validate_session_transport_binding(hello, expected_transport_binding)?;
    let session: NegotiatedSession = negotiate_handshake(
        initiator_handshake,
        expected_group_id,
        local_limits,
    )?;
    if session.remote_device_id() != initiator_public_key.device_id() {
        return Err(
            ProtocolError::PeerIdentityMismatch {
                claimed: session.remote_device_id(),
                authenticated: initiator_public_key.device_id(),
            },
        );
    }
    let responder_handshake: &Handshake = session_challenge_handshake(challenge)?;
    if parse_handshake_device_id(responder_handshake)? != responder_identity.device_id() {
        return Err(ProtocolError::LocalIdentityMismatch);
    }
    let acknowledgement: &HandshakeAck = session_challenge_acknowledgement(challenge)?;
    verify_transcript(
        hello,
        challenge,
        responder_handshake,
        acknowledgement,
        &session,
        initiator_public_key,
        "session_proof.initiator_signature",
        answer.initiator_signature.as_slice(),
    )?;
    Ok(session)
}

/// The hello that a device builds enrolls it with every device of its group that sees the same
/// connection.
pub proof fn law_hello_enrolls_its_sender(
    key: Seq<u8>,
    keys: KeysView,
    limits: LimitsView,
    nonce: Seq<u8>,
    transport_binding: Seq<u8>,
    listen_port: u16,
)
    requires
        key.len() == 32,
        ed25519_valid_key(key),
        device_id_of(key).value != 0,
    ensures
        enrolled(
            hello_of(key, keys, limits, nonce, transport_binding, listen_port),
            keys,
            transport_binding,
        ) == Ok::<EnrollmentView, ProtocolError>(
            EnrollmentView {
                public_key: key,
                listen_port: if listen_port == 0 {
                    None
                } else {
                    Some(listen_port)
                },
            },
        ),
{
    lemma_uuid_bytes(device_id_of(key).value);
}

/// Two devices of one group that see the same connection accept each other, and settle on the
/// same terms: the hello of the one, the other's challenge and the answer to it are all accepted.
pub proof fn law_session_is_mutually_accepted(
    initiator_secret: Seq<u8>,
    responder_secret: Seq<u8>,
    keys: KeysView,
    initiator_limits: LimitsView,
    responder_limits: LimitsView,
    initiator_nonce: Seq<u8>,
    responder_nonce: Seq<u8>,
    transport_binding: Seq<u8>,
    listen_port: u16,
    challenge: SessionChallengeView,
    answer: SessionProofView,
)
    requires
        initiator_limits.wf(),
        responder_limits.wf(),
        keys.group_id.value != 0,
        device_id_of(ed25519_public(initiator_secret)).value != 0,
        device_id_of(ed25519_public(responder_secret)).value != 0,
        device_id_of(ed25519_public(initiator_secret)) != device_id_of(
            ed25519_public(responder_secret),
        ),
        initiator_nonce.len() == 32,
        initiator_nonce != zeros(),
        responder_nonce.len() == 32,
        responder_nonce != zeros(),
        transport_binding.len() == 32,
        transport_binding != zeros(),
        ({
            let hello = hello_of(
                ed25519_public(initiator_secret),
                keys,
                initiator_limits,
                initiator_nonce,
                transport_binding,
                listen_port,
            );
            let transcript = transcript_of(
                hello,
                challenge.handshake->0,
                challenge.acknowledgement->0,
                challenge.nonce,
            );
            &&& accepted(
                hello,
                responder_secret,
                responder_nonce,
                transport_binding,
                keys.group_id,
                responder_limits,
            ) matches Ok((_, sent)) ==> challenge == sent
            &&& challenge.responder_signature.len() == 64
            &&& challenge.responder_signature.take(32) != ed25519_neutral()
            &&& signs(
                ed25519_public(responder_secret),
                transcript,
                challenge.responder_signature,
            )
            &&& answered(
                hello,
                challenge,
                initiator_secret,
                ed25519_public(responder_secret),
                transport_binding,
                keys.group_id,
                initiator_limits,
            ) matches Ok((_, sent)) ==> answer == sent
            &&& answer.initiator_signature.len() == 64
            &&& answer.initiator_signature.take(32) != ed25519_neutral()
            &&& signs(ed25519_public(initiator_secret), transcript, answer.initiator_signature)
        }),
    ensures
        ({
            let hello = hello_of(
                ed25519_public(initiator_secret),
                keys,
                initiator_limits,
                initiator_nonce,
                transport_binding,
                listen_port,
            );
            let at_responder = accepted(
                hello,
                responder_secret,
                responder_nonce,
                transport_binding,
                keys.group_id,
                responder_limits,
            );
            let at_initiator = answered(
                hello,
                challenge,
                initiator_secret,
                ed25519_public(responder_secret),
                transport_binding,
                keys.group_id,
                initiator_limits,
            );
            let settled = proven(
                hello,
                challenge,
                answer,
                ed25519_public(responder_secret),
                ed25519_public(initiator_secret),
                transport_binding,
                keys.group_id,
                responder_limits,
            );
            &&& at_responder is Ok
            &&& at_initiator is Ok
            &&& settled is Ok
            &&& at_responder->Ok_0.0.remote_device_id == device_id_of(
                ed25519_public(initiator_secret),
            )
            &&& at_initiator->Ok_0.0.remote_device_id == device_id_of(
                ed25519_public(responder_secret),
            )
            &&& at_responder->Ok_0.0.acknowledgement() == at_initiator->Ok_0.0.acknowledgement()
            &&& settled->Ok_0 == at_responder->Ok_0.0
        }),
{
    let initiator = device_id_of(ed25519_public(initiator_secret));
    let responder = device_id_of(ed25519_public(responder_secret));
    law_peers_settle_on_the_same_terms(
        initiator,
        responder,
        keys.group_id,
        initiator_limits,
        responder_limits,
    );
    lemma_uuid_bytes(initiator.value);
    lemma_uuid_bytes(responder.value);
}

/// A proof belongs to the session for which it was made. Where a device has accepted it, another
/// challenge to the same hello asks for the signature of another transcript, and the old proof
/// stands or falls with that; over another connection, or with the key of another device, it is
/// refused.
pub proof fn law_proof_belongs_to_its_session(
    hello: SessionHelloView,
    responder_secret: Seq<u8>,
    responder_nonce: Seq<u8>,
    other_nonce: Seq<u8>,
    answer: SessionProofView,
    initiator_key: Seq<u8>,
    other_key: Seq<u8>,
    transport_binding: Seq<u8>,
    other_binding: Seq<u8>,
    group_id: GroupId,
    limits: LimitsView,
)
    requires
        accepted(hello, responder_secret, responder_nonce, transport_binding, group_id, limits)
            matches Ok((session, challenge)) && proven(
            hello,
            challenge,
            answer,
            ed25519_public(responder_secret),
            initiator_key,
            transport_binding,
            group_id,
            limits,
        ) is Ok,
        other_nonce.len() == 32,
        other_nonce != zeros(),
        other_nonce != responder_nonce,
        other_binding != transport_binding,
        device_id_of(other_key) != device_id_of(initiator_key),
    ensures
        ({
            let responder_key = ed25519_public(responder_secret);
            let (session, challenge) = accepted(
                hello,
                responder_secret,
                responder_nonce,
                transport_binding,
                group_id,
                limits,
            )->Ok_0;
            let again = accepted(
                hello,
                responder_secret,
                other_nonce,
                transport_binding,
                group_id,
                limits,
            );
            let other = again->Ok_0.1;
            let transcript = transcript_of(
                hello,
                challenge.handshake->0,
                challenge.acknowledgement->0,
                challenge.nonce,
            );
            let other_transcript = transcript_of(
                hello,
                other.handshake->0,
                other.acknowledgement->0,
                other.nonce,
            );
            &&& again is Ok
            &&& proven(
                hello,
                challenge,
                answer,
                responder_key,
                initiator_key,
                transport_binding,
                group_id,
                limits,
            ) == Ok::<SessionView, ProtocolError>(session)
            &&& other_transcript != transcript
            &&& proven(
                hello,
                other,
                answer,
                responder_key,
                initiator_key,
                transport_binding,
                group_id,
                limits,
            ) == if ed25519_verified(
                initiator_key,
                session_message(device_id_of(initiator_key), other_transcript),
                answer.initiator_signature,
            ) {
                Ok(session)
            } else {
                Err(ProtocolError::Identity(IdentityError::InvalidSignature))
            }
            &&& proven(
                hello,
                challenge,
                answer,
                responder_key,
                initiator_key,
                other_binding,
                group_id,
                limits,
            ) == Err::<SessionView, ProtocolError>(ProtocolError::SessionTransportBindingMismatch)
            &&& proven(
                hello,
                challenge,
                answer,
                responder_key,
                other_key,
                transport_binding,
                group_id,
                limits,
            ) == Err::<SessionView, ProtocolError>(
                ProtocolError::PeerIdentityMismatch {
                    claimed: device_id_of(initiator_key),
                    authenticated: device_id_of(other_key),
                },
            )
        }),
{
    let (session, challenge) = accepted(
        hello,
        responder_secret,
        responder_nonce,
        transport_binding,
        group_id,
        limits,
    )->Ok_0;
    let handshake = challenge.handshake->0;
    let acknowledgement = challenge.acknowledgement->0;
    let transcript = transcript_of(hello, handshake, acknowledgement, responder_nonce);
    let other_transcript = transcript_of(hello, handshake, acknowledgement, other_nonce);
    let prefix = transcript_of(hello, handshake, acknowledgement, seq![]);
    assert(transcript =~= prefix + responder_nonce);
    assert(other_transcript =~= prefix + other_nonce);
    assert(transcript.skip(prefix.len() as int) =~= responder_nonce);
    assert(other_transcript.skip(prefix.len() as int) =~= other_nonce);
}

proof fn lemma_sized_split(left: Seq<u8>, left_rest: Seq<u8>, right: Seq<u8>, right_rest: Seq<u8>)
    requires
        sized(left) + left_rest == sized(right) + right_rest,
        left.len() <= u64::MAX,
        right.len() <= u64::MAX,
    ensures
        left == right,
        left_rest == right_rest,
{
    lemma_be_bounds();
    lemma_be_bytes_len(left.len(), 8);
    lemma_be_bytes_len(right.len(), 8);
    lemma_be_value_of_be_bytes(left.len(), 8);
    lemma_be_value_of_be_bytes(right.len(), 8);
    let whole = sized(left) + left_rest;
    assert(whole.take(8) =~= be_bytes(left.len(), 8));
    assert(whole.take(8) =~= be_bytes(right.len(), 8));
    assert(whole.subrange(8, 8 + left.len() as int) =~= left);
    assert(whole.subrange(8, 8 + left.len() as int) =~= right);
    assert(whole.skip(8 + left.len() as int) =~= left_rest);
    assert(whole.skip(8 + left.len() as int) =~= right_rest);
}

/// A transcript determines everything that was said: no two different sessions have the same.
pub proof fn law_transcript_binds_its_parts(
    left_hello: SessionHelloView,
    left_handshake: HandshakeView,
    left_acknowledgement: HandshakeAckView,
    left_nonce: Seq<u8>,
    right_hello: SessionHelloView,
    right_handshake: HandshakeView,
    right_acknowledgement: HandshakeAckView,
    right_nonce: Seq<u8>,
)
    requires
        transcript_of(left_hello, left_handshake, left_acknowledgement, left_nonce)
            == transcript_of(right_hello, right_handshake, right_acknowledgement, right_nonce),
        encoded::<SessionHello>(left_hello).len() <= u64::MAX,
        encoded::<Handshake>(left_handshake).len() <= u64::MAX,
        encoded::<HandshakeAck>(left_acknowledgement).len() <= u64::MAX,
        encoded::<SessionHello>(right_hello).len() <= u64::MAX,
        encoded::<Handshake>(right_handshake).len() <= u64::MAX,
        encoded::<HandshakeAck>(right_acknowledgement).len() <= u64::MAX,
    ensures
        left_hello == right_hello,
        left_handshake == right_handshake,
        left_acknowledgement == right_acknowledgement,
        left_nonce == right_nonce,
{
    let domain = "orbit/session-transcript/v1".spec_bytes();
    let left = transcript_of(left_hello, left_handshake, left_acknowledgement, left_nonce);
    let right = transcript_of(right_hello, right_handshake, right_acknowledgement, right_nonce);
    let left_third = sized(encoded::<HandshakeAck>(left_acknowledgement)) + left_nonce;
    let right_third = sized(encoded::<HandshakeAck>(right_acknowledgement)) + right_nonce;
    let left_second = sized(encoded::<Handshake>(left_handshake)) + left_third;
    let right_second = sized(encoded::<Handshake>(right_handshake)) + right_third;
    let left_first = sized(encoded::<SessionHello>(left_hello)) + left_second;
    let right_first = sized(encoded::<SessionHello>(right_hello)) + right_second;
    assert(left =~= domain + left_first);
    assert(right =~= domain + right_first);
    assert(left.skip(domain.len() as int) =~= left_first);
    assert(right.skip(domain.len() as int) =~= right_first);
    lemma_sized_split(
        encoded::<SessionHello>(left_hello),
        left_second,
        encoded::<SessionHello>(right_hello),
        right_second,
    );
    lemma_sized_split(
        encoded::<Handshake>(left_handshake),
        left_third,
        encoded::<Handshake>(right_handshake),
        right_third,
    );
    lemma_sized_split(
        encoded::<HandshakeAck>(left_acknowledgement),
        left_nonce,
        encoded::<HandshakeAck>(right_acknowledgement),
        right_nonce,
    );
    law_message_round_trips::<SessionHello>(left_hello);
    law_message_round_trips::<SessionHello>(right_hello);
    law_message_round_trips::<Handshake>(left_handshake);
    law_message_round_trips::<Handshake>(right_handshake);
    law_message_round_trips::<HandshakeAck>(left_acknowledgement);
    law_message_round_trips::<HandshakeAck>(right_acknowledgement);
}

} // verus!
