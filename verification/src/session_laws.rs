//! What sessions promise: which peers a device settles terms with, on which terms, and what a peer
//! has to show for it.
use vstd::prelude::*;

use crate::catalog::{MemberRole, MemberStatus, StoreError};
use crate::crypto::{ed25519_public, ed25519_valid_key, ed25519_verified};
use crate::handshake::{first_missing, negotiated, SessionView};
use crate::identity::{device_id_of, session_message};
use crate::ids::{
    lemma_uuid_bytes, lemma_uuid_of_bytes, uuid_bytes, uuid_of_bytes, DeviceId, GroupId,
};
use crate::keys::KeysView;
use crate::protocol::{LimitsView, ProtocolError, REQUIRED_CAPABILITIES};
use crate::session::{accepted, answered, enrolled, proven, transcript_of, zeros};
use crate::store::{member_at, membership_verdict, with_member, StoreView};
use crate::transport::{
    incoming_answered, outgoing_peer, outgoing_settled, session_limits, TransportProblem,
};
use crate::wire::{HandshakeView, SessionChallengeView, SessionHelloView, SessionProofView};

verus! {

/// The bytes spell the identifier, which is not the nil one.
pub open spec fn spells(bytes: Seq<u8>, value: u128) -> bool {
    value != 0 && bytes == uuid_bytes(value)
}

/// A device that speaks the first version, offers each of the seven capabilities and works with
/// messages of a kibibyte and objects of eighty-eight bytes.
pub open spec fn is_compatible(remote: HandshakeView) -> bool {
    &&& remote.minimum_protocol_version <= 1
    &&& 1 <= remote.maximum_protocol_version
    &&& forall|number: i32| 1 <= number <= 7 ==> #[trigger] remote.capabilities.contains(number)
    &&& 1024 <= remote.maximum_control_frame_bytes
    &&& 88 <= remote.maximum_object_bytes
}

proof fn lemma_spelt(bytes: Seq<u8>)
    ensures
        bytes.len() == 16 && uuid_of_bytes(bytes) != 0 ==> spells(bytes, uuid_of_bytes(bytes)),
        forall|value: u128| #[trigger]
            spells(bytes, value) ==> bytes.len() == 16 && uuid_of_bytes(bytes) == value,
{
    if bytes.len() == 16 {
        lemma_uuid_of_bytes(bytes);
    }
    assert forall|value: u128| #[trigger] spells(bytes, value) implies bytes.len() == 16
        && uuid_of_bytes(bytes) == value by {
        lemma_uuid_bytes(value);
    }
}

proof fn lemma_capabilities(offered: Seq<i32>)
    ensures
        first_missing(REQUIRED_CAPABILITIES@, offered) is None <==> forall|number: i32|
            1 <= number <= 7 ==> #[trigger] offered.contains(number),
        first_missing(REQUIRED_CAPABILITIES@, offered) matches Some(capability) ==> {
            &&& 1 <= capability.spec_number() <= 7
            &&& !offered.contains(capability.spec_number())
            &&& forall|number: i32|
                1 <= number < capability.spec_number() ==> #[trigger] offered.contains(number)
        },
{
    let required = REQUIRED_CAPABILITIES@;
    reveal_with_fuel(first_missing, 8);
    assert(required.len() == 7);
    assert(required[0].spec_number() == 1);
    assert(required[1].spec_number() == 2);
    assert(required[2].spec_number() == 3);
    assert(required[3].spec_number() == 4);
    assert(required[4].spec_number() == 5);
    assert(required[5].spec_number() == 6);
    assert(required[6].spec_number() == 7);
    let at_6 = required.drop_last();
    let at_5 = at_6.drop_last();
    let at_4 = at_5.drop_last();
    let at_3 = at_4.drop_last();
    let at_2 = at_3.drop_last();
    let at_1 = at_2.drop_last();
    assert(at_1.drop_last().len() == 0);
    assert(first_missing(at_1, offered) is None <==> offered.contains(1i32));
    assert(first_missing(at_2, offered) is None <==> offered.contains(1i32) && offered.contains(
        2i32,
    ));
    if first_missing(required, offered) is None {
        assert forall|number: i32| 1 <= number <= 7 implies #[trigger] offered.contains(number) by {
            assert(number == 1 || number == 2 || number == 3 || number == 4 || number == 5
                || number == 6 || number == 7);
        }
    } else {
        let missing = first_missing(required, offered)->0.spec_number();
        assert forall|number: i32| 1 <= number < missing implies #[trigger] offered.contains(
            number,
        ) by {
            assert(number == 1 || number == 2 || number == 3 || number == 4 || number == 5
                || number == 6 || number == 7);
        }
    }
}

/// A device settles terms with every compatible device of its group: on the first version, all
/// seven capabilities and, of each limit, the smaller of the two.
pub proof fn law_terms_are_settled_with_compatible_peers(
    remote: HandshakeView,
    device_id: DeviceId,
    group_id: GroupId,
    limits: LimitsView,
)
    requires
        is_compatible(remote),
        spells(remote.device_id, device_id.value),
        spells(remote.group_id, group_id.value),
        limits.maximum_control_frame_bytes <= 4_194_304,
    ensures
        negotiated(remote, group_id, limits) matches Ok(session) && {
            &&& session.remote_device_id == device_id
            &&& session.group_id == group_id
            &&& session.protocol_version == 1
            &&& session.capabilities.len() == 7
            &&& forall|i: int| 0 <= i < 7 ==> (#[trigger] session.capabilities[i]).spec_number() == i + 1
            &&& session.maximum_control_frame_bytes <= limits.maximum_control_frame_bytes
            &&& session.maximum_control_frame_bytes <= remote.maximum_control_frame_bytes
            &&& session.maximum_control_frame_bytes == limits.maximum_control_frame_bytes
                || session.maximum_control_frame_bytes == remote.maximum_control_frame_bytes
            &&& session.maximum_encrypted_object_bytes <= limits.maximum_encrypted_object_bytes
            &&& session.maximum_encrypted_object_bytes <= remote.maximum_object_bytes
            &&& session.maximum_encrypted_object_bytes == limits.maximum_encrypted_object_bytes
                || session.maximum_encrypted_object_bytes == remote.maximum_object_bytes
        },
{
    lemma_spelt(remote.device_id);
    lemma_spelt(remote.group_id);
    lemma_capabilities(remote.capabilities);
    let required = REQUIRED_CAPABILITIES@;
    assert(required.len() == 7);
    assert(required[0].spec_number() == 1);
    assert(required[1].spec_number() == 2);
    assert(required[2].spec_number() == 3);
    assert(required[3].spec_number() == 4);
    assert(required[4].spec_number() == 5);
    assert(required[5].spec_number() == 6);
    assert(required[6].spec_number() == 7);
    assert forall|i: int| 0 <= i < 7 implies (#[trigger] required[i]).spec_number() == i + 1 by {
        assert(i == 0 || i == 1 || i == 2 || i == 3 || i == 4 || i == 5 || i == 6);
    }
}

/// A device settles terms with compatible devices of its group alone.
pub proof fn law_terms_are_settled_with_nobody_else(
    remote: HandshakeView,
    group_id: GroupId,
    limits: LimitsView,
)
    requires
        negotiated(remote, group_id, limits) is Ok,
    ensures
        is_compatible(remote),
        spells(remote.device_id, negotiated(remote, group_id, limits)->Ok_0.remote_device_id.value),
        spells(remote.group_id, group_id.value),
{
    lemma_spelt(remote.device_id);
    lemma_spelt(remote.group_id);
    lemma_capabilities(remote.capabilities);
}

/// Why a device settles no terms: the reason names what is amiss, and of the capabilities that
/// are not offered the first.
pub proof fn law_refused_terms_name_their_reason(
    remote: HandshakeView,
    group_id: GroupId,
    limits: LimitsView,
)
    requires
        negotiated(remote, group_id, limits) is Err,
    ensures
        match negotiated(remote, group_id, limits)->Err_0 {
            ProtocolError::InvalidVersionRange { minimum, maximum } => {
                &&& minimum == remote.minimum_protocol_version
                &&& maximum == remote.maximum_protocol_version
                &&& maximum < minimum
            },
            ProtocolError::IncompatibleProtocolVersion { local, remote_minimum, remote_maximum } =>
            {
                &&& local == 1
                &&& remote_minimum == remote.minimum_protocol_version
                &&& remote_maximum == remote.maximum_protocol_version
                &&& remote_minimum > 1 || remote_maximum < 1
            },
            ProtocolError::InvalidIdentifierLength { field, actual } => {
                ||| field == "device_id" && remote.device_id.len() != 16 && actual
                    == remote.device_id.len() as usize
                ||| field == "group_id" && remote.group_id.len() != 16 && actual
                    == remote.group_id.len() as usize
            },
            ProtocolError::NilIdentifier { field } => {
                ||| field == "device_id" && remote.device_id == uuid_bytes(0)
                ||| field == "group_id" && remote.group_id == uuid_bytes(0)
            },
            ProtocolError::GroupMismatch { expected, actual } => {
                &&& expected == group_id
                &&& actual != group_id
                &&& spells(remote.group_id, actual.value)
            },
            ProtocolError::MissingRequiredCapability(capability) => {
                &&& 1 <= capability.spec_number() <= 7
                &&& !remote.capabilities.contains(capability.spec_number())
                &&& forall|number: i32|
                    1 <= number < capability.spec_number()
                        ==> #[trigger] remote.capabilities.contains(number)
            },
            ProtocolError::AdvertisedLimitTooSmall { name, value, minimum } => {
                ||| name == "maximum_control_frame_bytes" && value
                    == remote.maximum_control_frame_bytes && minimum == 1024 && value < 1024
                ||| name == "maximum_object_bytes" && value == remote.maximum_object_bytes
                    && minimum == 88 && value < 88
            },
            _ => false,
        },
{
    lemma_spelt(remote.device_id);
    lemma_spelt(remote.group_id);
    lemma_capabilities(remote.capabilities);
    if remote.device_id.len() == 16 {
        lemma_uuid_of_bytes(remote.device_id);
    }
    if remote.group_id.len() == 16 {
        lemma_uuid_of_bytes(remote.group_id);
    }
}

/// Limits are accepted between their bounds and nowhere else, and the refusal names a limit that
/// lies outside its own.
pub proof fn law_limits_lie_between_their_bounds(limits: LimitsView)
    ensures
        limits.problem() is None <==> {
            &&& 1024 <= limits.maximum_control_frame_bytes <= 4_194_304
            &&& 88 <= limits.maximum_encrypted_object_bytes <= 67_108_864
            &&& 1 <= limits.maximum_content_ids_per_request <= 16_384
            &&& 1 <= limits.maximum_change_records_per_batch <= 4096
        },
        limits.problem() matches Some(problem) ==> {
            &&& problem matches ProtocolError::InvalidLimit { name, value, minimum, maximum }
            &&& value < minimum || maximum < value
            &&& {
                ||| name == "maximum_control_frame_bytes" && value
                    == limits.maximum_control_frame_bytes && minimum == 1024 && maximum == 4_194_304
                ||| name == "maximum_encrypted_object_bytes" && value
                    == limits.maximum_encrypted_object_bytes && minimum == 88 && maximum
                    == 67_108_864
                ||| name == "maximum_content_ids_per_request" && value
                    == limits.maximum_content_ids_per_request && minimum == 1 && maximum == 16_384
                ||| name == "maximum_change_records_per_batch" && value
                    == limits.maximum_change_records_per_batch && minimum == 1 && maximum == 4096
            }
        },
{
}

/// What a session settles bounds messages and objects; the device's own limits bound the rest.
pub proof fn law_settled_limits_bind_the_session(local: LimitsView, session: SessionView)
    ensures
        ({
            let limits = session_limits(local, session);
            &&& limits.maximum_control_frame_bytes == session.maximum_control_frame_bytes
            &&& limits.maximum_encrypted_object_bytes == session.maximum_encrypted_object_bytes
            &&& limits.maximum_content_ids_per_request == local.maximum_content_ids_per_request
            &&& limits.maximum_change_records_per_batch == local.maximum_change_records_per_batch
        }),
{
}

/// The sender of a hello is enrolled where its key is one, names the device that it claims to be,
/// and its proof is made with the group's key for this very hello; and nowhere else. It is reached
/// at the port that it names, unless it names none.
pub proof fn law_holders_of_the_group_key_are_enrolled(
    hello: SessionHelloView,
    keys: KeysView,
    transport_binding: Seq<u8>,
)
    ensures
        enrolled(hello, keys, transport_binding) is Ok <==> {
            &&& hello.public_key.len() == 32
            &&& ed25519_valid_key(hello.public_key)
            &&& hello.handshake is Some
            &&& spells(hello.handshake->0.device_id, device_id_of(hello.public_key).value)
            &&& hello.listen_port <= 65_535
            &&& hello.enrollment_proof == keys.enrollment_proof(
                hello.public_key,
                hello.nonce,
                transport_binding,
                hello.listen_port as u16,
            )
        },
        enrolled(hello, keys, transport_binding) matches Ok(enrollment) ==> {
            &&& enrollment.public_key == hello.public_key
            &&& enrollment.listen_port is None <==> hello.listen_port == 0
            &&& enrollment.listen_port matches Some(port) ==> port == hello.listen_port
        },
{
    if hello.handshake is Some {
        lemma_spelt(hello.handshake->0.device_id);
    }
}

/// A value that is used once: thirty-two bytes, not all of them zero.
pub open spec fn is_fresh(bytes: Seq<u8>) -> bool {
    bytes.len() == 32 && exists|i: int| 0 <= i < 32 && #[trigger] bytes[i] != 0
}

proof fn lemma_fresh(bytes: Seq<u8>)
    ensures
        is_fresh(bytes) <==> bytes.len() == 32 && bytes != zeros(),
{
    if bytes.len() == 32 && !is_fresh(bytes) {
        assert(bytes =~= zeros());
    }
    if is_fresh(bytes) {
        let i = choose|i: int| 0 <= i < 32 && #[trigger] bytes[i] != 0;
        assert(zeros()[i] == 0);
    }
}

/// The signature is that of the device with the key, for the session with the transcript.
pub open spec fn proves(key: Seq<u8>, transcript: Seq<u8>, signature: Seq<u8>) -> bool {
    &&& signature.len() == 64
    &&& ed25519_valid_key(key)
    &&& ed25519_verified(key, session_message(device_id_of(key), transcript), signature)
}

/// A hello is answered where it carries a handshake on which terms are settled, a nonce and the
/// binding of the connection, and comes from another device; and nowhere else.
pub proof fn law_hello_of_another_device_is_answered(
    hello: SessionHelloView,
    responder_secret: Seq<u8>,
    responder_nonce: Seq<u8>,
    transport_binding: Seq<u8>,
    group_id: GroupId,
    limits: LimitsView,
)
    ensures
        accepted(
            hello,
            responder_secret,
            responder_nonce,
            transport_binding,
            group_id,
            limits,
        ) is Ok <==> {
            &&& hello.handshake is Some
            &&& is_fresh(hello.nonce)
            &&& is_fresh(hello.transport_binding)
            &&& hello.transport_binding == transport_binding
            &&& negotiated(hello.handshake->0, group_id, limits) matches Ok(session)
                && session.remote_device_id != device_id_of(ed25519_public(responder_secret))
        },
{
    lemma_fresh(hello.nonce);
    lemma_fresh(hello.transport_binding);
}

/// The answer to a hello holds the terms settled on, the device's own handshake and nonce, and is
/// drawn up under the terms that the session then has.
pub proof fn law_challenge_states_the_terms(
    hello: SessionHelloView,
    responder_secret: Seq<u8>,
    responder_nonce: Seq<u8>,
    transport_binding: Seq<u8>,
    group_id: GroupId,
    limits: LimitsView,
)
    requires
        accepted(
            hello,
            responder_secret,
            responder_nonce,
            transport_binding,
            group_id,
            limits,
        ) is Ok,
    ensures
        ({
            let (session, challenge) = accepted(
                hello,
                responder_secret,
                responder_nonce,
                transport_binding,
                group_id,
                limits,
            )->Ok_0;
            &&& negotiated(hello.handshake->0, group_id, limits) == Ok::<SessionView, ProtocolError>(
                session,
            )
            &&& challenge.nonce == responder_nonce
            &&& challenge.acknowledgement matches Some(acknowledgement) && {
                &&& acknowledgement.selected_protocol_version == session.protocol_version
                &&& acknowledgement.capabilities.len() == session.capabilities.len()
                &&& forall|i: int|
                    0 <= i < acknowledgement.capabilities.len()
                        ==> #[trigger] acknowledgement.capabilities[i]
                        == session.capabilities[i].spec_number()
                &&& acknowledgement.maximum_control_frame_bytes
                    == session.maximum_control_frame_bytes as u32
                &&& acknowledgement.maximum_object_bytes == session.maximum_encrypted_object_bytes
            }
            &&& challenge.handshake matches Some(handshake) && {
                &&& handshake.minimum_protocol_version == 1
                &&& handshake.maximum_protocol_version == 1
                &&& handshake.device_id == uuid_bytes(
                    device_id_of(ed25519_public(responder_secret)).value,
                )
                &&& handshake.group_id == uuid_bytes(group_id.value)
                &&& handshake.capabilities == seq![1i32, 2i32, 3i32, 4i32, 5i32, 6i32, 7i32]
                &&& handshake.maximum_control_frame_bytes
                    == limits.maximum_control_frame_bytes as u32
                &&& handshake.maximum_object_bytes == limits.maximum_encrypted_object_bytes
            }
        }),
{
    let (session, challenge) = accepted(
        hello,
        responder_secret,
        responder_nonce,
        transport_binding,
        group_id,
        limits,
    )->Ok_0;
    let numbers = challenge.handshake->0.capabilities;
    let required = REQUIRED_CAPABILITIES@;
    assert(required.len() == 7);
    assert(required[0].spec_number() == 1);
    assert(required[1].spec_number() == 2);
    assert(required[2].spec_number() == 3);
    assert(required[3].spec_number() == 4);
    assert(required[4].spec_number() == 5);
    assert(required[5].spec_number() == 6);
    assert(required[6].spec_number() == 7);
    assert(numbers =~= seq![1i32, 2i32, 3i32, 4i32, 5i32, 6i32, 7i32]);
}

/// A challenge is answered where the hello is the device's own, on this connection, terms are
/// settled on the peer's handshake, the peer has acknowledged these very terms and has signed for
/// the session; and nowhere else.
pub proof fn law_signed_challenge_is_answered(
    hello: SessionHelloView,
    challenge: SessionChallengeView,
    initiator_secret: Seq<u8>,
    responder_key: Seq<u8>,
    transport_binding: Seq<u8>,
    group_id: GroupId,
    limits: LimitsView,
)
    ensures
        answered(
            hello,
            challenge,
            initiator_secret,
            responder_key,
            transport_binding,
            group_id,
            limits,
        ) is Ok <==> {
            &&& hello.handshake is Some
            &&& spells(
                hello.handshake->0.device_id,
                device_id_of(ed25519_public(initiator_secret)).value,
            )
            &&& is_fresh(hello.nonce)
            &&& is_fresh(hello.transport_binding)
            &&& hello.transport_binding == transport_binding
            &&& challenge.handshake is Some
            &&& is_fresh(challenge.nonce)
            &&& negotiated(challenge.handshake->0, group_id, limits) matches Ok(session) && {
                &&& session.remote_device_id == device_id_of(responder_key)
                &&& challenge.acknowledgement == Some(session.acknowledgement())
                &&& proves(
                    responder_key,
                    transcript_of(
                        hello,
                        challenge.handshake->0,
                        session.acknowledgement(),
                        challenge.nonce,
                    ),
                    challenge.responder_signature,
                )
            }
        },
        answered(
            hello,
            challenge,
            initiator_secret,
            responder_key,
            transport_binding,
            group_id,
            limits,
        ) matches Ok((session, _)) ==> negotiated(challenge.handshake->0, group_id, limits) == Ok::<
            SessionView,
            ProtocolError,
        >(session),
{
    lemma_fresh(hello.nonce);
    lemma_fresh(hello.transport_binding);
    lemma_fresh(challenge.nonce);
    if hello.handshake is Some {
        lemma_spelt(hello.handshake->0.device_id);
    }
}

/// A session is open where the peer that said hello has signed for it under the key that names
/// it, on this connection and on the terms acknowledged to it; and nowhere else.
pub proof fn law_signed_answer_opens_the_session(
    hello: SessionHelloView,
    challenge: SessionChallengeView,
    answer: SessionProofView,
    responder_key: Seq<u8>,
    initiator_key: Seq<u8>,
    transport_binding: Seq<u8>,
    group_id: GroupId,
    limits: LimitsView,
)
    ensures
        proven(
            hello,
            challenge,
            answer,
            responder_key,
            initiator_key,
            transport_binding,
            group_id,
            limits,
        ) is Ok <==> {
            &&& hello.handshake is Some
            &&& is_fresh(hello.nonce)
            &&& is_fresh(hello.transport_binding)
            &&& hello.transport_binding == transport_binding
            &&& challenge.handshake is Some
            &&& spells(challenge.handshake->0.device_id, device_id_of(responder_key).value)
            &&& is_fresh(challenge.nonce)
            &&& negotiated(hello.handshake->0, group_id, limits) matches Ok(session) && {
                &&& session.remote_device_id == device_id_of(initiator_key)
                &&& challenge.acknowledgement == Some(session.acknowledgement())
                &&& proves(
                    initiator_key,
                    transcript_of(
                        hello,
                        challenge.handshake->0,
                        session.acknowledgement(),
                        challenge.nonce,
                    ),
                    answer.initiator_signature,
                )
            }
        },
        proven(
            hello,
            challenge,
            answer,
            responder_key,
            initiator_key,
            transport_binding,
            group_id,
            limits,
        ) matches Ok(session) ==> negotiated(hello.handshake->0, group_id, limits) == Ok::<
            SessionView,
            ProtocolError,
        >(session),
{
    lemma_fresh(hello.nonce);
    lemma_fresh(hello.transport_binding);
    lemma_fresh(challenge.nonce);
    if challenge.handshake is Some {
        lemma_spelt(challenge.handshake->0.device_id);
    }
}

/// A device connects where it is an active member under its own key and the peer is an active
/// member, and is then given the peer's key; and nowhere else.
pub proof fn law_active_members_connect_to_each_other(
    store: StoreView,
    group_id: GroupId,
    key: Seq<u8>,
    peer: DeviceId,
)
    ensures
        outgoing_peer(store, group_id, key, peer) is Ok <==> {
            &&& member_at(store, group_id, device_id_of(key)) matches Ok(Some(member))
                && member.status == MemberStatus::Active && member.public_key == key
            &&& member_at(store, group_id, peer) matches Ok(Some(member)) && member.status
                == MemberStatus::Active
        },
        outgoing_peer(store, group_id, key, peer) matches Ok(peer_key) ==> (member_at(
            store,
            group_id,
            peer,
        )->Ok_0)->0.public_key == peer_key,
{
}

/// The peer that a device has connected to is the one that it meant to reach, or the connection
/// is refused.
pub proof fn law_another_peer_is_refused(
    hello: SessionHelloView,
    challenge: SessionChallengeView,
    secret: Seq<u8>,
    peer_key: Seq<u8>,
    peer: DeviceId,
    binding: Seq<u8>,
    group_id: GroupId,
    limits: LimitsView,
)
    ensures
        ({
            let settled = outgoing_settled(
                hello,
                challenge,
                secret,
                peer_key,
                peer,
                binding,
                group_id,
                limits,
            );
            match answered(hello, challenge, secret, peer_key, binding, group_id, limits) {
                Err(error) => settled matches Err(TransportProblem::Protocol(problem)) && problem
                    == error,
                Ok((session, answer)) => if session.remote_device_id == peer {
                    settled matches Ok((kept, given)) && kept == session && given == answer
                } else {
                    settled matches Err(TransportProblem::UnexpectedPeer { expected, actual })
                        && expected == peer && actual == session.remote_device_id
                },
            }
        }),
{
}

/// A peer that knows the group's keys is let in where it is an active member, or is taken in where
/// it is none yet; a peer whose membership was revoked is not let in. Its key is that of the
/// member, and nothing changes in the store where it is refused or is a member already.
pub proof fn law_enrolled_peers_are_let_in(
    store: StoreView,
    hello: SessionHelloView,
    secret: Seq<u8>,
    nonce: Seq<u8>,
    binding: Seq<u8>,
    keys: KeysView,
    limits: LimitsView,
)
    requires
        accepted(hello, secret, nonce, binding, keys.group_id, limits) is Ok,
        enrolled(hello, keys, binding) is Ok,
    ensures
        ({
            let (session, challenge) = accepted(
                hello,
                secret,
                nonce,
                binding,
                keys.group_id,
                limits,
            )->Ok_0;
            let enrollment = enrolled(hello, keys, binding)->Ok_0;
            let (after, answer) = incoming_answered(
                store,
                hello,
                secret,
                nonce,
                binding,
                keys,
                limits,
            );
            match member_at(store, keys.group_id, session.remote_device_id) {
                Err(error) => after == store && (answer matches Err(TransportProblem::Store(problem))
                    && problem == error),
                Ok(Some(member)) => if member.status == MemberStatus::Active {
                    &&& after == store
                    &&& answer matches Ok(given) && {
                        &&& given.challenge == challenge
                        &&& given.peer_public_key == member.public_key
                        &&& given.listen_port == enrollment.listen_port
                    }
                } else {
                    &&& after == store
                    &&& answer matches Err(TransportProblem::Store(StoreError::MemberRevoked {
                        device_id,
                    })) && device_id == session.remote_device_id
                },
                Ok(None) => match membership_verdict(
                    store,
                    keys.group_id,
                    hello.public_key,
                    MemberRole::Member,
                ) {
                    Err(error) => after == store && (answer matches Err(
                        TransportProblem::Store(problem),
                    ) && problem == error),
                    Ok(_) => {
                        &&& after == with_member(
                            store,
                            keys.group_id,
                            hello.public_key,
                            MemberRole::Member,
                        )
                        &&& answer matches Ok(given) && {
                            &&& given.challenge == challenge
                            &&& given.peer_public_key == hello.public_key
                            &&& given.listen_port == enrollment.listen_port
                        }
                    },
                },
            }
        }),
{
}

/// A peer whose hello is refused, or that does not know the group's keys, leaves no trace.
pub proof fn law_strangers_leave_no_trace(
    store: StoreView,
    hello: SessionHelloView,
    secret: Seq<u8>,
    nonce: Seq<u8>,
    binding: Seq<u8>,
    keys: KeysView,
    limits: LimitsView,
)
    requires
        accepted(hello, secret, nonce, binding, keys.group_id, limits) is Err || enrolled(
            hello,
            keys,
            binding,
        ) is Err,
    ensures
        ({
            let (after, answer) = incoming_answered(
                store,
                hello,
                secret,
                nonce,
                binding,
                keys,
                limits,
            );
            &&& after == store
            &&& answer matches Err(TransportProblem::Protocol(_))
        }),
{
}

} // verus!
