//! Handshakes: what two devices offer each other, and what they settle on.
use vstd::prelude::*;

use crate::bytes::copy_bytes;
use crate::ids::{lemma_uuid_bytes, DeviceId, GroupId};
use crate::outcome::agrees;
use crate::protocol::{
    identifier, parse_uuid, Capability, LimitsView, ProtocolError, ProtocolLimits,
    HARD_MAXIMUM_CONTROL_FRAME_BYTES, MINIMUM_CONTROL_FRAME_BYTES, MINIMUM_ENCRYPTED_OBJECT_BYTES,
    REQUIRED_CAPABILITIES,
};
use crate::wire::{Handshake, HandshakeAck, HandshakeAckView, HandshakeView};
use crate::PROTOCOL_VERSION;

verus! {

/// The numbers of capabilities.
pub open spec fn capability_numbers(capabilities: Seq<Capability>) -> Seq<i32> {
    Seq::new(capabilities.len(), |i: int| capabilities[i].spec_number())
}

fn numbers_of(capabilities: &[Capability]) -> (numbers: Vec<i32>)
    ensures
        numbers@ == capability_numbers(capabilities@),
{
    let mut numbers: Vec<i32> = Vec::new();
    let mut index: usize = 0;
    while index < capabilities.len()
        invariant
            index <= capabilities@.len(),
            numbers@.len() == index,
            forall|i: int| 0 <= i < index ==> numbers@[i] == capabilities@[i].spec_number(),
        decreases capabilities@.len() - index,
    {
        numbers.push(capabilities[index].number());
        index += 1;
    }
    assert(numbers@ =~= capability_numbers(capabilities@));
    numbers
}

/// The handshake of a device.
pub open spec fn handshake_of(
    device_id: DeviceId,
    group_id: GroupId,
    limits: LimitsView,
) -> HandshakeView {
    HandshakeView {
        minimum_protocol_version: PROTOCOL_VERSION as u32,
        maximum_protocol_version: PROTOCOL_VERSION as u32,
        device_id: device_id.spec_bytes(),
        group_id: group_id.spec_bytes(),
        capabilities: capability_numbers(REQUIRED_CAPABILITIES@),
        maximum_control_frame_bytes: limits.maximum_control_frame_bytes as u32,
        maximum_object_bytes: limits.maximum_encrypted_object_bytes,
    }
}

/// The handshake that a device offers.
pub fn current_handshake(
    device_id: DeviceId,
    group_id: GroupId,
    limits: ProtocolLimits,
) -> (handshake: Handshake)
    ensures
        handshake@ == handshake_of(device_id, group_id, limits@),
{
    let required: [Capability; 7] = REQUIRED_CAPABILITIES;
    Handshake {
        minimum_protocol_version: PROTOCOL_VERSION as u32,
        maximum_protocol_version: PROTOCOL_VERSION as u32,
        device_id: copy_bytes(device_id.to_bytes().as_slice()),
        group_id: copy_bytes(group_id.to_bytes().as_slice()),
        capabilities: numbers_of(required.as_slice()),
        maximum_control_frame_bytes: limits.maximum_control_frame_bytes() as u32,
        maximum_object_bytes: limits.maximum_encrypted_object_bytes(),
    }
}

/// The first of the required capabilities that is not offered.
pub open spec fn first_missing(required: Seq<Capability>, offered: Seq<i32>) -> Option<Capability>
    decreases required.len(),
{
    if required.len() == 0 {
        None
    } else if first_missing(required.drop_last(), offered) is Some {
        first_missing(required.drop_last(), offered)
    } else if !offered.contains(required.last().spec_number()) {
        Some(required.last())
    } else {
        None
    }
}

/// What two devices have settled on.
pub struct SessionView {
    pub remote_device_id: DeviceId,
    pub group_id: GroupId,
    pub protocol_version: u16,
    pub capabilities: Seq<Capability>,
    pub maximum_control_frame_bytes: usize,
    pub maximum_encrypted_object_bytes: u64,
}

impl SessionView {
    /// The acknowledgement of what was settled on.
    pub open spec fn acknowledgement(self) -> HandshakeAckView {
        HandshakeAckView {
            selected_protocol_version: self.protocol_version as u32,
            capabilities: capability_numbers(self.capabilities),
            maximum_control_frame_bytes: self.maximum_control_frame_bytes as u32,
            maximum_object_bytes: self.maximum_encrypted_object_bytes,
        }
    }
}

pub open spec fn smaller(left: int, right: int) -> int {
    if left <= right {
        left
    } else {
        right
    }
}

/// What a device settles on with a peer, or why it refuses the peer's handshake.
pub open spec fn negotiated(
    remote: HandshakeView,
    expected_group_id: GroupId,
    limits: LimitsView,
) -> Result<SessionView, ProtocolError> {
    if remote.minimum_protocol_version > remote.maximum_protocol_version {
        Err(
            ProtocolError::InvalidVersionRange {
                minimum: remote.minimum_protocol_version,
                maximum: remote.maximum_protocol_version,
            },
        )
    } else if !(remote.minimum_protocol_version <= PROTOCOL_VERSION
        <= remote.maximum_protocol_version) {
        Err(
            ProtocolError::IncompatibleProtocolVersion {
                local: PROTOCOL_VERSION,
                remote_minimum: remote.minimum_protocol_version,
                remote_maximum: remote.maximum_protocol_version,
            },
        )
    } else {
        match identifier("device_id", remote.device_id) {
            Err(error) => Err(error),
            Ok(device_id) => match identifier("group_id", remote.group_id) {
                Err(error) => Err(error),
                Ok(group_id) => if group_id != expected_group_id.value {
                    Err(
                        ProtocolError::GroupMismatch {
                            expected: expected_group_id,
                            actual: GroupId { value: group_id },
                        },
                    )
                } else if first_missing(REQUIRED_CAPABILITIES@, remote.capabilities) is Some {
                    Err(
                        ProtocolError::MissingRequiredCapability(
                            first_missing(REQUIRED_CAPABILITIES@, remote.capabilities)->0,
                        ),
                    )
                } else if remote.maximum_control_frame_bytes < MINIMUM_CONTROL_FRAME_BYTES {
                    Err(
                        ProtocolError::AdvertisedLimitTooSmall {
                            name: "maximum_control_frame_bytes",
                            value: remote.maximum_control_frame_bytes as u64,
                            minimum: MINIMUM_CONTROL_FRAME_BYTES as u64,
                        },
                    )
                } else if remote.maximum_object_bytes < MINIMUM_ENCRYPTED_OBJECT_BYTES {
                    Err(
                        ProtocolError::AdvertisedLimitTooSmall {
                            name: "maximum_object_bytes",
                            value: remote.maximum_object_bytes,
                            minimum: MINIMUM_ENCRYPTED_OBJECT_BYTES,
                        },
                    )
                } else {
                    Ok(
                        SessionView {
                            remote_device_id: DeviceId { value: device_id },
                            group_id: expected_group_id,
                            protocol_version: PROTOCOL_VERSION,
                            capabilities: REQUIRED_CAPABILITIES@,
                            maximum_control_frame_bytes: smaller(
                                limits.maximum_control_frame_bytes as int,
                                remote.maximum_control_frame_bytes as int,
                            ) as usize,
                            maximum_encrypted_object_bytes: smaller(
                                limits.maximum_encrypted_object_bytes as int,
                                remote.maximum_object_bytes as int,
                            ) as u64,
                        },
                    )
                },
            },
        }
    }
}

/// What two devices have settled on.
#[derive(Debug, PartialEq, Eq)]
pub struct NegotiatedSession {
    remote_device_id: DeviceId,
    group_id: GroupId,
    protocol_version: u16,
    capabilities: Vec<Capability>,
    maximum_control_frame_bytes: usize,
    maximum_encrypted_object_bytes: u64,
}

impl View for NegotiatedSession {
    type V = SessionView;

    closed spec fn view(&self) -> SessionView {
        SessionView {
            remote_device_id: self.remote_device_id,
            group_id: self.group_id,
            protocol_version: self.protocol_version,
            capabilities: self.capabilities@,
            maximum_control_frame_bytes: self.maximum_control_frame_bytes,
            maximum_encrypted_object_bytes: self.maximum_encrypted_object_bytes,
        }
    }
}

impl NegotiatedSession {
    /// The limit on control frames is one that a device can impose.
    #[verifier::type_invariant]
    pub open spec fn canonical(self) -> bool {
        self@.maximum_control_frame_bytes <= HARD_MAXIMUM_CONTROL_FRAME_BYTES
    }

    pub fn remote_device_id(&self) -> (id: DeviceId)
        ensures
            id == self@.remote_device_id,
    {
        self.remote_device_id
    }

    pub fn group_id(&self) -> (id: GroupId)
        ensures
            id == self@.group_id,
    {
        self.group_id
    }

    pub fn protocol_version(&self) -> (version: u16)
        ensures
            version == self@.protocol_version,
    {
        self.protocol_version
    }

    pub fn capabilities(&self) -> (capabilities: &[Capability])
        ensures
            capabilities@ == self@.capabilities,
    {
        self.capabilities.as_slice()
    }

    pub fn maximum_control_frame_bytes(&self) -> (limit: usize)
        ensures
            limit == self@.maximum_control_frame_bytes,
            limit <= HARD_MAXIMUM_CONTROL_FRAME_BYTES,
    {
        proof {
            use_type_invariant(self);
        }
        self.maximum_control_frame_bytes
    }

    pub fn maximum_encrypted_object_bytes(&self) -> (limit: u64)
        ensures
            limit == self@.maximum_encrypted_object_bytes,
    {
        self.maximum_encrypted_object_bytes
    }

    /// The acknowledgement of what was settled on.
    pub fn acknowledgement(&self) -> (acknowledgement: HandshakeAck)
        ensures
            acknowledgement@ == self@.acknowledgement(),
    {
        proof {
            use_type_invariant(self);
        }
        HandshakeAck {
            selected_protocol_version: self.protocol_version as u32,
            capabilities: numbers_of(self.capabilities.as_slice()),
            maximum_control_frame_bytes: self.maximum_control_frame_bytes as u32,
            maximum_object_bytes: self.maximum_encrypted_object_bytes,
        }
    }
}

fn offers(offered: &Vec<i32>, number: i32) -> (found: bool)
    ensures
        found == offered@.contains(number),
{
    let mut index: usize = 0;
    while index < offered.len()
        invariant
            index <= offered@.len(),
            forall|i: int| 0 <= i < index ==> offered@[i] != number,
        decreases offered@.len() - index,
    {
        if offered[index] == number {
            assert(offered@[index as int] == number);
            return true;
        }
        index += 1;
    }
    false
}

proof fn lemma_first_missing_prefix(required: Seq<Capability>, count: int, offered: Seq<i32>)
    requires
        0 <= count <= required.len(),
        first_missing(required.take(count), offered) is Some,
    ensures
        first_missing(required, offered) == first_missing(required.take(count), offered),
    decreases required.len(),
{
    if count < required.len() {
        assert(required.drop_last().take(count) =~= required.take(count));
        lemma_first_missing_prefix(required.drop_last(), count, offered);
    } else {
        assert(required.take(count) =~= required);
    }
}

fn find_missing(offered: &Vec<i32>) -> (missing: Option<Capability>)
    ensures
        missing == first_missing(REQUIRED_CAPABILITIES@, offered@),
{
    let required: [Capability; 7] = REQUIRED_CAPABILITIES;
    let ghost all = required@;
    let mut index: usize = 0;
    assert(all.take(0) =~= seq![]);
    while index < 7
        invariant
            index <= 7,
            all == required@,
            all == REQUIRED_CAPABILITIES@,
            all.len() == 7,
            first_missing(all.take(index as int), offered@) is None,
        decreases 7 - index,
    {
        let ghost next = all.take(index + 1);
        proof {
            assert(next.drop_last() =~= all.take(index as int));
            assert(next.last() == all[index as int]);
            if first_missing(next, offered@) is Some {
                lemma_first_missing_prefix(all, index + 1, offered@);
            }
        }
        if !offers(offered, required[index].number()) {
            return Some(required[index]);
        }
        index += 1;
    }
    assert(all.take(index as int) =~= all);
    None
}

/// Settles on a version, capabilities and limits with a peer.
pub fn negotiate_handshake(
    remote: &Handshake,
    expected_group_id: GroupId,
    local_limits: ProtocolLimits,
) -> (result: Result<NegotiatedSession, ProtocolError>)
    ensures
        agrees(result, negotiated(remote@, expected_group_id, local_limits@)),
{
    if remote.minimum_protocol_version > remote.maximum_protocol_version {
        return Err(
            ProtocolError::InvalidVersionRange {
                minimum: remote.minimum_protocol_version,
                maximum: remote.maximum_protocol_version,
            },
        );
    }
    let local_version: u32 = PROTOCOL_VERSION as u32;
    if remote.minimum_protocol_version > local_version || remote.maximum_protocol_version
        < local_version {
        return Err(
            ProtocolError::IncompatibleProtocolVersion {
                local: PROTOCOL_VERSION,
                remote_minimum: remote.minimum_protocol_version,
                remote_maximum: remote.maximum_protocol_version,
            },
        );
    }
    let remote_device_id: DeviceId = DeviceId::from_u128(
        parse_uuid("device_id", remote.device_id.as_slice())?,
    );
    let remote_group_id: GroupId = GroupId::from_u128(
        parse_uuid("group_id", remote.group_id.as_slice())?,
    );
    if remote_group_id != expected_group_id {
        return Err(
            ProtocolError::GroupMismatch { expected: expected_group_id, actual: remote_group_id },
        );
    }
    if let Some(required) = find_missing(&remote.capabilities) {
        return Err(ProtocolError::MissingRequiredCapability(required));
    }
    let remote_control_limit: usize = remote.maximum_control_frame_bytes as usize;
    if remote_control_limit < MINIMUM_CONTROL_FRAME_BYTES {
        return Err(
            ProtocolError::AdvertisedLimitTooSmall {
                name: "maximum_control_frame_bytes",
                value: remote.maximum_control_frame_bytes as u64,
                minimum: MINIMUM_CONTROL_FRAME_BYTES as u64,
            },
        );
    }
    if remote.maximum_object_bytes < MINIMUM_ENCRYPTED_OBJECT_BYTES {
        return Err(
            ProtocolError::AdvertisedLimitTooSmall {
                name: "maximum_object_bytes",
                value: remote.maximum_object_bytes,
                minimum: MINIMUM_ENCRYPTED_OBJECT_BYTES,
            },
        );
    }
    let local_control_limit: usize = local_limits.maximum_control_frame_bytes();
    let local_object_limit: u64 = local_limits.maximum_encrypted_object_bytes();
    let required: [Capability; 7] = REQUIRED_CAPABILITIES;
    Ok(
        NegotiatedSession {
            remote_device_id,
            group_id: remote_group_id,
            protocol_version: PROTOCOL_VERSION,
            capabilities: vstd::slice::slice_to_vec(required.as_slice()),
            maximum_control_frame_bytes: if local_control_limit <= remote_control_limit {
                local_control_limit
            } else {
                remote_control_limit
            },
            maximum_encrypted_object_bytes: if local_object_limit <= remote.maximum_object_bytes {
                local_object_limit
            } else {
                remote.maximum_object_bytes
            },
        },
    )
}

proof fn lemma_nothing_missing(required: Seq<Capability>, offered: Seq<i32>)
    requires
        forall|i: int|
            0 <= i < required.len() ==> offered.contains((#[trigger] required[i]).spec_number()),
    ensures
        first_missing(required, offered) is None,
    decreases required.len(),
{
    if required.len() > 0 {
        let front = required.drop_last();
        assert forall|i: int| 0 <= i < front.len() implies offered.contains(
            (#[trigger] front[i]).spec_number(),
        ) by {
            assert(front[i] == required[i]);
        }
        lemma_nothing_missing(front, offered);
        assert(required.last() == required[required.len() - 1]);
    }
}

proof fn lemma_all_offered(required: Seq<Capability>, offered: Seq<i32>)
    requires
        first_missing(required, offered) is None,
    ensures
        forall|i: int|
            0 <= i < required.len() ==> offered.contains((#[trigger] required[i]).spec_number()),
    decreases required.len(),
{
    if required.len() > 0 {
        lemma_all_offered(required.drop_last(), offered);
        assert forall|i: int| 0 <= i < required.len() implies offered.contains(
            (#[trigger] required[i]).spec_number(),
        ) by {
            if i < required.len() - 1 {
                assert(required.drop_last()[i] == required[i]);
            }
        }
    }
}

/// Two devices of one group settle on the same version, capabilities and limits, and each learns
/// who the other is.
pub proof fn law_peers_settle_on_the_same_terms(
    first: DeviceId,
    second: DeviceId,
    group_id: GroupId,
    first_limits: LimitsView,
    second_limits: LimitsView,
)
    requires
        first.value != 0,
        second.value != 0,
        group_id.value != 0,
        first_limits.wf(),
        second_limits.wf(),
    ensures
        ({
            let at_first = negotiated(
                handshake_of(second, group_id, second_limits),
                group_id,
                first_limits,
            );
            let at_second = negotiated(
                handshake_of(first, group_id, first_limits),
                group_id,
                second_limits,
            );
            &&& at_first is Ok
            &&& at_second is Ok
            &&& at_first->Ok_0.remote_device_id == second
            &&& at_second->Ok_0.remote_device_id == first
            &&& at_first->Ok_0.protocol_version == at_second->Ok_0.protocol_version
            &&& at_first->Ok_0.capabilities == at_second->Ok_0.capabilities
            &&& at_first->Ok_0.maximum_control_frame_bytes
                == at_second->Ok_0.maximum_control_frame_bytes
            &&& at_first->Ok_0.maximum_encrypted_object_bytes
                == at_second->Ok_0.maximum_encrypted_object_bytes
            &&& at_first->Ok_0.acknowledgement() == at_second->Ok_0.acknowledgement()
        }),
{
    lemma_uuid_bytes(first.value);
    lemma_uuid_bytes(second.value);
    lemma_uuid_bytes(group_id.value);
    let required = REQUIRED_CAPABILITIES@;
    let offered = capability_numbers(required);
    assert forall|i: int| 0 <= i < required.len() implies offered.contains(
        (#[trigger] required[i]).spec_number(),
    ) by {
        assert(offered[i] == required[i].spec_number());
    }
    lemma_nothing_missing(required, offered);
}

/// Capabilities that a device does not know, wherever they stand among those that it does, change
/// nothing.
pub proof fn law_further_capabilities_are_ignored(
    remote: HandshakeView,
    further: Seq<i32>,
    group_id: GroupId,
    limits: LimitsView,
)
    requires
        negotiated(remote, group_id, limits) is Ok,
        forall|number: i32| #[trigger]
            remote.capabilities.contains(number) ==> further.contains(number),
    ensures
        negotiated(HandshakeView { capabilities: further, ..remote }, group_id, limits)
            == negotiated(remote, group_id, limits),
{
    let required = REQUIRED_CAPABILITIES@;
    lemma_all_offered(required, remote.capabilities);
    assert forall|i: int| 0 <= i < required.len() implies further.contains(
        (#[trigger] required[i]).spec_number(),
    ) by {
        assert(remote.capabilities.contains(required[i].spec_number()));
    }
    lemma_nothing_missing(required, further);
}

/// A device settles on no limit above its own or above the peer's, and on none too small to work
/// with.
pub proof fn law_settled_limits_are_bounded(
    remote: HandshakeView,
    group_id: GroupId,
    limits: LimitsView,
)
    requires
        limits.wf(),
        negotiated(remote, group_id, limits) is Ok,
    ensures
        ({
            let session = negotiated(remote, group_id, limits)->Ok_0;
            &&& MINIMUM_CONTROL_FRAME_BYTES <= session.maximum_control_frame_bytes
            &&& session.maximum_control_frame_bytes <= limits.maximum_control_frame_bytes
            &&& session.maximum_control_frame_bytes <= remote.maximum_control_frame_bytes
            &&& MINIMUM_ENCRYPTED_OBJECT_BYTES <= session.maximum_encrypted_object_bytes
            &&& session.maximum_encrypted_object_bytes <= limits.maximum_encrypted_object_bytes
            &&& session.maximum_encrypted_object_bytes <= remote.maximum_object_bytes
        }),
{
}

} // verus!
