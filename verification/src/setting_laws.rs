//! What the settings of a device promise: which are sound, which peers they name, and what an
//! invitation brings.
use vstd::prelude::*;

use crate::catalog::{DeviceKey, MemberRole, MemberStatus};
use crate::client::{
    address_complaint, group_secret_of, invite_bytes, is_blank, key_complaint, node_invited,
    peer_invited, peer_position, same_ignoring_case, trimmed, with_peer, without_peer,
    workspace_invited, InvitePayload, WorkspaceView,
};
use crate::conflict_name::{trim_end, trim_start, white_space};
use crate::crypto::ed25519_valid_key;
use crate::daemon::{
    config_problem, configured_peers, decoded_key, is_configured, members_configured,
    peers_enrolled, DaemonConfig, DaemonProblem, PeerConfigView, RuntimePeerView,
};
use crate::hexadecimal::{digit_value, hexadecimal_bytes, is_hexadecimal, is_key_text};
use crate::history::watermark_at;
use crate::identity::device_id_of;
use crate::ids::{hyphenated, parsed_uuid, DeviceId, GroupId};
use crate::member_laws::{
    law_adding_a_member_leaves_the_others, law_new_members_are_added_active, member_row,
};
use crate::path::ascii_upper;
use crate::store::StoreView;
use crate::workspace::{named_peer, peer_statuses, workspace_entered, PeerStatusView};

verus! {

/// Two places apart from each other: somewhere on the way their paths part.
pub open spec fn part(left: Seq<Seq<u8>>, right: Seq<Seq<u8>>) -> bool {
    exists|i: int| 0 <= i < left.len() && i < right.len() && #[trigger] left[i] != right[i]
}

/// A configuration is accepted where both intervals last, a page holds between one record and
/// a thousand and twenty-four, and the folder and the store lie apart; and nowhere else.
pub proof fn law_sound_configuration_is_accepted(
    config: DaemonConfig,
    sync_root: Seq<Seq<u8>>,
    store_root: Seq<Seq<u8>>,
)
    ensures
        config_problem(config, sync_root, store_root) is None <==> {
            &&& config.scan_interval_seconds > 0
            &&& config.sync_interval_seconds > 0
            &&& 1 <= config.maximum_records_per_page <= 1024
            &&& part(sync_root, store_root)
        },
        config_problem(config, sync_root, store_root) matches Some(problem) ==> match problem {
            DaemonProblem::ZeroInterval { field } => {
                ||| field == "scan_interval_seconds" && config.scan_interval_seconds == 0
                ||| field == "sync_interval_seconds" && config.sync_interval_seconds == 0
            },
            DaemonProblem::InvalidPageSize { actual, maximum } => {
                &&& actual == config.maximum_records_per_page
                &&& maximum == 1024
                &&& actual == 0 || actual > 1024
            },
            DaemonProblem::OverlappingRoots => !part(sync_root, store_root),
            _ => false,
        },
{
    if part(sync_root, store_root) {
        let i = choose|i: int|
            0 <= i < sync_root.len() && i < store_root.len() && #[trigger] sync_root[i]
                != store_root[i];
        if store_root.len() <= sync_root.len() {
            assert(sync_root.take(store_root.len() as int)[i] != store_root[i]);
        }
        if sync_root.len() <= store_root.len() {
            assert(store_root.take(sync_root.len() as int)[i] != sync_root[i]);
        }
    } else if store_root.len() <= sync_root.len() {
        assert forall|i: int| 0 <= i < store_root.len() implies sync_root[i] == store_root[i] by {
            assert(!(sync_root[i] != store_root[i]));
        }
        assert(sync_root.take(store_root.len() as int) =~= store_root);
    } else {
        assert forall|i: int| 0 <= i < sync_root.len() implies sync_root[i] == store_root[i] by {
            assert(!(sync_root[i] != store_root[i]));
        }
        assert(store_root.take(sync_root.len() as int) =~= sync_root);
    }
}

/// Hexadecimal text holds an even number of digits, in either case, and its bytes do not depend on
/// the case.
pub proof fn law_hexadecimal_digits_have_no_case(text: Seq<char>)
    ensures
        is_hexadecimal(text) <==> text.len() % 2 == 0 && forall|i: int|
            0 <= i < text.len() ==> {
                let digit = #[trigger] text[i];
                '0' <= digit <= '9' || 'a' <= digit <= 'f' || 'A' <= digit <= 'F'
            },
        is_hexadecimal(text) ==> ({
            let raised = text.map_values(|digit: char| ascii_upper(digit));
            is_hexadecimal(raised) && hexadecimal_bytes(raised) == hexadecimal_bytes(text)
        }),
{
    let raised = text.map_values(|digit: char| ascii_upper(digit));
    assert forall|i: int| 0 <= i < text.len() implies (digit_value(#[trigger] text[i]) is Some <==> {
        let digit = text[i];
        '0' <= digit <= '9' || 'a' <= digit <= 'f' || 'A' <= digit <= 'F'
    }) by {}
    if is_hexadecimal(text) {
        assert forall|i: int| 0 <= i < text.len() implies digit_value(#[trigger] raised[i])
            == digit_value(text[i]) by {
            lemma_upper_digit(text[i]);
        }
        assert(hexadecimal_bytes(raised) =~= hexadecimal_bytes(text));
    }
}

proof fn lemma_upper_digit(digit: char)
    requires
        digit_value(digit) is Some,
    ensures
        digit_value(ascii_upper(digit)) == digit_value(digit),
{
    if 'a' <= digit <= 'f' {
        assert(ascii_upper(digit) as int == digit as int - 32);
    }
}

/// A key of a peer, or a secret of a group, is spelt by sixty-four hexadecimal digits and by
/// nothing else.
pub proof fn law_keys_are_spelt_by_digits(text: Seq<char>)
    ensures
        is_key_text(text) <==> text.len() == 64 && is_hexadecimal(text),
        decoded_key(text) is Ok <==> text.len() == 64 && is_hexadecimal(text)
            && ed25519_valid_key(hexadecimal_bytes(text)),
        decoded_key(text) matches Ok(key) ==> key == hexadecimal_bytes(text) && key.len() == 32,
        group_secret_of(text) is Ok <==> text.len() == 64 && is_hexadecimal(text),
        group_secret_of(text) matches Ok(secret) ==> secret == hexadecimal_bytes(text)
            && secret.len() == 32,
        key_complaint(text) is None <==> text.len() == 64 && is_hexadecimal(text),
{
}

/// The peer at a place in the settings can be loaded: its key is one, and is neither that of the
/// device nor that of an earlier peer.
pub open spec fn is_loadable(peers: Seq<PeerConfigView>, device_id: DeviceId, i: int) -> bool {
    &&& decoded_key(peers[i].public_key) is Ok
    &&& device_id_of(decoded_key(peers[i].public_key)->Ok_0) != device_id
    &&& forall|j: int|
        0 <= j < i ==> device_id_of(decoded_key((#[trigger] peers[j]).public_key)->Ok_0)
            != device_id_of(decoded_key(peers[i].public_key)->Ok_0)
}

/// Peers are loaded one for one, with their addresses and in their order, where each can be
/// loaded; and not otherwise.
pub proof fn law_configured_peers_are_loaded(peers: Seq<PeerConfigView>, device_id: DeviceId)
    ensures
        configured_peers(peers, device_id) is Ok <==> forall|i: int|
            0 <= i < peers.len() ==> #[trigger] is_loadable(peers, device_id, i),
        configured_peers(peers, device_id) matches Ok(loaded) ==> {
            &&& loaded.len() == peers.len()
            &&& forall|i: int|
                0 <= i < peers.len() ==> {
                    &&& (#[trigger] loaded[i]).address == peers[i].address
                    &&& loaded[i].public_key == decoded_key(peers[i].public_key)->Ok_0
                    &&& loaded[i].synchronize == peers[i].synchronize
                }
        },
    decreases peers.len(),
{
    if peers.len() > 0 {
        let before = peers.drop_last();
        let last = peers.len() - 1;
        law_configured_peers_are_loaded(before, device_id);
        assert forall|i: int| 0 <= i < last implies is_loadable(before, device_id, i)
            == #[trigger] is_loadable(peers, device_id, i) by {
            assert(before[i] == peers[i]);
            if is_loadable(before, device_id, i) {
                assert forall|j: int| 0 <= j < i implies device_id_of(
                    decoded_key((#[trigger] peers[j]).public_key)->Ok_0,
                ) != device_id_of(decoded_key(peers[i].public_key)->Ok_0) by {
                    assert(before[j] == peers[j]);
                }
            }
            if is_loadable(peers, device_id, i) {
                assert forall|j: int| 0 <= j < i implies device_id_of(
                    decoded_key((#[trigger] before[j]).public_key)->Ok_0,
                ) != device_id_of(decoded_key(before[i].public_key)->Ok_0) by {
                    assert(before[j] == peers[j]);
                }
            }
        }
        if configured_peers(peers, device_id) is Ok {
            let loaded = configured_peers(before, device_id)->Ok_0;
            assert forall|j: int| 0 <= j < last implies device_id_of(
                decoded_key((#[trigger] peers[j]).public_key)->Ok_0,
            ) != device_id_of(decoded_key(peers[last].public_key)->Ok_0) by {
                assert(loaded[j].public_key == decoded_key(before[j].public_key)->Ok_0);
            }
            assert(is_loadable(peers, device_id, last));
            assert forall|i: int| 0 <= i < peers.len() implies #[trigger] is_loadable(
                peers,
                device_id,
                i,
            ) by {
                if i < last {
                    assert(is_loadable(before, device_id, i));
                }
            }
        }
        if forall|i: int| 0 <= i < peers.len() ==> #[trigger] is_loadable(peers, device_id, i) {
            assert forall|i: int| 0 <= i < before.len() implies #[trigger] is_loadable(
                before,
                device_id,
                i,
            ) by {
                assert(is_loadable(peers, device_id, i));
            }
            let loaded = configured_peers(before, device_id)->Ok_0;
            assert(is_loadable(peers, device_id, last));
            assert forall|j: int| 0 <= j < loaded.len() implies device_id_of(
                (#[trigger] loaded[j]).public_key,
            ) != device_id_of(decoded_key(peers.last().public_key)->Ok_0) by {
                assert(before[j] == peers[j]);
            }
        }
    }
}

/// The refusal of settings speaks of the first peer that cannot be loaded.
pub proof fn law_refused_peer_is_the_first(peers: Seq<PeerConfigView>, device_id: DeviceId) -> (at:
    int)
    requires
        configured_peers(peers, device_id) is Err,
    ensures
        0 <= at < peers.len(),
        configured_peers(peers.take(at), device_id) is Ok,
        match decoded_key(peers[at].public_key) {
            Err(problem) => configured_peers(peers, device_id)->Err_0 == problem,
            Ok(key) => match configured_peers(peers, device_id)->Err_0 {
                DaemonProblem::LocalDeviceConfiguredAsPeer { device_id: refused } => refused
                    == device_id && device_id_of(key) == device_id,
                DaemonProblem::DuplicatePeer { device_id: refused } => {
                    &&& refused == device_id_of(key)
                    &&& device_id_of(key) != device_id
                    &&& exists|j: int|
                        0 <= j < at && device_id_of(
                            (#[trigger] configured_peers(
                                peers.take(at),
                                device_id,
                            )->Ok_0[j]).public_key,
                        ) == device_id_of(key)
                },
                _ => false,
            },
        },
    decreases peers.len(),
{
    let before = peers.drop_last();
    if configured_peers(before, device_id) is Err {
        let at = law_refused_peer_is_the_first(before, device_id);
        assert(before.take(at) =~= peers.take(at));
        at
    } else {
        let at = peers.len() - 1;
        assert(peers.take(at) =~= before);
        law_configured_peers_are_loaded(before, device_id);
        at
    }
}

/// Enrolling the configured peers makes each of them an active member under its key, in the order
/// in which they are configured, and changes nothing but members.
pub proof fn law_configured_peers_become_members(
    store: StoreView,
    group_id: GroupId,
    peers: Seq<RuntimePeerView>,
    i: int,
)
    requires
        peers_enrolled(store, group_id, peers).1 is None,
        0 <= i < peers.len(),
    ensures
        ({
            let after = peers_enrolled(store, group_id, peers).0;
            let row = member_row(after, group_id, device_id_of(peers[i].public_key));
            &&& row is Some
            &&& row->0.public_key == peers[i].public_key
            &&& row->0.role == MemberRole::Member
            &&& row->0.status == MemberStatus::Active
            &&& after == StoreView { members: after.members, ..store }
        }),
    decreases peers.len(),
{
    let before = peers.drop_last();
    let last = peers.last();
    let between = peers_enrolled(store, group_id, before).0;
    law_new_members_are_added_active(between, group_id, last.public_key, MemberRole::Member);
    lemma_enrollment_touches_members(store, group_id, peers);
    if i < before.len() {
        law_configured_peers_become_members(store, group_id, before, i);
        let other = DeviceKey { group_id, device_id: device_id_of(peers[i].public_key) };
        if other.device_id != device_id_of(last.public_key) {
            law_adding_a_member_leaves_the_others(
                between,
                group_id,
                last.public_key,
                MemberRole::Member,
                other,
            );
        }
    }
}

proof fn lemma_enrollment_touches_members(
    store: StoreView,
    group_id: GroupId,
    peers: Seq<RuntimePeerView>,
)
    ensures
        ({
            let after = peers_enrolled(store, group_id, peers).0;
            after == StoreView { members: after.members, ..store }
        }),
    decreases peers.len(),
{
    if peers.len() > 0 {
        lemma_enrollment_touches_members(store, group_id, peers.drop_last());
    }
}

/// Enrollment keeps who is a member already and is not among the peers.
pub proof fn law_enrollment_keeps_other_members(
    store: StoreView,
    group_id: GroupId,
    peers: Seq<RuntimePeerView>,
    other: DeviceKey,
)
    requires
        forall|i: int|
            0 <= i < peers.len() ==> other != (DeviceKey {
                group_id,
                device_id: device_id_of((#[trigger] peers[i]).public_key),
            }),
    ensures
        crate::table::lookup(peers_enrolled(store, group_id, peers).0.members, other)
            == crate::table::lookup(store.members, other),
    decreases peers.len(),
{
    if peers.len() > 0 {
        let before = peers.drop_last();
        assert forall|i: int| 0 <= i < before.len() implies other != (DeviceKey {
            group_id,
            device_id: device_id_of((#[trigger] before[i]).public_key),
        }) by {
            assert(before[i] == peers[i]);
        }
        law_enrollment_keeps_other_members(store, group_id, before, other);
        assert(peers.last() == peers[peers.len() - 1]);
        law_adding_a_member_leaves_the_others(
            peers_enrolled(store, group_id, before).0,
            group_id,
            peers.last().public_key,
            MemberRole::Member,
            other,
        );
    }
}

/// The device is entered as the owner of its group, before any peer.
pub proof fn law_device_owns_its_group(
    store: StoreView,
    group_id: GroupId,
    key: Seq<u8>,
    peers: Seq<RuntimePeerView>,
)
    requires
        members_configured(store, group_id, key, peers).1 is None,
        forall|i: int|
            0 <= i < peers.len() ==> device_id_of((#[trigger] peers[i]).public_key) != device_id_of(
                key,
            ),
    ensures
        ({
            let row = member_row(
                members_configured(store, group_id, key, peers).0,
                group_id,
                device_id_of(key),
            );
            &&& row is Some
            &&& row->0.public_key == key
            &&& row->0.role == MemberRole::Owner
            &&& row->0.status == MemberStatus::Active
        }),
{
    law_new_members_are_added_active(store, group_id, key, MemberRole::Owner);
    let owned = crate::store::with_member(store, group_id, key, MemberRole::Owner);
    law_enrollment_keeps_other_members(
        owned,
        group_id,
        peers,
        DeviceKey { group_id, device_id: device_id_of(key) },
    );
}

/// A peer is configured where one of the keys in the settings names it.
pub proof fn law_peer_is_configured_by_its_key(peers: Seq<PeerConfigView>, i: int, device_id: DeviceId)
    requires
        0 <= i < peers.len(),
    ensures
        decoded_key(peers[i].public_key) matches Ok(key) && device_id_of(key) == device_id
            ==> is_configured(peers, device_id),
        !is_configured(peers, device_id) && decoded_key(peers[i].public_key) is Ok ==> device_id_of(
            decoded_key(peers[i].public_key)->Ok_0,
        ) != device_id,
        !is_configured(Seq::<PeerConfigView>::empty(), device_id),
{
}

/// White space around a text, and nothing else, is taken off.
pub proof fn law_only_white_space_is_taken_off(text: Seq<char>) -> (parts: (Seq<char>, Seq<char>))
    ensures
        text == parts.0 + trimmed(text) + parts.1,
        forall|i: int| 0 <= i < parts.0.len() ==> white_space(#[trigger] parts.0[i]),
        forall|i: int| 0 <= i < parts.1.len() ==> white_space(#[trigger] parts.1[i]),
        trimmed(text).len() > 0 ==> !white_space(trimmed(text)[0]) && !white_space(
            trimmed(text).last(),
        ),
        is_blank(text) <==> forall|i: int| 0 <= i < text.len() ==> white_space(#[trigger] text[i]),
{
    let front = lemma_front(text);
    let back = lemma_back(trim_start(text));
    assert(text =~= front + trimmed(text) + back);
    if trimmed(text).len() > 0 {
        assert(trimmed(text)[0] == trim_start(text)[0]);
        assert(text[front.len() as int] == trimmed(text)[0]);
        assert(!white_space(text[front.len() as int]));
    } else {
        assert forall|i: int| 0 <= i < text.len() implies white_space(#[trigger] text[i]) by {
            if i < front.len() {
                assert(text[i] == front[i]);
            } else {
                assert(text[i] == back[i - front.len()]);
            }
        }
    }
    (front, back)
}

proof fn lemma_front(text: Seq<char>) -> (front: Seq<char>)
    ensures
        text == front + trim_start(text),
        forall|i: int| 0 <= i < front.len() ==> white_space(#[trigger] front[i]),
        trim_start(text).len() > 0 ==> !white_space(trim_start(text)[0]),
    decreases text.len(),
{
    if text.len() > 0 && white_space(text[0]) {
        let rest = lemma_front(text.drop_first());
        let front = seq![text[0]] + rest;
        assert(text =~= seq![text[0]] + text.drop_first());
        assert(text.drop_first() == rest + trim_start(text.drop_first()));
        assert(text =~= front + trim_start(text.drop_first()));
        front
    } else {
        assert(text =~= Seq::<char>::empty() + text);
        Seq::empty()
    }
}

proof fn lemma_back(text: Seq<char>) -> (back: Seq<char>)
    ensures
        text == trim_end(text) + back,
        forall|i: int| 0 <= i < back.len() ==> white_space(#[trigger] back[i]),
        trim_end(text).len() > 0 ==> !white_space(trim_end(text).last()),
    decreases text.len(),
{
    if text.len() > 0 && white_space(text.last()) {
        let rest = lemma_back(text.drop_last());
        let back = rest.push(text.last());
        assert(text =~= text.drop_last().push(text.last()));
        assert(text.drop_last() == trim_end(text.drop_last()) + rest);
        assert(text =~= trim_end(text.drop_last()) + back);
        back
    } else {
        assert(text =~= text + Seq::<char>::empty());
        Seq::empty()
    }
}

/// An invitation is read where, but for white space around it, it is its prefix and hexadecimal
/// digits, which spell what it holds; and nowhere else.
pub proof fn law_invitation_is_its_prefix_and_digits(code: Seq<char>)
    ensures
        invite_bytes(code) is Ok <==> {
            let text = trimmed(code);
            &&& text.len() >= 7
            &&& text.take(7) == seq!['o', 'r', 'b', 'i', 't', '1', '_']
            &&& is_hexadecimal(text.skip(7))
        },
        invite_bytes(code) matches Ok(bytes) ==> bytes == hexadecimal_bytes(trimmed(code).skip(7)),
        invite_bytes(code) is Err && !(trimmed(code).len() >= 7 && trimmed(code).take(7) == seq![
            'o',
            'r',
            'b',
            'i',
            't',
            '1',
            '_',
        ]) ==> invite_bytes(code)->Err_0 == "Invitation code must start with orbit1_."@,
{
    reveal_strlit("orbit1_");
    assert("orbit1_"@ =~= seq!['o', 'r', 'b', 'i', 't', '1', '_']);
}

/// What an invitation has to hold: digits that spell the secret of the group, digits that spell a
/// key, and an address that is one.
pub open spec fn is_usable(invite: InvitePayload, address_problem: Option<Seq<char>>) -> bool {
    &&& invite.group_secret@.len() == 64 && is_hexadecimal(invite.group_secret@)
    &&& invite.peer_public_key@.len() == 64 && is_hexadecimal(invite.peer_public_key@)
    &&& address_problem is None
}

/// The peer of an invitation is taken on where the invitation is usable and is one of the device's
/// own group, by its name and its secret; and nowhere else. The device synchronizes with it.
pub proof fn law_peer_of_the_own_group_is_taken_on(
    invite: InvitePayload,
    group_id: Seq<char>,
    group_secret: Seq<u8>,
    address_problem: Option<Seq<char>>,
)
    ensures
        peer_invited(invite, group_id, group_secret, address_problem) is Ok <==> {
            &&& is_usable(invite, address_problem)
            &&& invite.group_id@ == group_id
            &&& hexadecimal_bytes(invite.group_secret@) == group_secret
        },
        peer_invited(invite, group_id, group_secret, address_problem) matches Ok(peer) ==> {
            &&& peer.address == invite.peer_address@
            &&& peer.public_key == invite.peer_public_key@
            &&& peer.synchronize
        },
        address_complaint(address_problem) is None <==> address_problem is None,
{
}

/// A workspace is entered where the invitation is usable and names a group, with the secret and
/// the peer of the invitation; and nowhere else. A device that is set up from an invitation
/// enters the same workspace.
pub proof fn law_invited_workspace_is_that_of_the_invitation(
    invite: InvitePayload,
    address_problem: Option<Seq<char>>,
)
    ensures
        workspace_invited(invite, address_problem) is Ok <==> is_usable(invite, address_problem)
            && parsed_uuid(invite.group_id@) is Ok,
        workspace_invited(invite, address_problem) matches Ok(workspace) ==> {
            &&& workspace.group_id.value == parsed_uuid(invite.group_id@)->Ok_0
            &&& workspace.group_secret == hexadecimal_bytes(invite.group_secret@)
            &&& workspace.peer.address == invite.peer_address@
            &&& workspace.peer.public_key == invite.peer_public_key@
            &&& workspace.peer.synchronize
        },
        node_invited(invite, address_problem) is Ok <==> workspace_invited(
            invite,
            address_problem,
        ) is Ok,
        node_invited(invite, address_problem) is Ok ==> node_invited(invite, address_problem)
            == workspace_invited(invite, address_problem),
{
}

/// A device switches to every workspace that it is invited to but the one that it is in.
pub proof fn law_device_switches_to_another_workspace(
    current_group_id: GroupId,
    invite: InvitePayload,
    address_problem: Option<Seq<char>>,
)
    ensures
        match workspace_invited(invite, address_problem) {
            Err(message) => workspace_entered(current_group_id, invite, address_problem) == Err::<
                WorkspaceView,
                Seq<char>,
            >(message),
            Ok(workspace) => {
                let entered = workspace_entered(current_group_id, invite, address_problem);
                &&& entered is Ok <==> workspace.group_id != current_group_id
                &&& entered matches Ok(there) ==> there == workspace
                &&& entered is Err ==> entered->Err_0
                    == "This device already belongs to the invitation workspace."@
            },
        },
{
}

/// Two texts are the same but for case where their characters are, one by one, or are the two
/// cases of one letter.
pub proof fn law_case_is_that_of_letters(left: Seq<char>, right: Seq<char>)
    ensures
        same_ignoring_case(left, right) <==> left.len() == right.len() && forall|i: int|
            0 <= i < left.len() ==> {
                let a = #[trigger] left[i];
                let b = right[i];
                ||| a == b
                ||| 'a' <= a <= 'z' && b as int == a as int - 32
                ||| 'a' <= b <= 'z' && a as int == b as int - 32
            },
{
    if left.len() == right.len() {
        assert forall|i: int| 0 <= i < left.len() implies ((ascii_upper(#[trigger] left[i])
            == ascii_upper(right[i])) <==> {
            let a = left[i];
            let b = right[i];
            ||| a == b
            ||| 'a' <= a <= 'z' && b as int == a as int - 32
            ||| 'a' <= b <= 'z' && a as int == b as int - 32
        }) by {
            lemma_case(left[i], right[i]);
        }
    }
}

proof fn lemma_case(a: char, b: char)
    ensures
        ascii_upper(a) == ascii_upper(b) <==> {
            ||| a == b
            ||| 'a' <= a <= 'z' && b as int == a as int - 32
            ||| 'a' <= b <= 'z' && a as int == b as int - 32
        },
{
    if 'a' <= a <= 'z' {
        assert(ascii_upper(a) as int == a as int - 32);
    }
    if 'a' <= b <= 'z' {
        assert(ascii_upper(b) as int == b as int - 32);
    }
}

/// The peer with a key is found at the first place that holds the key, in whichever case.
pub proof fn law_peer_is_found_by_its_key(peers: Seq<PeerConfigView>, public_key: Seq<char>)
    ensures
        peer_position(peers, public_key) is None <==> forall|i: int|
            0 <= i < peers.len() ==> !same_ignoring_case(
                (#[trigger] peers[i]).public_key,
                public_key,
            ),
        peer_position(peers, public_key) matches Some(at) ==> {
            &&& 0 <= at < peers.len()
            &&& same_ignoring_case(peers[at].public_key, public_key)
            &&& forall|i: int|
                0 <= i < at ==> !same_ignoring_case((#[trigger] peers[i]).public_key, public_key)
        },
    decreases peers.len(),
{
    if peers.len() > 0 {
        let before = peers.drop_last();
        law_peer_is_found_by_its_key(before, public_key);
        assert forall|i: int| 0 <= i < before.len() implies before[i] == #[trigger] peers[i] by {}
        if peer_position(peers, public_key) is None {
            assert forall|i: int| 0 <= i < peers.len() implies !same_ignoring_case(
                (#[trigger] peers[i]).public_key,
                public_key,
            ) by {
                if i < before.len() {
                    assert(before[i] == peers[i]);
                }
            }
        } else if peer_position(before, public_key) is Some {
            let at = peer_position(before, public_key)->0;
            assert(before[at] == peers[at]);
            assert forall|i: int| 0 <= i < at implies !same_ignoring_case(
                (#[trigger] peers[i]).public_key,
                public_key,
            ) by {
                assert(before[i] == peers[i]);
            }
        } else {
            assert forall|i: int| 0 <= i < before.len() implies !same_ignoring_case(
                (#[trigger] peers[i]).public_key,
                public_key,
            ) by {
                assert(before[i] == peers[i]);
            }
        }
    }
}

/// A peer that is entered takes the place of the one with its key, or comes last where there is
/// none; every other peer stays where it is.
pub proof fn law_entered_peer_takes_the_place_of_its_key(
    peers: Seq<PeerConfigView>,
    peer: PeerConfigView,
)
    ensures
        ({
            let after = with_peer(peers, peer);
            let known = exists|i: int|
                0 <= i < peers.len() && same_ignoring_case(
                    (#[trigger] peers[i]).public_key,
                    peer.public_key,
                );
            &&& after.len() == if known {
                peers.len()
            } else {
                peers.len() + 1
            }
            &&& after.contains(peer)
            &&& forall|i: int|
                0 <= i < peers.len() && !same_ignoring_case(
                    (#[trigger] peers[i]).public_key,
                    peer.public_key,
                ) ==> after[i] == peers[i]
            &&& !known ==> after.last() == peer
        }),
{
    law_peer_is_found_by_its_key(peers, peer.public_key);
    let after = with_peer(peers, peer);
    match peer_position(peers, peer.public_key) {
        Some(at) => {
            assert(after[at] == peer);
            assert(same_ignoring_case(peers[at].public_key, peer.public_key));
        },
        None => {
            assert(after[peers.len() as int] == peer);
        },
    }
}

proof fn lemma_kept_is_there(
    peers: Seq<PeerConfigView>,
    kept: spec_fn(PeerConfigView) -> bool,
    peer: PeerConfigView,
)
    requires
        peers.filter(kept).contains(peer),
    ensures
        peers.contains(peer),
    decreases peers.len(),
{
    reveal(Seq::filter);
    let before = peers.drop_last();
    let i = peers.filter(kept).index_of(peer);
    if i < before.filter(kept).len() {
        assert(before.filter(kept)[i] == peer);
        lemma_kept_is_there(before, kept, peer);
        let j = before.index_of(peer);
        assert(peers[j] == peer);
    } else {
        assert(peers[peers.len() - 1] == peer);
    }
}

/// A peer that is removed is gone, and every other stays.
pub proof fn law_removed_peer_is_gone(
    peers: Seq<PeerConfigView>,
    public_key: Seq<char>,
    peer: PeerConfigView,
)
    ensures
        without_peer(peers, public_key).contains(peer) <==> peers.contains(peer) && peer.public_key
            != public_key,
{
    broadcast use vstd::seq_lib::group_filter_ensures;

    let kept = |peer: PeerConfigView| peer.public_key != public_key;
    let after = peers.filter(kept);
    if after.contains(peer) {
        let i = after.index_of(peer);
        assert(kept(after[i]));
        lemma_kept_is_there(peers, kept, peer);
    }
    if peers.contains(peer) && peer.public_key != public_key {
        let i = peers.index_of(peer);
        assert(kept(peers[i]));
        assert(after.contains(peers[i]));
    }
}

/// A peer is found by the name of its device, at the first place that has it.
pub proof fn law_peer_is_found_by_its_name(peers: Seq<PeerStatusView>, device_id: Seq<char>)
    ensures
        named_peer(peers, device_id) is None <==> forall|i: int|
            0 <= i < peers.len() ==> hyphenated((#[trigger] peers[i]).device_id.value) != device_id,
        named_peer(peers, device_id) matches Some(at) ==> {
            &&& 0 <= at < peers.len()
            &&& hyphenated(peers[at].device_id.value) == device_id
            &&& forall|i: int|
                0 <= i < at ==> hyphenated((#[trigger] peers[i]).device_id.value) != device_id
        },
    decreases peers.len(),
{
    if peers.len() > 0 {
        let before = peers.drop_last();
        law_peer_is_found_by_its_name(before, device_id);
        if named_peer(peers, device_id) is None {
            assert forall|i: int| 0 <= i < peers.len() implies hyphenated(
                (#[trigger] peers[i]).device_id.value,
            ) != device_id by {
                if i < before.len() {
                    assert(before[i] == peers[i]);
                }
            }
        } else if named_peer(before, device_id) is Some {
            let at = named_peer(before, device_id)->0;
            assert(before[at] == peers[at]);
            assert forall|i: int| 0 <= i < at implies hyphenated(
                (#[trigger] peers[i]).device_id.value,
            ) != device_id by {
                assert(before[i] == peers[i]);
            }
        } else {
            assert forall|i: int| 0 <= i < before.len() implies hyphenated(
                (#[trigger] peers[i]).device_id.value,
            ) != device_id by {
                assert(before[i] == peers[i]);
            }
        }
    }
}

/// What is shown of the peers is shown of each, in their order: who it is, where it is reached,
/// and how far the device has got with it.
pub proof fn law_every_peer_is_shown(
    store: StoreView,
    group_id: GroupId,
    peers: Seq<RuntimePeerView>,
    i: int,
)
    requires
        0 <= i < peers.len(),
    ensures
        ({
            let shown = peer_statuses(store, group_id, peers);
            &&& shown.len() == peers.len()
            &&& shown[i].device_id == device_id_of(peers[i].public_key)
            &&& shown[i].public_key == crate::text::hex_text(peers[i].public_key)
            &&& shown[i].address == peers[i].address
            &&& shown[i].high_watermark == watermark_at(
                store,
                group_id,
                device_id_of(peers[i].public_key),
            )
        }),
{
}

} // verus!
