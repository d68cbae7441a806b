//! The client: invitations, and what it shows of the daemon.
use vstd::prelude::*;

use crate::bytes::bytes_equal;
use crate::conflict_name::{is_white_space, trim_end, trim_start};
use crate::cycle::CycleReport;
use crate::daemon::{PeerConfig, PeerConfigView};
use crate::hexadecimal::{
    hex_complaint, hex_decode, hex_decode_key, hex_key_complaint, hexadecimal_bytes,
    is_hexadecimal, is_key_text, law_hexadecimal_round_trips,
};
use crate::ids::{hyphenated, parsed_uuid, DeviceId, GroupId};
use crate::message::list_view;
use crate::path::ascii_upper;
use crate::text::{
    chars_of, decimal_nat, hex_text, push_chars, push_decimal, push_hex, text_equal,
};

verus! {

/// How every invitation starts.
pub const INVITE_PREFIX: &'static str = "orbit1_";

pub const GROUP_SECRET_SIZE: usize = 32;

/// What the client shows first.
#[derive(Clone, Debug)]
pub struct BootstrapResponse {
    pub initialized: bool,
    pub platform: &'static str,
    pub mobile: bool,
    pub default_sync_root: String,
    pub snapshot: Option<ClientSnapshot>,
}

/// What the client shows of a device.
#[derive(Clone, Debug, PartialEq, Eq)]
pub struct ClientSnapshot {
    pub device_id: String,
    pub group_id: String,
    pub public_key: String,
    pub sync_root: String,
    pub store_root: String,
    pub listen_address: String,
    pub scan_interval_seconds: u64,
    pub sync_interval_seconds: u64,
    pub maximum_records_per_page: usize,
    pub local_change_count: u64,
    pub service_running: bool,
    pub peers: Vec<ClientPeer>,
}

/// What the client shows of a peer.
#[derive(Clone, Debug, PartialEq, Eq)]
pub struct ClientPeer {
    pub device_id: String,
    pub public_key: String,
    pub address: String,
    pub high_watermark: u64,
    pub pending_objects: usize,
}

/// The contents of a `ClientPeer`.
pub struct ClientPeerView {
    pub device_id: Seq<char>,
    pub public_key: Seq<char>,
    pub address: Seq<char>,
    pub high_watermark: u64,
    pub pending_objects: usize,
}

impl View for ClientPeer {
    type V = ClientPeerView;

    open spec fn view(&self) -> ClientPeerView {
        ClientPeerView {
            device_id: self.device_id@,
            public_key: self.public_key@,
            address: self.address@,
            high_watermark: self.high_watermark,
            pending_objects: self.pending_objects,
        }
    }
}

/// How a device is asked to be made.
#[derive(Clone, Debug, PartialEq, Eq)]
pub struct InitializeRequest {
    pub sync_root: Option<String>,
    pub listen_address: String,
    pub invite_code: Option<String>,
}

/// How a peer is asked to be added.
#[derive(Clone, Debug, PartialEq, Eq)]
pub struct PeerRequest {
    pub address: String,
    pub public_key: String,
}

/// How settings are asked to be changed.
#[derive(Clone, Debug, PartialEq, Eq)]
pub struct SettingsRequest {
    pub listen_address: String,
    pub scan_interval_seconds: u64,
    pub sync_interval_seconds: u64,
    pub maximum_records_per_page: usize,
}

/// What the client shows of a cycle.
#[derive(Clone, Debug, PartialEq, Eq)]
pub struct SyncResult {
    pub local_changes: usize,
    pub files_discovered: usize,
    pub peers_synchronized: usize,
    pub peers_failed: usize,
    pub peer_errors: Vec<String>,
    pub records_committed: usize,
    pub objects_stored: usize,
    pub encrypted_bytes_received: u64,
    pub remote_records_applied: usize,
    pub conflicts_kept_both: usize,
    pub completed_at_unix_ms: u64,
}

/// The state of a device. Paths and addresses are texts.
#[derive(Clone, Debug, PartialEq, Eq)]
pub struct RuntimeStatus {
    pub device_id: DeviceId,
    pub group_id: GroupId,
    pub public_key: String,
    pub sync_root: String,
    pub store_root: String,
    pub listen_address: String,
    pub scan_interval_seconds: u64,
    pub sync_interval_seconds: u64,
    pub maximum_records_per_page: usize,
    pub local_change_count: u64,
    pub peers: Vec<RuntimePeerStatus>,
}

/// The state of a peer.
#[derive(Clone, Debug, PartialEq, Eq)]
pub struct RuntimePeerStatus {
    pub device_id: DeviceId,
    pub public_key: String,
    pub address: String,
    pub high_watermark: u64,
    pub pending_objects: usize,
}

/// What is shown of a peer in the given state.
pub open spec fn shown_peer(peer: RuntimePeerStatus) -> ClientPeerView {
    ClientPeerView {
        device_id: hyphenated(peer.device_id.value),
        public_key: peer.public_key@,
        address: peer.address@,
        high_watermark: peer.high_watermark,
        pending_objects: peer.pending_objects,
    }
}

/// What is shown of peers.
pub open spec fn shown_peers(peers: Seq<RuntimePeerStatus>) -> Seq<ClientPeerView> {
    peers.map_values(|peer: RuntimePeerStatus| shown_peer(peer))
}

fn show_peers(peers: &Vec<RuntimePeerStatus>) -> (shown: Vec<ClientPeer>)
    ensures
        list_view(shown@) == shown_peers(peers@),
{
    let mut shown: Vec<ClientPeer> = Vec::new();
    let mut index: usize = 0;
    while index < peers.len()
        invariant
            index <= peers@.len(),
            shown@.len() == index,
            forall|i: int| 0 <= i < index ==> (#[trigger] shown@[i])@ == shown_peer(peers@[i]),
        decreases peers@.len() - index,
    {
        let peer: &RuntimePeerStatus = &peers[index];
        shown.push(
            ClientPeer {
                device_id: peer.device_id.to_string(),
                public_key: peer.public_key.as_str().to_owned(),
                address: peer.address.as_str().to_owned(),
                high_watermark: peer.high_watermark,
                pending_objects: peer.pending_objects,
            },
        );
        index += 1;
    }
    assert(list_view(shown@) =~= shown_peers(peers@));
    shown
}

/// What is shown of a device in the given state.
pub fn client_snapshot(status: &RuntimeStatus, service_running: bool) -> (snapshot: ClientSnapshot)
    ensures
        snapshot.device_id@ == hyphenated(status.device_id.value),
        snapshot.group_id@ == hyphenated(status.group_id.value),
        snapshot.public_key@ == status.public_key@,
        snapshot.sync_root@ == status.sync_root@,
        snapshot.store_root@ == status.store_root@,
        snapshot.listen_address@ == status.listen_address@,
        snapshot.scan_interval_seconds == status.scan_interval_seconds,
        snapshot.sync_interval_seconds == status.sync_interval_seconds,
        snapshot.maximum_records_per_page == status.maximum_records_per_page,
        snapshot.local_change_count == status.local_change_count,
        snapshot.service_running == service_running,
        list_view(snapshot.peers@) == shown_peers(status.peers@),
{
    ClientSnapshot {
        device_id: status.device_id.to_string(),
        group_id: status.group_id.to_string(),
        public_key: status.public_key.as_str().to_owned(),
        sync_root: status.sync_root.as_str().to_owned(),
        store_root: status.store_root.as_str().to_owned(),
        listen_address: status.listen_address.as_str().to_owned(),
        scan_interval_seconds: status.scan_interval_seconds,
        sync_interval_seconds: status.sync_interval_seconds,
        maximum_records_per_page: status.maximum_records_per_page,
        local_change_count: status.local_change_count,
        service_running,
        peers: show_peers(&status.peers),
    }
}

/// What is shown of a cycle that was completed at the given time.
pub fn sync_result(report: CycleReport, completed_at_unix_ms: u64) -> (result: SyncResult)
    requires
        report.maintenance.scan.file_changes + report.maintenance.scan.tombstones_created
            <= usize::MAX,
    ensures
        result.local_changes == report.maintenance.scan.file_changes
            + report.maintenance.scan.tombstones_created,
        result.files_discovered == report.maintenance.scan.files_discovered,
        result.peers_synchronized == report.synchronization.peers_synchronized,
        result.peers_failed == report.synchronization.peers_failed,
        result.peer_errors == report.synchronization.peer_errors,
        result.records_committed == report.synchronization.records_committed,
        result.objects_stored == report.synchronization.objects_stored,
        result.encrypted_bytes_received == report.synchronization.encrypted_bytes_received,
        result.remote_records_applied == report.synchronization.materialization.records_applied,
        result.conflicts_kept_both == report.synchronization.materialization.conflicts_kept_both,
        result.completed_at_unix_ms == completed_at_unix_ms,
{
    SyncResult {
        local_changes: report.maintenance.scan.changes_committed(),
        files_discovered: report.maintenance.scan.files_discovered,
        peers_synchronized: report.synchronization.peers_synchronized,
        peers_failed: report.synchronization.peers_failed,
        peer_errors: report.synchronization.peer_errors,
        records_committed: report.synchronization.records_committed,
        objects_stored: report.synchronization.objects_stored,
        encrypted_bytes_received: report.synchronization.encrypted_bytes_received,
        remote_records_applied: report.synchronization.materialization.records_applied,
        conflicts_kept_both: report.synchronization.materialization.conflicts_kept_both,
        completed_at_unix_ms,
    }
}

/// An invitation to a group.
#[derive(Clone, Debug, PartialEq, Eq)]
pub struct InvitePayload {
    pub version: u8,
    pub group_id: String,
    pub group_secret: String,
    pub peer_address: String,
    pub peer_public_key: String,
}

/// The text without white space around it.
pub open spec fn trimmed(text: Seq<char>) -> Seq<char> {
    trim_end(trim_start(text))
}

fn trim(text: &str) -> (kept: Vec<char>)
    ensures
        kept@ == trimmed(text@),
{
    let characters: Vec<char> = chars_of(text);
    let total: usize = characters.len();
    let ghost whole = text@;
    let mut start: usize = 0;
    assert(whole.skip(0) =~= whole);
    while start < total && is_white_space(characters[start])
        invariant
            start <= total,
            total == characters@.len(),
            characters@ == whole,
            trim_start(whole) == trim_start(whole.skip(start as int)),
        decreases total - start,
    {
        assert(whole.skip(start as int).drop_first() =~= whole.skip(start + 1));
        start += 1;
    }
    let ghost begun = whole.skip(start as int);
    assert(trim_start(whole) == begun);
    let mut end: usize = total;
    assert(begun =~= whole.subrange(start as int, end as int));
    while end > start && is_white_space(characters[end - 1])
        invariant
            start <= end <= total,
            total == characters@.len(),
            characters@ == whole,
            trim_end(begun) == trim_end(whole.subrange(start as int, end as int)),
        decreases end,
    {
        assert(whole.subrange(start as int, end as int).drop_last() =~= whole.subrange(
            start as int,
            end - 1,
        ));
        end -= 1;
    }
    let kept: &[char] = vstd::slice::slice_subrange(characters.as_slice(), start, end);
    vstd::slice::slice_to_vec(kept)
}

/// The text says nothing: there is nothing in it but white space.
pub open spec fn is_blank(text: Seq<char>) -> bool {
    trimmed(text).len() == 0
}

/// Where the synchronized files of a new device are: where it is asked, unless nothing is said.
pub fn choose_sync_root(requested: Option<String>, default_sync_root: &str) -> (root: String)
    ensures
        root@ == match requested {
            Some(text) => if is_blank(text@) {
                default_sync_root@
            } else {
                text@
            },
            None => default_sync_root@,
        },
{
    match requested {
        Some(text) => {
            if trim(text.as_str()).len() == 0 {
                default_sync_root.to_owned()
            } else {
                text
            }
        },
        None => default_sync_root.to_owned(),
    }
}

/// What an invitation holds, before it is read.
pub open spec fn invite_bytes(code: Seq<char>) -> Result<Seq<u8>, Seq<char>> {
    let text = trimmed(code);
    if text.len() < INVITE_PREFIX@.len() || text.take(INVITE_PREFIX@.len() as int)
        != INVITE_PREFIX@ {
        Err("Invitation code must start with orbit1_."@)
    } else {
        let encoded = text.skip(INVITE_PREFIX@.len() as int);
        if !is_hexadecimal(encoded) {
            Err("Invitation is invalid: "@ + hex_complaint(encoded))
        } else {
            Ok(hexadecimal_bytes(encoded))
        }
    }
}

fn joined(start: &str, rest: &str) -> (text: String)
    ensures
        text@ == start@ + rest@,
{
    let mut text: String = start.to_owned();
    vstd::string::StringExecFns::append(&mut text, rest);
    text
}

/// Takes what an invitation holds out of its code.
pub fn decode_invite_code(code: &str) -> (result: Result<Vec<u8>, String>)
    ensures
        match result {
            Ok(bytes) => invite_bytes(code@) == Ok::<Seq<u8>, Seq<char>>(bytes@),
            Err(message) => invite_bytes(code@) == Err::<Seq<u8>, Seq<char>>(message@),
        },
{
    let text: Vec<char> = trim(code);
    let prefix: Vec<char> = chars_of(INVITE_PREFIX);
    let count: usize = prefix.len();
    if text.len() < count {
        return Err("Invitation code must start with orbit1_.".to_owned());
    }
    let mut index: usize = 0;
    while index < count
        invariant
            index <= count <= text@.len(),
            count == prefix@.len(),
            prefix@ == INVITE_PREFIX@,
            text@ == trimmed(code@),
            forall|i: int| 0 <= i < index ==> text@[i] == prefix@[i],
        decreases count - index,
    {
        if text[index] != prefix[index] {
            assert(text@.take(count as int)[index as int] != prefix@[index as int]);
            return Err("Invitation code must start with orbit1_.".to_owned());
        }
        index += 1;
    }
    assert(text@.take(count as int) =~= prefix@);
    let mut encoded: String = String::new();
    push_chars(&mut encoded, text.as_slice(), count, text.len());
    assert(encoded@ =~= text@.skip(count as int));
    match hex_decode(encoded.as_str()) {
        Ok(bytes) => Ok(bytes),
        Err(message) => Err(joined("Invitation is invalid: ", message.as_str())),
    }
}

/// The code of an invitation that holds the given bytes.
pub open spec fn invite_code(bytes: Seq<u8>) -> Seq<char> {
    INVITE_PREFIX@ + hex_text(bytes)
}

/// Makes the code of an invitation.
pub fn encode_invite_code(bytes: &[u8]) -> (code: String)
    ensures
        code@ == invite_code(bytes@),
{
    let mut code: String = INVITE_PREFIX.to_owned();
    push_hex(&mut code, bytes);
    code
}

/// Checks that an invitation is of a version that is understood.
pub fn check_invite(invite: &InvitePayload) -> (result: Result<(), String>)
    ensures
        match result {
            Ok(_) => invite.version == 1,
            Err(message) => invite.version != 1 && message@ == "Invitation version "@
                + decimal_nat(invite.version as nat) + " is not supported."@,
        },
{
    if invite.version != 1 {
        let mut message: String = "Invitation version ".to_owned();
        push_decimal(&mut message, invite.version as u64);
        vstd::string::StringExecFns::append(&mut message, " is not supported.");
        return Err(message);
    }
    Ok(())
}

/// The group secret that a text stands for.
pub open spec fn group_secret_of(text: Seq<char>) -> Result<Seq<u8>, Seq<char>> {
    if is_key_text(text) {
        Ok(hexadecimal_bytes(text))
    } else {
        Err("Invitation group secret is invalid: "@ + hex_key_complaint(text))
    }
}

/// Reads a group secret.
pub fn decode_group_secret(encoded: &str) -> (result: Result<[u8; 32], String>)
    ensures
        match result {
            Ok(secret) => group_secret_of(encoded@) == Ok::<Seq<u8>, Seq<char>>(secret@),
            Err(message) => group_secret_of(encoded@) == Err::<Seq<u8>, Seq<char>>(message@),
        },
{
    match hex_decode_key(encoded) {
        Ok(secret) => Ok(secret),
        Err(message) => Err(joined("Invitation group secret is invalid: ", message.as_str())),
    }
}

/// What is wrong with the text of a public key.
pub open spec fn key_complaint(text: Seq<char>) -> Option<Seq<char>> {
    if is_key_text(text) {
        None
    } else {
        Some("Device public key is invalid: "@ + hex_key_complaint(text))
    }
}

/// Checks that a text stands for 32 bytes.
pub fn validate_public_key(encoded: &str) -> (result: Result<(), String>)
    ensures
        match result {
            Ok(_) => key_complaint(encoded@) is None,
            Err(message) => key_complaint(encoded@) == Some(message@),
        },
{
    match hex_decode_key(encoded) {
        Ok(_) => Ok(()),
        Err(message) => Err(joined("Device public key is invalid: ", message.as_str())),
    }
}

/// What is wrong with an address, in words.
pub open spec fn address_complaint(problem: Option<Seq<char>>) -> Option<Seq<char>> {
    match problem {
        None => None,
        Some(problem) => Some("Invitation peer address is invalid: "@ + problem),
    }
}

/// What is wrong with an address.
pub open spec fn problem_view(problem: Option<&str>) -> Option<Seq<char>> {
    match problem {
        Some(text) => Some(text@),
        None => None,
    }
}

fn check_address(problem: Option<&str>) -> (result: Result<(), String>)
    ensures
        match result {
            Ok(_) => address_complaint(problem_view(problem)) is None,
            Err(message) => address_complaint(problem_view(problem)) == Some(message@),
        },
{
    match problem {
        None => Ok(()),
        Some(text) => Err(joined("Invitation peer address is invalid: ", text)),
    }
}

/// The peer that an invitation names, as it is configured.
pub open spec fn invited_peer(invite: InvitePayload) -> PeerConfigView {
    PeerConfigView {
        address: invite.peer_address@,
        public_key: invite.peer_public_key@,
        synchronize: true,
    }
}

fn peer_of(invite: &InvitePayload) -> (peer: PeerConfig)
    ensures
        peer@ == invited_peer(*invite),
{
    PeerConfig {
        address: invite.peer_address.as_str().to_owned(),
        public_key: invite.peer_public_key.as_str().to_owned(),
        synchronize: true,
    }
}

/// The peer that an invitation to a device's own group names, or why it is not accepted: the
/// group and its secret are the device's own.
pub open spec fn peer_invited(
    invite: InvitePayload,
    group_id: Seq<char>,
    group_secret: Seq<u8>,
    address_problem: Option<Seq<char>>,
) -> Result<PeerConfigView, Seq<char>> {
    if invite.group_id@ != group_id {
        Err("Invitation belongs to a different Orbit workspace."@)
    } else {
        match group_secret_of(invite.group_secret@) {
            Err(message) => Err(message),
            Ok(secret) => if secret != group_secret {
                Err("Invitation group secret does not match this workspace."@)
            } else if key_complaint(invite.peer_public_key@) is Some {
                Err(key_complaint(invite.peer_public_key@)->0)
            } else if address_complaint(address_problem) is Some {
                Err(address_complaint(address_problem)->0)
            } else {
                Ok(invited_peer(invite))
            },
        }
    }
}

/// Reads the peer that an invitation to a device's own group names. `address_problem` says what
/// is wrong with the address of the peer, if anything is.
pub fn invite_peer_config(
    invite: &InvitePayload,
    expected_group_id: &str,
    expected_group_secret: &[u8],
    address_problem: Option<&str>,
) -> (result: Result<PeerConfig, String>)
    ensures
        match result {
            Ok(peer) => peer_invited(
                *invite,
                expected_group_id@,
                expected_group_secret@,
                problem_view(address_problem),
            ) == Ok::<PeerConfigView, Seq<char>>(peer@),
            Err(message) => peer_invited(
                *invite,
                expected_group_id@,
                expected_group_secret@,
                problem_view(address_problem),
            ) == Err::<PeerConfigView, Seq<char>>(message@),
        },
{
    if !text_equal(invite.group_id.as_str(), expected_group_id) {
        return Err("Invitation belongs to a different Orbit workspace.".to_owned());
    }
    let secret: [u8; 32] = decode_group_secret(invite.group_secret.as_str())?;
    if !bytes_equal(expected_group_secret, secret.as_slice()) {
        return Err("Invitation group secret does not match this workspace.".to_owned());
    }
    validate_public_key(invite.peer_public_key.as_str())?;
    check_address(address_problem)?;
    Ok(peer_of(invite))
}

/// The group that a text names, or what is wrong with the text.
pub open spec fn invited_group(text: Seq<char>) -> Result<GroupId, Seq<char>> {
    match parsed_uuid(text) {
        Ok(value) => Ok(GroupId { value }),
        Err(message) => Err("Invitation group ID is invalid: "@ + message),
    }
}

fn group_of(text: &str) -> (result: Result<GroupId, String>)
    ensures
        match result {
            Ok(group_id) => invited_group(text@) == Ok::<GroupId, Seq<char>>(group_id),
            Err(message) => invited_group(text@) == Err::<GroupId, Seq<char>>(message@),
        },
{
    match GroupId::parse(text) {
        Ok(group_id) => Ok(group_id),
        Err(message) => Err(joined("Invitation group ID is invalid: ", message.as_str())),
    }
}

/// A group that a device is invited to.
#[derive(Clone, Debug)]
pub struct InvitedWorkspace {
    pub group_id: GroupId,
    pub group_secret: [u8; 32],
    pub peer: PeerConfig,
}

/// The contents of an `InvitedWorkspace`.
pub struct WorkspaceView {
    pub group_id: GroupId,
    pub group_secret: Seq<u8>,
    pub peer: PeerConfigView,
}

impl View for InvitedWorkspace {
    type V = WorkspaceView;

    open spec fn view(&self) -> WorkspaceView {
        WorkspaceView {
            group_id: self.group_id,
            group_secret: self.group_secret@,
            peer: self.peer@,
        }
    }
}

/// The group that an invitation names, for a device that moves to it.
pub open spec fn workspace_invited(
    invite: InvitePayload,
    address_problem: Option<Seq<char>>,
) -> Result<WorkspaceView, Seq<char>> {
    match invited_group(invite.group_id@) {
        Err(message) => Err(message),
        Ok(group_id) => match group_secret_of(invite.group_secret@) {
            Err(message) => Err(message),
            Ok(group_secret) => if key_complaint(invite.peer_public_key@) is Some {
                Err(key_complaint(invite.peer_public_key@)->0)
            } else if address_complaint(address_problem) is Some {
                Err(address_complaint(address_problem)->0)
            } else {
                Ok(WorkspaceView { group_id, group_secret, peer: invited_peer(invite) })
            },
        },
    }
}

/// Reads the group that an invitation names, for a device that moves to it. `address_problem`
/// says what is wrong with the address of the peer, if anything is.
pub fn invite_workspace(invite: &InvitePayload, address_problem: Option<&str>) -> (result: Result<
    InvitedWorkspace,
    String,
>)
    ensures
        match result {
            Ok(workspace) => workspace_invited(*invite, problem_view(address_problem)) == Ok::<
                WorkspaceView,
                Seq<char>,
            >(workspace@),
            Err(message) => workspace_invited(*invite, problem_view(address_problem)) == Err::<
                WorkspaceView,
                Seq<char>,
            >(message@),
        },
{
    let group_id: GroupId = group_of(invite.group_id.as_str())?;
    let group_secret: [u8; 32] = decode_group_secret(invite.group_secret.as_str())?;
    validate_public_key(invite.peer_public_key.as_str())?;
    check_address(address_problem)?;
    Ok(InvitedWorkspace { group_id, group_secret, peer: peer_of(invite) })
}

/// The group that an invitation names, for a new device.
pub open spec fn node_invited(
    invite: InvitePayload,
    address_problem: Option<Seq<char>>,
) -> Result<WorkspaceView, Seq<char>> {
    match invited_group(invite.group_id@) {
        Err(message) => Err(message),
        Ok(group_id) => if key_complaint(invite.peer_public_key@) is Some {
            Err(key_complaint(invite.peer_public_key@)->0)
        } else if address_complaint(address_problem) is Some {
            Err(address_complaint(address_problem)->0)
        } else {
            match group_secret_of(invite.group_secret@) {
                Err(message) => Err(message),
                Ok(group_secret) => Ok(
                    WorkspaceView { group_id, group_secret, peer: invited_peer(invite) },
                ),
            }
        },
    }
}

/// Reads the group that an invitation names, for a new device. `address_problem` says what is
/// wrong with the address of the peer, if anything is.
pub fn invite_node(invite: &InvitePayload, address_problem: Option<&str>) -> (result: Result<
    InvitedWorkspace,
    String,
>)
    ensures
        match result {
            Ok(workspace) => node_invited(*invite, problem_view(address_problem)) == Ok::<
                WorkspaceView,
                Seq<char>,
            >(workspace@),
            Err(message) => node_invited(*invite, problem_view(address_problem)) == Err::<
                WorkspaceView,
                Seq<char>,
            >(message@),
        },
{
    let group_id: GroupId = group_of(invite.group_id.as_str())?;
    validate_public_key(invite.peer_public_key.as_str())?;
    check_address(address_problem)?;
    let group_secret: [u8; 32] = decode_group_secret(invite.group_secret.as_str())?;
    Ok(InvitedWorkspace { group_id, group_secret, peer: peer_of(invite) })
}

/// The invitation to a device's own group: the address has to be one that another device can
/// reach, and the secret 32 bytes.
pub fn build_invite(
    group_id: GroupId,
    group_secret: &[u8],
    address: &str,
    address_unspecified: bool,
    public_key: &str,
) -> (result: Result<InvitePayload, String>)
    ensures
        match result {
            Ok(invite) => {
                &&& !address_unspecified
                &&& group_secret@.len() == GROUP_SECRET_SIZE
                &&& invite.version == 1
                &&& invite.group_id@ == hyphenated(group_id.value)
                &&& invite.group_secret@ == hex_text(group_secret@)
                &&& invite.peer_address@ == address@
                &&& invite.peer_public_key@ == public_key@
            },
            Err(message) => message@ == if address_unspecified {
                "Use an address another device can reach, not 0.0.0.0 or [::]."@
            } else {
                "The group secret file must contain exactly 32 bytes."@
            } && (address_unspecified || group_secret@.len() != GROUP_SECRET_SIZE),
        },
{
    if address_unspecified {
        return Err("Use an address another device can reach, not 0.0.0.0 or [::].".to_owned());
    }
    if group_secret.len() != GROUP_SECRET_SIZE {
        return Err("The group secret file must contain exactly 32 bytes.".to_owned());
    }
    let mut secret_text: String = String::new();
    push_hex(&mut secret_text, group_secret);
    assert(secret_text@ =~= hex_text(group_secret@));
    Ok(
        InvitePayload {
            version: 1,
            group_id: group_id.to_string(),
            group_secret: secret_text,
            peer_address: address.to_owned(),
            peer_public_key: public_key.to_owned(),
        },
    )
}

/// Two texts differ at most by the case of ASCII letters.
pub open spec fn same_ignoring_case(left: Seq<char>, right: Seq<char>) -> bool {
    left.len() == right.len() && forall|i: int|
        0 <= i < left.len() ==> ascii_upper(#[trigger] left[i]) == ascii_upper(right[i])
}

fn equal_ignoring_case(left: &str, right: &str) -> (equal: bool)
    ensures
        equal == same_ignoring_case(left@, right@),
{
    let left_chars: Vec<char> = chars_of(left);
    let right_chars: Vec<char> = chars_of(right);
    if left_chars.len() != right_chars.len() {
        return false;
    }
    let mut index: usize = 0;
    while index < left_chars.len()
        invariant
            index <= left_chars@.len(),
            left_chars@ == left@,
            right_chars@ == right@,
            left_chars@.len() == right_chars@.len(),
            forall|i: int|
                0 <= i < index ==> ascii_upper(#[trigger] left@[i]) == ascii_upper(right@[i]),
        decreases left_chars@.len() - index,
    {
        if upper(left_chars[index]) != upper(right_chars[index]) {
            assert(ascii_upper(left@[index as int]) != ascii_upper(right@[index as int]));
            return false;
        }
        index += 1;
    }
    true
}

fn upper(character: char) -> (result: char)
    ensures
        result == ascii_upper(character),
{
    if 'a' <= character && character <= 'z' {
        (character as u8 - 32) as char
    } else {
        character
    }
}

/// The first of the peers with the given key, written in either case.
pub open spec fn peer_position(peers: Seq<PeerConfigView>, public_key: Seq<char>) -> Option<int>
    decreases peers.len(),
{
    if peers.len() == 0 {
        None
    } else {
        match peer_position(peers.drop_last(), public_key) {
            Some(position) => Some(position),
            None => if same_ignoring_case(peers.last().public_key, public_key) {
                Some(peers.len() - 1)
            } else {
                None
            },
        }
    }
}

proof fn lemma_peer_position(peers: Seq<PeerConfigView>, public_key: Seq<char>, count: int)
    requires
        0 <= count <= peers.len(),
        peer_position(peers.take(count), public_key) is Some,
    ensures
        peer_position(peers, public_key) == peer_position(peers.take(count), public_key),
    decreases peers.len(),
{
    if count < peers.len() {
        assert(peers.drop_last().take(count) =~= peers.take(count));
        lemma_peer_position(peers.drop_last(), public_key, count);
    } else {
        assert(peers.take(count) =~= peers);
    }
}

/// The peers with one more, which takes the place of one with the same key.
pub open spec fn with_peer(peers: Seq<PeerConfigView>, peer: PeerConfigView) -> Seq<
    PeerConfigView,
> {
    match peer_position(peers, peer.public_key) {
        Some(position) => peers.update(position, peer),
        None => peers.push(peer),
    }
}

/// Adds a peer, in the place of one with the same key.
pub fn add_peer_config(peers: &mut Vec<PeerConfig>, peer: PeerConfig)
    ensures
        list_view(final(peers)@) == with_peer(list_view(old(peers)@), peer@),
{
    let ghost views = list_view(peers@);
    let ghost added = peer@;
    let mut index: usize = 0;
    assert(views.take(0) =~= seq![]);
    while index < peers.len()
        invariant
            index <= peers@.len(),
            views == list_view(peers@),
            peers@ == old(peers)@,
            added == peer@,
            peer_position(views.take(index as int), peer@.public_key) is None,
        decreases peers@.len() - index,
    {
        proof {
            assert(views.take(index + 1).drop_last() =~= views.take(index as int));
            assert(views.take(index + 1).last() == peers@[index as int]@);
        }
        if equal_ignoring_case(peers[index].public_key.as_str(), peer.public_key.as_str()) {
            proof {
                lemma_peer_position(views, peer@.public_key, index + 1);
            }
            peers.set(index, peer);
            assert(list_view(peers@) =~= views.update(index as int, added));
            return;
        }
        index += 1;
    }
    assert(views.take(index as int) =~= views);
    peers.push(peer);
    assert(list_view(peers@) =~= views.push(added));
}

/// The peers without those that have the given key.
pub open spec fn without_peer(peers: Seq<PeerConfigView>, public_key: Seq<char>) -> Seq<
    PeerConfigView,
> {
    peers.filter(|peer: PeerConfigView| peer.public_key != public_key)
}

/// The peers without those that have the given key.
pub fn remove_peer_config(peers: Vec<PeerConfig>, public_key: &str) -> (kept: Vec<PeerConfig>)
    ensures
        list_view(kept@) == without_peer(list_view(peers@), public_key@),
{
    let ghost views = list_view(peers@);
    let mut kept: Vec<PeerConfig> = Vec::new();
    let mut index: usize = 0;
    proof {
        reveal(Seq::filter);
        assert(views.take(0) =~= seq![]);
        assert(without_peer(views.take(0), public_key@) =~= seq![]);
        assert(list_view(kept@) =~= seq![]);
    }
    while index < peers.len()
        invariant
            index <= peers@.len(),
            views == list_view(peers@),
            list_view(kept@) == without_peer(views.take(index as int), public_key@),
        decreases peers@.len() - index,
    {
        let ghost before = list_view(kept@);
        proof {
            reveal(Seq::filter);
            assert(views.take(index + 1).drop_last() =~= views.take(index as int));
            assert(views.take(index + 1).last() == peers@[index as int]@);
        }
        if !text_equal(peers[index].public_key.as_str(), public_key) {
            let peer: PeerConfig = PeerConfig {
                address: peers[index].address.as_str().to_owned(),
                public_key: peers[index].public_key.as_str().to_owned(),
                synchronize: peers[index].synchronize,
            };
            let ghost view = peer@;
            kept.push(peer);
            assert(list_view(kept@) =~= before.push(view));
        }
        index += 1;
    }
    assert(views.take(index as int) =~= views);
    kept
}

/// The code of an invitation gives back what the invitation holds.
pub proof fn law_invite_code_round_trips(bytes: Seq<u8>)
    ensures
        invite_bytes(invite_code(bytes)) == Ok::<Seq<u8>, Seq<char>>(bytes),
{
    reveal_strlit("orbit1_");
    law_hexadecimal_round_trips(bytes);
    let code = invite_code(bytes);
    assert(code[0] == 'o');
    assert(code.last() == if bytes.len() == 0 {
        '_'
    } else {
        hex_text(bytes).last()
    });
    assert(trimmed(code) == code);
    assert(code.take(7) =~= INVITE_PREFIX@);
    assert(code.skip(7) =~= hex_text(bytes));
}

} // verus!
