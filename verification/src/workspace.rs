//! What a device tells of itself, and how the client changes its configuration.
use vstd::prelude::*;

use crate::bytes::bytes_equal;
use crate::client::{
    invite_workspace, problem_view, workspace_invited, InvitePayload, InvitedWorkspace,
    RuntimePeerStatus, RuntimeStatus, SettingsRequest, WorkspaceView,
};
use crate::daemon::{DaemonConfig, PeerConfig, RuntimePeer, RuntimePeerView};
use crate::history::{high_watermark, watermark_at};
use crate::identity::DeviceIdentity;
use crate::ids::{hyphenated, DeviceId, GroupId};
use crate::message::list_view;
use crate::store::{pending_requests, Store, StoreView};
use crate::text::{hex_text, push_hex, text_equal};

verus! {

/// The status of a peer.
pub struct PeerStatusView {
    pub device_id: DeviceId,
    pub public_key: Seq<char>,
    pub address: Seq<char>,
    pub high_watermark: u64,
    pub pending_objects: nat,
}

impl View for RuntimePeerStatus {
    type V = PeerStatusView;

    open spec fn view(&self) -> PeerStatusView {
        PeerStatusView {
            device_id: self.device_id,
            public_key: self.public_key@,
            address: self.address@,
            high_watermark: self.high_watermark,
            pending_objects: self.pending_objects as nat,
        }
    }
}

/// How far a peer has been read and how many objects are still asked of it.
pub open spec fn peer_status(store: StoreView, group_id: GroupId, peer: RuntimePeerView) -> PeerStatusView {
    let device_id = crate::identity::device_id_of(peer.public_key);
    PeerStatusView {
        device_id,
        public_key: hex_text(peer.public_key),
        address: peer.address,
        high_watermark: watermark_at(store, group_id, device_id),
        pending_objects: pending_requests(store, group_id, device_id, usize::MAX as nat).len(),
    }
}

/// The status of every peer.
pub open spec fn peer_statuses(
    store: StoreView,
    group_id: GroupId,
    peers: Seq<RuntimePeerView>,
) -> Seq<PeerStatusView> {
    peers.map_values(|peer: RuntimePeerView| peer_status(store, group_id, peer))
}

fn key_text(key: &[u8]) -> (text: String)
    ensures
        text@ == hex_text(key@),
{
    let mut text: String = String::new();
    push_hex(&mut text, key);
    assert(text@ =~= hex_text(key@));
    text
}

fn list_peer_statuses(store: &Store, group_id: GroupId, peers: &Vec<RuntimePeer>) -> (statuses: Vec<
    RuntimePeerStatus,
>)
    ensures
        list_view(statuses@) == peer_statuses(store@, group_id, list_view(peers@)),
{
    let mut statuses: Vec<RuntimePeerStatus> = Vec::new();
    let mut index: usize = 0;
    while index < peers.len()
        invariant
            index <= peers@.len(),
            statuses@.len() == index,
            forall|i: int|
                0 <= i < index ==> (#[trigger] statuses@[i])@ == peer_status(
                    store@,
                    group_id,
                    peers@[i]@,
                ),
        decreases peers@.len() - index,
    {
        let peer: &RuntimePeer = &peers[index];
        let device_id: DeviceId = peer.public_key.device_id();
        statuses.push(
            RuntimePeerStatus {
                device_id,
                public_key: key_text(peer.public_key.as_bytes().as_slice()),
                address: peer.address.as_str().to_owned(),
                high_watermark: store.peer_high_watermark(group_id, device_id),
                pending_objects: store.pending_object_requests(
                    group_id,
                    device_id,
                    usize::MAX,
                ).len(),
            },
        );
        index += 1;
    }
    assert(list_view(statuses@) =~= peer_statuses(store@, group_id, list_view(peers@)));
    statuses
}

/// The status of a device: how it is configured, how many changes it has logged, and how it
/// stands with its peers.
pub fn runtime_status(
    config: &DaemonConfig,
    identity: &DeviceIdentity,
    peers: &Vec<RuntimePeer>,
    store: &Store,
) -> (status: RuntimeStatus)
    ensures
        status.device_id == crate::identity::device_id_of(identity.key()),
        status.group_id == config.group_id,
        status.public_key@ == hex_text(identity.key()),
        status.sync_root@ == config.sync_root@,
        status.store_root@ == config.store_root@,
        status.listen_address@ == config.listen_address@,
        status.scan_interval_seconds == config.scan_interval_seconds,
        status.sync_interval_seconds == config.sync_interval_seconds,
        status.maximum_records_per_page == config.maximum_records_per_page,
        status.local_change_count == high_watermark(store@.changes, config.group_id),
        list_view(status.peers@) == peer_statuses(store@, config.group_id, list_view(peers@)),
{
    let local_change_count: u64 = match store.changes_after(config.group_id, 0, 0) {
        Ok(page) => page.high_watermark,
        Err(_) => 0,
    };
    RuntimeStatus {
        device_id: identity.device_id(),
        group_id: config.group_id,
        public_key: key_text(identity.public_key().as_bytes().as_slice()),
        sync_root: config.sync_root.as_str().to_owned(),
        store_root: config.store_root.as_str().to_owned(),
        listen_address: config.listen_address.as_str().to_owned(),
        scan_interval_seconds: config.scan_interval_seconds,
        sync_interval_seconds: config.sync_interval_seconds,
        maximum_records_per_page: config.maximum_records_per_page,
        local_change_count,
        peers: list_peer_statuses(store, config.group_id, peers),
    }
}

/// The workspace that a device moves to with an invitation, which is not its own.
pub open spec fn workspace_entered(
    current_group_id: GroupId,
    invite: InvitePayload,
    address_problem: Option<Seq<char>>,
) -> Result<WorkspaceView, Seq<char>> {
    match workspace_invited(invite, address_problem) {
        Err(message) => Err(message),
        Ok(workspace) => if workspace.group_id == current_group_id {
            Err("This device already belongs to the invitation workspace."@)
        } else {
            Ok(workspace)
        },
    }
}

/// Reads the workspace that a device moves to with an invitation. `address_problem` says what is
/// wrong with the address of the peer, if anything is.
pub fn switch_workspace(
    current_group_id: GroupId,
    invite: &InvitePayload,
    address_problem: Option<&str>,
) -> (result: Result<InvitedWorkspace, String>)
    ensures
        match result {
            Ok(workspace) => workspace_entered(
                current_group_id,
                *invite,
                problem_view(address_problem),
            ) == Ok::<WorkspaceView, Seq<char>>(workspace@),
            Err(message) => workspace_entered(
                current_group_id,
                *invite,
                problem_view(address_problem),
            ) == Err::<WorkspaceView, Seq<char>>(message@),
        },
{
    let workspace: InvitedWorkspace = invite_workspace(invite, address_problem)?;
    if workspace.group_id == current_group_id {
        return Err("This device already belongs to the invitation workspace.".to_owned());
    }
    Ok(workspace)
}

/// The name of the file that keeps the secret of a workspace that the device moved to.
pub fn workspace_secret_name(group_id: GroupId) -> (name: String)
    ensures
        name@ == "orbit.group."@ + hyphenated(group_id.value) + ".key"@,
{
    let mut name: String = "orbit.group.".to_owned();
    vstd::string::StringExecFns::append(&mut name, group_id.to_string().as_str());
    vstd::string::StringExecFns::append(&mut name, ".key");
    name
}

/// Tells whether the secret of a workspace has still to be written, given what its file holds. A
/// file with another secret is left alone.
pub fn check_workspace_secret(existing: Option<&[u8]>, secret: &[u8; 32]) -> (result: Result<
    bool,
    String,
>)
    ensures
        match result {
            Ok(missing) => missing == (existing is None) && (existing is Some ==> existing->0@
                == secret@),
            Err(message) => existing is Some && existing->0@ != secret@ && message@
                == "A different secret already exists for the invitation workspace."@,
        },
{
    match existing {
        None => Ok(true),
        Some(bytes) => if bytes_equal(bytes, secret.as_slice()) {
            Ok(false)
        } else {
            Err("A different secret already exists for the invitation workspace.".to_owned())
        },
    }
}

/// Moves a configuration to another workspace: its group, its secret and the one peer that is
/// known there.
pub fn enter_workspace(
    config: &mut DaemonConfig,
    group_id: GroupId,
    group_secret_file: String,
    peer: PeerConfig,
)
    ensures
        final(config).group_id == group_id,
        final(config).group_secret_file@ == group_secret_file@,
        list_view(final(config).peers@) == seq![peer@],
        final(config).sync_root == old(config).sync_root,
        final(config).store_root == old(config).store_root,
        final(config).listen_address == old(config).listen_address,
        final(config).device_secret_file == old(config).device_secret_file,
        final(config).scan_interval_seconds == old(config).scan_interval_seconds,
        final(config).sync_interval_seconds == old(config).sync_interval_seconds,
        final(config).maximum_records_per_page == old(config).maximum_records_per_page,
{
    let ghost view = peer@;
    let mut peers: Vec<PeerConfig> = Vec::new();
    peers.push(peer);
    config.group_id = group_id;
    config.group_secret_file = group_secret_file;
    config.peers = peers;
    assert(list_view(config.peers@) =~= seq![view]);
}

/// What the client says where a workspace could not be entered: whether the service of the
/// previous one runs again.
pub open spec fn failure_text(error: Seq<char>, rollback: Option<Seq<char>>) -> Seq<char> {
    match rollback {
        None => "Could not start the invited workspace: "@ + error
            + ". The previous workspace was restored."@,
        Some(problem) => "Could not start the invited workspace: "@ + error
            + ". The previous workspace was restored but its service could not restart: "@
            + problem,
    }
}

/// What the client says where a workspace could not be entered: whether the service of the
/// previous one runs again.
pub fn switch_failure(error: &str, rollback: Option<&str>) -> (message: String)
    ensures
        message@ == failure_text(
            error@,
            match rollback {
                Some(problem) => Some(problem@),
                None => None,
            },
        ),
{
    let mut message: String = "Could not start the invited workspace: ".to_owned();
    vstd::string::StringExecFns::append(&mut message, error);
    match rollback {
        None => {
            vstd::string::StringExecFns::append(
                &mut message,
                ". The previous workspace was restored.",
            );
        },
        Some(problem) => {
            vstd::string::StringExecFns::append(
                &mut message,
                ". The previous workspace was restored but its service could not restart: ",
            );
            vstd::string::StringExecFns::append(&mut message, problem);
        },
    }
    message
}

/// The first peer whose identifier is written as the given text.
pub open spec fn named_peer(peers: Seq<PeerStatusView>, device_id: Seq<char>) -> Option<int>
    decreases peers.len(),
{
    if peers.len() == 0 {
        None
    } else {
        match named_peer(peers.drop_last(), device_id) {
            Some(index) => Some(index),
            None => if hyphenated(peers.last().device_id.value) == device_id {
                Some(peers.len() - 1)
            } else {
                None
            },
        }
    }
}

proof fn lemma_named_peer(peers: Seq<PeerStatusView>, device_id: Seq<char>, count: int)
    requires
        0 <= count <= peers.len(),
        named_peer(peers.take(count), device_id) is Some,
    ensures
        named_peer(peers, device_id) == named_peer(peers.take(count), device_id),
    decreases peers.len() - count,
{
    if count < peers.len() {
        assert(peers.take(count + 1).drop_last() =~= peers.take(count));
        lemma_named_peer(peers, device_id, count + 1);
    } else {
        assert(peers.take(count) =~= peers);
    }
}

fn peer_message(prefix: &str, device_id: &str, suffix: &str) -> (message: String)
    ensures
        message@ == prefix@ + device_id@ + suffix@,
{
    let mut message: String = prefix.to_owned();
    vstd::string::StringExecFns::append(&mut message, device_id);
    vstd::string::StringExecFns::append(&mut message, suffix);
    message
}

/// Finds the configured peer whose identifier is written as the given text.
pub fn find_peer(peers: &Vec<RuntimePeerStatus>, device_id: &str) -> (result: Result<usize, String>)
    ensures
        match result {
            Ok(index) => named_peer(list_view(peers@), device_id@) == Some(index as int) && index
                < peers@.len(),
            Err(message) => named_peer(list_view(peers@), device_id@) is None && message@
                == "Peer "@ + device_id@ + " is not configured."@,
        },
{
    let ghost views = list_view(peers@);
    let mut index: usize = 0;
    assert(views.take(0) =~= seq![]);
    while index < peers.len()
        invariant
            index <= peers@.len(),
            views == list_view(peers@),
            named_peer(views.take(index as int), device_id@) is None,
        decreases peers@.len() - index,
    {
        proof {
            assert(views.take(index + 1).drop_last() =~= views.take(index as int));
            assert(views.take(index + 1).last() == peers@[index as int]@);
        }
        if text_equal(peers[index].device_id.to_string().as_str(), device_id) {
            proof {
                lemma_named_peer(views, device_id@, index + 1);
            }
            return Ok(index);
        }
        index += 1;
    }
    assert(views.take(index as int) =~= views);
    Err(peer_message("Peer ", device_id, " is not configured."))
}

/// What the client says of a peer that could not be revoked.
pub fn inactive_peer(device_id: &str) -> (message: String)
    ensures
        message@ == "Peer "@ + device_id@ + " was not active."@,
{
    peer_message("Peer ", device_id, " was not active.")
}

/// Changes the settings of a configuration.
pub fn change_settings(config: &mut DaemonConfig, request: &SettingsRequest)
    ensures
        final(config).listen_address@ == request.listen_address@,
        final(config).scan_interval_seconds == request.scan_interval_seconds,
        final(config).sync_interval_seconds == request.sync_interval_seconds,
        final(config).maximum_records_per_page == request.maximum_records_per_page,
        final(config).group_id == old(config).group_id,
        final(config).sync_root == old(config).sync_root,
        final(config).store_root == old(config).store_root,
        final(config).device_secret_file == old(config).device_secret_file,
        final(config).group_secret_file == old(config).group_secret_file,
        final(config).peers == old(config).peers,
{
    config.listen_address = request.listen_address.as_str().to_owned();
    config.scan_interval_seconds = request.scan_interval_seconds;
    config.sync_interval_seconds = request.sync_interval_seconds;
    config.maximum_records_per_page = request.maximum_records_per_page;
}

} // verus!
