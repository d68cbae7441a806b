//! The daemon: how a device is configured, which peers it knows, and what it reports.
use vstd::prelude::*;

use crate::catalog::{MemberRole, StoreError};
use crate::hexadecimal::{
    hex_decode_key, hex_key_complaint, hexadecimal_bytes, is_key_text,
};
use crate::identity::{device_id_of, DeviceIdentity, DevicePublicKey, IdentityError};
use crate::ids::{DeviceId, GroupId};
use crate::crypto::ed25519_valid_key;
use crate::message::list_view;
use crate::placement::{components_view, is_inside, starts_with};
use crate::protocol::{ProtocolLimits, DEFAULT_MAXIMUM_CHANGE_RECORDS_PER_BATCH};
use crate::store::{
    membership_verdict, with_member, Store, StoreView,
};
use crate::text::{hex_text, push_hex};

verus! {

pub const MATERIALIZATION_PAGE_SIZE: usize = 256;

pub const DEFAULT_SCAN_INTERVAL_SECONDS: u64 = 5;

pub const DEFAULT_SYNC_INTERVAL_SECONDS: u64 = 15;

pub const DEFAULT_MAXIMUM_RECORDS_PER_PAGE: usize = 64;

/// How a device is configured. Paths and addresses are texts.
#[derive(Clone, Debug, PartialEq, Eq)]
pub struct DaemonConfig {
    pub group_id: GroupId,
    pub sync_root: String,
    pub store_root: String,
    pub listen_address: String,
    pub device_secret_file: String,
    pub group_secret_file: String,
    pub scan_interval_seconds: u64,
    pub sync_interval_seconds: u64,
    pub maximum_records_per_page: usize,
    pub peers: Vec<PeerConfig>,
}

/// How a peer is configured.
#[derive(Clone, Debug, PartialEq, Eq)]
pub struct PeerConfig {
    pub address: String,
    pub public_key: String,
    pub synchronize: bool,
}

/// The contents of a `PeerConfig`.
pub struct PeerConfigView {
    pub address: Seq<char>,
    pub public_key: Seq<char>,
    pub synchronize: bool,
}

impl View for PeerConfig {
    type V = PeerConfigView;

    open spec fn view(&self) -> PeerConfigView {
        PeerConfigView {
            address: self.address@,
            public_key: self.public_key@,
            synchronize: self.synchronize,
        }
    }
}

#[derive(Clone, Debug, PartialEq, Eq)]
pub enum DaemonError {
    Hex(String),
    Identity(IdentityError),
    Store(StoreError),
    IncompleteGroupJoin,
    LocalDeviceConfiguredAsPeer { device_id: DeviceId },
    DuplicatePeer { device_id: DeviceId },
    ZeroInterval { field: &'static str },
    InvalidPageSize { actual: usize, maximum: usize },
    OverlappingRoots,
    Randomness,
    BlockedMaterializations { count: usize },
    AdmittedChangeMissingObjects { count: usize },
    MaterializationMadeNoProgress { sequence: u64 },
    PeerSynchronizationsFailed { count: usize },
}

/// The contents of a `DaemonError`.
pub enum DaemonProblem {
    Hex(Seq<char>),
    Identity(IdentityError),
    Store(StoreError),
    IncompleteGroupJoin,
    LocalDeviceConfiguredAsPeer { device_id: DeviceId },
    DuplicatePeer { device_id: DeviceId },
    ZeroInterval { field: &'static str },
    InvalidPageSize { actual: usize, maximum: usize },
    OverlappingRoots,
    Randomness,
    BlockedMaterializations { count: nat },
    AdmittedChangeMissingObjects { count: nat },
    MaterializationMadeNoProgress { sequence: u64 },
    PeerSynchronizationsFailed { count: nat },
}

impl View for DaemonError {
    type V = DaemonProblem;

    open spec fn view(&self) -> DaemonProblem {
        match *self {
            DaemonError::Hex(message) => DaemonProblem::Hex(message@),
            DaemonError::Identity(error) => DaemonProblem::Identity(error),
            DaemonError::Store(error) => DaemonProblem::Store(error),
            DaemonError::IncompleteGroupJoin => DaemonProblem::IncompleteGroupJoin,
            DaemonError::LocalDeviceConfiguredAsPeer { device_id } =>
            DaemonProblem::LocalDeviceConfiguredAsPeer { device_id },
            DaemonError::DuplicatePeer { device_id } => DaemonProblem::DuplicatePeer { device_id },
            DaemonError::ZeroInterval { field } => DaemonProblem::ZeroInterval { field },
            DaemonError::InvalidPageSize { actual, maximum } => DaemonProblem::InvalidPageSize {
                actual,
                maximum,
            },
            DaemonError::OverlappingRoots => DaemonProblem::OverlappingRoots,
            DaemonError::Randomness => DaemonProblem::Randomness,
            DaemonError::BlockedMaterializations { count } =>
            DaemonProblem::BlockedMaterializations { count: count as nat },
            DaemonError::AdmittedChangeMissingObjects { count } =>
            DaemonProblem::AdmittedChangeMissingObjects { count: count as nat },
            DaemonError::MaterializationMadeNoProgress { sequence } =>
            DaemonProblem::MaterializationMadeNoProgress { sequence },
            DaemonError::PeerSynchronizationsFailed { count } =>
            DaemonProblem::PeerSynchronizationsFailed { count: count as nat },
        }
    }
}

/// What is wrong with a configuration: its intervals, its page size and where its files are kept,
/// the two places given by their components.
pub open spec fn config_problem(
    config: DaemonConfig,
    sync_root: Seq<Seq<u8>>,
    store_root: Seq<Seq<u8>>,
) -> Option<DaemonProblem> {
    if config.scan_interval_seconds == 0 {
        Some(DaemonProblem::ZeroInterval { field: "scan_interval_seconds" })
    } else if config.sync_interval_seconds == 0 {
        Some(DaemonProblem::ZeroInterval { field: "sync_interval_seconds" })
    } else if config.maximum_records_per_page == 0 || config.maximum_records_per_page
        > DEFAULT_MAXIMUM_CHANGE_RECORDS_PER_BATCH {
        Some(
            DaemonProblem::InvalidPageSize {
                actual: config.maximum_records_per_page,
                maximum: DEFAULT_MAXIMUM_CHANGE_RECORDS_PER_BATCH,
            },
        )
    } else {
        roots_problem(sync_root, store_root)
    }
}

/// What is wrong with where files are kept: the synchronized files and the store are apart.
pub open spec fn roots_problem(sync_root: Seq<Seq<u8>>, store_root: Seq<Seq<u8>>) -> Option<
    DaemonProblem,
> {
    if is_inside(sync_root, store_root) || is_inside(store_root, sync_root) {
        Some(DaemonProblem::OverlappingRoots)
    } else {
        None
    }
}

/// Checks that the synchronized files and the store are apart.
pub fn validate_roots(sync_root: &Vec<Vec<u8>>, store_root: &Vec<Vec<u8>>) -> (result: Result<
    (),
    DaemonError,
>)
    ensures
        match result {
            Ok(_) => roots_problem(
                components_view(sync_root@),
                components_view(store_root@),
            ) is None,
            Err(error) => roots_problem(
                components_view(sync_root@),
                components_view(store_root@),
            ) == Some(error@),
        },
{
    if starts_with(store_root, sync_root) || starts_with(sync_root, store_root) {
        return Err(DaemonError::OverlappingRoots);
    }
    Ok(())
}

/// Checks a configuration.
pub fn validate_config(
    config: &DaemonConfig,
    sync_root: &Vec<Vec<u8>>,
    store_root: &Vec<Vec<u8>>,
) -> (result: Result<(), DaemonError>)
    ensures
        match result {
            Ok(_) => config_problem(
                *config,
                components_view(sync_root@),
                components_view(store_root@),
            ) is None,
            Err(error) => config_problem(
                *config,
                components_view(sync_root@),
                components_view(store_root@),
            ) == Some(error@),
        },
{
    if config.scan_interval_seconds == 0 {
        return Err(DaemonError::ZeroInterval { field: "scan_interval_seconds" });
    }
    if config.sync_interval_seconds == 0 {
        return Err(DaemonError::ZeroInterval { field: "sync_interval_seconds" });
    }
    let maximum: usize = ProtocolLimits::default().maximum_change_records_per_batch();
    if config.maximum_records_per_page == 0 || config.maximum_records_per_page > maximum {
        return Err(
            DaemonError::InvalidPageSize { actual: config.maximum_records_per_page, maximum },
        );
    }
    validate_roots(sync_root, store_root)
}

/// The public key that a text stands for.
pub open spec fn decoded_key(text: Seq<char>) -> Result<Seq<u8>, DaemonProblem> {
    if !is_key_text(text) {
        Err(DaemonProblem::Hex(hex_key_complaint(text)))
    } else if !ed25519_valid_key(hexadecimal_bytes(text)) {
        Err(DaemonProblem::Identity(IdentityError::InvalidPublicKey))
    } else {
        Ok(hexadecimal_bytes(text))
    }
}

/// Reads a public key.
pub fn decode_public_key(encoded: &str) -> (result: Result<DevicePublicKey, DaemonError>)
    ensures
        match result {
            Ok(key) => decoded_key(encoded@) == Ok::<Seq<u8>, DaemonProblem>(key@),
            Err(error) => decoded_key(encoded@) == Err::<Seq<u8>, DaemonProblem>(error@),
        },
{
    let bytes: [u8; 32] = match hex_decode_key(encoded) {
        Ok(bytes) => bytes,
        Err(message) => {
            return Err(DaemonError::Hex(message));
        },
    };
    match DevicePublicKey::from_bytes(bytes) {
        Ok(key) => Ok(key),
        Err(error) => Err(DaemonError::Identity(error)),
    }
}

/// A peer that a device knows.
#[derive(Clone, Debug)]
pub struct RuntimePeer {
    pub address: String,
    pub public_key: DevicePublicKey,
    pub synchronize: bool,
}

/// The contents of a `RuntimePeer`.
pub struct RuntimePeerView {
    pub address: Seq<char>,
    pub public_key: Seq<u8>,
    pub synchronize: bool,
}

impl View for RuntimePeer {
    type V = RuntimePeerView;

    open spec fn view(&self) -> RuntimePeerView {
        RuntimePeerView {
            address: self.address@,
            public_key: self.public_key@,
            synchronize: self.synchronize,
        }
    }
}

/// One of the peers is the given device.
pub open spec fn knows(peers: Seq<RuntimePeerView>, device_id: DeviceId) -> bool {
    exists|i: int|
        0 <= i < peers.len() && device_id_of((#[trigger] peers[i]).public_key) == device_id
}

/// The peers that a device is configured with: none of them twice, and not the device itself.
pub open spec fn configured_peers(peers: Seq<PeerConfigView>, device_id: DeviceId) -> Result<
    Seq<RuntimePeerView>,
    DaemonProblem,
>
    decreases peers.len(),
{
    if peers.len() == 0 {
        Ok(seq![])
    } else {
        match configured_peers(peers.drop_last(), device_id) {
            Err(problem) => Err(problem),
            Ok(before) => match decoded_key(peers.last().public_key) {
                Err(problem) => Err(problem),
                Ok(public_key) => {
                    let peer = device_id_of(public_key);
                    if peer == device_id {
                        Err(DaemonProblem::LocalDeviceConfiguredAsPeer { device_id: peer })
                    } else if knows(before, peer) {
                        Err(DaemonProblem::DuplicatePeer { device_id: peer })
                    } else {
                        Ok(
                            before.push(
                                RuntimePeerView {
                                    address: peers.last().address,
                                    public_key,
                                    synchronize: peers.last().synchronize,
                                },
                            ),
                        )
                    }
                },
            },
        }
    }
}

proof fn lemma_configured_prefix(peers: Seq<PeerConfigView>, device_id: DeviceId, count: int)
    requires
        0 <= count <= peers.len(),
        configured_peers(peers.take(count), device_id) is Err,
    ensures
        configured_peers(peers, device_id) == configured_peers(peers.take(count), device_id),
    decreases peers.len(),
{
    if count < peers.len() {
        assert(peers.drop_last().take(count) =~= peers.take(count));
        lemma_configured_prefix(peers.drop_last(), device_id, count);
    } else {
        assert(peers.take(count) =~= peers);
    }
}

/// Tells whether one of the peers is the given device.
pub fn is_known_peer(peers: &Vec<RuntimePeer>, device_id: DeviceId) -> (known: bool)
    ensures
        known == knows(list_view(peers@), device_id),
{
    let ghost views = list_view(peers@);
    let mut index: usize = 0;
    while index < peers.len()
        invariant
            index <= peers@.len(),
            views == list_view(peers@),
            forall|i: int|
                0 <= i < index ==> device_id_of((#[trigger] views[i]).public_key) != device_id,
        decreases peers@.len() - index,
    {
        assert(views[index as int] == peers@[index as int]@);
        if peers[index].public_key.device_id() == device_id {
            return true;
        }
        index += 1;
    }
    false
}

/// Reads the peers that a device is configured with.
pub fn load_peers(configured: &Vec<PeerConfig>, device_id: DeviceId) -> (result: Result<
    Vec<RuntimePeer>,
    DaemonError,
>)
    ensures
        match result {
            Ok(peers) => configured_peers(list_view(configured@), device_id) == Ok::<
                Seq<RuntimePeerView>,
                DaemonProblem,
            >(list_view(peers@)),
            Err(error) => configured_peers(list_view(configured@), device_id) == Err::<
                Seq<RuntimePeerView>,
                DaemonProblem,
            >(error@),
        },
{
    let ghost views = list_view(configured@);
    let mut peers: Vec<RuntimePeer> = Vec::new();
    let mut index: usize = 0;
    proof {
        assert(views.take(0) =~= seq![]);
        assert(list_view(peers@) =~= seq![]);
    }
    while index < configured.len()
        invariant
            index <= configured@.len(),
            views == list_view(configured@),
            configured_peers(views.take(index as int), device_id) == Ok::<
                Seq<RuntimePeerView>,
                DaemonProblem,
            >(list_view(peers@)),
        decreases configured@.len() - index,
    {
        let ghost before = list_view(peers@);
        let ghost next = views.take(index + 1);
        proof {
            assert(next.drop_last() =~= views.take(index as int));
            assert(next.last() == configured@[index as int]@);
            if configured_peers(next, device_id) is Err {
                lemma_configured_prefix(views, device_id, index + 1);
            }
        }
        let public_key: DevicePublicKey = decode_public_key(
            configured[index].public_key.as_str(),
        )?;
        let peer: DeviceId = public_key.device_id();
        if peer == device_id {
            return Err(DaemonError::LocalDeviceConfiguredAsPeer { device_id: peer });
        }
        if is_known_peer(&peers, peer) {
            return Err(DaemonError::DuplicatePeer { device_id: peer });
        }
        let added: RuntimePeer = RuntimePeer {
            address: configured[index].address.as_str().to_owned(),
            public_key,
            synchronize: configured[index].synchronize,
        };
        let ghost view = added@;
        peers.push(added);
        assert(list_view(peers@) =~= before.push(view));
        index += 1;
    }
    assert(views.take(index as int) =~= views);
    Ok(peers)
}

/// The store with the device's peers as members.
pub open spec fn peers_enrolled(
    store: StoreView,
    group_id: GroupId,
    peers: Seq<RuntimePeerView>,
) -> (StoreView, Option<StoreError>)
    decreases peers.len(),
{
    if peers.len() == 0 {
        (store, None)
    } else {
        let (before, problem) = peers_enrolled(store, group_id, peers.drop_last());
        match problem {
            Some(error) => (before, Some(error)),
            None => member_added(before, group_id, peers.last().public_key, MemberRole::Member),
        }
    }
}

/// The store with a device as a member, or why it is not added.
pub open spec fn member_added(
    store: StoreView,
    group_id: GroupId,
    public_key: Seq<u8>,
    role: MemberRole,
) -> (StoreView, Option<StoreError>) {
    (
        with_member(store, group_id, public_key, role),
        match membership_verdict(store, group_id, public_key, role) {
            Ok(_) => None,
            Err(error) => Some(error),
        },
    )
}

/// The store with the device itself and its peers as members: the device owns the group.
pub open spec fn members_configured(
    store: StoreView,
    group_id: GroupId,
    key: Seq<u8>,
    peers: Seq<RuntimePeerView>,
) -> (StoreView, Option<StoreError>) {
    let (owned, problem) = member_added(store, group_id, key, MemberRole::Owner);
    match problem {
        Some(error) => (owned, Some(error)),
        None => peers_enrolled(owned, group_id, peers),
    }
}

proof fn lemma_enrolled_prefix(
    store: StoreView,
    group_id: GroupId,
    peers: Seq<RuntimePeerView>,
    count: int,
)
    requires
        0 <= count <= peers.len(),
        peers_enrolled(store, group_id, peers.take(count)).1 is Some,
    ensures
        peers_enrolled(store, group_id, peers) == peers_enrolled(
            store,
            group_id,
            peers.take(count),
        ),
    decreases peers.len(),
{
    if count < peers.len() {
        assert(peers.drop_last().take(count) =~= peers.take(count));
        lemma_enrolled_prefix(store, group_id, peers.drop_last(), count);
    } else {
        assert(peers.take(count) =~= peers);
    }
}

fn enroll_peers(group_id: GroupId, peers: &Vec<RuntimePeer>, store: &mut Store) -> (result: Result<
    (),
    StoreError,
>)
    ensures
        final(store)@ == peers_enrolled(old(store)@, group_id, list_view(peers@)).0,
        match result {
            Ok(_) => peers_enrolled(old(store)@, group_id, list_view(peers@)).1 is None,
            Err(error) => peers_enrolled(old(store)@, group_id, list_view(peers@)).1 == Some(
                error,
            ),
        },
{
    let ghost views = list_view(peers@);
    let mut index: usize = 0;
    assert(views.take(0) =~= seq![]);
    while index < peers.len()
        invariant
            index <= peers@.len(),
            views == list_view(peers@),
            peers_enrolled(old(store)@, group_id, views.take(index as int)) == (
                store@,
                None::<StoreError>,
            ),
        decreases peers@.len() - index,
    {
        let ghost next = views.take(index + 1);
        proof {
            assert(next.drop_last() =~= views.take(index as int));
            assert(next.last() == peers@[index as int]@);
            if peers_enrolled(old(store)@, group_id, next).1 is Some {
                lemma_enrolled_prefix(old(store)@, group_id, views, index + 1);
            }
        }
        store.add_group_member(group_id, peers[index].public_key, MemberRole::Member)?;
        index += 1;
    }
    assert(views.take(index as int) =~= views);
    Ok(())
}

/// Makes the device itself and its peers members of the group.
pub fn configure_members(
    identity: &DeviceIdentity,
    group_id: GroupId,
    peers: &Vec<RuntimePeer>,
    store: &mut Store,
) -> (result: Result<(), StoreError>)
    ensures
        final(store)@ == members_configured(
            old(store)@,
            group_id,
            identity.key(),
            list_view(peers@),
        ).0,
        match result {
            Ok(_) => members_configured(
                old(store)@,
                group_id,
                identity.key(),
                list_view(peers@),
            ).1 is None,
            Err(error) => members_configured(
                old(store)@,
                group_id,
                identity.key(),
                list_view(peers@),
            ).1 == Some(error),
        },
{
    store.add_group_member(group_id, identity.public_key(), MemberRole::Owner)?;
    enroll_peers(group_id, peers, store)
}

/// One of the configured peers is the given device.
pub open spec fn is_configured(peers: Seq<PeerConfigView>, device_id: DeviceId) -> bool {
    exists|i: int|
        0 <= i < peers.len() && (decoded_key((#[trigger] peers[i]).public_key) matches Ok(key)
            && device_id_of(key) == device_id)
}

/// The configuration of a peer that has made itself known, none where it is configured already.
pub fn discovered_peer(
    configured: &Vec<PeerConfig>,
    public_key: DevicePublicKey,
    address: &str,
) -> (peer: Option<PeerConfig>)
    ensures
        match peer {
            Some(peer) => !is_configured(list_view(configured@), device_id_of(public_key@))
                && peer@ == (PeerConfigView {
                address: address@,
                public_key: hex_text(public_key@),
                synchronize: false,
            }),
            None => is_configured(list_view(configured@), device_id_of(public_key@)),
        },
{
    let ghost views = list_view(configured@);
    let device_id: DeviceId = public_key.device_id();
    let mut index: usize = 0;
    while index < configured.len()
        invariant
            index <= configured@.len(),
            views == list_view(configured@),
            device_id == device_id_of(public_key@),
            forall|i: int|
                0 <= i < index ==> !(decoded_key((#[trigger] views[i]).public_key) matches Ok(key)
                    && device_id_of(key) == device_id),
        decreases configured@.len() - index,
    {
        assert(views[index as int] == configured@[index as int]@);
        if let Ok(existing) = decode_public_key(configured[index].public_key.as_str()) {
            if existing.device_id() == device_id {
                return None;
            }
        }
        index += 1;
    }
    let mut text: String = String::new();
    push_hex(&mut text, public_key.as_bytes().as_slice());
    assert(text@ =~= hex_text(public_key@));
    Some(PeerConfig { address: address.to_owned(), public_key: text, synchronize: false })
}

} // verus!
