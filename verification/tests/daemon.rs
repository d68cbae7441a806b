use orbit::apply::{ApplyOutcome, BlockedMaterialization, MaterializationRecoveryReport};
use orbit::catalog::MemberRole;
use orbit::client::{
    add_peer_config, build_invite, check_invite, choose_sync_root, client_snapshot,
    decode_group_secret, decode_invite_code, encode_invite_code, invite_node,
    invite_peer_config, invite_workspace, remove_peer_config, sync_result, validate_public_key,
    InvitePayload, RuntimePeerStatus, RuntimeStatus, SettingsRequest, INVITE_PREFIX,
};
use orbit::cycle::{
    ensure_recovery_unblocked, initial_config, initialized_identity, maintenance_summary,
    plan_initialization, random_secret, require_all_peers, serve_summary,
    synchronization_summary, CatalogWalk, CycleReport, InitializationOptions, MaintenanceReport,
    SynchronizationReport,
};
use orbit::daemon::{
    configure_members, decode_public_key, discovered_peer, is_known_peer, load_peers,
    validate_config, validate_roots, DaemonConfig, DaemonError, PeerConfig,
};
use orbit::history::{ChangePage, StoredChange};
use orbit::identity::DeviceIdentity;
use orbit::ids::{ContentId, DeviceId, GroupId, PathId, RevisionId};
use orbit::pull::PullReport;
use orbit::serve::ServeReport;
use orbit::setup::{
    compare_roots, Place, Removal, Setup, SetupAction, SetupEvent, SetupRefusal,
};
use orbit::store::Store;
use orbit::joining::{JoinAction, Joining};
use orbit::switching::{
    switch_refusal, Switch, SwitchAction, SwitchEvent, SwitchRefusal,
};
use orbit::workspace::{
    change_settings, check_workspace_secret, enter_workspace, find_peer, inactive_peer,
    runtime_status, switch_failure, switch_workspace, workspace_secret_name,
};

fn options(group_id: Option<GroupId>, secret: Option<&str>) -> InitializationOptions {
    InitializationOptions {
        config_path: "node/orbit.toml".to_owned(),
        sync_root: "sync".to_owned(),
        store_root: "state".to_owned(),
        listen_address: "127.0.0.1:0".to_owned(),
        group_id,
        group_secret_file: secret.map(str::to_owned),
    }
}

fn key_text(identity: &DeviceIdentity) -> String {
    identity.public_key().as_bytes().iter().map(|byte| format!("{byte:02x}")).collect()
}

fn peer(identity: &DeviceIdentity, address: &str) -> PeerConfig {
    PeerConfig {
        address: address.to_owned(),
        public_key: key_text(identity),
        synchronize: true,
    }
}

fn path(text: &str) -> Vec<Vec<u8>> {
    text.split('/').map(|part| part.as_bytes().to_vec()).collect()
}

#[test]
fn initialization_round_trips_relative_paths_and_identity() {
    let options = options(None, None);
    let plan = plan_initialization(&options, "orbit").unwrap();
    assert_eq!(plan.device_secret_name, "orbit.device.key");
    assert_eq!(plan.group_secret_name, Some("orbit.group.key".to_owned()));
    let group_id = GroupId::new();
    let identity = DeviceIdentity::generate().unwrap();
    let initialized = initialized_identity(&options, group_id, &identity);
    assert_eq!(initialized.group_id, group_id);
    assert_eq!(initialized.device_id, identity.device_id());
    assert_eq!(initialized.public_key_hex.len(), 64);
    assert_eq!(initialized.public_key_hex, key_text(&identity));
    assert_eq!(
        decode_public_key(&initialized.public_key_hex).unwrap(),
        identity.public_key()
    );

    let config = initial_config(&options, &plan, group_id, "orbit.group.key");
    assert_eq!(config.group_id, group_id);
    assert_eq!(config.sync_root, "sync");
    assert_eq!(config.store_root, "state");
    assert_eq!(config.device_secret_file, "orbit.device.key");
    assert_eq!(config.group_secret_file, "orbit.group.key");
    assert_eq!(config.scan_interval_seconds, 5);
    assert_eq!(config.sync_interval_seconds, 15);
    assert_eq!(config.maximum_records_per_page, 64);
    assert!(config.peers.is_empty());

    let mut store = Store::new();
    configure_members(&identity, group_id, &Vec::new(), &mut store).unwrap();
    let member = store.group_member(group_id, identity.device_id()).unwrap().unwrap();
    assert_eq!(member.public_key, identity.public_key());
    assert_eq!(member.role, MemberRole::Owner);
}

#[test]
fn initialization_requires_complete_existing_group_coordinates() {
    assert!(matches!(
        plan_initialization(&options(Some(GroupId::new()), None), "orbit"),
        Err(DaemonError::IncompleteGroupJoin)
    ));
    assert!(matches!(
        plan_initialization(&options(None, Some("group.key")), "orbit"),
        Err(DaemonError::IncompleteGroupJoin)
    ));
    let joined =
        plan_initialization(&options(Some(GroupId::new()), Some("group.key")), "orbit").unwrap();
    assert_eq!(joined.group_secret_name, None);
}

fn config() -> DaemonConfig {
    let options = options(None, None);
    let plan = plan_initialization(&options, "orbit").unwrap();
    initial_config(&options, &plan, GroupId::from_u128(1), "orbit.group.key")
}

#[test]
fn configurations_are_validated() {
    let sync = path("home/sync");
    let store = path("home/state");
    assert_eq!(validate_config(&config(), &sync, &store), Ok(()));
    let mut idle = config();
    idle.scan_interval_seconds = 0;
    assert!(matches!(
        validate_config(&idle, &sync, &store),
        Err(DaemonError::ZeroInterval { field: "scan_interval_seconds" })
    ));
    let mut idle = config();
    idle.sync_interval_seconds = 0;
    assert!(matches!(
        validate_config(&idle, &sync, &store),
        Err(DaemonError::ZeroInterval { field: "sync_interval_seconds" })
    ));
    let mut large = config();
    large.maximum_records_per_page = 1025;
    assert_eq!(
        validate_config(&large, &sync, &store),
        Err(DaemonError::InvalidPageSize { actual: 1025, maximum: 1024 })
    );
    assert_eq!(
        validate_roots(&sync, &path("home/sync/state")),
        Err(DaemonError::OverlappingRoots)
    );
    assert_eq!(
        validate_roots(&path("home/state/sync"), &store),
        Err(DaemonError::OverlappingRoots)
    );
}

#[test]
fn peers_are_loaded_once_and_never_the_device_itself() {
    let local = DeviceIdentity::from_secret_bytes([1; 32]);
    let first = DeviceIdentity::from_secret_bytes([2; 32]);
    let second = DeviceIdentity::from_secret_bytes([3; 32]);
    let peers = load_peers(
        &vec![peer(&first, "192.0.2.1:1"), peer(&second, "192.0.2.2:2")],
        local.device_id(),
    )
    .unwrap();
    assert_eq!(peers.len(), 2);
    assert_eq!(peers[0].public_key, first.public_key());
    assert_eq!(peers[1].address, "192.0.2.2:2");
    assert!(is_known_peer(&peers, second.device_id()));
    assert!(!is_known_peer(&peers, local.device_id()));
    assert!(matches!(
        load_peers(&vec![peer(&local, "192.0.2.1:1")], local.device_id()),
        Err(DaemonError::LocalDeviceConfiguredAsPeer { device_id })
            if device_id == local.device_id()
    ));
    assert!(matches!(
        load_peers(
            &vec![peer(&first, "192.0.2.1:1"), peer(&first, "192.0.2.2:2")],
            local.device_id(),
        ),
        Err(DaemonError::DuplicatePeer { device_id }) if device_id == first.device_id()
    ));
    let mut store = Store::new();
    configure_members(&local, GroupId::from_u128(1), &peers, &mut store).unwrap();
    let member =
        store.group_member(GroupId::from_u128(1), first.device_id()).unwrap().unwrap();
    assert_eq!(member.role, MemberRole::Member);
}

#[test]
fn public_keys_are_written_in_hexadecimal() {
    let identity = DeviceIdentity::from_secret_bytes([2; 32]);
    assert_eq!(decode_public_key(&key_text(&identity)).unwrap(), identity.public_key());
    assert_eq!(
        decode_public_key(&key_text(&identity).to_uppercase()).unwrap(),
        identity.public_key()
    );
    assert!(matches!(decode_public_key("xyz"), Err(DaemonError::Hex(_))));
    assert!(matches!(decode_public_key(&"0g".repeat(32)), Err(DaemonError::Hex(_))));
}

#[test]
fn peers_that_call_are_remembered() {
    let first = DeviceIdentity::from_secret_bytes([2; 32]);
    let found = discovered_peer(&Vec::new(), first.public_key(), "192.0.2.9:7").unwrap();
    assert_eq!(
        found,
        PeerConfig { synchronize: false, ..peer(&first, "192.0.2.9:7") }
    );
    assert_eq!(
        discovered_peer(&vec![peer(&first, "192.0.2.1:1")], first.public_key(), "x:1"),
        None
    );
}

#[test]
fn blocked_recoveries_stop_the_cycle() {
    let blocked = MaterializationRecoveryReport {
        completed: 0,
        blocked: vec![BlockedMaterialization {
            path_id: PathId::from_bytes([1; 32]),
            missing_content_ids: vec![ContentId::from_bytes([2; 32])],
        }],
    };
    assert_eq!(
        ensure_recovery_unblocked(&blocked),
        Err(DaemonError::BlockedMaterializations { count: 1 })
    );
    assert_eq!(
        CatalogWalk::new(&blocked),
        Err(DaemonError::BlockedMaterializations { count: 1 })
    );
    let clear = MaterializationRecoveryReport { completed: 2, blocked: Vec::new() };
    assert_eq!(CatalogWalk::new(&clear).unwrap().report.recovered, 2);
}

#[test]
fn catalogs_are_walked_page_by_page() {
    let clear = MaterializationRecoveryReport { completed: 0, blocked: Vec::new() };
    let mut walk = CatalogWalk::new(&clear).unwrap();
    let group_id = GroupId::from_u128(1);
    let store = Store::new();
    let change = StoredChange {
        sequence: 3,
        revision_id: RevisionId::from_u128(2),
        content_id: ContentId::from_bytes([1; 32]),
    };
    assert!(walk.examine(change, DeviceId::from_u128(9), group_id, &store).is_none());
    assert_eq!(walk.report.unsigned_records_skipped, 1);
    walk.count(&ApplyOutcome::NoChange).unwrap();
    walk.count(&ApplyOutcome::KeptLocal { revision_id: change.revision_id }).unwrap();
    assert_eq!(walk.report.records_unchanged, 1);
    assert_eq!(walk.report.records_kept_local, 1);
    assert_eq!(
        walk.count(&ApplyOutcome::MissingObjects { content_ids: vec![change.content_id] }),
        Err(DaemonError::AdmittedChangeMissingObjects { count: 1 })
    );
    let page = ChangePage { records: vec![change], high_watermark: 4 };
    assert_eq!(walk.finish_page(&page), Ok(true));
    assert_eq!(walk.after_sequence, 3);
    assert_eq!(
        walk.finish_page(&page),
        Err(DaemonError::MaterializationMadeNoProgress { sequence: 3 })
    );
    let last = ChangePage { records: Vec::new(), high_watermark: 3 };
    assert_eq!(walk.finish_page(&last), Ok(false));
}

#[test]
fn reports_add_up_and_are_summarized() {
    let mut report = SynchronizationReport::default();
    assert_eq!(synchronization_summary(&report), None);
    report.add_pull(PullReport {
        pages_received: 1,
        records_committed: 2,
        objects_stored: 3,
        encrypted_bytes_received: 4,
        ..Default::default()
    });
    assert_eq!(report.peers_synchronized, 1);
    assert_eq!(report.records_committed, 2);
    report.add_failure(DeviceId::from_u128(1), "192.0.2.1:1", "refused");
    assert_eq!(report.peers_failed, 1);
    assert_eq!(
        report.peer_errors,
        vec!["Peer 00000000-0000-0000-0000-000000000001 at 192.0.2.1:1: refused".to_owned()]
    );
    assert!(synchronization_summary(&report).is_some());
    let mut cycle = CycleReport { synchronization: report, ..Default::default() };
    assert_eq!(
        require_all_peers(&cycle),
        Err(DaemonError::PeerSynchronizationsFailed { count: 1 })
    );
    cycle.maintenance.scan.file_changes = 4;
    cycle.maintenance.scan.tombstones_created = 1;
    let result = sync_result(cycle, 99);
    assert_eq!(result.local_changes, 5);
    assert_eq!(result.peers_failed, 1);
    assert_eq!(result.completed_at_unix_ms, 99);
    assert_eq!(maintenance_summary(&MaintenanceReport::default()), None);
    let served = ServeReport {
        pages_sent: 1,
        objects_sent: 2,
        encrypted_bytes_sent: 3,
        acknowledgements_received: 2,
    };
    assert!(serve_summary(&served).contains('3'));
}

fn payload(value: &serde_json::Value) -> InvitePayload {
    let text = |name: &str| value[name].as_str().unwrap().to_owned();
    InvitePayload {
        version: value["version"].as_u64().unwrap() as u8,
        group_id: text("groupId"),
        group_secret: text("groupSecret"),
        peer_address: text("peerAddress"),
        peer_public_key: text("peerPublicKey"),
    }
}

fn json_of(invite: &InvitePayload) -> Vec<u8> {
    let mut map = serde_json::Map::new();
    map.insert("version".to_owned(), serde_json::Value::from(invite.version));
    map.insert("groupId".to_owned(), serde_json::Value::from(invite.group_id.clone()));
    map.insert("groupSecret".to_owned(), serde_json::Value::from(invite.group_secret.clone()));
    map.insert("peerAddress".to_owned(), serde_json::Value::from(invite.peer_address.clone()));
    map.insert(
        "peerPublicKey".to_owned(),
        serde_json::Value::from(invite.peer_public_key.clone()),
    );
    serde_json::to_vec(&serde_json::Value::Object(map)).unwrap()
}

fn decode_invite(code: &str) -> Result<InvitePayload, String> {
    let bytes = decode_invite_code(code)?;
    let invite = payload(&serde_json::from_slice(&bytes).unwrap());
    check_invite(&invite)?;
    Ok(invite)
}

#[test]
fn invite_round_trips_and_rejects_unknown_versions() {
    let invite = InvitePayload {
        version: 1,
        group_id: "00000000-0000-4000-8000-000000000001".to_owned(),
        group_secret: "11".repeat(32),
        peer_address: "127.0.0.1:48177".to_owned(),
        peer_public_key: "22".repeat(32),
    };
    let code = format!("{INVITE_PREFIX}{}", hex::encode(json_of(&invite)));
    assert_eq!(decode_invite(&code).unwrap().group_id, invite.group_id);
    assert_eq!(encode_invite_code(&json_of(&invite)), code);

    let mut unsupported = invite;
    unsupported.version = 2;
    let code = format!("{INVITE_PREFIX}{}", hex::encode(json_of(&unsupported)));
    assert!(decode_invite(&code).is_err());
}

#[test]
fn invitation_peer_must_match_the_current_workspace() {
    let invite = InvitePayload {
        version: 1,
        group_id: "00000000-0000-4000-8000-000000000001".to_owned(),
        group_secret: "11".repeat(32),
        peer_address: "192.0.2.10:48177".to_owned(),
        peer_public_key: "22".repeat(32),
    };
    let peer = invite_peer_config(
        &invite,
        "00000000-0000-4000-8000-000000000001",
        &[0x11; 32],
        None,
    )
    .unwrap();
    assert_eq!(peer.address, "192.0.2.10:48177");
    assert_eq!(peer.public_key, "22".repeat(32));

    assert_eq!(
        invite_peer_config(
            &invite,
            "00000000-0000-4000-8000-000000000002",
            &[0x11; 32],
            None,
        )
        .unwrap_err(),
        "Invitation belongs to a different Orbit workspace."
    );
    assert_eq!(
        invite_peer_config(
            &invite,
            "00000000-0000-4000-8000-000000000001",
            &[0x33; 32],
            None,
        )
        .unwrap_err(),
        "Invitation group secret does not match this workspace."
    );
}

#[test]
fn invitation_workspace_extracts_switch_configuration() {
    let invite = InvitePayload {
        version: 1,
        group_id: "e7e92e24-62ea-485a-a2f9-20e9a44bd0ef".to_owned(),
        group_secret: "66".repeat(32),
        peer_address: "192.168.1.10:48177".to_owned(),
        peer_public_key: "fa".repeat(32),
    };
    let workspace = invite_workspace(&invite, None).unwrap();
    assert_eq!(workspace.group_id.to_string(), "e7e92e24-62ea-485a-a2f9-20e9a44bd0ef");
    assert_eq!(workspace.group_secret, [0x66; 32]);
    assert_eq!(workspace.peer.address, "192.168.1.10:48177");
    assert_eq!(workspace.peer.public_key, "fa".repeat(32));
    assert_eq!(invite_node(&invite, None).unwrap().group_secret, [0x66; 32]);
}

#[test]
fn faulty_invitations_are_refused() {
    assert!(decode_invite_code("orbit2_00").is_err());
    assert!(decode_invite_code("orbit1_0").is_err());
    assert!(decode_group_secret(&"11".repeat(31)).is_err());
    assert!(decode_group_secret(&"1g".repeat(32)).is_err());
    assert_eq!(decode_group_secret(&"1A".repeat(32)), Ok([0x1a; 32]));
    assert!(validate_public_key("22").is_err());
    assert!(validate_public_key(&"22".repeat(32)).is_ok());
    let identity = DeviceIdentity::from_secret_bytes([2; 32]);
    let invite = build_invite(
        GroupId::from_u128(5),
        &[7; 32],
        "192.0.2.1:9",
        false,
        &key_text(&identity),
    )
    .unwrap();
    assert_eq!(invite.version, 1);
    assert_eq!(invite.group_secret, "07".repeat(32));
    assert!(invite_workspace(&invite, Some("bad address")).is_err());
    assert!(build_invite(GroupId::from_u128(5), &[7; 31], "a:1", false, "k").is_err());
    assert!(build_invite(GroupId::from_u128(5), &[7; 32], "0.0.0.0:1", true, "k").is_err());
}

#[test]
fn peers_are_kept_by_their_keys() {
    let first = DeviceIdentity::from_secret_bytes([2; 32]);
    let second = DeviceIdentity::from_secret_bytes([3; 32]);
    let mut peers = vec![peer(&first, "a:1"), peer(&second, "b:2")];
    add_peer_config(&mut peers, peer(&first, "c:3"));
    assert_eq!(peers.len(), 2);
    assert!(peers.contains(&peer(&first, "c:3")));
    let kept = remove_peer_config(peers, &key_text(&second));
    assert_eq!(kept, vec![peer(&first, "c:3")]);
}

#[test]
fn snapshots_show_the_status() {
    let identity = DeviceIdentity::from_secret_bytes([2; 32]);
    let status = RuntimeStatus {
        device_id: DeviceId::from_u128(1),
        group_id: GroupId::from_u128(2),
        public_key: key_text(&identity),
        sync_root: "sync".to_owned(),
        store_root: "state".to_owned(),
        listen_address: "0.0.0.0:1".to_owned(),
        scan_interval_seconds: 5,
        sync_interval_seconds: 15,
        maximum_records_per_page: 64,
        local_change_count: 3,
        peers: vec![RuntimePeerStatus {
            device_id: identity.device_id(),
            public_key: key_text(&identity),
            address: "a:1".to_owned(),
            high_watermark: 8,
            pending_objects: 2,
        }],
    };
    let snapshot = client_snapshot(&status, true);
    assert_eq!(snapshot.device_id, "00000000-0000-0000-0000-000000000001");
    assert!(snapshot.service_running);
    assert_eq!(snapshot.peers[0].high_watermark, 8);
    assert_eq!(snapshot.peers[0].device_id, identity.device_id().to_string());
    assert_eq!(choose_sync_root(None, "default"), "default");
    assert_eq!(choose_sync_root(Some("mine".to_owned()), "default"), "mine");
}

fn invite_to(group_id: GroupId) -> InvitePayload {
    InvitePayload {
        version: 1,
        group_id: group_id.to_string(),
        group_secret: "66".repeat(32),
        peer_address: "192.168.1.10:48177".to_owned(),
        peer_public_key: "fa".repeat(32),
    }
}

#[test]
fn the_status_tells_how_far_each_peer_was_read() {
    let group_id = GroupId::from_u128(1);
    let identity = DeviceIdentity::from_secret_bytes([1; 32]);
    let remote = DeviceIdentity::from_secret_bytes([2; 32]);
    let config = config();
    let peers = load_peers(&vec![peer(&remote, "192.0.2.1:1")], identity.device_id()).unwrap();
    let mut store = Store::new();
    configure_members(&identity, group_id, &peers, &mut store).unwrap();
    let status = runtime_status(&config, &identity, &peers, &store);
    assert_eq!(status.device_id, identity.device_id());
    assert_eq!(status.group_id, group_id);
    assert_eq!(status.public_key, key_text(&identity));
    assert_eq!(status.sync_root, "sync");
    assert_eq!(status.store_root, "state");
    assert_eq!(status.listen_address, "127.0.0.1:0");
    assert_eq!(status.local_change_count, 0);
    assert_eq!(status.peers.len(), 1);
    assert_eq!(status.peers[0].device_id, remote.device_id());
    assert_eq!(status.peers[0].public_key, key_text(&remote));
    assert_eq!(status.peers[0].address, "192.0.2.1:1");
    assert_eq!(status.peers[0].high_watermark, 0);
    assert_eq!(status.peers[0].pending_objects, 0);
    store.record_peer_high_watermark(group_id, remote.device_id(), 9).unwrap();
    assert_eq!(runtime_status(&config, &identity, &peers, &store).peers[0].high_watermark, 9);
}

#[test]
fn a_device_moves_to_another_workspace() {
    let here = GroupId::from_u128(1);
    let there = GroupId::from_u128(2);
    let workspace = switch_workspace(here, &invite_to(there), None).unwrap();
    assert_eq!(workspace.group_id, there);
    assert_eq!(workspace.group_secret, [0x66; 32]);
    assert_eq!(
        switch_workspace(there, &invite_to(there), None).unwrap_err(),
        "This device already belongs to the invitation workspace."
    );
    assert!(switch_workspace(here, &invite_to(there), Some("bad address")).is_err());

    assert_eq!(
        workspace_secret_name(there),
        "orbit.group.00000000-0000-0000-0000-000000000002.key"
    );
    assert_eq!(check_workspace_secret(None, &[0x66; 32]), Ok(true));
    assert_eq!(check_workspace_secret(Some(&[0x66; 32]), &[0x66; 32]), Ok(false));
    assert_eq!(
        check_workspace_secret(Some(&[0x66; 31]), &[0x66; 32]).unwrap_err(),
        "A different secret already exists for the invitation workspace."
    );

    let mut moved = config();
    moved.peers = vec![peer(&DeviceIdentity::from_secret_bytes([2; 32]), "a:1")];
    enter_workspace(&mut moved, there, workspace_secret_name(there), workspace.peer);
    assert_eq!(moved.group_id, there);
    assert_eq!(moved.group_secret_file, workspace_secret_name(there));
    assert_eq!(moved.peers.len(), 1);
    assert_eq!(moved.peers[0].address, "192.168.1.10:48177");
    assert_eq!(moved.peers[0].public_key, "fa".repeat(32));
    assert_eq!(moved.device_secret_file, config().device_secret_file);

    assert_eq!(
        switch_failure("no port", None),
        "Could not start the invited workspace: no port. The previous workspace was restored."
    );
    assert_eq!(
        switch_failure("no port", Some("no disk")),
        "Could not start the invited workspace: no port. The previous workspace was restored \
         but its service could not restart: no disk"
    );
}

#[test]
fn peers_are_found_by_their_identifiers() {
    let entry = |value: u128| RuntimePeerStatus {
        device_id: DeviceId::from_u128(value),
        public_key: String::new(),
        address: "a:1".to_owned(),
        high_watermark: 0,
        pending_objects: 0,
    };
    let peers = vec![entry(1), entry(2)];
    assert_eq!(find_peer(&peers, "00000000-0000-0000-0000-000000000002"), Ok(1));
    assert_eq!(find_peer(&peers, "x").unwrap_err(), "Peer x is not configured.");
    assert_eq!(inactive_peer("x"), "Peer x was not active.");
}

fn run_setup(options: &InitializationOptions, events: &[SetupEvent]) -> SetupAction {
    let (mut setup, mut action) = Setup::begin(options).unwrap();
    for event in events {
        action = setup.step(*event);
    }
    action
}

#[test]
fn devices_are_set_up_without_overwriting_anything() {
    let fresh = options(None, None);
    let joining = options(Some(GroupId::new()), Some("group.key"));
    assert_eq!(
        Setup::begin(&options(None, Some("group.key"))).unwrap_err(),
        DaemonError::IncompleteGroupJoin
    );
    let nothing = Removal { device_secret: false, group_secret: false };
    let begun = [SetupEvent::Absent, SetupEvent::Done, SetupEvent::Done, SetupEvent::Absent];
    assert_eq!(run_setup(&fresh, &[]), SetupAction::Look(Place::Config));
    assert_eq!(
        run_setup(&fresh, &[SetupEvent::Present]),
        SetupAction::Refuse { refusal: SetupRefusal::Occupied(Place::Config), removal: nothing }
    );
    assert_eq!(
        run_setup(&fresh, &[SetupEvent::Absent, SetupEvent::Overlapping]),
        SetupAction::Refuse { refusal: SetupRefusal::OverlappingRoots, removal: nothing }
    );
    assert_eq!(run_setup(&fresh, &begun), SetupAction::WriteSecret(Place::DeviceSecret));
    let mut events = begun.to_vec();
    events.push(SetupEvent::Done);
    assert_eq!(run_setup(&joining, &events), SetupAction::ReadGroupSecret);
    assert_eq!(run_setup(&fresh, &events), SetupAction::Look(Place::GroupSecret));
    let mut occupied = events.clone();
    occupied.push(SetupEvent::Present);
    assert_eq!(
        run_setup(&fresh, &occupied),
        SetupAction::Refuse {
            refusal: SetupRefusal::Occupied(Place::GroupSecret),
            removal: Removal { device_secret: true, group_secret: false },
        }
    );
    events.extend([SetupEvent::Absent, SetupEvent::Done]);
    assert_eq!(run_setup(&fresh, &events), SetupAction::WriteConfig);
    let mut failed = events.clone();
    failed.push(SetupEvent::Failed);
    assert_eq!(
        run_setup(&fresh, &failed),
        SetupAction::Refuse {
            refusal: SetupRefusal::Failed,
            removal: Removal { device_secret: true, group_secret: true },
        }
    );
    events.push(SetupEvent::Done);
    assert_eq!(run_setup(&fresh, &events), SetupAction::Finish);
    assert_eq!(
        run_setup(&joining, &[&begun[..], &[SetupEvent::Done; 2], &[SetupEvent::Failed]].concat()),
        SetupAction::Refuse {
            refusal: SetupRefusal::Failed,
            removal: Removal { device_secret: true, group_secret: false },
        }
    );
    assert_eq!(compare_roots(&path("home/sync"), &path("home/state")), SetupEvent::Done);
    assert_eq!(compare_roots(&path("home/sync"), &path("home")), SetupEvent::Overlapping);
}

#[test]
fn secrets_are_drawn_by_chance() {
    assert_ne!(random_secret().unwrap(), random_secret().unwrap());
    assert_ne!(random_secret().unwrap(), [0; 32]);
}

#[test]
fn settings_replace_only_what_they_name() {
    let mut changed = config();
    let request = SettingsRequest {
        listen_address: "0.0.0.0:7".to_owned(),
        scan_interval_seconds: 1,
        sync_interval_seconds: 2,
        maximum_records_per_page: 3,
    };
    change_settings(&mut changed, &request);
    assert_eq!(changed.listen_address, "0.0.0.0:7");
    assert_eq!(changed.scan_interval_seconds, 1);
    assert_eq!(changed.sync_interval_seconds, 2);
    assert_eq!(changed.maximum_records_per_page, 3);
    assert_eq!(changed.group_id, config().group_id);
    assert_eq!(changed.sync_root, config().sync_root);
}

#[test]
fn invite_codes_take_digits_of_either_case() {
    assert_eq!(decode_invite_code("orbit1_0aF9"), Ok(vec![0x0a, 0xf9]));
}

fn switch_through(events: &[SwitchEvent]) -> Vec<SwitchAction> {
    let (mut switch, first) = Switch::begin();
    let mut actions = vec![first];
    for event in events {
        actions.push(switch.step(*event));
    }
    actions
}

#[test]
fn a_switch_stops_the_service_and_starts_it_again() {
    assert_eq!(
        switch_through(&[
            SwitchEvent::Changed,
            SwitchEvent::Changed,
            SwitchEvent::Done,
            SwitchEvent::Done,
        ]),
        vec![
            SwitchAction::StopService,
            SwitchAction::KeepSecret,
            SwitchAction::UpdateConfig,
            SwitchAction::StartService,
            SwitchAction::Finish,
        ]
    );
    assert_eq!(
        switch_through(&[SwitchEvent::Done, SwitchEvent::Done, SwitchEvent::Done]),
        vec![
            SwitchAction::StopService,
            SwitchAction::KeepSecret,
            SwitchAction::UpdateConfig,
            SwitchAction::Finish,
        ]
    );
}

#[test]
fn a_failed_switch_is_rolled_back() {
    let start_failed = [
        SwitchEvent::Changed,
        SwitchEvent::Changed,
        SwitchEvent::Done,
        SwitchEvent::Failed,
        SwitchEvent::Done,
        SwitchEvent::Done,
    ];
    let undone = [
        SwitchAction::RestoreConfig,
        SwitchAction::RemoveSecret,
        SwitchAction::StartService,
    ];
    let mut events = start_failed.to_vec();
    events.push(SwitchEvent::Done);
    let actions = switch_through(&events);
    assert_eq!(actions[4..7], undone);
    assert_eq!(actions[7], SwitchAction::Refuse(SwitchRefusal::Restored));
    events[6] = SwitchEvent::Failed;
    assert_eq!(switch_through(&events)[7], SwitchAction::Refuse(SwitchRefusal::Stopped));

    assert_eq!(
        switch_through(&[SwitchEvent::Done, SwitchEvent::Changed, SwitchEvent::Failed])[3],
        SwitchAction::RemoveSecret
    );
    assert_eq!(
        switch_through(&[
            SwitchEvent::Changed,
            SwitchEvent::Done,
            SwitchEvent::Failed,
            SwitchEvent::Failed,
        ])[3..],
        [SwitchAction::StartService, SwitchAction::Refuse(SwitchRefusal::Last)]
    );
    assert_eq!(
        switch_through(&[SwitchEvent::Failed])[1],
        SwitchAction::Refuse(SwitchRefusal::First)
    );
}

#[test]
fn a_refused_switch_says_what_failed() {
    assert_eq!(switch_refusal(SwitchRefusal::First, "one", "two"), "one");
    assert_eq!(switch_refusal(SwitchRefusal::Last, "one", "two"), "two");
    assert_eq!(
        switch_refusal(SwitchRefusal::Restored, "one", "two"),
        "Could not start the invited workspace: one. The previous workspace was restored."
    );
    assert_eq!(
        switch_refusal(SwitchRefusal::Stopped, "one", "two"),
        "Could not start the invited workspace: one. The previous workspace was restored but \
         its service could not restart: two"
    );
}

fn join_through(invited: bool, done: &[bool]) -> Vec<JoinAction> {
    let (mut joining, first) = Joining::begin(invited);
    let mut actions = vec![first];
    for done in done {
        actions.push(joining.step(*done));
    }
    actions
}

#[test]
fn an_imported_secret_is_removed_where_the_device_cannot_be_set_up() {
    assert_eq!(
        join_through(true, &[true, true, true]),
        vec![
            JoinAction::ImportSecret,
            JoinAction::Initialize,
            JoinAction::AddInviter,
            JoinAction::Finish,
        ]
    );
    assert_eq!(
        join_through(true, &[true, false, true])[2..],
        [JoinAction::RemoveSecret, JoinAction::Refuse]
    );
    assert_eq!(join_through(true, &[false])[1], JoinAction::Refuse);
    assert_eq!(join_through(true, &[true, true, false])[3], JoinAction::Refuse);
    assert_eq!(join_through(false, &[true]), vec![JoinAction::Initialize, JoinAction::Finish]);
    assert_eq!(join_through(false, &[false])[1], JoinAction::Refuse);
}
