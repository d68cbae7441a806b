use std::collections::BTreeMap;

use orbit::catalog::{
    check_schema_version, decode_change_record_kind, decode_content_id, decode_device_id,
    decode_group_id, decode_member_role, decode_member_status, decode_path_id, decode_revision_id,
    decode_sequence, encode_change_record_kind, encode_content_id, encode_member_role,
    encode_member_status, incoming_transfer_name, object_path_for, sequence_to_i64, staging_path,
    staging_path_for, MemberRole, MemberStatus, ObjectKey, PathKey, PendingRow, StoreError,
    MAXIMUM_ENCRYPTED_OBJECT_BYTES, SCHEMA_VERSION,
};
use orbit::envelope::ObjectKind;
use orbit::history::{
    ChangeCommit, ChangePage, GarbageCollectionReport, LocalHead, MaterializationAdmission,
    PendingMaterialization, StoredChange,
};
use orbit::identity::{ChangeAuthorization, ChangeSignature, DeviceIdentity};
use orbit::ids::{ContentId, DeviceId, GroupId, PathId, RevisionId};
use orbit::keys::{CryptoError, GroupKeys, GroupSecret};
use orbit::record::ChangeRecordKind;
use orbit::store::{
    Admission, GroupMember, MembershipAdmission, ObjectTransferAdmission, RecoveryReport, Store,
    StoredChangeAuthentication, TransferFile,
};

const STAGE: &str = ".orbit-stage-00000000000000000000000000000001.tmp";

fn group(value: u128) -> GroupId {
    GroupId::parse(&format!("{value:032x}")).unwrap()
}

fn keys() -> GroupKeys {
    GroupSecret::from_bytes([7; 32]).derive_keys(group(1)).unwrap()
}

fn device_identity(value: u8) -> DeviceIdentity {
    DeviceIdentity::from_secret_bytes([value; 32])
}

fn device(value: u128) -> DeviceId {
    DeviceId::parse(&format!("{value:032x}")).unwrap()
}

fn revision(value: u128) -> RevisionId {
    RevisionId::parse(&format!("{value:032x}")).unwrap()
}

fn path(value: u8) -> PathId {
    PathId::from_bytes([value; 32])
}

/// A store together with the files that it speaks of.
struct Disk {
    keys: GroupKeys,
    store: Store,
    objects: BTreeMap<ContentId, Vec<u8>>,
    transfers: BTreeMap<String, Vec<u8>>,
    staging: usize,
    clock: i64,
}

impl Disk {
    fn new() -> Self {
        Disk {
            keys: keys(),
            store: Store::new(),
            objects: BTreeMap::new(),
            transfers: BTreeMap::new(),
            staging: 0,
            clock: 0,
        }
    }

    fn group_id(&self) -> GroupId {
        self.keys.group_id()
    }

    fn now(&mut self) -> i64 {
        self.clock += 1;
        self.clock
    }

    fn accept(
        &mut self,
        kind: ObjectKind,
        id: ContentId,
        bytes: &[u8],
    ) -> Result<Admission, StoreError> {
        let now = self.now();
        let existing = self.objects.get(&id).map(Vec::as_slice);
        let admission = self.store.admit_object(&self.keys, kind, id, bytes, existing, now)?;
        let due = self.store.lacks_file(&self.keys, kind, id, existing);
        assert_eq!(due, admission == Admission::Stored);
        if due {
            self.objects.insert(id, bytes.to_vec());
        }
        Ok(admission)
    }

    fn has(&mut self, id: ContentId) -> bool {
        let group_id = self.group_id();
        self.store.has_object(group_id, id, self.objects.contains_key(&id))
    }

    fn load(&mut self, kind: ObjectKind, id: ContentId) -> Result<Vec<u8>, StoreError> {
        let file = self.objects.get(&id).map(Vec::as_slice);
        let result = self.store.load_object(&self.keys, kind, id, file);
        if self.store.is_lost(self.keys.group_id(), id) {
            self.objects.remove(&id);
        }
        result
    }

    fn queue(&mut self, peer: DeviceId, ids: Vec<ContentId>) -> usize {
        let present = self.objects.keys().copied().collect();
        let group_id = self.group_id();
        let now = self.now();
        self.store.queue_object_requests(group_id, peer, &ids, &present, now)
    }

    fn begin(
        &mut self,
        peer: DeviceId,
        request_id: u128,
        id: ContentId,
        size: u64,
    ) -> Result<ObjectTransferAdmission, StoreError> {
        let group_id = self.group_id();
        let present = self.objects.contains_key(&id);
        let admission =
            self.store.begin_object_transfer(group_id, peer, request_id, id, size, present)?;
        if admission == ObjectTransferAdmission::Started {
            self.transfers.insert(incoming_transfer_name(group_id, peer, id), Vec::new());
        }
        Ok(admission)
    }

    fn append(
        &mut self,
        peer: DeviceId,
        id: ContentId,
        offset: u64,
        bytes: &[u8],
    ) -> Result<u64, StoreError> {
        let group_id = self.group_id();
        let name = incoming_transfer_name(group_id, peer, id);
        let size = self.transfers.get(&name).map(|file| file.len() as u64);
        let received =
            self.store.append_object_transfer(group_id, peer, id, offset, bytes, size)?;
        self.transfers.get_mut(&name).unwrap().extend_from_slice(bytes);
        Ok(received)
    }

    fn complete(&mut self, peer: DeviceId, id: ContentId) -> Result<Admission, StoreError> {
        let now = self.now();
        let name = incoming_transfer_name(self.keys.group_id(), peer, id);
        let file = self.transfers.get(&name).cloned();
        let existing = self.objects.get(&id).map(Vec::as_slice);
        let admission = self.store.complete_object_transfer(
            &self.keys,
            peer,
            id,
            file.as_deref(),
            existing,
            now,
        )?;
        if admission == Admission::Stored {
            self.objects.insert(id, file.unwrap());
        }
        self.transfers.remove(&name);
        Ok(admission)
    }

    fn commit(
        &mut self,
        revision_id: RevisionId,
        id: ContentId,
        bytes: &[u8],
        chunks: Vec<ContentId>,
    ) -> Result<ChangeCommit, StoreError> {
        self.accept(ObjectKind::Manifest, id, bytes)?;
        let now = self.now();
        let existing = self.objects.get(&id).map(Vec::as_slice);
        self.store.commit_change(&self.keys, revision_id, id, bytes, &chunks, existing, now)
    }

    fn commit_signed(
        &mut self,
        revision_id: RevisionId,
        id: ContentId,
        authorization: ChangeAuthorization,
        bytes: &[u8],
    ) -> Result<ChangeCommit, StoreError> {
        self.accept(ObjectKind::Manifest, id, bytes)?;
        let now = self.now();
        let existing = self.objects.get(&id).map(Vec::as_slice);
        self.store.commit_signed_change(
            &self.keys,
            revision_id,
            id,
            authorization,
            bytes,
            &Vec::new(),
            existing,
            now,
        )
    }

    #[allow(clippy::too_many_arguments)]
    fn commit_local(
        &mut self,
        path_id: PathId,
        previous: Option<ContentId>,
        revision_id: RevisionId,
        kind: ChangeRecordKind,
        id: ContentId,
        bytes: &[u8],
        chunks: Vec<ContentId>,
    ) -> Result<ChangeCommit, StoreError> {
        self.accept(ObjectKind::Manifest, id, bytes)?;
        let now = self.now();
        let existing = self.objects.get(&id).map(Vec::as_slice);
        self.store.commit_local_change(
            &self.keys,
            path_id,
            previous,
            revision_id,
            kind,
            id,
            bytes,
            &chunks,
            existing,
            now,
        )
    }

    fn commit_local_only(
        &mut self,
        path_id: PathId,
        previous: Option<ContentId>,
        id: ContentId,
        bytes: &[u8],
        chunks: Vec<ContentId>,
    ) -> Result<(), StoreError> {
        self.accept(ObjectKind::Manifest, id, bytes)?;
        let now = self.now();
        let existing = self.objects.get(&id).map(Vec::as_slice);
        self.store.commit_local_only_head(
            &self.keys,
            path_id,
            previous,
            ChangeRecordKind::File,
            id,
            bytes,
            &chunks,
            existing,
            now,
        )
    }

    fn references(&self, id: ContentId) -> Option<u128> {
        self.store.object_reference_count(self.keys.group_id(), id)
    }

    fn collect(&mut self, before: i64, maximum: usize) -> GarbageCollectionReport {
        let group_id = self.group_id();
        let (report, removed) = self.store.collect_garbage(group_id, before, maximum);
        for id in removed {
            self.objects.remove(&id);
        }
        report
    }

    fn begin_materialization(
        &mut self,
        path_id: PathId,
        target: ContentId,
        kind: ChangeRecordKind,
        stage: Option<&str>,
    ) -> Result<MaterializationAdmission, StoreError> {
        let group_id = self.group_id();
        self.store.begin_materialization(group_id, path_id, target, None, kind, stage)
    }

    fn reopen(&mut self) -> RecoveryReport {
        let mut files = Vec::new();
        for index in 0..self.store.transfers.len() {
            let key = self.store.transfers.key(index);
            let name =
                incoming_transfer_name(key.group_id, key.peer_device_id, key.content_id);
            files.push(match self.transfers.get(&name) {
                Some(file) => TransferFile::Regular { size: file.len() as u64 },
                None => TransferFile::Missing,
            });
        }
        for key in self.store.recover_incoming_object_transfers(&files) {
            self.transfers.remove(&incoming_transfer_name(
                key.group_id,
                key.peer_device_id,
                key.content_id,
            ));
        }
        let names: Vec<String> = self.transfers.keys().cloned().collect();
        for name in names {
            if !self.store.is_incoming_transfer_file(&name) {
                self.transfers.remove(&name);
            }
        }
        let group_id = self.keys.group_id();
        let present = self
            .objects
            .keys()
            .map(|content_id| ObjectKey { group_id, content_id: *content_id })
            .collect();
        let report = RecoveryReport {
            removed_staging_files: self.staging,
            removed_missing_objects: self.store.recover_missing_objects(&present),
        };
        self.staging = 0;
        report
    }
}

#[test]
fn rejects_catalogs_from_a_newer_schema() {
    assert!(matches!(
        check_schema_version(SCHEMA_VERSION + 1),
        Err(StoreError::UnsupportedSchemaVersion(version)) if version == SCHEMA_VERSION + 1
    ));
    assert_eq!(check_schema_version(SCHEMA_VERSION), Ok(()));
    assert_eq!(check_schema_version(0), Ok(()));
}

#[test]
fn group_membership_is_persistent_idempotent_and_revocable() {
    let keys = keys();
    let identity = device_identity(41);
    let other = device_identity(42);
    let revision_id = revision(1);
    let content_id = ContentId::from_bytes([2; 32]);
    let authorization = identity.authorize_change(keys.group_id(), revision_id, content_id);
    let mut store = Store::new();

    assert_eq!(
        store
            .add_group_member(keys.group_id(), identity.public_key(), MemberRole::Owner)
            .unwrap(),
        MembershipAdmission::Added
    );
    assert_eq!(
        store
            .add_group_member(keys.group_id(), identity.public_key(), MemberRole::Owner)
            .unwrap(),
        MembershipAdmission::AlreadyActive
    );
    assert!(matches!(
        store.add_group_member(keys.group_id(), identity.public_key(), MemberRole::Member),
        Err(StoreError::MemberRoleMismatch { .. })
    ));
    assert_eq!(
        store.group_member(keys.group_id(), identity.device_id()).unwrap(),
        Some(GroupMember {
            device_id: identity.device_id(),
            public_key: identity.public_key(),
            role: MemberRole::Owner,
            status: MemberStatus::Active,
        })
    );
    store
        .verify_change_authorization(keys.group_id(), revision_id, content_id, authorization)
        .unwrap();
    assert!(matches!(
        store.verify_change_authorization(
            keys.group_id(),
            revision_id,
            content_id,
            other.authorize_change(keys.group_id(), revision_id, content_id),
        ),
        Err(StoreError::UnknownGroupMember { .. })
    ));

    assert!(store.revoke_group_member(keys.group_id(), identity.device_id()));
    assert!(!store.revoke_group_member(keys.group_id(), identity.device_id()));
    assert_eq!(
        store.group_member(keys.group_id(), identity.device_id()).unwrap().unwrap().status,
        MemberStatus::Revoked
    );
    assert!(matches!(
        store.verify_change_authorization(
            keys.group_id(),
            revision_id,
            content_id,
            authorization,
        ),
        Err(StoreError::MemberRevoked { .. })
    ));
}

#[test]
fn revoked_members_cannot_return() {
    let keys = keys();
    let identity = device_identity(43);
    let mut store = Store::new();
    store
        .add_group_member(keys.group_id(), identity.public_key(), MemberRole::Member)
        .unwrap();
    store.revoke_group_member(keys.group_id(), identity.device_id());
    assert_eq!(
        store.add_group_member(keys.group_id(), identity.public_key(), MemberRole::Member),
        Err(StoreError::MemberRevoked { device_id: identity.device_id() })
    );
}

#[test]
fn admits_and_loads_only_verified_encrypted_objects() {
    let mut disk = Disk::new();
    let plaintext = b"durable private content";
    let content_id = disk.keys.identify_chunk(plaintext);
    let encrypted_bytes = disk.keys.seal_chunk(plaintext).unwrap().to_bytes().unwrap();

    assert_eq!(
        disk.accept(ObjectKind::Chunk, content_id, &encrypted_bytes).unwrap(),
        Admission::Stored
    );
    assert!(disk.has(content_id));
    assert_eq!(disk.load(ObjectKind::Chunk, content_id).unwrap(), encrypted_bytes);
    assert_eq!(
        disk.accept(ObjectKind::Chunk, content_id, &encrypted_bytes).unwrap(),
        Admission::AlreadyPresent
    );
}

#[test]
fn rejects_tampered_input_without_catalog_or_staging_visibility() {
    let mut disk = Disk::new();
    let plaintext = b"authenticate before promotion";
    let content_id = disk.keys.identify_chunk(plaintext);
    let mut encrypted_bytes = disk.keys.seal_chunk(plaintext).unwrap().to_bytes().unwrap();
    *encrypted_bytes.last_mut().unwrap() ^= 0x80;

    assert!(matches!(
        disk.accept(ObjectKind::Chunk, content_id, &encrypted_bytes),
        Err(StoreError::Crypto(CryptoError::Authentication))
    ));
    assert!(!disk.has(content_id));
    assert!(disk.objects.is_empty());
    assert_eq!(disk.store.objects.len(), 0);
}

#[test]
fn oversized_objects_are_refused() {
    let mut disk = Disk::new();
    let content_id = ContentId::from_bytes([1; 32]);
    let actual = MAXIMUM_ENCRYPTED_OBJECT_BYTES + 1;
    assert_eq!(
        disk.accept(ObjectKind::Chunk, content_id, &vec![0; actual]),
        Err(StoreError::ObjectTooLarge { actual, maximum: MAXIMUM_ENCRYPTED_OBJECT_BYTES })
    );
}

#[test]
fn demotes_a_stored_object_when_verification_fails() {
    let mut disk = Disk::new();
    let plaintext = b"detect corruption at rest";
    let content_id = disk.keys.identify_chunk(plaintext);
    let encrypted_bytes = disk.keys.seal_chunk(plaintext).unwrap().to_bytes().unwrap();
    disk.accept(ObjectKind::Chunk, content_id, &encrypted_bytes).unwrap();

    *disk.objects.get_mut(&content_id).unwrap().last_mut().unwrap() ^= 0x01;

    assert!(matches!(
        disk.load(ObjectKind::Chunk, content_id),
        Err(StoreError::Crypto(CryptoError::Authentication))
    ));
    assert!(!disk.has(content_id));
    assert!(!disk.objects.contains_key(&content_id));
}

#[test]
fn recovery_removes_staging_files_and_missing_catalog_entries() {
    let mut disk = Disk::new();
    let plaintext = b"crash recovery";
    let content_id = disk.keys.identify_chunk(plaintext);
    let encrypted_bytes = disk.keys.seal_chunk(plaintext).unwrap().to_bytes().unwrap();
    disk.accept(ObjectKind::Chunk, content_id, &encrypted_bytes).unwrap();
    disk.objects.remove(&content_id);
    disk.staging = 1;

    assert_eq!(
        disk.reopen(),
        RecoveryReport { removed_staging_files: 1, removed_missing_objects: 1 }
    );
    assert!(!disk.has(content_id));
}

#[test]
fn readmission_recovers_an_object_promoted_before_catalog_commit() {
    let mut disk = Disk::new();
    let plaintext = b"promoted before catalog commit";
    let content_id = disk.keys.identify_chunk(plaintext);
    let encrypted_bytes = disk.keys.seal_chunk(plaintext).unwrap().to_bytes().unwrap();
    disk.objects.insert(content_id, encrypted_bytes.clone());

    assert!(!disk.has(content_id));
    assert_eq!(
        disk.accept(ObjectKind::Chunk, content_id, &encrypted_bytes).unwrap(),
        Admission::AlreadyPresent
    );
    assert!(disk.has(content_id));
}

#[test]
fn object_request_journal_is_persistent_idempotent_and_cleared_on_admission() {
    let mut disk = Disk::new();
    let peer = device(9);
    let first_plaintext = b"first missing object";
    let first = disk.keys.identify_chunk(first_plaintext);
    let second = disk.keys.identify_chunk(b"second missing object");

    assert_eq!(disk.queue(peer, vec![first, second, first]), 2);
    assert_eq!(disk.queue(peer, vec![first]), 0);
    let group_id = disk.group_id();
    let now = disk.now();
    assert!(disk.store.mark_object_request_attempt(group_id, peer, first, now).unwrap());
    disk.reopen();

    let pending = disk.store.pending_object_requests(group_id, peer, 10);
    assert_eq!(pending.len(), 2);
    assert_eq!(pending.iter().map(|state| state.attempt_count).sum::<u64>(), 1);

    let encrypted_bytes = disk.keys.seal_chunk(first_plaintext).unwrap().to_bytes().unwrap();
    disk.accept(ObjectKind::Chunk, first, &encrypted_bytes).unwrap();

    let pending = disk.store.pending_object_requests(group_id, peer, 10);
    assert_eq!(
        pending.iter().map(|state| state.content_id).collect::<Vec<_>>(),
        vec![second]
    );
    assert_eq!(disk.queue(peer, vec![first]), 0);
}

#[test]
fn commits_opaque_changes_idempotently_and_pins_their_object_graph() {
    let mut disk = Disk::new();
    let first_chunk = disk.keys.seal_chunk(b"first referenced chunk").unwrap();
    let second_chunk = disk.keys.seal_chunk(b"second referenced chunk").unwrap();
    let unreferenced_chunk = disk.keys.seal_chunk(b"unreferenced chunk").unwrap();
    for chunk in [&first_chunk, &second_chunk, &unreferenced_chunk] {
        let encrypted_bytes = chunk.to_bytes().unwrap();
        disk.accept(ObjectKind::Chunk, chunk.content_id(), &encrypted_bytes).unwrap();
    }
    let manifest = disk.keys.seal_manifest(b"opaque file manifest").unwrap();
    let encrypted_manifest = manifest.to_bytes().unwrap();

    let first_commit = disk
        .commit(
            revision(1),
            manifest.content_id(),
            &encrypted_manifest,
            vec![
                first_chunk.content_id(),
                second_chunk.content_id(),
                first_chunk.content_id(),
            ],
        )
        .unwrap();
    let duplicate_commit = disk
        .commit(revision(1), manifest.content_id(), &encrypted_manifest, Vec::new())
        .unwrap();

    assert_eq!(first_commit, ChangeCommit { sequence: 1, inserted: true });
    assert_eq!(duplicate_commit, ChangeCommit { sequence: 1, inserted: false });
    assert_eq!(
        disk.store.changes_after(disk.group_id(), 0, 10).unwrap(),
        ChangePage {
            records: vec![StoredChange {
                sequence: 1,
                revision_id: revision(1),
                content_id: manifest.content_id(),
            }],
            high_watermark: 1,
        }
    );
    assert_eq!(disk.references(manifest.content_id()), Some(1));
    assert_eq!(disk.references(first_chunk.content_id()), Some(1));
    assert_eq!(disk.references(second_chunk.content_id()), Some(1));

    let report = disk.collect(i64::MAX, 10);
    assert_eq!(report.removed_objects, 1);
    assert_eq!(
        report.removed_encrypted_bytes,
        u64::try_from(unreferenced_chunk.to_bytes().unwrap().len()).unwrap()
    );
    assert!(disk.has(manifest.content_id()));
    assert!(disk.has(first_chunk.content_id()));
    assert!(!disk.has(unreferenced_chunk.content_id()));
}

#[test]
fn commits_without_their_chunks_are_refused() {
    let mut disk = Disk::new();
    let manifest = disk.keys.seal_manifest(b"manifest").unwrap();
    let missing = ContentId::from_bytes([8; 32]);
    let group_id = disk.group_id();
    assert_eq!(
        disk.commit(
            revision(1),
            manifest.content_id(),
            &manifest.to_bytes().unwrap(),
            vec![missing],
        ),
        Err(StoreError::ObjectNotFound { group_id, content_id: missing })
    );
    assert!(disk.store.changes_after(group_id, 0, 10).unwrap().records.is_empty());
}

#[test]
fn one_revision_cannot_be_committed_twice_with_different_content() {
    let mut disk = Disk::new();
    let first = disk.keys.seal_manifest(b"first").unwrap();
    let second = disk.keys.seal_manifest(b"second").unwrap();
    disk.commit(revision(1), first.content_id(), &first.to_bytes().unwrap(), Vec::new())
        .unwrap();
    assert_eq!(
        disk.commit(revision(1), second.content_id(), &second.to_bytes().unwrap(), Vec::new()),
        Err(StoreError::RevisionContentMismatch { revision_id: revision(1) })
    );
}

#[test]
fn signed_changes_persist_provenance_atomically_and_retry_after_revocation() {
    let mut disk = Disk::new();
    let group_id = disk.group_id();
    let identity = device_identity(51);
    disk.store
        .add_group_member(group_id, identity.public_key(), MemberRole::Member)
        .unwrap();
    let manifest = disk.keys.seal_manifest(b"signed opaque manifest").unwrap();
    let manifest_bytes = manifest.to_bytes().unwrap();
    let revision_id = revision(51);
    let authorization = identity.authorize_change(group_id, revision_id, manifest.content_id());

    assert_eq!(
        disk.commit_signed(revision_id, manifest.content_id(), authorization, &manifest_bytes)
            .unwrap(),
        ChangeCommit { sequence: 1, inserted: true }
    );
    assert_eq!(
        disk.store.change_authentication(group_id, revision_id),
        Some(StoredChangeAuthentication {
            revision_id,
            content_id: manifest.content_id(),
            authorization,
        })
    );
    assert_eq!(disk.references(manifest.content_id()), Some(2));

    assert!(disk.store.revoke_group_member(group_id, identity.device_id()));
    assert_eq!(
        disk.commit_signed(revision_id, manifest.content_id(), authorization, &manifest_bytes)
            .unwrap(),
        ChangeCommit { sequence: 1, inserted: false }
    );

    let rejected_revision = revision(52);
    let rejected = disk.keys.seal_manifest(b"tampered signed manifest").unwrap();
    let rejected_bytes = rejected.to_bytes().unwrap();
    let mut invalid_signature = *identity
        .authorize_change(group_id, rejected_revision, rejected.content_id())
        .signature
        .as_bytes();
    invalid_signature[0] ^= 0x80;
    let invalid = ChangeAuthorization {
        author_device_id: identity.device_id(),
        signature: ChangeSignature::from_bytes(invalid_signature),
    };
    assert!(matches!(
        disk.commit_signed(rejected_revision, rejected.content_id(), invalid, &rejected_bytes),
        Err(StoreError::MemberRevoked { .. })
    ));
    assert!(disk.store.change_authentication(group_id, rejected_revision).is_none());
    assert_eq!(disk.store.changes_after(group_id, 0, 10).unwrap().records.len(), 1);
    assert_eq!(disk.references(rejected.content_id()), Some(0));
}

#[test]
fn peer_high_watermarks_are_monotonic_and_persistent() {
    let group_id = keys().group_id();
    let peer = device(10);
    let mut store = Store::new();

    assert_eq!(store.peer_high_watermark(group_id, peer), 0);
    assert_eq!(store.record_peer_high_watermark(group_id, peer, 12).unwrap(), 12);
    assert_eq!(store.record_peer_high_watermark(group_id, peer, 8).unwrap(), 12);
    assert_eq!(store.peer_high_watermark(group_id, peer), 12);
    assert_eq!(
        store.record_peer_high_watermark(group_id, peer, u64::MAX),
        Err(StoreError::SequenceOutOfRange(u64::MAX))
    );
}

#[test]
fn recovery_preserves_references_while_demoting_missing_bytes() {
    let mut disk = Disk::new();
    let chunk = disk.keys.seal_chunk(b"referenced bytes lost after commit").unwrap();
    let encrypted_chunk = chunk.to_bytes().unwrap();
    disk.accept(ObjectKind::Chunk, chunk.content_id(), &encrypted_chunk).unwrap();
    let manifest = disk.keys.seal_manifest(b"manifest survives byte loss").unwrap();
    let encrypted_manifest = manifest.to_bytes().unwrap();
    disk.commit(
        revision(2),
        manifest.content_id(),
        &encrypted_manifest,
        vec![chunk.content_id()],
    )
    .unwrap();
    disk.objects.remove(&chunk.content_id());

    assert_eq!(disk.reopen().removed_missing_objects, 1);
    assert!(!disk.has(chunk.content_id()));
    assert_eq!(disk.references(chunk.content_id()), Some(1));
    assert_eq!(disk.queue(device(11), vec![chunk.content_id()]), 1);

    disk.accept(ObjectKind::Chunk, chunk.content_id(), &encrypted_chunk).unwrap();
    assert!(disk.has(chunk.content_id()));
    assert_eq!(disk.references(chunk.content_id()), Some(1));
    assert!(disk
        .store
        .pending_object_requests(disk.keys.group_id(), device(11), 10)
        .is_empty());
}

#[test]
fn local_head_commits_are_atomic_idempotent_and_reference_counted() {
    let mut disk = Disk::new();
    let group_id = disk.group_id();
    let path_id = path(4);
    let chunk = disk.keys.seal_chunk(b"local file bytes").unwrap();
    disk.accept(ObjectKind::Chunk, chunk.content_id(), &chunk.to_bytes().unwrap()).unwrap();
    let first = disk.keys.seal_manifest(b"first local manifest").unwrap();
    let first_bytes = first.to_bytes().unwrap();

    let committed = disk
        .commit_local(
            path_id,
            None,
            revision(20),
            ChangeRecordKind::File,
            first.content_id(),
            &first_bytes,
            vec![chunk.content_id()],
        )
        .unwrap();
    assert_eq!(committed, ChangeCommit { sequence: 1, inserted: true });
    assert_eq!(
        disk.store.local_head(group_id, path_id),
        Some(LocalHead {
            path_id,
            content_id: first.content_id(),
            kind: ChangeRecordKind::File,
        })
    );
    assert_eq!(disk.references(first.content_id()), Some(2));

    let rejected = disk.keys.seal_manifest(b"stale scan manifest").unwrap();
    let rejected_bytes = rejected.to_bytes().unwrap();
    assert!(matches!(
        disk.commit_local(
            path_id,
            Some(ContentId::from_bytes([9; 32])),
            revision(21),
            ChangeRecordKind::File,
            rejected.content_id(),
            &rejected_bytes,
            vec![chunk.content_id()],
        ),
        Err(StoreError::StaleLocalHead { .. })
    ));
    assert_eq!(disk.store.changes_after(group_id, 0, 10).unwrap().records.len(), 1);
    assert_eq!(disk.references(rejected.content_id()), Some(0));
    assert_eq!(disk.collect(i64::MAX, 10).removed_objects, 1);

    let second = disk.keys.seal_manifest(b"second local manifest").unwrap();
    let second_bytes = second.to_bytes().unwrap();
    let advanced = disk
        .commit_local(
            path_id,
            Some(first.content_id()),
            revision(22),
            ChangeRecordKind::Tombstone,
            second.content_id(),
            &second_bytes,
            Vec::new(),
        )
        .unwrap();
    assert_eq!(advanced.sequence, 2);
    assert!(advanced.inserted);
    assert_eq!(
        disk.commit_local(
            path_id,
            Some(first.content_id()),
            revision(22),
            ChangeRecordKind::Tombstone,
            second.content_id(),
            &second_bytes,
            Vec::new(),
        )
        .unwrap(),
        ChangeCommit { sequence: 2, inserted: false }
    );
    let head = LocalHead {
        path_id,
        content_id: second.content_id(),
        kind: ChangeRecordKind::Tombstone,
    };
    assert_eq!(disk.store.local_heads(group_id), vec![head]);
    assert_eq!(disk.references(first.content_id()), Some(1));
    assert_eq!(disk.references(second.content_id()), Some(2));
    disk.reopen();
    assert_eq!(disk.store.local_head(group_id, path_id), Some(head));
}

#[test]
fn local_only_heads_pin_objects_without_entering_the_change_log() {
    let mut disk = Disk::new();
    let group_id = disk.group_id();
    let path_id = path(8);
    let chunk = disk.keys.seal_chunk(b"local-only conflict bytes").unwrap();
    disk.accept(ObjectKind::Chunk, chunk.content_id(), &chunk.to_bytes().unwrap()).unwrap();
    let manifest = disk.keys.seal_manifest(b"local-only conflict manifest").unwrap();
    let manifest_bytes = manifest.to_bytes().unwrap();

    disk.commit_local_only(
        path_id,
        None,
        manifest.content_id(),
        &manifest_bytes,
        vec![chunk.content_id()],
    )
    .unwrap();
    disk.commit_local_only(path_id, None, manifest.content_id(), &manifest_bytes, Vec::new())
        .unwrap();

    assert_eq!(
        disk.store.local_head(group_id, path_id),
        Some(LocalHead {
            path_id,
            content_id: manifest.content_id(),
            kind: ChangeRecordKind::File,
        })
    );
    assert!(disk.store.changes_after(group_id, 0, 10).unwrap().records.is_empty());
    assert_eq!(disk.references(manifest.content_id()), Some(1));
    assert_eq!(disk.references(chunk.content_id()), Some(1));
    assert_eq!(disk.collect(i64::MAX, 10), GarbageCollectionReport::default());
}

#[test]
fn incoming_object_transfers_resume_and_authenticate_after_restart() {
    let mut disk = Disk::new();
    let group_id = disk.group_id();
    let peer = device(11);
    let object = disk.keys.seal_chunk(b"encrypted transfer payload").unwrap();
    let content_id = object.content_id();
    let encrypted_bytes = object.to_bytes().unwrap();
    let split = encrypted_bytes.len() / 2;
    disk.queue(peer, vec![content_id]);

    assert_eq!(
        disk.begin(peer, 1, content_id, encrypted_bytes.len() as u64).unwrap(),
        ObjectTransferAdmission::Started
    );
    assert_eq!(
        disk.append(peer, content_id, 0, &encrypted_bytes[..split]).unwrap(),
        split as u64
    );
    disk.reopen();

    assert_eq!(
        disk.begin(peer, 2, content_id, encrypted_bytes.len() as u64).unwrap(),
        ObjectTransferAdmission::Resuming { received_size: split as u64 }
    );
    assert!(matches!(
        disk.append(peer, content_id, 0, &encrypted_bytes[split..]),
        Err(StoreError::TransferOffsetMismatch { .. })
    ));
    disk.append(peer, content_id, split as u64, &encrypted_bytes[split..]).unwrap();
    assert_eq!(disk.complete(peer, content_id).unwrap(), Admission::Stored);
    assert_eq!(disk.load(ObjectKind::Chunk, content_id).unwrap(), encrypted_bytes);
    assert!(disk
        .store
        .incoming_object_transfer(group_id, peer, content_id)
        .unwrap()
        .is_none());
    assert!(disk.store.pending_object_requests(group_id, peer, 10).is_empty());
}

#[test]
fn each_fault_of_a_stored_transfer_is_named() {
    let mut disk = Disk::new();
    let group_id = disk.group_id();
    let peer = device(11);
    let object = disk.keys.seal_chunk(b"payload").unwrap();
    let content_id = object.content_id();
    let bytes = object.to_bytes().unwrap();
    let size = bytes.len() as u64;

    assert_eq!(
        disk.begin(peer, 1, content_id, size),
        Err(StoreError::ObjectNotRequested { peer_device_id: peer, content_id })
    );
    disk.queue(peer, vec![content_id]);
    assert_eq!(disk.begin(peer, 0, content_id, size), Err(StoreError::NilTransferRequestId));
    assert_eq!(
        disk.begin(peer, 1, content_id, 0),
        Err(StoreError::InvalidTransferSize {
            actual: 0,
            maximum: MAXIMUM_ENCRYPTED_OBJECT_BYTES,
        })
    );
    assert_eq!(
        disk.append(peer, content_id, 0, &bytes),
        Err(StoreError::ObjectTransferNotFound { peer_device_id: peer, content_id })
    );
    disk.begin(peer, 1, content_id, size).unwrap();
    assert_eq!(
        disk.begin(peer, 1, content_id, size + 1),
        Err(StoreError::TransferSizeMismatch { content_id, expected: size, actual: size + 1 })
    );
    assert_eq!(
        disk.append(peer, content_id, 0, &vec![0; bytes.len() + 1]),
        Err(StoreError::TransferExceedsExpectedSize {
            content_id,
            expected: size,
            actual: size + 1,
        })
    );
    assert_eq!(
        disk.store.append_object_transfer(group_id, peer, content_id, 0, &bytes, Some(3)),
        Err(StoreError::TransferFileLengthMismatch { content_id, catalog: 0, actual: 3 })
    );
    disk.append(peer, content_id, 0, &bytes[..10]).unwrap();
    assert_eq!(
        disk.complete(peer, content_id),
        Err(StoreError::ObjectTransferIncomplete { content_id, expected: size, actual: 10 })
    );
    assert!(disk.store.cancel_object_transfer(group_id, peer, content_id));
    assert!(!disk.store.cancel_object_transfer(group_id, peer, content_id));
}

#[test]
fn object_ranges_are_the_rest_of_an_object() {
    let mut disk = Disk::new();
    let object = disk.keys.seal_chunk(b"ranged").unwrap();
    let content_id = object.content_id();
    let bytes = object.to_bytes().unwrap();
    disk.accept(ObjectKind::Chunk, content_id, &bytes).unwrap();
    let range =
        disk.store.load_object_range(&disk.keys, content_id, 10, Some(&bytes)).unwrap();
    assert_eq!(range.encrypted_size, bytes.len() as u64);
    assert_eq!(range.start_offset, 10);
    assert_eq!(range.encrypted_bytes, &bytes[10..]);
    let size = bytes.len() as u64;
    assert_eq!(
        disk.store.load_object_range(&disk.keys, content_id, size, Some(&bytes)),
        Err(StoreError::ObjectRangeStartOutOfBounds {
            content_id,
            start_offset: size,
            encrypted_size: size,
        })
    );
}

#[test]
fn transfer_recovery_adopts_fsynced_bytes_and_removes_orphans() {
    let mut disk = Disk::new();
    let group_id = disk.group_id();
    let peer = device(12);
    let object = disk.keys.seal_manifest(b"recoverable encrypted manifest").unwrap();
    let content_id = object.content_id();
    let encrypted_bytes = object.to_bytes().unwrap();
    disk.queue(peer, vec![content_id]);
    disk.begin(peer, 3, content_id, encrypted_bytes.len() as u64).unwrap();
    let name = incoming_transfer_name(group_id, peer, content_id);
    disk.transfers.insert(name, encrypted_bytes.clone());
    disk.transfers.insert("orphan.part".to_owned(), b"orphan".to_vec());

    disk.reopen();
    assert_eq!(
        disk.store
            .incoming_object_transfer(group_id, peer, content_id)
            .unwrap()
            .unwrap()
            .received_size,
        encrypted_bytes.len() as u64
    );
    assert!(!disk.transfers.contains_key("orphan.part"));
    assert_eq!(disk.complete(peer, content_id).unwrap(), Admission::Stored);
}

#[test]
fn transfer_recovery_discards_what_cannot_be_continued() {
    let mut disk = Disk::new();
    let group_id = disk.group_id();
    let peer = device(12);
    let first = ContentId::from_bytes([1; 32]);
    let second = ContentId::from_bytes([2; 32]);
    disk.queue(peer, vec![first, second]);
    disk.begin(peer, 1, first, 100).unwrap();
    disk.begin(peer, 2, second, 100).unwrap();
    let discarded = disk.store.recover_incoming_object_transfers(&vec![
        TransferFile::Regular { size: 101 },
        TransferFile::Missing,
    ]);
    assert_eq!(discarded.len(), 1);
    assert_eq!(discarded[0].content_id, first);
    assert_eq!(disk.store.incoming_object_transfer(group_id, peer, first), Ok(None));
    assert_eq!(disk.store.incoming_object_transfer(group_id, peer, second), Ok(None));
}

#[test]
fn materialization_journal_is_persistent_idempotent_and_pins_its_target() {
    let mut disk = Disk::new();
    let group_id = disk.group_id();
    let path_id = path(7);
    let target = disk.keys.seal_manifest(b"pending incoming manifest").unwrap();
    let target_bytes = target.to_bytes().unwrap();
    disk.accept(ObjectKind::Manifest, target.content_id(), &target_bytes).unwrap();

    assert_eq!(
        disk.begin_materialization(
            path_id,
            target.content_id(),
            ChangeRecordKind::File,
            Some(STAGE),
        )
        .unwrap(),
        MaterializationAdmission::Queued
    );
    assert_eq!(
        disk.begin_materialization(
            path_id,
            target.content_id(),
            ChangeRecordKind::File,
            Some(STAGE),
        )
        .unwrap(),
        MaterializationAdmission::AlreadyPending
    );
    assert_eq!(disk.references(target.content_id()), Some(1));
    assert!(matches!(
        disk.begin_materialization(
            path_id,
            target.content_id(),
            ChangeRecordKind::Tombstone,
            None,
        ),
        Err(StoreError::MaterializationInProgress { .. })
    ));
    assert!(matches!(
        disk.begin_materialization(
            path(8),
            target.content_id(),
            ChangeRecordKind::File,
            Some("../escape.tmp"),
        ),
        Err(StoreError::InvalidMaterializationStage)
    ));
    disk.reopen();

    assert_eq!(
        disk.store.pending_materializations(group_id).unwrap(),
        vec![PendingMaterialization {
            path_id,
            target_content_id: target.content_id(),
            expected_previous_content_id: None,
            kind: ChangeRecordKind::File,
            stage_name: Some(STAGE.to_owned()),
        }]
    );
    disk.commit_local(
        path_id,
        None,
        revision(30),
        ChangeRecordKind::File,
        target.content_id(),
        &target_bytes,
        Vec::new(),
    )
    .unwrap();
    assert_eq!(
        disk.begin_materialization(
            path_id,
            target.content_id(),
            ChangeRecordKind::File,
            Some(STAGE),
        )
        .unwrap(),
        MaterializationAdmission::AlreadyPending
    );
    assert!(disk.store.complete_materialization(group_id, path_id, target.content_id()));
    assert_eq!(disk.references(target.content_id()), Some(2));
}

#[test]
fn rejects_corrupt_persisted_materialization_stage_names() {
    let mut disk = Disk::new();
    let group_id = disk.group_id();
    let path_id = path(7);
    let target = disk.keys.seal_manifest(b"pending incoming manifest").unwrap();
    disk.accept(ObjectKind::Manifest, target.content_id(), &target.to_bytes().unwrap()).unwrap();
    disk.begin_materialization(
        path_id,
        target.content_id(),
        ChangeRecordKind::File,
        Some(STAGE),
    )
    .unwrap();
    disk.store.pending.put(
        PathKey { group_id, path_id },
        PendingRow {
            target_content_id: target.content_id(),
            expected_previous_content_id: None,
            kind: ChangeRecordKind::File,
            stage_name: Some("../escape.tmp".to_owned()),
        },
    );

    assert!(matches!(
        disk.store.pending_materializations(group_id),
        Err(StoreError::InvalidMaterializationStage)
    ));
}

#[test]
fn garbage_is_collected_oldest_first_and_in_bounds() {
    let mut disk = Disk::new();
    let mut ids = Vec::new();
    for index in 0..3_u8 {
        let chunk = disk.keys.seal_chunk(&[index]).unwrap();
        disk.accept(ObjectKind::Chunk, chunk.content_id(), &chunk.to_bytes().unwrap()).unwrap();
        ids.push(chunk.content_id());
    }
    assert_eq!(disk.collect(0, 10).removed_objects, 0);
    assert_eq!(disk.collect(i64::MAX, 2).removed_objects, 2);
    assert!(!disk.has(ids[0]));
    assert!(!disk.has(ids[1]));
    assert!(disk.has(ids[2]));
}

#[test]
fn change_pages_follow_each_other() {
    let mut disk = Disk::new();
    let group_id = disk.group_id();
    for index in 1..=3_u8 {
        let manifest = disk.keys.seal_manifest(&[index]).unwrap();
        disk.commit(
            revision(u128::from(index)),
            manifest.content_id(),
            &manifest.to_bytes().unwrap(),
            Vec::new(),
        )
        .unwrap();
    }
    let first = disk.store.changes_after(group_id, 0, 2).unwrap();
    assert_eq!(first.records.len(), 2);
    assert_eq!(first.high_watermark, 3);
    let second = disk.store.changes_after(group_id, 2, 2).unwrap();
    assert_eq!(second.records.len(), 1);
    assert_eq!(second.records[0].sequence, 3);
    assert_eq!(
        disk.store.changes_after(group_id, u64::MAX, 2),
        Err(StoreError::SequenceOutOfRange(u64::MAX))
    );
}

#[test]
fn catalog_values_round_trip_and_faults_are_named() {
    assert_eq!(decode_group_id("group_id", &group(5).to_bytes()), Ok(group(5)));
    assert_eq!(decode_device_id("device_id", &device(5).to_bytes()), Ok(device(5)));
    assert_eq!(decode_revision_id("revision_id", &revision(5).to_bytes()), Ok(revision(5)));
    assert_eq!(decode_path_id("path_id", &[5; 32]), Ok(path(5)));
    assert_eq!(
        decode_content_id("content_id", &[1; 31]),
        Err(StoreError::CorruptCatalogIdentifier {
            field: "content_id",
            expected: 32,
            actual: 31,
        })
    );
    for kind in [ChangeRecordKind::File, ChangeRecordKind::Tombstone] {
        assert_eq!(decode_change_record_kind("kind", encode_change_record_kind(kind)), Ok(kind));
    }
    assert_eq!(
        decode_change_record_kind("kind", 9),
        Err(StoreError::CorruptChangeRecordKind { field: "kind", value: 9 })
    );
    for role in [MemberRole::Owner, MemberRole::Member] {
        assert_eq!(decode_member_role("role", encode_member_role(role)), Ok(role));
    }
    assert_eq!(
        decode_member_role("role", 0),
        Err(StoreError::CorruptMemberRole { field: "role", value: 0 })
    );
    for status in [MemberStatus::Active, MemberStatus::Revoked] {
        assert_eq!(decode_member_status("status", encode_member_status(status)), Ok(status));
    }
    assert_eq!(
        decode_member_status("status", -1),
        Err(StoreError::CorruptMemberStatus { field: "status", value: -1 })
    );
    assert_eq!(decode_sequence("sequence", 4), Ok(4));
    assert_eq!(
        decode_sequence("sequence", -4),
        Err(StoreError::CorruptCatalogInteger { field: "sequence", value: -4 })
    );
    assert_eq!(sequence_to_i64(4), Ok(4));
}

#[test]
fn object_paths_spread_over_directories() {
    let id = ContentId::from_bytes([0xab; 32]);
    assert_eq!(encode_content_id(id), "ab".repeat(32));
    assert_eq!(
        object_path_for(group(1), id),
        format!("objects/{:032x}/ab/{}.orbit", 1, "ab".repeat(32))
    );
}

#[test]
fn staged_objects_have_names_of_their_own() {
    let group_id = GroupId::from_u128(1);
    let content_id = ContentId::from_bytes([0xab; 32]);
    let path = staging_path_for(group_id, content_id, 0x0f);
    assert_eq!(
        path,
        format!(
            "staging/00000000000000000000000000000001-{}-0000000000000000000000000000000f.part",
            "ab".repeat(32)
        )
    );
    let first = staging_path(group_id, content_id);
    let second = staging_path(group_id, content_id);
    assert_ne!(first, second);
    assert_eq!(first.len(), path.len());
    assert_eq!(first[..first.len() - 37], path[..path.len() - 37]);
    assert_eq!(first.as_bytes()[first.len() - 25], b'4');
}

#[test]
fn files_are_due_until_they_hold_their_objects() {
    let mut disk = Disk::new();
    let object = disk.keys.seal_chunk(b"chunk").unwrap();
    let id = object.content_id();
    let bytes = object.to_bytes().unwrap();
    assert!(!disk.store.lacks_file(&disk.keys, ObjectKind::Chunk, id, None));
    assert!(!disk.store.is_lost(disk.group_id(), id));
    disk.accept(ObjectKind::Chunk, id, &bytes).unwrap();
    assert!(disk.store.lacks_file(&disk.keys, ObjectKind::Chunk, id, None));
    assert!(disk.store.lacks_file(&disk.keys, ObjectKind::Chunk, id, Some(&bytes[1..])));
    assert!(!disk.store.lacks_file(&disk.keys, ObjectKind::Chunk, id, Some(&bytes)));
    disk.objects.remove(&id);
    assert!(!disk.has(id));
    assert!(disk.store.is_lost(disk.group_id(), id));
    assert!(!disk.store.lacks_file(&disk.keys, ObjectKind::Chunk, id, None));
}
