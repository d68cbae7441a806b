use std::collections::BTreeMap;

use orbit::applier::{IncomingApplier, Recovery};
use orbit::apply::{
    ApplyOutcome, ApplyStep, Job, MaterializationRecoveryReport,
};
use orbit::catalog::{incoming_transfer_name, MemberRole, ObjectKey, StoreError};
use orbit::chance::{Chance, Draw};
use orbit::conflict_record::{conflict_record, derive_conflict_record};
use orbit::content::{ChunkPayload, ChunkingConfig};
use orbit::discovery::{missing_heads, portable_relative_path, Discovery, FoundComponent};
use orbit::envelope::{EncryptedObject, ObjectKind};
use orbit::exchange::{
    admit_change_batch, build_change_batch, ChangeBatchAdmissionError,
    ChangeBatchAdmissionReport, ChangeBatchBuildError,
};
use orbit::footprint::{batch_objects, needed_objects};
use orbit::history::LocalHead;
use orbit::identity::{ChangeAuthorization, ChangeSignature, DeviceIdentity, IdentityError};
use orbit::ids::{ContentId, FileId, GroupId, RevisionId};
use orbit::keys::{CryptoError, GroupKeys, GroupSecret};
use orbit::loading::ApplyError;
use orbit::manifest::encode_change_record;
use orbit::opening::{seal_fresh_record, seal_record, ObjectFiles, SealedRecord};
use orbit::path::RelativePath;
use orbit::placement::{
    check_file, check_parent, check_sync_root, time_from_unix_milliseconds, unix_milliseconds,
    EntryKind, ParentStep, PlaceRefusal, Timestamp,
};
use orbit::protocol::ProtocolLimits;
use orbit::record::{ChangeRecord, ChangeRecordKind, ChunkRef, FileManifest, Tombstone};
use orbit::scan::{
    bury_file, commit_local_record, load_local_record, next_file_record, next_tombstone,
    revise_file, Attempt, FileOutcome, FileSnapshot, FullScanner, IngestedFile, Reading,
    ScanError, ScanReport,
};
use orbit::store::{Admission, Store, TransferFile};
use orbit::version::VersionVector;
use orbit::wire::ChangeBatch;

fn group(value: u128) -> GroupId {
    GroupId::parse(&format!("{value:032x}")).unwrap()
}

fn keys() -> GroupKeys {
    GroupSecret::from_bytes([61; 32]).derive_keys(group(1)).unwrap()
}

fn identity(value: u8) -> DeviceIdentity {
    DeviceIdentity::from_secret_bytes([value; 32])
}

fn components(path: &str) -> Vec<FoundComponent> {
    path.split('/').map(|part| FoundComponent::Normal(part.to_owned())).collect()
}

/// A device in memory: a store with its object files, and the tree that it keeps in step.
struct Replica {
    keys: GroupKeys,
    store: Store,
    objects: BTreeMap<ContentId, Vec<u8>>,
    transfers: BTreeMap<String, Vec<u8>>,
    tree: BTreeMap<String, (Vec<u8>, Timestamp)>,
    clock: i64,
    seals: u8,
}

impl Replica {
    fn new() -> Self {
        Replica {
            keys: keys(),
            store: Store::new(),
            objects: BTreeMap::new(),
            transfers: BTreeMap::new(),
            tree: BTreeMap::new(),
            clock: 0,
            seals: 0,
        }
    }

    fn now(&mut self) -> i64 {
        self.clock += 1;
        self.clock
    }

    fn nonce(&mut self) -> [u8; 24] {
        self.seals = self.seals.wrapping_add(1);
        [self.seals; 24]
    }

    /// Builds the store again from its rows and takes up what was left undone.
    fn restart(&mut self) {
        let before = std::mem::replace(&mut self.store, Store::new());
        for index in 0..before.objects.len() {
            self.store.objects.put(before.objects.key(index), *before.objects.value(index));
        }
        for index in 0..before.requests.len() {
            self.store.requests.put(before.requests.key(index), *before.requests.value(index));
        }
        for index in 0..before.transfers.len() {
            self.store.transfers.put(before.transfers.key(index), *before.transfers.value(index));
        }
        for index in 0..before.heads.len() {
            self.store.heads.put(before.heads.key(index), *before.heads.value(index));
        }
        for index in 0..before.pending.len() {
            self.store.pending.put(before.pending.key(index), before.pending.value(index).clone());
        }
        for index in 0..before.members.len() {
            self.store.members.put(before.members.key(index), *before.members.value(index));
        }
        for index in 0..before.authentications.len() {
            self.store.authentications.put(before.authentications.key(index), before.authentications.value(index).clone());
        }
        for index in 0..before.references.len() {
            self.store.references.put(before.references.key(index), ());
        }
        for index in 0..before.watermarks.len() {
            self.store.watermarks.put(before.watermarks.key(index), *before.watermarks.value(index));
        }
        self.store.changes = before.changes;
        let mut files = Vec::new();
        for index in 0..self.store.transfers.len() {
            let key = self.store.transfers.key(index);
            let name =
                incoming_transfer_name(key.group_id, key.peer_device_id, key.content_id);
            files.push(match self.transfers.get(&name) {
                Some(file) => TransferFile::Regular { size: file.len() as u64 },
                None => TransferFile::Missing,
            });
        }
        self.store.recover_incoming_object_transfers(&files);
        let group_id = self.keys.group_id();
        let present = self
            .objects
            .keys()
            .map(|content_id| ObjectKey { group_id, content_id: *content_id })
            .collect();
        self.store.recover_missing_objects(&present);
    }

    fn write(&mut self, path: &str, bytes: &[u8]) {
        let now = self.now();
        let modified = time_from_unix_milliseconds(1_600_000_000_000 + now);
        self.tree.insert(path.to_owned(), (bytes.to_vec(), modified));
    }

    fn read(&self, path: &str) -> &[u8] {
        &self.tree[path].0
    }

    fn files(&self) -> ObjectFiles {
        let mut files = ObjectFiles::new();
        for (id, bytes) in &self.objects {
            files.put(*id, bytes.clone());
        }
        files
    }

    fn files_of(&self, content_ids: &[ContentId]) -> ObjectFiles {
        let mut files = ObjectFiles::new();
        for content_id in content_ids {
            if let Some(bytes) = self.objects.get(content_id) {
                files.put(*content_id, bytes.clone());
            }
        }
        files
    }

    fn needed_files(&self, target: ContentId) -> ObjectFiles {
        let mut content_ids = vec![target];
        loop {
            let files = self.files_of(&content_ids);
            let needs = needed_objects(target, &self.keys, &self.store, &files);
            if needs.iter().all(|id| content_ids.contains(id)) {
                return files;
            }
            content_ids = needs;
        }
    }

    fn register(&mut self, value: u8) -> DeviceIdentity {
        let identity = identity(value);
        self.store
            .add_group_member(self.keys.group_id(), identity.public_key(), MemberRole::Member)
            .unwrap();
        identity
    }

    fn accept(&mut self, kind: ObjectKind, object: &EncryptedObject) -> ContentId {
        let id = object.content_id();
        let bytes = object.to_bytes().unwrap();
        let now = self.now();
        let existing = self.objects.get(&id).map(Vec::as_slice);
        let admission =
            self.store.admit_object(&self.keys, kind, id, &bytes, existing, now).unwrap();
        if admission == Admission::Stored {
            self.objects.insert(id, bytes);
        }
        id
    }

    fn accept_chunk(&mut self, plaintext: &[u8]) -> ChunkRef {
        let object = self.keys.seal_chunk(plaintext).unwrap();
        let content_id = self.accept(ObjectKind::Chunk, &object);
        ChunkRef { content_id, plaintext_size: u32::try_from(plaintext.len()).unwrap() }
    }

    fn accept_record(&mut self, record: &ChangeRecord) -> ContentId {
        let plaintext = encode_change_record(record).unwrap();
        let object = self.keys.seal_manifest(&plaintext).unwrap();
        self.accept(ObjectKind::Manifest, &object)
    }

    fn discover(&self) -> Result<Vec<(RelativePath, String)>, ScanError> {
        let mut discovery = Discovery::new();
        let mut names = Vec::new();
        for name in self.tree.keys() {
            discovery.insert(portable_relative_path(&components(name))?)?;
            names.push(name.clone());
        }
        Ok(discovery
            .arrange()
            .into_iter()
            .map(|index| (discovery.paths[index].clone(), names[index].clone()))
            .collect())
    }

    fn head(&self, path: &RelativePath) -> Option<LocalHead> {
        self.store.local_head(self.keys.group_id(), self.keys.identify_path(path))
    }

    fn commit(
        &mut self,
        record: &ChangeRecord,
        previous: Option<ContentId>,
        identity: &DeviceIdentity,
    ) -> Result<(), ScanError> {
        let nonce = self.nonce();
        let sealed = seal_record(&self.keys, record, nonce).unwrap();
        self.commit_sealed(record, sealed, previous, identity)
    }

    fn commit_sealed(
        &mut self,
        record: &ChangeRecord,
        sealed: SealedRecord,
        previous: Option<ContentId>,
        identity: &DeviceIdentity,
    ) -> Result<(), ScanError> {
        let now = self.now();
        let path_id = self.keys.identify_path(record.relative_path());
        let file = self.objects.get(&sealed.content_id).map(Vec::as_slice);
        commit_local_record(
            record,
            &sealed,
            path_id,
            previous,
            identity,
            &self.keys,
            &mut self.store,
            file,
            now,
        )?;
        self.objects.entry(sealed.content_id).or_insert(sealed.bytes);
        Ok(())
    }

    fn scan(
        &mut self,
        scanner: &FullScanner,
        identity: &DeviceIdentity,
    ) -> Result<ScanReport, ScanError> {
        scanner.begin_scan(identity, &self.keys, &self.store)?;
        let found = self.discover()?;
        let heads = self.store.local_heads(self.keys.group_id());
        let mut report = ScanReport { files_discovered: found.len(), ..Default::default() };
        let mut found_ids = Vec::new();
        for (path, name) in &found {
            found_ids.push(self.keys.identify_path(path));
            let head = self.head(path);
            let files = self.files();
            let previous = match head {
                Some(head) => {
                    Some(load_local_record(head, &self.keys, &mut self.store, &files)?)
                }
                None => None,
            };
            let (bytes, modified_at) = self.tree[name].clone();
            let mut reading = Reading::new();
            reading.next_attempt();
            let plan = scanner.chunking.chunk_slice(&bytes, &self.keys).unwrap();
            for chunk in plan.chunks() {
                let start = chunk.offset() as usize;
                let end = start + chunk.plaintext_size() as usize;
                let payload =
                    ChunkPayload::new(chunk.offset(), bytes[start..end].to_vec(), &self.keys)
                        .unwrap();
                let now = self.now();
                let file = self.objects.get(&chunk.content_id()).map(Vec::as_slice);
                let written =
                    reading.ingest_chunk(&payload, &self.keys, &mut self.store, file, now)?;
                if let Some(written) = written {
                    self.objects.insert(chunk.content_id(), written);
                }
            }
            let snapshot = FileSnapshot { length: bytes.len() as u64, modified_at };
            let Attempt::Stable(file) =
                scanner.judge_attempt(reading, snapshot, snapshot, Some(snapshot))?
            else {
                panic!("expected a stable file");
            };
            let outcome = FileOutcome {
                changed: false,
                plaintext_bytes: file.plaintext_bytes,
                chunks_stored: file.chunks_stored,
                chunks_reused: file.chunks_reused,
            };
            let revision = revise_file(previous.as_ref(), path, file, identity, &self.keys)?;
            let changed = revision.is_some();
            if let Some((record, sealed)) = revision {
                let previous = head.map(|head| head.content_id);
                self.commit_sealed(&record, sealed, previous, identity)?;
            }
            report.add_file(FileOutcome { changed, ..outcome });
        }
        for head in missing_heads(&heads, &found_ids) {
            let files = self.files();
            let previous = load_local_record(head, &self.keys, &mut self.store, &files)?;
            let now = self.now();
            let now = time_from_unix_milliseconds(now);
            let (record, sealed) = bury_file(head, &previous, identity, &self.keys, now)?;
            self.commit_sealed(&record, sealed, Some(head.content_id), identity)?;
            report.add_tombstone();
        }
        Ok(report)
    }

    fn scan_as(&mut self, value: u8) -> Result<ScanReport, ScanError> {
        let identity = self.register(value);
        self.scan(&FullScanner::default(), &identity)
    }

    fn materialize(&mut self, job: &Job) -> Result<(), ApplyError> {
        self.objects
            .entry(job.loaded.content_id)
            .or_insert_with(|| job.loaded.encrypted_bytes.clone());
        match &job.loaded.record {
            ChangeRecord::File(manifest) => {
                let files = self.files();
                let bytes = orbit::loading::assemble_file(
                    manifest,
                    &self.keys,
                    &mut self.store,
                    &files,
                )?;
                let path_id = self.keys.identify_path(&manifest.relative_path);
                let keys = &self.keys;
                self.tree.retain(|name, _| {
                    keys.identify_path(&RelativePath::new(name).unwrap()) != path_id
                });
                self.tree.insert(
                    manifest.relative_path.to_string(),
                    (bytes, time_from_unix_milliseconds(manifest.modified_at_unix_ms)),
                );
            }
            ChangeRecord::Tombstone(tombstone) => {
                self.tree.remove(tombstone.relative_path.as_str());
            }
        }
        Ok(())
    }

    fn apply(
        &mut self,
        target: ContentId,
        authorization: ChangeAuthorization,
    ) -> Result<ApplyOutcome, ApplyError> {
        let now = self.now();
        let files = self.needed_files(target);
        let mut made = None;
        let first = IncomingApplier.apply(
            target,
            authorization,
            &self.keys,
            &mut self.store,
            &files,
            now,
            &mut made,
        );
        self.keep_copy(made);
        let mut step = first?;
        loop {
            match step {
                ApplyStep::Done(outcome) => return Ok(outcome),
                ApplyStep::Materialize { job, sequel } => {
                    self.materialize(&job)?;
                    let now = self.now();
                    let files = self.files();
                    step = IncomingApplier.resume(
                        &job,
                        sequel,
                        &self.keys,
                        &mut self.store,
                        &files,
                        now,
                    )?;
                }
            }
        }
    }

    fn keep_copy(&mut self, made: Option<SealedRecord>) {
        let Some(copy) = made else {
            return;
        };
        let existing = self.objects.get(&copy.content_id).map(Vec::as_slice);
        let kind = ObjectKind::Manifest;
        if self.store.lacks_file(&self.keys, kind, copy.content_id, existing) {
            self.objects.insert(copy.content_id, copy.bytes);
        }
    }

    fn apply_as(
        &mut self,
        target: ContentId,
        record: &ChangeRecord,
        value: u8,
    ) -> Result<ApplyOutcome, ApplyError> {
        let author = self.register(value);
        let authorization =
            author.authorize_change(self.keys.group_id(), record.revision_id(), target);
        self.apply(target, authorization)
    }

    fn recover(&mut self) -> Result<MaterializationRecoveryReport, ApplyError> {
        let mut recovery: Recovery =
            IncomingApplier.recover_pending_materializations(&self.keys, &self.store)?;
        while !recovery.remaining.is_empty() {
            let files = self.files();
            let job = IncomingApplier.recover_next(
                &mut recovery,
                &self.keys,
                &mut self.store,
                &files,
            )?;
            if let Some(job) = job {
                self.materialize(&job)?;
                let now = self.now();
                let files = self.files();
                IncomingApplier.recover_finish(
                    &mut recovery,
                    &job,
                    &self.keys,
                    &mut self.store,
                    &files,
                    now,
                )?;
            }
        }
        Ok(recovery.report)
    }

    fn local_record(&mut self, path: &str) -> ChangeRecord {
        let head = self.head(&RelativePath::new(path).unwrap()).unwrap();
        let files = self.files();
        load_local_record(head, &self.keys, &mut self.store, &files).unwrap()
    }

    fn local_file(&mut self, path: &str) -> FileManifest {
        match self.local_record(path) {
            ChangeRecord::File(manifest) => manifest,
            ChangeRecord::Tombstone(_) => panic!("expected file manifest"),
        }
    }

    fn reconstruct(&mut self, manifest: &FileManifest) -> Vec<u8> {
        let mut plaintext = Vec::new();
        for chunk in &manifest.chunks {
            let file = self.objects.get(&chunk.content_id).map(Vec::as_slice);
            let encrypted = self
                .store
                .load_object(&self.keys, ObjectKind::Chunk, chunk.content_id, file)
                .unwrap();
            let object = EncryptedObject::from_bytes(&encrypted).unwrap();
            plaintext
                .extend_from_slice(&self.keys.open_chunk(chunk.content_id, &object).unwrap());
        }
        plaintext
    }

    fn changes(&self) -> usize {
        self.store.changes_after(self.keys.group_id(), 0, 10).unwrap().records.len()
    }

    fn is_idle(&self) -> bool {
        self.store.pending_materializations(self.keys.group_id()).unwrap().is_empty()
    }

    fn batch(&mut self, after: u64, maximum: usize) -> Result<ChangeBatch, ChangeBatchBuildError> {
        let files = self.files();
        build_change_batch(&self.keys, &mut self.store, after, maximum, &files)
    }

    fn admit_batch(
        &mut self,
        peer: &DeviceIdentity,
        batch: &ChangeBatch,
    ) -> Result<ChangeBatchAdmissionReport, ChangeBatchAdmissionError> {
        let needs = batch_objects(batch, &self.keys);
        let files = self.files_of(&needs.manifests);
        let present = needs
            .chunks
            .into_iter()
            .filter(|content_id| self.objects.contains_key(content_id))
            .collect();
        let now = self.now();
        let report = admit_change_batch(
            peer.device_id(),
            batch,
            &self.keys,
            &mut self.store,
            ProtocolLimits::default(),
            &files,
            &present,
            now,
        )?;
        for record in &batch.records {
            let id = ContentId::from_slice(&record.content_id).unwrap();
            self.objects.entry(id).or_insert_with(|| record.encrypted_record.clone());
        }
        Ok(report)
    }
}

fn incoming_file(
    base: &FileManifest,
    version: VersionVector,
    bytes: &[u8],
    chunk: ChunkRef,
) -> ChangeRecord {
    ChangeRecord::File(FileManifest {
        file_id: base.file_id,
        revision_id: RevisionId::new(),
        relative_path: base.relative_path.clone(),
        size: bytes.len() as u64,
        modified_at_unix_ms: 1_700_000_000_123,
        version,
        chunks: vec![chunk],
    })
}

fn new_file(path: &str, author: u8, size: u64, chunks: Vec<ChunkRef>) -> ChangeRecord {
    let mut version = VersionVector::default();
    version.increment(identity(author).device_id()).unwrap();
    ChangeRecord::File(FileManifest {
        file_id: FileId::new(),
        revision_id: RevisionId::new(),
        relative_path: RelativePath::new(path).unwrap(),
        size,
        modified_at_unix_ms: 1_700_000_000_123,
        version,
        chunks,
    })
}

#[test]
fn incoming_descendant_replaces_the_file_without_scanner_echo() {
    let mut replica = Replica::new();
    replica.write("docs/report.txt", b"local version");
    replica.scan_as(1).unwrap();

    let relative_path = RelativePath::new("docs/report.txt").unwrap();
    let initial_head = replica.head(&relative_path).unwrap();
    let previous = replica.local_file("docs/report.txt");
    let incoming_bytes = b"authenticated incoming version";
    let chunk = replica.accept_chunk(incoming_bytes);
    let mut version = previous.version.clone();
    version.increment(identity(2).device_id()).unwrap();
    let incoming = incoming_file(&previous, version, incoming_bytes, chunk);
    let revision_id = incoming.revision_id();
    let target_content_id = replica.accept_record(&incoming);

    assert_eq!(
        replica.apply_as(target_content_id, &incoming, 2).unwrap(),
        ApplyOutcome::Applied { revision_id, kind: ChangeRecordKind::File }
    );
    assert_eq!(replica.read("docs/report.txt"), incoming_bytes);
    assert_eq!(
        unix_milliseconds(replica.tree["docs/report.txt"].1).unwrap(),
        1_700_000_000_123
    );
    assert_eq!(replica.head(&relative_path).unwrap().content_id, target_content_id);
    assert!(replica.is_idle());

    let repeat = replica.scan_as(1).unwrap();
    assert_eq!(repeat.changes_committed(), 0);
    assert_eq!(repeat.files_unchanged, 1);
    assert_eq!(
        replica
            .apply_as(initial_head.content_id, &ChangeRecord::File(previous), 1)
            .unwrap(),
        ApplyOutcome::KeptLocal { revision_id }
    );
    assert_eq!(replica.read("docs/report.txt"), incoming_bytes);
}

#[test]
fn concurrent_files_materialize_a_deterministic_tracked_conflict_copy() {
    let mut replica = Replica::new();
    replica.write("docs/report.txt", b"common base");
    replica.scan_as(1).unwrap();
    let base = replica.local_file("docs/report.txt");

    replica.write("docs/report.txt", b"losing local edit");
    replica.scan_as(2).unwrap();
    let local = replica.local_file("docs/report.txt");
    let local_revision = local.revision_id;
    let incoming_bytes = b"canonical incoming edit";
    let incoming_chunk = replica.accept_chunk(incoming_bytes);
    let mut incoming_version = base.version.clone();
    incoming_version.increment(identity(1).device_id()).unwrap();
    let incoming = incoming_file(&base, incoming_version, incoming_bytes, incoming_chunk);
    let incoming_revision = incoming.revision_id();
    let target_content_id = replica.accept_record(&incoming);

    let outcome = replica.apply_as(target_content_id, &incoming, 1).unwrap();
    let ApplyOutcome::KeptBoth { canonical_revision, conflict_revision, conflict_path } = outcome
    else {
        panic!("expected keep-both outcome");
    };
    assert_eq!(canonical_revision, incoming_revision);
    assert_eq!(conflict_revision, local_revision);
    assert_eq!(replica.read("docs/report.txt"), incoming_bytes);
    assert_eq!(replica.read(conflict_path.as_str()), b"losing local edit");

    let original_head = replica.head(incoming.relative_path()).unwrap();
    assert_eq!(original_head.content_id, target_content_id);
    let conflict_head = replica.head(&conflict_path).unwrap();
    let conflict = replica.local_file(conflict_path.as_str());
    assert_ne!(conflict.file_id, local.file_id);
    assert_ne!(conflict.revision_id, local.revision_id);
    assert_eq!(conflict.relative_path, conflict_path);
    assert_eq!(conflict.version, local.version);
    assert_eq!(conflict.chunks, local.chunks);
    assert!(replica
        .store
        .change_authentication(replica.keys.group_id(), conflict.revision_id)
        .is_none());
    assert_eq!(replica.changes(), 3);

    let files = replica.files();
    let nonce = replica.nonce();
    let now = replica.now();
    let chance = Chance::Given(Draw { token: None, nonce: Some(nonce) });
    let derived_again =
        derive_conflict_record(&local, &replica.keys, &mut replica.store, &files, &chance, now)
            .unwrap();
    assert_eq!(derived_again.content_id, conflict_head.content_id);
    assert_eq!(derived_again.record, ChangeRecord::File(conflict));
    assert_eq!(replica.scan_as(2).unwrap().changes_committed(), 0);
    assert_eq!(
        replica.apply_as(target_content_id, &incoming, 1).unwrap(),
        ApplyOutcome::NoChange
    );
}

#[test]
fn concurrent_incoming_loser_is_materialized_without_replacing_local() {
    let mut replica = Replica::new();
    replica.write("report.txt", b"common base");
    replica.scan_as(1).unwrap();
    let base = replica.local_file("report.txt");

    replica.write("report.txt", b"canonical local edit");
    replica.scan_as(1).unwrap();
    let local = replica.local_file("report.txt");
    let incoming_bytes = b"losing incoming edit";
    let chunk = replica.accept_chunk(incoming_bytes);
    let mut version = base.version.clone();
    version.increment(identity(2).device_id()).unwrap();
    let incoming = incoming_file(&base, version, incoming_bytes, chunk);
    let incoming_revision = incoming.revision_id();
    let target_content_id = replica.accept_record(&incoming);

    let ApplyOutcome::KeptBoth { canonical_revision, conflict_revision, conflict_path } =
        replica.apply_as(target_content_id, &incoming, 2).unwrap()
    else {
        panic!("expected keep-both outcome");
    };
    assert_eq!(canonical_revision, local.revision_id);
    assert_eq!(conflict_revision, incoming_revision);
    assert_eq!(replica.read("report.txt"), b"canonical local edit");
    assert_eq!(replica.read(conflict_path.as_str()), incoming_bytes);
    assert_eq!(replica.scan_as(1).unwrap().changes_committed(), 0);
}

#[test]
fn conflict_copies_are_the_same_on_every_device() {
    let record = new_file("docs/report.txt", 2, 0, Vec::new());
    let ChangeRecord::File(source) = record else {
        panic!("expected file manifest");
    };
    let first = conflict_record(&source, &keys()).unwrap();
    let second = conflict_record(&source, &keys()).unwrap();
    assert_eq!(first, second);
    assert_eq!(first.version, source.version);
    assert!(first.relative_path.as_str().contains("Orbit conflict"));
    assert!(first.relative_path.as_str().contains("1700000000123"));
}

#[test]
fn edit_delete_reconciliation_keeps_concurrent_edits_and_applies_descendants() {
    let mut replica = Replica::new();
    replica.write("report.txt", b"live local edit");
    replica.scan_as(1).unwrap();
    let local = replica.local_file("report.txt");

    let mut concurrent_version = VersionVector::default();
    concurrent_version.increment(identity(2).device_id()).unwrap();
    let concurrent_tombstone = ChangeRecord::Tombstone(Tombstone {
        file_id: local.file_id,
        revision_id: RevisionId::new(),
        relative_path: local.relative_path.clone(),
        deleted_at_unix_ms: 1_700_000_000_123,
        version: concurrent_version,
    });
    let concurrent_content_id = replica.accept_record(&concurrent_tombstone);
    assert_eq!(
        replica.apply_as(concurrent_content_id, &concurrent_tombstone, 2).unwrap(),
        ApplyOutcome::KeptLocal { revision_id: local.revision_id }
    );
    assert_eq!(replica.read("report.txt"), b"live local edit");

    let mut descendant_version = local.version.clone();
    descendant_version.increment(identity(2).device_id()).unwrap();
    let descendant_revision = RevisionId::new();
    let descendant_tombstone = ChangeRecord::Tombstone(Tombstone {
        file_id: local.file_id,
        revision_id: descendant_revision,
        relative_path: local.relative_path,
        deleted_at_unix_ms: 1_700_000_000_456,
        version: descendant_version,
    });
    let descendant_content_id = replica.accept_record(&descendant_tombstone);
    assert_eq!(
        replica.apply_as(descendant_content_id, &descendant_tombstone, 2).unwrap(),
        ApplyOutcome::Applied {
            revision_id: descendant_revision,
            kind: ChangeRecordKind::Tombstone,
        }
    );
    assert!(!replica.tree.contains_key("report.txt"));
}

#[test]
fn missing_chunks_are_reported_before_filesystem_or_journal_mutation() {
    let mut replica = Replica::new();
    let group_id = replica.keys.group_id();
    let plaintext = b"not downloaded yet";
    let missing = replica.keys.identify_chunk(plaintext);
    let record = new_file(
        "docs/missing.txt",
        2,
        plaintext.len() as u64,
        vec![ChunkRef { content_id: missing, plaintext_size: plaintext.len() as u32 }],
    );
    let target_content_id = replica.accept_record(&record);
    let author = replica.register(2);
    let authorization =
        author.authorize_change(group_id, record.revision_id(), target_content_id);

    assert_eq!(
        replica.apply(target_content_id, authorization).unwrap(),
        ApplyOutcome::MissingObjects { content_ids: vec![missing] }
    );
    assert!(replica
        .store
        .change_authentication(group_id, record.revision_id())
        .is_some());
    replica.store.revoke_group_member(group_id, author.device_id());
    assert_eq!(
        replica.apply(target_content_id, authorization).unwrap(),
        ApplyOutcome::MissingObjects { content_ids: vec![missing] }
    );
    assert!(replica.tree.is_empty());
    assert!(replica.head(record.relative_path()).is_none());
    assert!(replica.is_idle());
}

#[test]
fn recovery_replays_partial_file_stages_and_tombstones_after_restart() {
    let mut replica = Replica::new();
    let group_id = replica.keys.group_id();
    replica.write("docs/report.txt", b"old bytes");
    replica.scan_as(1).unwrap();

    let relative_path = RelativePath::new("docs/report.txt").unwrap();
    let path_id = replica.keys.identify_path(&relative_path);
    let previous_head = replica.head(&relative_path).unwrap();
    let previous = replica.local_file("docs/report.txt");
    let incoming_bytes = b"complete bytes reconstructed after restart";
    let chunk = replica.accept_chunk(incoming_bytes);
    let mut version = previous.version.clone();
    version.increment(identity(2).device_id()).unwrap();
    let incoming = incoming_file(&previous, version, incoming_bytes, chunk);
    let incoming_content_id = replica.accept_record(&incoming);
    let remote_identity = replica.register(2);
    let incoming_authorization = remote_identity.authorize_change(
        group_id,
        incoming.revision_id(),
        incoming_content_id,
    );
    replica
        .store
        .begin_signed_materialization(
            group_id,
            path_id,
            incoming.revision_id(),
            incoming_content_id,
            Some(previous_head.content_id),
            ChangeRecordKind::File,
            Some(".orbit-stage-00000000000000000000000000000001.tmp"),
            incoming_authorization,
        )
        .unwrap();
    assert!(replica.store.revoke_group_member(group_id, remote_identity.device_id()));

    assert!(matches!(
        replica.scan_as(1),
        Err(ScanError::PendingMaterializations { count: 1 })
    ));
    assert_eq!(
        replica.recover().unwrap(),
        MaterializationRecoveryReport { completed: 1, blocked: Vec::new() }
    );
    assert_eq!(replica.read("docs/report.txt"), incoming_bytes);
    assert_eq!(replica.recover().unwrap(), MaterializationRecoveryReport::default());

    let ChangeRecord::File(incoming_manifest) = incoming else {
        unreachable!();
    };
    let mut tombstone_version = incoming_manifest.version;
    tombstone_version.increment(identity(3).device_id()).unwrap();
    let tombstone = ChangeRecord::Tombstone(Tombstone {
        file_id: incoming_manifest.file_id,
        revision_id: RevisionId::new(),
        relative_path: relative_path.clone(),
        deleted_at_unix_ms: 1_700_000_000_456,
        version: tombstone_version,
    });
    let tombstone_content_id = replica.accept_record(&tombstone);
    let tombstone_author = replica.register(3);
    let tombstone_authorization = tombstone_author.authorize_change(
        group_id,
        tombstone.revision_id(),
        tombstone_content_id,
    );
    replica
        .store
        .begin_signed_materialization(
            group_id,
            path_id,
            tombstone.revision_id(),
            tombstone_content_id,
            Some(incoming_content_id),
            ChangeRecordKind::Tombstone,
            None,
            tombstone_authorization,
        )
        .unwrap();

    assert_eq!(replica.recover().unwrap().completed, 1);
    assert!(!replica.tree.contains_key("docs/report.txt"));
    let head = replica.head(&relative_path).unwrap();
    assert_eq!(head.content_id, tombstone_content_id);
    assert_eq!(head.kind, ChangeRecordKind::Tombstone);
    assert_eq!(replica.scan_as(1).unwrap().changes_committed(), 0);
}

#[test]
fn tampered_chunks_are_rejected_before_materialization() {
    let mut replica = Replica::new();
    let plaintext = b"tamper target";
    let chunk = replica.accept_chunk(plaintext);
    *replica.objects.get_mut(&chunk.content_id).unwrap().last_mut().unwrap() ^= 0x01;
    let record = new_file("tampered.txt", 2, plaintext.len() as u64, vec![chunk]);
    let target_content_id = replica.accept_record(&record);

    assert!(matches!(
        replica.apply_as(target_content_id, &record, 2),
        Err(ApplyError::Store(StoreError::Crypto(CryptoError::Authentication)))
    ));
    assert!(replica.tree.is_empty());
    assert!(replica.head(record.relative_path()).is_none());
    assert!(replica.is_idle());
}

#[test]
fn discovery_is_sorted_and_rejects_portable_collisions_before_mutation() {
    let mut replica = Replica::new();
    replica.write("z.txt", b"z");
    replica.write("docs/a.txt", b"a");

    let files = replica.discover().unwrap();
    assert_eq!(
        files.iter().map(|(path, _)| path.as_str()).collect::<Vec<_>>(),
        vec!["docs/a.txt", "z.txt"]
    );

    replica.write("Straße.txt", b"first");
    replica.write("STRASSE.txt", b"second");
    assert!(matches!(replica.discover(), Err(ScanError::PathCollision { .. })));
}

#[test]
fn discovered_names_must_be_portable() {
    assert_eq!(
        portable_relative_path(&vec![FoundComponent::NonUnicode]),
        Err(ScanError::NonUnicodePath)
    );
    assert_eq!(
        portable_relative_path(&vec![FoundComponent::Unsupported]),
        Err(ScanError::InvalidPathComponent)
    );
    assert!(matches!(
        portable_relative_path(&components("a/con")),
        Err(ScanError::InvalidPortablePath(_))
    ));
}

#[test]
fn discovery_rejects_a_store_inside_the_scan_root() {
    let root = vec![b"sync".to_vec()];
    let store_root = vec![b"sync".to_vec(), b".orbit".to_vec()];
    assert_eq!(
        check_sync_root(EntryKind::Directory, &root, &store_root),
        Err(PlaceRefusal::RootStoreOverlap)
    );
    assert_eq!(
        check_sync_root(EntryKind::Directory, &root, &vec![b"store".to_vec()]),
        Ok(())
    );
    assert_eq!(
        check_sync_root(EntryKind::File, &root, &vec![b"store".to_vec()]),
        Err(PlaceRefusal::RootNotDirectory)
    );
}

#[test]
fn places_are_entered_only_where_they_are_plain() {
    assert_eq!(check_parent(EntryKind::Directory, false), Ok(ParentStep::Enter));
    assert_eq!(check_parent(EntryKind::Missing, true), Ok(ParentStep::Create));
    assert_eq!(check_parent(EntryKind::Missing, false), Ok(ParentStep::Absent));
    assert_eq!(check_parent(EntryKind::SymbolicLink, true), Err(PlaceRefusal::SymbolicLink));
    assert_eq!(check_parent(EntryKind::File, true), Err(PlaceRefusal::UnsupportedFileType));
    assert_eq!(check_file(EntryKind::File), Ok(true));
    assert_eq!(check_file(EntryKind::Missing), Ok(false));
    assert_eq!(check_file(EntryKind::SymbolicLink), Err(PlaceRefusal::SymbolicLink));
    assert_eq!(check_file(EntryKind::Directory), Err(PlaceRefusal::UnsupportedFileType));
}

#[test]
fn timestamps_round_trip_through_milliseconds() {
    for milliseconds in [0, 1, -1, 1_700_000_000_123, -62_135_596_800_001, i64::MAX] {
        assert_eq!(
            unix_milliseconds(time_from_unix_milliseconds(milliseconds)),
            Some(milliseconds)
        );
    }
    let late = Timestamp { before_epoch: false, seconds: u64::MAX, nanoseconds: 0 };
    assert_eq!(unix_milliseconds(late), None);
}

#[test]
fn full_scan_tracks_file_lifecycle_idempotently_across_restart() {
    let mut replica = Replica::new();
    replica.write("docs/report.txt", b"first version");
    let scanner = FullScanner::default();
    let local_identity = replica.register(7);
    let local_device = local_identity.device_id();

    let initial = replica.scan(&scanner, &local_identity).unwrap();
    assert_eq!(initial.files_discovered, 1);
    assert_eq!(initial.changes_committed(), 1);
    assert_eq!(initial.chunks_stored, 1);
    let first = replica.local_file("docs/report.txt");
    assert_eq!(first.version.counter(local_device), 1);
    assert_eq!(replica.reconstruct(&first), b"first version");

    let repeat = replica.scan(&scanner, &local_identity).unwrap();
    assert_eq!(repeat.file_changes, 0);
    assert_eq!(repeat.files_unchanged, 1);
    assert_eq!(repeat.chunks_reused, 1);
    assert_eq!(replica.changes(), 1);

    replica.restart();
    let after_restart = replica.scan(&scanner, &local_identity).unwrap();
    assert_eq!(after_restart.changes_committed(), 0);
    replica.write("docs/report.txt", b"second version is longer");
    let modified = replica.scan(&scanner, &local_identity).unwrap();
    assert_eq!(modified.file_changes, 1);
    let second = replica.local_file("docs/report.txt");
    assert_eq!(second.file_id, first.file_id);
    assert_eq!(second.version.counter(local_device), 2);
    assert_eq!(replica.reconstruct(&second), b"second version is longer");

    replica.tree.remove("docs/report.txt");
    let deleted = replica.scan(&scanner, &local_identity).unwrap();
    assert_eq!(deleted.tombstones_created, 1);
    let tombstone = match replica.local_record("docs/report.txt") {
        ChangeRecord::File(_) => panic!("expected tombstone"),
        ChangeRecord::Tombstone(tombstone) => tombstone,
    };
    assert_eq!(tombstone.file_id, first.file_id);
    assert_eq!(tombstone.version.counter(local_device), 3);

    replica.write("docs/report.txt", b"restored");
    let restored = replica.scan(&scanner, &local_identity).unwrap();
    assert_eq!(restored.file_changes, 1);
    let restored = replica.local_file("docs/report.txt");
    assert_eq!(restored.file_id, first.file_id);
    assert_eq!(restored.version.counter(local_device), 4);
}

#[test]
fn empty_files_have_canonical_zero_chunk_manifests() {
    let mut replica = Replica::new();
    replica.write("empty.txt", b"");

    let report = replica.scan_as(1).unwrap();
    assert_eq!(report.chunks_stored, 0);
    let manifest = replica.local_file("empty.txt");
    assert_eq!(manifest.size, 0);
    assert!(manifest.chunks.is_empty());
}

#[test]
fn case_only_renames_retain_file_identity() {
    let mut replica = Replica::new();
    replica.write("Report.txt", b"same bytes");
    let local_identity = replica.register(1);
    let local_device = local_identity.device_id();
    let scanner = FullScanner::default();
    replica.scan(&scanner, &local_identity).unwrap();
    let original = replica.local_file("Report.txt");

    let file = replica.tree.remove("Report.txt").unwrap();
    replica.tree.insert("report.txt".to_owned(), file);
    let report = replica.scan(&scanner, &local_identity).unwrap();

    assert_eq!(report.file_changes, 1);
    assert_eq!(report.tombstones_created, 0);
    assert_eq!(replica.store.local_heads(replica.keys.group_id()).len(), 1);
    let renamed = replica.local_file("report.txt");
    assert_eq!(renamed.file_id, original.file_id);
    assert_eq!(renamed.version.counter(local_device), 2);
    assert_eq!(renamed.relative_path.as_str(), "report.txt");
}

#[test]
fn middle_insertions_reuse_existing_fastcdc_chunks() {
    let mut replica = Replica::new();
    let original = (0..64 * 1024).map(|index| ((index * 31) % 251) as u8).collect::<Vec<_>>();
    replica.write("large.bin", &original);
    let scanner = FullScanner::new(ChunkingConfig::new(64, 256, 1024).unwrap(), 3).unwrap();
    let identity = replica.register(1);
    replica.scan(&scanner, &identity).unwrap();

    let mut edited = original;
    edited.splice(32 * 1024..32 * 1024, b"inserted bytes".iter().copied());
    replica.write("large.bin", &edited);
    let report = replica.scan(&scanner, &identity).unwrap();

    assert_eq!(report.file_changes, 1);
    assert!(report.chunks_stored > 0);
    assert!(report.chunks_reused > 0);
    let manifest = replica.local_file("large.bin");
    assert_eq!(replica.reconstruct(&manifest), edited);
}

#[test]
fn unstable_files_are_read_again_and_then_refused() {
    assert_eq!(
        FullScanner::new(ChunkingConfig::default(), 0),
        Err(ScanError::InvalidMaximumReadAttempts)
    );
    let scanner = FullScanner::new(ChunkingConfig::default(), 1).unwrap();
    let time = time_from_unix_milliseconds(1);
    let before = FileSnapshot { length: 1, modified_at: time };
    let after = FileSnapshot { length: 2, modified_at: time };
    let mut reading = Reading::new();
    reading.next_attempt();
    assert!(matches!(
        scanner.judge_attempt(reading, before, after, Some(after)),
        Err(ScanError::FileChangedDuringRead { attempts: 1 })
    ));
    let patient = FullScanner::new(ChunkingConfig::default(), 2).unwrap();
    let mut reading = Reading::new();
    reading.next_attempt();
    assert!(matches!(
        patient.judge_attempt(reading, before, after, Some(after)),
        Ok(Attempt::Again(_))
    ));
}

#[test]
fn incomplete_discovery_never_infers_deletions() {
    let mut replica = Replica::new();
    replica.write("removed.txt", b"keep its live head");
    replica.scan_as(1).unwrap();
    replica.tree.remove("removed.txt");
    replica.write("Straße.txt", b"first");
    replica.write("STRASSE.txt", b"second");

    assert!(matches!(replica.scan_as(1), Err(ScanError::PathCollision { .. })));
    assert!(matches!(replica.local_record("removed.txt"), ChangeRecord::File(_)));
    assert_eq!(replica.changes(), 1);
}

#[test]
fn outbound_batches_include_signed_provenance_and_paginate() {
    let mut replica = Replica::new();
    replica.write("a.txt", b"first");
    replica.write("b.txt", b"second");
    let author = replica.register(1);
    replica.scan(&FullScanner::default(), &author).unwrap();

    let limits = ProtocolLimits::default();
    let first = replica.batch(0, 1).unwrap();
    assert_eq!(first.records.len(), 1);
    assert!(first.has_more);
    let first_validated = orbit::batch::validate_change_batch(&first, limits).unwrap();
    assert_eq!(first_validated.records.len(), 1);
    assert_eq!(
        first_validated.records[0].authorization.author_device_id,
        author.device_id()
    );

    let second = replica.batch(first_validated.records[0].sequence, 1).unwrap();
    assert_eq!(second.records.len(), 1);
    assert!(!second.has_more);
    assert_eq!(second.high_watermark, first.high_watermark);
    orbit::batch::validate_change_batch(&second, limits).unwrap();
}

#[test]
fn outbound_batches_refuse_unsigned_changes() {
    let mut replica = Replica::new();
    let record = new_file("legacy.txt", 1, 0, Vec::new());
    let sealed = seal_record(&replica.keys, &record, [1; 24]).unwrap();
    replica
        .store
        .commit_change(
            &replica.keys,
            record.revision_id(),
            sealed.content_id,
            &sealed.bytes,
            &Vec::new(),
            None,
            1,
        )
        .unwrap();
    replica.objects.insert(sealed.content_id, sealed.bytes);

    assert!(matches!(
        replica.batch(0, 10),
        Err(ChangeBatchBuildError::UnsignedChange { revision_id })
            if revision_id == record.revision_id()
    ));
}

#[test]
fn signed_change_pages_wait_for_resumable_objects_before_advancing() {
    let mut source = Replica::new();
    source.write("payload.bin", b"peer transfer payload");
    let source_identity = source.register(1);
    source.scan(&FullScanner::default(), &source_identity).unwrap();
    let batch = source.batch(0, 10).unwrap();
    let manifest = source.local_file("payload.bin");
    let chunk_id = manifest.chunks[0].content_id;
    let encrypted_chunk = source.objects[&chunk_id].clone();

    let mut receiver = Replica::new();
    let group_id = receiver.keys.group_id();
    let peer = source_identity.device_id();
    receiver.register(1);
    let blocked = receiver.admit_batch(&source_identity, &batch).unwrap();
    assert_eq!(
        blocked,
        ChangeBatchAdmissionReport {
            records_committed: 0,
            records_replayed: 0,
            missing_content_ids: vec![chunk_id],
            peer_high_watermark: 0,
        }
    );
    assert_eq!(
        receiver.store.pending_object_requests(group_id, peer, 10)[0].content_id,
        chunk_id
    );

    let size = encrypted_chunk.len() as u64;
    let name = incoming_transfer_name(group_id, peer, chunk_id);
    receiver.store.begin_object_transfer(group_id, peer, 41, chunk_id, size, false).unwrap();
    let split = encrypted_chunk.len() / 2;
    receiver
        .store
        .append_object_transfer(
            group_id,
            peer,
            chunk_id,
            0,
            &encrypted_chunk[..split],
            Some(0),
        )
        .unwrap();
    receiver.transfers.insert(name.clone(), encrypted_chunk[..split].to_vec());

    assert!(receiver
        .store
        .recover_incoming_object_transfers(&vec![TransferFile::Regular {
            size: split as u64,
        }])
        .is_empty());
    receiver.store.begin_object_transfer(group_id, peer, 42, chunk_id, size, false).unwrap();
    receiver
        .store
        .append_object_transfer(
            group_id,
            peer,
            chunk_id,
            split as u64,
            &encrypted_chunk[split..],
            Some(split as u64),
        )
        .unwrap();
    receiver.transfers.get_mut(&name).unwrap().extend_from_slice(&encrypted_chunk[split..]);
    receiver
        .store
        .complete_object_transfer(
            &receiver.keys,
            peer,
            chunk_id,
            receiver.transfers.get(&name).map(Vec::as_slice),
            None,
            50,
        )
        .unwrap();
    receiver.objects.insert(chunk_id, encrypted_chunk);

    let admitted = receiver.admit_batch(&source_identity, &batch).unwrap();
    assert_eq!(admitted.records_committed, 1);
    assert_eq!(admitted.peer_high_watermark, batch.high_watermark);
    assert!(admitted.missing_content_ids.is_empty());

    let replayed = receiver.admit_batch(&source_identity, &batch).unwrap();
    assert_eq!(replayed.records_replayed, 1);
    assert_eq!(replayed.peer_high_watermark, batch.high_watermark);
    assert_eq!(receiver.changes(), 1);
}

#[test]
fn batches_must_name_the_revisions_of_their_manifests() {
    let mut source = Replica::new();
    source.write("a.txt", b"a");
    let source_identity = source.register(1);
    source.scan(&FullScanner::default(), &source_identity).unwrap();
    let mut batch = source.batch(0, 10).unwrap();
    batch.records[0].revision_id = vec![9; 16];
    let mut receiver = Replica::new();
    receiver.register(1);
    assert!(matches!(
        receiver.admit_batch(&source_identity, &batch),
        Err(ChangeBatchAdmissionError::RevisionMismatch { .. })
    ));
    assert_eq!(receiver.changes(), 0);
}

#[test]
fn scanner_rejects_unknown_and_revoked_identities_before_mutation() {
    let mut replica = Replica::new();
    let group_id = replica.keys.group_id();
    replica.write("blocked.txt", b"must not be admitted");
    let identity = identity(9);

    assert!(matches!(
        replica.scan(&FullScanner::default(), &identity),
        Err(ScanError::Store(StoreError::UnknownGroupMember { device_id }))
            if device_id == identity.device_id()
    ));
    assert!(replica.store.local_heads(group_id).is_empty());
    assert_eq!(replica.changes(), 0);

    replica
        .store
        .add_group_member(group_id, identity.public_key(), MemberRole::Member)
        .unwrap();
    replica.store.revoke_group_member(group_id, identity.device_id());
    assert!(matches!(
        replica.scan(&FullScanner::default(), &identity),
        Err(ScanError::Store(StoreError::MemberRevoked { device_id }))
            if device_id == identity.device_id()
    ));
    assert!(replica.store.local_heads(group_id).is_empty());
}

#[test]
fn incoming_apply_rejects_unknown_revoked_and_invalid_authors_before_mutation() {
    let mut replica = Replica::new();
    let group_id = replica.keys.group_id();
    let author = identity(8);
    let record = new_file("blocked.txt", 8, 0, Vec::new());
    let content_id = replica.accept_record(&record);
    let authorization = author.authorize_change(group_id, record.revision_id(), content_id);

    assert!(matches!(
        replica.apply(content_id, authorization),
        Err(ApplyError::Store(StoreError::UnknownGroupMember { device_id }))
            if device_id == author.device_id()
    ));
    replica
        .store
        .add_group_member(group_id, author.public_key(), MemberRole::Member)
        .unwrap();
    let mut invalid_signature = *authorization.signature.as_bytes();
    invalid_signature[0] ^= 0x01;
    let invalid_authorization = ChangeAuthorization {
        author_device_id: author.device_id(),
        signature: ChangeSignature::from_bytes(invalid_signature),
    };
    assert!(matches!(
        replica.apply(content_id, invalid_authorization),
        Err(ApplyError::Store(StoreError::Identity(IdentityError::InvalidSignature)))
    ));
    replica.store.revoke_group_member(group_id, author.device_id());
    assert!(matches!(
        replica.apply(content_id, authorization),
        Err(ApplyError::Store(StoreError::MemberRevoked { device_id }))
            if device_id == author.device_id()
    ));

    assert!(replica.tree.is_empty());
    assert!(replica.head(record.relative_path()).is_none());
    assert!(replica.is_idle());
    assert!(replica
        .store
        .change_authentication(group_id, record.revision_id())
        .is_none());
}

#[test]
fn chunks_are_sealed_under_the_nonce_that_is_given() {
    let keys = keys();
    let mut store = Store::new();
    let mut reading = Reading::new();
    let payload = ChunkPayload::new(0, b"chunk".to_vec(), &keys).unwrap();
    let bytes = reading
        .ingest_chunk_with(&payload, &keys, &mut store, None, [7; 24], 1)
        .unwrap()
        .expect("a new chunk is stored");
    let object = EncryptedObject::from_bytes(&bytes).unwrap();
    assert_eq!(object.nonce(), &[7; 24]);
    assert_eq!(keys.open_chunk(payload.content_id(), &object).unwrap(), b"chunk");
    assert_eq!(reading.chunks_stored, 1);
    assert_eq!(
        reading
            .ingest_chunk_with(&payload, &keys, &mut store, Some(&bytes), [8; 24], 2)
            .unwrap(),
        None
    );
    assert_eq!(reading.chunks_reused, 1);
    assert_eq!(reading.chunks.len(), 2);
}

#[test]
fn a_file_that_is_unchanged_has_no_further_revision() {
    let keys = keys();
    let device = identity(1);
    let path = RelativePath::new("notes.txt").unwrap();
    let read = |size: u64| IngestedFile {
        plaintext_bytes: size,
        modified_at_unix_ms: 5,
        chunks: Vec::new(),
        chunks_stored: 0,
        chunks_reused: 0,
    };
    let first = next_file_record(
        None,
        &path,
        read(0),
        device.device_id(),
        FileId::from_u128(1),
        RevisionId::from_u128(2),
    )
    .unwrap()
    .unwrap();
    assert_eq!(first.file_id(), FileId::from_u128(1));
    assert_eq!(first.revision_id(), RevisionId::from_u128(2));
    assert_eq!(first.version().counter(device.device_id()), 1);
    assert!(revise_file(Some(&first), &path, read(0), &device, &keys).unwrap().is_none());

    let mut later = read(0);
    later.modified_at_unix_ms = 6;
    let (second, sealed) =
        revise_file(Some(&first), &path, later, &device, &keys).unwrap().unwrap();
    assert_eq!(second.file_id(), FileId::from_u128(1));
    assert_ne!(second.revision_id(), first.revision_id());
    assert_eq!(second.version().counter(device.device_id()), 2);
    let plaintext = encode_change_record(&second).unwrap();
    assert_eq!(sealed.content_id, keys.identify_manifest(&plaintext));
    let object = EncryptedObject::from_bytes(&sealed.bytes).unwrap();
    assert_eq!(keys.open_manifest(sealed.content_id, &object).unwrap(), plaintext);
    let again = seal_fresh_record(&keys, &second).unwrap();
    assert_eq!(again.content_id, sealed.content_id);
    assert_ne!(again.bytes, sealed.bytes);
}

#[test]
fn a_file_that_is_gone_leaves_a_tombstone() {
    let keys = keys();
    let device = identity(1);
    let file = new_file("notes.txt", 1, 0, Vec::new());
    let head = LocalHead {
        path_id: keys.identify_path(file.relative_path()),
        content_id: ContentId::from_bytes([1; 32]),
        kind: ChangeRecordKind::File,
    };
    let tombstone = next_tombstone(
        head,
        &file,
        device.device_id(),
        RevisionId::from_u128(9),
        time_from_unix_milliseconds(1234),
    )
    .unwrap();
    assert_eq!(tombstone.kind(), ChangeRecordKind::Tombstone);
    assert_eq!(tombstone.file_id(), file.file_id());
    assert_eq!(tombstone.revision_id(), RevisionId::from_u128(9));
    let now = time_from_unix_milliseconds(1235);
    assert!(matches!(
        bury_file(head, &tombstone, &device, &keys, now),
        Err(ScanError::LocalHeadKindMismatch { .. })
    ));
    let (fresh, sealed) = bury_file(head, &file, &device, &keys, now).unwrap();
    assert_ne!(fresh.revision_id(), file.revision_id());
    assert_eq!(
        sealed.content_id,
        keys.identify_manifest(&encode_change_record(&fresh).unwrap())
    );
}

#[test]
fn a_lost_conflict_copy_is_made_again() {
    let mut replica = Replica::new();
    replica.write("report.txt", b"common base");
    replica.scan_as(1).unwrap();
    let base = replica.local_file("report.txt");
    replica.write("report.txt", b"canonical local edit");
    replica.scan_as(1).unwrap();
    let chunk = replica.accept_chunk(b"losing incoming edit");
    let mut version = base.version.clone();
    version.increment(identity(2).device_id()).unwrap();
    let incoming = incoming_file(&base, version, b"losing incoming edit", chunk);
    let target = replica.accept_record(&incoming);
    let first = replica.apply_as(target, &incoming, 2).unwrap();
    let ApplyOutcome::KeptBoth { conflict_path, .. } = &first else {
        panic!("expected keep-both outcome");
    };
    let copy = replica.head(conflict_path).unwrap();
    assert!(replica.objects.remove(&copy.content_id).is_some());
    assert_eq!(replica.apply_as(target, &incoming, 2).unwrap(), first);
    assert!(replica.store.has_object(replica.keys.group_id(), copy.content_id, true));
}

#[test]
fn a_change_needs_its_own_objects_and_those_of_the_head() {
    let mut replica = Replica::new();
    replica.write("report.txt", b"local");
    replica.write("other.txt", b"other");
    replica.scan_as(1).unwrap();
    let local = replica.local_file("report.txt");
    let head = replica.head(&local.relative_path).unwrap();
    let chunk = replica.accept_chunk(b"incoming");
    let mut version = VersionVector::default();
    version.increment(identity(2).device_id()).unwrap();
    let incoming = incoming_file(&local, version, b"incoming", chunk);
    let target = replica.accept_record(&incoming);
    let ChangeRecord::File(manifest) = &incoming else {
        panic!("expected file manifest");
    };

    let bare = needed_objects(target, &replica.keys, &replica.store, &ObjectFiles::new());
    assert_eq!(bare, vec![target]);

    let needs = needed_objects(target, &replica.keys, &replica.store, &replica.files());
    let copies: Vec<ContentId> = [manifest, &local]
        .into_iter()
        .map(|source| {
            let copy = ChangeRecord::File(conflict_record(source, &replica.keys).unwrap());
            seal_record(&replica.keys, &copy, [7; 24]).unwrap().content_id
        })
        .collect();
    assert_eq!(
        needs,
        vec![
            target,
            manifest.chunks[0].content_id,
            copies[0],
            head.content_id,
            local.chunks[0].content_id,
            copies[1],
        ]
    );
}

const NOTHING: Draw = Draw { token: None, nonce: None };

fn conflicting_change(replica: &mut Replica, path: &str) -> (ContentId, ChangeRecord) {
    replica.write(path, b"local");
    replica.scan_as(1).unwrap();
    let local = replica.local_file(path);
    let chunk = replica.accept_chunk(b"incoming");
    let mut version = VersionVector::default();
    version.increment(identity(2).device_id()).unwrap();
    let incoming = incoming_file(&local, version, b"incoming", chunk);
    (replica.accept_record(&incoming), incoming)
}

impl Replica {
    fn first_step(
        &mut self,
        target: ContentId,
        record: &ChangeRecord,
        draw: &Draw,
    ) -> (Result<ApplyStep, ApplyError>, Option<SealedRecord>) {
        let author = self.register(2);
        let authorization =
            author.authorize_change(self.keys.group_id(), record.revision_id(), target);
        let files = self.needed_files(target);
        let now = self.now();
        let mut made = None;
        let step = IncomingApplier.apply_with(
            target,
            authorization,
            &self.keys,
            &mut self.store,
            &files,
            draw,
            now,
            &mut made,
        );
        (step, made)
    }
}

#[test]
fn chance_is_asked_only_where_a_file_is_staged_or_a_copy_is_sealed() {
    let mut replica = Replica::new();
    let (target, incoming) = conflicting_change(&mut replica, "report.txt");
    let (step, made) = replica.first_step(target, &incoming, &NOTHING);
    assert!(matches!(step, Err(ApplyError::Crypto(CryptoError::Randomness))));
    assert!(made.is_none());

    let sealed_only = Draw { token: None, nonce: Some([3; 24]) };
    let (step, made) = replica.first_step(target, &incoming, &sealed_only);
    assert!(matches!(step, Err(ApplyError::Randomness)));
    let copy = made.unwrap();
    assert_eq!(copy.bytes, {
        let ChangeRecord::File(manifest) = &incoming else {
            panic!("expected file manifest");
        };
        let local = replica.local_file("report.txt");
        let sources = [&local, manifest];
        let sealed: Vec<SealedRecord> = sources
            .into_iter()
            .map(|source| {
                let record = ChangeRecord::File(conflict_record(source, &replica.keys).unwrap());
                seal_record(&replica.keys, &record, [3; 24]).unwrap()
            })
            .collect();
        sealed.into_iter().find(|sealed| sealed.content_id == copy.content_id).unwrap().bytes
    });

    let whole = Draw { token: Some([0xab; 16]), nonce: Some([3; 24]) };
    let (step, _) = replica.first_step(target, &incoming, &whole);
    let Ok(ApplyStep::Materialize { job, .. }) = step else {
        panic!("expected a job");
    };
    assert_eq!(
        job.pending.stage_name.as_deref(),
        Some(".orbit-stage-abababababababababababababababab.tmp")
    );
}

#[test]
fn missing_chunks_are_named_without_asking_chance() {
    let mut replica = Replica::new();
    let (target, incoming) = conflicting_change(&mut replica, "report.txt");
    let chunks = incoming.chunk_ids();
    replica.objects.remove(&chunks[0]);
    let heads = replica.store.local_heads(replica.keys.group_id());
    let (step, made) = replica.first_step(target, &incoming, &NOTHING);
    assert!(matches!(
        step,
        Ok(ApplyStep::Done(ApplyOutcome::MissingObjects { content_ids })) if content_ids == chunks
    ));
    assert!(made.is_none());
    assert_eq!(replica.store.local_heads(replica.keys.group_id()), heads);
    assert!(replica.store.pending_materializations(replica.keys.group_id()).unwrap().is_empty());
}

#[test]
fn a_scan_counts_what_it_commits_and_a_second_one_finds_nothing() {
    let mut replica = Replica::new();
    replica.write("kept.txt", b"kept");
    replica.write("gone.txt", b"gone");
    replica.scan_as(1).unwrap();
    replica.tree.remove("gone.txt");
    replica.write("new.txt", b"new");
    let entries = replica.store.changes.len();
    let report = replica.scan_as(1).unwrap();
    assert_eq!(report.files_discovered, report.file_changes + report.files_unchanged);
    assert_eq!((report.file_changes, report.files_unchanged), (1, 1));
    assert_eq!(report.tombstones_created, 1);
    assert_eq!(replica.store.changes.len(), entries + report.changes_committed());

    let heads = replica.store.local_heads(replica.keys.group_id());
    let second = replica.scan_as(1).unwrap();
    assert_eq!(second.changes_committed(), 0);
    assert_eq!(second.chunks_stored, 0);
    assert_eq!(second.files_unchanged, second.files_discovered);
    assert_eq!(second.files_discovered, report.files_discovered);
    assert_eq!(replica.store.changes.len(), entries + 2);
    assert_eq!(replica.store.local_heads(replica.keys.group_id()), heads);
}

#[test]
fn scanned_chunks_open_to_the_bytes_of_the_file() {
    let mut replica = Replica::new();
    let scanner = FullScanner::new(ChunkingConfig::new(64, 256, 1024).unwrap(), 3).unwrap();
    let local_identity = replica.register(1);
    let mut content: Vec<u8> = (0..20_000u32).map(|index| ((index * 31) % 251) as u8).collect();
    for _ in 0..3 {
        replica.write("large.bin", &content);
        replica.scan(&scanner, &local_identity).unwrap();
        let manifest = replica.local_file("large.bin");
        assert!(manifest.chunks.len() > 1);
        let mut parts: Vec<u8> = Vec::new();
        for chunk in &manifest.chunks {
            let object =
                EncryptedObject::from_bytes(&replica.objects[&chunk.content_id]).unwrap();
            parts.extend(replica.keys.open_chunk(chunk.content_id, &object).unwrap());
        }
        assert_eq!(parts, content);
        let files = replica.files();
        let assembled = orbit::loading::assemble_file(
            &manifest,
            &replica.keys,
            &mut replica.store,
            &files,
        );
        assert_eq!(assembled.unwrap(), content);
        content.splice(9_000..9_000, b"inserted bytes".iter().copied());
    }
}
