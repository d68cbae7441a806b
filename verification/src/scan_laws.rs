//! What a whole scan does, and what a second one finds.
use vstd::prelude::*;

use crate::bytes::joined;
use crate::catalog::{HeadRow, ObjectKey, ObjectRow, PathKey};
use crate::discovery::lost_heads;
use crate::envelope::{envelope_bytes, ObjectKind};
use crate::history::{
    change_of, head_at, head_keys, heads_of, local_change_committed, LocalHead,
};
use crate::identity::AuthorizationView;
use crate::ids::{ContentId, DeviceId, GroupId, PathId};
use crate::keys::KeysView;
use crate::opening::{opens_to, sealed_object, SealedView};
use crate::order::{lemma_sorted, ordered_ids, sorted, SortKey};
use crate::path::PathForms;
use crate::placement::Timestamp;
use crate::record::{ChangeRecordKind, ChunkRef, ManifestView, RecordView, TombstoneView};
use crate::scan::{
    chunk_ingested, chunk_opens_to, is_fresh_revision, is_fresh_tombstone, is_unchanged,
    local_record, local_record_committed, with_file, ChunkFate, FileOutcome, IngestedView,
    ScanReport,
};
use crate::store::{
    after_look, demoted, is_present, size_problem, verified_object, with_authentication,
    with_object, StoreView,
};
use crate::sync_laws::law_committed_record_is_loaded;
use crate::table::{lemma_lookup, lemma_lookup_put, lookup, put};

verus! {

/// What a scan works on: the catalog, and the files of the objects.
pub struct World {
    pub store: StoreView,
    pub files: Seq<(ContentId, Seq<u8>)>,
}

/// An object is in the catalog and has its file.
pub open spec fn holds(world: World, group_id: GroupId, content_id: ContentId) -> bool {
    is_present(world.store, group_id, content_id, lookup(world.files, content_id) is Some)
}

/// One chunk of a file, the nonce under which it is sealed where that has to be done, and when.
pub struct ChunkIntake {
    pub content_id: ContentId,
    pub plaintext: Seq<u8>,
    pub nonce: Seq<u8>,
    pub now: i64,
}

/// What taking in a chunk leaves, and whether the chunk was stored.
pub open spec fn chunk_taken(world: World, keys: KeysView, chunk: ChunkIntake) -> Option<
    (World, bool),
> {
    let (store, fate) = chunk_ingested(
        world.store,
        keys,
        chunk.content_id,
        chunk.plaintext,
        lookup(world.files, chunk.content_id),
        chunk.nonce,
        chunk.now,
    );
    match fate {
        Err(_) => None,
        Ok(ChunkFate::Reused) => Some((World { store, files: world.files }, false)),
        Ok(ChunkFate::Stored(bytes)) => if chunk_opens_to(
            keys,
            chunk.content_id,
            bytes,
            chunk.plaintext,
        ) {
            Some((World { store, files: put(world.files, chunk.content_id, bytes) }, true))
        } else {
            None
        },
    }
}

/// The chunk has the identifier of its plaintext, and a size that a manifest can hold.
pub open spec fn is_identified(keys: KeysView, chunk: ChunkIntake) -> bool {
    &&& chunk.content_id == keys.content_id(ObjectKind::Chunk, chunk.plaintext)
    &&& chunk.plaintext.len() <= u32::MAX
}

/// The chunks as a manifest names them.
pub open spec fn refs_of(chunks: Seq<ChunkIntake>) -> Seq<ChunkRef> {
    Seq::new(
        chunks.len(),
        |i: int|
            ChunkRef {
                content_id: chunks[i].content_id,
                plaintext_size: chunks[i].plaintext.len() as u32,
            },
    )
}

/// The plaintexts of the chunks.
pub open spec fn plaintexts_of(chunks: Seq<ChunkIntake>) -> Seq<Seq<u8>> {
    Seq::new(chunks.len(), |i: int| chunks[i].plaintext)
}

/// What taking in chunks leaves, and how many were stored and reused.
pub struct Intake {
    pub world: World,
    pub stored: nat,
    pub reused: nat,
}

/// What taking in the chunks of a file leaves.
pub open spec fn chunks_taken(world: World, keys: KeysView, chunks: Seq<ChunkIntake>) -> Option<
    Intake,
>
    decreases chunks.len(),
{
    if chunks.len() == 0 {
        Some(Intake { world, stored: 0, reused: 0 })
    } else {
        match chunks_taken(world, keys, chunks.drop_last()) {
            None => None,
            Some(before) => match chunk_taken(before.world, keys, chunks.last()) {
                None => None,
                Some((after, true)) => Some(
                    Intake { world: after, stored: before.stored + 1, ..before },
                ),
                Some((after, false)) => Some(
                    Intake { world: after, reused: before.reused + 1, ..before },
                ),
            },
        }
    }
}

/// The sealed form of a record that a scan enters into the log, its signature, and when it is
/// entered.
pub struct Entry {
    pub sealed: SealedView,
    pub authorization: AuthorizationView,
    pub now: i64,
}

/// What entering a record into the log leaves. The record is a new one: nothing in the log has
/// its revision, and no object its identifier.
pub open spec fn record_entered(
    world: World,
    keys: KeysView,
    record: RecordView,
    path_id: PathId,
    expected_previous: Option<ContentId>,
    entry: Entry,
) -> Option<World> {
    let (store, problem) = local_record_committed(
        world.store,
        keys,
        record,
        entry.sealed.content_id,
        entry.sealed.bytes,
        path_id,
        expected_previous,
        entry.authorization,
        None,
        entry.now,
    );
    if problem is None && opens_to(keys, entry.sealed, record) && lookup(
        world.files,
        entry.sealed.content_id,
    ) is None && change_of(world.store.changes, keys.group_id, record.revision_id()) is None {
        Some(
            World {
                store,
                files: put(world.files, entry.sealed.content_id, entry.sealed.bytes),
            },
        )
    } else {
        None
    }
}

/// One file of the folder as a scan finds it: its path, the chunks that were taken in by attempts
/// to read it that were given up, those of the attempt that was not, what was read, and the
/// revision that is entered where the file has changed.
pub struct Visit {
    pub path: PathForms,
    pub given_up: Seq<ChunkIntake>,
    pub chunks: Seq<ChunkIntake>,
    pub file: IngestedView,
    pub revision: Option<(ManifestView, Entry)>,
}

impl Visit {
    /// The chunks that were taken in.
    pub open spec fn intakes(self) -> Seq<ChunkIntake> {
        self.given_up + self.chunks
    }

    /// What was read are the chunks of the last attempt, in their order, each under the identifier
    /// of its plaintext.
    pub open spec fn tells_the_file(self, keys: KeysView) -> bool {
        &&& self.file.chunks == refs_of(self.chunks)
        &&& forall|i: int|
            0 <= i < self.chunks.len() ==> is_identified(keys, #[trigger] self.chunks[i])
        &&& forall|i: int|
            0 <= i < self.given_up.len() ==> is_identified(keys, #[trigger] self.given_up[i])
    }

    /// The bytes of the file.
    pub open spec fn content(self) -> Seq<u8> {
        joined(plaintexts_of(self.chunks))
    }

    /// What became of the file.
    pub open spec fn outcome(self) -> FileOutcome {
        FileOutcome {
            changed: self.revision is Some,
            plaintext_bytes: self.file.plaintext_bytes,
            chunks_stored: self.file.chunks_stored,
            chunks_reused: self.file.chunks_reused,
        }
    }
}

/// The record of the head of a path, none where the path has no head; and whether it loads.
pub open spec fn record_before(world: World, keys: KeysView, path_id: PathId) -> Option<
    Option<RecordView>,
> {
    match head_at(world.store, keys.group_id, path_id) {
        None => Some(None),
        Some(head) => match local_record(world.store, keys, world.files, head).1 {
            Ok(record) => Some(Some(record)),
            Err(_) => None,
        },
    }
}

/// What the visit of one file leaves.
#[verifier::opaque]
pub open spec fn file_visited(
    world: World,
    keys: KeysView,
    device_id: DeviceId,
    visit: Visit,
) -> Option<World> {
    let path_id = keys.path_id(visit.path.comparison_key);
    match (record_before(world, keys, path_id), chunks_taken(world, keys, visit.intakes())) {
        (Some(previous), Some(intake)) => if !visit.tells_the_file(keys) || visit.file.chunks_stored
            != intake.stored || visit.file.chunks_reused != intake.reused {
            None
        } else if previous is Some && is_unchanged(previous->0, visit.path, visit.file) {
            if visit.revision is None {
                Some(intake.world)
            } else {
                None
            }
        } else {
            match visit.revision {
                None => None,
                Some((manifest, entry)) => if is_fresh_revision(
                    previous,
                    visit.path,
                    visit.file,
                    device_id,
                    manifest,
                ) {
                    record_entered(
                        intake.world,
                        keys,
                        RecordView::File(manifest),
                        path_id,
                        match head_at(world.store, keys.group_id, path_id) {
                            Some(head) => Some(head.content_id),
                            None => None,
                        },
                        entry,
                    )
                } else {
                    None
                }
            }
        },
        _ => None,
    }
}

/// How far a scan has come.
pub struct Progress {
    pub world: World,
    pub report: ScanReport,
    pub found: Seq<PathId>,
}

/// How far a scan has come once it has visited the given files.
pub open spec fn files_visited(
    start: Progress,
    keys: KeysView,
    device_id: DeviceId,
    visits: Seq<Visit>,
) -> Option<Progress>
    decreases visits.len(),
{
    if visits.len() == 0 {
        Some(start)
    } else {
        match files_visited(start, keys, device_id, visits.drop_last()) {
            None => None,
            Some(before) => match file_visited(before.world, keys, device_id, visits.last()) {
                None => None,
                Some(world) => Some(
                    Progress {
                        world,
                        report: with_file(before.report, visits.last().outcome()),
                        found: before.found.push(
                            keys.path_id(visits.last().path.comparison_key),
                        ),
                    },
                ),
            },
        }
    }
}

/// The tombstone of a file that was found gone, when that was, and how it is entered.
pub struct Burial {
    pub tombstone: TombstoneView,
    pub at: Timestamp,
    pub entry: Entry,
}

/// What the tombstone for a head leaves.
#[verifier::opaque]
pub open spec fn head_buried(
    world: World,
    keys: KeysView,
    device_id: DeviceId,
    head: LocalHead,
    burial: Burial,
) -> Option<World> {
    match local_record(world.store, keys, world.files, head).1 {
        Ok(RecordView::File(manifest)) => if is_fresh_tombstone(
            manifest,
            device_id,
            burial.at,
            burial.tombstone,
        ) {
            record_entered(
                world,
                keys,
                RecordView::Tombstone(burial.tombstone),
                head.path_id,
                Some(head.content_id),
                burial.entry,
            )
        } else {
            None
        },
        _ => None,
    }
}

/// How far a scan has come once the given heads have got their tombstones.
pub open spec fn heads_buried(
    start: Progress,
    keys: KeysView,
    device_id: DeviceId,
    heads: Seq<LocalHead>,
    burials: Seq<Burial>,
) -> Option<Progress>
    decreases heads.len(),
{
    if heads.len() != burials.len() {
        None
    } else if heads.len() == 0 {
        Some(start)
    } else {
        match heads_buried(start, keys, device_id, heads.drop_last(), burials.drop_last()) {
            None => None,
            Some(before) => match head_buried(
                before.world,
                keys,
                device_id,
                heads.last(),
                burials.last(),
            ) {
                None => None,
                Some(world) => Some(
                    Progress {
                        world,
                        report: ScanReport {
                            tombstones_created: (before.report.tombstones_created + 1) as usize,
                            ..before.report
                        },
                        found: before.found,
                    },
                ),
            },
        }
    }
}

/// A scan that has discovered so many files and visited none.
pub open spec fn scan_begun(world: World, files_discovered: usize) -> Progress {
    Progress {
        world,
        report: ScanReport {
            files_discovered,
            file_changes: 0,
            files_unchanged: 0,
            tombstones_created: 0,
            chunks_stored: 0,
            chunks_reused: 0,
            plaintext_bytes: 0,
        },
        found: seq![],
    }
}

/// What a scan leaves that visits the given files and buries what it has not found.
pub open spec fn scanned(
    world: World,
    keys: KeysView,
    device_id: DeviceId,
    visits: Seq<Visit>,
    burials: Seq<Burial>,
) -> Option<Progress> {
    match files_visited(scan_begun(world, visits.len() as usize), keys, device_id, visits) {
        None => None,
        Some(progress) => heads_buried(
            progress,
            keys,
            device_id,
            lost_heads(heads_of(progress.world.store, keys.group_id), progress.found),
            burials,
        ),
    }
}

/// The paths of the visited files.
pub open spec fn paths_of(keys: KeysView, visits: Seq<Visit>) -> Seq<PathId> {
    visits.map_values(|visit: Visit| keys.path_id(visit.path.comparison_key))
}

/// What is held stays held, in the same form.
pub open spec fn grows(before: World, after: World, group_id: GroupId) -> bool {
    forall|content_id: ContentId| #[trigger]
        holds(before, group_id, content_id) ==> holds(after, group_id, content_id) && lookup(
            after.files,
            content_id,
        ) == lookup(before.files, content_id)
}

pub proof fn lemma_admitted(
    store: StoreView,
    keys: KeysView,
    kind: ObjectKind,
    content_id: ContentId,
    bytes: Seq<u8>,
    existing: Option<Seq<u8>>,
    now: i64,
    other: ContentId,
    present: bool,
)
    requires
        verified_object(keys, kind, content_id, bytes) is Ok,
        existing is Some ==> size_problem(existing->0) is None,
    ensures
        ({
            let after = with_object(store, keys, kind, content_id, bytes, existing, now);
            &&& after.heads == store.heads
            &&& after.changes == store.changes
            &&& is_present(after, keys.group_id, other, present) == if other == content_id {
                present
            } else {
                is_present(store, keys.group_id, other, present)
            }
        }),
{
    let group_id = keys.group_id;
    let key = ObjectKey { group_id, content_id };
    let other_key = ObjectKey { group_id, content_id: other };
    let lost = demoted(store, group_id, content_id);
    if let Some(row) = lookup(store.objects, key) {
        lemma_lookup_put(store.objects, key, ObjectRow { available: false, ..row }, other_key);
    }
    let (base, object, size) = if existing is Some && verified_object(
        keys,
        kind,
        content_id,
        existing->0,
    ) is Ok {
        (store, verified_object(keys, kind, content_id, existing->0)->Ok_0, existing->0.len())
    } else {
        (
            if existing is Some {
                lost
            } else {
                store
            },
            verified_object(keys, kind, content_id, bytes)->Ok_0,
            bytes.len(),
        )
    };
    assert(object.content_id == content_id);
    lemma_lookup_put(
        base.objects,
        key,
        ObjectRow {
            kind: object.kind,
            format_version: object.format_version,
            encrypted_size: size as u64,
            verified_at_unix_ms: now,
            available: true,
        },
        other_key,
    );
}

proof fn lemma_chunk(world: World, keys: KeysView, chunk: ChunkIntake)
    requires
        chunk_taken(world, keys, chunk) is Some,
    ensures
        ({
            let (after, stored) = chunk_taken(world, keys, chunk)->0;
            &&& grows(world, after, keys.group_id)
            &&& holds(after, keys.group_id, chunk.content_id)
            &&& after.store.heads == world.store.heads
            &&& after.store.changes == world.store.changes
            &&& holds(world, keys.group_id, chunk.content_id) ==> after == world && !stored
        }),
{
    let group_id = keys.group_id;
    let id = chunk.content_id;
    let file = lookup(world.files, id);
    let (after, stored) = chunk_taken(world, keys, chunk)->0;
    if !holds(world, group_id, id) {
        let looked = after_look(world.store, group_id, id, file is Some);
        let bytes = envelope_bytes(
            sealed_object(keys, ObjectKind::Chunk, chunk.nonce, chunk.plaintext),
        );
        lemma_admitted(looked, keys, ObjectKind::Chunk, id, bytes, file, chunk.now, id, true);
        lemma_lookup_put(world.files, id, bytes, id);
        assert forall|other: ContentId| #[trigger] holds(world, group_id, other) implies holds(
            after,
            group_id,
            other,
        ) && lookup(after.files, other) == lookup(world.files, other) by {
            let key = ObjectKey { group_id, content_id: id };
            if let Some(row) = lookup(world.store.objects, key) {
                lemma_lookup_put(
                    world.store.objects,
                    key,
                    ObjectRow { available: false, ..row },
                    ObjectKey { group_id, content_id: other },
                );
            }
            lemma_admitted(
                looked,
                keys,
                ObjectKind::Chunk,
                id,
                bytes,
                file,
                chunk.now,
                other,
                true,
            );
            lemma_lookup_put(world.files, id, bytes, other);
        }
    }
}

pub proof fn lemma_chunks(world: World, keys: KeysView, chunks: Seq<ChunkIntake>)
    requires
        chunks_taken(world, keys, chunks) is Some,
    ensures
        ({
            let intake = chunks_taken(world, keys, chunks)->0;
            &&& grows(world, intake.world, keys.group_id)
            &&& intake.world.store.heads == world.store.heads
            &&& intake.world.store.changes == world.store.changes
            &&& forall|i: int|
                0 <= i < chunks.len() ==> holds(
                    intake.world,
                    keys.group_id,
                    (#[trigger] chunks[i]).content_id,
                )
        }),
    decreases chunks.len(),
{
    if chunks.len() > 0 {
        let front = chunks.drop_last();
        lemma_chunks(world, keys, front);
        let before = chunks_taken(world, keys, front)->0;
        lemma_chunk(before.world, keys, chunks.last());
        let after = chunks_taken(world, keys, chunks)->0.world;
        assert forall|i: int| 0 <= i < chunks.len() implies holds(
            after,
            keys.group_id,
            (#[trigger] chunks[i]).content_id,
        ) by {
            if i < front.len() {
                assert(front[i] == chunks[i]);
                assert(holds(before.world, keys.group_id, front[i].content_id));
            }
        }
        assert forall|id: ContentId| #[trigger] holds(world, keys.group_id, id) implies holds(
            after,
            keys.group_id,
            id,
        ) && lookup(after.files, id) == lookup(world.files, id) by {
            assert(holds(before.world, keys.group_id, id));
        }
    }
}

proof fn lemma_held_chunks(world: World, keys: KeysView, chunks: Seq<ChunkIntake>)
    requires
        forall|i: int|
            0 <= i < chunks.len() ==> holds(
                world,
                keys.group_id,
                (#[trigger] chunks[i]).content_id,
            ),
    ensures
        chunks_taken(world, keys, chunks) == Some(
            Intake { world, stored: 0, reused: chunks.len() },
        ),
    decreases chunks.len(),
{
    if chunks.len() > 0 {
        let front = chunks.drop_last();
        assert forall|i: int| 0 <= i < front.len() implies holds(
            world,
            keys.group_id,
            (#[trigger] front[i]).content_id,
        ) by {
            assert(front[i] == chunks[i]);
        }
        lemma_held_chunks(world, keys, front);
        assert(chunks[chunks.len() - 1] == chunks.last());
        assert(holds(world, keys.group_id, chunks.last().content_id));
    }
}

proof fn lemma_entered(
    world: World,
    keys: KeysView,
    record: RecordView,
    path_id: PathId,
    expected_previous: Option<ContentId>,
    entry: Entry,
)
    requires
        record_entered(world, keys, record, path_id, expected_previous, entry) is Some,
    ensures
        ({
            let after = record_entered(
                world,
                keys,
                record,
                path_id,
                expected_previous,
                entry,
            )->0;
            &&& grows(world, after, keys.group_id)
            &&& after.store.changes.len() == world.store.changes.len() + 1
            &&& head_at(after.store, keys.group_id, path_id) == Some(
                LocalHead { path_id, content_id: entry.sealed.content_id, kind: record.kind() },
            )
            &&& forall|other: PathId|
                other != path_id ==> #[trigger] head_at(after.store, keys.group_id, other)
                    == head_at(world.store, keys.group_id, other)
        }),
{
    let group_id = keys.group_id;
    let id = entry.sealed.content_id;
    let bytes = entry.sealed.bytes;
    let after = record_entered(world, keys, record, path_id, expected_previous, entry)->0;
    let written = with_object(world.store, keys, ObjectKind::Manifest, id, bytes, None, entry.now);
    lemma_admitted(
        world.store,
        keys,
        ObjectKind::Manifest,
        id,
        bytes,
        None,
        entry.now,
        id,
        true,
    );
    let signed = with_authentication(
        written,
        group_id,
        record.revision_id(),
        id,
        entry.authorization,
    );
    let committed = local_change_committed(
        signed,
        group_id,
        path_id,
        expected_previous,
        record.revision_id(),
        record.kind(),
        id,
        ordered_ids(record.chunk_ids()),
    );
    assert(after.store == committed.0);
    assert(signed.changes == world.store.changes);
    assert(signed.heads == world.store.heads);
    assert(after.store.objects == written.objects);
    let row = HeadRow { content_id: id, kind: record.kind() };
    lemma_lookup_put(
        signed.heads,
        PathKey { group_id, path_id },
        row,
        PathKey { group_id, path_id },
    );
    assert forall|other: PathId| other != path_id implies #[trigger] head_at(
        after.store,
        group_id,
        other,
    ) == head_at(world.store, group_id, other) by {
        lemma_lookup_put(
            signed.heads,
            PathKey { group_id, path_id },
            row,
            PathKey { group_id, path_id: other },
        );
    }
    assert forall|other: ContentId| #[trigger] holds(world, group_id, other) implies holds(
        after,
        group_id,
        other,
    ) && lookup(after.files, other) == lookup(world.files, other) by {
        lemma_admitted(
            world.store,
            keys,
            ObjectKind::Manifest,
            id,
            bytes,
            None,
            entry.now,
            other,
            true,
        );
        lemma_lookup_put(world.files, id, bytes, other);
    }
}

proof fn lemma_still_loads(before: World, after: World, keys: KeysView, head: LocalHead)
    requires
        grows(before, after, keys.group_id),
        local_record(before.store, keys, before.files, head).1 is Ok,
    ensures
        local_record(after.store, keys, after.files, head) == (
            after.store,
            local_record(before.store, keys, before.files, head).1,
        ),
{
    assert(holds(before, keys.group_id, head.content_id));
}

/// The head of the path of a file says what was read of it, and the chunks of the file are held.
#[verifier::opaque]
pub open spec fn is_settled(world: World, keys: KeysView, visit: Visit) -> bool {
    &&& record_before(world, keys, keys.path_id(visit.path.comparison_key)) matches Some(
        Some(record),
    )
    &&& is_unchanged(record, visit.path, visit.file)
    &&& forall|i: int|
        0 <= i < visit.file.chunks.len() ==> holds(
            world,
            keys.group_id,
            (#[trigger] visit.file.chunks[i]).content_id,
        )
}

proof fn lemma_stays_settled(before: World, after: World, keys: KeysView, visit: Visit)
    requires
        is_settled(before, keys, visit),
        grows(before, after, keys.group_id),
        head_at(after.store, keys.group_id, keys.path_id(visit.path.comparison_key)) == head_at(
            before.store,
            keys.group_id,
            keys.path_id(visit.path.comparison_key),
        ),
    ensures
        is_settled(after, keys, visit),
{
    reveal(is_settled);
    let path_id = keys.path_id(visit.path.comparison_key);
    let head = head_at(before.store, keys.group_id, path_id)->0;
    lemma_still_loads(before, after, keys, head);
    assert forall|i: int| 0 <= i < visit.file.chunks.len() implies holds(
        after,
        keys.group_id,
        (#[trigger] visit.file.chunks[i]).content_id,
    ) by {
        assert(holds(before, keys.group_id, visit.file.chunks[i].content_id));
    }
}

proof fn lemma_grows_on(one: World, two: World, three: World, group_id: GroupId)
    requires
        grows(one, two, group_id),
        grows(two, three, group_id),
    ensures
        grows(one, three, group_id),
{
    assert forall|id: ContentId| #[trigger] holds(one, group_id, id) implies holds(
        three,
        group_id,
        id,
    ) && lookup(three.files, id) == lookup(one.files, id) by {
        assert(holds(two, group_id, id));
    }
}

proof fn lemma_visit(world: World, keys: KeysView, device_id: DeviceId, visit: Visit)
    requires
        file_visited(world, keys, device_id, visit) is Some,
    ensures
        ({
            let after = file_visited(world, keys, device_id, visit)->0;
            let path_id = keys.path_id(visit.path.comparison_key);
            &&& grows(world, after, keys.group_id)
            &&& is_settled(after, keys, visit)
            &&& after.store.changes.len() == world.store.changes.len() + if visit.revision is Some {
                1int
            } else {
                0
            }
            &&& forall|other: PathId|
                other != path_id ==> #[trigger] head_at(after.store, keys.group_id, other)
                    == head_at(world.store, keys.group_id, other)
        }),
{
    reveal(file_visited);
    reveal(is_settled);
    let group_id = keys.group_id;
    let path_id = keys.path_id(visit.path.comparison_key);
    let after = file_visited(world, keys, device_id, visit)->0;
    let previous = record_before(world, keys, path_id)->0;
    let intake = chunks_taken(world, keys, visit.intakes())->0;
    lemma_chunks(world, keys, visit.intakes());
    assert forall|i: int| 0 <= i < visit.file.chunks.len() implies holds(
        intake.world,
        group_id,
        (#[trigger] visit.file.chunks[i]).content_id,
    ) by {
        let k = visit.given_up.len() + i;
        assert(visit.intakes()[k] == visit.chunks[i]);
        assert(holds(intake.world, group_id, visit.intakes()[k].content_id));
    }
    if let Some((manifest, entry)) = visit.revision {
        let record = RecordView::File(manifest);
        let expected = match head_at(world.store, group_id, path_id) {
            Some(head) => Some(head.content_id),
            None => None,
        };
        lemma_entered(intake.world, keys, record, path_id, expected, entry);
        lemma_grows_on(world, intake.world, after, group_id);
        lemma_lookup_put(
            intake.world.files,
            entry.sealed.content_id,
            entry.sealed.bytes,
            entry.sealed.content_id,
        );
        law_committed_record_is_loaded(
            intake.world.store,
            keys,
            record,
            entry.sealed,
            path_id,
            expected,
            entry.authorization,
            entry.now,
            after.files,
        );
        assert forall|i: int| 0 <= i < visit.file.chunks.len() implies holds(
            after,
            group_id,
            (#[trigger] visit.file.chunks[i]).content_id,
        ) by {
            assert(holds(intake.world, group_id, visit.file.chunks[i].content_id));
        }
    } else {
        let head = head_at(world.store, group_id, path_id)->0;
        lemma_still_loads(world, after, keys, head);
    }
}

proof fn lemma_distinct_front(keys: KeysView, visits: Seq<Visit>)
    requires
        visits.len() > 0,
        paths_of(keys, visits).no_duplicates(),
    ensures
        paths_of(keys, visits.drop_last()).no_duplicates(),
{
    let front = visits.drop_last();
    assert forall|i: int, j: int|
        0 <= i < front.len() && 0 <= j < front.len() && i != j implies paths_of(keys, front)[i]
        != paths_of(keys, front)[j] by {
        assert(paths_of(keys, visits)[i] == paths_of(keys, front)[i]);
        assert(paths_of(keys, visits)[j] == paths_of(keys, front)[j]);
    }
}

proof fn lemma_others_settled(
    before: World,
    after: World,
    keys: KeysView,
    path_id: PathId,
    visits: Seq<Visit>,
)
    requires
        grows(before, after, keys.group_id),
        forall|other: PathId|
            other != path_id ==> #[trigger] head_at(after.store, keys.group_id, other) == head_at(
                before.store,
                keys.group_id,
                other,
            ),
        forall|i: int| 0 <= i < visits.len() ==> is_settled(before, keys, #[trigger] visits[i]),
        forall|i: int|
            0 <= i < visits.len() ==> keys.path_id((#[trigger] visits[i]).path.comparison_key)
                != path_id,
    ensures
        forall|i: int| 0 <= i < visits.len() ==> is_settled(after, keys, #[trigger] visits[i]),
    decreases visits.len(),
{
    if visits.len() > 0 {
        let front = visits.drop_last();
        let last = visits[visits.len() - 1];
        assert forall|i: int| 0 <= i < front.len() implies is_settled(
            before,
            keys,
            #[trigger] front[i],
        ) && keys.path_id(front[i].path.comparison_key) != path_id by {
            assert(front[i] == visits[i]);
        }
        lemma_others_settled(before, after, keys, path_id, front);
        lemma_stays_settled(before, after, keys, last);
        assert forall|i: int| 0 <= i < visits.len() implies is_settled(
            after,
            keys,
            #[trigger] visits[i],
        ) by {
            if i < front.len() {
                assert(front[i] == visits[i]);
            }
        }
    }
}

proof fn lemma_visits(
    start: Progress,
    keys: KeysView,
    device_id: DeviceId,
    visits: Seq<Visit>,
)
    requires
        files_visited(start, keys, device_id, visits) is Some,
        start.found.len() == 0,
        start.report.file_changes == 0,
        start.report.files_unchanged == 0,
        visits.len() <= usize::MAX,
        paths_of(keys, visits).no_duplicates(),
    ensures
        ({
            let after = files_visited(start, keys, device_id, visits)->0;
            &&& grows(start.world, after.world, keys.group_id)
            &&& after.found =~= paths_of(keys, visits)
            &&& after.report.files_discovered == start.report.files_discovered
            &&& after.report.tombstones_created == start.report.tombstones_created
            &&& after.report.file_changes + after.report.files_unchanged == visits.len()
            &&& after.world.store.changes.len() == start.world.store.changes.len()
                + after.report.file_changes
            &&& forall|i: int|
                0 <= i < visits.len() ==> is_settled(after.world, keys, #[trigger] visits[i])
        }),
    decreases visits.len(),
{
    if visits.len() > 0 {
        let front = visits.drop_last();
        let last = visits.last();
        let path_id = keys.path_id(last.path.comparison_key);
        lemma_distinct_front(keys, visits);
        lemma_visits(start, keys, device_id, front);
        let before = files_visited(start, keys, device_id, front)->0;
        lemma_visit(before.world, keys, device_id, last);
        let after = files_visited(start, keys, device_id, visits)->0;
        lemma_grows_on(start.world, before.world, after.world, keys.group_id);
        assert forall|i: int| 0 <= i < front.len() implies keys.path_id(
            (#[trigger] front[i]).path.comparison_key,
        ) != path_id by {
            assert(front[i] == visits[i]);
            assert(paths_of(keys, visits)[i] != paths_of(keys, visits)[visits.len() - 1]);
        }
        lemma_others_settled(before.world, after.world, keys, path_id, front);
        assert forall|i: int| 0 <= i < visits.len() implies is_settled(
            after.world,
            keys,
            #[trigger] visits[i],
        ) by {
            if i < front.len() {
                assert(front[i] == visits[i]);
            }
        }
        assert(after.report == with_file(before.report, last.outcome()));
        assert(after.found =~= paths_of(keys, visits));
    } else {
        assert(start.found =~= paths_of(keys, visits));
    }
}

/// The head of a path is a tombstone.
pub open spec fn is_buried(world: World, group_id: GroupId, path_id: PathId) -> bool {
    &&& head_at(world.store, group_id, path_id) matches Some(head)
    &&& head.kind == ChangeRecordKind::Tombstone
}

/// No head is at the given path.
pub open spec fn is_elsewhere(heads: Seq<LocalHead>, path_id: PathId) -> bool {
    forall|i: int| 0 <= i < heads.len() ==> (#[trigger] heads[i]).path_id != path_id
}

/// The heads of the two differ at most at the paths of the given heads.
pub open spec fn differ_at(
    before: World,
    after: World,
    group_id: GroupId,
    heads: Seq<LocalHead>,
) -> bool {
    forall|path_id: PathId|
        is_elsewhere(heads, path_id) ==> #[trigger] head_at(after.store, group_id, path_id)
            == head_at(before.store, group_id, path_id)
}

proof fn lemma_burial(
    start: World,
    before: World,
    keys: KeysView,
    device_id: DeviceId,
    heads: Seq<LocalHead>,
    burial: Burial,
)
    requires
        heads.len() > 0,
        head_buried(before, keys, device_id, heads.last(), burial) is Some,
        grows(start, before, keys.group_id),
        differ_at(start, before, keys.group_id, heads.drop_last()),
        forall|i: int|
            0 <= i < heads.len() - 1 ==> is_buried(
                before,
                keys.group_id,
                (#[trigger] heads.drop_last()[i]).path_id,
            ),
    ensures
        ({
            let after = head_buried(before, keys, device_id, heads.last(), burial)->0;
            &&& grows(start, after, keys.group_id)
            &&& after.store.changes.len() == before.store.changes.len() + 1
            &&& differ_at(start, after, keys.group_id, heads)
            &&& forall|i: int|
                0 <= i < heads.len() ==> is_buried(
                    after,
                    keys.group_id,
                    (#[trigger] heads[i]).path_id,
                )
        }),
{
    reveal(head_buried);
    let head = heads.last();
    let front = heads.drop_last();
    let after = head_buried(before, keys, device_id, head, burial)->0;
    lemma_entered(
        before,
        keys,
        RecordView::Tombstone(burial.tombstone),
        head.path_id,
        Some(head.content_id),
        burial.entry,
    );
    lemma_grows_on(start, before, after, keys.group_id);
    assert(heads[heads.len() - 1] == head);
    assert forall|i: int| 0 <= i < heads.len() implies is_buried(
        after,
        keys.group_id,
        (#[trigger] heads[i]).path_id,
    ) by {
        if i < front.len() {
            assert(front[i] == heads[i]);
            assert(is_buried(before, keys.group_id, front[i].path_id));
        }
    }
    assert forall|path_id: PathId| is_elsewhere(heads, path_id) implies #[trigger] head_at(
        after.store,
        keys.group_id,
        path_id,
    ) == head_at(start.store, keys.group_id, path_id) by {
        assert forall|i: int| 0 <= i < front.len() implies (#[trigger] front[i]).path_id
            != path_id by {
            assert(front[i] == heads[i]);
        }
        assert(is_elsewhere(front, path_id));
        assert(head_at(before.store, keys.group_id, path_id) == head_at(
            start.store,
            keys.group_id,
            path_id,
        ));
    }
}

proof fn lemma_burials(
    start: Progress,
    keys: KeysView,
    device_id: DeviceId,
    heads: Seq<LocalHead>,
    burials: Seq<Burial>,
)
    requires
        heads_buried(start, keys, device_id, heads, burials) is Some,
        start.report.tombstones_created == 0,
        heads.len() <= usize::MAX,
    ensures
        ({
            let after = heads_buried(start, keys, device_id, heads, burials)->0;
            &&& grows(start.world, after.world, keys.group_id)
            &&& after.report == (ScanReport {
                tombstones_created: heads.len() as usize,
                ..start.report
            })
            &&& after.found == start.found
            &&& after.world.store.changes.len() == start.world.store.changes.len() + heads.len()
            &&& differ_at(start.world, after.world, keys.group_id, heads)
            &&& forall|i: int|
                0 <= i < heads.len() ==> is_buried(
                    after.world,
                    keys.group_id,
                    (#[trigger] heads[i]).path_id,
                )
        }),
    decreases heads.len(),
{
    if heads.len() > 0 {
        let front = heads.drop_last();
        lemma_burials(start, keys, device_id, front, burials.drop_last());
        let before = heads_buried(start, keys, device_id, front, burials.drop_last())->0;
        lemma_burial(start.world, before.world, keys, device_id, heads, burials.last());
    }
}

proof fn lemma_head_keys(rows: Seq<(PathKey, HeadRow)>, group_id: GroupId)
    ensures
        forall|i: int|
            0 <= i < head_keys(rows, group_id).len() ==> lookup(
                rows,
                PathKey {
                    group_id,
                    path_id: PathId {
                        high: (#[trigger] head_keys(rows, group_id)[i]).high,
                        low: head_keys(rows, group_id)[i].low,
                    },
                },
            ) is Some,
        forall|k: int|
            0 <= k < rows.len() && (#[trigger] rows[k]).0.group_id == group_id ==> head_keys(
                rows,
                group_id,
            ).contains(
                SortKey { time: 0, high: rows[k].0.path_id.high, low: rows[k].0.path_id.low },
            ),
    decreases rows.len(),
{
    if rows.len() > 0 {
        let front = rows.drop_last();
        lemma_head_keys(front, group_id);
        let before = head_keys(front, group_id);
        let keys = head_keys(rows, group_id);
        assert(rows[rows.len() - 1] == rows.last());
        assert forall|i: int| 0 <= i < keys.len() implies lookup(
            rows,
            PathKey {
                group_id,
                path_id: PathId { high: (#[trigger] keys[i]).high, low: keys[i].low },
            },
        ) is Some by {
            let key = PathKey {
                group_id,
                path_id: PathId { high: keys[i].high, low: keys[i].low },
            };
            lemma_lookup(rows, key);
            if i < before.len() {
                assert(keys[i] == before[i]);
                lemma_lookup(front, key);
                let value = lookup(front, key)->0;
                let k = choose|k: int| 0 <= k < front.len() && front[k] == (key, value);
                assert(rows[k].0 == key);
            } else {
                assert(rows[rows.len() - 1].0 == key);
            }
        }
        assert forall|k: int| 0 <= k < rows.len() && (#[trigger] rows[k]).0.group_id
            == group_id implies keys.contains(
            SortKey { time: 0, high: rows[k].0.path_id.high, low: rows[k].0.path_id.low },
        ) by {
            let wanted = SortKey {
                time: 0,
                high: rows[k].0.path_id.high,
                low: rows[k].0.path_id.low,
            };
            if k < front.len() {
                assert(front[k] == rows[k]);
                assert(before.contains(wanted));
                let m = choose|m: int| 0 <= m < before.len() && before[m] == wanted;
                assert(keys[m] == wanted);
            } else {
                assert(keys[keys.len() - 1] == wanted);
            }
        }
    }
}

proof fn lemma_heads_listed(store: StoreView, group_id: GroupId)
    ensures
        forall|i: int|
            0 <= i < heads_of(store, group_id).len() ==> head_at(
                store,
                group_id,
                (#[trigger] heads_of(store, group_id)[i]).path_id,
            ) == Some(heads_of(store, group_id)[i]),
        forall|path_id: PathId|
            #[trigger] head_at(store, group_id, path_id) matches Some(head) ==> heads_of(
                store,
                group_id,
            ).contains(head),
{
    let keys = head_keys(store.heads, group_id);
    let list = heads_of(store, group_id);
    lemma_head_keys(store.heads, group_id);
    lemma_sorted(keys);
    assert forall|i: int| 0 <= i < list.len() implies head_at(
        store,
        group_id,
        (#[trigger] list[i]).path_id,
    ) == Some(list[i]) by {
        let key = sorted(keys)[i];
        assert(keys.contains(key));
        let k = choose|k: int| 0 <= k < keys.len() && keys[k] == key;
        assert(lookup(
            store.heads,
            PathKey { group_id, path_id: PathId { high: keys[k].high, low: keys[k].low } },
        ) is Some);
    }
    assert forall|path_id: PathId|
        #[trigger] head_at(store, group_id, path_id) matches Some(head) implies list.contains(
        head_at(store, group_id, path_id)->0,
    ) by {
        let key = PathKey { group_id, path_id };
        lemma_lookup(store.heads, key);
        let value = lookup(store.heads, key)->0;
        let k = choose|k: int| 0 <= k < store.heads.len() && store.heads[k] == (key, value);
        assert(store.heads[k].0.group_id == group_id);
        let wanted = SortKey { time: 0, high: path_id.high, low: path_id.low };
        assert(keys.contains(wanted));
        keys.to_multiset_ensures();
        sorted(keys).to_multiset_ensures();
        vstd::seq_lib::to_multiset_contains(keys, wanted);
        vstd::seq_lib::to_multiset_contains(sorted(keys), wanted);
        assert(sorted(keys).contains(wanted));
        let m = choose|m: int| 0 <= m < sorted(keys).len() && sorted(keys)[m] == wanted;
        assert(list[m] == head_at(store, group_id, path_id)->0);
    }
}

proof fn lemma_none_lost(heads: Seq<LocalHead>, found: Seq<PathId>)
    requires
        forall|i: int|
            0 <= i < heads.len() && (#[trigger] heads[i]).kind == ChangeRecordKind::File
                ==> found.contains(heads[i].path_id),
    ensures
        lost_heads(heads, found) == Seq::<LocalHead>::empty(),
    decreases heads.len(),
{
    reveal(Seq::filter);
    if heads.len() > 0 {
        let front = heads.drop_last();
        assert forall|i: int| 0 <= i < front.len() && (#[trigger] front[i]).kind
            == ChangeRecordKind::File implies found.contains(front[i].path_id) by {
            assert(front[i] == heads[i]);
        }
        lemma_none_lost(front, found);
        assert(heads[heads.len() - 1] == heads.last());
    } else {
        assert(lost_heads(heads, found) =~= Seq::<LocalHead>::empty());
    }
}

proof fn lemma_lost(heads: Seq<LocalHead>, found: Seq<PathId>)
    ensures
        forall|head: LocalHead| #[trigger]
            lost_heads(heads, found).contains(head) == (heads.contains(head) && head.kind
                == ChangeRecordKind::File && !found.contains(head.path_id)),
    decreases heads.len(),
{
    reveal(Seq::filter);
    if heads.len() > 0 {
        let front = heads.drop_last();
        let last = heads.last();
        let before = lost_heads(front, found);
        let after = lost_heads(heads, found);
        lemma_lost(front, found);
        assert forall|head: LocalHead| #[trigger] after.contains(head) == (heads.contains(head)
            && head.kind == ChangeRecordKind::File && !found.contains(head.path_id)) by {
            assert(heads.contains(head) == (front.contains(head) || head == last)) by {
                if heads.contains(head) {
                    let k = choose|k: int| 0 <= k < heads.len() && heads[k] == head;
                    if k < front.len() {
                        assert(front[k] == head);
                    }
                }
                if front.contains(head) {
                    let k = choose|k: int| 0 <= k < front.len() && front[k] == head;
                    assert(heads[k] == head);
                }
                assert(heads[heads.len() - 1] == last);
            }
            let lost = last.kind == ChangeRecordKind::File && !found.contains(last.path_id);
            assert(after.contains(head) == (before.contains(head) || (lost && head == last))) by {
                if lost {
                    assert(after =~= before.push(last));
                    assert(after[after.len() - 1] == last);
                    if before.contains(head) {
                        let k = choose|k: int| 0 <= k < before.len() && before[k] == head;
                        assert(after[k] == head);
                    }
                } else {
                    assert(after =~= before);
                }
            }
        }
    } else {
        assert(lost_heads(heads, found) =~= Seq::<LocalHead>::empty());
    }
}

/// The report of a scan adds up: each file that was discovered has changed or is unchanged, and
/// the log has as many new entries as the report has changes and tombstones.
pub proof fn law_scan_report_adds_up(
    world: World,
    keys: KeysView,
    device_id: DeviceId,
    visits: Seq<Visit>,
    burials: Seq<Burial>,
)
    requires
        scanned(world, keys, device_id, visits, burials) is Some,
        paths_of(keys, visits).no_duplicates(),
        visits.len() <= usize::MAX,
        burials.len() <= usize::MAX,
    ensures
        ({
            let after = scanned(world, keys, device_id, visits, burials)->0;
            let report = after.report;
            &&& report.files_discovered == visits.len()
            &&& report.files_discovered == report.file_changes + report.files_unchanged
            &&& after.world.store.changes.len() == world.store.changes.len() + report.file_changes
                + report.tombstones_created
        }),
{
    let start = scan_begun(world, visits.len() as usize);
    lemma_visits(start, keys, device_id, visits);
    let middle = files_visited(start, keys, device_id, visits)->0;
    let heads = lost_heads(heads_of(middle.world.store, keys.group_id), middle.found);
    lemma_burials(middle, keys, device_id, heads, burials);
}

/// After a scan the head of the path of every file says what was read of it, and the chunks of the
/// file are held.
pub proof fn law_scan_settles_every_file(
    world: World,
    keys: KeysView,
    device_id: DeviceId,
    visits: Seq<Visit>,
    burials: Seq<Burial>,
)
    requires
        scanned(world, keys, device_id, visits, burials) is Some,
        paths_of(keys, visits).no_duplicates(),
        visits.len() <= usize::MAX,
        burials.len() <= usize::MAX,
    ensures
        forall|i: int|
            0 <= i < visits.len() ==> is_settled(
                scanned(world, keys, device_id, visits, burials)->0.world,
                keys,
                #[trigger] visits[i],
            ),
{
    let group_id = keys.group_id;
    let start = scan_begun(world, visits.len() as usize);
    lemma_visits(start, keys, device_id, visits);
    let middle = files_visited(start, keys, device_id, visits)->0;
    let list = heads_of(middle.world.store, group_id);
    let heads = lost_heads(list, middle.found);
    lemma_burials(middle, keys, device_id, heads, burials);
    lemma_lost(list, middle.found);
    let after = scanned(world, keys, device_id, visits, burials)->0;
    assert forall|i: int| 0 <= i < visits.len() implies is_settled(
        after.world,
        keys,
        #[trigger] visits[i],
    ) by {
        let path_id = keys.path_id(visits[i].path.comparison_key);
        assert(middle.found[i] == path_id);
        assert(middle.found.contains(path_id));
        assert forall|k: int| 0 <= k < heads.len() implies (#[trigger] heads[k]).path_id
            != path_id by {
            assert(heads.contains(heads[k]));
        }
        assert(is_elsewhere(heads, path_id));
        assert(head_at(after.world.store, group_id, path_id) == head_at(
            middle.world.store,
            group_id,
            path_id,
        ));
        lemma_stays_settled(middle.world, after.world, keys, visits[i]);
    }
}

/// A later visit of the same file, which is as it was: the same path, the same contents and the
/// same time, read at the first attempt.
pub open spec fn is_revisit(keys: KeysView, first: Visit, later: Visit) -> bool {
    &&& later.path == first.path
    &&& later.file.plaintext_bytes == first.file.plaintext_bytes
    &&& later.file.modified_at_unix_ms == first.file.modified_at_unix_ms
    &&& later.file.chunks == first.file.chunks
    &&& later.given_up.len() == 0
    &&& later.tells_the_file(keys)
    &&& later.file.chunks_stored == 0
    &&& later.file.chunks_reused == later.chunks.len()
    &&& later.revision is None
}

proof fn lemma_revisit(
    world: World,
    keys: KeysView,
    device_id: DeviceId,
    first: Visit,
    visit: Visit,
)
    requires
        is_revisit(keys, first, visit),
        is_settled(world, keys, first),
    ensures
        file_visited(world, keys, device_id, visit) == Some(world),
{
    reveal(file_visited);
    reveal(is_settled);
    assert(visit.intakes() =~= visit.chunks);
    assert forall|j: int| 0 <= j < visit.chunks.len() implies holds(
        world,
        keys.group_id,
        (#[trigger] visit.chunks[j]).content_id,
    ) by {
        assert(visit.file.chunks[j].content_id == visit.chunks[j].content_id);
        assert(holds(world, keys.group_id, first.file.chunks[j].content_id));
    }
    lemma_held_chunks(world, keys, visit.chunks);
}

proof fn lemma_revisits(
    start: Progress,
    keys: KeysView,
    device_id: DeviceId,
    visits: Seq<Visit>,
    later: Seq<Visit>,
)
    requires
        later.len() == visits.len(),
        later.len() <= usize::MAX,
        forall|i: int| 0 <= i < later.len() ==> is_revisit(keys, visits[i], #[trigger] later[i]),
        forall|i: int|
            0 <= i < visits.len() ==> is_settled(start.world, keys, #[trigger] visits[i]),
        start.found.len() == 0,
        start.report.file_changes == 0,
        start.report.files_unchanged == 0,
        start.report.chunks_stored == 0,
    ensures
        ({
            &&& files_visited(start, keys, device_id, later) matches Some(after)
            &&& after.world == start.world
            &&& after.found =~= paths_of(keys, later)
            &&& after.report.files_discovered == start.report.files_discovered
            &&& after.report.tombstones_created == start.report.tombstones_created
            &&& after.report.file_changes == 0
            &&& after.report.chunks_stored == 0
            &&& after.report.files_unchanged == later.len()
        }),
    decreases later.len(),
{
    if later.len() > 0 {
        let front = later.drop_last();
        let visit = later.last();
        assert forall|i: int| 0 <= i < front.len() implies is_revisit(
            keys,
            visits.drop_last()[i],
            #[trigger] front[i],
        ) by {
            assert(front[i] == later[i]);
            assert(is_revisit(keys, visits[i], later[i]));
        }
        assert forall|i: int| 0 <= i < visits.drop_last().len() implies is_settled(
            start.world,
            keys,
            #[trigger] visits.drop_last()[i],
        ) by {
            assert(visits.drop_last()[i] == visits[i]);
        }
        lemma_revisits(start, keys, device_id, visits.drop_last(), front);
        assert(is_revisit(keys, visits[later.len() - 1], later[later.len() - 1]));
        assert(is_settled(start.world, keys, visits[later.len() - 1]));
        lemma_revisit(start.world, keys, device_id, visits.last(), visit);
        let before = files_visited(start, keys, device_id, front)->0;
        let after = files_visited(start, keys, device_id, later)->0;
        assert(after.report == with_file(before.report, visit.outcome()));
        assert(after.found =~= paths_of(keys, later));
    } else {
        assert(start.found =~= paths_of(keys, later));
    }
}

/// A scan of a folder that has not changed since the last one changes nothing: it succeeds, finds
/// every file unchanged, stores no chunk, commits no change, and leaves the catalog and the files
/// of the objects as they were.
pub proof fn law_second_scan_changes_nothing(
    world: World,
    keys: KeysView,
    device_id: DeviceId,
    visits: Seq<Visit>,
    burials: Seq<Burial>,
    later: Seq<Visit>,
)
    requires
        scanned(world, keys, device_id, visits, burials) is Some,
        paths_of(keys, visits).no_duplicates(),
        visits.len() <= usize::MAX,
        burials.len() <= usize::MAX,
        later.len() == visits.len(),
        forall|i: int| 0 <= i < later.len() ==> is_revisit(keys, visits[i], #[trigger] later[i]),
    ensures
        ({
            let first = scanned(world, keys, device_id, visits, burials)->0;
            &&& scanned(first.world, keys, device_id, later, seq![]) matches Some(second)
            &&& second.world == first.world
            &&& second.report.file_changes == 0
            &&& second.report.tombstones_created == 0
            &&& second.report.chunks_stored == 0
            &&& second.report.files_unchanged == second.report.files_discovered
            &&& second.report.files_discovered == first.report.files_discovered
        }),
{
    let group_id = keys.group_id;
    let start = scan_begun(world, visits.len() as usize);
    lemma_visits(start, keys, device_id, visits);
    let middle = files_visited(start, keys, device_id, visits)->0;
    let list = heads_of(middle.world.store, group_id);
    let heads = lost_heads(list, middle.found);
    lemma_burials(middle, keys, device_id, heads, burials);
    lemma_lost(list, middle.found);
    lemma_heads_listed(middle.world.store, group_id);
    let first = scanned(world, keys, device_id, visits, burials)->0;
    law_scan_settles_every_file(world, keys, device_id, visits, burials);
    let again = scan_begun(first.world, later.len() as usize);
    lemma_revisits(again, keys, device_id, visits, later);
    let found = paths_of(keys, later);
    assert(found =~= middle.found) by {
        assert forall|i: int| 0 <= i < found.len() implies found[i] == middle.found[i] by {
            assert(is_revisit(keys, visits[i], later[i]));
        }
    }
    lemma_heads_listed(first.world.store, group_id);
    let last = heads_of(first.world.store, group_id);
    assert forall|i: int| 0 <= i < last.len() && (#[trigger] last[i]).kind
        == ChangeRecordKind::File implies found.contains(last[i].path_id) by {
        let path_id = last[i].path_id;
        assert(head_at(first.world.store, group_id, path_id) == Some(last[i]));
        if !found.contains(path_id) {
            if exists|k: int| 0 <= k < heads.len() && (#[trigger] heads[k]).path_id == path_id {
                let k = choose|k: int| 0 <= k < heads.len() && (#[trigger] heads[k]).path_id
                    == path_id;
                assert(is_buried(first.world, group_id, heads[k].path_id));
            } else {
                assert(is_elsewhere(heads, path_id));
                assert(head_at(first.world.store, group_id, path_id) == head_at(
                    middle.world.store,
                    group_id,
                    path_id,
                ));
                assert(list.contains(last[i]));
                assert(heads.contains(last[i]));
                let k = choose|k: int| 0 <= k < heads.len() && heads[k] == last[i];
                assert(heads[k].path_id == path_id);
            }
        }
    }
    lemma_none_lost(last, found);
}

} // verus!
