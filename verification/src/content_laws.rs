//! What is read back of the files that a scan has taken in.
use vstd::prelude::*;

use crate::bytes::joined;
use crate::catalog::{ObjectKey, ObjectRow};
use crate::discovery::lost_heads;
use crate::envelope::{envelope_bytes, parsed_envelope, ObjectKind};
use crate::history::{head_at, heads_of, LocalHead};
use crate::ids::{ContentId, DeviceId, PathId};
use crate::keys::KeysView;
use crate::loading::{chunk_content, chunks_content, file_content, ApplyProblem};
use crate::opening::sealed_object;
use crate::record::{ChunkRef, ManifestView, RecordView};
use crate::scan_laws::{
    chunk_taken, chunks_taken, file_visited, files_visited, head_buried, heads_buried, holds,
    is_settled, law_scan_settles_every_file, lemma_admitted, lemma_chunks, paths_of,
    plaintexts_of, record_before, record_entered, refs_of, scan_begun, scanned, Burial,
    ChunkIntake, Entry, Progress, Visit, World,
};
use crate::store::{after_look, verified_object};
use crate::table::{lemma_lookup_put, lookup};

verus! {

/// What each identifier of a chunk stands for.
pub type Names = Map<ContentId, Seq<u8>>;

/// The identifier of the chunk stands for its plaintext.
pub open spec fn is_named(names: Names, chunk: ChunkIntake) -> bool {
    names.dom().contains(chunk.content_id) && names[chunk.content_id] == chunk.plaintext
}

/// What bytes open to as the chunk with the given identifier, where they open.
pub open spec fn opened_chunk(keys: KeysView, content_id: ContentId, bytes: Seq<u8>) -> Option<
    Seq<u8>,
> {
    match parsed_envelope(bytes) {
        Err(_) => None,
        Ok(object) => match keys.opened(ObjectKind::Chunk, content_id, object) {
            Err(_) => None,
            Ok(plaintext) => Some(plaintext),
        },
    }
}

/// What the file of a chunk opens to, where it is there and opens.
pub open spec fn chunk_in(
    keys: KeysView,
    files: Seq<(ContentId, Seq<u8>)>,
    content_id: ContentId,
) -> Option<Seq<u8>> {
    match lookup(files, content_id) {
        None => None,
        Some(bytes) => opened_chunk(keys, content_id, bytes),
    }
}

/// The file of each chunk opens, if at all, to what the identifier of the chunk stands for. Every
/// plaintext that opens has the identifier of its chunk, so this fails only where two plaintexts
/// share an identifier.
pub open spec fn is_true_to(world: World, keys: KeysView, names: Names) -> bool {
    forall|id: ContentId| #[trigger]
        names.dom().contains(id) ==> match chunk_in(keys, world.files, id) {
            Some(plaintext) => plaintext == names[id],
            None => true,
        }
}

/// The file of each chunk that is held is what it should be.
pub open spec fn is_intact(world: World, keys: KeysView, names: Names) -> bool {
    forall|id: ContentId| #[trigger]
        names.dom().contains(id) ==> holds(world, keys.group_id, id) ==> verified_object(
            keys,
            ObjectKind::Chunk,
            id,
            lookup(world.files, id)->0,
        ) is Ok
}

/// What the identifiers of chunks stand for, in the order of the chunks.
pub open spec fn parts_named(names: Names, chunks: Seq<ChunkRef>) -> Seq<Seq<u8>> {
    Seq::new(chunks.len(), |i: int| names[chunks[i].content_id])
}

/// Each of the chunks has an identifier that stands for something of its size.
pub open spec fn are_named(names: Names, chunks: Seq<ChunkRef>) -> bool {
    forall|i: int|
        0 <= i < chunks.len() ==> names.dom().contains((#[trigger] chunks[i]).content_id)
            && names[chunks[i].content_id].len() == chunks[i].plaintext_size
}

proof fn lemma_joined_prefix(parts: Seq<Seq<u8>>)
    requires
        parts.len() > 0,
    ensures
        joined(parts.drop_last()).len() + parts.last().len() == joined(parts).len(),
{
}

proof fn lemma_chunks_content(
    world: World,
    keys: KeysView,
    names: Names,
    chunks: Seq<ChunkRef>,
)
    requires
        is_true_to(world, keys, names),
        are_named(names, chunks),
    ensures
        chunks_content(world.store, keys, world.files, chunks).1 matches Ok(content) ==> content
            == joined(parts_named(names, chunks)),
        is_intact(world, keys, names) && (forall|i: int|
            0 <= i < chunks.len() ==> holds(
                world,
                keys.group_id,
                (#[trigger] chunks[i]).content_id,
            )) && joined(parts_named(names, chunks)).len() <= u64::MAX ==> chunks_content(
            world.store,
            keys,
            world.files,
            chunks,
        ) == (world.store, Ok::<Seq<u8>, ApplyProblem>(joined(parts_named(names, chunks)))),
    decreases chunks.len(),
{
    let parts = parts_named(names, chunks);
    if chunks.len() > 0 {
        let front = chunks.drop_last();
        let last = chunks.last();
        assert forall|i: int| 0 <= i < front.len() implies names.dom().contains(
            (#[trigger] front[i]).content_id,
        ) && names[front[i].content_id].len() == front[i].plaintext_size by {
            assert(front[i] == chunks[i]);
        }
        lemma_chunks_content(world, keys, names, front);
        assert(chunks[chunks.len() - 1] == last);
        assert(parts.drop_last() =~= parts_named(names, front));
        assert(parts.last() == names[last.content_id]);
        lemma_joined_prefix(parts);
        assert(names.dom().contains(last.content_id));
        if is_intact(world, keys, names) && (forall|i: int|
            0 <= i < chunks.len() ==> holds(
                world,
                keys.group_id,
                (#[trigger] chunks[i]).content_id,
            )) && joined(parts).len() <= u64::MAX {
            assert forall|i: int| 0 <= i < front.len() implies holds(
                world,
                keys.group_id,
                (#[trigger] front[i]).content_id,
            ) by {
                assert(front[i] == chunks[i]);
            }
            assert(holds(world, keys.group_id, last.content_id));
            assert(chunk_content(world.store, keys, world.files, last) == (
                world.store,
                Ok::<Seq<u8>, ApplyProblem>(names[last.content_id]),
            ));
        }
    } else {
        assert(parts =~= Seq::<Seq<u8>>::empty());
    }
}

/// A file that is put together is its chunks, one after the other: each as what its identifier
/// stands for. It can be put together where its chunks are there and are what they should be, and
/// the size is that of the whole; that leaves the store as it is.
pub proof fn law_assembled_file_is_its_chunks(
    world: World,
    keys: KeysView,
    names: Names,
    manifest: ManifestView,
)
    requires
        is_true_to(world, keys, names),
        are_named(names, manifest.chunks),
    ensures
        ({
            let content = joined(parts_named(names, manifest.chunks));
            let assembled = file_content(world.store, keys, world.files, manifest);
            &&& assembled.1 matches Ok(bytes) ==> bytes == content
            &&& is_intact(world, keys, names) && manifest.size == content.len() && (forall|i: int|
                0 <= i < manifest.chunks.len() ==> holds(
                    world,
                    keys.group_id,
                    (#[trigger] manifest.chunks[i]).content_id,
                )) ==> assembled == (world.store, Ok::<Seq<u8>, ApplyProblem>(content))
        }),
{
    lemma_chunks_content(world, keys, names, manifest.chunks);
}

proof fn lemma_same_content(
    world: World,
    other: World,
    keys: KeysView,
    chunks: Seq<ChunkRef>,
)
    requires
        forall|i: int|
            0 <= i < chunks.len() ==> agree_on(
                world,
                other,
                keys,
                (#[trigger] chunks[i]).content_id,
            ),
        chunks_content(world.store, keys, world.files, chunks).1 is Ok,
        chunks_content(other.store, keys, other.files, chunks).1 is Ok,
    ensures
        chunks_content(world.store, keys, world.files, chunks).1->Ok_0 == chunks_content(
            other.store,
            keys,
            other.files,
            chunks,
        ).1->Ok_0,
    decreases chunks.len(),
{
    if chunks.len() > 0 {
        let front = chunks.drop_last();
        assert forall|i: int| 0 <= i < front.len() implies agree_on(
            world,
            other,
            keys,
            (#[trigger] front[i]).content_id,
        ) by {
            assert(front[i] == chunks[i]);
        }
        lemma_same_content(world, other, keys, front);
        assert(chunks[chunks.len() - 1] == chunks.last());
        assert(agree_on(world, other, keys, chunks.last().content_id));
    }
}

/// Where the files of a chunk open on both sides, to plaintexts that share an identifier, they
/// open to the same plaintext.
pub open spec fn agree_on(
    world: World,
    other: World,
    keys: KeysView,
    content_id: ContentId,
) -> bool {
    match (chunk_in(keys, world.files, content_id), chunk_in(keys, other.files, content_id)) {
        (Some(one), Some(two)) => keys.content_id(ObjectKind::Chunk, one) == keys.content_id(
            ObjectKind::Chunk,
            two,
        ) ==> one == two,
        _ => true,
    }
}

/// Two devices that put together the file of one manifest get the same bytes, whatever else they
/// hold and whoever sealed their chunks.
pub proof fn law_one_manifest_gives_one_file(
    world: World,
    other: World,
    keys: KeysView,
    manifest: ManifestView,
)
    requires
        forall|i: int|
            0 <= i < manifest.chunks.len() ==> agree_on(
                world,
                other,
                keys,
                (#[trigger] manifest.chunks[i]).content_id,
            ),
        file_content(world.store, keys, world.files, manifest).1 is Ok,
        file_content(other.store, keys, other.files, manifest).1 is Ok,
    ensures
        file_content(world.store, keys, world.files, manifest).1 == file_content(
            other.store,
            keys,
            other.files,
            manifest,
        ).1,
{
    lemma_same_content(world, other, keys, manifest.chunks);
}

proof fn lemma_chunk_elsewhere(
    world: World,
    keys: KeysView,
    chunk: ChunkIntake,
    other: ContentId,
)
    requires
        chunk_taken(world, keys, chunk) is Some,
        other != chunk.content_id,
    ensures
        ({
            let after = (chunk_taken(world, keys, chunk)->0).0;
            &&& lookup(after.files, other) == lookup(world.files, other)
            &&& holds(after, keys.group_id, other) == holds(world, keys.group_id, other)
        }),
{
    let group_id = keys.group_id;
    let id = chunk.content_id;
    let file = lookup(world.files, id);
    let looked = after_look(world.store, group_id, id, file is Some);
    let bytes = envelope_bytes(
        sealed_object(keys, ObjectKind::Chunk, chunk.nonce, chunk.plaintext),
    );
    let key = ObjectKey { group_id, content_id: id };
    if let Some(row) = lookup(world.store.objects, key) {
        lemma_lookup_put(
            world.store.objects,
            key,
            ObjectRow { available: false, ..row },
            ObjectKey { group_id, content_id: other },
        );
    }
    lemma_lookup_put(world.files, id, bytes, other);
    if !holds(world, group_id, id) {
        let present = lookup(world.files, other) is Some;
        lemma_admitted(
            looked,
            keys,
            ObjectKind::Chunk,
            id,
            bytes,
            file,
            chunk.now,
            other,
            present,
        );
    }
}

proof fn lemma_chunk_true(world: World, keys: KeysView, names: Names, chunk: ChunkIntake)
    requires
        chunk_taken(world, keys, chunk) is Some,
        is_named(names, chunk),
        is_true_to(world, keys, names),
    ensures
        is_true_to((chunk_taken(world, keys, chunk)->0).0, keys, names),
        is_intact(world, keys, names) ==> is_intact(
            (chunk_taken(world, keys, chunk)->0).0,
            keys,
            names,
        ),
{
    let id = chunk.content_id;
    let file = lookup(world.files, id);
    let (after, stored) = chunk_taken(world, keys, chunk)->0;
    let bytes = envelope_bytes(
        sealed_object(keys, ObjectKind::Chunk, chunk.nonce, chunk.plaintext),
    );
    lemma_lookup_put(world.files, id, bytes, id);
    assert forall|other: ContentId| #[trigger] names.dom().contains(other) implies match chunk_in(
        keys,
        after.files,
        other,
    ) {
        Some(plaintext) => plaintext == names[other],
        None => true,
    } by {
        if other != id {
            lemma_chunk_elsewhere(world, keys, chunk, other);
        }
    }
    if is_intact(world, keys, names) {
        assert forall|other: ContentId| #[trigger]
            names.dom().contains(other) && holds(after, keys.group_id, other) implies verified_object(
            keys,
            ObjectKind::Chunk,
            other,
            lookup(after.files, other)->0,
        ) is Ok by {
            if other != id {
                lemma_chunk_elsewhere(world, keys, chunk, other);
            } else if !holds(world, keys.group_id, id) {
                assert(verified_object(keys, ObjectKind::Chunk, id, bytes) is Ok);
            }
        }
    }
}

proof fn lemma_chunks_true(
    world: World,
    keys: KeysView,
    names: Names,
    chunks: Seq<ChunkIntake>,
)
    requires
        chunks_taken(world, keys, chunks) is Some,
        forall|i: int| 0 <= i < chunks.len() ==> is_named(names, #[trigger] chunks[i]),
        is_true_to(world, keys, names),
    ensures
        is_true_to(chunks_taken(world, keys, chunks)->0.world, keys, names),
        is_intact(world, keys, names) ==> is_intact(
            chunks_taken(world, keys, chunks)->0.world,
            keys,
            names,
        ),
    decreases chunks.len(),
{
    if chunks.len() > 0 {
        let front = chunks.drop_last();
        assert forall|i: int| 0 <= i < front.len() implies is_named(
            names,
            #[trigger] front[i],
        ) by {
            assert(front[i] == chunks[i]);
        }
        lemma_chunks_true(world, keys, names, front);
        assert(is_named(names, chunks[chunks.len() - 1]));
        lemma_chunk_true(
            chunks_taken(world, keys, front)->0.world,
            keys,
            names,
            chunks.last(),
        );
    }
}

proof fn lemma_named_refs(names: Names, chunks: Seq<ChunkIntake>)
    requires
        forall|i: int|
            0 <= i < chunks.len() ==> is_named(names, #[trigger] chunks[i])
                && chunks[i].plaintext.len() <= u32::MAX,
    ensures
        are_named(names, refs_of(chunks)),
        parts_named(names, refs_of(chunks)) == plaintexts_of(chunks),
{
    assert forall|i: int| 0 <= i < refs_of(chunks).len() implies names.dom().contains(
        (#[trigger] refs_of(chunks)[i]).content_id,
    ) && names[refs_of(chunks)[i].content_id].len() == refs_of(chunks)[i].plaintext_size by {
        assert(is_named(names, chunks[i]));
    }
    assert forall|i: int| 0 <= i < chunks.len() implies parts_named(names, refs_of(chunks))[i]
        == plaintexts_of(chunks)[i] by {
        assert(is_named(names, chunks[i]));
    }
    assert(parts_named(names, refs_of(chunks)) =~= plaintexts_of(chunks));
}

/// A file that was taken in is read back as the same bytes: what its manifest is put together to
/// are the plaintexts of its chunks, one after the other. It can be put together where the chunks
/// that were there before are what they should be.
pub proof fn law_scanned_file_is_read_back(
    world: World,
    keys: KeysView,
    names: Names,
    chunks: Seq<ChunkIntake>,
    manifest: ManifestView,
)
    requires
        chunks_taken(world, keys, chunks) is Some,
        forall|i: int|
            0 <= i < chunks.len() ==> is_named(names, #[trigger] chunks[i])
                && chunks[i].plaintext.len() <= u32::MAX,
        is_true_to(world, keys, names),
        manifest.chunks == refs_of(chunks),
        manifest.size == joined(plaintexts_of(chunks)).len(),
    ensures
        ({
            let after = chunks_taken(world, keys, chunks)->0.world;
            let content = joined(plaintexts_of(chunks));
            let assembled = file_content(after.store, keys, after.files, manifest);
            &&& assembled.1 matches Ok(bytes) ==> bytes == content
            &&& is_intact(world, keys, names) ==> assembled == (
                after.store,
                Ok::<Seq<u8>, ApplyProblem>(content),
            )
        }),
{
    let after = chunks_taken(world, keys, chunks)->0.world;
    lemma_chunks_true(world, keys, names, chunks);
    lemma_named_refs(names, chunks);
    lemma_chunks(world, keys, chunks);
    assert forall|i: int| 0 <= i < manifest.chunks.len() implies holds(
        after,
        keys.group_id,
        (#[trigger] manifest.chunks[i]).content_id,
    ) by {
        assert(holds(after, keys.group_id, chunks[i].content_id));
    }
    law_assembled_file_is_its_chunks(after, keys, names, manifest);
}

/// The identifiers of the chunks of a visit stand for their plaintexts, and a manifest that it
/// enters is under an identifier of its own.
pub open spec fn is_visit_named(names: Names, visit: Visit) -> bool {
    &&& forall|i: int| 0 <= i < visit.intakes().len() ==> is_named(
        names,
        #[trigger] visit.intakes()[i],
    )
    &&& visit.revision matches Some((_, entry)) ==> !names.dom().contains(entry.sealed.content_id)
}

proof fn lemma_entry_true(
    world: World,
    keys: KeysView,
    names: Names,
    record: RecordView,
    path_id: PathId,
    expected_previous: Option<ContentId>,
    entry: Entry,
)
    requires
        record_entered(world, keys, record, path_id, expected_previous, entry) is Some,
        !names.dom().contains(entry.sealed.content_id),
        is_true_to(world, keys, names),
        is_intact(world, keys, names),
    ensures
        ({
            let after = record_entered(
                world,
                keys,
                record,
                path_id,
                expected_previous,
                entry,
            )->0;
            is_true_to(after, keys, names) && is_intact(after, keys, names)
        }),
{
    let id = entry.sealed.content_id;
    let bytes = entry.sealed.bytes;
    let after = record_entered(world, keys, record, path_id, expected_previous, entry)->0;
    assert forall|other: ContentId| #[trigger] names.dom().contains(other) implies lookup(
        after.files,
        other,
    ) == lookup(world.files, other) && holds(after, keys.group_id, other) == holds(
        world,
        keys.group_id,
        other,
    ) by {
        lemma_lookup_put(world.files, id, bytes, other);
        lemma_admitted(
            world.store,
            keys,
            ObjectKind::Manifest,
            id,
            bytes,
            None,
            entry.now,
            other,
            lookup(world.files, other) is Some,
        );
    }
}

proof fn lemma_visit_true(
    world: World,
    keys: KeysView,
    device_id: DeviceId,
    names: Names,
    visit: Visit,
)
    requires
        file_visited(world, keys, device_id, visit) is Some,
        is_visit_named(names, visit),
        is_true_to(world, keys, names),
        is_intact(world, keys, names),
    ensures
        is_true_to(file_visited(world, keys, device_id, visit)->0, keys, names),
        is_intact(file_visited(world, keys, device_id, visit)->0, keys, names),
{
    reveal(file_visited);
    let path_id = keys.path_id(visit.path.comparison_key);
    let intake = chunks_taken(world, keys, visit.intakes())->0;
    lemma_chunks_true(world, keys, names, visit.intakes());
    if let Some((manifest, entry)) = visit.revision {
        lemma_entry_true(
            intake.world,
            keys,
            names,
            RecordView::File(manifest),
            path_id,
            match head_at(world.store, keys.group_id, path_id) {
                Some(head) => Some(head.content_id),
                None => None,
            },
            entry,
        );
    }
}

proof fn lemma_visits_true(
    start: Progress,
    keys: KeysView,
    device_id: DeviceId,
    names: Names,
    visits: Seq<Visit>,
)
    requires
        files_visited(start, keys, device_id, visits) is Some,
        forall|i: int| 0 <= i < visits.len() ==> is_visit_named(names, #[trigger] visits[i]),
        is_true_to(start.world, keys, names),
        is_intact(start.world, keys, names),
    ensures
        is_true_to(files_visited(start, keys, device_id, visits)->0.world, keys, names),
        is_intact(files_visited(start, keys, device_id, visits)->0.world, keys, names),
    decreases visits.len(),
{
    if visits.len() > 0 {
        let front = visits.drop_last();
        assert forall|i: int| 0 <= i < front.len() implies is_visit_named(
            names,
            #[trigger] front[i],
        ) by {
            assert(front[i] == visits[i]);
        }
        lemma_visits_true(start, keys, device_id, names, front);
        assert(is_visit_named(names, visits[visits.len() - 1]));
        lemma_visit_true(
            files_visited(start, keys, device_id, front)->0.world,
            keys,
            device_id,
            names,
            visits.last(),
        );
    }
}

proof fn lemma_burials_true(
    start: Progress,
    keys: KeysView,
    device_id: DeviceId,
    names: Names,
    heads: Seq<LocalHead>,
    burials: Seq<Burial>,
)
    requires
        heads_buried(start, keys, device_id, heads, burials) is Some,
        forall|i: int|
            0 <= i < burials.len() ==> !names.dom().contains(
                (#[trigger] burials[i]).entry.sealed.content_id,
            ),
        is_true_to(start.world, keys, names),
        is_intact(start.world, keys, names),
    ensures
        is_true_to(heads_buried(start, keys, device_id, heads, burials)->0.world, keys, names),
        is_intact(heads_buried(start, keys, device_id, heads, burials)->0.world, keys, names),
    decreases heads.len(),
{
    reveal(head_buried);
    if heads.len() > 0 {
        let front = burials.drop_last();
        assert forall|i: int| 0 <= i < front.len() implies !names.dom().contains(
            (#[trigger] front[i]).entry.sealed.content_id,
        ) by {
            assert(front[i] == burials[i]);
        }
        lemma_burials_true(start, keys, device_id, names, heads.drop_last(), front);
        let before = heads_buried(start, keys, device_id, heads.drop_last(), front)->0;
        let burial = burials.last();
        assert(burials[burials.len() - 1] == burial);
        assert(head_buried(before.world, keys, device_id, heads.last(), burial) is Some);
        lemma_entry_true(
            before.world,
            keys,
            names,
            RecordView::Tombstone(burial.tombstone),
            heads.last().path_id,
            Some(heads.last().content_id),
            burial.entry,
        );
    }
}

/// After a scan each file of the folder is read back as the same bytes: the head of its path is a
/// manifest that is put together to what the file held when it was scanned.
pub proof fn law_scanned_folder_is_read_back(
    world: World,
    keys: KeysView,
    device_id: DeviceId,
    names: Names,
    visits: Seq<Visit>,
    burials: Seq<Burial>,
    index: int,
)
    requires
        scanned(world, keys, device_id, visits, burials) is Some,
        paths_of(keys, visits).no_duplicates(),
        visits.len() <= usize::MAX,
        burials.len() <= usize::MAX,
        is_true_to(world, keys, names),
        is_intact(world, keys, names),
        forall|i: int| 0 <= i < visits.len() ==> is_visit_named(names, #[trigger] visits[i]),
        forall|i: int|
            0 <= i < burials.len() ==> !names.dom().contains(
                (#[trigger] burials[i]).entry.sealed.content_id,
            ),
        0 <= index < visits.len(),
        visits[index].file.plaintext_bytes == visits[index].content().len(),
    ensures
        ({
            let after = scanned(world, keys, device_id, visits, burials)->0.world;
            let path_id = keys.path_id(visits[index].path.comparison_key);
            &&& record_before(after, keys, path_id) matches Some(Some(RecordView::File(manifest)))
            &&& file_content(after.store, keys, after.files, manifest) == (
                after.store,
                Ok::<Seq<u8>, ApplyProblem>(visits[index].content()),
            )
        }),
{
    reveal(is_settled);
    let visit = visits[index];
    let start = scan_begun(world, visits.len() as usize);
    let middle = files_visited(start, keys, device_id, visits)->0;
    let heads = lost_heads(heads_of(middle.world.store, keys.group_id), middle.found);
    let after = scanned(world, keys, device_id, visits, burials)->0.world;
    law_scan_settles_every_file(world, keys, device_id, visits, burials);
    assert(is_settled(after, keys, visit));
    lemma_visits_true(start, keys, device_id, names, visits);
    lemma_burials_true(middle, keys, device_id, names, heads, burials);
    lemma_visit_tells(start, keys, device_id, visits, index);
    let path_id = keys.path_id(visit.path.comparison_key);
    let record = record_before(after, keys, path_id)->0->0;
    let manifest = record->File_0;
    assert(is_visit_named(names, visit));
    assert forall|i: int| 0 <= i < visit.chunks.len() implies is_named(
        names,
        #[trigger] visit.chunks[i],
    ) && visit.chunks[i].plaintext.len() <= u32::MAX by {
        assert(visit.intakes()[visit.given_up.len() + i] == visit.chunks[i]);
    }
    lemma_named_refs(names, visit.chunks);
    assert(manifest.chunks == visit.file.chunks);
    assert forall|i: int| 0 <= i < manifest.chunks.len() implies holds(
        after,
        keys.group_id,
        (#[trigger] manifest.chunks[i]).content_id,
    ) by {
        assert(holds(after, keys.group_id, visit.file.chunks[i].content_id));
    }
    law_assembled_file_is_its_chunks(after, keys, names, manifest);
}

proof fn lemma_visit_tells(
    start: Progress,
    keys: KeysView,
    device_id: DeviceId,
    visits: Seq<Visit>,
    index: int,
)
    requires
        files_visited(start, keys, device_id, visits) is Some,
        0 <= index < visits.len(),
    ensures
        visits[index].tells_the_file(keys),
    decreases visits.len(),
{
    reveal(file_visited);
    if index < visits.len() - 1 {
        assert(visits.drop_last()[index] == visits[index]);
        lemma_visit_tells(start, keys, device_id, visits.drop_last(), index);
    }
}

/// A file that one device has scanned and another puts together holds the bytes that were
/// scanned, where the chunks of the two stand for the same plaintexts.
pub proof fn law_received_file_holds_the_scanned_bytes(
    receiver: World,
    keys: KeysView,
    names: Names,
    visit: Visit,
    manifest: ManifestView,
)
    requires
        visit.tells_the_file(keys),
        is_visit_named(names, visit),
        manifest.chunks == visit.file.chunks,
        is_true_to(receiver, keys, names),
    ensures
        file_content(receiver.store, keys, receiver.files, manifest).1 matches Ok(bytes) ==> bytes
            == visit.content(),
{
    assert forall|i: int| 0 <= i < visit.chunks.len() implies is_named(
        names,
        #[trigger] visit.chunks[i],
    ) && visit.chunks[i].plaintext.len() <= u32::MAX by {
        assert(visit.intakes()[visit.given_up.len() + i] == visit.chunks[i]);
    }
    lemma_named_refs(names, visit.chunks);
    law_assembled_file_is_its_chunks(receiver, keys, names, manifest);
}

} // verus!
