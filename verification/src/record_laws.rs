//! What records promise: what is written of them, which are read, and which files they stand for.
use vstd::prelude::*;

use crate::bytes::joined;
use crate::crypto::aead_sealed;
use crate::envelope::{envelope_bytes, ObjectKind, ObjectView};
use crate::ids::{
    lemma_uuid_bytes, lemma_uuid_of_bytes, uuid_bytes, uuid_of_bytes, ContentId, DeviceId,
};
use crate::keys::{object_context, KeysView};
use crate::loading::{chunk_content, chunks_content, file_content};
use crate::manifest::{
    encoded_record, first_zero, read_chunks, read_entries, read_version, record_bytes,
    record_envelope, record_problem, ManifestProblem,
};
use crate::message::encoded;
use crate::oneof::{ManifestEnvelope, ManifestRecordView};
use crate::opening::{sealed_record, RecordProblem};
use crate::proto::{read_varint, skipped_len};
use crate::protocol::{LimitsView, ProtocolError};
use crate::pull::ObjectReceipt;
use crate::record::{ChunkRef, ManifestView, RecordView};
use crate::store::StoreView;
use crate::transfer::{requested, requested_ids, streamed, ValidatedObjectTransfer};
use crate::wire::{
    ChunkReferenceView, ObjectRequestView, ObjectStreamHeaderView, VersionCounterView,
};

verus! {

/// A version is written entry by entry.
pub open spec fn writes_version(
    counters: Seq<VersionCounterView>,
    version: Seq<(DeviceId, u64)>,
) -> bool {
    &&& counters.len() == version.len()
    &&& forall|i: int|
        0 <= i < version.len() ==> (#[trigger] counters[i]).device_id == uuid_bytes(
            version[i].0.value,
        ) && counters[i].counter == version[i].1
}

/// A record is written in the first format, with everything that it holds.
pub proof fn law_record_is_written_whole(record: RecordView)
    ensures
        ({
            let envelope = record_envelope(record);
            &&& record_bytes(record) == encoded::<ManifestEnvelope>(envelope)
            &&& envelope.format_version == 1
            &&& match (record, envelope.record) {
                (RecordView::File(manifest), Some(ManifestRecordView::File(file))) => {
                    &&& file.file_id == uuid_bytes(manifest.file_id.value)
                    &&& file.revision_id == uuid_bytes(manifest.revision_id.value)
                    &&& file.relative_path == manifest.path.display
                    &&& file.size == manifest.size
                    &&& file.modified_at_unix_ms == manifest.modified_at_unix_ms
                    &&& writes_version(file.version, manifest.version)
                    &&& file.chunks.len() == manifest.chunks.len()
                    &&& forall|i: int|
                        0 <= i < manifest.chunks.len() ==> (#[trigger] file.chunks[i]).content_id
                            == manifest.chunks[i].content_id@ && file.chunks[i].plaintext_size
                            == manifest.chunks[i].plaintext_size
                },
                (
                    RecordView::Tombstone(tombstone),
                    Some(ManifestRecordView::Tombstone(written)),
                ) => {
                    &&& written.file_id == uuid_bytes(tombstone.file_id.value)
                    &&& written.revision_id == uuid_bytes(tombstone.revision_id.value)
                    &&& written.relative_path == tombstone.path.display
                    &&& written.deleted_at_unix_ms == tombstone.deleted_at_unix_ms
                    &&& writes_version(written.version, tombstone.version)
                },
                _ => false,
            }
        }),
{
}

/// A sound record is written as long as it fits into an object.
pub proof fn law_sound_records_are_written(record: RecordView)
    ensures
        encoded_record(record) is Ok <==> record_problem(record) is None && record_bytes(
            record,
        ).len() <= 67_108_776,
        encoded_record(record) matches Ok(bytes) ==> bytes == record_bytes(record),
        encoded_record(record) is Err && record_problem(record) is None ==> encoded_record(
            record,
        )->Err_0 == (ManifestProblem::PlaintextTooLarge {
            actual: record_bytes(record).len(),
            maximum: 67_108_776,
        }),
{
}

/// The bytes spell the identifier of a device, which is not the nil one.
pub open spec fn names_device(bytes: Seq<u8>, device_id: DeviceId) -> bool {
    device_id.value != 0 && bytes == uuid_bytes(device_id.value)
}

/// A version is read entry by entry, where there are entries, each names a device and counts
/// something, and the devices come in strict order; and not otherwise.
pub proof fn law_version_is_read_in_order(counters: Seq<VersionCounterView>)
    ensures
        read_version(counters) matches Ok(version) ==> {
            &&& counters.len() > 0
            &&& version.len() == counters.len()
            &&& forall|i: int|
                0 <= i < version.len() ==> {
                    &&& names_device((#[trigger] counters[i]).device_id, version[i].0)
                    &&& counters[i].counter == version[i].1
                    &&& version[i].1 > 0
                }
            &&& forall|i: int, j: int|
                0 <= i < j < version.len() ==> (#[trigger] version[i]).0.value < (
                #[trigger] version[j]).0.value
        },
{
    if read_version(counters) is Ok {
        lemma_entries(counters);
        lemma_first_zero(read_entries(counters)->Ok_0);
    }
}

/// A version that is written is read as it was, where it names devices in strict order and counts
/// something for each.
pub proof fn law_written_version_is_read(
    counters: Seq<VersionCounterView>,
    version: Seq<(DeviceId, u64)>,
)
    requires
        version.len() > 0,
        writes_version(counters, version),
        forall|i: int|
            0 <= i < version.len() ==> (#[trigger] version[i]).0.value != 0 && version[i].1 > 0,
        forall|i: int, j: int|
            0 <= i < j < version.len() ==> (#[trigger] version[i]).0.value < (
            #[trigger] version[j]).0.value,
    ensures
        read_version(counters) == Ok::<Seq<(DeviceId, u64)>, ManifestProblem>(version),
{
    lemma_written(counters, version);
    lemma_first_zero(version);
}

proof fn lemma_written(counters: Seq<VersionCounterView>, version: Seq<(DeviceId, u64)>)
    requires
        writes_version(counters, version),
        forall|i: int|
            0 <= i < version.len() ==> (#[trigger] version[i]).0.value != 0 && version[i].1 > 0,
        forall|i: int, j: int|
            0 <= i < j < version.len() ==> (#[trigger] version[i]).0.value < (
            #[trigger] version[j]).0.value,
    ensures
        read_entries(counters) == Ok::<Seq<(DeviceId, u64)>, ManifestProblem>(version),
    decreases counters.len(),
{
    if counters.len() == 0 {
        assert(version =~= seq![]);
    } else {
        let front = counters.drop_last();
        let before = version.drop_last();
        let last = version.len() - 1;
        assert forall|i: int| 0 <= i < before.len() implies (#[trigger] front[i]).device_id
            == uuid_bytes(before[i].0.value) && front[i].counter == before[i].1 by {
            assert(front[i] == counters[i]);
        }
        assert forall|i: int| 0 <= i < before.len() implies (#[trigger] before[i]).0.value != 0
            && before[i].1 > 0 by {
            assert(before[i] == version[i]);
        }
        assert forall|i: int, j: int| 0 <= i < j < before.len() implies (
        #[trigger] before[i]).0.value < (#[trigger] before[j]).0.value by {
            assert(before[i] == version[i] && before[j] == version[j]);
        }
        lemma_written(front, before);
        lemma_uuid_bytes(version[last].0.value);
        assert(counters[last].device_id == uuid_bytes(version[last].0.value));
        assert(version[last].0.value != 0);
        if before.len() > 0 {
            assert(before.last() == version[last - 1]);
            assert(version[last - 1].0.value < version[last].0.value);
        }
        assert(version =~= before.push(version[last]));
    }
}

proof fn lemma_entries(counters: Seq<VersionCounterView>)
    requires
        read_entries(counters) is Ok,
    ensures
        ({
            let entries = read_entries(counters)->Ok_0;
            &&& entries.len() == counters.len()
            &&& forall|i: int|
                0 <= i < entries.len() ==> {
                    &&& names_device((#[trigger] counters[i]).device_id, entries[i].0)
                    &&& counters[i].counter == entries[i].1
                }
            &&& forall|i: int, j: int|
                0 <= i < j < entries.len() ==> (#[trigger] entries[i]).0.value < (
                #[trigger] entries[j]).0.value
        }),
    decreases counters.len(),
{
    if counters.len() > 0 {
        let front = counters.drop_last();
        let last = counters.len() - 1;
        lemma_entries(front);
        let before = read_entries(front)->Ok_0;
        let entries = read_entries(counters)->Ok_0;
        lemma_uuid_of_bytes(counters.last().device_id);
        assert(counters[last] == counters.last());
        assert forall|i: int| 0 <= i < entries.len() implies {
            &&& names_device((#[trigger] counters[i]).device_id, entries[i].0)
            &&& counters[i].counter == entries[i].1
        } by {
            if i < last {
                assert(front[i] == counters[i]);
                assert(entries[i] == before[i]);
            }
        }
        assert forall|i: int, j: int| 0 <= i < j < entries.len() implies (
        #[trigger] entries[i]).0.value < (#[trigger] entries[j]).0.value by {
            assert(entries[i] == before[i]);
            if j < last {
                assert(entries[j] == before[j]);
            } else if i < last - 1 {
                assert(before[i].0.value < before[last - 1].0.value);
                assert(before.last() == before[last - 1]);
            } else {
                assert(before.last() == before[last - 1]);
            }
        }
    }
}

proof fn lemma_first_zero(entries: Seq<(DeviceId, u64)>)
    ensures
        first_zero(entries) is None <==> forall|i: int|
            0 <= i < entries.len() ==> (#[trigger] entries[i]).1 > 0,
    decreases entries.len(),
{
    if entries.len() > 0 {
        let before = entries.drop_last();
        lemma_first_zero(before);
        if first_zero(entries) is None {
            assert forall|i: int| 0 <= i < entries.len() implies (#[trigger] entries[i]).1 > 0 by {
                if i < before.len() {
                    assert(before[i] == entries[i]);
                }
            }
        }
        if forall|i: int| 0 <= i < entries.len() ==> (#[trigger] entries[i]).1 > 0 {
            assert forall|i: int| 0 <= i < before.len() implies (#[trigger] before[i]).1 > 0 by {
                assert(before[i] == entries[i]);
            }
            assert(entries.last() == entries[entries.len() - 1]);
        }
    }
}

/// The chunks of a record are read one for one.
pub proof fn law_chunks_are_read_one_for_one(references: Seq<ChunkReferenceView>)
    ensures
        read_chunks(references) is Ok <==> forall|i: int|
            0 <= i < references.len() ==> (#[trigger] references[i]).content_id.len() == 32,
        read_chunks(references) matches Ok(chunks) ==> {
            &&& chunks.len() == references.len()
            &&& forall|i: int|
                0 <= i < chunks.len() ==> {
                    &&& (#[trigger] references[i]).content_id == chunks[i].content_id@
                    &&& references[i].plaintext_size == chunks[i].plaintext_size
                }
        },
    decreases references.len(),
{
    if references.len() > 0 {
        let front = references.drop_last();
        let last = references.len() - 1;
        law_chunks_are_read_one_for_one(front);
        assert(references[last] == references.last());
        if references.last().content_id.len() == 32 {
            ContentId::lemma_of_bytes(references.last().content_id);
        }
        assert forall|i: int| 0 <= i < last implies front[i] == #[trigger] references[i] by {}
        if read_chunks(references) is Ok {
            let chunks = read_chunks(references)->Ok_0;
            let before = read_chunks(front)->Ok_0;
            assert forall|i: int| 0 <= i < references.len() implies (
            #[trigger] references[i]).content_id.len() == 32 by {
                if i < last {
                    assert(front[i].content_id.len() == 32);
                }
            }
            assert forall|i: int| 0 <= i < chunks.len() implies {
                &&& (#[trigger] references[i]).content_id == chunks[i].content_id@
                &&& references[i].plaintext_size == chunks[i].plaintext_size
            } by {
                if i < last {
                    assert(front[i] == references[i]);
                    assert(chunks[i] == before[i]);
                }
            }
        }
        if forall|i: int|
            0 <= i < references.len() ==> (#[trigger] references[i]).content_id.len() == 32 {
            assert forall|i: int| 0 <= i < front.len() implies (
            #[trigger] front[i]).content_id.len() == 32 by {
                assert(front[i] == references[i]);
            }
        }
    }
}

/// A record is sealed as an object of the first format under the identifier of what is written of
/// it, with the key of records, for its group.
pub proof fn law_record_is_sealed_under_its_identifier(
    keys: KeysView,
    record: RecordView,
    nonce: Seq<u8>,
)
    ensures
        match encoded_record(record) {
            Err(problem) => sealed_record(keys, record, nonce) matches Err(
                RecordProblem::Manifest(reason),
            ) && reason == problem,
            Ok(plaintext) => sealed_record(keys, record, nonce) matches Ok(sealed) && {
                let content_id = keys.content_id(ObjectKind::Manifest, plaintext);
                &&& sealed.content_id == content_id
                &&& sealed.bytes == envelope_bytes(
                    ObjectView {
                        format_version: 1,
                        kind: ObjectKind::Manifest,
                        content_id,
                        nonce,
                        ciphertext: aead_sealed(
                            keys.manifest_encryption_key,
                            nonce,
                            object_context(keys.group_id, 1, ObjectKind::Manifest, content_id),
                            plaintext,
                        ),
                    },
                )
            },
        },
{
}

/// The parts are those that the chunks name: each has its size and its identifier.
pub open spec fn are_parts_of(
    keys: KeysView,
    parts: Seq<Seq<u8>>,
    chunks: Seq<ChunkRef>,
) -> bool {
    &&& parts.len() == chunks.len()
    &&& forall|i: int|
        0 <= i < chunks.len() ==> {
            &&& (#[trigger] parts[i]).len() == chunks[i].plaintext_size
            &&& keys.content_id(ObjectKind::Chunk, parts[i]) == chunks[i].content_id
        }
}

/// A file is put together of the parts that its chunks name, in their order and each of its size,
/// and is as long as its record says.
pub proof fn law_file_is_put_together_of_its_chunks(
    store: StoreView,
    keys: KeysView,
    files: Seq<(ContentId, Seq<u8>)>,
    manifest: ManifestView,
) -> (parts: Seq<Seq<u8>>)
    requires
        file_content(store, keys, files, manifest).1 is Ok,
    ensures
        are_parts_of(keys, parts, manifest.chunks),
        file_content(store, keys, files, manifest).1->Ok_0 == joined(parts),
        joined(parts).len() == manifest.size,
{
    lemma_parts(store, keys, files, manifest.chunks)
}

proof fn lemma_parts(
    store: StoreView,
    keys: KeysView,
    files: Seq<(ContentId, Seq<u8>)>,
    chunks: Seq<ChunkRef>,
) -> (parts: Seq<Seq<u8>>)
    requires
        chunks_content(store, keys, files, chunks).1 is Ok,
    ensures
        are_parts_of(keys, parts, chunks),
        chunks_content(store, keys, files, chunks).1->Ok_0 == joined(parts),
    decreases chunks.len(),
{
    if chunks.len() == 0 {
        Seq::empty()
    } else {
        let front = chunks.drop_last();
        let before = lemma_parts(store, keys, files, front);
        let at = chunks_content(store, keys, files, front).0;
        let part = chunk_content(at, keys, files, chunks.last()).1->Ok_0;
        let parts = before.push(part);
        assert(parts.drop_last() =~= before);
        assert forall|i: int| 0 <= i < chunks.len() implies {
            &&& (#[trigger] parts[i]).len() == chunks[i].plaintext_size
            &&& keys.content_id(ObjectKind::Chunk, parts[i]) == chunks[i].content_id
        } by {
            if i < front.len() {
                assert(parts[i] == before[i]);
                assert(front[i] == chunks[i]);
            } else {
                assert(parts[i] == part);
            }
        }
        parts
    }
}

/// A request for objects is accepted where it has a number and asks for as many contents as the
/// limits admit, each of them once; and nowhere else.
pub proof fn law_request_asks_for_each_object_once(
    request: ObjectRequestView,
    limits: LimitsView,
)
    ensures
        requested(request, limits) is Ok <==> {
            &&& request.request_id.len() == 16
            &&& uuid_of_bytes(request.request_id) != 0
            &&& 1 <= request.content_ids.len() <= limits.maximum_content_ids_per_request
            &&& forall|i: int|
                0 <= i < request.content_ids.len() ==> (
                #[trigger] request.content_ids[i]).len() == 32
            &&& request.content_ids.no_duplicates()
        },
        requested(request, limits) matches Ok(accepted) ==> {
            &&& request.request_id == uuid_bytes(accepted.request_id)
            &&& accepted.content_ids.len() == request.content_ids.len()
            &&& forall|i: int|
                0 <= i < request.content_ids.len() ==> #[trigger] request.content_ids[i]
                    == accepted.content_ids[i]@
        },
{
    let strings = request.content_ids;
    if requested(request, limits) is Ok {
        lemma_uuid_of_bytes(request.request_id);
        lemma_requested(strings);
        let ids = requested_ids(strings)->Ok_0;
        assert forall|i: int| 0 <= i < strings.len() implies (#[trigger] strings[i]).len() == 32 by {
            ids[i].lemma_view();
        }
        assert forall|i: int, j: int| 0 <= i < strings.len() && 0 <= j < strings.len() && i
            != j implies strings[i] != strings[j] by {
            assert(strings[i] == ids[i]@ && strings[j] == ids[j]@);
            if ids[i]@ == ids[j]@ {
                lemma_same_id(ids[i], ids[j]);
            }
        }
    }
    if (forall|i: int| 0 <= i < strings.len() ==> (#[trigger] strings[i]).len() == 32)
        && strings.no_duplicates() {
        let ids = Seq::new(strings.len(), |i: int| ContentId::of_bytes(strings[i]));
        assert forall|i: int| 0 <= i < ids.len() implies #[trigger] strings[i] == ids[i]@ by {
            ContentId::lemma_of_bytes(strings[i]);
        }
        assert forall|i: int, j: int| 0 <= i < ids.len() && 0 <= j < ids.len() && i
            != j implies ids[i] != ids[j] by {
            assert(strings[i] == ids[i]@ && strings[j] == ids[j]@);
        }
        law_every_object_asked_for_is_read(ids, strings);
    }
}

proof fn lemma_requested(strings: Seq<Seq<u8>>)
    requires
        requested_ids(strings) is Ok,
    ensures
        ({
            let ids = requested_ids(strings)->Ok_0;
            &&& ids.len() == strings.len()
            &&& forall|i: int| 0 <= i < strings.len() ==> #[trigger] strings[i] == ids[i]@
            &&& ids.no_duplicates()
        }),
    decreases strings.len(),
{
    if strings.len() > 0 {
        let front = strings.drop_last();
        lemma_requested(front);
        let before = requested_ids(front)->Ok_0;
        let ids = requested_ids(strings)->Ok_0;
        ContentId::lemma_of_bytes(strings.last());
        assert forall|i: int| 0 <= i < strings.len() implies #[trigger] strings[i] == ids[i]@ by {
            if i < front.len() {
                assert(front[i] == strings[i]);
                assert(ids[i] == before[i]);
            }
        }
        assert forall|i: int, j: int| 0 <= i < ids.len() && 0 <= j < ids.len() && i != j implies ids[i]
            != ids[j] by {
            if i < front.len() && j < front.len() {
                assert(before[i] != before[j]);
            } else if i < front.len() {
                assert(before.contains(before[i]));
            } else {
                assert(before.contains(before[j]));
            }
        }
    }
}

/// Contents that are asked for, each of them once, are the ones that the request is read as.
pub proof fn law_every_object_asked_for_is_read(ids: Seq<ContentId>, strings: Seq<Seq<u8>>)
    requires
        ids.no_duplicates(),
        strings.len() == ids.len(),
        forall|i: int| 0 <= i < ids.len() ==> #[trigger] strings[i] == ids[i]@,
    ensures
        requested_ids(strings) == Ok::<Seq<ContentId>, ProtocolError>(ids),
    decreases ids.len(),
{
    if ids.len() == 0 {
        assert(ids =~= seq![]);
    } else {
        let front = strings.drop_last();
        let before = ids.drop_last();
        let last = ids.len() - 1;
        assert forall|i: int| 0 <= i < before.len() implies #[trigger] front[i] == before[i]@ by {
            assert(front[i] == strings[i]);
        }
        assert(before.no_duplicates());
        law_every_object_asked_for_is_read(before, front);
        ids[last].lemma_view();
        assert(strings[last] == ids[last]@);
        ContentId::lemma_of_bytes(ids[last]@);
        lemma_same_id(ids[last], ContentId::of_bytes(ids[last]@));
        if before.contains(ids[last]) {
            let i = before.index_of(ids[last]);
            assert(ids[i] == ids[last]);
        }
        assert(ids =~= before.push(ids[last]));
    }
}

proof fn lemma_same_id(one: ContentId, two: ContentId)
    requires
        one@ == two@,
    ensures
        one == two,
{
    one.lemma_view();
    two.lemma_view();
}

/// The header of a stream is accepted where it names a request and an object, which is neither too
/// small nor too large, and something of it is left behind the start; and nowhere else.
pub proof fn law_stream_brings_the_rest_of_an_object(
    header: ObjectStreamHeaderView,
    limits: LimitsView,
)
    ensures
        streamed(header, limits) is Ok <==> {
            &&& header.request_id.len() == 16
            &&& uuid_of_bytes(header.request_id) != 0
            &&& header.content_id.len() == 32
            &&& 88 <= header.encrypted_size <= limits.maximum_encrypted_object_bytes
            &&& header.start_offset < header.encrypted_size
        },
        streamed(header, limits) matches Ok(transfer) ==> transfer == (ValidatedObjectTransfer {
            request_id: uuid_of_bytes(header.request_id),
            content_id: ContentId::of_bytes(header.content_id),
            encrypted_size: header.encrypted_size,
            start_offset: header.start_offset,
        }),
{
}

/// What is read next of an object is what is left of it, at most sixty-four kibibytes at once.
pub proof fn law_object_is_read_to_its_end(receipt: ObjectReceipt)
    requires
        receipt.in_progress(),
    ensures
        ({
            let left = receipt.transfer.encrypted_size - receipt.offset;
            &&& 0 <= receipt.next_bytes() <= left
            &&& receipt.next_bytes() <= 65_536
            &&& receipt.next_bytes() == left || receipt.next_bytes() == 65_536
            &&& receipt.next_bytes() == 0 <==> receipt.offset == receipt.transfer.encrypted_size
        }),
{
}

/// What is not understood is passed over by the way in which it is written: a number, eight bytes,
/// bytes with their number, or four bytes.
pub proof fn law_unknown_values_are_passed_over(bytes: Seq<u8>, number: u32, limit: nat)
    requires
        limit > 0,
    ensures
        match read_varint(bytes, 0) {
            Some((length, count)) => {
                &&& skipped_len(bytes, number, 0, limit) == Some(count)
                &&& skipped_len(bytes, number, 2, limit) == if length + count <= bytes.len() {
                    Some(length + count)
                } else {
                    None
                }
            },
            None => {
                &&& skipped_len(bytes, number, 0, limit) is None
                &&& skipped_len(bytes, number, 2, limit) is None
            },
        },
        skipped_len(bytes, number, 1, limit) == if bytes.len() >= 8 {
            Some(8nat)
        } else {
            None
        },
        skipped_len(bytes, number, 5, limit) == if bytes.len() >= 4 {
            Some(4nat)
        } else {
            None
        },
        skipped_len(bytes, number, 4, limit) is None,
{
}

} // verus!
