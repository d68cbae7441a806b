//! What a scan puts on record of a file: that it is new, that it was edited, or that it is gone.
use vstd::prelude::*;

use crate::catalog::MemberStatus;
use crate::conflict::{law_descendant_wins, reconciled, ReconcileAction, ReconcileError};
use crate::history::{pending_keys, pending_list};
use crate::ids::{is_random_uuid, DeviceId, GroupId};
use crate::keys::KeysView;
use crate::opening::SealedRecord;
use crate::order::{lemma_sorted, sorted};
use crate::path::PathForms;
use crate::placement::{milliseconds_at, Timestamp};
use crate::record::{ChangeRecord, ManifestView, RecordView, TombstoneView};
use crate::scan::{
    attempt_judged, is_fresh_revision, is_fresh_tombstone, is_revised, scan_problem, with_chunk,
    AttemptView, ChunkFate, FileSnapshot, IngestedView, ReadingView, ScanError, ScanProblem,
};
use crate::store::{member_at, StoreView};
use crate::version::{counter_of, law_increment_descends, relation_of, VersionRelation};

verus! {

/// A file is as it was recorded: it has the path, the size, the time and the chunks of the
/// record.
pub open spec fn is_as_it_was(
    previous: Option<RecordView>,
    path: PathForms,
    file: IngestedView,
) -> bool {
    &&& previous matches Some(RecordView::File(manifest))
    &&& manifest.path == path
    &&& manifest.size == file.plaintext_bytes
    &&& manifest.modified_at_unix_ms == file.modified_at_unix_ms
    &&& manifest.chunks == file.chunks
}

/// A file gets a new revision exactly where it is not as it was recorded, unless the counter of
/// the device is full or the record cannot be sealed.
pub proof fn law_revision_is_drawn_up_for_every_edit(
    keys: KeysView,
    previous: Option<RecordView>,
    path: PathForms,
    file: IngestedView,
    device_id: DeviceId,
    result: Result<Option<(ChangeRecord, SealedRecord)>, ScanError>,
)
    requires
        is_revised(keys, previous, path, file, device_id, result),
    ensures
        is_as_it_was(previous, path, file) ==> result is Ok && result->Ok_0 is None,
        !is_as_it_was(previous, path, file) ==> result is Err || result->Ok_0 is Some,
{
}

/// A new revision of a file that is on record, be it as a file or as a deletion, follows on it:
/// it is a revision of the same file, with the contents that were read, and its version is the
/// recorded one with one more change by this device. So it takes the place of what it follows
/// on, everywhere.
pub proof fn law_revision_follows_on_its_predecessor(
    keys: KeysView,
    previous: RecordView,
    path: PathForms,
    file: IngestedView,
    device_id: DeviceId,
    record: ChangeRecord,
    sealed: SealedRecord,
)
    requires
        is_revised(keys, Some(previous), path, file, device_id, Ok(Some((record, sealed)))),
    ensures
        record@ is File,
        record@.file_id() == previous.file_id(),
        is_random_uuid(record@.revision_id().value),
        record@.path() == path,
        record@->File_0.size == file.plaintext_bytes,
        record@->File_0.modified_at_unix_ms == file.modified_at_unix_ms,
        record@->File_0.chunks == file.chunks,
        counter_of(record@.version(), device_id) == counter_of(previous.version(), device_id) + 1,
        forall|other: DeviceId|
            other != device_id ==> #[trigger] counter_of(record@.version(), other) == counter_of(
                previous.version(),
                other,
            ),
        relation_of(previous.version(), record@.version()) == VersionRelation::Ancestor,
        record@.revision_id() != previous.revision_id() ==> reconciled(previous, record@) == Ok::<
            ReconcileAction,
            ReconcileError,
        >(ReconcileAction::UseIncoming),
{
    let manifest = choose|manifest: ManifestView|
        #[trigger] is_fresh_revision(Some(previous), path, file, device_id, manifest)
            && record@ == RecordView::File(manifest);
    law_increment_descends(previous.version(), manifest.version, device_id);
    if record@.revision_id() != previous.revision_id() {
        law_descendant_wins(previous, record@);
    }
}

/// The first revision of a file is that of a new file, with the contents that were read and one
/// change, by this device.
pub proof fn law_first_revision_starts_a_file(
    keys: KeysView,
    path: PathForms,
    file: IngestedView,
    device_id: DeviceId,
    record: ChangeRecord,
    sealed: SealedRecord,
)
    requires
        is_revised(keys, None, path, file, device_id, Ok(Some((record, sealed)))),
    ensures
        record@ is File,
        is_random_uuid(record@.file_id().value),
        is_random_uuid(record@.revision_id().value),
        record@.path() == path,
        record@->File_0.size == file.plaintext_bytes,
        record@->File_0.modified_at_unix_ms == file.modified_at_unix_ms,
        record@->File_0.chunks == file.chunks,
        counter_of(record@.version(), device_id) == 1,
        forall|other: DeviceId|
            other != device_id ==> #[trigger] counter_of(record@.version(), other) == 0,
{
    let manifest = choose|manifest: ManifestView|
        #[trigger] is_fresh_revision(None, path, file, device_id, manifest) && record@
            == RecordView::File(manifest);
    assert(forall|other: DeviceId| #[trigger] counter_of(seq![], other) == 0);
    assert(counter_of(manifest.version, device_id) == 1);
}

/// The deletion of a file follows on the file: it deletes that file at its path, at the time of
/// the scan, and its version is that of the file with one more change by this device. So it
/// takes the place of the file, everywhere.
pub proof fn law_deletion_follows_on_its_file(
    manifest: ManifestView,
    device_id: DeviceId,
    now: Timestamp,
    tombstone: TombstoneView,
)
    requires
        is_fresh_tombstone(manifest, device_id, now, tombstone),
    ensures
        tombstone.file_id == manifest.file_id,
        tombstone.path == manifest.path,
        is_random_uuid(tombstone.revision_id.value),
        milliseconds_at(now) == Some(tombstone.deleted_at_unix_ms),
        counter_of(tombstone.version, device_id) == counter_of(manifest.version, device_id) + 1,
        forall|other: DeviceId|
            other != device_id ==> #[trigger] counter_of(tombstone.version, other) == counter_of(
                manifest.version,
                other,
            ),
        relation_of(manifest.version, tombstone.version) == VersionRelation::Ancestor,
        tombstone.revision_id != manifest.revision_id ==> reconciled(
            RecordView::File(manifest),
            RecordView::Tombstone(tombstone),
        ) == Ok::<ReconcileAction, ReconcileError>(ReconcileAction::UseIncoming),
{
    law_increment_descends(manifest.version, tombstone.version, device_id);
    if tombstone.revision_id != manifest.revision_id {
        law_descendant_wins(RecordView::File(manifest), RecordView::Tombstone(tombstone));
    }
}

/// A file is taken as it was read only where nothing touched it meanwhile; else it is read
/// again, as often as the limit allows.
pub proof fn law_only_a_file_at_rest_is_taken(
    maximum_attempts: nat,
    reading: ReadingView,
    before: FileSnapshot,
    after_handle: FileSnapshot,
    after_path: Option<FileSnapshot>,
)
    ensures
        ({
            let at_rest = after_handle == before && after_path == Some(before);
            match attempt_judged(maximum_attempts, reading, before, after_handle, after_path) {
                Ok(AttemptView::Stable(file)) => {
                    &&& at_rest
                    &&& file.chunks == reading.chunks
                    &&& file.plaintext_bytes == before.length
                    &&& milliseconds_at(before.modified_at) == Some(file.modified_at_unix_ms)
                },
                Ok(AttemptView::Again) => !at_rest && reading.attempts < maximum_attempts,
                Err(ScanProblem::FileChangedDuringRead { attempts }) => {
                    &&& !at_rest
                    &&& reading.attempts >= maximum_attempts
                    &&& attempts == maximum_attempts
                },
                Err(ScanProblem::TimestampOutOfRange) => at_rest && milliseconds_at(
                    before.modified_at,
                ) is None,
                Err(_) => false,
            }
        }),
{
}

/// Every chunk that is read is listed in the file, after those that were read before, whether
/// it is stored now or was there; and it is counted as the one or the other.
pub proof fn law_every_chunk_is_listed(
    reading: ReadingView,
    content_id: crate::ids::ContentId,
    size: nat,
    fate: ChunkFate,
)
    requires
        size <= u32::MAX,
    ensures
        ({
            let after = with_chunk(reading, content_id, size, fate);
            &&& after.chunks.len() == reading.chunks.len() + 1
            &&& forall|i: int|
                0 <= i < reading.chunks.len() ==> #[trigger] after.chunks[i] == reading.chunks[i]
            &&& after.chunks[reading.chunks.len() as int].content_id == content_id
            &&& after.chunks[reading.chunks.len() as int].plaintext_size == size
            &&& after.attempts == reading.attempts
            &&& fate is Stored ==> after.chunks_stored == reading.chunks_stored + 1
                && after.chunks_reused == reading.chunks_reused
            &&& fate is Reused ==> after.chunks_stored == reading.chunks_stored
                && after.chunks_reused == reading.chunks_reused + 1
        }),
{
}

proof fn lemma_pending_keys(
    rows: Seq<(crate::catalog::PathKey, crate::catalog::PendingRowView)>,
    group_id: GroupId,
)
    ensures
        pending_keys(rows, group_id).len() == 0 <==> forall|i: int|
            0 <= i < rows.len() ==> (#[trigger] rows[i]).0.group_id != group_id,
    decreases rows.len(),
{
    if rows.len() > 0 {
        let front = rows.drop_last();
        lemma_pending_keys(front, group_id);
        assert forall|i: int| 0 <= i < front.len() implies #[trigger] front[i] == rows[i] by {}
        assert(rows[rows.len() - 1] == rows.last());
        if forall|i: int| 0 <= i < rows.len() ==> (#[trigger] rows[i]).0.group_id != group_id {
            assert forall|i: int| 0 <= i < front.len() implies (#[trigger] front[i]).0.group_id
                != group_id by {
                assert(rows[i].0.group_id != group_id);
            }
        } else {
            if pending_keys(rows, group_id).len() == 0 {
                assert forall|i: int| 0 <= i < rows.len() implies (#[trigger] rows[i]).0.group_id
                    != group_id by {
                    if i < front.len() {
                        assert(front[i].0.group_id != group_id);
                    }
                }
            }
        }
    }
}

proof fn lemma_pending_list(
    store: StoreView,
    group_id: GroupId,
    keys: Seq<crate::order::SortKey>,
)
    ensures
        pending_list(store, group_id, keys) matches Ok(list) ==> list.len() == keys.len(),
    decreases keys.len(),
{
    if keys.len() > 0 {
        lemma_pending_list(store, group_id, keys.drop_last());
    }
}

/// A folder is scanned exactly where its device is an active member of the group and no change
/// of the group is still to be put into the folder.
pub proof fn law_scan_waits_for_what_is_pending(
    store: StoreView,
    group_id: GroupId,
    device_id: DeviceId,
)
    ensures
        scan_problem(store, group_id, device_id) is None <==> {
            &&& member_at(store, group_id, device_id) matches Ok(Some(member))
            &&& member.status == MemberStatus::Active
            &&& forall|i: int|
                0 <= i < store.pending.len() ==> (#[trigger] store.pending[i]).0.group_id
                    != group_id
        },
{
    let keys = pending_keys(store.pending, group_id);
    lemma_pending_keys(store.pending, group_id);
    lemma_sorted(keys);
    lemma_pending_list(store, group_id, sorted(keys));
}

} // verus!
