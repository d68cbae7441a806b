//! The records of conflict copies: what becomes of the revision that loses its path.
use vstd::prelude::*;
use vstd::string::StringSliceAdditionalSpecFns;

use crate::bytes::append_bytes;
use crate::chance::Chance;
use crate::conflict_name::{conflict_copy_path, conflict_display};
use crate::envelope::ObjectKind;
use crate::identity::{stamped, stamped_uuid};
use crate::ids::{
    lemma_uuid_bytes, uuid_bytes, uuid_of_bytes, ContentId, DeviceId, FileId, RevisionId,
};
use crate::keys::{GroupKeys, KeysView};
use crate::loading::{
    record_error, record_failure, ApplyError, ApplyProblem, LoadedRecord, LoadedView,
};
use crate::opening::{file_of, seal_by, sealed_by, ObjectFiles, RecordError, SealedRecord};
use crate::outcome::agrees;
use crate::path::{path_forms, path_problem, PathForms, PathProblem, RelativePath};
use crate::record::{copy_chunks, ChangeRecord, FileManifest, ManifestView, RecordView};
use crate::store::{admission_verdict, with_object, Store, StoreView};
use crate::table::lookup;
use crate::text::{hex_text, push_hex};

verus! {

/// One entry of a version is before another: it has the smaller counter, or the same counter and
/// the smaller device.
pub open spec fn entry_before(left: (DeviceId, u64), right: (DeviceId, u64)) -> bool {
    left.1 < right.1 || (left.1 == right.1 && left.0.value < right.0.value)
}

/// The entry of a version that no other is after.
pub open spec fn leading_entry(entries: Seq<(DeviceId, u64)>) -> Option<(DeviceId, u64)>
    decreases entries.len(),
{
    if entries.len() == 0 {
        None
    } else {
        match leading_entry(entries.drop_last()) {
            Some(entry) => if entry_before(entries.last(), entry) {
                Some(entry)
            } else {
                Some(entries.last())
            },
            None => Some(entries.last()),
        }
    }
}

/// How the device that a revision comes from is named in a conflict copy's path.
pub open spec fn device_label(entries: Seq<(DeviceId, u64)>) -> Seq<char> {
    match leading_entry(entries) {
        None => "device"@,
        Some(entry) => "device-"@ + hex_text(uuid_bytes(entry.0.value).take(4)),
    }
}

/// What the digest for an identifier of a conflict copy is taken of.
pub open spec fn conflict_input(domain: Seq<u8>, source: ManifestView, path: PathForms) -> Seq<u8> {
    domain + uuid_bytes(source.file_id.value) + uuid_bytes(source.revision_id.value)
        + vstd::utf8::encode_utf8(path.display)
}

/// An identifier of a conflict copy.
pub open spec fn conflict_uuid(
    keys: KeysView,
    domain: Seq<u8>,
    source: ManifestView,
    path: PathForms,
) -> u128 {
    let input = conflict_input(domain, source, path);
    uuid_of_bytes(stamped(keys.content_id(ObjectKind::Manifest, input)@, 0x50))
}

/// The record of the conflict copy of a revision.
pub open spec fn conflict_manifest(keys: KeysView, source: ManifestView) -> Result<
    ManifestView,
    PathProblem,
> {
    let display = conflict_display(
        source.path.display,
        device_label(source.version),
        source.modified_at_unix_ms as int,
        source.revision_id,
    );
    match path_problem(display) {
        Some(problem) => Err(problem),
        None => {
            let path = path_forms(display);
            Ok(
                ManifestView {
                    file_id: FileId {
                        value: conflict_uuid(
                            keys,
                            "orbit/conflict-file-id/v1".spec_bytes(),
                            source,
                            path,
                        ),
                    },
                    revision_id: RevisionId {
                        value: conflict_uuid(
                            keys,
                            "orbit/conflict-revision-id/v1".spec_bytes(),
                            source,
                            path,
                        ),
                    },
                    path,
                    ..source
                },
            )
        },
    }
}

fn label_of(entries: &Vec<(DeviceId, u64)>) -> (label: String)
    ensures
        label@ == device_label(entries@),
{
    let mut leader: Option<(DeviceId, u64)> = None;
    let mut index: usize = 0;
    assert(entries@.take(0) =~= seq![]);
    while index < entries.len()
        invariant
            index <= entries@.len(),
            leader == leading_entry(entries@.take(index as int)),
        decreases entries@.len() - index,
    {
        proof {
            assert(entries@.take(index + 1).drop_last() =~= entries@.take(index as int));
            assert(entries@.take(index + 1).last() == entries@[index as int]);
        }
        let entry: (DeviceId, u64) = entries[index];
        leader =
        match leader {
            Some(best) => if entry.1 < best.1 || (entry.1 == best.1 && entry.0.value
                < best.0.value) {
                Some(best)
            } else {
                Some(entry)
            },
            None => Some(entry),
        };
        index += 1;
    }
    assert(entries@.take(index as int) =~= entries@);
    match leader {
        Some(entry) => {
            let mut label: String = "device-".to_owned();
            let bytes: [u8; 16] = entry.0.to_bytes();
            proof {
                lemma_uuid_bytes(entry.0.value);
                assert(bytes@.subrange(0, 4) =~= bytes@.take(4));
            }
            push_hex(&mut label, vstd::slice::slice_subrange(bytes.as_slice(), 0, 4));
            label
        },
        None => "device".to_owned(),
    }
}

/// Derives an identifier of the conflict copy of a revision.
pub fn derive_conflict_uuid(
    keys: &GroupKeys,
    domain: &[u8],
    source: &FileManifest,
    relative_path: &RelativePath,
) -> (value: u128)
    ensures
        value == conflict_uuid(keys@, domain@, source@, relative_path@),
{
    let mut input: Vec<u8> = Vec::new();
    append_bytes(&mut input, domain);
    append_bytes(&mut input, source.file_id.to_bytes().as_slice());
    append_bytes(&mut input, source.revision_id.to_bytes().as_slice());
    append_bytes(&mut input, relative_path.as_str().as_bytes());
    assert(input@ =~= conflict_input(domain@, source@, relative_path@));
    let digest: [u8; 32] = keys.identify_manifest(input.as_slice()).as_bytes();
    stamped_uuid(&digest, 0x50)
}

/// Derives the record of the conflict copy of a revision.
pub fn conflict_record(source: &FileManifest, keys: &GroupKeys) -> (result: Result<
    FileManifest,
    ApplyError,
>)
    ensures
        match result {
            Ok(manifest) => conflict_manifest(keys@, source@) == Ok::<ManifestView, PathProblem>(
                manifest@,
            ),
            Err(error) => conflict_manifest(keys@, source@) is Err && error@ == ApplyProblem::Path(
                conflict_manifest(keys@, source@)->Err_0,
            ),
        },
{
    let label: String = label_of(&source.version.iter());
    let relative_path: RelativePath = match conflict_copy_path(
        &source.relative_path,
        label.as_str(),
        source.modified_at_unix_ms,
        source.revision_id,
    ) {
        Ok(path) => path,
        Err(error) => {
            return Err(ApplyError::Path(error));
        },
    };
    let file_id: u128 = derive_conflict_uuid(
        keys,
        "orbit/conflict-file-id/v1".as_bytes(),
        source,
        &relative_path,
    );
    let revision_id: u128 = derive_conflict_uuid(
        keys,
        "orbit/conflict-revision-id/v1".as_bytes(),
        source,
        &relative_path,
    );
    Ok(
        FileManifest {
            file_id: FileId { value: file_id },
            revision_id: RevisionId { value: revision_id },
            relative_path,
            size: source.size,
            modified_at_unix_ms: source.modified_at_unix_ms,
            version: source.version.clone(),
            chunks: copy_chunks(&source.chunks),
        },
    )
}

/// The conflict copy of a revision as it is stored under the nonce that chance gives, and the store
/// with it.
pub open spec fn conflict_derived(
    store: StoreView,
    keys: KeysView,
    files: Seq<(ContentId, Seq<u8>)>,
    source: ManifestView,
    nonce: Option<Seq<u8>>,
    now: i64,
) -> (StoreView, Result<LoadedView, ApplyProblem>) {
    match conflict_manifest(keys, source) {
        Err(problem) => (store, Err(ApplyProblem::Path(problem))),
        Ok(manifest) => match sealed_by(keys, RecordView::File(manifest), nonce) {
            Err(problem) => (store, Err(record_failure(problem))),
            Ok(sealed) => {
                let existing = lookup(files, sealed.content_id);
                match admission_verdict(
                    keys,
                    ObjectKind::Manifest,
                    sealed.content_id,
                    sealed.bytes,
                    existing,
                ) {
                    Err(error) => (store, Err(ApplyProblem::Store(error))),
                    Ok(_) => (
                        with_object(
                            store,
                            keys,
                            ObjectKind::Manifest,
                            sealed.content_id,
                            sealed.bytes,
                            existing,
                            now,
                        ),
                        Ok(
                            LoadedView {
                                record: RecordView::File(manifest),
                                content_id: sealed.content_id,
                                authorization: None,
                                encrypted_bytes: sealed.bytes,
                            },
                        ),
                    ),
                }
            },
        },
    }
}

/// Derives the conflict copy of a revision and admits its manifest, sealed under the nonce that
/// chance gives. `files` holds the file of that manifest where there is one.
pub fn derive_conflict_record(
    source: &FileManifest,
    keys: &GroupKeys,
    store: &mut Store,
    files: &ObjectFiles,
    chance: &Chance,
    now: i64,
) -> (result: Result<LoadedRecord, ApplyError>)
    ensures
        exists|nonce: Option<Seq<u8>>|
            {
                let (after, outcome) = #[trigger] conflict_derived(
                    old(store)@,
                    keys@,
                    files@,
                    source@,
                    nonce,
                    now,
                );
                chance.allows_nonce(nonce) && final(store)@ == after && agrees(result, outcome)
            },
{
    let ghost before = store@;
    let ghost unasked = conflict_derived(
        before,
        keys@,
        files@,
        source@,
        chance.unasked().nonce,
        now,
    );
    assert(chance.allows_nonce(chance.unasked().nonce));
    let record: ChangeRecord = ChangeRecord::File(conflict_record(source, keys)?);
    let sealing: Result<SealedRecord, RecordError> = seal_by(keys, &record, chance);
    let ghost nonce = choose|nonce: Option<Seq<u8>>|
        chance.allows_nonce(nonce) && agrees(
            sealing,
            #[trigger] sealed_by(keys@, record@, nonce),
        );
    let ghost derived = conflict_derived(before, keys@, files@, source@, nonce, now);
    let sealed: SealedRecord = match sealing {
        Ok(sealed) => sealed,
        Err(error) => {
            return Err(record_error(error));
        },
    };
    match store.admit_object(
        keys,
        ObjectKind::Manifest,
        sealed.content_id,
        sealed.bytes.as_slice(),
        file_of(files, sealed.content_id),
        now,
    ) {
        Ok(_) => Ok(
            LoadedRecord {
                record,
                content_id: sealed.content_id,
                authorization: None,
                encrypted_bytes: sealed.bytes,
            },
        ),
        Err(error) => Err(ApplyError::Store(error)),
    }
}

/// The label of a conflict copy names the device with the highest counter.
pub proof fn law_label_names_the_leading_device(entries: Seq<(DeviceId, u64)>)
    ensures
        match leading_entry(entries) {
            Some(entry) => {
                &&& entries.contains(entry)
                &&& forall|other: (DeviceId, u64)|
                    #[trigger] entries.contains(other) ==> !entry_before(entry, other)
            },
            None => entries.len() == 0,
        },
    decreases entries.len(),
{
    if entries.len() > 0 {
        let front = entries.drop_last();
        law_label_names_the_leading_device(front);
        assert(entries[entries.len() - 1] == entries.last());
        assert forall|other: (DeviceId, u64)| #[trigger] entries.contains(other) implies other
            == entries.last() || front.contains(other) by {
            let k = choose|k: int| 0 <= k < entries.len() && entries[k] == other;
            if k < front.len() {
                assert(front[k] == other);
            }
        }
        if let Some(entry) = leading_entry(front) {
            let k = choose|k: int| 0 <= k < front.len() && front[k] == entry;
            assert(entries[k] == entry);
        }
    }
}

/// Every device that holds a revision derives the same conflict copy of it: the same record under
/// the same identifier, whatever the nonce and whatever else it holds.
pub proof fn law_conflict_copies_converge(
    store: StoreView,
    other: StoreView,
    keys: KeysView,
    files: Seq<(ContentId, Seq<u8>)>,
    other_files: Seq<(ContentId, Seq<u8>)>,
    source: ManifestView,
    nonce: Option<Seq<u8>>,
    other_nonce: Option<Seq<u8>>,
    now: i64,
    other_now: i64,
)
    ensures
        match (
            conflict_derived(store, keys, files, source, nonce, now).1,
            conflict_derived(other, keys, other_files, source, other_nonce, other_now).1,
        ) {
            (Ok(one), Ok(two)) => one.record == two.record && one.content_id == two.content_id,
            _ => true,
        },
{
}

/// A conflict copy has the contents, the time and the version of the revision that it copies.
pub proof fn law_conflict_copy_keeps_the_contents(keys: KeysView, source: ManifestView)
    requires
        conflict_manifest(keys, source) is Ok,
    ensures
        ({
            let copy = conflict_manifest(keys, source)->Ok_0;
            &&& copy.chunks == source.chunks
            &&& copy.size == source.size
            &&& copy.modified_at_unix_ms == source.modified_at_unix_ms
            &&& copy.version == source.version
        }),
{
}

} // verus!
