//! Which objects a step looks at: those whose files have to be read for it.
use vstd::prelude::*;

use crate::applier::{apply_begun, both_kept, conflict_begun, conflict_files, head_met};
use crate::apply::{ensured, OutcomeView};
use crate::batch::{validated_batch, validated_changes, ChangeView};
use crate::chance::DrawView;
use crate::conflict::{reconciled, ReconcileAction};
use crate::conflict_record::{conflict_derived, conflict_manifest, conflict_record};
use crate::envelope::ObjectKind;
use crate::exchange::{
    after_looks, append_ids, incoming_batch, incoming_change, incoming_changes, missing_of,
    outgoing_changes, tallied, ChangeFate,
};
use crate::history::{change_page, head_at, LocalHead, StoredChange};
use crate::identity::AuthorizationView;
use crate::ids::{ContentId, DeviceId, GroupId, RevisionId};
use crate::keys::{GroupKeys, KeysView};
use crate::loading::{
    attached, chunks_checked, head_loaded, preflighted, record_loaded, LoadedView,
};
use crate::manifest::{encode_change_record, encoded_record};
use crate::message::list_view;
use crate::oneof::{
    ControlEnvelope, ControlEnvelopeView, ControlMessage, ControlMessageView,
};
use crate::opening::{file_of, open_record, opened_record, ObjectFiles};
use crate::order::{lemma_ordered_ids, ordered_ids};
use crate::protocol::LimitsView;
use crate::record::{ChangeRecord, ManifestView, RecordView};
use crate::serve::message_served;
use crate::store::{
    with_authentication, with_object, with_requests, Store, StoreView,
};
use crate::table::lookup;
use crate::wire::{ChangeBatch, ChangeBatchView, EncryptedChange, EncryptedChangeView};

verus! {

/// The record in the file of a manifest.
pub open spec fn record_at(
    keys: KeysView,
    files: Seq<(ContentId, Seq<u8>)>,
    content_id: ContentId,
) -> Option<RecordView> {
    match lookup(files, content_id) {
        None => None,
        Some(bytes) => match opened_record(keys, content_id, bytes) {
            Err(_) => None,
            Ok(record) => Some(record),
        },
    }
}

/// The identifier of the conflict copy that a record may leave.
pub open spec fn copy_id(keys: KeysView, record: RecordView) -> Option<ContentId> {
    match record {
        RecordView::Tombstone(_) => None,
        RecordView::File(manifest) => match conflict_manifest(keys, manifest) {
            Err(_) => None,
            Ok(copy) => match encoded_record(RecordView::File(copy)) {
                Err(_) => None,
                Ok(plaintext) => Some(keys.content_id(ObjectKind::Manifest, plaintext)),
            },
        },
    }
}

/// The objects that a record stands for: its chunks and the conflict copy that it may leave.
pub open spec fn objects_of(keys: KeysView, record: RecordView) -> Seq<ContentId> {
    record.chunk_ids() + match copy_id(keys, record) {
        Some(content_id) => seq![content_id],
        None => seq![],
    }
}

/// The head of the path of a record.
pub open spec fn rival_of(store: StoreView, keys: KeysView, record: RecordView) -> Option<
    LocalHead,
> {
    head_at(store, keys.group_id, keys.path_id(record.path().comparison_key))
}

/// The manifest of the head of the path of a record, and the objects that it stands for.
pub open spec fn rival_objects(
    store: StoreView,
    keys: KeysView,
    files: Seq<(ContentId, Seq<u8>)>,
    incoming: RecordView,
) -> Seq<ContentId> {
    match rival_of(store, keys, incoming) {
        None => seq![],
        Some(head) => match record_at(keys, files, head.content_id) {
            None => seq![head.content_id],
            Some(local) => seq![head.content_id] + objects_of(keys, local),
        },
    }
}

/// The objects that applying a change looks at, as far as the files show them: its manifest, what
/// that stands for, the manifest of the head of its path, and what this one stands for.
pub open spec fn objects_met(
    store: StoreView,
    keys: KeysView,
    files: Seq<(ContentId, Seq<u8>)>,
    target_content_id: ContentId,
) -> Seq<ContentId> {
    match record_at(keys, files, target_content_id) {
        None => seq![target_content_id],
        Some(incoming) => seq![target_content_id] + objects_of(keys, incoming) + rival_objects(
            store,
            keys,
            files,
            incoming,
        ),
    }
}

fn read_record(keys: &GroupKeys, files: &ObjectFiles, content_id: ContentId) -> (record: Option<
    ChangeRecord,
>)
    ensures
        match record {
            Some(record) => record_at(keys@, files@, content_id) == Some(record@),
            None => record_at(keys@, files@, content_id) is None,
        },
{
    match file_of(files, content_id) {
        None => None,
        Some(bytes) => match open_record(keys, content_id, bytes) {
            Ok(record) => Some(record),
            Err(_) => None,
        },
    }
}

fn identify_copy(keys: &GroupKeys, record: &ChangeRecord) -> (content_id: Option<ContentId>)
    ensures
        content_id == copy_id(keys@, record@),
{
    match record {
        ChangeRecord::Tombstone(_) => None,
        ChangeRecord::File(manifest) => match conflict_record(manifest, keys) {
            Err(_) => None,
            Ok(copy) => match encode_change_record(&ChangeRecord::File(copy)) {
                Err(_) => None,
                Ok(plaintext) => Some(keys.identify_manifest(plaintext.as_slice())),
            },
        },
    }
}

fn add_record(content_ids: &mut Vec<ContentId>, keys: &GroupKeys, record: &ChangeRecord)
    ensures
        final(content_ids)@ == old(content_ids)@ + objects_of(keys@, record@),
{
    let ghost before = content_ids@;
    append_ids(content_ids, &record.chunk_ids());
    if let Some(content_id) = identify_copy(keys, record) {
        content_ids.push(content_id);
    }
    assert(content_ids@ =~= before + objects_of(keys@, record@));
}

fn add_rival(
    content_ids: &mut Vec<ContentId>,
    keys: &GroupKeys,
    store: &Store,
    files: &ObjectFiles,
    incoming: &ChangeRecord,
)
    ensures
        final(content_ids)@ == old(content_ids)@ + rival_objects(store@, keys@, files@, incoming@),
{
    let ghost before = content_ids@;
    if let Some(head) = store.local_head(
        keys.group_id(),
        keys.identify_path(incoming.relative_path()),
    ) {
        content_ids.push(head.content_id);
        if let Some(local) = read_record(keys, files, head.content_id) {
            add_record(content_ids, keys, &local);
        }
    }
    assert(content_ids@ =~= before + rival_objects(store@, keys@, files@, incoming@));
}

/// Tells which objects applying a change looks at, as far as the files that have been read show
/// them.
pub fn needed_objects(
    target_content_id: ContentId,
    keys: &GroupKeys,
    store: &Store,
    files: &ObjectFiles,
) -> (content_ids: Vec<ContentId>)
    ensures
        content_ids@ == objects_met(store@, keys@, files@, target_content_id),
{
    let mut content_ids: Vec<ContentId> = Vec::new();
    content_ids.push(target_content_id);
    assert(content_ids@ =~= seq![target_content_id]);
    if let Some(incoming) = read_record(keys, files, target_content_id) {
        add_record(&mut content_ids, keys, &incoming);
        add_rival(&mut content_ids, keys, store, files, &incoming);
    }
    content_ids
}

/// Two sets of files hold the same for the given objects.
pub open spec fn same_files(
    files: Seq<(ContentId, Seq<u8>)>,
    other: Seq<(ContentId, Seq<u8>)>,
    content_ids: Seq<ContentId>,
) -> bool {
    forall|id: ContentId| #[trigger]
        content_ids.contains(id) ==> lookup(files, id) == lookup(other, id)
}

proof fn lemma_same_preflight(
    store: StoreView,
    keys: KeysView,
    files: Seq<(ContentId, Seq<u8>)>,
    other: Seq<(ContentId, Seq<u8>)>,
    chunks: Seq<ContentId>,
)
    requires
        same_files(files, other, chunks),
    ensures
        preflighted(store, keys, files, chunks) == preflighted(store, keys, other, chunks),
    decreases chunks.len(),
{
    if chunks.len() > 0 {
        let front = chunks.drop_last();
        assert forall|id: ContentId| #[trigger] front.contains(id) implies lookup(files, id)
            == lookup(other, id) by {
            let i = choose|i: int| 0 <= i < front.len() && front[i] == id;
            assert(chunks[i] == id);
            assert(chunks.contains(id));
        }
        lemma_same_preflight(store, keys, files, other, front);
        assert(chunks[chunks.len() - 1] == chunks.last());
        assert(chunks.contains(chunks.last()));
    }
}

proof fn lemma_same_check(
    store: StoreView,
    keys: KeysView,
    files: Seq<(ContentId, Seq<u8>)>,
    other: Seq<(ContentId, Seq<u8>)>,
    record: RecordView,
)
    requires
        same_files(files, other, record.chunk_ids()),
    ensures
        chunks_checked(store, keys, files, record) == chunks_checked(store, keys, other, record),
{
    lemma_ordered_ids(record.chunk_ids());
    lemma_same_preflight(store, keys, files, other, ordered_ids(record.chunk_ids()));
}

proof fn lemma_same_conflict(
    store: StoreView,
    keys: KeysView,
    files: Seq<(ContentId, Seq<u8>)>,
    other: Seq<(ContentId, Seq<u8>)>,
    local: ManifestView,
    previous: ContentId,
    incoming: LoadedView,
    incoming_manifest: ManifestView,
    canonical: bool,
    canonical_revision: RevisionId,
    conflict_revision: RevisionId,
    draw: DrawView,
    now: i64,
)
    requires
        same_files(files, other, objects_of(keys, RecordView::File(local))),
        same_files(files, other, objects_of(keys, RecordView::File(incoming_manifest))),
        lookup(files, incoming.content_id) == lookup(other, incoming.content_id),
    ensures
        conflict_begun(
            store,
            keys,
            files,
            local,
            previous,
            incoming,
            incoming_manifest,
            canonical,
            canonical_revision,
            conflict_revision,
            draw,
            now,
        ) == conflict_begun(
            store,
            keys,
            other,
            local,
            previous,
            incoming,
            incoming_manifest,
            canonical,
            canonical_revision,
            conflict_revision,
            draw,
            now,
        ),
{
    let source = if canonical {
        local
    } else {
        incoming_manifest
    };
    let record = RecordView::File(source);
    if let Some(content_id) = copy_id(keys, record) {
        let ids = objects_of(keys, record);
        assert(ids[ids.len() - 1] == content_id);
        assert(ids.contains(content_id));
    }
    let (derived, result) = conflict_derived(store, keys, files, source, draw.nonce, now);
    assert(conflict_derived(store, keys, other, source, draw.nonce, now) == (derived, result));
    if let Ok(conflict) = result {
        assert(conflict_files(keys, files, conflict) == conflict_files(keys, other, conflict));
        let (after, begun) = ensured(
            derived,
            keys,
            conflict_files(keys, files, conflict),
            conflict,
            None,
            true,
            draw.token,
        );
        let outcome = OutcomeView::KeptBoth {
            canonical_revision,
            conflict_revision,
            conflict_path: conflict.record.path(),
        };
        assert(both_kept(
            after,
            keys,
            files,
            canonical,
            incoming,
            previous,
            outcome,
            draw.token,
        ) == both_kept(after, keys, other, canonical, incoming, previous, outcome, draw.token));
    }
}

proof fn lemma_part(
    files: Seq<(ContentId, Seq<u8>)>,
    other: Seq<(ContentId, Seq<u8>)>,
    whole: Seq<ContentId>,
    part: Seq<ContentId>,
)
    requires
        same_files(files, other, whole),
        forall|i: int| 0 <= i < part.len() ==> whole.contains(#[trigger] part[i]),
    ensures
        same_files(files, other, part),
{
    assert forall|id: ContentId| #[trigger] part.contains(id) implies lookup(files, id) == lookup(
        other,
        id,
    ) by {
        let i = choose|i: int| 0 <= i < part.len() && part[i] == id;
        assert(whole.contains(part[i]));
    }
}

proof fn lemma_same_head(
    store: StoreView,
    keys: KeysView,
    files: Seq<(ContentId, Seq<u8>)>,
    other: Seq<(ContentId, Seq<u8>)>,
    head: LocalHead,
    incoming: LoadedView,
    draw: DrawView,
    now: i64,
)
    requires
        lookup(files, incoming.content_id) == lookup(other, incoming.content_id),
        lookup(files, head.content_id) == lookup(other, head.content_id),
        same_files(files, other, objects_of(keys, incoming.record)),
        record_at(keys, files, head.content_id) matches Some(local) ==> same_files(
            files,
            other,
            objects_of(keys, local),
        ),
    ensures
        head_met(store, keys, files, head, incoming, draw, now) == head_met(
            store,
            keys,
            other,
            head,
            incoming,
            draw,
            now,
        ),
{
    let (after, result) = head_loaded(store, keys, files, head);
    assert(head_loaded(store, keys, other, head) == (after, result));
    let all = objects_of(keys, incoming.record);
    let chunks = incoming.record.chunk_ids();
    assert forall|i: int| 0 <= i < chunks.len() implies all.contains(#[trigger] chunks[i]) by {
        assert(all[i] == chunks[i]);
    }
    lemma_part(files, other, all, chunks);
    if let Ok(local) = result {
        assert(record_at(keys, files, head.content_id) == Some(local));
        let local_all = objects_of(keys, local);
        let local_chunks = local.chunk_ids();
        assert forall|i: int| 0 <= i < local_chunks.len() implies local_all.contains(
            #[trigger] local_chunks[i],
        ) by {
            assert(local_all[i] == local_chunks[i]);
        }
        lemma_part(files, other, local_all, local_chunks);
        match reconciled(local, incoming.record) {
            Ok(ReconcileAction::UseIncoming) => {
                lemma_same_check(after, keys, files, other, incoming.record);
            },
            Ok(ReconcileAction::KeepBoth { canonical_revision, conflict_revision }) => {
                lemma_same_check(after, keys, files, other, local);
                let first = chunks_checked(after, keys, files, local).0;
                lemma_same_check(first, keys, files, other, incoming.record);
                let second = chunks_checked(first, keys, files, incoming.record).0;
                if let (RecordView::File(manifest), RecordView::File(incoming_manifest)) = (
                    local,
                    incoming.record,
                ) {
                    lemma_same_conflict(
                        second,
                        keys,
                        files,
                        other,
                        manifest,
                        head.content_id,
                        incoming,
                        incoming_manifest,
                        true,
                        canonical_revision,
                        conflict_revision,
                        draw,
                        now,
                    );
                    lemma_same_conflict(
                        second,
                        keys,
                        files,
                        other,
                        manifest,
                        head.content_id,
                        incoming,
                        incoming_manifest,
                        false,
                        canonical_revision,
                        conflict_revision,
                        draw,
                        now,
                    );
                }
            },
            _ => {},
        }
    }
}

/// Applying a change looks at no other objects than those that it is said to need: whatever the
/// files of others hold, its first step is the same.
pub proof fn law_application_looks_at_what_it_needs(
    store: StoreView,
    keys: KeysView,
    files: Seq<(ContentId, Seq<u8>)>,
    other: Seq<(ContentId, Seq<u8>)>,
    target_content_id: ContentId,
    authorization: AuthorizationView,
    draw: DrawView,
    now: i64,
)
    requires
        same_files(
            files,
            other,
            objects_met(store, keys, files, target_content_id),
        ),
    ensures
        apply_begun(store, keys, files, target_content_id, authorization, draw, now)
            == apply_begun(store, keys, other, target_content_id, authorization, draw, now),
{
    let whole = objects_met(store, keys, files, target_content_id);
    assert(whole[0] == target_content_id);
    assert(whole.contains(target_content_id));
    let (first, load) = record_loaded(store, keys, files, target_content_id);
    if let Ok(unsigned) = load {
        let (signed, attach) = attached(first, keys.group_id, unsigned, authorization);
        if let Ok(incoming) = attach {
            assert(record_at(keys, files, target_content_id) == Some(incoming.record));
            assert(signed.heads == store.heads);
            let all = objects_of(keys, incoming.record);
            assert forall|i: int| 0 <= i < all.len() implies whole.contains(#[trigger] all[i]) by {
                assert(whole[1 + i] == all[i]);
            }
            lemma_part(files, other, whole, all);
            let chunks = incoming.record.chunk_ids();
            assert forall|i: int| 0 <= i < chunks.len() implies all.contains(
                #[trigger] chunks[i],
            ) by {
                assert(all[i] == chunks[i]);
            }
            lemma_part(files, other, all, chunks);
            lemma_same_check(signed, keys, files, other, incoming.record);
            if let Some(head) = rival_of(store, keys, incoming.record) {
                let start = 1 + all.len();
                assert(whole[start as int] == head.content_id);
                assert(whole.contains(head.content_id));
                if let Some(local) = record_at(keys, files, head.content_id) {
                    let rest = objects_of(keys, local);
                    assert forall|i: int| 0 <= i < rest.len() implies whole.contains(
                        #[trigger] rest[i],
                    ) by {
                        assert(whole[start + 1 + i] == rest[i]);
                    }
                    lemma_part(files, other, whole, rest);
                }
                lemma_same_head(signed, keys, files, other, head, incoming, draw, now);
            }
        }
    }
}

/// The manifests that a batch brings.
pub open spec fn manifests_named(records: Seq<EncryptedChangeView>) -> Seq<ContentId>
    decreases records.len(),
{
    if records.len() == 0 {
        seq![]
    } else {
        let before = manifests_named(records.drop_last());
        if records.last().content_id.len() == 32 {
            before.push(ContentId::of_bytes(records.last().content_id))
        } else {
            before
        }
    }
}

/// The chunks that one message of a batch names.
pub open spec fn chunks_in(keys: KeysView, record: EncryptedChangeView) -> Seq<ContentId> {
    match opened_record(keys, ContentId::of_bytes(record.content_id), record.encrypted_record) {
        Err(_) => seq![],
        Ok(record) => record.chunk_ids(),
    }
}

/// The chunks that the manifests of a batch name.
pub open spec fn chunks_named(keys: KeysView, records: Seq<EncryptedChangeView>) -> Seq<ContentId>
    decreases records.len(),
{
    if records.len() == 0 {
        seq![]
    } else {
        let before = chunks_named(keys, records.drop_last());
        if records.last().content_id.len() == 32 {
            before + chunks_in(keys, records.last())
        } else {
            before
        }
    }
}

/// What admitting a batch looks at: the files of the manifests that it brings, and whether there
/// are files of the chunks that these name.
#[derive(Debug)]
pub struct BatchNeeds {
    pub manifests: Vec<ContentId>,
    pub chunks: Vec<ContentId>,
}

/// Tells which objects admitting a batch looks at.
pub fn batch_objects(batch: &ChangeBatch, keys: &GroupKeys) -> (needs: BatchNeeds)
    ensures
        needs.manifests@ == manifests_named(batch@.records),
        needs.chunks@ == chunks_named(keys@, batch@.records),
{
    let ghost views = list_view(batch.records@);
    let mut manifests: Vec<ContentId> = Vec::new();
    let mut chunks: Vec<ContentId> = Vec::new();
    let mut index: usize = 0;
    assert(views.take(0) =~= seq![]);
    while index < batch.records.len()
        invariant
            index <= batch.records@.len(),
            views == list_view(batch.records@),
            manifests@ == manifests_named(views.take(index as int)),
            chunks@ == chunks_named(keys@, views.take(index as int)),
        decreases batch.records@.len() - index,
    {
        let record: &EncryptedChange = &batch.records[index];
        proof {
            assert(views.take(index + 1).drop_last() =~= views.take(index as int));
            assert(views.take(index + 1).last() == record@);
        }
        if let Some(content_id) = ContentId::from_slice(record.content_id.as_slice()) {
            manifests.push(content_id);
            match open_record(keys, content_id, record.encrypted_record.as_slice()) {
                Ok(opened) => {
                    append_ids(&mut chunks, &opened.chunk_ids());
                },
                Err(_) => {
                    assert(chunks@ + seq![] =~= chunks@);
                },
            }
        }
        index += 1;
    }
    assert(views.take(index as int) =~= views);
    BatchNeeds { manifests, chunks }
}

/// Two lists agree on which of the given objects they name.
pub open spec fn same_presence(
    present: Seq<ContentId>,
    other: Seq<ContentId>,
    content_ids: Seq<ContentId>,
) -> bool {
    forall|id: ContentId| #[trigger]
        content_ids.contains(id) ==> present.contains(id) == other.contains(id)
}

proof fn lemma_same_looks(
    store: StoreView,
    group_id: GroupId,
    content_ids: Seq<ContentId>,
    present: Seq<ContentId>,
    other: Seq<ContentId>,
)
    requires
        same_presence(present, other, content_ids),
    ensures
        after_looks(store, group_id, content_ids, present) == after_looks(
            store,
            group_id,
            content_ids,
            other,
        ),
        missing_of(store, group_id, content_ids, present) == missing_of(
            store,
            group_id,
            content_ids,
            other,
        ),
        forall|i: int|
            0 <= i < missing_of(store, group_id, content_ids, present).len()
                ==> content_ids.contains(
                #[trigger] missing_of(store, group_id, content_ids, present)[i],
            ),
    decreases content_ids.len(),
{
    if content_ids.len() > 0 {
        let front = content_ids.drop_last();
        let last = content_ids.last();
        assert(content_ids[content_ids.len() - 1] == last);
        assert(content_ids.contains(last));
        assert forall|id: ContentId| #[trigger] front.contains(id) implies content_ids.contains(
            id,
        ) by {
            let i = choose|i: int| 0 <= i < front.len() && front[i] == id;
            assert(content_ids[i] == id);
        }
        lemma_same_looks(store, group_id, front, present, other);
        let before = missing_of(store, group_id, front, present);
        let all = missing_of(store, group_id, content_ids, present);
        assert forall|i: int| 0 <= i < all.len() implies content_ids.contains(#[trigger] all[i]) by {
            if i < before.len() {
                assert(all[i] == before[i]);
                assert(front.contains(before[i]));
            }
        }
    }
}

proof fn lemma_same_requests(
    store: StoreView,
    group_id: GroupId,
    peer_device_id: DeviceId,
    content_ids: Seq<ContentId>,
    present: Seq<ContentId>,
    other: Seq<ContentId>,
    now: i64,
)
    requires
        same_presence(present, other, content_ids),
    ensures
        with_requests(store, group_id, peer_device_id, content_ids, present, now) == with_requests(
            store,
            group_id,
            peer_device_id,
            content_ids,
            other,
            now,
        ),
    decreases content_ids.len(),
{
    if content_ids.len() > 0 {
        let front = content_ids.drop_last();
        assert(content_ids[content_ids.len() - 1] == content_ids.last());
        assert(content_ids.contains(content_ids.last()));
        assert forall|id: ContentId| #[trigger] front.contains(id) implies present.contains(id)
            == other.contains(id) by {
            let i = choose|i: int| 0 <= i < front.len() && front[i] == id;
            assert(content_ids[i] == id);
            assert(content_ids.contains(id));
        }
        lemma_same_requests(store, group_id, peer_device_id, front, present, other, now);
    }
}

proof fn lemma_same_change(
    store: StoreView,
    keys: KeysView,
    files: Seq<(ContentId, Seq<u8>)>,
    other_files: Seq<(ContentId, Seq<u8>)>,
    present: Seq<ContentId>,
    other_present: Seq<ContentId>,
    change: ChangeView,
    now: i64,
)
    requires
        lookup(files, change.content_id) == lookup(other_files, change.content_id),
        opened_record(keys, change.content_id, change.encrypted_record) matches Ok(record)
            ==> same_presence(present, other_present, record.chunk_ids()),
    ensures
        incoming_change(store, keys, files, present, change, now) == incoming_change(
            store,
            keys,
            other_files,
            other_present,
            change,
            now,
        ),
        incoming_change(store, keys, files, present, change, now).1 matches Ok(
            ChangeFate::Missing(ids),
        ) ==> {
            &&& opened_record(keys, change.content_id, change.encrypted_record) matches Ok(record)
            &&& forall|i: int|
                0 <= i < ids.len() ==> record.chunk_ids().contains(#[trigger] ids[i])
        },
{
    reveal(incoming_change);
    if let Ok(record) = opened_record(keys, change.content_id, change.encrypted_record) {
        let chunks = ordered_ids(record.chunk_ids());
        lemma_ordered_ids(record.chunk_ids());
        assert(same_presence(present, other_present, chunks));
        let existing = lookup(files, change.content_id);
        let admitted = with_object(
            store,
            keys,
            ObjectKind::Manifest,
            change.content_id,
            change.encrypted_record,
            existing,
            now,
        );
        let signed = with_authentication(
            admitted,
            keys.group_id,
            change.revision_id,
            change.content_id,
            change.authorization,
        );
        lemma_same_looks(signed, keys.group_id, chunks, present, other_present);
        let missing = missing_of(signed, keys.group_id, chunks, present);
        assert forall|i: int| 0 <= i < missing.len() implies record.chunk_ids().contains(
            #[trigger] missing[i],
        ) by {
            assert(chunks.contains(missing[i]));
        }
    }
}

/// A change is the one that a message of a batch carries.
pub open spec fn is_carried(record: EncryptedChangeView, change: ChangeView) -> bool {
    &&& record.content_id.len() == 32
    &&& change.content_id == ContentId::of_bytes(record.content_id)
    &&& change.encrypted_record == record.encrypted_record
}

proof fn lemma_carried(records: Seq<EncryptedChangeView>, limits: LimitsView)
    ensures
        validated_changes(records, limits) matches Ok(changes) ==> {
            &&& changes.len() == records.len()
            &&& forall|i: int|
                0 <= i < changes.len() ==> is_carried(records[i], #[trigger] changes[i])
        },
    decreases records.len(),
{
    if records.len() > 0 {
        let front = records.drop_last();
        lemma_carried(front, limits);
        if let Ok(changes) = validated_changes(records, limits) {
            let before = validated_changes(front, limits)->Ok_0;
            assert(changes =~= before.push(changes.last()));
            assert(is_carried(records.last(), changes.last()));
            assert forall|i: int| 0 <= i < changes.len() implies is_carried(
                records[i],
                #[trigger] changes[i],
            ) by {
                if i < before.len() {
                    assert(changes[i] == before[i]);
                    assert(front[i] == records[i]);
                }
            }
        }
    }
}

proof fn lemma_same_changes(
    store: StoreView,
    keys: KeysView,
    files: Seq<(ContentId, Seq<u8>)>,
    other_files: Seq<(ContentId, Seq<u8>)>,
    present: Seq<ContentId>,
    other_present: Seq<ContentId>,
    records: Seq<EncryptedChangeView>,
    changes: Seq<ChangeView>,
    now: i64,
)
    requires
        changes.len() == records.len(),
        forall|i: int| 0 <= i < changes.len() ==> is_carried(records[i], #[trigger] changes[i]),
        same_files(files, other_files, manifests_named(records)),
        same_presence(present, other_present, chunks_named(keys, records)),
    ensures
        incoming_changes(store, keys, files, present, changes, now) == incoming_changes(
            store,
            keys,
            other_files,
            other_present,
            changes,
            now,
        ),
        incoming_changes(store, keys, files, present, changes, now).1 matches Ok(tally)
            ==> forall|i: int|
            0 <= i < tally.missing.len() ==> chunks_named(keys, records).contains(
                #[trigger] tally.missing[i],
            ),
    decreases changes.len(),
{
    if changes.len() > 0 {
        let front = changes.drop_last();
        let earlier = records.drop_last();
        let record = records.last();
        let change = changes.last();
        assert(is_carried(records[changes.len() - 1], changes[changes.len() - 1]));
        let manifests = manifests_named(earlier);
        let named = chunks_named(keys, earlier);
        let all_manifests = manifests_named(records);
        let all_named = chunks_named(keys, records);
        assert forall|id: ContentId| #[trigger] manifests.contains(id) implies lookup(files, id)
            == lookup(other_files, id) by {
            let i = choose|i: int| 0 <= i < manifests.len() && manifests[i] == id;
            assert(all_manifests[i] == id);
            assert(all_manifests.contains(id));
        }
        assert forall|id: ContentId| #[trigger] named.contains(id) implies present.contains(id)
            == other_present.contains(id) && all_named.contains(id) by {
            let i = choose|i: int| 0 <= i < named.len() && named[i] == id;
            assert(all_named[i] == id);
            assert(all_named.contains(id));
        }
        assert forall|i: int| 0 <= i < front.len() implies is_carried(
            earlier[i],
            #[trigger] front[i],
        ) by {
            assert(is_carried(records[i], changes[i]));
        }
        lemma_same_changes(
            store,
            keys,
            files,
            other_files,
            present,
            other_present,
            earlier,
            front,
            now,
        );
        assert(all_manifests[all_manifests.len() - 1] == change.content_id);
        assert(all_manifests.contains(change.content_id));
        let own = chunks_in(keys, record);
        assert forall|id: ContentId| #[trigger] own.contains(id) implies present.contains(id)
            == other_present.contains(id) && all_named.contains(id) by {
            let i = choose|i: int| 0 <= i < own.len() && own[i] == id;
            assert(all_named[named.len() + i] == id);
            assert(all_named.contains(id));
        }
        let (before, result) = incoming_changes(store, keys, files, present, front, now);
        lemma_same_change(
            before,
            keys,
            files,
            other_files,
            present,
            other_present,
            change,
            now,
        );
        if let Ok(tally) = result {
            if let Ok(fate) = incoming_change(before, keys, files, present, change, now).1 {
                let after = tallied(tally, fate);
                assert forall|i: int| 0 <= i < after.missing.len() implies all_named.contains(
                    #[trigger] after.missing[i],
                ) by {
                    if i < tally.missing.len() {
                        assert(after.missing[i] == tally.missing[i]);
                        assert(named.contains(tally.missing[i]));
                    } else if let ChangeFate::Missing(ids) = fate {
                        assert(after.missing[i] == ids[i - tally.missing.len()]);
                        assert(own.contains(ids[i - tally.missing.len()]));
                    }
                }
            }
        }
    }
}

/// Admitting a batch looks at no other objects than those that it is said to need: whatever the
/// files of other manifests hold and whichever other chunks have files, its outcome is the same.
pub proof fn law_admission_looks_at_what_it_needs(
    store: StoreView,
    keys: KeysView,
    files: Seq<(ContentId, Seq<u8>)>,
    other_files: Seq<(ContentId, Seq<u8>)>,
    present: Seq<ContentId>,
    other_present: Seq<ContentId>,
    peer_device_id: DeviceId,
    batch: ChangeBatchView,
    limits: LimitsView,
    now: i64,
)
    requires
        same_files(files, other_files, manifests_named(batch.records)),
        same_presence(present, other_present, chunks_named(keys, batch.records)),
    ensures
        incoming_batch(store, keys, files, present, peer_device_id, batch, limits, now)
            == incoming_batch(
            store,
            keys,
            other_files,
            other_present,
            peer_device_id,
            batch,
            limits,
            now,
        ),
{
    lemma_carried(batch.records, limits);
    if let Ok(validated) = validated_batch(batch, limits) {
        lemma_same_changes(
            store,
            keys,
            files,
            other_files,
            present,
            other_present,
            batch.records,
            validated.records,
            now,
        );
        let (after, result) = incoming_changes(
            store,
            keys,
            files,
            present,
            validated.records,
            now,
        );
        if let Ok(tally) = result {
            let ids = ordered_ids(ordered_ids(tally.missing));
            lemma_ordered_ids(tally.missing);
            lemma_ordered_ids(ordered_ids(tally.missing));
            assert forall|id: ContentId| #[trigger] ids.contains(id) implies present.contains(id)
                == other_present.contains(id) by {
                assert(ordered_ids(tally.missing).contains(id));
                assert(tally.missing.contains(id));
                let i = choose|i: int| 0 <= i < tally.missing.len() && tally.missing[i] == id;
                assert(chunks_named(keys, batch.records).contains(tally.missing[i]));
            }
            lemma_same_requests(
                after,
                keys.group_id,
                peer_device_id,
                ids,
                present,
                other_present,
                now,
            );
        }
    }
}

/// The manifests of entries of the log.
pub open spec fn manifests_listed(changes: Seq<StoredChange>) -> Seq<ContentId> {
    changes.map_values(|change: StoredChange| change.content_id)
}

/// The objects that answering a message looks at.
pub open spec fn objects_asked(
    store: StoreView,
    group_id: GroupId,
    message: Option<ControlMessageView>,
) -> Seq<ContentId> {
    match message {
        Some(ControlMessageView::ChangeLogRequest(request)) => match change_page(
            store,
            group_id,
            request.after_sequence,
            request.maximum_records as nat,
        ) {
            Err(_) => seq![],
            Ok(page) => manifests_listed(page.records),
        },
        Some(ControlMessageView::ObjectRangeRequest(request)) => if request.content_id.len()
            == 32 {
            seq![ContentId::of_bytes(request.content_id)]
        } else {
            seq![]
        },
        _ => seq![],
    }
}

fn list_manifests(changes: &Vec<StoredChange>) -> (content_ids: Vec<ContentId>)
    ensures
        content_ids@ == manifests_listed(changes@),
{
    let mut content_ids: Vec<ContentId> = Vec::new();
    let mut index: usize = 0;
    while index < changes.len()
        invariant
            index <= changes@.len(),
            content_ids@ == manifests_listed(changes@.take(index as int)),
        decreases changes@.len() - index,
    {
        content_ids.push(changes[index].content_id);
        proof {
            assert(content_ids@ =~= manifests_listed(changes@.take(index + 1)));
        }
        index += 1;
    }
    assert(changes@.take(index as int) =~= changes@);
    content_ids
}

/// Tells which objects answering a message looks at.
pub fn asked_objects(envelope: &ControlEnvelope, keys: &GroupKeys, store: &Store) -> (content_ids:
    Vec<ContentId>)
    ensures
        content_ids@ == objects_asked(store@, keys@.group_id, envelope@.message),
{
    match &envelope.message {
        Some(ControlMessage::ChangeLogRequest(request)) => match store.changes_after(
            keys.group_id(),
            request.after_sequence,
            request.maximum_records as usize,
        ) {
            Ok(page) => list_manifests(&page.records),
            Err(_) => Vec::new(),
        },
        Some(ControlMessage::ObjectRangeRequest(request)) => {
            let mut content_ids: Vec<ContentId> = Vec::new();
            if let Some(content_id) = ContentId::from_slice(request.content_id.as_slice()) {
                content_ids.push(content_id);
            }
            assert(content_ids@ =~= objects_asked(store@, keys@.group_id, envelope@.message));
            content_ids
        },
        _ => Vec::new(),
    }
}

proof fn lemma_same_outgoing(
    store: StoreView,
    keys: KeysView,
    files: Seq<(ContentId, Seq<u8>)>,
    other: Seq<(ContentId, Seq<u8>)>,
    changes: Seq<StoredChange>,
)
    requires
        same_files(files, other, manifests_listed(changes)),
    ensures
        outgoing_changes(store, keys, files, changes) == outgoing_changes(
            store,
            keys,
            other,
            changes,
        ),
    decreases changes.len(),
{
    if changes.len() > 0 {
        let front = changes.drop_last();
        let all = manifests_listed(changes);
        let listed = manifests_listed(front);
        assert forall|i: int| 0 <= i < listed.len() implies all.contains(#[trigger] listed[i]) by {
            assert(all[i] == listed[i]);
        }
        lemma_part(files, other, all, listed);
        lemma_same_outgoing(store, keys, files, other, front);
        assert(all[all.len() - 1] == changes.last().content_id);
        assert(all.contains(changes.last().content_id));
    }
}

/// Answering a message looks at no other objects than those that it is said to need: whatever the
/// files of others hold, the answer is the same.
pub proof fn law_answer_looks_at_what_it_needs(
    store: StoreView,
    keys: KeysView,
    files: Seq<(ContentId, Seq<u8>)>,
    other: Seq<(ContentId, Seq<u8>)>,
    pending: Option<(u128, ContentId)>,
    envelope: ControlEnvelopeView,
    limits: LimitsView,
)
    requires
        same_files(files, other, objects_asked(store, keys.group_id, envelope.message)),
    ensures
        message_served(store, keys, files, pending, envelope, limits) == message_served(
            store,
            keys,
            other,
            pending,
            envelope,
            limits,
        ),
{
    let asked = objects_asked(store, keys.group_id, envelope.message);
    match envelope.message {
        Some(ControlMessageView::ChangeLogRequest(request)) => {
            if let Ok(page) = change_page(
                store,
                keys.group_id,
                request.after_sequence,
                request.maximum_records as nat,
            ) {
                lemma_same_outgoing(store, keys, files, other, page.records);
            }
        },
        Some(ControlMessageView::ObjectRangeRequest(request)) => {
            if request.content_id.len() == 32 {
                assert(asked[0] == ContentId::of_bytes(request.content_id));
                assert(asked.contains(ContentId::of_bytes(request.content_id)));
            }
        },
        _ => {},
    }
}

} // verus!
