//! What every operation on a store keeps, and how the operations fit together.
use vstd::prelude::*;

use crate::catalog::{
    AuthenticationRowView, ChangeRow, DeviceKey, HeadRow, MemberRole, MemberRowView, MemberStatus,
    ObjectKey, ObjectRow, PathKey, PeerObjectKey, PendingRowView, ReferenceKey, RequestRow,
    RevisionKey, StoreError, TransferRow, MAXIMUM_ENCRYPTED_OBJECT_BYTES,
};
use crate::crypto::ed25519_valid_key;
use crate::envelope::{ObjectKind, ObjectView};
use crate::history::{
    authentication_pins, begin_verdict, change_committed, change_of, change_page, change_pins,
    changes_of, chunk_problem, commit_verdict, garbage_keys, garbage_of, graph_problem, head_at,
    head_content, head_pins, head_verdict, is_materialized, local_change_committed,
    local_head_committed, pending_at, pending_pins, reference_count, reference_pins,
    signed_change_committed, signed_local_change_committed, with_change, with_head, with_pending,
    with_references, without_objects, ChangeCommit, LocalHead, MaterializationAdmission,
    StoredChange,
};
use crate::identity::{device_id_of, AuthorizationView};
use crate::ids::{ContentId, DeviceId, GroupId, PathId, RevisionId};
use crate::keys::KeysView;
use crate::order::{at_most, lemma_sorted, sorted};
use crate::record::ChangeRecordKind;
use crate::store::{
    admission_verdict, after_look, append_verdict, authentication_verdict, authorization_verdict,
    cataloged, demoted, file_is_due, is_new_request, is_present, is_revocable, kind_problem, loaded,
    membership_verdict, recovered_objects, recovered_row, recovered_transfers, transfer_verdict,
    verified_object, with_appended, with_authentication, with_member, with_object, with_request,
    with_requests, with_revocation, with_transfer, Admission, ChangeAuthenticationAdmission,
    MembershipAdmission, ObjectTransferAdmission, StoreView, TransferFile,
};
use crate::table::{
    distinct_keys, kept, lemma_kept_rows, lemma_lookup, lemma_lookup_kept, lemma_lookup_put,
    lemma_put_rows, lookup, other_than, put, removed,
};

verus! {

/// There is a row for the object.
pub open spec fn is_known(store: StoreView, group_id: GroupId, content_id: ContentId) -> bool {
    lookup(store.objects, ObjectKey { group_id, content_id }) is Some
}

/// Every row is found by its key.
pub open spec fn has_distinct_keys(store: StoreView) -> bool {
    &&& distinct_keys(store.objects)
    &&& distinct_keys(store.requests)
    &&& distinct_keys(store.transfers)
    &&& distinct_keys(store.heads)
    &&& distinct_keys(store.pending)
    &&& distinct_keys(store.members)
    &&& distinct_keys(store.authentications)
    &&& distinct_keys(store.references)
    &&& distinct_keys(store.watermarks)
}

/// Everything that is pinned is known.
pub open spec fn knows_what_it_needs(store: StoreView) -> bool {
    &&& forall|i: int|
        0 <= i < store.changes.len() ==> is_known(
            store,
            (#[trigger] store.changes[i]).group_id,
            store.changes[i].content_id,
        )
    &&& forall|i: int|
        0 <= i < store.references.len() ==> {
            let key = (#[trigger] store.references[i]).0;
            is_known(store, key.group_id, key.owner_content_id) && is_known(
                store,
                key.group_id,
                key.referenced_content_id,
            )
        }
    &&& forall|i: int|
        0 <= i < store.heads.len() ==> is_known(
            store,
            (#[trigger] store.heads[i]).0.group_id,
            store.heads[i].1.content_id,
        )
    &&& forall|i: int|
        0 <= i < store.pending.len() ==> is_known(
            store,
            (#[trigger] store.pending[i]).0.group_id,
            store.pending[i].1.target_content_id,
        )
    &&& forall|i: int|
        0 <= i < store.authentications.len() ==> is_known(
            store,
            (#[trigger] store.authentications[i]).0.group_id,
            store.authentications[i].1.content_id,
        )
}

/// A transfer belongs to a request and has brought no more than the object holds.
pub open spec fn transfer_ok(store: StoreView, row: (PeerObjectKey, TransferRow)) -> bool {
    &&& lookup(store.requests, row.0) is Some
    &&& row.1.request_id != 0
    &&& 0 < row.1.encrypted_size <= MAXIMUM_ENCRYPTED_OBJECT_BYTES
    &&& row.1.received_size <= row.1.encrypted_size
}

/// The change log is numbered in strictly increasing order, from one on.
pub open spec fn is_numbered(changes: Seq<ChangeRow>) -> bool {
    &&& forall|i: int, j: int|
        0 <= i < j < changes.len() ==> (#[trigger] changes[i]).sequence < (
        #[trigger] changes[j]).sequence
    &&& forall|i: int| 0 <= i < changes.len() ==> 0 < (#[trigger] changes[i]).sequence <= i64::MAX
}

/// No revision stands twice in the change log.
pub open spec fn has_distinct_revisions(changes: Seq<ChangeRow>) -> bool {
    forall|i: int, j: int|
        0 <= i < j < changes.len() ==> !((#[trigger] changes[i]).group_id == (
        #[trigger] changes[j]).group_id && changes[i].revision_id == changes[j].revision_id)
}

/// What holds of every store.
pub open spec fn is_consistent(store: StoreView) -> bool {
    &&& has_distinct_keys(store)
    &&& knows_what_it_needs(store)
    &&& forall|i: int|
        0 <= i < store.transfers.len() ==> transfer_ok(store, #[trigger] store.transfers[i])
    &&& is_numbered(store.changes)
    &&& has_distinct_revisions(store.changes)
}

/// A new store is consistent.
pub proof fn law_empty_store_is_consistent()
    ensures
        is_consistent(StoreView::empty()),
{
}

/// What a row needs was needed before, or is known now.
spec fn is_supplied(before: StoreView, after: StoreView) -> bool {
    &&& forall|i: int|
        0 <= i < after.changes.len() ==> before.changes.contains(#[trigger] after.changes[i])
            || is_known(after, after.changes[i].group_id, after.changes[i].content_id)
    &&& forall|i: int|
        0 <= i < after.references.len() ==> {
            let row = #[trigger] after.references[i];
            before.references.contains(row) || (is_known(
                after,
                row.0.group_id,
                row.0.owner_content_id,
            ) && is_known(after, row.0.group_id, row.0.referenced_content_id))
        }
    &&& forall|i: int|
        0 <= i < after.heads.len() ==> before.heads.contains(#[trigger] after.heads[i]) || is_known(
            after,
            after.heads[i].0.group_id,
            after.heads[i].1.content_id,
        )
    &&& forall|i: int|
        0 <= i < after.pending.len() ==> before.pending.contains(#[trigger] after.pending[i])
            || is_known(
            after,
            after.pending[i].0.group_id,
            after.pending[i].1.target_content_id,
        )
    &&& forall|i: int|
        0 <= i < after.authentications.len() ==> before.authentications.contains(
            #[trigger] after.authentications[i],
        ) || is_known(
            after,
            after.authentications[i].0.group_id,
            after.authentications[i].1.content_id,
        )
}

proof fn lemma_consistent(before: StoreView, after: StoreView)
    requires
        is_consistent(before),
        has_distinct_keys(after),
        forall|key: ObjectKey|
            lookup(before.objects, key) is Some ==> #[trigger] lookup(after.objects, key) is Some,
        is_supplied(before, after),
        forall|i: int|
            0 <= i < after.transfers.len() ==> transfer_ok(after, #[trigger] after.transfers[i]),
        is_numbered(after.changes),
        has_distinct_revisions(after.changes),
    ensures
        is_consistent(after),
{
    assert forall|i: int| 0 <= i < after.changes.len() implies is_known(
        after,
        (#[trigger] after.changes[i]).group_id,
        after.changes[i].content_id,
    ) by {
        let row = after.changes[i];
        if before.changes.contains(row) {
            let k = choose|k: int| 0 <= k < before.changes.len() && before.changes[k] == row;
            assert(is_known(before, before.changes[k].group_id, before.changes[k].content_id));
        }
    }
    assert forall|i: int| 0 <= i < after.references.len() implies ({
        let key = (#[trigger] after.references[i]).0;
        is_known(after, key.group_id, key.owner_content_id) && is_known(
            after,
            key.group_id,
            key.referenced_content_id,
        )
    }) by {
        let row = after.references[i];
        if before.references.contains(row) {
            let k = choose|k: int| 0 <= k < before.references.len() && before.references[k] == row;
            let key = before.references[k].0;
            assert(is_known(before, key.group_id, key.owner_content_id));
            assert(is_known(before, key.group_id, key.referenced_content_id));
        }
    }
    assert forall|i: int| 0 <= i < after.heads.len() implies is_known(
        after,
        (#[trigger] after.heads[i]).0.group_id,
        after.heads[i].1.content_id,
    ) by {
        let row = after.heads[i];
        if before.heads.contains(row) {
            let k = choose|k: int| 0 <= k < before.heads.len() && before.heads[k] == row;
            assert(is_known(before, before.heads[k].0.group_id, before.heads[k].1.content_id));
        }
    }
    assert forall|i: int| 0 <= i < after.pending.len() implies is_known(
        after,
        (#[trigger] after.pending[i]).0.group_id,
        after.pending[i].1.target_content_id,
    ) by {
        let row = after.pending[i];
        if before.pending.contains(row) {
            let k = choose|k: int| 0 <= k < before.pending.len() && before.pending[k] == row;
            assert(is_known(
                before,
                before.pending[k].0.group_id,
                before.pending[k].1.target_content_id,
            ));
        }
    }
    assert forall|i: int| 0 <= i < after.authentications.len() implies is_known(
        after,
        (#[trigger] after.authentications[i]).0.group_id,
        after.authentications[i].1.content_id,
    ) by {
        let row = after.authentications[i];
        if before.authentications.contains(row) {
            let k = choose|k: int|
                0 <= k < before.authentications.len() && before.authentications[k] == row;
            assert(is_known(
                before,
                before.authentications[k].0.group_id,
                before.authentications[k].1.content_id,
            ));
        }
    }
}

/// Rows that stand as they did before are supplied.
proof fn lemma_supplied(before: StoreView, after: StoreView)
    ensures
        after.changes == before.changes ==> forall|i: int|
            0 <= i < after.changes.len() ==> before.changes.contains(#[trigger] after.changes[i]),
        after.references == before.references ==> forall|i: int|
            0 <= i < after.references.len() ==> before.references.contains(
                #[trigger] after.references[i],
            ),
        after.heads == before.heads ==> forall|i: int|
            0 <= i < after.heads.len() ==> before.heads.contains(#[trigger] after.heads[i]),
        after.pending == before.pending ==> forall|i: int|
            0 <= i < after.pending.len() ==> before.pending.contains(#[trigger] after.pending[i]),
        after.authentications == before.authentications ==> forall|i: int|
            0 <= i < after.authentications.len() ==> before.authentications.contains(
                #[trigger] after.authentications[i],
            ),
{
}

/// Changes of membership keep a store consistent.
pub proof fn law_membership_keeps_consistency(
    store: StoreView,
    group_id: GroupId,
    public_key: Seq<u8>,
    role: MemberRole,
    device_id: DeviceId,
)
    requires
        is_consistent(store),
    ensures
        is_consistent(with_member(store, group_id, public_key, role)),
        is_consistent(with_revocation(store, group_id, device_id)),
{
    let added = with_member(store, group_id, public_key, role);
    lemma_put_rows(
        store.members,
        DeviceKey { group_id, device_id: device_id_of(public_key) },
        MemberRowView { public_key, role, status: MemberStatus::Active },
    );
    lemma_supplied(store, added);
    assert forall|i: int| 0 <= i < added.transfers.len() implies transfer_ok(
        added,
        #[trigger] added.transfers[i],
    ) by {
        assert(transfer_ok(store, store.transfers[i]));
    }
    lemma_consistent(store, added);
    let revoked = with_revocation(store, group_id, device_id);
    let key = DeviceKey { group_id, device_id };
    if let Some(row) = lookup(store.members, key) {
        lemma_put_rows(
            store.members,
            key,
            MemberRowView { status: MemberStatus::Revoked, ..row },
        );
    }
    lemma_supplied(store, revoked);
    assert forall|i: int| 0 <= i < revoked.transfers.len() implies transfer_ok(
        revoked,
        #[trigger] revoked.transfers[i],
    ) by {
        assert(transfer_ok(store, store.transfers[i]));
    }
    lemma_consistent(store, revoked);
}

/// Recording how far a peer's log was read keeps a store consistent.
pub proof fn law_watermark_keeps_consistency(store: StoreView, key: DeviceKey, sequence: u64)
    requires
        is_consistent(store),
    ensures
        is_consistent(
            StoreView { watermarks: put(store.watermarks, key, sequence), ..store },
        ),
{
    let after = StoreView { watermarks: put(store.watermarks, key, sequence), ..store };
    lemma_put_rows(store.watermarks, key, sequence);
    lemma_supplied(store, after);
    assert forall|i: int| 0 <= i < after.transfers.len() implies transfer_ok(
        after,
        #[trigger] after.transfers[i],
    ) by {
        assert(transfer_ok(store, store.transfers[i]));
    }
    lemma_consistent(store, after);
}

/// Recording a signature keeps a store consistent.
pub proof fn law_authentication_keeps_consistency(
    store: StoreView,
    group_id: GroupId,
    revision_id: RevisionId,
    content_id: ContentId,
    authorization: AuthorizationView,
)
    requires
        is_consistent(store),
    ensures
        is_consistent(
            with_authentication(store, group_id, revision_id, content_id, authorization),
        ),
{
    let after = with_authentication(store, group_id, revision_id, content_id, authorization);
    let key = RevisionKey { group_id, revision_id };
    let row = AuthenticationRowView { content_id, authorization };
    lemma_put_rows(store.authentications, key, row);
    if after != store {
        assert forall|i: int| 0 <= i < after.transfers.len() implies transfer_ok(
            after,
            #[trigger] after.transfers[i],
        ) by {
            assert(transfer_ok(store, store.transfers[i]));
        }
        lemma_supplied(store, after);
        lemma_consistent(store, after);
    }
}

/// The transfers stand as before, and so do the requests.
proof fn lemma_transfers_kept(before: StoreView, after: StoreView)
    requires
        is_consistent(before),
        after.transfers == before.transfers,
        forall|key: PeerObjectKey|
            lookup(before.requests, key) is Some ==> #[trigger] lookup(after.requests, key) is Some,
    ensures
        forall|i: int|
            0 <= i < after.transfers.len() ==> transfer_ok(after, #[trigger] after.transfers[i]),
{
    assert forall|i: int| 0 <= i < after.transfers.len() implies transfer_ok(
        after,
        #[trigger] after.transfers[i],
    ) by {
        assert(transfer_ok(before, before.transfers[i]));
    }
}

/// Marking an object as lost, and looking for one, keep a store consistent.
pub proof fn law_loss_keeps_consistency(
    store: StoreView,
    group_id: GroupId,
    content_id: ContentId,
    file_present: bool,
)
    requires
        is_consistent(store),
    ensures
        is_consistent(demoted(store, group_id, content_id)),
        is_consistent(after_look(store, group_id, content_id, file_present)),
{
    let after = demoted(store, group_id, content_id);
    let key = ObjectKey { group_id, content_id };
    if let Some(row) = lookup(store.objects, key) {
        let lost = ObjectRow { available: false, ..row };
        lemma_put_rows(store.objects, key, lost);
        assert forall|other: ObjectKey| lookup(store.objects, other) is Some implies #[trigger] lookup(
            after.objects,
            other,
        ) is Some by {
            lemma_lookup_put(store.objects, key, lost, other);
        }
    }
    lemma_supplied(store, after);
    lemma_transfers_kept(store, after);
    lemma_consistent(store, after);
}

/// Writing an object into the catalog keeps a store consistent.
pub proof fn law_catalog_keeps_consistency(
    store: StoreView,
    group_id: GroupId,
    object: ObjectView,
    encrypted_size: nat,
    now: i64,
)
    requires
        is_consistent(store),
    ensures
        is_consistent(cataloged(store, group_id, object, encrypted_size, now)),
{
    let after = cataloged(store, group_id, object, encrypted_size, now);
    let key = ObjectKey { group_id, content_id: object.content_id };
    let row = ObjectRow {
        kind: object.kind,
        format_version: object.format_version,
        encrypted_size: encrypted_size as u64,
        verified_at_unix_ms: now,
        available: true,
    };
    let other = |key: PeerObjectKey|
        !(key.group_id == group_id && key.content_id == object.content_id);
    lemma_put_rows(store.objects, key, row);
    lemma_kept_rows(store.requests, other);
    lemma_kept_rows(store.transfers, other);
    assert forall|found: ObjectKey| lookup(store.objects, found) is Some implies #[trigger] lookup(
        after.objects,
        found,
    ) is Some by {
        lemma_lookup_put(store.objects, key, row, found);
    }
    assert forall|i: int| 0 <= i < after.transfers.len() implies transfer_ok(
        after,
        #[trigger] after.transfers[i],
    ) by {
        let transfer = after.transfers[i];
        assert(after.transfers.contains(transfer));
        assert(store.transfers.contains(transfer));
        let k = choose|k: int| 0 <= k < store.transfers.len() && store.transfers[k] == transfer;
        assert(transfer_ok(store, store.transfers[k]));
        lemma_lookup_kept(store.requests, other, transfer.0);
    }
    lemma_supplied(store, after);
    lemma_consistent(store, after);
}

/// Admitting an object keeps a store consistent, whether it is accepted or not.
pub proof fn law_admission_keeps_consistency(
    store: StoreView,
    keys: KeysView,
    kind: ObjectKind,
    content_id: ContentId,
    bytes: Seq<u8>,
    existing: Option<Seq<u8>>,
    now: i64,
)
    requires
        is_consistent(store),
    ensures
        is_consistent(with_object(store, keys, kind, content_id, bytes, existing, now)),
{
    law_loss_keeps_consistency(store, keys.group_id, content_id, false);
    let lost = demoted(store, keys.group_id, content_id);
    if let Ok(object) = verified_object(keys, kind, content_id, bytes) {
        law_catalog_keeps_consistency(store, keys.group_id, object, bytes.len(), now);
        law_catalog_keeps_consistency(lost, keys.group_id, object, bytes.len(), now);
    }
    if let Some(found) = existing {
        if let Ok(object) = verified_object(keys, kind, content_id, found) {
            law_catalog_keeps_consistency(store, keys.group_id, object, found.len(), now);
        }
    }
}

/// Asking objects of a peer keeps a store consistent.
pub proof fn law_requests_keep_consistency(
    store: StoreView,
    group_id: GroupId,
    peer_device_id: DeviceId,
    content_ids: Seq<ContentId>,
    present: Seq<ContentId>,
    now: i64,
)
    requires
        is_consistent(store),
    ensures
        is_consistent(
            with_requests(store, group_id, peer_device_id, content_ids, present, now).0,
        ),
    decreases content_ids.len(),
{
    if content_ids.len() > 0 {
        let front = content_ids.drop_last();
        let content_id = content_ids.last();
        law_requests_keep_consistency(store, group_id, peer_device_id, front, present, now);
        let before = with_requests(store, group_id, peer_device_id, front, present, now).0;
        let file_present = present.contains(content_id);
        law_loss_keeps_consistency(before, group_id, content_id, file_present);
        let looked = after_look(before, group_id, content_id, file_present);
        let after = with_request(before, group_id, peer_device_id, content_id, file_present, now);
        if is_new_request(before, group_id, peer_device_id, content_id, file_present) {
            lemma_request_put(
                looked,
                PeerObjectKey { group_id, peer_device_id, content_id },
                RequestRow {
                    requested_at_unix_ms: now,
                    attempt_count: 0,
                    last_attempt_at_unix_ms: None,
                },
            );
        }
    }
}

proof fn lemma_request_put(store: StoreView, key: PeerObjectKey, row: RequestRow)
    requires
        is_consistent(store),
    ensures
        is_consistent(StoreView { requests: put(store.requests, key, row), ..store }),
{
    let after = StoreView { requests: put(store.requests, key, row), ..store };
    lemma_put_rows(store.requests, key, row);
    assert forall|other: PeerObjectKey| lookup(store.requests, other) is Some implies #[trigger] lookup(
        after.requests,
        other,
    ) is Some by {
        lemma_lookup_put(store.requests, key, row, other);
    }
    lemma_supplied(store, after);
    lemma_transfers_kept(store, after);
    lemma_consistent(store, after);
}

/// Counting an attempt keeps a store consistent.
pub proof fn law_attempt_keeps_consistency(store: StoreView, key: PeerObjectKey, row: RequestRow)
    requires
        is_consistent(store),
    ensures
        is_consistent(StoreView { requests: put(store.requests, key, row), ..store }),
{
    lemma_request_put(store, key, row);
}

proof fn lemma_transfer_put(store: StoreView, key: PeerObjectKey, row: TransferRow)
    requires
        is_consistent(store),
        lookup(store.requests, key) is Some,
        row.request_id != 0,
        0 < row.encrypted_size <= MAXIMUM_ENCRYPTED_OBJECT_BYTES,
        row.received_size <= row.encrypted_size,
    ensures
        is_consistent(StoreView { transfers: put(store.transfers, key, row), ..store }),
{
    let after = StoreView { transfers: put(store.transfers, key, row), ..store };
    lemma_put_rows(store.transfers, key, row);
    assert forall|i: int| 0 <= i < after.transfers.len() implies transfer_ok(
        after,
        #[trigger] after.transfers[i],
    ) by {
        let transfer = after.transfers[i];
        if transfer != (key, row) {
            assert(store.transfers.contains(transfer));
            let k = choose|k: int|
                0 <= k < store.transfers.len() && store.transfers[k] == transfer;
            assert(transfer_ok(store, store.transfers[k]));
        }
    }
    lemma_supplied(store, after);
    lemma_consistent(store, after);
}

proof fn lemma_transfer_row(store: StoreView, key: PeerObjectKey)
    requires
        is_consistent(store),
        lookup(store.transfers, key) is Some,
    ensures
        transfer_ok(store, (key, lookup(store.transfers, key)->0)),
{
    lemma_lookup(store.transfers, key);
    let row = (key, lookup(store.transfers, key)->0);
    let k = choose|k: int| 0 <= k < store.transfers.len() && store.transfers[k] == row;
    assert(transfer_ok(store, store.transfers[k]));
}

/// Beginning, continuing and giving up a transfer keep a store consistent: no transfer ever brings
/// more than the object holds.
pub proof fn law_transfers_keep_consistency(
    store: StoreView,
    group_id: GroupId,
    peer_device_id: DeviceId,
    request_id: u128,
    content_id: ContentId,
    encrypted_size: u64,
    file_present: bool,
    expected_offset: u64,
    count: nat,
    file_size: Option<u64>,
)
    requires
        is_consistent(store),
    ensures
        is_consistent(
            with_transfer(
                store,
                group_id,
                peer_device_id,
                request_id,
                content_id,
                encrypted_size,
                file_present,
            ),
        ),
        is_consistent(
            with_appended(
                store,
                group_id,
                peer_device_id,
                content_id,
                expected_offset,
                count,
                file_size,
            ),
        ),
        is_consistent(
            StoreView {
                transfers: removed(
                    store.transfers,
                    PeerObjectKey { group_id, peer_device_id, content_id },
                ),
                ..store
            },
        ),
{
    let key = PeerObjectKey { group_id, peer_device_id, content_id };
    law_loss_keeps_consistency(store, group_id, content_id, file_present);
    let looked = after_look(store, group_id, content_id, file_present);
    if lookup(store.transfers, key) is Some {
        lemma_transfer_row(store, key);
    }
    match transfer_verdict(
        store,
        group_id,
        peer_device_id,
        request_id,
        content_id,
        encrypted_size,
        file_present,
    ) {
        Ok(ObjectTransferAdmission::Started) => {
            lemma_transfer_put(
                looked,
                key,
                TransferRow { request_id, encrypted_size, received_size: 0 },
            );
        },
        Ok(ObjectTransferAdmission::Resuming { received_size }) => {
            lemma_transfer_put(
                looked,
                key,
                TransferRow { request_id, encrypted_size, received_size },
            );
        },
        _ => {},
    }
    if let Ok(received_size) = append_verdict(
        store,
        group_id,
        peer_device_id,
        content_id,
        expected_offset,
        count,
        file_size,
    ) {
        if count != 0 {
            lemma_transfer_put(
                store,
                key,
                TransferRow { received_size, ..lookup(store.transfers, key)->0 },
            );
        }
    }
    lemma_transfers_filtered(store, other_than(key));
}

proof fn lemma_transfers_filtered(store: StoreView, keep: spec_fn(PeerObjectKey) -> bool)
    requires
        is_consistent(store),
    ensures
        is_consistent(StoreView { transfers: kept(store.transfers, keep), ..store }),
{
    let after = StoreView { transfers: kept(store.transfers, keep), ..store };
    lemma_kept_rows(store.transfers, keep);
    assert forall|i: int| 0 <= i < after.transfers.len() implies transfer_ok(
        after,
        #[trigger] after.transfers[i],
    ) by {
        let transfer = after.transfers[i];
        assert(after.transfers.contains(transfer));
        let k = choose|k: int| 0 <= k < store.transfers.len() && store.transfers[k] == transfer;
        assert(transfer_ok(store, store.transfers[k]));
    }
    lemma_supplied(store, after);
    lemma_consistent(store, after);
}

proof fn lemma_recovered(rows: Seq<(PeerObjectKey, TransferRow)>, files: Seq<TransferFile>)
    requires
        rows.len() <= files.len(),
        distinct_keys(rows),
    ensures
        distinct_keys(recovered_transfers(rows, files)),
        forall|i: int|
            0 <= i < recovered_transfers(rows, files).len() ==> exists|k: int|
                {
                    &&& 0 <= k < rows.len()
                    &&& (#[trigger] recovered_transfers(rows, files)[i]).0 == rows[k].0
                    &&& recovered_row((#[trigger] rows[k]).1, files[k]) == Some(
                        recovered_transfers(rows, files)[i].1,
                    )
                },
    decreases rows.len(),
{
    if rows.len() > 0 {
        let front = rows.drop_last();
        assert forall|i: int, j: int| 0 <= i < j < front.len() implies (#[trigger] front[i]).0 != (
        #[trigger] front[j]).0 by {
            assert(rows[i].0 != rows[j].0);
        }
        lemma_recovered(front, files);
        let before = recovered_transfers(front, files);
        let after = recovered_transfers(rows, files);
        let last = rows.len() - 1;
        assert forall|i: int| 0 <= i < after.len() implies exists|k: int|
            {
                &&& 0 <= k < rows.len()
                &&& (#[trigger] after[i]).0 == rows[k].0
                &&& recovered_row((#[trigger] rows[k]).1, files[k]) == Some(after[i].1)
            } by {
            if i < before.len() {
                assert(after[i] == before[i]);
                let k = choose|k: int|
                    {
                        &&& 0 <= k < front.len()
                        &&& before[i].0 == front[k].0
                        &&& recovered_row((#[trigger] front[k]).1, files[k]) == Some(before[i].1)
                    };
                assert(rows[k] == front[k]);
            } else {
                assert(after[i].0 == rows[last].0);
                assert(recovered_row(rows[last].1, files[last]) == Some(after[i].1));
            }
        }
        assert forall|i: int, j: int| 0 <= i < j < after.len() implies (#[trigger] after[i]).0 != (
        #[trigger] after[j]).0 by {
            if j < before.len() {
                assert(before[i].0 != before[j].0);
            } else {
                let k = choose|k: int|
                    {
                        &&& 0 <= k < front.len()
                        &&& before[i].0 == front[k].0
                        &&& recovered_row((#[trigger] front[k]).1, files[k]) == Some(before[i].1)
                    };
                assert(rows[k].0 != rows[last].0);
            }
        }
    }
}

/// Recovery keeps a store consistent, and what it adopts of a transfer is what the file holds.
pub proof fn law_recovery_keeps_consistency(
    store: StoreView,
    files: Seq<TransferFile>,
    present: Seq<ObjectKey>,
)
    requires
        is_consistent(store),
        files.len() == store.transfers.len(),
    ensures
        is_consistent(
            StoreView { transfers: recovered_transfers(store.transfers, files), ..store },
        ),
        is_consistent(StoreView { objects: recovered_objects(store.objects, present), ..store }),
        forall|i: int|
            0 <= i < recovered_transfers(store.transfers, files).len() ==> exists|k: int|
                {
                    &&& 0 <= k < files.len()
                    &&& (#[trigger] files[k]) == TransferFile::Regular {
                        size: (
                        #[trigger] recovered_transfers(store.transfers, files)[i]).1.received_size,
                    }
                },
{
    let transfers = recovered_transfers(store.transfers, files);
    let after = StoreView { transfers, ..store };
    lemma_recovered(store.transfers, files);
    assert forall|i: int| 0 <= i < transfers.len() implies transfer_ok(
        after,
        #[trigger] transfers[i],
    ) by {
        let k = choose|k: int|
            {
                &&& 0 <= k < store.transfers.len()
                &&& transfers[i].0 == store.transfers[k].0
                &&& recovered_row((#[trigger] store.transfers[k]).1, files[k]) == Some(
                    transfers[i].1,
                )
            };
        assert(transfer_ok(store, store.transfers[k]));
    }
    assert forall|i: int| 0 <= i < transfers.len() implies exists|k: int|
        {
            &&& 0 <= k < files.len()
            &&& (#[trigger] files[k]) == TransferFile::Regular {
                size: (#[trigger] transfers[i]).1.received_size,
            }
        } by {
        let k = choose|k: int|
            {
                &&& 0 <= k < store.transfers.len()
                &&& transfers[i].0 == store.transfers[k].0
                &&& recovered_row((#[trigger] store.transfers[k]).1, files[k]) == Some(
                    transfers[i].1,
                )
            };
        assert(files[k] == TransferFile::Regular { size: transfers[i].1.received_size });
    }
    lemma_supplied(store, after);
    lemma_consistent(store, after);
    let demoted_rows = StoreView {
        objects: recovered_objects(store.objects, present),
        ..store
    };
    assert forall|i: int, j: int| 0 <= i < j < demoted_rows.objects.len() implies (
    #[trigger] demoted_rows.objects[i]).0 != (#[trigger] demoted_rows.objects[j]).0 by {
        assert(store.objects[i].0 != store.objects[j].0);
    }
    assert forall|key: ObjectKey| lookup(store.objects, key) is Some implies #[trigger] lookup(
        demoted_rows.objects,
        key,
    ) is Some by {
        lemma_lookup(store.objects, key);
        lemma_lookup(demoted_rows.objects, key);
        let row = (key, lookup(store.objects, key)->0);
        let k = choose|k: int| 0 <= k < store.objects.len() && store.objects[k] == row;
        assert(demoted_rows.objects[k].0 == key);
    }
    lemma_supplied(store, demoted_rows);
    lemma_transfers_kept(store, demoted_rows);
    lemma_consistent(store, demoted_rows);
}

/// What is being brought to a path, once noted or forgotten, leaves a store consistent.
pub proof fn law_materialization_keeps_consistency(
    store: StoreView,
    group_id: GroupId,
    path_id: PathId,
    row: PendingRowView,
)
    requires
        is_consistent(store),
        is_known(store, group_id, row.target_content_id),
    ensures
        is_consistent(with_pending(store, group_id, path_id, row)),
        is_consistent(
            StoreView {
                pending: removed(store.pending, PathKey { group_id, path_id }),
                ..store
            },
        ),
{
    let key = PathKey { group_id, path_id };
    let after = with_pending(store, group_id, path_id, row);
    lemma_put_rows(store.pending, key, row);
    lemma_supplied(store, after);
    lemma_transfers_kept(store, after);
    lemma_consistent(store, after);
    let forgotten = StoreView { pending: removed(store.pending, key), ..store };
    lemma_kept_rows(store.pending, other_than(key));
    assert forall|i: int| 0 <= i < forgotten.pending.len() implies store.pending.contains(
        #[trigger] forgotten.pending[i],
    ) by {
        assert(forgotten.pending.contains(forgotten.pending[i]));
    }
    lemma_supplied(store, forgotten);
    lemma_transfers_kept(store, forgotten);
    lemma_consistent(store, forgotten);
}

/// A materialization that is admitted brings an object that is known.
pub proof fn law_admitted_materialization_is_known(
    store: StoreView,
    group_id: GroupId,
    path_id: PathId,
    row: PendingRowView,
)
    requires
        begin_verdict(store, group_id, path_id, row) is Ok,
    ensures
        is_known(store, group_id, row.target_content_id),
{
}

proof fn lemma_references(
    store: StoreView,
    group_id: GroupId,
    owner: ContentId,
    chunks: Seq<ContentId>,
)
    requires
        distinct_keys(store.references),
    ensures
        distinct_keys(with_references(store.references, group_id, owner, chunks)),
        forall|i: int|
            0 <= i < with_references(store.references, group_id, owner, chunks).len() ==> {
                let row = #[trigger] with_references(store.references, group_id, owner, chunks)[i];
                store.references.contains(row) || (row.0.group_id == group_id
                    && row.0.owner_content_id == owner && chunks.contains(
                    row.0.referenced_content_id,
                ))
            },
        forall|chunk: ContentId| #[trigger]
            chunks.contains(chunk) ==> with_references(
                store.references,
                group_id,
                owner,
                chunks,
            ).contains(
                (
                    ReferenceKey {
                        group_id,
                        owner_content_id: owner,
                        referenced_content_id: chunk,
                    },
                    (),
                ),
            ),
        forall|row: (ReferenceKey, ())| #[trigger]
            store.references.contains(row) ==> with_references(
                store.references,
                group_id,
                owner,
                chunks,
            ).contains(row),
    decreases chunks.len(),
{
    if chunks.len() > 0 {
        let front = chunks.drop_last();
        let last = chunks.last();
        lemma_references(store, group_id, owner, front);
        let before = with_references(store.references, group_id, owner, front);
        let after = with_references(store.references, group_id, owner, chunks);
        let key = ReferenceKey { group_id, owner_content_id: owner, referenced_content_id: last };
        lemma_put_rows(before, key, ());
        assert(chunks =~= front.push(last));
        assert(chunks[chunks.len() - 1] == last);
        assert forall|i: int| 0 <= i < after.len() implies ({
            let row = #[trigger] after[i];
            store.references.contains(row) || (row.0.group_id == group_id
                && row.0.owner_content_id == owner && chunks.contains(row.0.referenced_content_id))
        }) by {
            let row = after[i];
            if row != (key, ()) {
                assert(before.contains(row));
                let k = choose|k: int| 0 <= k < before.len() && before[k] == row;
                assert(before[k] == row);
                if !store.references.contains(row) {
                    let m = choose|m: int|
                        0 <= m < front.len() && front[m] == row.0.referenced_content_id;
                    assert(chunks[m] == row.0.referenced_content_id);
                }
            }
        }
        assert forall|row: (ReferenceKey, ())| #[trigger] before.contains(row) implies after.contains(
            row,
        ) by {
            lemma_put_contains(before, key, row);
        }
        assert forall|chunk: ContentId| #[trigger] chunks.contains(chunk) implies after.contains(
            (
                ReferenceKey { group_id, owner_content_id: owner, referenced_content_id: chunk },
                (),
            ),
        ) by {
            if chunk != last {
                let m = choose|m: int| 0 <= m < chunks.len() && chunks[m] == chunk;
                assert(front[m] == chunk);
                assert(front.contains(chunk));
            }
        }
    }
}

proof fn lemma_put_contains(
    rows: Seq<(ReferenceKey, ())>,
    key: ReferenceKey,
    row: (ReferenceKey, ()),
)
    requires
        rows.contains(row),
    ensures
        put(rows, key, ()).contains(row),
{
    let after = put(rows, key, ());
    lemma_lookup_put(rows, key, (), row.0);
    lemma_lookup(rows, row.0);
    lemma_lookup(after, row.0);
    let k = choose|k: int| 0 <= k < rows.len() && rows[k] == row;
    assert(rows[k].0 == row.0);
    assert(lookup(after, row.0) is Some);
    assert(after.contains((row.0, lookup(after, row.0)->0)));
    assert((row.0, lookup(after, row.0)->0) == row);
}

proof fn lemma_chunks_known(store: StoreView, group_id: GroupId, chunks: Seq<ContentId>)
    requires
        chunk_problem(store, group_id, chunks) is None,
    ensures
        forall|chunk: ContentId| #[trigger]
            chunks.contains(chunk) ==> is_known(store, group_id, chunk),
    decreases chunks.len(),
{
    if chunks.len() > 0 {
        let front = chunks.drop_last();
        lemma_chunks_known(store, group_id, front);
        assert forall|chunk: ContentId| #[trigger] chunks.contains(chunk) implies is_known(
            store,
            group_id,
            chunk,
        ) by {
            let k = choose|k: int| 0 <= k < chunks.len() && chunks[k] == chunk;
            if k < front.len() {
                assert(front[k] == chunk);
                assert(front.contains(chunk));
            }
        }
    }
}

proof fn lemma_change_absent(
    changes: Seq<ChangeRow>,
    group_id: GroupId,
    revision_id: RevisionId,
)
    requires
        change_of(changes, group_id, revision_id) is None,
    ensures
        forall|i: int|
            0 <= i < changes.len() ==> !((#[trigger] changes[i]).group_id == group_id
                && changes[i].revision_id == revision_id),
    decreases changes.len(),
{
    if changes.len() > 0 {
        lemma_change_absent(changes.drop_last(), group_id, revision_id);
        assert forall|i: int| 0 <= i < changes.len() implies !((
        #[trigger] changes[i]).group_id == group_id && changes[i].revision_id == revision_id) by {
            if i < changes.len() - 1 {
                assert(changes.drop_last()[i] == changes[i]);
            }
        }
    }
}

/// Entering a change into the log keeps a store consistent.
pub proof fn law_commit_keeps_consistency(
    store: StoreView,
    group_id: GroupId,
    revision_id: RevisionId,
    content_id: ContentId,
    chunks: Seq<ContentId>,
)
    requires
        is_consistent(store),
    ensures
        is_consistent(change_committed(store, group_id, revision_id, content_id, chunks).0),
{
    if let Ok(commit) = commit_verdict(store, group_id, revision_id, content_id, chunks) {
        if commit.inserted {
            let after = with_change(store, group_id, revision_id, content_id, chunks, commit);
            lemma_references(store, group_id, content_id, chunks);
            lemma_chunks_known(store, group_id, chunks);
            lemma_change_absent(store.changes, group_id, revision_id);
            if store.changes.len() > 0 {
                assert(store.changes.last() == store.changes[store.changes.len() - 1]);
            }
            assert forall|i: int| 0 <= i < after.changes.len() implies store.changes.contains(
                #[trigger] after.changes[i],
            ) || is_known(after, after.changes[i].group_id, after.changes[i].content_id) by {
                if i < store.changes.len() {
                    assert(store.changes[i] == after.changes[i]);
                }
            }
            lemma_supplied(store, after);
            lemma_transfers_kept(store, after);
            lemma_consistent(store, after);
        }
    }
}

proof fn lemma_head_put(
    store: StoreView,
    group_id: GroupId,
    path_id: PathId,
    content_id: ContentId,
    kind: ChangeRecordKind,
)
    requires
        is_consistent(store),
        is_known(store, group_id, content_id),
    ensures
        is_consistent(with_head(store, group_id, path_id, content_id, kind)),
{
    let after = with_head(store, group_id, path_id, content_id, kind);
    let key = PathKey { group_id, path_id };
    let row = HeadRow { content_id, kind };
    lemma_put_rows(store.heads, key, row);
    lemma_supplied(store, after);
    lemma_transfers_kept(store, after);
    lemma_consistent(store, after);
}

/// Entering a change into the log and making it a head keeps a store consistent.
pub proof fn law_local_commit_keeps_consistency(
    store: StoreView,
    group_id: GroupId,
    path_id: PathId,
    expected_previous: Option<ContentId>,
    revision_id: RevisionId,
    kind: ChangeRecordKind,
    content_id: ContentId,
    chunks: Seq<ContentId>,
)
    requires
        is_consistent(store),
    ensures
        is_consistent(
            local_change_committed(
                store,
                group_id,
                path_id,
                expected_previous,
                revision_id,
                kind,
                content_id,
                chunks,
            ).0,
        ),
        is_consistent(
            local_head_committed(
                store,
                group_id,
                path_id,
                expected_previous,
                kind,
                content_id,
                chunks,
            ).0,
        ),
{
    law_commit_keeps_consistency(store, group_id, revision_id, content_id, chunks);
    if let Ok(commit) = commit_verdict(store, group_id, revision_id, content_id, chunks) {
        let changed = with_change(store, group_id, revision_id, content_id, chunks, commit);
        if !commit.inserted {
            lemma_change_known(store, group_id, revision_id);
        }
        lemma_head_put(changed, group_id, path_id, content_id, kind);
    }
    if graph_problem(store, group_id, content_id, chunks) is None {
        let referenced = StoreView {
            references: with_references(store.references, group_id, content_id, chunks),
            ..store
        };
        lemma_references(store, group_id, content_id, chunks);
        lemma_chunks_known(store, group_id, chunks);
        lemma_supplied(store, referenced);
        lemma_transfers_kept(store, referenced);
        lemma_consistent(store, referenced);
        lemma_head_put(referenced, group_id, path_id, content_id, kind);
    }
}

proof fn lemma_change_known(store: StoreView, group_id: GroupId, revision_id: RevisionId)
    requires
        is_consistent(store),
        change_of(store.changes, group_id, revision_id) is Some,
    ensures
        is_known(
            store,
            group_id,
            change_of(store.changes, group_id, revision_id)->0.content_id,
        ),
{
    lemma_change_present(store.changes, group_id, revision_id);
    let row = change_of(store.changes, group_id, revision_id)->0;
    let k = choose|k: int| 0 <= k < store.changes.len() && store.changes[k] == row;
    assert(is_known(store, store.changes[k].group_id, store.changes[k].content_id));
}

proof fn lemma_change_present(
    changes: Seq<ChangeRow>,
    group_id: GroupId,
    revision_id: RevisionId,
)
    requires
        change_of(changes, group_id, revision_id) is Some,
    ensures
        changes.contains(change_of(changes, group_id, revision_id)->0),
        change_of(changes, group_id, revision_id)->0.group_id == group_id,
        change_of(changes, group_id, revision_id)->0.revision_id == revision_id,
    decreases changes.len(),
{
    let front = changes.drop_last();
    if change_of(front, group_id, revision_id) is Some {
        lemma_change_present(front, group_id, revision_id);
        let row = change_of(front, group_id, revision_id)->0;
        let k = choose|k: int| 0 <= k < front.len() && front[k] == row;
        assert(changes[k] == row);
    } else {
        assert(changes[changes.len() - 1] == changes.last());
    }
}

/// Entering a signed change into the log keeps a store consistent.
pub proof fn law_signed_commit_keeps_consistency(
    store: StoreView,
    group_id: GroupId,
    path_id: PathId,
    expected_previous: Option<ContentId>,
    revision_id: RevisionId,
    kind: ChangeRecordKind,
    content_id: ContentId,
    authorization: AuthorizationView,
    chunks: Seq<ContentId>,
)
    requires
        is_consistent(store),
    ensures
        is_consistent(
            signed_change_committed(
                store,
                group_id,
                revision_id,
                content_id,
                authorization,
                chunks,
            ).0,
        ),
        is_consistent(
            signed_local_change_committed(
                store,
                group_id,
                path_id,
                expected_previous,
                revision_id,
                kind,
                content_id,
                authorization,
                chunks,
            ).0,
        ),
{
    law_authentication_keeps_consistency(store, group_id, revision_id, content_id, authorization);
    let authenticated = with_authentication(
        store,
        group_id,
        revision_id,
        content_id,
        authorization,
    );
    law_commit_keeps_consistency(authenticated, group_id, revision_id, content_id, chunks);
    lemma_commit_frame(store, authenticated, group_id, revision_id, content_id, chunks);
    law_local_commit_keeps_consistency(
        authenticated,
        group_id,
        path_id,
        expected_previous,
        revision_id,
        kind,
        content_id,
        chunks,
    );
}

proof fn lemma_commit_frame(
    left: StoreView,
    right: StoreView,
    group_id: GroupId,
    revision_id: RevisionId,
    content_id: ContentId,
    chunks: Seq<ContentId>,
)
    requires
        left.objects == right.objects,
        left.changes == right.changes,
    ensures
        commit_verdict(left, group_id, revision_id, content_id, chunks) == commit_verdict(
            right,
            group_id,
            revision_id,
            content_id,
            chunks,
        ),
{
    lemma_chunk_frame(left, right, group_id, chunks);
}

proof fn lemma_chunk_frame(
    left: StoreView,
    right: StoreView,
    group_id: GroupId,
    chunks: Seq<ContentId>,
)
    requires
        left.objects == right.objects,
    ensures
        chunk_problem(left, group_id, chunks) == chunk_problem(right, group_id, chunks),
    decreases chunks.len(),
{
    if chunks.len() > 0 {
        lemma_chunk_frame(left, right, group_id, chunks.drop_last());
    }
}

proof fn lemma_pins(store: StoreView, key: ObjectKey)
    ensures
        (reference_count(store, key) == 0) == !is_pinned(store, key),
{
    lemma_change_pins(store.changes, key);
    lemma_reference_pins(store.references, key);
    lemma_head_pins(store.heads, key);
    lemma_pending_pins(store.pending, key);
    lemma_authentication_pins(store.authentications, key);
}

/// Something needs the object.
pub open spec fn is_pinned(store: StoreView, key: ObjectKey) -> bool {
    ||| exists|i: int|
        0 <= i < store.changes.len() && (#[trigger] store.changes[i]).group_id == key.group_id
            && store.changes[i].content_id == key.content_id
    ||| exists|i: int|
        0 <= i < store.references.len() && (#[trigger] store.references[i]).0.group_id
            == key.group_id && store.references[i].0.referenced_content_id == key.content_id
    ||| exists|i: int|
        0 <= i < store.heads.len() && (#[trigger] store.heads[i]).0.group_id == key.group_id
            && store.heads[i].1.content_id == key.content_id
    ||| exists|i: int|
        0 <= i < store.pending.len() && (#[trigger] store.pending[i]).0.group_id == key.group_id
            && store.pending[i].1.target_content_id == key.content_id
    ||| exists|i: int|
        0 <= i < store.authentications.len() && (
        #[trigger] store.authentications[i]).0.group_id == key.group_id
            && store.authentications[i].1.content_id == key.content_id
}

proof fn lemma_change_pins(rows: Seq<ChangeRow>, key: ObjectKey)
    ensures
        (change_pins(rows, key) > 0) == (exists|i: int|
            0 <= i < rows.len() && (#[trigger] rows[i]).group_id == key.group_id && rows[i].content_id == key.content_id),
    decreases rows.len(),
{
    if rows.len() > 0 {
        let front = rows.drop_last();
        lemma_change_pins(front, key);
        assert(rows.last() == rows[rows.len() - 1]);
        if change_pins(rows, key) > 0 {
            if change_pins(front, key) > 0 {
                let i = choose|i: int|
                    0 <= i < front.len() && (#[trigger] front[i]).group_id == key.group_id && front[i].content_id == key.content_id;
                assert(rows[i] == front[i]);
            }
        }
        if exists|i: int|
            0 <= i < rows.len() && (#[trigger] rows[i]).group_id == key.group_id && rows[i].content_id == key.content_id {
            let i = choose|i: int|
                0 <= i < rows.len() && (#[trigger] rows[i]).group_id == key.group_id && rows[i].content_id == key.content_id;
            if i < front.len() {
                assert(front[i] == rows[i]);
            }
        }
    }
}

proof fn lemma_reference_pins(rows: Seq<(ReferenceKey, ())>, key: ObjectKey)
    ensures
        (reference_pins(rows, key) > 0) == (exists|i: int|
            0 <= i < rows.len() && (#[trigger] rows[i]).0.group_id == key.group_id && rows[i].0.referenced_content_id
                == key.content_id),
    decreases rows.len(),
{
    if rows.len() > 0 {
        let front = rows.drop_last();
        lemma_reference_pins(front, key);
        assert(rows.last() == rows[rows.len() - 1]);
        if reference_pins(rows, key) > 0 {
            if reference_pins(front, key) > 0 {
                let i = choose|i: int|
                    0 <= i < front.len() && (#[trigger] front[i]).0.group_id == key.group_id && front[i].0.referenced_content_id
                == key.content_id;
                assert(rows[i] == front[i]);
            }
        }
        if exists|i: int|
            0 <= i < rows.len() && (#[trigger] rows[i]).0.group_id == key.group_id && rows[i].0.referenced_content_id
                == key.content_id {
            let i = choose|i: int|
                0 <= i < rows.len() && (#[trigger] rows[i]).0.group_id == key.group_id && rows[i].0.referenced_content_id
                == key.content_id;
            if i < front.len() {
                assert(front[i] == rows[i]);
            }
        }
    }
}

proof fn lemma_head_pins(rows: Seq<(PathKey, HeadRow)>, key: ObjectKey)
    ensures
        (head_pins(rows, key) > 0) == (exists|i: int|
            0 <= i < rows.len() && (#[trigger] rows[i]).0.group_id == key.group_id && rows[i].1.content_id == key.content_id),
    decreases rows.len(),
{
    if rows.len() > 0 {
        let front = rows.drop_last();
        lemma_head_pins(front, key);
        assert(rows.last() == rows[rows.len() - 1]);
        if head_pins(rows, key) > 0 {
            if head_pins(front, key) > 0 {
                let i = choose|i: int|
                    0 <= i < front.len() && (#[trigger] front[i]).0.group_id == key.group_id && front[i].1.content_id == key.content_id;
                assert(rows[i] == front[i]);
            }
        }
        if exists|i: int|
            0 <= i < rows.len() && (#[trigger] rows[i]).0.group_id == key.group_id && rows[i].1.content_id == key.content_id {
            let i = choose|i: int|
                0 <= i < rows.len() && (#[trigger] rows[i]).0.group_id == key.group_id && rows[i].1.content_id == key.content_id;
            if i < front.len() {
                assert(front[i] == rows[i]);
            }
        }
    }
}

proof fn lemma_pending_pins(rows: Seq<(PathKey, PendingRowView)>, key: ObjectKey)
    ensures
        (pending_pins(rows, key) > 0) == (exists|i: int|
            0 <= i < rows.len() && (#[trigger] rows[i]).0.group_id == key.group_id && rows[i].1.target_content_id
                == key.content_id),
    decreases rows.len(),
{
    if rows.len() > 0 {
        let front = rows.drop_last();
        lemma_pending_pins(front, key);
        assert(rows.last() == rows[rows.len() - 1]);
        if pending_pins(rows, key) > 0 {
            if pending_pins(front, key) > 0 {
                let i = choose|i: int|
                    0 <= i < front.len() && (#[trigger] front[i]).0.group_id == key.group_id && front[i].1.target_content_id
                == key.content_id;
                assert(rows[i] == front[i]);
            }
        }
        if exists|i: int|
            0 <= i < rows.len() && (#[trigger] rows[i]).0.group_id == key.group_id && rows[i].1.target_content_id
                == key.content_id {
            let i = choose|i: int|
                0 <= i < rows.len() && (#[trigger] rows[i]).0.group_id == key.group_id && rows[i].1.target_content_id
                == key.content_id;
            if i < front.len() {
                assert(front[i] == rows[i]);
            }
        }
    }
}

proof fn lemma_authentication_pins(rows: Seq<(RevisionKey, AuthenticationRowView)>, key: ObjectKey)
    ensures
        (authentication_pins(rows, key) > 0) == (exists|i: int|
            0 <= i < rows.len() && (#[trigger] rows[i]).0.group_id == key.group_id && rows[i].1.content_id == key.content_id),
    decreases rows.len(),
{
    if rows.len() > 0 {
        let front = rows.drop_last();
        lemma_authentication_pins(front, key);
        assert(rows.last() == rows[rows.len() - 1]);
        if authentication_pins(rows, key) > 0 {
            if authentication_pins(front, key) > 0 {
                let i = choose|i: int|
                    0 <= i < front.len() && (#[trigger] front[i]).0.group_id == key.group_id && front[i].1.content_id == key.content_id;
                assert(rows[i] == front[i]);
            }
        }
        if exists|i: int|
            0 <= i < rows.len() && (#[trigger] rows[i]).0.group_id == key.group_id && rows[i].1.content_id == key.content_id {
            let i = choose|i: int|
                0 <= i < rows.len() && (#[trigger] rows[i]).0.group_id == key.group_id && rows[i].1.content_id == key.content_id;
            if i < front.len() {
                assert(front[i] == rows[i]);
            }
        }
    }
}

/// An object is pinned as long as something needs it, and no longer.
pub proof fn law_reference_count_tells_what_is_needed(store: StoreView, key: ObjectKey)
    ensures
        (reference_count(store, key) > 0) == is_pinned(store, key),
{
    lemma_pins(store, key);
}

proof fn lemma_garbage_keys(
    store: StoreView,
    rows: Seq<(ObjectKey, ObjectRow)>,
    group_id: GroupId,
    verified_before: i64,
)
    ensures
        forall|i: int|
            0 <= i < garbage_keys(store, rows, group_id, verified_before).len() ==> {
                let key = #[trigger] garbage_keys(store, rows, group_id, verified_before)[i];
                reference_count(
                    store,
                    ObjectKey { group_id, content_id: ContentId { high: key.high, low: key.low } },
                ) == 0
            },
    decreases rows.len(),
{
    if rows.len() > 0 {
        lemma_garbage_keys(store, rows.drop_last(), group_id, verified_before);
        let before = garbage_keys(store, rows.drop_last(), group_id, verified_before);
        let after = garbage_keys(store, rows, group_id, verified_before);
        let row = rows.last();
        assert forall|i: int| 0 <= i < after.len() implies ({
            let key = #[trigger] after[i];
            reference_count(
                store,
                ObjectKey { group_id, content_id: ContentId { high: key.high, low: key.low } },
            ) == 0
        }) by {
            if i < before.len() {
                assert(after[i] == before[i]);
            } else {
                assert(row.0 == ObjectKey {
                    group_id,
                    content_id: ContentId { high: after[i].high, low: after[i].low },
                });
            }
        }
    }
}

/// Whatever is collected, nothing needed it.
pub proof fn law_only_garbage_is_collected(
    store: StoreView,
    group_id: GroupId,
    verified_before: i64,
    maximum: nat,
    content_id: ContentId,
)
    requires
        garbage_of(store, group_id, verified_before, maximum).contains(content_id),
    ensures
        !is_pinned(store, ObjectKey { group_id, content_id }),
{
    let keys = garbage_keys(store, store.objects, group_id, verified_before);
    let page = at_most(sorted(keys), maximum);
    lemma_sorted(keys);
    lemma_garbage_keys(store, store.objects, group_id, verified_before);
    let garbage = garbage_of(store, group_id, verified_before, maximum);
    let k = choose|k: int| 0 <= k < garbage.len() && garbage[k] == content_id;
    let key = page[k];
    assert(key == sorted(keys)[k]);
    assert(keys.contains(sorted(keys)[k]));
    let m = choose|m: int| 0 <= m < keys.len() && keys[m] == key;
    assert(reference_count(
        store,
        ObjectKey { group_id, content_id: ContentId { high: keys[m].high, low: keys[m].low } },
    ) == 0);
    lemma_pins(store, ObjectKey { group_id, content_id });
}

/// What something needs survives every collection of garbage, and the store stays consistent.
pub proof fn law_collection_keeps_what_is_needed(
    store: StoreView,
    group_id: GroupId,
    verified_before: i64,
    maximum: nat,
)
    requires
        is_consistent(store),
    ensures
        ({
            let garbage = garbage_of(store, group_id, verified_before, maximum);
            let after = without_objects(store, group_id, garbage);
            &&& is_consistent(after)
            &&& forall|key: ObjectKey| #[trigger]
                is_pinned(store, key) ==> lookup(after.objects, key) == lookup(store.objects, key)
        }),
{
    let garbage = garbage_of(store, group_id, verified_before, maximum);
    let after = without_objects(store, group_id, garbage);
    let keep_object = |key: ObjectKey|
        !(key.group_id == group_id && garbage.contains(key.content_id));
    let keep_reference = |key: ReferenceKey|
        !(key.group_id == group_id && garbage.contains(key.owner_content_id));
    lemma_kept_rows(store.objects, keep_object);
    lemma_kept_rows(store.references, keep_reference);
    assert forall|key: ObjectKey| #[trigger] is_pinned(store, key) implies lookup(
        after.objects,
        key,
    ) == lookup(store.objects, key) by {
        lemma_lookup_kept(store.objects, keep_object, key);
        if key.group_id == group_id && garbage.contains(key.content_id) {
            law_only_garbage_is_collected(
                store,
                group_id,
                verified_before,
                maximum,
                key.content_id,
            );
        }
    }
    assert forall|i: int| 0 <= i < after.changes.len() implies is_known(
        after,
        (#[trigger] after.changes[i]).group_id,
        after.changes[i].content_id,
    ) by {
        let row = store.changes[i];
        assert(is_known(store, row.group_id, row.content_id));
        assert(is_pinned(
            store,
            ObjectKey { group_id: row.group_id, content_id: row.content_id },
        ));
    }
    assert forall|i: int| 0 <= i < after.references.len() implies ({
        let key = (#[trigger] after.references[i]).0;
        is_known(after, key.group_id, key.owner_content_id) && is_known(
            after,
            key.group_id,
            key.referenced_content_id,
        )
    }) by {
        let row = after.references[i];
        assert(after.references.contains(row));
        let k = choose|k: int| 0 <= k < store.references.len() && store.references[k] == row;
        let key = store.references[k].0;
        assert(is_known(store, key.group_id, key.owner_content_id));
        assert(is_known(store, key.group_id, key.referenced_content_id));
        assert(is_pinned(
            store,
            ObjectKey { group_id: key.group_id, content_id: key.referenced_content_id },
        ));
        lemma_lookup_kept(
            store.objects,
            keep_object,
            ObjectKey { group_id: key.group_id, content_id: key.owner_content_id },
        );
    }
    assert forall|i: int| 0 <= i < after.heads.len() implies is_known(
        after,
        (#[trigger] after.heads[i]).0.group_id,
        after.heads[i].1.content_id,
    ) by {
        let row = store.heads[i];
        assert(is_known(store, row.0.group_id, row.1.content_id));
        assert(is_pinned(
            store,
            ObjectKey { group_id: row.0.group_id, content_id: row.1.content_id },
        ));
    }
    assert forall|i: int| 0 <= i < after.pending.len() implies is_known(
        after,
        (#[trigger] after.pending[i]).0.group_id,
        after.pending[i].1.target_content_id,
    ) by {
        let row = store.pending[i];
        assert(is_known(store, row.0.group_id, row.1.target_content_id));
        assert(is_pinned(
            store,
            ObjectKey { group_id: row.0.group_id, content_id: row.1.target_content_id },
        ));
    }
    assert forall|i: int| 0 <= i < after.authentications.len() implies is_known(
        after,
        (#[trigger] after.authentications[i]).0.group_id,
        after.authentications[i].1.content_id,
    ) by {
        let row = store.authentications[i];
        assert(is_known(store, row.0.group_id, row.1.content_id));
        assert(is_pinned(
            store,
            ObjectKey { group_id: row.0.group_id, content_id: row.1.content_id },
        ));
    }
    lemma_transfers_kept(store, after);
}

proof fn lemma_verified_id(
    keys: KeysView,
    kind: ObjectKind,
    content_id: ContentId,
    bytes: Seq<u8>,
)
    requires
        verified_object(keys, kind, content_id, bytes) is Ok,
    ensures
        verified_object(keys, kind, content_id, bytes)->Ok_0.content_id == content_id,
        verified_object(keys, kind, content_id, bytes)->Ok_0.kind == kind,
{
}

/// An object that was written is there, can be used as what it is, and reading it gives back the
/// bytes that were written.
pub proof fn law_read_gives_back_what_was_written(
    store: StoreView,
    keys: KeysView,
    kind: ObjectKind,
    content_id: ContentId,
    bytes: Seq<u8>,
    existing: Option<Seq<u8>>,
    now: i64,
)
    requires
        admission_verdict(keys, kind, content_id, bytes, existing) == Ok::<Admission, StoreError>(
            Admission::Stored,
        ),
    ensures
        ({
            let after = with_object(store, keys, kind, content_id, bytes, existing, now);
            &&& is_present(after, keys.group_id, content_id, true)
            &&& kind_problem(after, keys.group_id, content_id, kind) is None
            &&& loaded(after, keys, kind, content_id, Some(bytes)) == Ok::<Seq<u8>, StoreError>(
                bytes,
            )
        }),
{
    lemma_verified_id(keys, kind, content_id, bytes);
    let base = if existing is Some {
        demoted(store, keys.group_id, content_id)
    } else {
        store
    };
    let object = verified_object(keys, kind, content_id, bytes)->Ok_0;
    let key = ObjectKey { group_id: keys.group_id, content_id };
    lemma_lookup_put(
        base.objects,
        key,
        ObjectRow {
            kind: object.kind,
            format_version: object.format_version,
            encrypted_size: bytes.len() as u64,
            verified_at_unix_ms: now,
            available: true,
        },
        key,
    );
}

/// After an object was admitted, its file has to be written exactly where the object is said to be
/// stored, and not where it is said to be present already.
pub proof fn law_stored_object_is_due(
    store: StoreView,
    keys: KeysView,
    kind: ObjectKind,
    content_id: ContentId,
    bytes: Seq<u8>,
    existing: Option<Seq<u8>>,
    now: i64,
)
    requires
        admission_verdict(keys, kind, content_id, bytes, existing) is Ok,
    ensures
        file_is_due(
            with_object(store, keys, kind, content_id, bytes, existing, now),
            keys,
            kind,
            content_id,
            existing,
        ) == (admission_verdict(keys, kind, content_id, bytes, existing)->Ok_0
            == Admission::Stored),
{
    let key = ObjectKey { group_id: keys.group_id, content_id };
    let held = match admission_verdict(keys, kind, content_id, bytes, existing)->Ok_0 {
        Admission::Stored => bytes,
        Admission::AlreadyPresent => existing->0,
    };
    lemma_verified_id(keys, kind, content_id, held);
    let object = verified_object(keys, kind, content_id, held)->Ok_0;
    let row = ObjectRow {
        kind: object.kind,
        format_version: object.format_version,
        encrypted_size: held.len() as u64,
        verified_at_unix_ms: now,
        available: true,
    };
    lemma_lookup_put(store.objects, key, row, key);
    lemma_lookup_put(demoted(store, keys.group_id, content_id).objects, key, row, key);
}

/// Once an object is admitted, it is no longer asked of any peer, and no transfer of it goes on.
pub proof fn law_admission_clears_requests(
    store: StoreView,
    keys: KeysView,
    kind: ObjectKind,
    content_id: ContentId,
    bytes: Seq<u8>,
    existing: Option<Seq<u8>>,
    now: i64,
    peer_device_id: DeviceId,
)
    requires
        admission_verdict(keys, kind, content_id, bytes, existing) is Ok,
    ensures
        ({
            let after = with_object(store, keys, kind, content_id, bytes, existing, now);
            let key = PeerObjectKey { group_id: keys.group_id, peer_device_id, content_id };
            &&& lookup(after.requests, key) is None
            &&& lookup(after.transfers, key) is None
        }),
{
    lemma_verified_id(keys, kind, content_id, bytes);
    if existing is Some && verified_object(keys, kind, content_id, existing->0) is Ok {
        lemma_verified_id(keys, kind, content_id, existing->0);
    }
    let after = with_object(store, keys, kind, content_id, bytes, existing, now);
    let key = PeerObjectKey { group_id: keys.group_id, peer_device_id, content_id };
    let other = |found: PeerObjectKey|
        !(found.group_id == keys.group_id && found.content_id == content_id);
    let base = if existing is Some {
        demoted(store, keys.group_id, content_id)
    } else {
        store
    };
    lemma_lookup_kept(store.requests, other, key);
    lemma_lookup_kept(store.transfers, other, key);
    assert(base.requests == store.requests && base.transfers == store.transfers);
}

proof fn lemma_request_step(
    store: StoreView,
    group_id: GroupId,
    peer_device_id: DeviceId,
    content_id: ContentId,
    now: i64,
    present: Seq<ContentId>,
    other: ContentId,
)
    ensures
        ({
            let after = with_request(
                store,
                group_id,
                peer_device_id,
                content_id,
                present.contains(content_id),
                now,
            );
            &&& !is_new_request(
                after,
                group_id,
                peer_device_id,
                content_id,
                present.contains(content_id),
            )
            &&& !is_new_request(store, group_id, peer_device_id, other, present.contains(other))
                ==> !is_new_request(
                after,
                group_id,
                peer_device_id,
                other,
                present.contains(other),
            )
        }),
{
    let file_present = present.contains(content_id);
    let looked = after_look(store, group_id, content_id, file_present);
    let key = ObjectKey { group_id, content_id };
    let request = PeerObjectKey { group_id, peer_device_id, content_id };
    let row = RequestRow {
        requested_at_unix_ms: now,
        attempt_count: 0,
        last_attempt_at_unix_ms: None,
    };
    lemma_lookup_put(store.requests, request, row, request);
    lemma_lookup_put(
        store.requests,
        request,
        row,
        PeerObjectKey { group_id, peer_device_id, content_id: other },
    );
    if let Some(object) = lookup(store.objects, key) {
        let lost = ObjectRow { available: false, ..object };
        lemma_lookup_put(store.objects, key, lost, key);
        lemma_lookup_put(store.objects, key, lost, ObjectKey { group_id, content_id: other });
    }
}

proof fn lemma_requests_made(
    store: StoreView,
    group_id: GroupId,
    peer_device_id: DeviceId,
    content_ids: Seq<ContentId>,
    present: Seq<ContentId>,
    now: i64,
    other: ContentId,
)
    ensures
        ({
            let after = with_requests(
                store,
                group_id,
                peer_device_id,
                content_ids,
                present,
                now,
            ).0;
            content_ids.contains(other) || !is_new_request(
                store,
                group_id,
                peer_device_id,
                other,
                present.contains(other),
            ) ==> !is_new_request(
                after,
                group_id,
                peer_device_id,
                other,
                present.contains(other),
            )
        }),
    decreases content_ids.len(),
{
    if content_ids.len() > 0 {
        let front = content_ids.drop_last();
        let last = content_ids.last();
        lemma_requests_made(store, group_id, peer_device_id, front, present, now, other);
        let before = with_requests(store, group_id, peer_device_id, front, present, now).0;
        lemma_request_step(before, group_id, peer_device_id, last, now, present, other);
        if content_ids.contains(other) && other != last {
            let k = choose|k: int| 0 <= k < content_ids.len() && content_ids[k] == other;
            assert(front[k] == other);
            assert(front.contains(other));
        }
    }
}

proof fn lemma_nothing_new(
    store: StoreView,
    group_id: GroupId,
    peer_device_id: DeviceId,
    content_ids: Seq<ContentId>,
    present: Seq<ContentId>,
    now: i64,
)
    requires
        forall|id: ContentId| #[trigger]
            content_ids.contains(id) ==> !is_new_request(
                store,
                group_id,
                peer_device_id,
                id,
                present.contains(id),
            ),
    ensures
        with_requests(store, group_id, peer_device_id, content_ids, present, now).1 == 0,
        with_requests(store, group_id, peer_device_id, content_ids, present, now).0.requests
            == store.requests,
    decreases content_ids.len(),
{
    if content_ids.len() > 0 {
        let front = content_ids.drop_last();
        let last = content_ids.last();
        assert forall|id: ContentId| #[trigger] front.contains(id) implies !is_new_request(
            store,
            group_id,
            peer_device_id,
            id,
            present.contains(id),
        ) by {
            let k = choose|k: int| 0 <= k < front.len() && front[k] == id;
            assert(content_ids[k] == id);
            assert(content_ids.contains(id));
        }
        lemma_nothing_new(store, group_id, peer_device_id, front, present, now);
        assert(content_ids[content_ids.len() - 1] == last);
        assert(content_ids.contains(last));
        lemma_requests_made(store, group_id, peer_device_id, front, present, now, last);
    }
}

/// Asking again for what was asked for makes no new requests and changes none.
pub proof fn law_requests_are_idempotent(
    store: StoreView,
    group_id: GroupId,
    peer_device_id: DeviceId,
    content_ids: Seq<ContentId>,
    present: Seq<ContentId>,
    first: i64,
    second: i64,
)
    ensures
        ({
            let asked = with_requests(
                store,
                group_id,
                peer_device_id,
                content_ids,
                present,
                first,
            ).0;
            let again = with_requests(
                asked,
                group_id,
                peer_device_id,
                content_ids,
                present,
                second,
            );
            &&& again.1 == 0
            &&& again.0.requests == asked.requests
        }),
{
    let asked = with_requests(store, group_id, peer_device_id, content_ids, present, first).0;
    assert forall|id: ContentId| #[trigger] content_ids.contains(id) implies !is_new_request(
        asked,
        group_id,
        peer_device_id,
        id,
        present.contains(id),
    ) by {
        lemma_requests_made(store, group_id, peer_device_id, content_ids, present, first, id);
    }
    lemma_nothing_new(asked, group_id, peer_device_id, content_ids, present, second);
}

/// A device that was added is an active member. Adding it again changes nothing.
pub proof fn law_membership_is_idempotent(
    store: StoreView,
    group_id: GroupId,
    public_key: Seq<u8>,
    role: MemberRole,
)
    requires
        ed25519_valid_key(public_key),
        membership_verdict(store, group_id, public_key, role) is Ok,
    ensures
        ({
            let after = with_member(store, group_id, public_key, role);
            &&& membership_verdict(after, group_id, public_key, role) == Ok::<
                MembershipAdmission,
                StoreError,
            >(MembershipAdmission::AlreadyActive)
            &&& with_member(after, group_id, public_key, role) == after
        }),
{
    let device_id = device_id_of(public_key);
    let key = DeviceKey { group_id, device_id };
    lemma_lookup_put(
        store.members,
        key,
        MemberRowView { public_key, role, status: MemberStatus::Active },
        key,
    );
}

/// A device that was revoked cannot be added again, cannot be revoked again, and no change that it
/// signs is accepted any more.
pub proof fn law_revocation_is_final(
    store: StoreView,
    group_id: GroupId,
    public_key: Seq<u8>,
    role: MemberRole,
    revision_id: RevisionId,
    content_id: ContentId,
    signature: Seq<u8>,
)
    requires
        membership_verdict(store, group_id, public_key, role) == Ok::<
            MembershipAdmission,
            StoreError,
        >(MembershipAdmission::AlreadyActive),
    ensures
        ({
            let device_id = device_id_of(public_key);
            let after = with_revocation(store, group_id, device_id);
            &&& is_revocable(store, group_id, device_id)
            &&& !is_revocable(after, group_id, device_id)
            &&& membership_verdict(after, group_id, public_key, role) == Err::<
                MembershipAdmission,
                StoreError,
            >(StoreError::MemberRevoked { device_id })
            &&& authorization_verdict(
                after,
                group_id,
                revision_id,
                content_id,
                AuthorizationView { author_device_id: device_id, signature },
            ) == Err::<(), StoreError>(StoreError::MemberRevoked { device_id })
        }),
{
    let device_id = device_id_of(public_key);
    let key = DeviceKey { group_id, device_id };
    let row = lookup(store.members, key)->0;
    lemma_lookup_put(
        store.members,
        key,
        MemberRowView { status: MemberStatus::Revoked, ..row },
        key,
    );
}

/// A signature that was accepted stays accepted, also after its author was revoked.
pub proof fn law_authentication_survives_revocation(
    store: StoreView,
    group_id: GroupId,
    revision_id: RevisionId,
    content_id: ContentId,
    authorization: AuthorizationView,
    device_id: DeviceId,
)
    requires
        authentication_verdict(store, group_id, revision_id, content_id, authorization) is Ok,
    ensures
        authentication_verdict(
            with_revocation(
                with_authentication(store, group_id, revision_id, content_id, authorization),
                group_id,
                device_id,
            ),
            group_id,
            revision_id,
            content_id,
            authorization,
        ) == Ok::<ChangeAuthenticationAdmission, StoreError>(
            ChangeAuthenticationAdmission::AlreadyAuthenticated,
        ),
{
    let key = RevisionKey { group_id, revision_id };
    lemma_lookup_put(
        store.authentications,
        key,
        AuthenticationRowView { content_id, authorization },
        key,
    );
}

/// A signature that was accepted for one content is never taken for another.
pub proof fn law_authentication_is_exclusive(
    store: StoreView,
    group_id: GroupId,
    revision_id: RevisionId,
    content_id: ContentId,
    authorization: AuthorizationView,
    other_content_id: ContentId,
    other_authorization: AuthorizationView,
)
    requires
        authentication_verdict(store, group_id, revision_id, content_id, authorization) is Ok,
        (other_content_id, other_authorization) != (content_id, authorization),
    ensures
        authentication_verdict(
            with_authentication(store, group_id, revision_id, content_id, authorization),
            group_id,
            revision_id,
            other_content_id,
            other_authorization,
        ) == Err::<ChangeAuthenticationAdmission, StoreError>(
            StoreError::ChangeAuthenticationMismatch { revision_id },
        ),
{
    let key = RevisionKey { group_id, revision_id };
    lemma_lookup_put(
        store.authentications,
        key,
        AuthenticationRowView { content_id, authorization },
        key,
    );
}

proof fn lemma_change_pushed(
    changes: Seq<ChangeRow>,
    row: ChangeRow,
)
    requires
        change_of(changes, row.group_id, row.revision_id) is None,
    ensures
        change_of(changes.push(row), row.group_id, row.revision_id) == Some(row),
{
    assert(changes.push(row).drop_last() =~= changes);
}

/// Committing a change again finds it where it is and changes nothing, whatever chunks are named.
pub proof fn law_commit_is_idempotent(
    store: StoreView,
    group_id: GroupId,
    revision_id: RevisionId,
    content_id: ContentId,
    chunks: Seq<ContentId>,
    other_chunks: Seq<ContentId>,
)
    requires
        commit_verdict(store, group_id, revision_id, content_id, chunks) is Ok,
    ensures
        ({
            let (after, result) = change_committed(
                store,
                group_id,
                revision_id,
                content_id,
                chunks,
            );
            change_committed(after, group_id, revision_id, content_id, other_chunks) == (
                after,
                Ok::<ChangeCommit, StoreError>(
                    ChangeCommit { sequence: result->Ok_0.sequence, inserted: false },
                ),
            )
        }),
{
    let commit = commit_verdict(store, group_id, revision_id, content_id, chunks)->Ok_0;
    if commit.inserted {
        lemma_change_pushed(
            store.changes,
            ChangeRow { sequence: commit.sequence, group_id, revision_id, content_id },
        );
    }
}

/// A revision that stands in the log with one content is refused with another.
pub proof fn law_revision_has_one_content(
    store: StoreView,
    group_id: GroupId,
    revision_id: RevisionId,
    content_id: ContentId,
    chunks: Seq<ContentId>,
    other_content_id: ContentId,
    other_chunks: Seq<ContentId>,
)
    requires
        commit_verdict(store, group_id, revision_id, content_id, chunks) is Ok,
        other_content_id != content_id,
    ensures
        commit_verdict(
            change_committed(store, group_id, revision_id, content_id, chunks).0,
            group_id,
            revision_id,
            other_content_id,
            other_chunks,
        ) == Err::<ChangeCommit, StoreError>(StoreError::RevisionContentMismatch { revision_id }),
{
    let commit = commit_verdict(store, group_id, revision_id, content_id, chunks)->Ok_0;
    if commit.inserted {
        lemma_change_pushed(
            store.changes,
            ChangeRow { sequence: commit.sequence, group_id, revision_id, content_id },
        );
    }
}

/// What is entered into the log pins its manifest and every chunk that it needs.
pub proof fn law_committed_objects_are_pinned(
    store: StoreView,
    group_id: GroupId,
    revision_id: RevisionId,
    content_id: ContentId,
    chunks: Seq<ContentId>,
    chunk: ContentId,
)
    requires
        distinct_keys(store.references),
        commit_verdict(store, group_id, revision_id, content_id, chunks) matches Ok(commit)
            && commit.inserted,
        chunks.contains(chunk),
    ensures
        ({
            let after = change_committed(store, group_id, revision_id, content_id, chunks).0;
            &&& is_pinned(after, ObjectKey { group_id, content_id })
            &&& is_pinned(after, ObjectKey { group_id, content_id: chunk })
        }),
{
    let after = change_committed(store, group_id, revision_id, content_id, chunks).0;
    lemma_references(store, group_id, content_id, chunks);
    let row = after.changes[after.changes.len() - 1];
    assert(row.group_id == group_id && row.content_id == content_id);
    let reference = (
        ReferenceKey {
            group_id,
            owner_content_id: content_id,
            referenced_content_id: chunk,
        },
        (),
    );
    assert(after.references.contains(reference));
    let k = choose|k: int| 0 <= k < after.references.len() && after.references[k] == reference;
    assert(after.references[k].0.group_id == group_id);
}

/// A commit that succeeds makes its content the head of the path, leaves the other paths alone,
/// and can be made again with the same outcome.
pub proof fn law_head_follows_commit(
    store: StoreView,
    group_id: GroupId,
    path_id: PathId,
    expected_previous: Option<ContentId>,
    revision_id: RevisionId,
    kind: ChangeRecordKind,
    content_id: ContentId,
    chunks: Seq<ContentId>,
    other: PathId,
)
    requires
        local_change_committed(
            store,
            group_id,
            path_id,
            expected_previous,
            revision_id,
            kind,
            content_id,
            chunks,
        ).1 is Ok,
        other != path_id,
    ensures
        ({
            let (after, result) = local_change_committed(
                store,
                group_id,
                path_id,
                expected_previous,
                revision_id,
                kind,
                content_id,
                chunks,
            );
            &&& head_at(after, group_id, path_id) == Some(LocalHead { path_id, content_id, kind })
            &&& head_at(after, group_id, other) == head_at(store, group_id, other)
            &&& local_change_committed(
                after,
                group_id,
                path_id,
                expected_previous,
                revision_id,
                kind,
                content_id,
                chunks,
            ) == (
                after,
                Ok::<ChangeCommit, StoreError>(
                    ChangeCommit { sequence: result->Ok_0.sequence, inserted: false },
                ),
            )
        }),
{
    let key = PathKey { group_id, path_id };
    let row = HeadRow { content_id, kind };
    lemma_lookup_put(store.heads, key, row, key);
    lemma_lookup_put(store.heads, key, row, PathKey { group_id, path_id: other });
    law_commit_is_idempotent(store, group_id, revision_id, content_id, chunks, chunks);
    let changed = change_committed(store, group_id, revision_id, content_id, chunks).0;
    let after = local_change_committed(
        store,
        group_id,
        path_id,
        expected_previous,
        revision_id,
        kind,
        content_id,
        chunks,
    ).0;
    assert(changed.heads == store.heads);
    assert(changed.pending == store.pending);
    assert(pending_at(after, group_id, path_id) == pending_at(store, group_id, path_id));
    assert(after.changes == changed.changes);
}

/// A head is only replaced by one who knows it: every commit that expects another one is refused.
pub proof fn law_stale_commit_is_refused(
    store: StoreView,
    group_id: GroupId,
    path_id: PathId,
    expected_previous: Option<ContentId>,
    revision_id: RevisionId,
    kind: ChangeRecordKind,
    content_id: ContentId,
    chunks: Seq<ContentId>,
)
    requires
        head_content(store, group_id, path_id) != expected_previous,
        head_content(store, group_id, path_id) != Some(content_id),
    ensures
        local_change_committed(
            store,
            group_id,
            path_id,
            expected_previous,
            revision_id,
            kind,
            content_id,
            chunks,
        ).1 is Err,
        local_change_committed(
            store,
            group_id,
            path_id,
            expected_previous,
            revision_id,
            kind,
            content_id,
            chunks,
        ).0 == store,
{
}

/// A commit that is refused changes nothing: neither log nor head nor signature is recorded.
pub proof fn law_refused_commit_changes_nothing(
    store: StoreView,
    group_id: GroupId,
    path_id: PathId,
    expected_previous: Option<ContentId>,
    revision_id: RevisionId,
    kind: ChangeRecordKind,
    content_id: ContentId,
    authorization: AuthorizationView,
    chunks: Seq<ContentId>,
)
    ensures
        ({
            let signed = signed_change_committed(
                store,
                group_id,
                revision_id,
                content_id,
                authorization,
                chunks,
            );
            let signed_local = signed_local_change_committed(
                store,
                group_id,
                path_id,
                expected_previous,
                revision_id,
                kind,
                content_id,
                authorization,
                chunks,
            );
            let local = local_change_committed(
                store,
                group_id,
                path_id,
                expected_previous,
                revision_id,
                kind,
                content_id,
                chunks,
            );
            let head = local_head_committed(
                store,
                group_id,
                path_id,
                expected_previous,
                kind,
                content_id,
                chunks,
            );
            &&& signed.1 is Err ==> signed.0 == store
            &&& signed_local.1 is Err ==> signed_local.0 == store
            &&& local.1 is Err ==> local.0 == store
            &&& head.1 is Err ==> head.0 == store
        }),
{
}

/// A head that is kept out of the log leaves the log as it is.
pub proof fn law_local_head_stays_out_of_the_log(
    store: StoreView,
    group_id: GroupId,
    path_id: PathId,
    expected_previous: Option<ContentId>,
    kind: ChangeRecordKind,
    content_id: ContentId,
    chunks: Seq<ContentId>,
)
    ensures
        local_head_committed(
            store,
            group_id,
            path_id,
            expected_previous,
            kind,
            content_id,
            chunks,
        ).0.changes == store.changes,
{
}

/// What is noted as being brought to a path can be noted again, and nothing else can until it is
/// done.
pub proof fn law_materialization_is_exclusive(
    store: StoreView,
    group_id: GroupId,
    path_id: PathId,
    row: PendingRowView,
    other: PendingRowView,
)
    requires
        begin_verdict(store, group_id, path_id, row) == Ok::<MaterializationAdmission, StoreError>(
            MaterializationAdmission::Queued,
        ),
        other != row,
    ensures
        ({
            let after = with_pending(store, group_id, path_id, row);
            &&& begin_verdict(after, group_id, path_id, row) == Ok::<
                MaterializationAdmission,
                StoreError,
            >(MaterializationAdmission::AlreadyPending)
            &&& begin_verdict(after, group_id, path_id, other) is Err
        }),
{
    let key = PathKey { group_id, path_id };
    lemma_lookup_put(store.pending, key, row, key);
}

/// While something is being brought to a path, no other content becomes its head.
pub proof fn law_materialization_guards_the_head(
    store: StoreView,
    group_id: GroupId,
    path_id: PathId,
    row: PendingRowView,
    expected_previous: Option<ContentId>,
    kind: ChangeRecordKind,
    content_id: ContentId,
)
    requires
        begin_verdict(store, group_id, path_id, row) is Ok,
        content_id != row.target_content_id,
    ensures
        head_verdict(
            with_pending(store, group_id, path_id, row),
            group_id,
            path_id,
            expected_previous,
            kind,
            content_id,
        ) == Err::<bool, StoreError>(StoreError::MaterializationInProgress { path_id }),
{
    let key = PathKey { group_id, path_id };
    lemma_lookup_put(store.pending, key, row, key);
}

/// What is being brought to a path is forgotten only once it is the head there.
pub proof fn law_materialization_completes_at_the_head(
    store: StoreView,
    group_id: GroupId,
    path_id: PathId,
    row: PendingRowView,
    kind: ChangeRecordKind,
)
    requires
        begin_verdict(store, group_id, path_id, row) == Ok::<MaterializationAdmission, StoreError>(
            MaterializationAdmission::Queued,
        ),
        row.expected_previous_content_id != Some(row.target_content_id),
    ensures
        ({
            let noted = with_pending(store, group_id, path_id, row);
            let done = with_head(noted, group_id, path_id, row.target_content_id, kind);
            &&& !is_materialized(noted, group_id, path_id, row.target_content_id)
            &&& is_materialized(done, group_id, path_id, row.target_content_id)
        }),
{
    let key = PathKey { group_id, path_id };
    lemma_lookup_put(store.pending, key, row, key);
    lemma_lookup_put(
        store.heads,
        key,
        HeadRow { content_id: row.target_content_id, kind },
        key,
    );
}

/// Recovery loses no references: what was pinned is pinned as often as before.
pub proof fn law_recovery_keeps_references(
    store: StoreView,
    present: Seq<ObjectKey>,
    key: ObjectKey,
)
    ensures
        reference_count(
            StoreView { objects: recovered_objects(store.objects, present), ..store },
            key,
        ) == reference_count(store, key),
{
}

proof fn lemma_changes_of_after(
    changes: Seq<ChangeRow>,
    group_id: GroupId,
    after_sequence: u64,
    count: int,
)
    requires
        is_numbered(changes),
        0 < count <= changes_of(changes, group_id, after_sequence).len(),
    ensures
        ({
            let all = changes_of(changes, group_id, after_sequence);
            all == all.take(count) + changes_of(changes, group_id, all[count - 1].sequence)
        }),
    decreases changes.len(),
{
    let all = changes_of(changes, group_id, after_sequence);
    let front = changes.drop_last();
    let row = changes.last();
    assert forall|i: int, j: int| 0 <= i < j < front.len() implies (#[trigger] front[i]).sequence
        < (#[trigger] front[j]).sequence by {
        assert(changes[i].sequence < changes[j].sequence);
    }
    assert forall|i: int| 0 <= i < front.len() implies 0 < (#[trigger] front[i]).sequence
        <= i64::MAX by {
        assert(0 < changes[i].sequence);
    }
    let before = changes_of(front, group_id, after_sequence);
    lemma_changes_bounded(front, group_id, after_sequence);
    if count <= before.len() {
        lemma_changes_of_after(front, group_id, after_sequence, count);
        let cut = before[count - 1].sequence;
        assert(all[count - 1] == before[count - 1]);
        assert(all.take(count) =~= before.take(count));
        let rest = changes_of(front, group_id, cut);
        if row.group_id == group_id && row.sequence > after_sequence {
            let k = choose|k: int|
                0 <= k < front.len() && front[k].sequence == before[count - 1].sequence;
            assert(changes[k].sequence < changes[changes.len() - 1].sequence);
            assert(all =~= all.take(count) + changes_of(changes, group_id, cut));
        } else {
            let k = choose|k: int|
                0 <= k < front.len() && front[k].sequence == before[count - 1].sequence;
            assert(all =~= all.take(count) + changes_of(changes, group_id, cut));
        }
    } else {
        assert(all.take(count) =~= all);
        let cut = all[count - 1].sequence;
        assert(cut == row.sequence);
        lemma_nothing_after(changes, group_id, cut);
        assert(all =~= all.take(count) + changes_of(changes, group_id, cut));
    }
}

proof fn lemma_changes_bounded(changes: Seq<ChangeRow>, group_id: GroupId, after_sequence: u64)
    ensures
        forall|i: int|
            0 <= i < changes_of(changes, group_id, after_sequence).len() ==> exists|k: int|
                {
                    &&& 0 <= k < changes.len()
                    &&& (#[trigger] changes[k]).sequence == (
                    #[trigger] changes_of(changes, group_id, after_sequence)[i]).sequence
                    &&& changes[k].sequence > after_sequence
                },
    decreases changes.len(),
{
    if changes.len() > 0 {
        let front = changes.drop_last();
        lemma_changes_bounded(front, group_id, after_sequence);
        let before = changes_of(front, group_id, after_sequence);
        let all = changes_of(changes, group_id, after_sequence);
        assert forall|i: int| 0 <= i < all.len() implies exists|k: int|
            {
                &&& 0 <= k < changes.len()
                &&& (#[trigger] changes[k]).sequence == (#[trigger] all[i]).sequence
                &&& changes[k].sequence > after_sequence
            } by {
            if i < before.len() {
                assert(all[i] == before[i]);
                let k = choose|k: int|
                    {
                        &&& 0 <= k < front.len()
                        &&& (#[trigger] front[k]).sequence == before[i].sequence
                        &&& front[k].sequence > after_sequence
                    };
                assert(changes[k] == front[k]);
            } else {
                assert(changes[changes.len() - 1].sequence == all[i].sequence);
            }
        }
    }
}

proof fn lemma_nothing_after(changes: Seq<ChangeRow>, group_id: GroupId, cut: u64)
    requires
        forall|i: int| 0 <= i < changes.len() ==> (#[trigger] changes[i]).sequence <= cut,
    ensures
        changes_of(changes, group_id, cut) == Seq::<StoredChange>::empty(),
    decreases changes.len(),
{
    if changes.len() > 0 {
        let front = changes.drop_last();
        assert forall|i: int| 0 <= i < front.len() implies (#[trigger] front[i]).sequence <= cut by {
            assert(changes[i].sequence <= cut);
        }
        assert(changes[changes.len() - 1].sequence <= cut);
        lemma_nothing_after(front, group_id, cut);
    }
}

/// Reading the log page by page gives all of it: the next page begins where the last one ended.
pub proof fn law_pages_cover_the_log(
    store: StoreView,
    group_id: GroupId,
    after_sequence: u64,
    maximum: nat,
)
    requires
        is_consistent(store),
        maximum > 0,
        changes_of(store.changes, group_id, after_sequence).len() > 0,
        change_page(store, group_id, after_sequence, maximum) is Ok,
    ensures
        ({
            let page = change_page(store, group_id, after_sequence, maximum)->Ok_0;
            &&& 0 < page.records.len() <= maximum
            &&& changes_of(store.changes, group_id, after_sequence) == page.records + changes_of(
                store.changes,
                group_id,
                page.records.last().sequence,
            )
        }),
{
    let all = changes_of(store.changes, group_id, after_sequence);
    let count: int = if all.len() <= maximum {
        all.len() as int
    } else {
        maximum as int
    };
    lemma_changes_of_after(store.changes, group_id, after_sequence, count);
    assert(all.take(count) =~= change_page(
        store,
        group_id,
        after_sequence,
        maximum,
    )->Ok_0.records);
}

} // verus!
