//! Which objects a store holds, which it asks for, and how they arrive.
use vstd::prelude::*;

use crate::catalog::{
    ObjectKey, ObjectRow, PeerObjectKey, RequestRow, StoreError, TransferRow,
};
use crate::envelope::{parsed_envelope, ObjectKind, ObjectView};
use crate::history::{garbage_keys, garbage_of, reference_count};
use crate::ids::{ContentId, DeviceId, GroupId};
use crate::keys::{CryptoError, KeysView};
use crate::order::{lemma_sorted, sorted, SortKey};
use crate::store::{
    admission_verdict, after_load, after_look, append_verdict, arrived_object,
    completion_verdict, demoted, is_discarded, is_new_request, is_present, kind_problem, loaded,
    loaded_range, recovered_objects, recovered_row, transfer_verdict, verified_object,
    with_appended, with_completion, with_object, with_request, with_requests, with_transfer,
    Admission, ObjectTransferAdmission, StoreView, TransferFile,
};
use crate::table::{
    distinct_keys, lemma_found, lemma_lookup_kept, lemma_lookup_put, lookup,
};

verus! {

/// The row of an object, where there is one.
pub open spec fn object_row(store: StoreView, group_id: GroupId, content_id: ContentId) -> Option<
    ObjectRow,
> {
    lookup(store.objects, ObjectKey { group_id, content_id })
}

/// The bytes are at most 64 MiB, and an object of the kind that opens, under the keys of the
/// group, to a plaintext with the given identifier.
pub open spec fn is_genuine(
    keys: KeysView,
    kind: ObjectKind,
    content_id: ContentId,
    bytes: Seq<u8>,
) -> bool {
    &&& bytes.len() <= 67_108_864
    &&& parsed_envelope(bytes) matches Ok(object)
    &&& keys.opened(kind, content_id, object) matches Ok(plaintext)
    &&& object.kind == kind
    &&& object.content_id == content_id
    &&& keys.content_id(kind, plaintext) == content_id
}

/// Only genuine objects are accepted, and all of them are.
pub proof fn law_only_genuine_objects_are_accepted(
    keys: KeysView,
    kind: ObjectKind,
    content_id: ContentId,
    bytes: Seq<u8>,
)
    ensures
        verified_object(keys, kind, content_id, bytes) is Ok <==> is_genuine(
            keys,
            kind,
            content_id,
            bytes,
        ),
        verified_object(keys, kind, content_id, bytes) matches Ok(object) ==> parsed_envelope(bytes)
            == Ok::<ObjectView, crate::envelope::EnvelopeError>(object),
{
}

/// What an object opens to is the plaintext that the cipher gives, under the key of its kind and
/// in the context of its group, kind and identifier, and it has that identifier.
pub proof fn law_objects_open_under_the_key_of_their_kind(
    keys: KeysView,
    kind: ObjectKind,
    content_id: ContentId,
    object: ObjectView,
)
    ensures
        keys.opened(kind, content_id, object) matches Ok(plaintext) ==> {
            &&& object.format_version == 1
            &&& object.kind == kind
            &&& object.content_id == content_id
            &&& crate::crypto::aead_opened(
                match kind {
                    ObjectKind::Chunk => keys.chunk_encryption_key,
                    ObjectKind::Manifest => keys.manifest_encryption_key,
                },
                object.nonce,
                crate::keys::object_context(keys.group_id, 1, kind, content_id),
                object.ciphertext,
            ) == Some(plaintext)
            &&& ContentId::of_bytes(
                crate::crypto::blake3_mac(
                    match kind {
                        ObjectKind::Chunk => keys.chunk_id_key,
                        ObjectKind::Manifest => keys.manifest_id_key,
                    },
                    plaintext,
                ),
            ) == content_id
        },
        object.format_version != 1 ==> keys.opened(kind, content_id, object) == Err::<
            Seq<u8>,
            CryptoError,
        >(CryptoError::UnsupportedFormatVersion(object.format_version)),
        object.format_version == 1 && object.kind != kind ==> keys.opened(kind, content_id, object)
            == Err::<Seq<u8>, CryptoError>(
            CryptoError::UnexpectedObjectKind { expected: kind, actual: object.kind },
        ),
        object.format_version == 1 && object.kind == kind && object.content_id != content_id
            ==> keys.opened(kind, content_id, object) == Err::<Seq<u8>, CryptoError>(
            CryptoError::UnexpectedContentId { expected: content_id, actual: object.content_id },
        ),
{
}

/// An object is present exactly where its row says so and its file is there; a look at one whose
/// file is gone marks it as lost, and any other look changes nothing.
pub proof fn law_present_objects_have_a_row_and_a_file(
    store: StoreView,
    group_id: GroupId,
    content_id: ContentId,
    file_present: bool,
    other: ObjectKey,
)
    requires
        other != (ObjectKey { group_id, content_id }),
    ensures
        ({
            let row = object_row(store, group_id, content_id);
            let after = after_look(store, group_id, content_id, file_present);
            let lost = row is Some && row->0.available && !file_present;
            &&& is_present(store, group_id, content_id, file_present) == (row is Some
                && row->0.available && file_present)
            &&& object_row(after, group_id, content_id) == if lost {
                Some(ObjectRow { available: false, ..row->0 })
            } else {
                row
            }
            &&& lookup(after.objects, other) == lookup(store.objects, other)
            &&& after == StoreView { objects: after.objects, ..store }
            &&& !lost ==> after == store
        }),
{
    let key = ObjectKey { group_id, content_id };
    match lookup(store.objects, key) {
        Some(row) => {
            lemma_lookup_put(store.objects, key, ObjectRow { available: false, ..row }, key);
            lemma_lookup_put(store.objects, key, ObjectRow { available: false, ..row }, other);
        },
        None => {},
    }
}

/// An object of a kind is at hand exactly where its row says that it is there and of that kind.
pub proof fn law_objects_at_hand_are_of_their_kind(
    store: StoreView,
    group_id: GroupId,
    content_id: ContentId,
    expected: ObjectKind,
)
    ensures
        kind_problem(store, group_id, content_id, expected) is None <==> {
            &&& object_row(store, group_id, content_id) matches Some(row)
            &&& row.available
            &&& row.kind == expected
        },
        kind_problem(store, group_id, content_id, expected) == Some(
            StoreError::ObjectNotFound { group_id, content_id },
        ) <==> {
            ||| object_row(store, group_id, content_id) is None
            ||| !object_row(store, group_id, content_id)->0.available
        },
{
}

/// A genuine object is admitted: one whose file is genuine already is left there, else the given
/// bytes are stored. What is not genuine is refused, and changes nothing.
pub proof fn law_genuine_objects_are_admitted(
    store: StoreView,
    keys: KeysView,
    kind: ObjectKind,
    content_id: ContentId,
    bytes: Seq<u8>,
    existing: Option<Seq<u8>>,
    now: i64,
)
    ensures
        ({
            let verdict = admission_verdict(keys, kind, content_id, bytes, existing);
            let after = with_object(store, keys, kind, content_id, bytes, existing, now);
            &&& !is_genuine(keys, kind, content_id, bytes) ==> verdict is Err
            &&& is_genuine(keys, kind, content_id, bytes) && existing is None ==> verdict == Ok::<
                Admission,
                StoreError,
            >(Admission::Stored)
            &&& is_genuine(keys, kind, content_id, bytes) && existing is Some && is_genuine(
                keys,
                kind,
                content_id,
                existing->0,
            ) ==> verdict == Ok::<Admission, StoreError>(Admission::AlreadyPresent)
            &&& is_genuine(keys, kind, content_id, bytes) && existing is Some && !is_genuine(
                keys,
                kind,
                content_id,
                existing->0,
            ) ==> verdict == if existing->0.len() > 67_108_864 {
                Err::<Admission, StoreError>(
                    StoreError::ObjectTooLarge {
                        actual: existing->0.len() as usize,
                        maximum: 67_108_864,
                    },
                )
            } else {
                Ok(Admission::Stored)
            }
            &&& verdict is Err ==> after == store
            &&& verdict is Ok ==> {
                let held = if verdict->Ok_0 == Admission::Stored {
                    bytes
                } else {
                    existing->0
                };
                &&& object_row(after, keys.group_id, content_id) matches Some(row)
                &&& row.kind == kind
                &&& row.available
                &&& row.encrypted_size == held.len()
                &&& row.verified_at_unix_ms == now
            }
        }),
{
    let verdict = admission_verdict(keys, kind, content_id, bytes, existing);
    if verdict is Ok {
        let held = if verdict->Ok_0 == Admission::Stored {
            bytes
        } else {
            existing->0
        };
        let object = verified_object(keys, kind, content_id, held)->Ok_0;
        let before = if verdict->Ok_0 == Admission::Stored && existing is Some {
            demoted(store, keys.group_id, content_id)
        } else {
            store
        };
        let row = ObjectRow {
            kind: object.kind,
            format_version: object.format_version,
            encrypted_size: held.len() as u64,
            verified_at_unix_ms: now,
            available: true,
        };
        let key = ObjectKey { group_id: keys.group_id, content_id };
        lemma_lookup_put(before.objects, key, row, key);
    }
}

/// Admitting an object changes no other object, and neither members, heads, changes nor
/// anything else that the store has of a group but what was asked for and what was arriving.
pub proof fn law_admission_touches_one_object(
    store: StoreView,
    keys: KeysView,
    kind: ObjectKind,
    content_id: ContentId,
    bytes: Seq<u8>,
    existing: Option<Seq<u8>>,
    now: i64,
    other: ObjectKey,
    request: PeerObjectKey,
)
    requires
        other != (ObjectKey { group_id: keys.group_id, content_id }),
        request.group_id != keys.group_id || request.content_id != content_id,
    ensures
        ({
            let after = with_object(store, keys, kind, content_id, bytes, existing, now);
            &&& lookup(after.objects, other) == lookup(store.objects, other)
            &&& lookup(after.requests, request) == lookup(store.requests, request)
            &&& lookup(after.transfers, request) == lookup(store.transfers, request)
            &&& after == StoreView {
                objects: after.objects,
                requests: after.requests,
                transfers: after.transfers,
                ..store
            }
        }),
{
    let verdict = admission_verdict(keys, kind, content_id, bytes, existing);
    if verdict is Ok {
        let held = if verdict->Ok_0 == Admission::Stored {
            bytes
        } else {
            existing->0
        };
        let object = verified_object(keys, kind, content_id, held)->Ok_0;
        let before = if verdict->Ok_0 == Admission::Stored && existing is Some {
            demoted(store, keys.group_id, content_id)
        } else {
            store
        };
        let key = ObjectKey { group_id: keys.group_id, content_id };
        let row = ObjectRow {
            kind: object.kind,
            format_version: object.format_version,
            encrypted_size: held.len() as u64,
            verified_at_unix_ms: now,
            available: true,
        };
        lemma_lookup_put(before.objects, key, row, other);
        match lookup(store.objects, key) {
            Some(found) => {
                lemma_lookup_put(
                    store.objects,
                    key,
                    ObjectRow { available: false, ..found },
                    other,
                );
            },
            None => {},
        }
        let keep = |asked: PeerObjectKey|
            !(asked.group_id == keys.group_id && asked.content_id == object.content_id);
        lemma_lookup_kept(before.requests, keep, request);
        lemma_lookup_kept(before.transfers, keep, request);
    }
}

/// What is loaded is the file, and only where the object is present and the file is genuine; a
/// file that is not marks the object as lost.
pub proof fn law_loaded_bytes_are_the_genuine_file(
    store: StoreView,
    keys: KeysView,
    kind: ObjectKind,
    content_id: ContentId,
    file: Option<Seq<u8>>,
)
    ensures
        ({
            let present = object_row(store, keys.group_id, content_id) is Some && object_row(
                store,
                keys.group_id,
                content_id,
            )->0.available && file is Some;
            match loaded(store, keys, kind, content_id, file) {
                Ok(bytes) => present && bytes == file->0 && is_genuine(
                    keys,
                    kind,
                    content_id,
                    bytes,
                ),
                Err(error) => if present {
                    &&& !is_genuine(keys, kind, content_id, file->0)
                    &&& !is_present(
                        after_load(store, keys, kind, content_id, file),
                        keys.group_id,
                        content_id,
                        true,
                    )
                } else {
                    error == (StoreError::ObjectNotFound { group_id: keys.group_id, content_id })
                },
            }
        }),
        loaded(store, keys, kind, content_id, file) is Ok ==> after_load(
            store,
            keys,
            kind,
            content_id,
            file,
        ) == store,
{
    let key = ObjectKey { group_id: keys.group_id, content_id };
    match lookup(store.objects, key) {
        Some(row) => {
            lemma_lookup_put(store.objects, key, ObjectRow { available: false, ..row }, key);
        },
        None => {},
    }
}

/// What is sent of an object is the rest of its file from the point that was asked for, with
/// the size of the whole; and only of a genuine object that is present, and from within it.
pub proof fn law_sent_range_is_the_rest_of_the_file(
    store: StoreView,
    keys: KeysView,
    content_id: ContentId,
    start_offset: u64,
    file: Option<Seq<u8>>,
)
    ensures
        match loaded_range(store, keys, content_id, start_offset, file) {
            Ok(range) => {
                &&& file is Some
                &&& is_present(store, keys.group_id, content_id, true)
                &&& is_genuine(keys, ObjectKind::Chunk, content_id, file->0) || is_genuine(
                    keys,
                    ObjectKind::Manifest,
                    content_id,
                    file->0,
                )
                &&& start_offset < file->0.len()
                &&& range.content_id == content_id
                &&& range.start_offset == start_offset
                &&& range.encrypted_size == file->0.len()
                &&& file->0.take(start_offset as int) + range.encrypted_bytes == file->0
            },
            Err(error) => {
                ||| !is_present(store, keys.group_id, content_id, file is Some) && error == (
                StoreError::ObjectNotFound { group_id: keys.group_id, content_id })
                ||| file is Some && start_offset >= file->0.len()
                ||| file is Some && !is_genuine(keys, ObjectKind::Chunk, content_id, file->0)
                    && !is_genuine(keys, ObjectKind::Manifest, content_id, file->0)
            },
        },
{
    if loaded_range(store, keys, content_id, start_offset, file) is Ok {
        assert(file->0.take(start_offset as int) + file->0.skip(start_offset as int) =~= file->0);
        match parsed_envelope(file->0) {
            Ok(object) => {
                match object.kind {
                    ObjectKind::Chunk => {},
                    ObjectKind::Manifest => {},
                }
            },
            Err(_) => {},
        }
    }
}

/// An object that is not present is asked for, once: the first request is noted with its time
/// and no attempt, a later one changes nothing, and nothing that is present is asked for.
pub proof fn law_absent_objects_are_asked_for_once(
    store: StoreView,
    group_id: GroupId,
    peer_device_id: DeviceId,
    content_id: ContentId,
    file_present: bool,
    now: i64,
    other: PeerObjectKey,
)
    requires
        other != (PeerObjectKey { group_id, peer_device_id, content_id }),
    ensures
        ({
            let key = PeerObjectKey { group_id, peer_device_id, content_id };
            let after = with_request(
                store,
                group_id,
                peer_device_id,
                content_id,
                file_present,
                now,
            );
            &&& lookup(after.requests, key) == if lookup(store.requests, key) is None
                && !is_present(store, group_id, content_id, file_present) {
                Some(
                    RequestRow {
                        requested_at_unix_ms: now,
                        attempt_count: 0,
                        last_attempt_at_unix_ms: None,
                    },
                )
            } else {
                lookup(store.requests, key)
            }
            &&& lookup(after.requests, other) == lookup(store.requests, other)
            &&& is_new_request(store, group_id, peer_device_id, content_id, file_present) == (
            lookup(store.requests, key) is None && !is_present(
                store,
                group_id,
                content_id,
                file_present,
            ))
        }),
{
    let key = PeerObjectKey { group_id, peer_device_id, content_id };
    let row = RequestRow {
        requested_at_unix_ms: now,
        attempt_count: 0,
        last_attempt_at_unix_ms: None,
    };
    lemma_lookup_put(store.requests, key, row, key);
    lemma_lookup_put(store.requests, key, row, other);
}

/// Every object of a list that is not present, neither before nor after the list is gone
/// through, is asked for afterwards.
pub proof fn law_every_absent_object_is_asked_for(
    store: StoreView,
    group_id: GroupId,
    peer_device_id: DeviceId,
    content_ids: Seq<ContentId>,
    present: Seq<ContentId>,
    now: i64,
    content_id: ContentId,
)
    requires
        content_ids.contains(content_id),
        !present.contains(content_id),
    ensures
        lookup(
            with_requests(store, group_id, peer_device_id, content_ids, present, now).0.requests,
            PeerObjectKey { group_id, peer_device_id, content_id },
        ) is Some,
    decreases content_ids.len(),
{
    let front = content_ids.drop_last();
    let last = content_ids.last();
    let before = with_requests(store, group_id, peer_device_id, front, present, now).0;
    let key = PeerObjectKey { group_id, peer_device_id, content_id };
    if last == content_id {
        let row = RequestRow {
            requested_at_unix_ms: now,
            attempt_count: 0,
            last_attempt_at_unix_ms: None,
        };
        lemma_lookup_put(before.requests, key, row, key);
    } else {
        let k = choose|k: int| 0 <= k < content_ids.len() && content_ids[k] == content_id;
        assert(front[k] == content_id);
        law_every_absent_object_is_asked_for(
            store,
            group_id,
            peer_device_id,
            front,
            present,
            now,
            content_id,
        );
        law_absent_objects_are_asked_for_once(
            before,
            group_id,
            peer_device_id,
            last,
            present.contains(last),
            now,
            key,
        );
    }
}

/// An object that was asked for starts to arrive from the beginning, or goes on where it
/// stopped; one that is present need not arrive, and one that nobody asked for, without a
/// request, of another size, or too large, is refused.
pub proof fn law_objects_arrive_that_were_asked_for(
    store: StoreView,
    group_id: GroupId,
    peer_device_id: DeviceId,
    request_id: u128,
    content_id: ContentId,
    encrypted_size: u64,
    file_present: bool,
)
    ensures
        ({
            let key = PeerObjectKey { group_id, peer_device_id, content_id };
            let after = with_transfer(
                store,
                group_id,
                peer_device_id,
                request_id,
                content_id,
                encrypted_size,
                file_present,
            );
            let row = lookup(store.transfers, key);
            match transfer_verdict(
                store,
                group_id,
                peer_device_id,
                request_id,
                content_id,
                encrypted_size,
                file_present,
            ) {
                Ok(ObjectTransferAdmission::AlreadyPresent) => {
                    &&& request_id != 0
                    &&& 0 < encrypted_size <= 67_108_864
                    &&& is_present(store, group_id, content_id, file_present)
                    &&& after == store
                },
                Ok(ObjectTransferAdmission::Started) => {
                    &&& request_id != 0
                    &&& 0 < encrypted_size <= 67_108_864
                    &&& lookup(store.requests, key) is Some
                    &&& row is None
                    &&& lookup(after.transfers, key) == Some(
                        TransferRow { request_id, encrypted_size, received_size: 0 },
                    )
                },
                Ok(ObjectTransferAdmission::Resuming { received_size }) => {
                    &&& request_id != 0
                    &&& 0 < encrypted_size <= 67_108_864
                    &&& lookup(store.requests, key) is Some
                    &&& row is Some
                    &&& row->0.encrypted_size == encrypted_size
                    &&& row->0.received_size == received_size
                    &&& lookup(after.transfers, key) == Some(
                        TransferRow { request_id, encrypted_size, received_size },
                    )
                },
                Err(error) => {
                    &&& after.transfers == store.transfers
                    &&& {
                        ||| request_id == 0
                        ||| encrypted_size == 0
                        ||| encrypted_size > 67_108_864
                        ||| lookup(store.requests, key) is None
                        ||| row is Some && (row->0.request_id == 0 || row->0.encrypted_size
                            != encrypted_size)
                    }
                },
            }
        }),
{
    let key = PeerObjectKey { group_id, peer_device_id, content_id };
    let row = lookup(store.transfers, key);
    lemma_lookup_put(
        store.transfers,
        key,
        TransferRow { request_id, encrypted_size, received_size: 0 },
        key,
    );
    if row is Some {
        lemma_lookup_put(
            store.transfers,
            key,
            TransferRow { request_id, encrypted_size, received_size: row->0.received_size },
            key,
        );
    }
}

/// What arrives is appended exactly where it continues what is there, on record and on disk, and
/// does not exceed the object; the record then has so much more, and is else as it was.
pub proof fn law_arriving_bytes_are_appended_in_order(
    store: StoreView,
    group_id: GroupId,
    peer_device_id: DeviceId,
    content_id: ContentId,
    offset: u64,
    count: nat,
    file_size: Option<u64>,
)
    ensures
        ({
            let key = PeerObjectKey { group_id, peer_device_id, content_id };
            let row = lookup(store.transfers, key);
            let after = with_appended(
                store,
                group_id,
                peer_device_id,
                content_id,
                offset,
                count,
                file_size,
            );
            let verdict = append_verdict(
                store,
                group_id,
                peer_device_id,
                content_id,
                offset,
                count,
                file_size,
            );
            &&& count > 0 && row is Some && row->0.encrypted_size <= i64::MAX ==> (verdict is Ok
                <==> {
                &&& row->0.request_id != 0
                &&& row->0.received_size == offset
                &&& offset + count <= row->0.encrypted_size
                &&& file_size == Some(offset)
            })
            &&& count > 0 && verdict is Ok ==> {
                &&& row is Some
                &&& verdict->Ok_0 == offset + count
                &&& lookup(after.transfers, key) == Some(
                    TransferRow { received_size: (offset + count) as u64, ..row->0 },
                )
            }
            &&& count == 0 || verdict is Err ==> after == store
            &&& row is None ==> verdict == Err::<u64, StoreError>(
                StoreError::ObjectTransferNotFound { peer_device_id, content_id },
            )
            &&& row is Some && row->0.request_id != 0 && row->0.received_size != offset
                ==> verdict == Err::<u64, StoreError>(
                StoreError::TransferOffsetMismatch {
                    content_id,
                    expected: row->0.received_size,
                    actual: offset,
                },
            )
        }),
{
    let key = PeerObjectKey { group_id, peer_device_id, content_id };
    let row = lookup(store.transfers, key);
    if row is Some {
        lemma_lookup_put(
            store.transfers,
            key,
            TransferRow { received_size: (offset + count) as u64, ..row->0 },
            key,
        );
    }
}

/// An object has arrived exactly where all of it is there; it is then admitted like any other,
/// as what its envelope says it is, under the identifier that was asked for.
pub proof fn law_arrived_objects_are_admitted_whole(
    store: StoreView,
    keys: KeysView,
    peer_device_id: DeviceId,
    content_id: ContentId,
    file: Option<Seq<u8>>,
    existing: Option<Seq<u8>>,
    now: i64,
)
    ensures
        ({
            let key = PeerObjectKey { group_id: keys.group_id, peer_device_id, content_id };
            let row = lookup(store.transfers, key);
            let verdict = completion_verdict(
                store,
                keys,
                peer_device_id,
                content_id,
                file,
                existing,
            );
            let after = with_completion(
                store,
                keys,
                peer_device_id,
                content_id,
                file,
                existing,
                now,
            );
            &&& verdict is Ok ==> {
                &&& row is Some
                &&& row->0.received_size == row->0.encrypted_size
                &&& file is Some
                &&& is_genuine(keys, ObjectKind::Chunk, content_id, file->0) || is_genuine(
                    keys,
                    ObjectKind::Manifest,
                    content_id,
                    file->0,
                )
                &&& is_present(after, keys.group_id, content_id, true)
            }
            &&& verdict is Err ==> after == store
            &&& row is Some && row->0.request_id != 0 && row->0.received_size
                != row->0.encrypted_size ==> verdict == Err::<Admission, StoreError>(
                StoreError::ObjectTransferIncomplete {
                    content_id,
                    expected: row->0.encrypted_size,
                    actual: row->0.received_size,
                },
            )
            &&& (row is Some && row->0.request_id != 0 && row->0.received_size
                == row->0.encrypted_size && file is Some && existing is None && (is_genuine(
                keys,
                ObjectKind::Chunk,
                content_id,
                file->0,
            ) || is_genuine(keys, ObjectKind::Manifest, content_id, file->0))) ==> verdict
                == Ok::<Admission, StoreError>(Admission::Stored)
        }),
{
    match arrived_object(store, keys.group_id, peer_device_id, content_id, file) {
        Ok(object) => {
            law_genuine_objects_are_admitted(
                store,
                keys,
                object.kind,
                content_id,
                file->0,
                existing,
                now,
            );
            match object.kind {
                ObjectKind::Chunk => {},
                ObjectKind::Manifest => {},
            }
        },
        Err(_) => {},
    }
}

/// After a restart an arriving object goes on from what is on disk of it, where that is a file
/// no longer than the object; else it starts anew, and what cannot be used is thrown away.
pub proof fn law_recovered_transfer_goes_by_its_file(row: TransferRow, file: TransferFile)
    ensures
        match file {
            TransferFile::Regular { size } => {
                &&& size <= row.encrypted_size ==> recovered_row(row, file) == Some(
                    TransferRow {
                        request_id: row.request_id,
                        encrypted_size: row.encrypted_size,
                        received_size: size,
                    },
                )
                &&& size > row.encrypted_size ==> recovered_row(row, file) is None
                &&& is_discarded(row, file) == (size > row.encrypted_size)
            },
            TransferFile::Link => recovered_row(row, file) is None && is_discarded(row, file),
            TransferFile::Missing => recovered_row(row, file) is None && !is_discarded(row, file),
            TransferFile::Other => recovered_row(row, file) is None && !is_discarded(row, file),
        },
{
}

/// After a restart an object is there exactly where it was and its file still is; nothing else
/// about it changes.
pub proof fn law_recovered_objects_have_their_files(
    store: StoreView,
    present: Seq<ObjectKey>,
    index: int,
)
    requires
        0 <= index < store.objects.len(),
    ensures
        ({
            let before = store.objects[index];
            let rows = recovered_objects(store.objects, present);
            &&& rows.len() == store.objects.len()
            &&& rows[index].0 == before.0
            &&& rows[index].1.available == (before.1.available && present.contains(before.0))
            &&& rows[index].1.kind == before.1.kind
            &&& rows[index].1.format_version == before.1.format_version
            &&& rows[index].1.encrypted_size == before.1.encrypted_size
            &&& rows[index].1.verified_at_unix_ms == before.1.verified_at_unix_ms
        }),
{
}

proof fn lemma_garbage_keys(
    store: StoreView,
    rows: Seq<(ObjectKey, ObjectRow)>,
    group_id: GroupId,
    verified_before: i64,
    index: int,
)
    requires
        0 <= index < rows.len(),
        rows[index].0.group_id == group_id,
        rows[index].1.verified_at_unix_ms <= verified_before,
        reference_count(store, rows[index].0) == 0,
    ensures
        garbage_keys(store, rows, group_id, verified_before).contains(
            SortKey {
                time: rows[index].1.verified_at_unix_ms,
                high: rows[index].0.content_id.high,
                low: rows[index].0.content_id.low,
            },
        ),
    decreases rows.len(),
{
    let key = SortKey {
        time: rows[index].1.verified_at_unix_ms,
        high: rows[index].0.content_id.high,
        low: rows[index].0.content_id.low,
    };
    let all = garbage_keys(store, rows, group_id, verified_before);
    let front = rows.drop_last();
    let before = garbage_keys(store, front, group_id, verified_before);
    if index == rows.len() - 1 {
        assert(all[all.len() - 1] == key);
    } else {
        assert(front[index] == rows[index]);
        lemma_garbage_keys(store, front, group_id, verified_before, index);
        let k = choose|k: int| 0 <= k < before.len() && before[k] == key;
        assert(all[k] == key);
    }
}

/// Every object that nothing needs, and that was verified long enough ago, is garbage, and is
/// collected where the collection is not cut short.
pub proof fn law_all_garbage_is_collected(
    store: StoreView,
    group_id: GroupId,
    verified_before: i64,
    maximum: nat,
    index: int,
)
    requires
        0 <= index < store.objects.len(),
        store.objects[index].0.group_id == group_id,
        store.objects[index].1.verified_at_unix_ms <= verified_before,
        reference_count(store, store.objects[index].0) == 0,
    ensures
        garbage_of(store, group_id, verified_before, maximum).len() <= maximum,
        garbage_of(store, group_id, verified_before, maximum).len() < maximum ==> garbage_of(
            store,
            group_id,
            verified_before,
            maximum,
        ).contains(store.objects[index].0.content_id),
{
    lemma_garbage_keys(store, store.objects, group_id, verified_before, index);
    let keys = garbage_keys(store, store.objects, group_id, verified_before);
    lemma_sorted(keys);
    let key = SortKey {
        time: store.objects[index].1.verified_at_unix_ms,
        high: store.objects[index].0.content_id.high,
        low: store.objects[index].0.content_id.low,
    };
    assert(sorted(keys).contains(key));
    let garbage = garbage_of(store, group_id, verified_before, maximum);
    if garbage.len() < maximum {
        let k = choose|k: int| 0 <= k < sorted(keys).len() && sorted(keys)[k] == key;
        assert(garbage[k] == store.objects[index].0.content_id);
    }
}

proof fn lemma_garbage_rows(
    store: StoreView,
    rows: Seq<(ObjectKey, ObjectRow)>,
    group_id: GroupId,
    verified_before: i64,
    index: int,
) -> (row: int)
    requires
        0 <= index < garbage_keys(store, rows, group_id, verified_before).len(),
    ensures
        0 <= row < rows.len(),
        rows[row].0.group_id == group_id,
        rows[row].1.verified_at_unix_ms <= verified_before,
        reference_count(store, rows[row].0) == 0,
        garbage_keys(store, rows, group_id, verified_before)[index] == (SortKey {
            time: rows[row].1.verified_at_unix_ms,
            high: rows[row].0.content_id.high,
            low: rows[row].0.content_id.low,
        }),
    decreases rows.len(),
{
    let front = rows.drop_last();
    let before = garbage_keys(store, front, group_id, verified_before);
    if index < before.len() {
        let row = lemma_garbage_rows(store, front, group_id, verified_before, index);
        assert(rows[row] == front[row]);
        row
    } else {
        rows.len() - 1
    }
}

/// Only objects of the group that nothing needs, and that were verified long enough ago, are
/// collected.
pub proof fn law_collected_objects_are_old_and_unneeded(
    store: StoreView,
    group_id: GroupId,
    verified_before: i64,
    maximum: nat,
    content_id: ContentId,
)
    requires
        distinct_keys(store.objects),
        garbage_of(store, group_id, verified_before, maximum).contains(content_id),
    ensures
        object_row(store, group_id, content_id) is Some,
        object_row(store, group_id, content_id)->0.verified_at_unix_ms <= verified_before,
        reference_count(store, ObjectKey { group_id, content_id }) == 0,
{
    let garbage = garbage_of(store, group_id, verified_before, maximum);
    let keys = garbage_keys(store, store.objects, group_id, verified_before);
    lemma_sorted(keys);
    let k = choose|k: int| 0 <= k < garbage.len() && garbage[k] == content_id;
    let key = sorted(keys)[k];
    assert(keys.contains(key));
    let m = choose|m: int| 0 <= m < keys.len() && keys[m] == key;
    let row = lemma_garbage_rows(store, store.objects, group_id, verified_before, m);
    assert(store.objects[row].0 == ObjectKey { group_id, content_id });
    lemma_found(store.objects, row);
}

} // verus!
