//! What a scan leaves in the store: how chunks are taken in, how the record of a head is read, and
//! how a new record is committed.
use vstd::prelude::*;

use crate::crypto::{aead_limit, aead_sealed, ed25519_signed};
use crate::envelope::{envelope_bytes, EnvelopeError, ObjectKind, ObjectView};
use crate::history::{signed_local_change_committed, LocalHead};
use crate::identity::{change_message, AuthorizationView};
use crate::ids::{ContentId, DeviceId, GroupId, PathId, RevisionId};
use crate::keys::{object_context, CryptoError, KeysView};
use crate::opening::opened_record;
use crate::order::ordered_ids;
use crate::record::{ChangeRecordKind, RecordView};
use crate::scan::{
    authorized, chunk_ingested, local_record, local_record_committed, ChunkFate, ScanProblem,
};
use crate::store::{
    admission_verdict, after_load, after_look, is_present, loaded, with_object, Admission,
    StoreView,
};
use crate::table::lookup;

verus! {

/// The envelope of a chunk: sealed under the key of chunks, for its group and under the identifier
/// of what it holds.
pub open spec fn sealed_chunk(keys: KeysView, nonce: Seq<u8>, plaintext: Seq<u8>) -> Seq<u8> {
    let content_id = keys.content_id(ObjectKind::Chunk, plaintext);
    envelope_bytes(
        ObjectView {
            format_version: 1,
            kind: ObjectKind::Chunk,
            content_id,
            nonce,
            ciphertext: aead_sealed(
                keys.chunk_encryption_key,
                nonce,
                object_context(keys.group_id, 1, ObjectKind::Chunk, content_id),
                plaintext,
            ),
        },
    )
}

/// A chunk that is there is used again, and nothing changes; one that is not is sealed and stored,
/// unless it is too long to be or the store refuses it.
pub proof fn law_absent_chunks_are_sealed_and_stored(
    store: StoreView,
    keys: KeysView,
    content_id: ContentId,
    plaintext: Seq<u8>,
    file: Option<Seq<u8>>,
    nonce: Seq<u8>,
    now: i64,
)
    ensures
        ({
            let (after, result) = chunk_ingested(
                store,
                keys,
                content_id,
                plaintext,
                file,
                nonce,
                now,
            );
            let looked = after_look(store, keys.group_id, content_id, file is Some);
            let bytes = sealed_chunk(keys, nonce, plaintext);
            let verdict = admission_verdict(keys, ObjectKind::Chunk, content_id, bytes, file);
            if is_present(store, keys.group_id, content_id, file is Some) {
                after == store && result == Ok::<ChunkFate, ScanProblem>(ChunkFate::Reused)
            } else if plaintext.len() >= aead_limit() {
                after == looked && result == Err::<ChunkFate, ScanProblem>(
                    ScanProblem::Crypto(CryptoError::Encryption),
                )
            } else if plaintext.len() + 88 > usize::MAX {
                after == looked && result == Err::<ChunkFate, ScanProblem>(
                    ScanProblem::Envelope(EnvelopeError::CiphertextLengthOverflow),
                )
            } else {
                match verdict {
                    Err(error) => after == looked && result == Err::<ChunkFate, ScanProblem>(
                        ScanProblem::Store(error),
                    ),
                    Ok(admission) => {
                        &&& after == with_object(
                            looked,
                            keys,
                            ObjectKind::Chunk,
                            content_id,
                            bytes,
                            file,
                            now,
                        )
                        &&& admission == Admission::Stored ==> result == Ok::<
                            ChunkFate,
                            ScanProblem,
                        >(ChunkFate::Stored(bytes))
                        &&& admission == Admission::AlreadyPresent ==> result == Ok::<
                            ChunkFate,
                            ScanProblem,
                        >(ChunkFate::Reused)
                    },
                }
            }
        }),
{
}

/// The record of a head is read where its object is there and genuine and holds a record of the
/// kind and at the path of the head; and nowhere else.
pub proof fn law_record_of_a_head_is_read_as_it_stands(
    store: StoreView,
    keys: KeysView,
    files: Seq<(ContentId, Seq<u8>)>,
    head: LocalHead,
)
    ensures
        ({
            let (after, result) = local_record(store, keys, files, head);
            let file = lookup(files, head.content_id);
            let bytes = loaded(store, keys, ObjectKind::Manifest, head.content_id, file);
            let opened = opened_record(keys, head.content_id, file->0);
            let path_id = keys.path_id(opened->Ok_0.path().comparison_key);
            &&& after == after_load(store, keys, ObjectKind::Manifest, head.content_id, file)
            &&& result is Ok <==> {
                &&& bytes is Ok
                &&& opened is Ok
                &&& opened->Ok_0 is File <==> head.kind == ChangeRecordKind::File
                &&& path_id == head.path_id
            }
            &&& result matches Ok(record) ==> record == opened->Ok_0
            &&& bytes is Err ==> result == Err::<RecordView, ScanProblem>(
                ScanProblem::Store(bytes->Err_0),
            )
            &&& result matches Err(ScanProblem::LocalHeadPathMismatch { path_id: refused })
                ==> refused == head.path_id && path_id != head.path_id
            &&& result matches Err(
                ScanProblem::LocalHeadKindMismatch { path_id: refused, expected, actual },
            ) ==> refused == head.path_id && expected == head.kind && actual != expected
        }),
{
}

/// A record that a scan has drawn up is committed as the signed head of its path, in the place of
/// what the scan has seen there; where its object is not admitted, nothing is committed.
pub proof fn law_scanned_record_becomes_the_head(
    store: StoreView,
    keys: KeysView,
    record: RecordView,
    content_id: ContentId,
    bytes: Seq<u8>,
    path_id: PathId,
    expected_previous: Option<ContentId>,
    authorization: AuthorizationView,
    file: Option<Seq<u8>>,
    now: i64,
)
    ensures
        ({
            let (after, problem) = local_record_committed(
                store,
                keys,
                record,
                content_id,
                bytes,
                path_id,
                expected_previous,
                authorization,
                file,
                now,
            );
            match admission_verdict(keys, ObjectKind::Manifest, content_id, bytes, file) {
                Err(error) => after == store && problem == Some(error),
                Ok(_) => {
                    let (committed, result) = signed_local_change_committed(
                        with_object(
                            store,
                            keys,
                            ObjectKind::Manifest,
                            content_id,
                            bytes,
                            file,
                            now,
                        ),
                        keys.group_id,
                        path_id,
                        expected_previous,
                        record.revision_id(),
                        if record is File {
                            ChangeRecordKind::File
                        } else {
                            ChangeRecordKind::Tombstone
                        },
                        content_id,
                        authorization,
                        ordered_ids(record.chunk_ids()),
                    );
                    &&& after == committed
                    &&& problem is None <==> result is Ok
                    &&& result matches Err(error) ==> problem == Some(error)
                },
            }
        }),
{
}

/// A device signs its own changes: for the group, the revision and the contents, under its own
/// name.
pub proof fn law_device_signs_its_own_changes(
    secret: Seq<u8>,
    device_id: DeviceId,
    group_id: GroupId,
    revision_id: RevisionId,
    content_id: ContentId,
)
    ensures
        ({
            let authorization = authorized(secret, device_id, group_id, revision_id, content_id);
            &&& authorization.author_device_id == device_id
            &&& authorization.signature == ed25519_signed(
                secret,
                change_message(group_id, device_id, revision_id, content_id),
            )
        }),
{
}

} // verus!
