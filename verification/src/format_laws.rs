//! What names, numbers and messages promise: that each stands for one thing, and which are
//! accepted.
use vstd::prelude::*;
use vstd::string::StringSliceAdditionalSpecFns;

use crate::bytes::{lemma_be_bounds, lemma_be_bytes_len, lemma_be_value_of_be_bytes};
use crate::catalog::{
    is_hex_digit, is_stage_name, kind_number, object_path_of, role_number, sequence_problem,
    stage_name_of, stage_problem, staging_path_of, status_number, transfer_name_of,
    transfer_path_of, transfer_size_problem, MemberRole, MemberStatus, PeerObjectKey, RequestRow,
    StoreError,
};
use crate::conflict_record::{conflict_input, conflict_uuid, device_label, leading_entry};
use crate::crypto::{blake3_digest, blake3_mac, hkdf_sha256};
use crate::cycle::{maintenance_text, synchronization_text, MaintenanceReport, SynchronizationView};
use crate::hexadecimal::law_hexadecimal_round_trips;
use crate::history::total_size;
use crate::identity::{device_id_of, stamped};
use crate::ids::{lemma_uuid_bytes, uuid_bytes, uuid_of_bytes, ContentId, DeviceId, GroupId};
use crate::keys::{enrollment_message, group_keys, KeysView};
use crate::oneof::ControlMessageView;
use crate::path::PathForms;
use crate::protocol::LimitsView;
use crate::pull::{acknowledged, attempt_noted};
use crate::record::{ChangeRecordKind, ManifestView};
use crate::scan::{with_file, FileOutcome, ScanReport};
use crate::store::StoreView;
use crate::table::{lemma_lookup_put, lookup};
use crate::text::hex_text;
use crate::transfer::ValidatedObjectTransfer;
use crate::transport::{
    acknowledgement_problem, message_name, page_problem, AcknowledgementStatus, TransportProblem,
};
use crate::wire::ObjectAcknowledgementView;

verus! {

/// The numbers under which kinds, roles and standings are stored.
pub proof fn law_stored_numbers_tell_what_is_stored(
    kind: ChangeRecordKind,
    role: MemberRole,
    status: MemberStatus,
)
    ensures
        kind_number(kind) == 1 <==> kind == ChangeRecordKind::File,
        kind_number(kind) == 2 <==> kind == ChangeRecordKind::Tombstone,
        role_number(role) == 1 <==> role == MemberRole::Owner,
        role_number(role) == 2 <==> role == MemberRole::Member,
        status_number(status) == 1 <==> status == MemberStatus::Active,
        status_number(status) == 2 <==> status == MemberStatus::Revoked,
{
}

/// A sequence is stored where it fits, and an object is transferred where it has a byte and no
/// more than sixty-four mebibytes.
pub proof fn law_numbers_are_stored_where_they_fit(value: u64)
    ensures
        sequence_problem(value) is None <==> value < 0x8000_0000_0000_0000,
        sequence_problem(value) matches Some(problem) ==> problem
            == StoreError::SequenceOutOfRange(value),
        transfer_size_problem(value) is None <==> 1 <= value <= 67_108_864,
        transfer_size_problem(value) matches Some(problem) ==> problem
            == (StoreError::InvalidTransferSize { actual: value, maximum: 67_108_864 }),
{
}

/// Bytes are spelt by two lowercase digits each.
pub proof fn law_bytes_are_spelt_in_lowercase(bytes: Seq<u8>)
    ensures
        hex_text(bytes).len() == 2 * bytes.len(),
        forall|i: int|
            0 <= i < hex_text(bytes).len() ==> {
                let digit = #[trigger] hex_text(bytes)[i];
                '0' <= digit <= '9' || 'a' <= digit <= 'f'
            },
{
}

proof fn lemma_hex_injective(one: Seq<u8>, two: Seq<u8>)
    requires
        hex_text(one) == hex_text(two),
    ensures
        one == two,
{
    law_hexadecimal_round_trips(one);
    law_hexadecimal_round_trips(two);
}

proof fn lemma_content_ids(one: ContentId, two: ContentId)
    requires
        hex_text(one@) == hex_text(two@),
    ensures
        one == two,
{
    one.lemma_view();
    two.lemma_view();
    lemma_hex_injective(one@, two@);
}

proof fn lemma_uuids(one: u128, two: u128)
    requires
        hex_text(uuid_bytes(one)) == hex_text(uuid_bytes(two)),
    ensures
        one == two,
{
    lemma_uuid_bytes(one);
    lemma_uuid_bytes(two);
    lemma_hex_injective(uuid_bytes(one), uuid_bytes(two));
}

/// No two objects share a file: the path tells the group and the content, and objects,
/// transfers and what is being written lie in directories of their own.
pub proof fn law_objects_have_files_of_their_own(
    group_id: GroupId,
    content_id: ContentId,
    other_group_id: GroupId,
    other_content_id: ContentId,
    peer: DeviceId,
    random: u128,
)
    ensures
        object_path_of(group_id, content_id) == object_path_of(other_group_id, other_content_id)
            ==> group_id == other_group_id && content_id == other_content_id,
        object_path_of(group_id, content_id).take(8) == seq![
            'o',
            'b',
            'j',
            'e',
            'c',
            't',
            's',
            '/',
        ],
        transfer_path_of(group_id, peer, content_id).take(10) == seq![
            't',
            'r',
            'a',
            'n',
            's',
            'f',
            'e',
            'r',
            's',
            '/',
        ],
        staging_path_of(group_id, content_id, random).take(8) == seq![
            's',
            't',
            'a',
            'g',
            'i',
            'n',
            'g',
            '/',
        ],
{
    reveal_strlit("objects/");
    reveal_strlit("transfers/");
    reveal_strlit("staging/");
    reveal_strlit("/");
    reveal_strlit(".orbit");
    let one = object_path_of(group_id, content_id);
    let two = object_path_of(other_group_id, other_content_id);
    lemma_uuid_bytes(group_id.value);
    lemma_uuid_bytes(other_group_id.value);
    content_id.lemma_view();
    other_content_id.lemma_view();
    assert(one.take(8) =~= seq!['o', 'b', 'j', 'e', 'c', 't', 's', '/']);
    assert(transfer_path_of(group_id, peer, content_id).take(10) =~= seq![
        't',
        'r',
        'a',
        'n',
        's',
        'f',
        'e',
        'r',
        's',
        '/',
    ]);
    assert(staging_path_of(group_id, content_id, random).take(8) =~= seq![
        's',
        't',
        'a',
        'g',
        'i',
        'n',
        'g',
        '/',
    ]);
    if one == two {
        assert(one.subrange(8, 40) =~= hex_text(uuid_bytes(group_id.value)));
        assert(two.subrange(8, 40) =~= hex_text(uuid_bytes(other_group_id.value)));
        lemma_uuids(group_id.value, other_group_id.value);
        assert(one.subrange(44, 108) =~= hex_text(content_id@));
        assert(two.subrange(44, 108) =~= hex_text(other_content_id@));
        lemma_content_ids(content_id, other_content_id);
    }
}

/// No two transfers share a file: the name tells the group, the peer and the content.
pub proof fn law_transfers_have_files_of_their_own(key: PeerObjectKey, other: PeerObjectKey)
    requires
        transfer_name_of(key.group_id, key.peer_device_id, key.content_id) == transfer_name_of(
            other.group_id,
            other.peer_device_id,
            other.content_id,
        ),
    ensures
        key == other,
{
    reveal_strlit("-");
    reveal_strlit(".part");
    let one = transfer_name_of(key.group_id, key.peer_device_id, key.content_id);
    let two = transfer_name_of(other.group_id, other.peer_device_id, other.content_id);
    lemma_uuid_bytes(key.group_id.value);
    lemma_uuid_bytes(other.group_id.value);
    lemma_uuid_bytes(key.peer_device_id.value);
    lemma_uuid_bytes(other.peer_device_id.value);
    key.content_id.lemma_view();
    other.content_id.lemma_view();
    assert(one.subrange(0, 32) =~= hex_text(uuid_bytes(key.group_id.value)));
    assert(two.subrange(0, 32) =~= hex_text(uuid_bytes(other.group_id.value)));
    lemma_uuids(key.group_id.value, other.group_id.value);
    assert(one.subrange(33, 65) =~= hex_text(uuid_bytes(key.peer_device_id.value)));
    assert(two.subrange(33, 65) =~= hex_text(uuid_bytes(other.peer_device_id.value)));
    lemma_uuids(key.peer_device_id.value, other.peer_device_id.value);
    assert(one.subrange(66, 130) =~= hex_text(key.content_id@));
    assert(two.subrange(66, 130) =~= hex_text(other.content_id@));
    lemma_content_ids(key.content_id, other.content_id);
}

/// What is being written has a file of its own, by the random number in its name.
pub proof fn law_staged_objects_have_files_of_their_own(
    group_id: GroupId,
    content_id: ContentId,
    random: u128,
    other: u128,
)
    requires
        staging_path_of(group_id, content_id, random) == staging_path_of(
            group_id,
            content_id,
            other,
        ),
    ensures
        random == other,
{
    reveal_strlit("staging/");
    reveal_strlit("-");
    reveal_strlit(".part");
    let one = staging_path_of(group_id, content_id, random);
    let two = staging_path_of(group_id, content_id, other);
    lemma_uuid_bytes(group_id.value);
    lemma_uuid_bytes(random);
    lemma_uuid_bytes(other);
    content_id.lemma_view();
    assert(one.subrange(106, 138) =~= hex_text(uuid_bytes(random)));
    assert(two.subrange(106, 138) =~= hex_text(uuid_bytes(other)));
    lemma_uuids(random, other);
}

/// The name of a staged file is its prefix, thirty-two lowercase hexadecimal digits and its
/// suffix, and holds no separator.
pub proof fn law_stage_name_is_made_of_digits(name: Seq<char>)
    ensures
        is_stage_name(name) <==> {
            &&& name.len() == 49
            &&& name.take(13) == seq![
                '.',
                'o',
                'r',
                'b',
                'i',
                't',
                '-',
                's',
                't',
                'a',
                'g',
                'e',
                '-',
            ]
            &&& name.skip(45) == seq!['.', 't', 'm', 'p']
            &&& forall|i: int|
                13 <= i < 45 ==> {
                    let digit = #[trigger] name[i];
                    '0' <= digit <= '9' || 'a' <= digit <= 'f'
                }
        },
{
    reveal_strlit(".orbit-stage-");
    reveal_strlit(".tmp");
    let prefix = seq!['.', 'o', 'r', 'b', 'i', 't', '-', 's', 't', 'a', 'g', 'e', '-'];
    let suffix = seq!['.', 't', 'm', 'p'];
    assert(".orbit-stage-"@ =~= prefix);
    assert(".tmp"@ =~= suffix);
    if is_stage_name(name) {
        let digits = choose|digits: Seq<char>|
            {
                &&& #[trigger] stage_name_of(digits) == name
                &&& digits.len() == 32
                &&& forall|i: int| 0 <= i < digits.len() ==> is_hex_digit(#[trigger] digits[i])
            };
        assert(name == prefix + digits + suffix);
        assert(name.take(13) =~= prefix);
        assert(name.skip(45) =~= suffix);
        assert forall|i: int| 13 <= i < 45 implies {
            let digit = #[trigger] name[i];
            '0' <= digit <= '9' || 'a' <= digit <= 'f'
        } by {
            assert(name[i] == digits[i - 13]);
            assert(is_hex_digit(digits[i - 13]));
        }
    }
    if name.len() == 49 && name.take(13) == prefix && name.skip(45) == suffix && forall|i: int|
        13 <= i < 45 ==> {
            let digit = #[trigger] name[i];
            '0' <= digit <= '9' || 'a' <= digit <= 'f'
        } {
        let digits = name.subrange(13, 45);
        assert(name =~= name.take(13) + digits + name.skip(45));
        assert(stage_name_of(digits) == name);
        assert forall|i: int| 0 <= i < digits.len() implies is_hex_digit(#[trigger] digits[i]) by {
            assert(digits[i] == name[i + 13]);
        }
    }
}

/// A file is staged under the name of a stage, and a deletion is not staged.
pub proof fn law_files_are_staged_and_deletions_are_not(
    kind: ChangeRecordKind,
    stage_name: Option<Seq<char>>,
)
    ensures
        stage_problem(kind, stage_name) is None <==> match stage_name {
            Some(name) => kind == ChangeRecordKind::File && is_stage_name(name),
            None => kind == ChangeRecordKind::Tombstone,
        },
        stage_problem(kind, stage_name) matches Some(problem) ==> problem
            == StoreError::InvalidMaterializationStage,
{
}

/// The label of a copy shows the first eight digits of the leading device of the version.
pub proof fn law_label_shows_the_leading_device(entries: Seq<(DeviceId, u64)>)
    ensures
        entries.len() == 0 ==> device_label(entries) == "device"@,
        entries.len() > 0 ==> leading_entry(entries) is Some && device_label(entries) == "device-"@
            + hex_text(uuid_bytes((leading_entry(entries)->0).0.value)).take(8),
{
    crate::conflict_record::law_label_names_the_leading_device(entries);
    if entries.len() > 0 {
        let bytes = uuid_bytes((leading_entry(entries)->0).0.value);
        lemma_uuid_bytes((leading_entry(entries)->0).0.value);
        assert(hex_text(bytes.take(4)) =~= hex_text(bytes).take(8));
    }
}

/// The bytes of an identifier that a digest gives: those of the digest, but for the version and
/// the variant.
pub proof fn law_derived_identifiers_are_marked(digest: Seq<u8>, version: u8)
    requires
        digest.len() == 32,
        version == 0x50 || version == 0x80,
    ensures
        ({
            let bytes = stamped(digest, version);
            &&& bytes.len() == 16
            &&& bytes[6] / 16 == version / 16
            &&& bytes[6] % 16 == digest[6] % 16
            &&& bytes[8] / 64 == 2
            &&& bytes[8] % 64 == digest[8] % 64
            &&& forall|i: int| 0 <= i < 16 && i != 6 && i != 8 ==> #[trigger] bytes[i] == digest[i]
        }),
{
    let sixth = digest[6];
    let eighth = digest[8];
    assert(((sixth & 0x0fu8) | version) / 16 == version / 16 && ((sixth & 0x0fu8) | version) % 16
        == sixth % 16) by (bit_vector)
        requires
            version == 0x50u8 || version == 0x80u8,
    ;
    assert(((eighth & 0x3fu8) | 0x80u8) / 64 == 2 && ((eighth & 0x3fu8) | 0x80u8) % 64 == eighth
        % 64) by (bit_vector);
}

/// The identifier of a device is that of the digest of its key, as of the eighth version; those
/// of a copy are of the fifth, from a keyed digest.
pub proof fn law_identifiers_are_derived(
    key: Seq<u8>,
    keys: KeysView,
    domain: Seq<u8>,
    source: ManifestView,
    path: PathForms,
)
    ensures
        device_id_of(key).value == uuid_of_bytes(
            stamped(blake3_digest("orbit/device-id/v1".spec_bytes() + key), 0x80),
        ),
        conflict_uuid(keys, domain, source, path) == uuid_of_bytes(
            stamped(
                ContentId::of_bytes(
                    blake3_mac(keys.manifest_id_key, conflict_input(domain, source, path)),
                )@,
                0x50,
            ),
        ),
{
}

/// What the identifiers of a copy are derived from tells the file, the revision and the path of
/// the copy.
pub proof fn law_conflict_input_binds_its_parts(
    domain: Seq<u8>,
    source: ManifestView,
    path: PathForms,
    other: ManifestView,
    other_path: PathForms,
)
    requires
        conflict_input(domain, source, path) == conflict_input(domain, other, other_path),
    ensures
        source.file_id == other.file_id,
        source.revision_id == other.revision_id,
        vstd::utf8::encode_utf8(path.display) == vstd::utf8::encode_utf8(other_path.display),
{
    let one = conflict_input(domain, source, path);
    let two = conflict_input(domain, other, other_path);
    let start = domain.len() as int;
    lemma_uuid_bytes(source.file_id.value);
    lemma_uuid_bytes(other.file_id.value);
    lemma_uuid_bytes(source.revision_id.value);
    lemma_uuid_bytes(other.revision_id.value);
    assert(one.subrange(start, start + 16) =~= uuid_bytes(source.file_id.value));
    assert(two.subrange(start, start + 16) =~= uuid_bytes(other.file_id.value));
    assert(one.subrange(start + 16, start + 32) =~= uuid_bytes(source.revision_id.value));
    assert(two.subrange(start + 16, start + 32) =~= uuid_bytes(other.revision_id.value));
    assert(one.skip(start + 32) =~= vstd::utf8::encode_utf8(path.display));
    assert(two.skip(start + 32) =~= vstd::utf8::encode_utf8(other_path.display));
}

/// Each key of a group is derived from the secret, salted with the group, for a purpose of its
/// own.
pub proof fn law_each_key_has_its_purpose(secret: Seq<u8>, group_id: GroupId)
    ensures
        ({
            let keys = group_keys(secret, group_id);
            let salt = uuid_bytes(group_id.value);
            let start = "orbit/key-derivation".spec_bytes() + seq![0u8, 1u8];
            &&& keys.group_id == group_id
            &&& keys.chunk_id_key == hkdf_sha256(
                salt,
                secret,
                start + "chunk-content-id".spec_bytes(),
            )
            &&& keys.manifest_id_key == hkdf_sha256(
                salt,
                secret,
                start + "manifest-content-id".spec_bytes(),
            )
            &&& keys.path_id_key == hkdf_sha256(salt, secret, start + "path-id".spec_bytes())
            &&& keys.chunk_encryption_key == hkdf_sha256(
                salt,
                secret,
                start + "chunk-encryption".spec_bytes(),
            )
            &&& keys.manifest_encryption_key == hkdf_sha256(
                salt,
                secret,
                start + "manifest-encryption".spec_bytes(),
            )
            &&& keys.peer_enrollment_key == hkdf_sha256(
                salt,
                secret,
                start + "peer-enrollment".spec_bytes(),
            )
        }),
{
    assert(crate::bytes::be_bytes(1, 2) =~= seq![0u8, 1u8]) by {
        reveal_with_fuel(crate::bytes::be_bytes, 3);
    }
}

/// A proof of enrollment serves one group, key, nonce, connection and port: what is proven tells
/// them all.
pub proof fn law_enrollment_message_binds_its_parts(
    group_id: GroupId,
    key: Seq<u8>,
    nonce: Seq<u8>,
    binding: Seq<u8>,
    port: u16,
    other_group_id: GroupId,
    other_key: Seq<u8>,
    other_nonce: Seq<u8>,
    other_binding: Seq<u8>,
    other_port: u16,
)
    requires
        key.len() == 32,
        other_key.len() == 32,
        nonce.len() == 32,
        other_nonce.len() == 32,
        binding.len() == 32,
        other_binding.len() == 32,
        enrollment_message(group_id, key, nonce, binding, port) == enrollment_message(
            other_group_id,
            other_key,
            other_nonce,
            other_binding,
            other_port,
        ),
    ensures
        group_id == other_group_id,
        key == other_key,
        nonce == other_nonce,
        binding == other_binding,
        port == other_port,
{
    let one = enrollment_message(group_id, key, nonce, binding, port);
    let two = enrollment_message(other_group_id, other_key, other_nonce, other_binding, other_port);
    let start = "orbit/peer-enrollment/v1".spec_bytes().len() as int;
    lemma_be_bounds();
    lemma_uuid_bytes(group_id.value);
    lemma_uuid_bytes(other_group_id.value);
    lemma_be_bytes_len(port as nat, 2);
    lemma_be_bytes_len(other_port as nat, 2);
    lemma_be_value_of_be_bytes(port as nat, 2);
    lemma_be_value_of_be_bytes(other_port as nat, 2);
    assert(one.subrange(start, start + 16) =~= uuid_bytes(group_id.value));
    assert(two.subrange(start, start + 16) =~= uuid_bytes(other_group_id.value));
    assert(one.subrange(start + 16, start + 48) =~= key);
    assert(two.subrange(start + 16, start + 48) =~= other_key);
    assert(one.subrange(start + 48, start + 80) =~= nonce);
    assert(two.subrange(start + 48, start + 80) =~= other_nonce);
    assert(one.subrange(start + 80, start + 112) =~= binding);
    assert(two.subrange(start + 80, start + 112) =~= other_binding);
    assert(one.skip(start + 112) =~= crate::bytes::be_bytes(port as nat, 2));
    assert(two.skip(start + 112) =~= crate::bytes::be_bytes(other_port as nat, 2));
}

/// Between one change and as many as the limits admit may be asked for at once.
pub proof fn law_page_holds_what_the_limits_admit(maximum_records: usize, limits: LimitsView)
    ensures
        page_problem(maximum_records, limits) is None <==> 1 <= maximum_records
            <= limits.maximum_change_records_per_batch,
        page_problem(maximum_records, limits) matches Some(problem) ==> problem
            == (TransportProblem::InvalidPageSize {
            actual: maximum_records,
            maximum: limits.maximum_change_records_per_batch,
        }),
{
}

/// An acknowledgement is accepted that speaks of the request and of the object, and says that the
/// object was verified or was there already; and no other.
pub proof fn law_acknowledgement_speaks_of_the_object(
    acknowledgement: ObjectAcknowledgementView,
    request_id: u128,
    content_id: ContentId,
)
    ensures
        acknowledgement_problem(acknowledgement, request_id, content_id) is None <==> {
            &&& acknowledgement.request_id == uuid_bytes(request_id)
            &&& acknowledgement.content_id == content_id@
            &&& acknowledgement.status == 1 || acknowledgement.status == 2
        },
        acknowledgement_problem(acknowledgement, request_id, content_id) matches Some(problem)
            ==> problem == if acknowledgement.request_id == uuid_bytes(request_id)
            && acknowledgement.content_id == content_id@ {
            TransportProblem::InvalidObjectAcknowledgementStatus { actual: acknowledgement.status }
        } else {
            TransportProblem::ObjectAcknowledgementMismatch
        },
{
}

/// The acknowledgement of an object that was received is accepted by the peer that sent it.
pub proof fn law_acknowledgement_is_accepted(
    transfer: ValidatedObjectTransfer,
    status: AcknowledgementStatus,
)
    requires
        status == AcknowledgementStatus::Verified || status
            == AcknowledgementStatus::AlreadyPresent,
    ensures
        acknowledged(transfer, status).message matches Some(
            ControlMessageView::ObjectAcknowledgement(acknowledgement),
        ) && acknowledgement_problem(
            acknowledgement,
            transfer.request_id,
            transfer.content_id,
        ) is None,
{
}

/// A request that is tried once more is kept, with one more attempt, at this time.
pub proof fn law_attempts_are_counted(
    store: StoreView,
    group_id: GroupId,
    peer_device_id: DeviceId,
    content_id: ContentId,
    now: i64,
    other: PeerObjectKey,
)
    ensures
        ({
            let key = PeerObjectKey { group_id, peer_device_id, content_id };
            let (after, problem) = attempt_noted(store, group_id, peer_device_id, content_id, now);
            &&& after == StoreView { requests: after.requests, ..store }
            &&& other != key ==> lookup(after.requests, other) == lookup(store.requests, other)
            &&& match lookup(store.requests, key) {
                None => after == store && problem is None,
                Some(row) => if row.attempt_count < 0x7fff_ffff_ffff_ffff {
                    &&& problem is None
                    &&& lookup(after.requests, key) matches Some(tried)
                    &&& tried.attempt_count == row.attempt_count + 1
                    &&& tried.last_attempt_at_unix_ms == Some(now)
                    &&& tried.requested_at_unix_ms == row.requested_at_unix_ms
                } else {
                    after == store && problem == Some(StoreError::CatalogFull)
                },
            }
        }),
{
    let key = PeerObjectKey { group_id, peer_device_id, content_id };
    if lookup(store.requests, key) is Some {
        let row = lookup(store.requests, key)->0;
        let tried = RequestRow {
            attempt_count: (row.attempt_count + 1) as u64,
            last_attempt_at_unix_ms: Some(now),
            ..row
        };
        lemma_lookup_put(store.requests, key, tried, key);
        lemma_lookup_put(store.requests, key, tried, other);
    }
}

/// A file that was looked at is counted once, as changed or as unchanged, with its bytes and
/// chunks.
pub proof fn law_every_file_is_counted_once(report: ScanReport, file: FileOutcome)
    requires
        report.file_changes < usize::MAX,
        report.files_unchanged < usize::MAX,
        report.plaintext_bytes + file.plaintext_bytes <= u64::MAX,
        report.chunks_stored + file.chunks_stored <= usize::MAX,
        report.chunks_reused + file.chunks_reused <= usize::MAX,
    ensures
        ({
            let after = with_file(report, file);
            &&& after.file_changes + after.files_unchanged == report.file_changes
                + report.files_unchanged + 1
            &&& after.file_changes > report.file_changes <==> file.changed
            &&& after.files_unchanged > report.files_unchanged <==> !file.changed
            &&& after.plaintext_bytes == report.plaintext_bytes + file.plaintext_bytes
            &&& after.chunks_stored == report.chunks_stored + file.chunks_stored
            &&& after.chunks_reused == report.chunks_reused + file.chunks_reused
            &&& after.files_discovered == report.files_discovered
            &&& after.tombstones_created == report.tombstones_created
        }),
{
}

/// Something is said of a round of maintenance where it changed something, and of a
/// synchronization where there was a peer.
pub proof fn law_nothing_is_said_of_nothing(
    maintenance: MaintenanceReport,
    synchronization: SynchronizationView,
)
    ensures
        maintenance_text(maintenance) is None <==> {
            &&& maintenance.scan.file_changes == 0
            &&& maintenance.scan.tombstones_created == 0
            &&& maintenance.materialization.records_applied == 0
            &&& maintenance.materialization.conflicts_kept_both == 0
        },
        synchronization_text(synchronization) is None <==> synchronization.peers_synchronized == 0
            && synchronization.peers_failed == 0,
{
}

/// The size of objects is the sum of theirs: each that is added adds its own, as far as the sum can
/// be written.
pub proof fn law_sizes_are_added_up(
    store: StoreView,
    group_id: GroupId,
    content_ids: Seq<ContentId>,
    content_id: ContentId,
)
    ensures
        total_size(store, group_id, seq![]) == 0,
        ({
            let size: int = match lookup(
                store.objects,
                crate::catalog::ObjectKey { group_id, content_id },
            ) {
                Some(row) => row.encrypted_size as int,
                None => 0,
            };
            let before = total_size(store, group_id, content_ids);
            let after = total_size(store, group_id, content_ids.push(content_id));
            if before + size <= u64::MAX {
                after == before + size
            } else {
                after == u64::MAX
            }
        }),
{
    assert(content_ids.push(content_id).drop_last() =~= content_ids);
}

/// The name of a message tells its kind.
pub proof fn law_message_is_called_by_its_kind(message: ControlMessageView)
    ensures
        message is ChangeLogRequest <==> message_name(message) == "change_log_request",
        message is ChangeBatch <==> message_name(message) == "change_batch",
        message is ObjectRangeRequest <==> message_name(message) == "object_range_request",
        message is ObjectOffer <==> message_name(message) == "object_offer",
        message is ObjectAcknowledgement <==> message_name(message) == "object_acknowledgement",
{
    reveal_strlit("change_log_request");
    reveal_strlit("change_batch");
    reveal_strlit("object_range_request");
    reveal_strlit("object_offer");
    reveal_strlit("object_acknowledgement");
    assert("change_log_request"@.len() == 18);
    assert("change_batch"@.len() == 12);
    assert("object_range_request"@.len() == 20);
    assert("object_offer"@.len() == 12);
    assert("object_acknowledgement"@.len() == 22);
    assert("change_batch"@[0] == 'c');
    assert("object_offer"@[0] == 'o');
}

} // verus!
