use orbit::batch::{validate_change_batch, ValidatedEncryptedChange};
use orbit::frame::{decode_control_frame, encode_control_frame};
use orbit::handshake::{current_handshake, negotiate_handshake};
use orbit::identity::{DeviceIdentity, IdentityError};
use orbit::ids::{ContentId, DeviceId, FileId, GroupId, RevisionId};
use orbit::keys::{GroupKeys, GroupSecret};
use orbit::manifest::{decode_change_record, encode_change_record, ManifestError};
use orbit::message::{decode_message, encode_message};
use orbit::oneof::{ControlEnvelope, ControlMessage, ManifestEnvelope, ManifestRecord};
use orbit::path::RelativePath;
use orbit::protocol::{Capability, ProtocolError, ProtocolLimits};
use orbit::record::{ChangeRecord, ChunkRef, FileManifest, Tombstone};
use orbit::session::{
    accept_session_hello, answer_session_challenge, build_session_hello, verify_peer_enrollment,
    verify_session_proof, SessionNonce, SessionTransportBinding, SESSION_NONCE_SIZE,
    SESSION_TRANSPORT_BINDING_SIZE,
};
use orbit::transfer::{
    build_object_offer, build_object_range_request, build_object_request,
    build_object_stream_header, validate_object_offer, validate_object_offer_for_request,
    validate_object_range_request, validate_object_request, validate_object_stream_header,
    validate_object_stream_header_for_offer,
};
use orbit::version::VersionVector;
use orbit::wire;
use orbit::PROTOCOL_VERSION;

fn device(value: u128) -> DeviceId {
    DeviceId::from_u128(value)
}

fn group(value: u128) -> GroupId {
    GroupId::from_u128(value)
}

fn keys(group_id: GroupId) -> GroupKeys {
    GroupSecret::from_bytes([53; 32]).derive_keys(group_id).unwrap()
}

fn file_change() -> ChangeRecord {
    ChangeRecord::File(FileManifest {
        file_id: FileId::from_u128(10),
        revision_id: RevisionId::from_u128(11),
        relative_path: RelativePath::new("docs/report.txt").unwrap(),
        size: 5,
        modified_at_unix_ms: 1_700_000_000_123,
        version: VersionVector::from_entries(vec![(device(2), 3), (device(1), 1)]).unwrap(),
        chunks: vec![
            ChunkRef { content_id: ContentId::from_bytes([1; 32]), plaintext_size: 3 },
            ChunkRef { content_id: ContentId::from_bytes([2; 32]), plaintext_size: 2 },
        ],
    })
}

#[test]
fn compatible_peers_negotiate_the_same_limits() {
    let group_id = group(1);
    let first_limits = ProtocolLimits::default();
    let second_limits = ProtocolLimits::new(64 * 1024, 2 * 1024 * 1024, 64, 32).unwrap();
    let first = current_handshake(device(1), group_id, first_limits);
    let second = current_handshake(device(2), group_id, second_limits);

    let first_session = negotiate_handshake(&second, group_id, first_limits).unwrap();
    let second_session = negotiate_handshake(&first, group_id, second_limits).unwrap();

    assert_eq!(first_session.protocol_version(), PROTOCOL_VERSION);
    assert_eq!(
        first_session.maximum_control_frame_bytes(),
        second_session.maximum_control_frame_bytes()
    );
    assert_eq!(
        first_session.maximum_encrypted_object_bytes(),
        second_session.maximum_encrypted_object_bytes()
    );
    assert_eq!(first_session.capabilities(), second_session.capabilities());
}

#[test]
fn authenticated_sessions_mutually_prove_membership_keys() {
    let group_id = group(1);
    let group_keys = keys(group_id);
    let initiator = DeviceIdentity::from_secret_bytes([1; 32]);
    let responder = DeviceIdentity::from_secret_bytes([2; 32]);
    let transport_binding =
        SessionTransportBinding::from_bytes([12; SESSION_TRANSPORT_BINDING_SIZE]).unwrap();
    let initiator_limits = ProtocolLimits::default();
    let responder_limits = ProtocolLimits::new(64 * 1024, 2 * 1024 * 1024, 64, 32).unwrap();
    let hello = build_session_hello(
        &initiator,
        &group_keys,
        initiator_limits,
        SessionNonce::from_bytes([3; SESSION_NONCE_SIZE]).unwrap(),
        transport_binding,
        48_177,
    );
    let enrollment = verify_peer_enrollment(&hello, &group_keys, transport_binding).unwrap();
    let (responder_session, challenge) = accept_session_hello(
        &hello,
        &responder,
        SessionNonce::from_bytes([4; SESSION_NONCE_SIZE]).unwrap(),
        transport_binding,
        group_id,
        responder_limits,
    )
    .unwrap();
    let (initiator_session, proof) = answer_session_challenge(
        &hello,
        &challenge,
        &initiator,
        responder.public_key(),
        transport_binding,
        group_id,
        initiator_limits,
    )
    .unwrap();
    let verified = verify_session_proof(
        &hello,
        &challenge,
        &proof,
        &responder,
        initiator.public_key(),
        transport_binding,
        group_id,
        responder_limits,
    )
    .unwrap();

    assert_eq!(initiator_session.remote_device_id(), responder.device_id());
    assert_eq!(enrollment.public_key, initiator.public_key());
    assert_eq!(enrollment.listen_port, Some(48_177));
    assert_eq!(responder_session.remote_device_id(), initiator.device_id());
    assert_eq!(verified, responder_session);
    assert_eq!(
        initiator_session.maximum_control_frame_bytes(),
        responder_session.maximum_control_frame_bytes()
    );
}

#[test]
fn authenticated_sessions_reject_tampering_wrong_keys_and_replayed_proofs() {
    let group_id = group(1);
    let group_keys = keys(group_id);
    let initiator = DeviceIdentity::from_secret_bytes([5; 32]);
    let responder = DeviceIdentity::from_secret_bytes([6; 32]);
    let limits = ProtocolLimits::default();
    let transport_binding =
        SessionTransportBinding::from_bytes([13; SESSION_TRANSPORT_BINDING_SIZE]).unwrap();
    let hello = build_session_hello(
        &initiator,
        &group_keys,
        limits,
        SessionNonce::from_bytes([7; SESSION_NONCE_SIZE]).unwrap(),
        transport_binding,
        48_177,
    );
    let wrong_group_keys = GroupSecret::from_bytes([54; 32]).derive_keys(group_id).unwrap();
    assert!(matches!(
        verify_peer_enrollment(&hello, &wrong_group_keys, transport_binding),
        Err(ProtocolError::InvalidEnrollmentProof)
    ));
    let (_, challenge) = accept_session_hello(
        &hello,
        &responder,
        SessionNonce::from_bytes([8; SESSION_NONCE_SIZE]).unwrap(),
        transport_binding,
        group_id,
        limits,
    )
    .unwrap();
    let (_, proof) = answer_session_challenge(
        &hello,
        &challenge,
        &initiator,
        responder.public_key(),
        transport_binding,
        group_id,
        limits,
    )
    .unwrap();

    let wrong_responder = DeviceIdentity::from_secret_bytes([9; 32]);
    assert!(matches!(
        answer_session_challenge(
            &hello,
            &challenge,
            &initiator,
            wrong_responder.public_key(),
            transport_binding,
            group_id,
            limits,
        ),
        Err(ProtocolError::PeerIdentityMismatch { .. })
    ));

    let mut downgraded = challenge.clone();
    downgraded.acknowledgement.as_mut().unwrap().maximum_object_bytes -= 1;
    assert!(matches!(
        answer_session_challenge(
            &hello,
            &downgraded,
            &initiator,
            responder.public_key(),
            transport_binding,
            group_id,
            limits,
        ),
        Err(ProtocolError::HandshakeAcknowledgementMismatch)
    ));

    let (_, second_challenge) = accept_session_hello(
        &hello,
        &responder,
        SessionNonce::from_bytes([10; SESSION_NONCE_SIZE]).unwrap(),
        transport_binding,
        group_id,
        limits,
    )
    .unwrap();
    assert!(matches!(
        verify_session_proof(
            &hello,
            &second_challenge,
            &proof,
            &responder,
            initiator.public_key(),
            transport_binding,
            group_id,
            limits,
        ),
        Err(ProtocolError::Identity(IdentityError::InvalidSignature))
    ));

    let mut invalid_hello = hello;
    invalid_hello.nonce.fill(0);
    assert!(matches!(
        accept_session_hello(
            &invalid_hello,
            &responder,
            SessionNonce::from_bytes([11; SESSION_NONCE_SIZE]).unwrap(),
            transport_binding,
            group_id,
            limits,
        ),
        Err(ProtocolError::ZeroSessionNonce)
    ));

    let different_binding =
        SessionTransportBinding::from_bytes([14; SESSION_TRANSPORT_BINDING_SIZE]).unwrap();
    assert!(matches!(
        answer_session_challenge(
            &invalid_hello,
            &challenge,
            &initiator,
            responder.public_key(),
            different_binding,
            group_id,
            limits,
        ),
        Err(ProtocolError::SessionTransportBindingMismatch)
    ));
}

#[test]
fn incompatible_versions_and_groups_are_rejected() {
    let group_id = group(1);
    let mut handshake = current_handshake(device(1), group_id, ProtocolLimits::default());
    handshake.minimum_protocol_version = u32::from(PROTOCOL_VERSION) + 1;
    handshake.maximum_protocol_version = handshake.minimum_protocol_version;
    assert!(matches!(
        negotiate_handshake(&handshake, group_id, ProtocolLimits::default()),
        Err(ProtocolError::IncompatibleProtocolVersion { .. })
    ));

    let handshake = current_handshake(device(1), group(2), ProtocolLimits::default());
    assert!(matches!(
        negotiate_handshake(&handshake, group_id, ProtocolLimits::default()),
        Err(ProtocolError::GroupMismatch { .. })
    ));
}

#[test]
fn missing_required_capability_is_rejected_but_unknown_values_are_ignored() {
    let group_id = group(1);
    let mut handshake = current_handshake(device(1), group_id, ProtocolLimits::default());
    handshake.capabilities.retain(|value| *value != Capability::Tombstones.number());
    assert!(matches!(
        negotiate_handshake(&handshake, group_id, ProtocolLimits::default()),
        Err(ProtocolError::MissingRequiredCapability(Capability::Tombstones))
    ));

    handshake.capabilities.push(Capability::Tombstones.number());
    handshake.capabilities.push(999);
    negotiate_handshake(&handshake, group_id, ProtocolLimits::default()).unwrap();
}

#[test]
fn control_frames_accept_unknown_protobuf_fields() {
    let handshake = current_handshake(device(1), group(1), ProtocolLimits::default());
    let mut payload = encode_message(&handshake);
    payload.extend_from_slice(&[0xa0, 0x06, 0x07]);
    let mut frame = Vec::new();
    frame.extend_from_slice(&u32::try_from(payload.len()).unwrap().to_be_bytes());
    frame.extend_from_slice(&payload);

    let decoded: wire::Handshake =
        decode_control_frame(&frame, ProtocolLimits::default()).unwrap();
    assert_eq!(decoded.device_id, handshake.device_id);
    assert_eq!(decoded.group_id, handshake.group_id);
    assert_eq!(decoded.capabilities, handshake.capabilities);
}

#[test]
fn malformed_and_oversized_control_frames_are_rejected() {
    let limits = ProtocolLimits::new(1024, 1024, 4, 4).unwrap();
    let oversized = wire::Handshake { device_id: vec![0; 2048], ..Default::default() };
    assert!(matches!(
        encode_control_frame(&oversized, limits),
        Err(ProtocolError::ControlFrameTooLarge { .. })
    ));

    let truncated = [0, 0, 0, 5, 1, 2];
    assert!(matches!(
        decode_control_frame::<wire::Handshake>(&truncated, limits),
        Err(ProtocolError::ControlFrameLengthMismatch { .. })
    ));
}

#[test]
fn object_requests_are_typed_bounded_and_deduplicated() {
    let limits = ProtocolLimits::new(1024, 1024, 2, 4).unwrap();
    let first = ContentId::from_bytes([1; 32]);
    let second = ContentId::from_bytes([2; 32]);
    let request_id = 7_u128;
    let request = build_object_request(request_id, vec![first, second], limits).unwrap();
    let validated = validate_object_request(&request, limits).unwrap();
    assert_eq!(validated.request_id(), request_id);
    assert_eq!(validated.content_ids(), &[first, second]);

    assert!(matches!(
        build_object_request(request_id, vec![first, first], limits),
        Err(ProtocolError::DuplicateContentId(value)) if value == first
    ));
    assert!(matches!(
        build_object_request(request_id, vec![first, second, first], limits),
        Err(ProtocolError::TooManyContentIds { .. })
    ));
}

#[test]
fn object_ranges_are_bounded_and_correlated_across_control_and_streams() {
    let limits = ProtocolLimits::new(1024, 1024, 2, 4).unwrap();
    let content_id = ContentId::from_bytes([3; 32]);
    let request = build_object_range_request(8, content_id, 128, limits).unwrap();
    let request = validate_object_range_request(&request, limits).unwrap();
    let offer = build_object_offer(request, 800, limits).unwrap();
    let offer = validate_object_offer_for_request(&offer, request, limits).unwrap();
    let header = build_object_stream_header(offer);
    assert_eq!(
        validate_object_stream_header_for_offer(&header, offer, limits).unwrap(),
        offer
    );

    assert!(matches!(
        build_object_range_request(8, content_id, 1024, limits),
        Err(ProtocolError::ObjectRangeOffsetTooLarge { .. })
    ));
    assert!(matches!(
        build_object_offer(request, 128, limits),
        Err(ProtocolError::InvalidObjectTransferRange { .. })
    ));
    assert!(matches!(
        build_object_offer(request, 1025, limits),
        Err(ProtocolError::InvalidObjectTransferSize { .. })
    ));

    let mut mismatched_header = header;
    mismatched_header.start_offset += 1;
    assert!(matches!(
        validate_object_stream_header_for_offer(&mismatched_header, offer, limits),
        Err(ProtocolError::ObjectTransferMetadataMismatch)
    ));
}

fn signed_batch() -> (wire::ChangeBatch, ValidatedEncryptedChange) {
    let group_id = group(1);
    let keys = keys(group_id);
    let identity = DeviceIdentity::from_secret_bytes([71; 32]);
    let object = keys.seal_manifest(b"opaque manifest").unwrap();
    let content_id = object.content_id();
    let revision_id = RevisionId::new();
    let authorization = identity.authorize_change(group_id, revision_id, content_id);
    let record = wire::EncryptedChange {
        sequence: 1,
        revision_id: revision_id.to_bytes().to_vec(),
        content_id: content_id.as_bytes().to_vec(),
        encrypted_record: object.to_bytes().unwrap(),
        author_device_id: authorization.author_device_id.to_bytes().to_vec(),
        signature: authorization.signature.as_bytes().to_vec(),
    };
    let expected = ValidatedEncryptedChange {
        sequence: 1,
        revision_id,
        content_id,
        authorization,
        encrypted_record: record.encrypted_record.clone(),
    };
    (wire::ChangeBatch { records: vec![record], high_watermark: 1, has_more: false }, expected)
}

#[test]
fn encrypted_change_records_are_checked_before_acceptance() {
    let (batch, expected) = signed_batch();
    let validated = validate_change_batch(&batch, ProtocolLimits::default()).unwrap();
    assert_eq!(validated.records, vec![expected]);

    let mut mismatched = batch.clone();
    mismatched.records[0].content_id = [0x5a; 32].to_vec();
    assert!(matches!(
        validate_change_batch(&mismatched, ProtocolLimits::default()),
        Err(ProtocolError::ChangeContentIdMismatch { index: 0 })
    ));

    let mut missing_signature = batch.clone();
    missing_signature.records[0].signature.clear();
    assert!(matches!(
        validate_change_batch(&missing_signature, ProtocolLimits::default()),
        Err(ProtocolError::InvalidChangeSignatureLength { index: 0, actual: 0 })
    ));
}

#[test]
fn each_fault_of_a_batch_is_named() {
    let (batch, _) = signed_batch();
    let limits = ProtocolLimits::default();
    let verdict = |change: &dyn Fn(&mut wire::ChangeBatch)| {
        let mut altered = batch.clone();
        change(&mut altered);
        validate_change_batch(&altered, limits).unwrap_err()
    };

    assert_eq!(
        verdict(&|altered| altered.records[0].sequence = 0),
        ProtocolError::InvalidChangeSequence { index: 0, previous: 0, actual: 0 }
    );
    assert_eq!(
        verdict(&|altered| altered.high_watermark = 0),
        ProtocolError::InvalidHighWatermark { last_sequence: 1, high_watermark: 0 }
    );
    assert_eq!(
        verdict(&|altered| altered.records[0].encrypted_record[0] = 0),
        ProtocolError::InvalidEncryptedObject {
            index: 0,
            source: orbit::envelope::EnvelopeError::InvalidMagic,
        }
    );
    assert_eq!(
        verdict(&|altered| altered.records[0].encrypted_record[6] = 1),
        ProtocolError::UnexpectedChangeObjectKind {
            index: 0,
            actual: orbit::envelope::ObjectKind::Chunk,
        }
    );
    assert!(matches!(
        verdict(&|altered| altered.records[0].revision_id = vec![0; 16]),
        ProtocolError::NilIdentifier { .. }
    ));
    assert!(matches!(
        verdict(&|altered| altered.records[0].author_device_id = vec![1; 15]),
        ProtocolError::InvalidIdentifierLength { actual: 15, .. }
    ));
    assert!(matches!(
        verdict(&|altered| altered.records[0].content_id = vec![1; 31]),
        ProtocolError::InvalidContentIdLength { index: 0, actual: 31, .. }
    ));
    let small = ProtocolLimits::new(1024, 88, 1, 1).unwrap();
    assert!(matches!(
        validate_change_batch(&batch, small),
        Err(ProtocolError::EncryptedObjectTooLarge { index: 0, maximum: 88, .. })
    ));
    let mut twice = batch.clone();
    twice.records.push(batch.records[0].clone());
    assert_eq!(
        validate_change_batch(&twice, small),
        Err(ProtocolError::TooManyChangeRecords { actual: 2, maximum: 1 })
    );
    assert_eq!(
        validate_change_batch(&twice, limits),
        Err(ProtocolError::InvalidChangeSequence { index: 1, previous: 1, actual: 1 })
    );
}

#[test]
fn canonical_change_records_round_trip() {
    let file = file_change();
    let encoded = encode_change_record(&file).unwrap();
    assert_eq!(decode_change_record(&encoded).unwrap(), file);

    let tombstone = ChangeRecord::Tombstone(Tombstone {
        file_id: FileId::from_u128(10),
        revision_id: RevisionId::from_u128(12),
        relative_path: RelativePath::new("docs/report.txt").unwrap(),
        deleted_at_unix_ms: 1_700_000_000_456,
        version: VersionVector::from_entries(vec![(device(1), 2), (device(2), 3)]).unwrap(),
    });
    let encoded = encode_change_record(&tombstone).unwrap();
    assert_eq!(decode_change_record(&encoded).unwrap(), tombstone);
}

#[test]
fn manifest_codec_rejects_invalid_and_noncanonical_records() {
    let file = file_change();
    let mut mismatched = match file.clone() {
        ChangeRecord::File(manifest) => manifest,
        ChangeRecord::Tombstone(_) => unreachable!(),
    };
    mismatched.size += 1;
    assert!(matches!(
        encode_change_record(&ChangeRecord::File(mismatched)),
        Err(ManifestError::FileSizeMismatch { .. })
    ));

    let encoded = encode_change_record(&file).unwrap();
    let mut envelope: ManifestEnvelope = decode_message(&encoded).unwrap();
    let ManifestRecord::File(wire_file) = envelope.record.as_mut().unwrap() else {
        unreachable!();
    };
    wire_file.version.reverse();
    assert!(matches!(
        decode_change_record(&encode_message(&envelope)),
        Err(ManifestError::VersionEntriesNotStrictlySorted { index: 1 })
    ));

    let mut with_unknown_field = encoded;
    with_unknown_field.extend_from_slice(&[0xa0, 0x06, 0x01]);
    assert!(matches!(
        decode_change_record(&with_unknown_field),
        Err(ManifestError::NonCanonical)
    ));
}

#[test]
fn each_fault_of_a_manifest_is_named() {
    let encoded = encode_change_record(&file_change()).unwrap();
    let verdict = |change: &dyn Fn(&mut wire::FileRecord)| {
        let mut envelope: ManifestEnvelope = decode_message(&encoded).unwrap();
        let ManifestRecord::File(file) = envelope.record.as_mut().unwrap() else {
            unreachable!();
        };
        change(file);
        decode_change_record(&encode_message(&envelope)).unwrap_err()
    };
    assert!(matches!(
        verdict(&|file| file.file_id = vec![1; 3]),
        ManifestError::InvalidIdentifierLength { expected: 16, actual: 3, .. }
    ));
    assert!(matches!(
        verdict(&|file| file.revision_id = vec![0; 16]),
        ManifestError::NilIdentifier { .. }
    ));
    assert!(matches!(
        verdict(&|file| file.relative_path = "../x".to_owned()),
        ManifestError::Path(_)
    ));
    assert_eq!(verdict(&|file| file.version.clear()), ManifestError::EmptyVersionVector);
    assert!(matches!(
        verdict(&|file| file.version[0].counter = 0),
        ManifestError::Version(_)
    ));
    assert_eq!(
        verdict(&|file| file.chunks[1].plaintext_size = 0),
        ManifestError::ZeroChunkSize { index: 1 }
    );
    assert_eq!(
        verdict(&|file| file.size = 6),
        ManifestError::FileSizeMismatch { declared: 6, actual: 5 }
    );
    let empty = ManifestEnvelope { format_version: 1, record: None };
    assert_eq!(
        decode_change_record(&encode_message(&empty)),
        Err(ManifestError::MissingRecord)
    );
    let newer = ManifestEnvelope { format_version: 2, record: None };
    assert_eq!(
        decode_change_record(&encode_message(&newer)),
        Err(ManifestError::UnsupportedFormatVersion(2))
    );
    assert_eq!(decode_change_record(&[0xff]), Err(ManifestError::Decode));
}

#[test]
fn tombstone_manifest_has_stable_golden_bytes_and_content_id() {
    let record = ChangeRecord::Tombstone(Tombstone {
        file_id: FileId::from_u128(1),
        revision_id: RevisionId::from_u128(2),
        relative_path: RelativePath::new("a.txt").unwrap(),
        deleted_at_unix_ms: 3,
        version: VersionVector::from_entries(vec![(device(4), 1)]).unwrap(),
    });
    let encoded = encode_change_record(&record).unwrap();
    let expected = [
        0x08, 0x01, 0x1a, 0x43, 0x0a, 0x10, 0x00, 0x00, 0x00, 0x00, 0x00, 0x00, 0x00, 0x00,
        0x00, 0x00, 0x00, 0x00, 0x00, 0x00, 0x00, 0x01, 0x12, 0x10, 0x00, 0x00, 0x00, 0x00,
        0x00, 0x00, 0x00, 0x00, 0x00, 0x00, 0x00, 0x00, 0x00, 0x00, 0x00, 0x02, 0x1a, 0x05,
        b'a', b'.', b't', b'x', b't', 0x20, 0x06, 0x2a, 0x14, 0x0a, 0x10, 0x00, 0x00, 0x00,
        0x00, 0x00, 0x00, 0x00, 0x00, 0x00, 0x00, 0x00, 0x00, 0x00, 0x00, 0x00, 0x04, 0x10,
        0x01,
    ];

    assert_eq!(encoded, expected);
    assert_eq!(
        keys(group(1)).identify_manifest(&encoded),
        ContentId::from_bytes([
            42, 162, 202, 71, 186, 63, 69, 251, 88, 183, 63, 88, 250, 60, 155, 210, 234, 81,
            127, 194, 22, 105, 5, 197, 94, 216, 66, 129, 8, 224, 98, 215,
        ])
    );
}

#[test]
fn limits_outside_their_bounds_are_refused() {
    assert!(matches!(
        ProtocolLimits::new(1023, 1024, 1, 1),
        Err(ProtocolError::InvalidLimit { value: 1023, .. })
    ));
    assert!(matches!(
        ProtocolLimits::new(1024, 87, 1, 1),
        Err(ProtocolError::InvalidLimit { value: 87, .. })
    ));
    assert!(matches!(
        ProtocolLimits::new(1024, 1024, 0, 1),
        Err(ProtocolError::InvalidLimit { value: 0, .. })
    ));
    assert!(matches!(
        ProtocolLimits::new(1024, 1024, 1, 4097),
        Err(ProtocolError::InvalidLimit { value: 4097, .. })
    ));
    let limits = ProtocolLimits::default();
    assert_eq!(limits.maximum_control_frame_bytes(), 1024 * 1024);
    assert_eq!(limits.maximum_encrypted_object_bytes(), 32 * 1024 * 1024);
    assert_eq!(limits.maximum_content_ids_per_request(), 4096);
    assert_eq!(limits.maximum_change_records_per_batch(), 1024);
}

#[test]
fn each_fault_of_a_handshake_is_named() {
    let group_id = group(1);
    let limits = ProtocolLimits::default();
    let verdict = |change: &dyn Fn(&mut wire::Handshake)| {
        let mut handshake = current_handshake(device(1), group_id, limits);
        change(&mut handshake);
        negotiate_handshake(&handshake, group_id, limits).unwrap_err()
    };
    assert!(matches!(
        verdict(&|handshake| handshake.minimum_protocol_version = 9),
        ProtocolError::InvalidVersionRange { minimum: 9, .. }
    ));
    assert!(matches!(
        verdict(&|handshake| handshake.device_id = vec![1; 4]),
        ProtocolError::InvalidIdentifierLength { actual: 4, .. }
    ));
    assert!(matches!(
        verdict(&|handshake| handshake.group_id = vec![0; 16]),
        ProtocolError::NilIdentifier { .. }
    ));
    assert!(matches!(
        verdict(&|handshake| handshake.maximum_control_frame_bytes = 5),
        ProtocolError::AdvertisedLimitTooSmall { value: 5, .. }
    ));
    assert!(matches!(
        verdict(&|handshake| handshake.maximum_object_bytes = 5),
        ProtocolError::AdvertisedLimitTooSmall { value: 5, .. }
    ));
}

#[test]
fn control_frames_round_trip() {
    let limits = ProtocolLimits::default();
    let envelope = ControlEnvelope {
        message: Some(ControlMessage::ChangeLogRequest(wire::ChangeLogRequest {
            after_sequence: 300,
            maximum_records: 7,
        })),
    };
    let frame = encode_control_frame(&envelope, limits).unwrap();
    assert_eq!(frame, vec![0, 0, 0, 7, 0x0a, 5, 0x08, 0xac, 0x02, 0x10, 0x07]);
    assert_eq!(decode_control_frame::<ControlEnvelope>(&frame, limits).unwrap(), envelope);
    assert!(matches!(
        decode_control_frame::<ControlEnvelope>(&frame[..3], limits),
        Err(ProtocolError::ControlFrameHeaderTooShort { actual: 3 })
    ));
    assert!(matches!(
        decode_control_frame::<ControlEnvelope>(&[0, 0, 0, 1, 0xff], limits),
        Err(ProtocolError::Decode)
    ));
}

#[test]
fn messages_agree_with_their_wire_format() {
    let challenge = wire::SessionChallenge {
        handshake: None,
        acknowledgement: Some(wire::HandshakeAck {
            selected_protocol_version: 1,
            capabilities: vec![1, 2],
            maximum_control_frame_bytes: 0,
            maximum_object_bytes: 3,
        }),
        nonce: vec![9],
        responder_signature: Vec::new(),
    };
    let mut expected = Vec::new();
    let mut acknowledgement = Vec::new();
    prost::encoding::uint32::encode(1, &1, &mut acknowledgement);
    prost::encoding::int32::encode_packed(2, &[1, 2], &mut acknowledgement);
    prost::encoding::uint64::encode(4, &3, &mut acknowledgement);
    prost::encoding::bytes::encode(2, &acknowledgement, &mut expected);
    prost::encoding::bytes::encode(3, &vec![9_u8], &mut expected);
    assert_eq!(encode_message(&challenge), expected);
    assert_eq!(decode_message::<wire::SessionChallenge>(&expected).unwrap(), challenge);
}

#[test]
fn negative_times_are_written_in_zigzag() {
    let record = wire::TombstoneRecord {
        deleted_at_unix_ms: -2,
        relative_path: "x".to_owned(),
        ..Default::default()
    };
    let bytes = encode_message(&record);
    assert_eq!(bytes, vec![0x1a, 1, b'x', 0x20, 3]);
    let mut expected = Vec::new();
    prost::encoding::string::encode(3, &"x".to_owned(), &mut expected);
    prost::encoding::sint64::encode(4, &-2, &mut expected);
    assert_eq!(bytes, expected);
    assert_eq!(decode_message::<wire::TombstoneRecord>(&bytes).unwrap(), record);
}

#[test]
fn session_values_must_not_be_zero() {
    assert_eq!(SessionNonce::from_bytes([0; 32]), Err(ProtocolError::ZeroSessionNonce));
    assert_eq!(
        SessionTransportBinding::from_bytes([0; 32]),
        Err(ProtocolError::ZeroSessionTransportBinding)
    );
    assert_ne!(
        SessionNonce::generate().unwrap().as_bytes(),
        SessionNonce::generate().unwrap().as_bytes()
    );
    assert_eq!(SessionTransportBinding::from_bytes([5; 32]).unwrap().as_bytes(), &[5; 32]);
}

#[test]
fn each_fault_of_a_hello_is_named() {
    let group_id = group(1);
    let group_keys = keys(group_id);
    let initiator = DeviceIdentity::from_secret_bytes([1; 32]);
    let responder = DeviceIdentity::from_secret_bytes([2; 32]);
    let limits = ProtocolLimits::default();
    let binding = SessionTransportBinding::from_bytes([12; 32]).unwrap();
    let hello = build_session_hello(
        &initiator,
        &group_keys,
        limits,
        SessionNonce::from_bytes([3; 32]).unwrap(),
        binding,
        0,
    );
    let nonce = SessionNonce::from_bytes([4; 32]).unwrap();
    let accept = |change: &dyn Fn(&mut wire::SessionHello), identity: &DeviceIdentity| {
        let mut altered = hello.clone();
        change(&mut altered);
        accept_session_hello(&altered, identity, nonce, binding, group_id, limits).unwrap_err()
    };
    assert_eq!(
        accept(&|_| {}, &initiator),
        ProtocolError::SelfConnection { device_id: initiator.device_id() }
    );
    assert!(matches!(
        accept(&|hello| hello.handshake = None, &responder),
        ProtocolError::MissingSessionField(_)
    ));
    assert!(matches!(
        accept(&|hello| hello.nonce = vec![1; 5], &responder),
        ProtocolError::InvalidSessionNonceLength { actual: 5, .. }
    ));
    assert!(matches!(
        accept(&|hello| hello.transport_binding = vec![1; 5], &responder),
        ProtocolError::InvalidSessionTransportBindingLength { actual: 5 }
    ));

    let enroll = |change: &dyn Fn(&mut wire::SessionHello)| {
        let mut altered = hello.clone();
        change(&mut altered);
        verify_peer_enrollment(&altered, &group_keys, binding)
    };
    assert_eq!(enroll(&|_| {}).unwrap().listen_port, None);
    assert!(matches!(
        enroll(&|hello| hello.public_key = vec![1; 5]),
        Err(ProtocolError::InvalidEnrollmentPublicKeyLength { actual: 5 })
    ));
    assert!(matches!(
        enroll(&|hello| hello.listen_port = 70_000),
        Err(ProtocolError::InvalidEnrollmentListenPort(70_000))
    ));
    assert!(matches!(
        enroll(&|hello| hello.enrollment_proof[0] ^= 1),
        Err(ProtocolError::InvalidEnrollmentProof)
    ));
}

#[test]
fn each_fault_of_a_transfer_is_named() {
    let limits = ProtocolLimits::new(1024, 1024, 2, 4).unwrap();
    let content_id = ContentId::from_bytes([3; 32]);
    assert_eq!(
        build_object_request(7, Vec::new(), limits),
        Err(ProtocolError::EmptyObjectRequest)
    );
    assert!(matches!(
        build_object_range_request(0, content_id, 0, limits),
        Err(ProtocolError::NilIdentifier { .. })
    ));
    let request = validate_object_range_request(
        &build_object_range_request(8, content_id, 0, limits).unwrap(),
        limits,
    )
    .unwrap();
    let offer = build_object_offer(request, 100, limits).unwrap();
    let mut other = request;
    other.request_id = 9;
    assert_eq!(
        validate_object_offer_for_request(&offer, other, limits),
        Err(ProtocolError::ObjectTransferRequestMismatch)
    );
    let transfer = validate_object_offer(&offer, limits).unwrap();
    assert_eq!(transfer.encrypted_size, 100);
    let header = build_object_stream_header(transfer);
    assert_eq!(validate_object_stream_header(&header, limits), Ok(transfer));
    let mut short = offer;
    short.encrypted_size = 87;
    assert!(matches!(
        validate_object_offer(&short, limits),
        Err(ProtocolError::InvalidObjectTransferSize { actual: 87, minimum: 88, maximum: 1024 })
    ));
}
