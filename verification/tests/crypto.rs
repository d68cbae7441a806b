use orbit::envelope::{EncryptedObject, EnvelopeError, ObjectKind};
use orbit::identity::{
    ChangeAuthorization, ChangeSignature, DeviceIdentity, DevicePublicKey, IdentityError,
};
use orbit::ids::{ContentId, GroupId, RevisionId};
use orbit::keys::{CryptoError, GroupKeys, GroupSecret};
use orbit::path::RelativePath;

fn group(value: u128) -> GroupId {
    GroupId::parse(&format!("{value:032x}")).unwrap()
}

fn keys(secret_byte: u8, group_value: u128) -> GroupKeys {
    GroupSecret::from_bytes([secret_byte; 32]).derive_keys(group(group_value)).unwrap()
}

#[test]
fn content_ids_are_deterministic_and_domain_separated() {
    let first = keys(7, 1);
    let second_group = keys(7, 2);
    let plaintext = b"same content";

    assert_eq!(first.identify_chunk(plaintext), first.identify_chunk(plaintext));
    assert_ne!(first.identify_chunk(plaintext), first.identify_manifest(plaintext));
    assert_ne!(first.identify_chunk(plaintext), second_group.identify_chunk(plaintext));
}

#[test]
fn path_ids_are_private_canonical_and_domain_separated() {
    let first = keys(8, 1);
    let second_group = keys(8, 2);
    let display = RelativePath::new("Docs/Report.txt").unwrap();
    let equivalent = RelativePath::new("docs/report.TXT").unwrap();

    assert_eq!(first.identify_path(&display), first.identify_path(&equivalent));
    assert_ne!(first.identify_path(&display), second_group.identify_path(&display));
    assert_ne!(
        first.identify_path(&display).as_bytes(),
        first.identify_chunk(display.comparison_key().as_bytes()).as_bytes()
    );
    assert_ne!(
        first.identify_path(&display).as_bytes(),
        first.identify_manifest(display.comparison_key().as_bytes()).as_bytes()
    );
}

#[test]
fn device_identity_is_key_derived_and_round_trips_public_bytes() {
    let identity = DeviceIdentity::from_secret_bytes([31; 32]);
    let public_key = identity.public_key();
    let decoded = DevicePublicKey::from_bytes(*public_key.as_bytes()).unwrap();

    assert_eq!(decoded, public_key);
    assert_eq!(decoded.device_id(), identity.device_id());
    assert_ne!(
        identity.device_id(),
        DeviceIdentity::from_secret_bytes([32; 32]).device_id()
    );
    let debug = identity.redacted();
    assert!(debug.contains("[REDACTED]"));
    assert!(!debug.contains("31, 31"));
}

#[test]
fn signed_changes_bind_group_author_revision_and_content() {
    let identity = DeviceIdentity::from_secret_bytes([33; 32]);
    let group_id = group(1);
    let revision_id = RevisionId::from_u128(2);
    let content_id = ContentId::from_bytes([3; 32]);
    let authorization = identity.authorize_change(group_id, revision_id, content_id);

    identity
        .public_key()
        .verify_change(group_id, revision_id, content_id, authorization)
        .unwrap();
    assert_eq!(authorization.author_device_id, identity.device_id());
    assert_eq!(
        identity.public_key().verify_change(group(9), revision_id, content_id, authorization),
        Err(IdentityError::InvalidSignature)
    );
    assert_eq!(
        identity.public_key().verify_change(
            group_id,
            RevisionId::from_u128(9),
            content_id,
            authorization,
        ),
        Err(IdentityError::InvalidSignature)
    );
    assert_eq!(
        identity.public_key().verify_change(
            group_id,
            revision_id,
            ContentId::from_bytes([9; 32]),
            authorization,
        ),
        Err(IdentityError::InvalidSignature)
    );

    let other = DeviceIdentity::from_secret_bytes([34; 32]);
    assert_eq!(
        other.public_key().verify_change(group_id, revision_id, content_id, authorization),
        Err(IdentityError::AuthorKeyMismatch {
            expected: other.device_id(),
            actual: identity.device_id(),
        })
    );

    let mut signature = *authorization.signature.as_bytes();
    signature[0] ^= 0x80;
    let tampered = ChangeAuthorization {
        signature: ChangeSignature::from_bytes(signature),
        ..authorization
    };
    assert_eq!(
        identity.public_key().verify_change(group_id, revision_id, content_id, tampered),
        Err(IdentityError::InvalidSignature)
    );
}

#[test]
fn signed_sessions_bind_author_and_exact_transcript() {
    let identity = DeviceIdentity::from_secret_bytes([35; 32]);
    let transcript = b"canonical negotiated session transcript";
    let authorization = identity.authorize_session(transcript);

    identity.public_key().verify_session(transcript, authorization).unwrap();
    assert_eq!(authorization.author_device_id, identity.device_id());
    assert_eq!(
        identity.public_key().verify_session(b"modified transcript", authorization),
        Err(IdentityError::InvalidSignature)
    );

    let other = DeviceIdentity::from_secret_bytes([36; 32]);
    assert_eq!(
        other.public_key().verify_session(transcript, authorization),
        Err(IdentityError::AuthorKeyMismatch {
            expected: other.device_id(),
            actual: identity.device_id(),
        })
    );
}

#[test]
fn encrypted_chunk_round_trips_through_the_wire_envelope() {
    let keys = keys(11, 1);
    let plaintext = b"Orbit keeps this private";
    let expected_id = keys.identify_chunk(plaintext);
    let object = keys.seal_chunk(plaintext).unwrap();

    assert_eq!(object.kind(), ObjectKind::Chunk);
    assert_eq!(object.content_id(), expected_id);
    assert_ne!(object.ciphertext(), plaintext);

    let encoded = object.to_bytes().unwrap();
    let decoded = EncryptedObject::from_bytes(&encoded).unwrap();
    assert_eq!(decoded, object);
    assert_eq!(keys.open_chunk(expected_id, &decoded).unwrap(), plaintext);
}

#[test]
fn repeated_encryption_uses_distinct_nonces() {
    let keys = keys(12, 1);
    let plaintext = b"same plaintext";
    let first = keys.seal_chunk(plaintext).unwrap();
    let second = keys.seal_chunk(plaintext).unwrap();

    assert_eq!(first.content_id(), second.content_id());
    assert_ne!(first.nonce(), second.nonce());
    assert_ne!(first.ciphertext(), second.ciphertext());
}

#[test]
fn wrong_group_cannot_open_an_object() {
    let original = keys(13, 1);
    let other_group = keys(13, 2);
    let plaintext = b"group-bound content";
    let expected_id = original.identify_chunk(plaintext);
    let object = original.seal_chunk(plaintext).unwrap();

    assert_eq!(
        other_group.open_chunk(expected_id, &object),
        Err(CryptoError::Authentication)
    );
}

#[test]
fn ciphertext_tampering_is_rejected() {
    let keys = keys(17, 1);
    let plaintext = b"authenticated content";
    let expected_id = keys.identify_chunk(plaintext);
    let mut object = keys.seal_chunk(plaintext).unwrap();
    object.ciphertext[0] ^= 0x80;

    assert_eq!(keys.open_chunk(expected_id, &object), Err(CryptoError::Authentication));
}

#[test]
fn authenticated_header_tampering_is_rejected() {
    let keys = keys(18, 1);
    let plaintext = b"header-bound content";
    let content_id = keys.identify_chunk(plaintext);
    let object = keys.seal_chunk(plaintext).unwrap();

    let mut changed_kind = object.clone();
    changed_kind.kind = ObjectKind::Manifest;
    assert_eq!(
        keys.open(ObjectKind::Manifest, content_id, &changed_kind),
        Err(CryptoError::Authentication)
    );

    let changed_content_id = ContentId::from_bytes([0xa5; 32]);
    let mut changed_id = object.clone();
    changed_id.content_id = changed_content_id;
    assert_eq!(
        keys.open_chunk(changed_content_id, &changed_id),
        Err(CryptoError::Authentication)
    );

    let mut changed_version = object;
    changed_version.format_version += 1;
    assert_eq!(
        keys.open_chunk(content_id, &changed_version),
        Err(CryptoError::UnsupportedFormatVersion(2))
    );
}

#[test]
fn plaintext_is_verified_against_its_content_id_after_decryption() {
    let keys = keys(19, 1);
    let expected_id = keys.identify_chunk(b"expected");
    let object =
        keys.seal_with_content_id(ObjectKind::Chunk, expected_id, b"different").unwrap();

    assert_eq!(keys.open_chunk(expected_id, &object), Err(CryptoError::ContentIdMismatch));
}

#[test]
fn malformed_envelope_lengths_are_rejected_before_allocation() {
    let keys = keys(23, 1);
    let mut encoded = keys.seal_chunk(b"payload").unwrap().to_bytes().unwrap();
    encoded[71] = encoded[71].wrapping_add(1);

    assert!(matches!(
        EncryptedObject::from_bytes(&encoded),
        Err(EnvelopeError::LengthMismatch { .. })
    ));
}

#[test]
fn secret_debug_output_is_redacted() {
    let secret = GroupSecret::from_bytes([29; 32]);
    assert_eq!(secret.redacted(), "GroupSecret([REDACTED])");
}

#[test]
fn objects_open_only_as_what_they_are() {
    let keys = keys(41, 1);
    let object = keys.seal_manifest(b"manifest").unwrap();
    let id = keys.identify_manifest(b"manifest");
    assert_eq!(keys.open_manifest(id, &object).unwrap(), b"manifest");
    assert_eq!(
        keys.open_chunk(id, &object),
        Err(CryptoError::UnexpectedObjectKind {
            expected: ObjectKind::Chunk,
            actual: ObjectKind::Manifest,
        })
    );
    let other = ContentId::from_bytes([1; 32]);
    assert_eq!(
        keys.open_manifest(other, &object),
        Err(CryptoError::UnexpectedContentId { expected: other, actual: id })
    );
}

#[test]
fn sealing_is_a_function_of_keys_nonce_and_plaintext() {
    let keys = keys(42, 1);
    let id = keys.identify_chunk(b"plaintext");
    let first = keys.seal_with_nonce(ObjectKind::Chunk, id, [3; 24], b"plaintext").unwrap();
    let second = keys.seal_with_nonce(ObjectKind::Chunk, id, [3; 24], b"plaintext").unwrap();
    assert_eq!(first, second);
    assert_eq!(first.ciphertext().len(), b"plaintext".len() + 16);
    assert_eq!(first.nonce(), &[3; 24]);
    assert_eq!(keys.open(ObjectKind::Chunk, id, &first).unwrap(), b"plaintext");
}

#[test]
fn the_envelope_layout_is_fixed() {
    let keys = keys(43, 1);
    let id = keys.identify_chunk(b"abc");
    let object = keys.seal_with_nonce(ObjectKind::Chunk, id, [9; 24], b"abc").unwrap();
    let bytes = object.to_bytes().unwrap();
    assert_eq!(bytes.len(), 72 + 3 + 16);
    assert_eq!(&bytes[..4], b"ORBT");
    assert_eq!(&bytes[4..8], &[0, 1, 1, 0]);
    assert_eq!(&bytes[8..40], &id.as_bytes());
    assert_eq!(&bytes[40..64], &[9; 24]);
    assert_eq!(&bytes[64..72], &[0, 0, 0, 0, 0, 0, 0, 19]);
    assert_eq!(&bytes[72..], object.ciphertext());
}

#[test]
fn each_fault_of_an_envelope_is_named() {
    let keys = keys(44, 1);
    let bytes = keys.seal_chunk(b"abc").unwrap().to_bytes().unwrap();
    assert_eq!(
        EncryptedObject::from_bytes(&bytes[..71]),
        Err(EnvelopeError::HeaderTooShort { actual: 71 })
    );
    let with = |index: usize, value: u8| {
        let mut changed = bytes.clone();
        changed[index] = value;
        EncryptedObject::from_bytes(&changed)
    };
    assert_eq!(with(0, b'X'), Err(EnvelopeError::InvalidMagic));
    assert_eq!(with(5, 7), Err(EnvelopeError::UnsupportedFormatVersion(7)));
    assert_eq!(with(6, 9), Err(EnvelopeError::UnknownObjectKind(9)));
    assert_eq!(with(7, 1), Err(EnvelopeError::UnsupportedFlags(1)));
    assert_eq!(
        with(71, 20),
        Err(EnvelopeError::LengthMismatch { declared: 20, actual: 19 })
    );
    let mut short = bytes[..72 + 15].to_vec();
    short[71] = 15;
    assert_eq!(
        EncryptedObject::from_bytes(&short),
        Err(EnvelopeError::CiphertextTooShort { actual: 15 })
    );
}

#[test]
fn enrollment_proofs_bind_every_part() {
    let keys = keys(45, 1);
    let key = DeviceIdentity::from_secret_bytes([5; 32]).public_key();
    let other = DeviceIdentity::from_secret_bytes([6; 32]).public_key();
    let proof = keys.peer_enrollment_proof(key, &[1; 32], &[2; 32], 7);
    assert_eq!(proof, keys.peer_enrollment_proof(key, &[1; 32], &[2; 32], 7));
    assert_ne!(proof, keys.peer_enrollment_proof(other, &[1; 32], &[2; 32], 7));
    assert_ne!(proof, keys.peer_enrollment_proof(key, &[3; 32], &[2; 32], 7));
    assert_ne!(proof, keys.peer_enrollment_proof(key, &[1; 32], &[3; 32], 7));
    assert_ne!(proof, keys.peer_enrollment_proof(key, &[1; 32], &[2; 32], 8));
}

#[test]
fn generated_secrets_differ() {
    let group_id = group(1);
    let first = GroupSecret::generate().unwrap().derive_keys(group_id).unwrap();
    let second = GroupSecret::generate().unwrap().derive_keys(group_id).unwrap();
    assert_ne!(first.identify_chunk(b"x"), second.identify_chunk(b"x"));
    assert_eq!(first.group_id(), group_id);
    let device = DeviceIdentity::generate().unwrap();
    assert_ne!(device.device_id(), DeviceIdentity::generate().unwrap().device_id());
}

#[test]
fn device_identifiers_are_version_eight_uuids() {
    let id = DeviceIdentity::from_secret_bytes([31; 32]).device_id();
    let text = id.to_string();
    assert_eq!(text.as_bytes()[14], b'8');
    assert!(matches!(text.as_bytes()[19], b'8' | b'9' | b'a' | b'b'));
}
