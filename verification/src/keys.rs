//! The keys of a workspace, and the objects that they seal.
use vstd::prelude::*;
use vstd::string::StringSliceAdditionalSpecFns;

use crate::bytes::{append_bytes, be_bytes, be_encode, lemma_be_bytes_len};
use crate::crypto::{
    aead_limit, aead_open, aead_opened, aead_seal, aead_sealed, blake3_keyed_hash, blake3_mac,
    hkdf_expand, hkdf_sha256, random_bytes, AEAD_PLAINTEXT_MAXIMUM,
};
use crate::envelope::{
    envelope_magic, envelope_magic_bytes, nonce_of, EncryptedObject, ObjectKind, ObjectView,
    ENCRYPTED_OBJECT_FORMAT_VERSION, ENVELOPE_FLAGS,
};
use crate::identity::DevicePublicKey;
use crate::ids::{array_of, hyphenated, lemma_uuid_bytes, uuid_bytes, ContentId, GroupId, PathId};
use crate::path::RelativePath;

verus! {

#[derive(Clone, Copy, Debug, PartialEq, Eq, Structural)]
pub enum CryptoError {
    Randomness,
    KeyDerivation,
    Encryption,
    Authentication,
    UnsupportedFormatVersion(u16),
    UnexpectedObjectKind { expected: ObjectKind, actual: ObjectKind },
    UnexpectedContentId { expected: ContentId, actual: ContentId },
    ContentIdMismatch,
}

/// The info from which the key for a purpose is derived.
pub open spec fn key_info(purpose: Seq<u8>) -> Seq<u8> {
    "orbit/key-derivation".spec_bytes() + be_bytes(ENCRYPTED_OBJECT_FORMAT_VERSION as nat, 2)
        + purpose
}

/// The key of a group for a purpose.
pub open spec fn derived_key(secret: Seq<u8>, group_id: GroupId, purpose: Seq<u8>) -> Seq<u8> {
    hkdf_sha256(uuid_bytes(group_id.value), secret, key_info(purpose))
}

/// The contents of `GroupKeys`.
pub struct KeysView {
    pub group_id: GroupId,
    pub chunk_id_key: Seq<u8>,
    pub manifest_id_key: Seq<u8>,
    pub path_id_key: Seq<u8>,
    pub chunk_encryption_key: Seq<u8>,
    pub manifest_encryption_key: Seq<u8>,
    pub peer_enrollment_key: Seq<u8>,
}

/// The keys of the group `group_id` with the given secret.
pub open spec fn group_keys(secret: Seq<u8>, group_id: GroupId) -> KeysView {
    KeysView {
        group_id,
        chunk_id_key: derived_key(secret, group_id, "chunk-content-id".spec_bytes()),
        manifest_id_key: derived_key(secret, group_id, "manifest-content-id".spec_bytes()),
        path_id_key: derived_key(secret, group_id, "path-id".spec_bytes()),
        chunk_encryption_key: derived_key(secret, group_id, "chunk-encryption".spec_bytes()),
        manifest_encryption_key: derived_key(secret, group_id, "manifest-encryption".spec_bytes()),
        peer_enrollment_key: derived_key(secret, group_id, "peer-enrollment".spec_bytes()),
    }
}

/// What is authenticated along with an object: the group and the head of the envelope.
pub open spec fn object_context(
    group_id: GroupId,
    format_version: u16,
    kind: ObjectKind,
    content_id: ContentId,
) -> Seq<u8> {
    "orbit/encrypted-object".spec_bytes() + envelope_magic() + uuid_bytes(group_id.value)
        + be_bytes(format_version as nat, 2) + seq![kind.byte(), ENVELOPE_FLAGS] + content_id@
}

/// What the proof of enrollment of a device is taken of.
pub open spec fn enrollment_message(
    group_id: GroupId,
    public_key: Seq<u8>,
    nonce: Seq<u8>,
    transport_binding: Seq<u8>,
    listen_port: u16,
) -> Seq<u8> {
    "orbit/peer-enrollment/v1".spec_bytes() + uuid_bytes(group_id.value) + public_key + nonce
        + transport_binding + be_bytes(listen_port as nat, 2)
}

impl KeysView {
    /// The key that identifies objects of a kind.
    pub open spec fn id_key(self, kind: ObjectKind) -> Seq<u8> {
        match kind {
            ObjectKind::Chunk => self.chunk_id_key,
            ObjectKind::Manifest => self.manifest_id_key,
        }
    }

    /// The key that encrypts objects of a kind.
    pub open spec fn encryption_key(self, kind: ObjectKind) -> Seq<u8> {
        match kind {
            ObjectKind::Chunk => self.chunk_encryption_key,
            ObjectKind::Manifest => self.manifest_encryption_key,
        }
    }

    /// The identifier of an object.
    pub open spec fn content_id(self, kind: ObjectKind, plaintext: Seq<u8>) -> ContentId {
        ContentId::of_bytes(blake3_mac(self.id_key(kind), plaintext))
    }

    /// The identifier of a path, by the form in which paths that differ by case agree.
    pub open spec fn path_id(self, comparison_key: Seq<char>) -> PathId {
        PathId::of_bytes(blake3_mac(self.path_id_key, vstd::utf8::encode_utf8(comparison_key)))
    }

    /// What opening an object gives.
    pub open spec fn opened(self, kind: ObjectKind, content_id: ContentId, object: ObjectView) -> Result<
        Seq<u8>,
        CryptoError,
    > {
        if header_problem(kind, content_id, object) is Some {
            Err(header_problem(kind, content_id, object)->0)
        } else if object.ciphertext.len() >= aead_limit() + 16 {
            Err(CryptoError::Authentication)
        } else {
            match aead_opened(
                self.encryption_key(kind),
                object.nonce,
                object_context(self.group_id, object.format_version, kind, content_id),
                object.ciphertext,
            ) {
                None => Err(CryptoError::Authentication),
                Some(plaintext) => if self.content_id(kind, plaintext) != content_id {
                    Err(CryptoError::ContentIdMismatch)
                } else {
                    Ok(plaintext)
                },
            }
        }
    }

    /// The proof that a device belongs to the group.
    pub open spec fn enrollment_proof(
        self,
        public_key: Seq<u8>,
        nonce: Seq<u8>,
        transport_binding: Seq<u8>,
        listen_port: u16,
    ) -> Seq<u8> {
        blake3_mac(
            self.peer_enrollment_key,
            enrollment_message(self.group_id, public_key, nonce, transport_binding, listen_port),
        )
    }
}

/// What is wrong with the head of an object that should have the given kind and identifier.
pub open spec fn header_problem(
    kind: ObjectKind,
    content_id: ContentId,
    object: ObjectView,
) -> Option<CryptoError> {
    if object.format_version != ENCRYPTED_OBJECT_FORMAT_VERSION {
        Some(CryptoError::UnsupportedFormatVersion(object.format_version))
    } else if object.kind != kind {
        Some(CryptoError::UnexpectedObjectKind { expected: kind, actual: object.kind })
    } else if object.content_id != content_id {
        Some(
            CryptoError::UnexpectedContentId { expected: content_id, actual: object.content_id },
        )
    } else {
        None
    }
}

/// The secret that the devices of a group share.
pub struct GroupSecret {
    bytes: [u8; 32],
}

impl View for GroupSecret {
    type V = Seq<u8>;

    closed spec fn view(&self) -> Seq<u8> {
        self.bytes@
    }
}

impl GroupSecret {
    /// A fresh random secret.
    pub fn generate() -> (result: Result<Self, CryptoError>)
        ensures
            result matches Err(error) ==> error == CryptoError::Randomness,
    {
        match random_bytes(32) {
            Some(bytes) => Ok(GroupSecret { bytes: array_of(bytes.as_slice()) }),
            None => Err(CryptoError::Randomness),
        }
    }

    pub fn from_bytes(bytes: [u8; 32]) -> (secret: Self)
        ensures
            secret@ == bytes@,
    {
        GroupSecret { bytes }
    }

    /// Derives the keys of a group.
    pub fn derive_keys(&self, group_id: GroupId) -> (result: Result<GroupKeys, CryptoError>)
        ensures
            result is Ok,
            result->Ok_0@ == group_keys(self@, group_id),
    {
        let chunk_id_key: [u8; 32] = self.derive_key(group_id, "chunk-content-id")?;
        let manifest_id_key: [u8; 32] = self.derive_key(group_id, "manifest-content-id")?;
        let path_id_key: [u8; 32] = self.derive_key(group_id, "path-id")?;
        let chunk_encryption_key: [u8; 32] = self.derive_key(group_id, "chunk-encryption")?;
        let manifest_encryption_key: [u8; 32] = self.derive_key(group_id, "manifest-encryption")?;
        let peer_enrollment_key: [u8; 32] = self.derive_key(group_id, "peer-enrollment")?;
        Ok(
            GroupKeys {
                group_id,
                chunk_id_key,
                manifest_id_key,
                path_id_key,
                chunk_encryption_key,
                manifest_encryption_key,
                peer_enrollment_key,
            },
        )
    }

    fn derive_key(&self, group_id: GroupId, purpose: &str) -> (result: Result<
        [u8; 32],
        CryptoError,
    >)
        ensures
            result is Ok,
            result->Ok_0@ == derived_key(self@, group_id, purpose.spec_bytes()),
    {
        let mut info: Vec<u8> = Vec::new();
        append_bytes(&mut info, "orbit/key-derivation".as_bytes());
        append_bytes(
            &mut info,
            be_encode(ENCRYPTED_OBJECT_FORMAT_VERSION as u128, 2).as_slice(),
        );
        append_bytes(&mut info, purpose.as_bytes());
        assert(info@ =~= key_info(purpose.spec_bytes()));
        match hkdf_expand(
            group_id.to_bytes().as_slice(),
            self.bytes.as_slice(),
            info.as_slice(),
        ) {
            Some(key) => Ok(key),
            None => Err(CryptoError::KeyDerivation),
        }
    }

    /// A text that hides the secret.
    pub fn redacted(&self) -> (text: String)
        ensures
            text@ == "GroupSecret([REDACTED])"@,
    {
        "GroupSecret([REDACTED])".to_owned()
    }
}

/// The keys of a group, each for one purpose.
pub struct GroupKeys {
    group_id: GroupId,
    chunk_id_key: [u8; 32],
    manifest_id_key: [u8; 32],
    path_id_key: [u8; 32],
    chunk_encryption_key: [u8; 32],
    manifest_encryption_key: [u8; 32],
    peer_enrollment_key: [u8; 32],
}

impl View for GroupKeys {
    type V = KeysView;

    closed spec fn view(&self) -> KeysView {
        KeysView {
            group_id: self.group_id,
            chunk_id_key: self.chunk_id_key@,
            manifest_id_key: self.manifest_id_key@,
            path_id_key: self.path_id_key@,
            chunk_encryption_key: self.chunk_encryption_key@,
            manifest_encryption_key: self.manifest_encryption_key@,
            peer_enrollment_key: self.peer_enrollment_key@,
        }
    }
}

/// What is authenticated along with an object.
pub fn associated_data(
    group_id: GroupId,
    format_version: u16,
    kind: ObjectKind,
    content_id: ContentId,
) -> (data: Vec<u8>)
    ensures
        data@ == object_context(group_id, format_version, kind, content_id),
{
    let mut data: Vec<u8> = Vec::new();
    append_bytes(&mut data, "orbit/encrypted-object".as_bytes());
    append_bytes(&mut data, envelope_magic_bytes().as_slice());
    append_bytes(&mut data, group_id.to_bytes().as_slice());
    append_bytes(&mut data, be_encode(format_version as u128, 2).as_slice());
    data.push(kind.to_byte());
    data.push(ENVELOPE_FLAGS);
    append_bytes(&mut data, content_id.as_bytes().as_slice());
    assert(data@ =~= object_context(group_id, format_version, kind, content_id));
    data
}

/// Checks that the head of an object has the expected kind and identifier.
pub fn check_object_header(
    expected_kind: ObjectKind,
    expected_content_id: ContentId,
    object: &EncryptedObject,
) -> (result: Result<(), CryptoError>)
    ensures
        match result {
            Ok(_) => header_problem(expected_kind, expected_content_id, object@) is None,
            Err(error) => header_problem(expected_kind, expected_content_id, object@) == Some(
                error,
            ),
        },
{
    if object.format_version != ENCRYPTED_OBJECT_FORMAT_VERSION {
        return Err(CryptoError::UnsupportedFormatVersion(object.format_version));
    }
    if object.kind != expected_kind {
        return Err(
            CryptoError::UnexpectedObjectKind { expected: expected_kind, actual: object.kind },
        );
    }
    if object.content_id != expected_content_id {
        return Err(
            CryptoError::UnexpectedContentId {
                expected: expected_content_id,
                actual: object.content_id,
            },
        );
    }
    Ok(())
}

/// Accepts what decryption gave where the identifier of the plaintext is the expected one.
pub fn accept_plaintext(
    plaintext: Vec<u8>,
    identified_as: ContentId,
    expected_content_id: ContentId,
) -> (result: Result<Vec<u8>, CryptoError>)
    ensures
        match result {
            Ok(accepted) => identified_as == expected_content_id && accepted@ == plaintext@,
            Err(error) => identified_as != expected_content_id && error
                == CryptoError::ContentIdMismatch,
        },
{
    if identified_as != expected_content_id {
        return Err(CryptoError::ContentIdMismatch);
    }
    Ok(plaintext)
}

impl GroupKeys {
    pub fn group_id(&self) -> (id: GroupId)
        ensures
            id == self@.group_id,
    {
        self.group_id
    }

    /// The proof that a device belongs to the group.
    pub fn peer_enrollment_proof(
        &self,
        public_key: DevicePublicKey,
        nonce: &[u8],
        transport_binding: &[u8],
        listen_port: u16,
    ) -> (digest: [u8; 32])
        ensures
            digest@ == self@.enrollment_proof(
                public_key@,
                nonce@,
                transport_binding@,
                listen_port,
            ),
    {
        let mut message: Vec<u8> = Vec::new();
        append_bytes(&mut message, "orbit/peer-enrollment/v1".as_bytes());
        append_bytes(&mut message, self.group_id.to_bytes().as_slice());
        append_bytes(&mut message, public_key.as_bytes().as_slice());
        append_bytes(&mut message, nonce);
        append_bytes(&mut message, transport_binding);
        append_bytes(&mut message, be_encode(listen_port as u128, 2).as_slice());
        assert(message@ =~= enrollment_message(
            self@.group_id,
            public_key@,
            nonce@,
            transport_binding@,
            listen_port,
        ));
        blake3_keyed_hash(&self.peer_enrollment_key, message.as_slice())
    }

    /// The identifier of an object with the given plaintext.
    pub fn identify(&self, kind: ObjectKind, plaintext: &[u8]) -> (id: ContentId)
        ensures
            id == self@.content_id(kind, plaintext@),
    {
        let digest: [u8; 32] = match kind {
            ObjectKind::Chunk => blake3_keyed_hash(&self.chunk_id_key, plaintext),
            ObjectKind::Manifest => blake3_keyed_hash(&self.manifest_id_key, plaintext),
        };
        ContentId::from_bytes(digest)
    }

    pub fn identify_chunk(&self, plaintext: &[u8]) -> (id: ContentId)
        ensures
            id == self@.content_id(ObjectKind::Chunk, plaintext@),
    {
        self.identify(ObjectKind::Chunk, plaintext)
    }

    pub fn identify_manifest(&self, plaintext: &[u8]) -> (id: ContentId)
        ensures
            id == self@.content_id(ObjectKind::Manifest, plaintext@),
    {
        self.identify(ObjectKind::Manifest, plaintext)
    }

    /// The identifier of a path.
    pub fn identify_path(&self, path: &RelativePath) -> (id: PathId)
        ensures
            id == self@.path_id(path@.comparison_key),
    {
        PathId::from_bytes(
            blake3_keyed_hash(&self.path_id_key, path.comparison_key().as_bytes()),
        )
    }

    /// Encrypts a chunk.
    pub fn seal_chunk(&self, plaintext: &[u8]) -> (result: Result<EncryptedObject, CryptoError>)
        ensures
            is_sealed(self@, ObjectKind::Chunk, plaintext@, result),
    {
        self.seal(ObjectKind::Chunk, plaintext)
    }

    /// Encrypts a manifest.
    pub fn seal_manifest(&self, plaintext: &[u8]) -> (result: Result<EncryptedObject, CryptoError>)
        ensures
            is_sealed(self@, ObjectKind::Manifest, plaintext@, result),
    {
        self.seal(ObjectKind::Manifest, plaintext)
    }

    /// Encrypts an object under a fresh nonce.
    pub fn seal(&self, kind: ObjectKind, plaintext: &[u8]) -> (result: Result<
        EncryptedObject,
        CryptoError,
    >)
        ensures
            is_sealed(self@, kind, plaintext@, result),
    {
        let content_id: ContentId = self.identify(kind, plaintext);
        self.seal_with_content_id(kind, content_id, plaintext)
    }

    /// Encrypts an object under a fresh nonce and the given identifier.
    pub fn seal_with_content_id(
        &self,
        kind: ObjectKind,
        content_id: ContentId,
        plaintext: &[u8],
    ) -> (result: Result<EncryptedObject, CryptoError>)
        ensures
            match result {
                Ok(object) => plaintext@.len() < aead_limit() && is_sealed_with(
                    self@,
                    kind,
                    content_id,
                    object@.nonce,
                    plaintext@,
                    object@,
                ),
                Err(error) => error == CryptoError::Randomness || (error == CryptoError::Encryption
                    && plaintext@.len() >= aead_limit()),
            },
    {
        match random_bytes(24) {
            Some(nonce) => self.seal_with_nonce(
                kind,
                content_id,
                nonce_of(nonce.as_slice()),
                plaintext,
            ),
            None => Err(CryptoError::Randomness),
        }
    }

    /// Encrypts an object under the given nonce and identifier.
    pub fn seal_with_nonce(
        &self,
        kind: ObjectKind,
        content_id: ContentId,
        nonce: [u8; 24],
        plaintext: &[u8],
    ) -> (result: Result<EncryptedObject, CryptoError>)
        ensures
            match result {
                Ok(object) => plaintext@.len() < aead_limit() && is_sealed_with(
                    self@,
                    kind,
                    content_id,
                    nonce@,
                    plaintext@,
                    object@,
                ),
                Err(error) => plaintext@.len() >= aead_limit() && error == CryptoError::Encryption,
            },
    {
        if plaintext.len() as u64 > AEAD_PLAINTEXT_MAXIMUM {
            return Err(CryptoError::Encryption);
        }
        let context: Vec<u8> = associated_data(
            self.group_id,
            ENCRYPTED_OBJECT_FORMAT_VERSION,
            kind,
            content_id,
        );
        let sealed: Option<Vec<u8>> = match kind {
            ObjectKind::Chunk => aead_seal(
                &self.chunk_encryption_key,
                &nonce,
                context.as_slice(),
                plaintext,
            ),
            ObjectKind::Manifest => aead_seal(
                &self.manifest_encryption_key,
                &nonce,
                context.as_slice(),
                plaintext,
            ),
        };
        match sealed {
            Some(ciphertext) => Ok(
                EncryptedObject {
                    format_version: ENCRYPTED_OBJECT_FORMAT_VERSION,
                    kind,
                    content_id,
                    nonce,
                    ciphertext,
                },
            ),
            None => Err(CryptoError::Encryption),
        }
    }

    /// Opens a chunk.
    pub fn open_chunk(&self, expected_content_id: ContentId, object: &EncryptedObject) -> (result:
        Result<Vec<u8>, CryptoError>)
        ensures
            same_bytes(result, self@.opened(ObjectKind::Chunk, expected_content_id, object@)),
    {
        self.open(ObjectKind::Chunk, expected_content_id, object)
    }

    /// Opens a manifest.
    pub fn open_manifest(&self, expected_content_id: ContentId, object: &EncryptedObject) -> (result:
        Result<Vec<u8>, CryptoError>)
        ensures
            same_bytes(result, self@.opened(ObjectKind::Manifest, expected_content_id, object@)),
    {
        self.open(ObjectKind::Manifest, expected_content_id, object)
    }

    /// Opens an object that should have the given kind and identifier.
    pub fn open(
        &self,
        expected_kind: ObjectKind,
        expected_content_id: ContentId,
        object: &EncryptedObject,
    ) -> (result: Result<Vec<u8>, CryptoError>)
        ensures
            same_bytes(result, self@.opened(expected_kind, expected_content_id, object@)),
    {
        if let Err(error) = check_object_header(expected_kind, expected_content_id, object) {
            return Err(error);
        }
        if object.ciphertext.len() as u64 > AEAD_PLAINTEXT_MAXIMUM + 16 {
            return Err(CryptoError::Authentication);
        }
        let context: Vec<u8> = associated_data(
            self.group_id,
            object.format_version,
            object.kind,
            object.content_id,
        );
        let opened: Option<Vec<u8>> = match expected_kind {
            ObjectKind::Chunk => aead_open(
                &self.chunk_encryption_key,
                &object.nonce,
                context.as_slice(),
                object.ciphertext.as_slice(),
            ),
            ObjectKind::Manifest => aead_open(
                &self.manifest_encryption_key,
                &object.nonce,
                context.as_slice(),
                object.ciphertext.as_slice(),
            ),
        };
        match opened {
            Some(plaintext) => {
                let identified_as: ContentId = self.identify(expected_kind, plaintext.as_slice());
                accept_plaintext(plaintext, identified_as, expected_content_id)
            },
            None => Err(CryptoError::Authentication),
        }
    }

    /// A text that names the group and hides its keys.
    pub fn redacted(&self) -> (text: String)
        ensures
            text@ == "GroupKeys { group_id: "@ + hyphenated(self@.group_id.value)
                + ", keys: [REDACTED] }"@,
    {
        let mut text: String = "GroupKeys { group_id: ".to_owned();
        vstd::string::StringExecFns::append(&mut text, self.group_id.to_string().as_str());
        vstd::string::StringExecFns::append(&mut text, ", keys: [REDACTED] }");
        text
    }
}

/// The result of an exec function and that of a spec function hold the same bytes or error.
pub open spec fn same_bytes<E>(result: Result<Vec<u8>, E>, expected: Result<Seq<u8>, E>) -> bool {
    match (result, expected) {
        (Ok(bytes), Ok(model)) => bytes@ == model,
        (Err(error), Err(model)) => error == model,
        _ => false,
    }
}

/// `object` is the encryption of `plaintext` under the given nonce and identifier. It opens to
/// `plaintext` wherever the identifier is that of the plaintext.
pub open spec fn is_sealed_with(
    keys: KeysView,
    kind: ObjectKind,
    content_id: ContentId,
    nonce: Seq<u8>,
    plaintext: Seq<u8>,
    object: ObjectView,
) -> bool {
    &&& object == ObjectView {
        format_version: ENCRYPTED_OBJECT_FORMAT_VERSION,
        kind,
        content_id,
        nonce,
        ciphertext: aead_sealed(
            keys.encryption_key(kind),
            nonce,
            object_context(keys.group_id, ENCRYPTED_OBJECT_FORMAT_VERSION, kind, content_id),
            plaintext,
        ),
    }
    &&& object.nonce.len() == 24
    &&& object.ciphertext.len() == plaintext.len() + 16
    &&& keys.opened(kind, content_id, object) == if keys.content_id(kind, plaintext)
        == content_id {
        Ok::<Seq<u8>, CryptoError>(plaintext)
    } else {
        Err(CryptoError::ContentIdMismatch)
    }
}

/// What sealing `plaintext` gives: an object that opens to `plaintext`, unless there is no
/// randomness or the plaintext is too long.
pub open spec fn is_sealed(
    keys: KeysView,
    kind: ObjectKind,
    plaintext: Seq<u8>,
    result: Result<EncryptedObject, CryptoError>,
) -> bool {
    match result {
        Ok(object) => plaintext.len() < aead_limit() && is_sealed_with(
            keys,
            kind,
            keys.content_id(kind, plaintext),
            object@.nonce,
            plaintext,
            object@,
        ),
        Err(error) => error == CryptoError::Randomness || (error == CryptoError::Encryption
            && plaintext.len() >= aead_limit()),
    }
}

/// What was sealed under the identifier of its plaintext opens to that plaintext, as the same
/// kind and under the same identifier.
pub proof fn law_sealed_object_opens(
    keys: KeysView,
    kind: ObjectKind,
    nonce: Seq<u8>,
    plaintext: Seq<u8>,
    object: ObjectView,
)
    requires
        is_sealed_with(keys, kind, keys.content_id(kind, plaintext), nonce, plaintext, object),
    ensures
        keys.opened(kind, keys.content_id(kind, plaintext), object) == Ok::<Seq<u8>, CryptoError>(
            plaintext,
        ),
{
}

/// Whatever opens is what its identifier says: opening never gives a plaintext with another
/// identifier.
pub proof fn law_opened_plaintext_has_its_identifier(
    keys: KeysView,
    kind: ObjectKind,
    content_id: ContentId,
    object: ObjectView,
)
    requires
        keys.opened(kind, content_id, object) is Ok,
    ensures
        keys.content_id(kind, keys.opened(kind, content_id, object)->Ok_0) == content_id,
        object.content_id == content_id,
        object.kind == kind,
{
}

/// The context of an object determines the group, the kind and the identifier: an object that was
/// sealed for one is authenticated for no other.
pub proof fn law_object_context_binds_its_parts(
    group_id: GroupId,
    kind: ObjectKind,
    content_id: ContentId,
    other_group_id: GroupId,
    other_kind: ObjectKind,
    other_content_id: ContentId,
)
    requires
        object_context(group_id, ENCRYPTED_OBJECT_FORMAT_VERSION, kind, content_id)
            == object_context(
            other_group_id,
            ENCRYPTED_OBJECT_FORMAT_VERSION,
            other_kind,
            other_content_id,
        ),
    ensures
        group_id == other_group_id,
        kind == other_kind,
        content_id == other_content_id,
{
    let one = object_context(group_id, ENCRYPTED_OBJECT_FORMAT_VERSION, kind, content_id);
    let two = object_context(
        other_group_id,
        ENCRYPTED_OBJECT_FORMAT_VERSION,
        other_kind,
        other_content_id,
    );
    let start = "orbit/encrypted-object".spec_bytes().len() as int + 4;
    lemma_uuid_bytes(group_id.value);
    lemma_uuid_bytes(other_group_id.value);
    lemma_be_bytes_len(ENCRYPTED_OBJECT_FORMAT_VERSION as nat, 2);
    content_id.lemma_view();
    other_content_id.lemma_view();
    assert(one.subrange(start, start + 16) =~= uuid_bytes(group_id.value));
    assert(two.subrange(start, start + 16) =~= uuid_bytes(other_group_id.value));
    assert(one[start + 18] == kind.byte());
    assert(two[start + 18] == other_kind.byte());
    assert(one.subrange(start + 20, start + 52) =~= content_id@);
    assert(two.subrange(start + 20, start + 52) =~= other_content_id@);
}

} // verus!
