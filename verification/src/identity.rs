//! Device identities and what they sign.
use vstd::prelude::*;
use vstd::string::StringSliceAdditionalSpecFns;

use crate::bytes::{append_bytes, be_bytes, be_encode, bytes_equal, lemma_be_bytes_len};
use crate::crypto::{
    blake3_digest, blake3_hash, ed25519_key_is_valid, ed25519_neutral, ed25519_public,
    ed25519_public_key, ed25519_sign, ed25519_signed, ed25519_valid_key, ed25519_verified,
    ed25519_verify, random_bytes,
};
use crate::ids::{
    array_of, lemma_uuid_bytes, uuid_bytes, uuid_of_bytes, ContentId, DeviceId, GroupId,
    RevisionId,
};

verus! {

pub const DEVICE_PUBLIC_KEY_SIZE: usize = 32;

pub const CHANGE_SIGNATURE_SIZE: usize = 64;

pub const SESSION_SIGNATURE_SIZE: usize = 64;

#[derive(Clone, Copy, Debug, PartialEq, Eq, Structural)]
pub enum IdentityError {
    Randomness,
    InvalidPublicKey,
    AuthorKeyMismatch { expected: DeviceId, actual: DeviceId },
    InvalidSignature,
}

/// The first sixteen bytes of a digest, marked as an identifier of the given version.
pub open spec fn stamped(digest: Seq<u8>, version: u8) -> Seq<u8> {
    digest.take(16).update(6, (digest[6] & 0x0fu8) | version).update(
        8,
        (digest[8] & 0x3fu8) | 0x80u8,
    )
}

/// The identifier that a digest gives, marked with the given version.
pub fn stamped_uuid(digest: &[u8; 32], version: u8) -> (value: u128)
    ensures
        value == uuid_of_bytes(stamped(digest@, version)),
{
    let mut bytes: Vec<u8> = Vec::new();
    append_bytes(&mut bytes, vstd::slice::slice_subrange(digest.as_slice(), 0, 16));
    let sixth: u8 = (digest[6] & 0x0fu8) | version;
    let eighth: u8 = (digest[8] & 0x3fu8) | 0x80u8;
    bytes[6] = sixth;
    bytes[8] = eighth;
    assert(bytes@ =~= stamped(digest@, version));
    DeviceId::from_bytes(bytes.as_slice()).value
}

/// What the digest for a device identifier is taken of.
pub open spec fn device_id_input(key: Seq<u8>) -> Seq<u8> {
    "orbit/device-id/v1".spec_bytes() + key
}

/// The identifier of the device with a given public key.
pub open spec fn device_id_of(key: Seq<u8>) -> DeviceId {
    DeviceId { value: uuid_of_bytes(stamped(blake3_digest(device_id_input(key)), 0x80)) }
}

/// The device identifier that a digest gives.
pub fn device_id_from_digest(digest: &[u8; 32]) -> (id: DeviceId)
    ensures
        id.value == uuid_of_bytes(stamped(digest@, 0x80)),
{
    DeviceId { value: stamped_uuid(digest, 0x80) }
}

/// What a device signs to authorize a change: the group, the author, the revision and the content.
pub open spec fn change_message(
    group_id: GroupId,
    author_device_id: DeviceId,
    revision_id: RevisionId,
    content_id: ContentId,
) -> Seq<u8> {
    "orbit/change-signature/v1".spec_bytes() + uuid_bytes(group_id.value) + uuid_bytes(
        author_device_id.value,
    ) + uuid_bytes(revision_id.value) + content_id@
}

/// What a device signs to authorize a session: itself and the transcript, with its length.
pub open spec fn session_message(author_device_id: DeviceId, transcript: Seq<u8>) -> Seq<u8> {
    "orbit/session-signature/v1".spec_bytes() + uuid_bytes(author_device_id.value) + be_bytes(
        transcript.len(),
        8,
    ) + transcript
}

/// A signature for one change authorizes no other: what is signed determines the group, the
/// author, the revision and the content.
pub proof fn law_change_message_binds_its_parts(
    group_id: GroupId,
    author: DeviceId,
    revision_id: RevisionId,
    content_id: ContentId,
    other_group_id: GroupId,
    other_author: DeviceId,
    other_revision_id: RevisionId,
    other_content_id: ContentId,
)
    requires
        change_message(group_id, author, revision_id, content_id) == change_message(
            other_group_id,
            other_author,
            other_revision_id,
            other_content_id,
        ),
    ensures
        group_id == other_group_id,
        author == other_author,
        revision_id == other_revision_id,
        content_id == other_content_id,
{
    let domain = "orbit/change-signature/v1".spec_bytes();
    let one = change_message(group_id, author, revision_id, content_id);
    let two = change_message(other_group_id, other_author, other_revision_id, other_content_id);
    lemma_uuid_bytes(group_id.value);
    lemma_uuid_bytes(author.value);
    lemma_uuid_bytes(revision_id.value);
    content_id.lemma_view();
    lemma_uuid_bytes(other_group_id.value);
    lemma_uuid_bytes(other_author.value);
    lemma_uuid_bytes(other_revision_id.value);
    other_content_id.lemma_view();
    let start = domain.len() as int;
    assert(one.subrange(start, start + 16) =~= uuid_bytes(group_id.value));
    assert(two.subrange(start, start + 16) =~= uuid_bytes(other_group_id.value));
    assert(one.subrange(start + 16, start + 32) =~= uuid_bytes(author.value));
    assert(two.subrange(start + 16, start + 32) =~= uuid_bytes(other_author.value));
    assert(one.subrange(start + 32, start + 48) =~= uuid_bytes(revision_id.value));
    assert(two.subrange(start + 32, start + 48) =~= uuid_bytes(other_revision_id.value));
    assert(one.subrange(start + 48, start + 80) =~= content_id@);
    assert(two.subrange(start + 48, start + 80) =~= other_content_id@);
}

/// A signature for one session authorizes no other: what is signed determines the author and the
/// transcript.
pub proof fn law_session_message_binds_its_parts(
    author: DeviceId,
    transcript: Seq<u8>,
    other_author: DeviceId,
    other_transcript: Seq<u8>,
)
    requires
        session_message(author, transcript) == session_message(other_author, other_transcript),
    ensures
        author == other_author,
        transcript == other_transcript,
{
    let domain = "orbit/session-signature/v1".spec_bytes();
    let one = session_message(author, transcript);
    let two = session_message(other_author, other_transcript);
    lemma_uuid_bytes(author.value);
    lemma_uuid_bytes(other_author.value);
    lemma_be_bytes_len(transcript.len(), 8);
    lemma_be_bytes_len(other_transcript.len(), 8);
    let start = domain.len() as int;
    assert(one.subrange(start, start + 16) =~= uuid_bytes(author.value));
    assert(two.subrange(start, start + 16) =~= uuid_bytes(other_author.value));
    assert(one.skip(start + 24) =~= transcript);
    assert(two.skip(start + 24) =~= other_transcript);
}

/// What a device signs to authorize a change.
pub fn change_signature_message(
    group_id: GroupId,
    author_device_id: DeviceId,
    revision_id: RevisionId,
    content_id: ContentId,
) -> (message: Vec<u8>)
    ensures
        message@ == change_message(group_id, author_device_id, revision_id, content_id),
{
    let mut message: Vec<u8> = Vec::new();
    append_bytes(&mut message, "orbit/change-signature/v1".as_bytes());
    append_bytes(&mut message, group_id.to_bytes().as_slice());
    append_bytes(&mut message, author_device_id.to_bytes().as_slice());
    append_bytes(&mut message, revision_id.to_bytes().as_slice());
    append_bytes(&mut message, content_id.as_bytes().as_slice());
    assert(message@ =~= change_message(group_id, author_device_id, revision_id, content_id));
    message
}

/// What a device signs to authorize a session.
pub fn session_signature_message(author_device_id: DeviceId, transcript: &[u8]) -> (message: Vec<
    u8,
>)
    ensures
        message@ == session_message(author_device_id, transcript@),
{
    let mut message: Vec<u8> = Vec::new();
    append_bytes(&mut message, "orbit/session-signature/v1".as_bytes());
    append_bytes(&mut message, author_device_id.to_bytes().as_slice());
    append_bytes(&mut message, be_encode(transcript.len() as u128, 8).as_slice());
    append_bytes(&mut message, transcript);
    assert(message@ =~= session_message(author_device_id, transcript@));
    message
}

/// A device's secret key.
pub struct DeviceIdentity {
    secret: [u8; 32],
}

impl DeviceIdentity {
    /// The bytes of the secret key.
    pub closed spec fn secret(self) -> Seq<u8> {
        self.secret@
    }

    /// The bytes of the public key.
    pub open spec fn key(self) -> Seq<u8> {
        ed25519_public(self.secret())
    }

    /// A fresh random identity.
    pub fn generate() -> (result: Result<Self, IdentityError>)
        ensures
            result matches Err(error) ==> error == IdentityError::Randomness,
    {
        match random_bytes(32) {
            Some(secret) => Ok(DeviceIdentity::from_secret_bytes(array_of(secret.as_slice()))),
            None => Err(IdentityError::Randomness),
        }
    }

    /// The identity with the given secret key.
    pub fn from_secret_bytes(secret: [u8; 32]) -> (identity: Self)
        ensures
            identity.secret() == secret@,
    {
        DeviceIdentity { secret }
    }

    pub fn public_key(&self) -> (key: DevicePublicKey)
        ensures
            key@ == self.key(),
            ed25519_valid_key(key@),
    {
        DevicePublicKey { bytes: ed25519_public_key(&self.secret) }
    }

    pub fn device_id(&self) -> (id: DeviceId)
        ensures
            id == device_id_of(self.key()),
    {
        self.public_key().device_id()
    }

    /// Signs a change.
    pub fn authorize_change(
        &self,
        group_id: GroupId,
        revision_id: RevisionId,
        content_id: ContentId,
    ) -> (authorization: ChangeAuthorization)
        ensures
            authorization.author_device_id == device_id_of(self.key()),
            authorization.signature@ == ed25519_signed(
                self.secret(),
                change_message(group_id, device_id_of(self.key()), revision_id, content_id),
            ),
            authorization.signature@.take(32) != ed25519_neutral() ==> change_verified(
                self.key(),
                group_id,
                revision_id,
                content_id,
                authorization@,
            ) is Ok,
    {
        let author_device_id: DeviceId = self.device_id();
        let message: Vec<u8> = change_signature_message(
            group_id,
            author_device_id,
            revision_id,
            content_id,
        );
        let key: DevicePublicKey = self.public_key();
        let signature: [u8; 64] = ed25519_sign(&self.secret, message.as_slice());
        ChangeAuthorization { author_device_id, signature: ChangeSignature { bytes: signature } }
    }

    /// Signs a session.
    pub fn authorize_session(&self, transcript: &[u8]) -> (authorization: SessionAuthorization)
        ensures
            authorization.author_device_id == device_id_of(self.key()),
            authorization.signature@ == ed25519_signed(
                self.secret(),
                session_message(device_id_of(self.key()), transcript@),
            ),
            authorization.signature@.take(32) != ed25519_neutral() ==> session_verified(
                self.key(),
                transcript@,
                authorization@,
            ) is Ok,
    {
        let author_device_id: DeviceId = self.device_id();
        let message: Vec<u8> = session_signature_message(author_device_id, transcript);
        let key: DevicePublicKey = self.public_key();
        let signature: [u8; 64] = ed25519_sign(&self.secret, message.as_slice());
        SessionAuthorization { author_device_id, signature: SessionSignature { bytes: signature } }
    }

    /// A text that names the device and hides its secret key.
    pub fn redacted(&self) -> (text: String)
        ensures
            text@ == "DeviceIdentity { device_id: "@ + crate::ids::hyphenated(
                device_id_of(self.key()).value,
            ) + ", signing_key: [REDACTED] }"@,
    {
        let mut text: String = "DeviceIdentity { device_id: ".to_owned();
        vstd::string::StringExecFns::append(&mut text, self.device_id().to_string().as_str());
        vstd::string::StringExecFns::append(&mut text, ", signing_key: [REDACTED] }");
        text
    }
}

/// A device's public key.
#[derive(Clone, Copy, Debug, Eq, PartialOrd, Ord, Hash)]
pub struct DevicePublicKey {
    bytes: [u8; 32],
}

impl View for DevicePublicKey {
    type V = Seq<u8>;

    closed spec fn view(&self) -> Seq<u8> {
        self.bytes@
    }
}

/// Two public keys are equal exactly where their bytes are.
pub proof fn lemma_public_key_ext(left: DevicePublicKey, right: DevicePublicKey)
    ensures
        (left@ == right@) == (left == right),
        left@.len() == 32,
{
    if left@ == right@ {
        assert(left.bytes =~= right.bytes);
    }
}

impl PartialEq for DevicePublicKey {
    fn eq(&self, other: &Self) -> (equal: bool) {
        proof {
            lemma_public_key_ext(*self, *other);
        }
        bytes_equal(self.bytes.as_slice(), other.bytes.as_slice())
    }
}

impl vstd::std_specs::cmp::PartialEqSpecImpl for DevicePublicKey {
    open spec fn obeys_eq_spec() -> bool {
        true
    }

    open spec fn eq_spec(&self, other: &Self) -> bool {
        *self == *other
    }
}

/// Who authorizes something, and the signature.
pub struct AuthorizationView {
    pub author_device_id: DeviceId,
    pub signature: Seq<u8>,
}

/// What the verification of a signed change gives.
pub open spec fn change_verified(
    key: Seq<u8>,
    group_id: GroupId,
    revision_id: RevisionId,
    content_id: ContentId,
    authorization: AuthorizationView,
) -> Result<(), IdentityError> {
    if authorization.author_device_id != device_id_of(key) {
        Err(
            IdentityError::AuthorKeyMismatch {
                expected: device_id_of(key),
                actual: authorization.author_device_id,
            },
        )
    } else if !ed25519_valid_key(key) {
        Err(IdentityError::InvalidPublicKey)
    } else if !ed25519_verified(
        key,
        change_message(group_id, authorization.author_device_id, revision_id, content_id),
        authorization.signature,
    ) {
        Err(IdentityError::InvalidSignature)
    } else {
        Ok(())
    }
}

/// A signed change belongs to its signer and to what was signed. The key that verifies it is that
/// of its author, every key of another device is refused, and held against another group, revision
/// or content it stands or falls with a signature of another message.
pub proof fn law_verified_change_belongs_to_its_author(
    key: Seq<u8>,
    group_id: GroupId,
    revision_id: RevisionId,
    content_id: ContentId,
    authorization: AuthorizationView,
    other_key: Seq<u8>,
    other_group_id: GroupId,
    other_revision_id: RevisionId,
    other_content_id: ContentId,
)
    requires
        change_verified(key, group_id, revision_id, content_id, authorization) is Ok,
    ensures
        authorization.author_device_id == device_id_of(key),
        device_id_of(other_key) != device_id_of(key) ==> change_verified(
            other_key,
            group_id,
            revision_id,
            content_id,
            authorization,
        ) == Err::<(), IdentityError>(
            IdentityError::AuthorKeyMismatch {
                expected: device_id_of(other_key),
                actual: device_id_of(key),
            },
        ),
        (other_group_id, other_revision_id, other_content_id) != (
            group_id,
            revision_id,
            content_id,
        ) ==> {
            let author = authorization.author_device_id;
            let other = change_message(
                other_group_id,
                author,
                other_revision_id,
                other_content_id,
            );
            &&& other != change_message(group_id, author, revision_id, content_id)
            &&& change_verified(
                key,
                other_group_id,
                other_revision_id,
                other_content_id,
                authorization,
            ) == if ed25519_verified(key, other, authorization.signature) {
                Ok(())
            } else {
                Err(IdentityError::InvalidSignature)
            }
        },
{
    let author = authorization.author_device_id;
    if change_message(group_id, author, revision_id, content_id) == change_message(
        other_group_id,
        author,
        other_revision_id,
        other_content_id,
    ) {
        law_change_message_binds_its_parts(
            group_id,
            author,
            revision_id,
            content_id,
            other_group_id,
            author,
            other_revision_id,
            other_content_id,
        );
    }
}

/// What the verification of a signed session gives.
pub open spec fn session_verified(
    key: Seq<u8>,
    transcript: Seq<u8>,
    authorization: AuthorizationView,
) -> Result<(), IdentityError> {
    if authorization.author_device_id != device_id_of(key) {
        Err(
            IdentityError::AuthorKeyMismatch {
                expected: device_id_of(key),
                actual: authorization.author_device_id,
            },
        )
    } else if !ed25519_valid_key(key) {
        Err(IdentityError::InvalidPublicKey)
    } else if !ed25519_verified(
        key,
        session_message(authorization.author_device_id, transcript),
        authorization.signature,
    ) {
        Err(IdentityError::InvalidSignature)
    } else {
        Ok(())
    }
}

/// The verdict on a signature, from what is known of the author, the key and the signature.
pub fn signature_verdict(
    expected_author: DeviceId,
    claimed_author: DeviceId,
    key_is_valid: bool,
    signature_is_valid: bool,
) -> (result: Result<(), IdentityError>)
    ensures
        result == if claimed_author != expected_author {
            Err::<(), IdentityError>(
                IdentityError::AuthorKeyMismatch {
                    expected: expected_author,
                    actual: claimed_author,
                },
            )
        } else if !key_is_valid {
            Err(IdentityError::InvalidPublicKey)
        } else if !signature_is_valid {
            Err(IdentityError::InvalidSignature)
        } else {
            Ok(())
        },
{
    if claimed_author != expected_author {
        return Err(
            IdentityError::AuthorKeyMismatch { expected: expected_author, actual: claimed_author },
        );
    }
    if !key_is_valid {
        return Err(IdentityError::InvalidPublicKey);
    }
    if !signature_is_valid {
        return Err(IdentityError::InvalidSignature);
    }
    Ok(())
}

impl DevicePublicKey {
    /// The public key with the given bytes, where they encode a curve point.
    pub fn from_bytes(bytes: [u8; 32]) -> (result: Result<Self, IdentityError>)
        ensures
            match result {
                Ok(key) => ed25519_valid_key(bytes@) && key@ == bytes@,
                Err(error) => !ed25519_valid_key(bytes@) && error
                    == IdentityError::InvalidPublicKey,
            },
    {
        if ed25519_key_is_valid(&bytes) {
            Ok(DevicePublicKey { bytes })
        } else {
            Err(IdentityError::InvalidPublicKey)
        }
    }

    pub fn as_bytes(&self) -> (bytes: &[u8; 32])
        ensures
            bytes@ == self@,
    {
        &self.bytes
    }

    /// The identifier of the device with this public key.
    pub fn device_id(self) -> (id: DeviceId)
        ensures
            id == device_id_of(self@),
    {
        let mut input: Vec<u8> = Vec::new();
        append_bytes(&mut input, "orbit/device-id/v1".as_bytes());
        append_bytes(&mut input, self.bytes.as_slice());
        assert(input@ =~= device_id_input(self@));
        device_id_from_digest(&blake3_hash(input.as_slice()))
    }

    /// Verifies a signed change.
    pub fn verify_change(
        self,
        group_id: GroupId,
        revision_id: RevisionId,
        content_id: ContentId,
        authorization: ChangeAuthorization,
    ) -> (result: Result<(), IdentityError>)
        ensures
            result == change_verified(self@, group_id, revision_id, content_id, authorization@),
    {
        let message: Vec<u8> = change_signature_message(
            group_id,
            authorization.author_device_id,
            revision_id,
            content_id,
        );
        signature_verdict(
            self.device_id(),
            authorization.author_device_id,
            ed25519_key_is_valid(&self.bytes),
            ed25519_verify(&self.bytes, message.as_slice(), &authorization.signature.bytes),
        )
    }

    /// Verifies a signed session.
    pub fn verify_session(self, transcript: &[u8], authorization: SessionAuthorization) -> (result:
        Result<(), IdentityError>)
        ensures
            result == session_verified(self@, transcript@, authorization@),
    {
        let message: Vec<u8> = session_signature_message(
            authorization.author_device_id,
            transcript,
        );
        signature_verdict(
            self.device_id(),
            authorization.author_device_id,
            ed25519_key_is_valid(&self.bytes),
            ed25519_verify(&self.bytes, message.as_slice(), &authorization.signature.bytes),
        )
    }
}

/// Sixty-four bytes as an array.
pub fn signature_of(bytes: &[u8]) -> (array: [u8; 64])
    requires
        bytes@.len() == 64,
    ensures
        array@ == bytes@,
{
    let mut array: [u8; 64] = [0u8; 64];
    let mut index: usize = 0;
    while index < 64
        invariant
            index <= 64,
            bytes@.len() == 64,
            forall|i: int| 0 <= i < index ==> array@[i] == bytes@[i],
        decreases 64 - index,
    {
        array[index] = bytes[index];
        index += 1;
    }
    assert(array@ =~= bytes@);
    array
}

/// A device's signature of a change.
#[derive(Clone, Copy, Debug, Eq, Hash)]
pub struct ChangeSignature {
    pub bytes: [u8; 64],
}

impl View for ChangeSignature {
    type V = Seq<u8>;

    open spec fn view(&self) -> Seq<u8> {
        self.bytes@
    }
}

impl PartialEq for ChangeSignature {
    fn eq(&self, other: &Self) -> (equal: bool) {
        let equal: bool = bytes_equal(self.bytes.as_slice(), other.bytes.as_slice());
        proof {
            if self.bytes@ == other.bytes@ {
                assert(self.bytes =~= other.bytes);
            }
        }
        equal
    }
}

impl vstd::std_specs::cmp::PartialEqSpecImpl for ChangeSignature {
    open spec fn obeys_eq_spec() -> bool {
        true
    }

    open spec fn eq_spec(&self, other: &Self) -> bool {
        *self == *other
    }
}

impl ChangeSignature {
    pub fn from_bytes(bytes: [u8; 64]) -> (signature: Self)
        ensures
            signature.bytes == bytes,
    {
        ChangeSignature { bytes }
    }

    pub fn as_bytes(&self) -> (bytes: &[u8; 64])
        ensures
            *bytes == self.bytes,
    {
        &self.bytes
    }
}

/// Who authorizes a change, and the signature.
#[derive(Clone, Copy, Debug, Eq, Hash)]
pub struct ChangeAuthorization {
    pub author_device_id: DeviceId,
    pub signature: ChangeSignature,
}

impl View for ChangeAuthorization {
    type V = AuthorizationView;

    open spec fn view(&self) -> AuthorizationView {
        AuthorizationView {
            author_device_id: self.author_device_id,
            signature: self.signature@,
        }
    }
}

impl PartialEq for ChangeAuthorization {
    fn eq(&self, other: &Self) -> (equal: bool) {
        self.author_device_id == other.author_device_id && self.signature == other.signature
    }
}

impl vstd::std_specs::cmp::PartialEqSpecImpl for ChangeAuthorization {
    open spec fn obeys_eq_spec() -> bool {
        true
    }

    open spec fn eq_spec(&self, other: &Self) -> bool {
        *self == *other
    }
}

/// A device's signature of a session.
#[derive(Clone, Copy, Debug, PartialEq, Eq, Hash)]
pub struct SessionSignature {
    pub bytes: [u8; 64],
}

impl View for SessionSignature {
    type V = Seq<u8>;

    open spec fn view(&self) -> Seq<u8> {
        self.bytes@
    }
}

impl SessionSignature {
    pub fn from_bytes(bytes: [u8; 64]) -> (signature: Self)
        ensures
            signature.bytes == bytes,
    {
        SessionSignature { bytes }
    }

    pub fn as_bytes(&self) -> (bytes: &[u8; 64])
        ensures
            *bytes == self.bytes,
    {
        &self.bytes
    }
}

/// Who authorizes a session, and the signature.
#[derive(Clone, Copy, Debug, PartialEq, Eq, Hash)]
pub struct SessionAuthorization {
    pub author_device_id: DeviceId,
    pub signature: SessionSignature,
}

impl View for SessionAuthorization {
    type V = AuthorizationView;

    open spec fn view(&self) -> AuthorizationView {
        AuthorizationView {
            author_device_id: self.author_device_id,
            signature: self.signature@,
        }
    }
}

} // verus!
