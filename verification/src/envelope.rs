//! The envelope of an encrypted object.
use vstd::prelude::*;

use crate::bytes::{
    append_bytes, be_bytes, be_decode, be_encode, be_value, bytes_equal, lemma_be_bounds,
    lemma_be_bytes_len, lemma_be_bytes_of_be_value, lemma_be_value_of_be_bytes,
};
use crate::ids::{array_of, ContentId};

verus! {

pub const ENCRYPTED_OBJECT_FORMAT_VERSION: u16 = 1;

pub const ENCRYPTED_OBJECT_HEADER_SIZE: usize = 72;

pub const NONCE_SIZE: usize = 24;

pub const AUTHENTICATION_TAG_SIZE: usize = 16;

pub const ENVELOPE_FLAGS: u8 = 0;

/// The four bytes that every envelope starts with, the text `ORBT`.
pub open spec fn envelope_magic() -> Seq<u8> {
    seq![79u8, 82u8, 66u8, 84u8]
}

/// The bytes that every envelope starts with.
pub fn envelope_magic_bytes() -> (magic: [u8; 4])
    ensures
        magic@ == envelope_magic(),
{
    let magic: [u8; 4] = [79u8, 82u8, 66u8, 84u8];
    assert(magic@ =~= envelope_magic());
    magic
}

#[derive(Clone, Copy, Debug, PartialEq, Eq, Structural)]
pub enum ObjectKind {
    Chunk,
    Manifest,
}

impl ObjectKind {
    /// The byte that stands for the kind.
    pub open spec fn byte(self) -> u8 {
        match self {
            ObjectKind::Chunk => 1,
            ObjectKind::Manifest => 2,
        }
    }

    /// The kind that a byte stands for.
    pub open spec fn of_byte(value: u8) -> Option<ObjectKind> {
        if value == 1 {
            Some(ObjectKind::Chunk)
        } else if value == 2 {
            Some(ObjectKind::Manifest)
        } else {
            None
        }
    }

    pub fn to_byte(self) -> (value: u8)
        ensures
            value == self.byte(),
    {
        match self {
            ObjectKind::Chunk => 1,
            ObjectKind::Manifest => 2,
        }
    }

    pub fn from_byte(value: u8) -> (result: Result<Self, EnvelopeError>)
        ensures
            result == match ObjectKind::of_byte(value) {
                Some(kind) => Ok::<ObjectKind, EnvelopeError>(kind),
                None => Err(EnvelopeError::UnknownObjectKind(value)),
            },
    {
        match value {
            1 => Ok(ObjectKind::Chunk),
            2 => Ok(ObjectKind::Manifest),
            _ => Err(EnvelopeError::UnknownObjectKind(value)),
        }
    }
}

#[derive(Clone, Copy, Debug, PartialEq, Eq, Structural)]
pub enum EnvelopeError {
    HeaderTooShort { actual: usize },
    InvalidMagic,
    UnsupportedFormatVersion(u16),
    UnknownObjectKind(u8),
    UnsupportedFlags(u8),
    CiphertextLengthOverflow,
    DeclaredLengthTooLarge(u64),
    LengthMismatch { declared: u64, actual: usize },
    CiphertextTooShort { actual: usize },
}

/// An object in encrypted form.
#[derive(Debug, PartialEq, Eq)]
pub struct EncryptedObject {
    pub format_version: u16,
    pub kind: ObjectKind,
    pub content_id: ContentId,
    pub nonce: [u8; 24],
    pub ciphertext: Vec<u8>,
}

/// The contents of an `EncryptedObject`.
pub struct ObjectView {
    pub format_version: u16,
    pub kind: ObjectKind,
    pub content_id: ContentId,
    pub nonce: Seq<u8>,
    pub ciphertext: Seq<u8>,
}

impl View for EncryptedObject {
    type V = ObjectView;

    open spec fn view(&self) -> ObjectView {
        ObjectView {
            format_version: self.format_version,
            kind: self.kind,
            content_id: self.content_id,
            nonce: self.nonce@,
            ciphertext: self.ciphertext@,
        }
    }
}

/// The envelope of an object: magic, format version, kind, flags, content identifier, nonce,
/// length of the ciphertext, ciphertext.
pub open spec fn envelope_bytes(object: ObjectView) -> Seq<u8> {
    envelope_header(object) + object.ciphertext
}

/// The part of an envelope before the ciphertext.
pub open spec fn envelope_header(object: ObjectView) -> Seq<u8> {
    envelope_magic() + be_bytes(object.format_version as nat, 2) + seq![
        object.kind.byte(),
        ENVELOPE_FLAGS,
    ] + object.content_id@ + object.nonce + be_bytes(object.ciphertext.len(), 8)
}

/// The object that an envelope holds, or what is wrong with the envelope.
pub open spec fn parsed_envelope(bytes: Seq<u8>) -> Result<ObjectView, EnvelopeError> {
    let version = be_value(bytes.subrange(4, 6)) as u16;
    let declared = be_value(bytes.subrange(64, 72)) as u64;
    let actual = (bytes.len() - 72) as usize;
    if bytes.len() < 72 {
        Err(EnvelopeError::HeaderTooShort { actual: bytes.len() as usize })
    } else if bytes.take(4) != envelope_magic() {
        Err(EnvelopeError::InvalidMagic)
    } else if version != ENCRYPTED_OBJECT_FORMAT_VERSION {
        Err(EnvelopeError::UnsupportedFormatVersion(version))
    } else if ObjectKind::of_byte(bytes[6]) is None {
        Err(EnvelopeError::UnknownObjectKind(bytes[6]))
    } else if bytes[7] != ENVELOPE_FLAGS {
        Err(EnvelopeError::UnsupportedFlags(bytes[7]))
    } else if declared > usize::MAX {
        Err(EnvelopeError::DeclaredLengthTooLarge(declared))
    } else if declared != actual {
        Err(EnvelopeError::LengthMismatch { declared, actual })
    } else if actual < AUTHENTICATION_TAG_SIZE {
        Err(EnvelopeError::CiphertextTooShort { actual })
    } else {
        Ok(
            ObjectView {
                format_version: version,
                kind: ObjectKind::of_byte(bytes[6])->0,
                content_id: ContentId::of_bytes(bytes.subrange(8, 40)),
                nonce: bytes.subrange(40, 64),
                ciphertext: bytes.skip(72),
            },
        )
    }
}

impl Clone for EncryptedObject {
    fn clone(&self) -> (object: Self)
        ensures
            object@ == self@,
    {
        let mut ciphertext: Vec<u8> = Vec::new();
        append_bytes(&mut ciphertext, self.ciphertext.as_slice());
        assert(ciphertext@ =~= self.ciphertext@);
        EncryptedObject {
            format_version: self.format_version,
            kind: self.kind,
            content_id: self.content_id,
            nonce: self.nonce,
            ciphertext,
        }
    }
}

impl EncryptedObject {
    pub fn format_version(&self) -> (version: u16)
        ensures
            version == self@.format_version,
    {
        self.format_version
    }

    pub fn kind(&self) -> (kind: ObjectKind)
        ensures
            kind == self@.kind,
    {
        self.kind
    }

    pub fn content_id(&self) -> (id: ContentId)
        ensures
            id == self@.content_id,
    {
        self.content_id
    }

    pub fn nonce(&self) -> (nonce: &[u8; 24])
        ensures
            nonce@ == self@.nonce,
    {
        &self.nonce
    }

    pub fn ciphertext(&self) -> (ciphertext: &[u8])
        ensures
            ciphertext@ == self@.ciphertext,
    {
        self.ciphertext.as_slice()
    }

    /// The envelope of the object.
    pub fn to_bytes(&self) -> (result: Result<Vec<u8>, EnvelopeError>)
        ensures
            match result {
                Ok(bytes) => bytes@ == envelope_bytes(self@) && self@.ciphertext.len() + 72
                    <= usize::MAX,
                Err(error) => error == EnvelopeError::CiphertextLengthOverflow
                    && self@.ciphertext.len() + 72 > usize::MAX,
            },
    {
        if self.ciphertext.len() > usize::MAX - ENCRYPTED_OBJECT_HEADER_SIZE {
            return Err(EnvelopeError::CiphertextLengthOverflow);
        }
        let mut bytes: Vec<u8> = Vec::new();
        let magic: [u8; 4] = envelope_magic_bytes();
        append_bytes(&mut bytes, magic.as_slice());
        append_bytes(&mut bytes, be_encode(self.format_version as u128, 2).as_slice());
        bytes.push(self.kind.to_byte());
        bytes.push(ENVELOPE_FLAGS);
        append_bytes(&mut bytes, self.content_id.as_bytes().as_slice());
        append_bytes(&mut bytes, self.nonce.as_slice());
        append_bytes(&mut bytes, be_encode(self.ciphertext.len() as u128, 8).as_slice());
        append_bytes(&mut bytes, self.ciphertext.as_slice());
        assert(bytes@ =~= envelope_bytes(self@));
        Ok(bytes)
    }

    /// Reads an envelope.
    pub fn from_bytes(bytes: &[u8]) -> (result: Result<Self, EnvelopeError>)
        ensures
            match result {
                Ok(object) => parsed_envelope(bytes@) == Ok::<ObjectView, EnvelopeError>(object@),
                Err(error) => parsed_envelope(bytes@) == Err::<ObjectView, EnvelopeError>(error),
            },
    {
        if bytes.len() < ENCRYPTED_OBJECT_HEADER_SIZE {
            return Err(EnvelopeError::HeaderTooShort { actual: bytes.len() });
        }
        let magic: [u8; 4] = envelope_magic_bytes();
        let start: &[u8] = vstd::slice::slice_subrange(bytes, 0, 4);
        assert(start@ =~= bytes@.take(4));
        if !bytes_equal(start, magic.as_slice()) {
            return Err(EnvelopeError::InvalidMagic);
        }
        proof {
            lemma_be_bounds();
            lemma_be_bytes_of_be_value(bytes@.subrange(4, 6));
            lemma_be_bytes_of_be_value(bytes@.subrange(64, 72));
        }
        let format_version: u16 = be_decode(vstd::slice::slice_subrange(bytes, 4, 6)) as u16;
        if format_version != ENCRYPTED_OBJECT_FORMAT_VERSION {
            return Err(EnvelopeError::UnsupportedFormatVersion(format_version));
        }
        let kind: ObjectKind = match ObjectKind::from_byte(bytes[6]) {
            Ok(kind) => kind,
            Err(error) => {
                return Err(error);
            },
        };
        if bytes[7] != ENVELOPE_FLAGS {
            return Err(EnvelopeError::UnsupportedFlags(bytes[7]));
        }
        let content_id: ContentId = ContentId::from_bytes(
            array_of(vstd::slice::slice_subrange(bytes, 8, 40)),
        );
        let nonce: [u8; 24] = nonce_of(vstd::slice::slice_subrange(bytes, 40, 64));
        let ciphertext_length: u64 = be_decode(
            vstd::slice::slice_subrange(bytes, 64, 72),
        ) as u64;
        let actual: usize = bytes.len() - ENCRYPTED_OBJECT_HEADER_SIZE;
        if ciphertext_length > usize::MAX as u64 {
            return Err(EnvelopeError::DeclaredLengthTooLarge(ciphertext_length));
        }
        if ciphertext_length as usize != actual {
            return Err(EnvelopeError::LengthMismatch { declared: ciphertext_length, actual });
        }
        if actual < AUTHENTICATION_TAG_SIZE {
            return Err(EnvelopeError::CiphertextTooShort { actual });
        }
        let rest: &[u8] = vstd::slice::slice_subrange(
            bytes,
            ENCRYPTED_OBJECT_HEADER_SIZE,
            bytes.len(),
        );
        let ciphertext: Vec<u8> = vstd::slice::slice_to_vec(rest);
        proof {
            assert(rest@ =~= bytes@.skip(72));
        }
        Ok(EncryptedObject { format_version, kind, content_id, nonce, ciphertext })
    }
}

/// Twenty-four bytes as an array.
pub fn nonce_of(bytes: &[u8]) -> (nonce: [u8; 24])
    requires
        bytes@.len() == 24,
    ensures
        nonce@ == bytes@,
{
    let mut nonce: [u8; 24] = [0u8; 24];
    let mut index: usize = 0;
    while index < 24
        invariant
            index <= 24,
            bytes@.len() == 24,
            forall|i: int| 0 <= i < index ==> nonce@[i] == bytes@[i],
        decreases 24 - index,
    {
        nonce[index] = bytes[index];
        index += 1;
    }
    assert(nonce@ =~= bytes@);
    nonce
}

/// Reading the envelope of an object gives the object back.
pub proof fn law_envelope_round_trips(object: ObjectView)
    requires
        object.format_version == ENCRYPTED_OBJECT_FORMAT_VERSION,
        object.nonce.len() == NONCE_SIZE,
        AUTHENTICATION_TAG_SIZE <= object.ciphertext.len(),
        object.ciphertext.len() + 72 <= usize::MAX,
    ensures
        parsed_envelope(envelope_bytes(object)) == Ok::<ObjectView, EnvelopeError>(object),
{
    let bytes = envelope_bytes(object);
    lemma_be_bytes_len(object.format_version as nat, 2);
    lemma_be_bytes_len(object.ciphertext.len(), 8);
    lemma_be_bounds();
    lemma_be_value_of_be_bytes(object.format_version as nat, 2);
    lemma_be_value_of_be_bytes(object.ciphertext.len(), 8);
    object.content_id.lemma_view();
    assert(bytes.take(4) =~= envelope_magic());
    assert(bytes.subrange(4, 6) =~= be_bytes(object.format_version as nat, 2));
    assert(bytes[6] == object.kind.byte());
    assert(bytes[7] == ENVELOPE_FLAGS);
    assert(bytes.subrange(8, 40) =~= object.content_id@);
    assert(bytes.subrange(40, 64) =~= object.nonce);
    assert(bytes.subrange(64, 72) =~= be_bytes(object.ciphertext.len(), 8));
    assert(bytes.skip(72) =~= object.ciphertext);
}

/// Bytes that are accepted as an envelope are the envelope of the object that they hold.
pub proof fn law_envelope_is_canonical(bytes: Seq<u8>)
    requires
        bytes.len() <= usize::MAX,
        parsed_envelope(bytes) is Ok,
    ensures
        envelope_bytes(parsed_envelope(bytes)->Ok_0) == bytes,
{
    let object = parsed_envelope(bytes)->Ok_0;
    ContentId::lemma_of_bytes(bytes.subrange(8, 40));
    lemma_be_bounds();
    lemma_be_bytes_of_be_value(bytes.subrange(4, 6));
    lemma_be_bytes_of_be_value(bytes.subrange(64, 72));
    assert(envelope_bytes(object) =~= bytes);
}

} // verus!
