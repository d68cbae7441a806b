//! The encrypted form of change records, and the files of objects.
use vstd::prelude::*;

use crate::chance::Chance;
use crate::crypto::aead_sealed;
use crate::envelope::{
    envelope_bytes, law_envelope_round_trips, parsed_envelope, EncryptedObject, EnvelopeError,
    ObjectKind, ObjectView, ENCRYPTED_OBJECT_FORMAT_VERSION,
};
use crate::ids::ContentId;
use crate::keys::{is_sealed_with, object_context, CryptoError, GroupKeys, KeysView};
use crate::manifest::{
    decode_change_record, decoded_record, encode_change_record, encoded_record,
    law_record_round_trips, ManifestError, ManifestProblem,
};
use crate::outcome::agrees;
use crate::record::{ChangeRecord, RecordView};
use crate::store::file_bytes;
use crate::table::{lookup, Key, Table};

verus! {

impl Key for ContentId {
    fn same(&self, other: &Self) -> (same: bool) {
        *self == *other
    }
}

/// The files of objects that have been read, by the objects' identifiers. An object that is not
/// among them has no file.
pub type ObjectFiles = Table<ContentId, Vec<u8>>;

/// The file of an object.
pub fn file_of(files: &ObjectFiles, content_id: ContentId) -> (file: Option<&[u8]>)
    ensures
        file_bytes(file) == lookup(files@, content_id),
{
    match files.get(content_id) {
        Some(bytes) => Some(bytes.as_slice()),
        None => None,
    }
}

/// Why a record cannot be sealed or opened.
#[derive(Clone, Debug, PartialEq, Eq)]
pub enum RecordError {
    Crypto(CryptoError),
    Envelope(EnvelopeError),
    Manifest(ManifestError),
}

/// The contents of a `RecordError`.
pub enum RecordProblem {
    Crypto(CryptoError),
    Envelope(EnvelopeError),
    Manifest(ManifestProblem),
}

impl View for RecordError {
    type V = RecordProblem;

    open spec fn view(&self) -> RecordProblem {
        match *self {
            RecordError::Crypto(error) => RecordProblem::Crypto(error),
            RecordError::Envelope(error) => RecordProblem::Envelope(error),
            RecordError::Manifest(error) => RecordProblem::Manifest(error@),
        }
    }
}

/// The record that an encrypted manifest holds.
pub open spec fn opened_record(keys: KeysView, content_id: ContentId, bytes: Seq<u8>) -> Result<
    RecordView,
    RecordProblem,
> {
    match parsed_envelope(bytes) {
        Err(error) => Err(RecordProblem::Envelope(error)),
        Ok(object) => match keys.opened(ObjectKind::Manifest, content_id, object) {
            Err(error) => Err(RecordProblem::Crypto(error)),
            Ok(plaintext) => match decoded_record(plaintext) {
                Err(problem) => Err(RecordProblem::Manifest(problem)),
                Ok(record) => Ok(record),
            },
        },
    }
}

/// Opens an encrypted manifest.
pub fn open_record(keys: &GroupKeys, content_id: ContentId, bytes: &[u8]) -> (result: Result<
    ChangeRecord,
    RecordError,
>)
    ensures
        agrees(result, opened_record(keys@, content_id, bytes@)),
{
    let object: EncryptedObject = match EncryptedObject::from_bytes(bytes) {
        Ok(object) => object,
        Err(error) => {
            return Err(RecordError::Envelope(error));
        },
    };
    let plaintext: Vec<u8> = match keys.open_manifest(content_id, &object) {
        Ok(plaintext) => plaintext,
        Err(error) => {
            return Err(RecordError::Crypto(error));
        },
    };
    match decode_change_record(plaintext.as_slice()) {
        Ok(record) => Ok(record),
        Err(error) => Err(RecordError::Manifest(error)),
    }
}

/// A record in encrypted form.
#[derive(Clone, Debug, PartialEq, Eq)]
pub struct SealedRecord {
    pub content_id: ContentId,
    pub bytes: Vec<u8>,
}

/// The contents of a `SealedRecord`.
pub struct SealedView {
    pub content_id: ContentId,
    pub bytes: Seq<u8>,
}

impl View for SealedRecord {
    type V = SealedView;

    open spec fn view(&self) -> SealedView {
        SealedView { content_id: self.content_id, bytes: self.bytes@ }
    }
}

/// The encryption of an object under a nonce.
pub open spec fn sealed_object(
    keys: KeysView,
    kind: ObjectKind,
    nonce: Seq<u8>,
    plaintext: Seq<u8>,
) -> ObjectView {
    let content_id = keys.content_id(kind, plaintext);
    ObjectView {
        format_version: ENCRYPTED_OBJECT_FORMAT_VERSION,
        kind,
        content_id,
        nonce,
        ciphertext: aead_sealed(
            keys.encryption_key(kind),
            nonce,
            object_context(keys.group_id, ENCRYPTED_OBJECT_FORMAT_VERSION, kind, content_id),
            plaintext,
        ),
    }
}

/// The encrypted form of a record under a nonce.
pub open spec fn sealed_record(keys: KeysView, record: RecordView, nonce: Seq<u8>) -> Result<
    SealedView,
    RecordProblem,
> {
    match encoded_record(record) {
        Err(problem) => Err(RecordProblem::Manifest(problem)),
        Ok(plaintext) => Ok(
            SealedView {
                content_id: keys.content_id(ObjectKind::Manifest, plaintext),
                bytes: envelope_bytes(
                    sealed_object(keys, ObjectKind::Manifest, nonce, plaintext),
                ),
            },
        ),
    }
}

/// Each device of the record's version has an identifier that is not all zeros.
pub open spec fn has_named_devices(record: RecordView) -> bool {
    forall|i: int| 0 <= i < record.version().len() ==> (#[trigger] record.version()[i]).0.value != 0
}

/// The sealed form opens to the record.
pub open spec fn opens_to(keys: KeysView, sealed: SealedView, record: RecordView) -> bool {
    opened_record(keys, sealed.content_id, sealed.bytes) == Ok::<RecordView, RecordProblem>(record)
}

proof fn lemma_opens_to(keys: KeysView, record: RecordView, object: ObjectView)
    requires
        record.wf(),
        has_named_devices(record),
        encoded_record(record) is Ok,
        is_sealed_with(
            keys,
            ObjectKind::Manifest,
            keys.content_id(ObjectKind::Manifest, encoded_record(record)->Ok_0),
            object.nonce,
            encoded_record(record)->Ok_0,
            object,
        ),
        object.ciphertext.len() + 72 <= usize::MAX,
    ensures
        opens_to(
            keys,
            SealedView { content_id: object.content_id, bytes: envelope_bytes(object) },
            record,
        ),
{
    law_envelope_round_trips(object);
    law_record_round_trips(record);
}

/// `result` is what sealing a record under a fresh nonce gives.
pub open spec fn is_sealed_record(
    keys: KeysView,
    record: RecordView,
    result: Result<SealedView, RecordProblem>,
) -> bool {
    match encoded_record(record) {
        Err(problem) => result == Err::<SealedView, RecordProblem>(
            RecordProblem::Manifest(problem),
        ),
        Ok(_) => {
            ||| result == Err::<SealedView, RecordProblem>(
                RecordProblem::Crypto(CryptoError::Randomness),
            )
            ||| exists|nonce: Seq<u8>|
                nonce.len() == 24 && result == #[trigger] sealed_record(keys, record, nonce)
        },
    }
}

/// Seals a record under a fresh nonce.
pub fn seal_fresh_record(keys: &GroupKeys, record: &ChangeRecord) -> (result: Result<
    SealedRecord,
    RecordError,
>)
    ensures
        is_sealed_record(
            keys@,
            record@,
            match result {
                Ok(sealed) => Ok(sealed@),
                Err(error) => Err(error@),
            },
        ),
        result matches Ok(sealed) ==> has_named_devices(record@) ==> opens_to(
            keys@,
            sealed@,
            record@,
        ),
{
    let plaintext: Vec<u8> = match encode_change_record(record) {
        Ok(plaintext) => plaintext,
        Err(error) => {
            return Err(RecordError::Manifest(error));
        },
    };
    let object: EncryptedObject = match keys.seal_manifest(plaintext.as_slice()) {
        Ok(object) => object,
        Err(error) => {
            return Err(RecordError::Crypto(error));
        },
    };
    let content_id: ContentId = object.content_id();
    match object.to_bytes() {
        Ok(bytes) => {
            let sealed: SealedRecord = SealedRecord { content_id, bytes };
            proof {
                assert(sealed_record(keys@, record@, object@.nonce) == Ok::<
                    SealedView,
                    RecordProblem,
                >(sealed@));
                if has_named_devices(record@) {
                    lemma_opens_to(keys@, record@, object@);
                }
            }
            Ok(sealed)
        },
        Err(error) => Err(RecordError::Envelope(error)),
    }
}

/// Seals a record under a nonce.
pub fn seal_record(keys: &GroupKeys, record: &ChangeRecord, nonce: [u8; 24]) -> (result: Result<
    SealedRecord,
    RecordError,
>)
    ensures
        agrees(result, sealed_record(keys@, record@, nonce@)),
        result matches Ok(sealed) ==> has_named_devices(record@) ==> opens_to(
            keys@,
            sealed@,
            record@,
        ),
{
    let plaintext: Vec<u8> = match encode_change_record(record) {
        Ok(plaintext) => plaintext,
        Err(error) => {
            return Err(RecordError::Manifest(error));
        },
    };
    let content_id: ContentId = keys.identify_manifest(plaintext.as_slice());
    let object: EncryptedObject = match keys.seal_with_nonce(
        ObjectKind::Manifest,
        content_id,
        nonce,
        plaintext.as_slice(),
    ) {
        Ok(object) => object,
        Err(error) => {
            return Err(RecordError::Crypto(error));
        },
    };
    match object.to_bytes() {
        Ok(bytes) => {
            proof {
                if has_named_devices(record@) {
                    lemma_opens_to(keys@, record@, object@);
                }
            }
            Ok(SealedRecord { content_id, bytes })
        },
        Err(error) => Err(RecordError::Envelope(error)),
    }
}

/// The encrypted form of a record under the nonce that chance gives.
pub open spec fn sealed_by(keys: KeysView, record: RecordView, nonce: Option<Seq<u8>>) -> Result<
    SealedView,
    RecordProblem,
> {
    match (encoded_record(record), nonce) {
        (Ok(_), None) => Err(RecordProblem::Crypto(CryptoError::Randomness)),
        _ => sealed_record(keys, record, nonce->0),
    }
}

/// Seals a record under the nonce that chance gives. Chance is asked once the record is encoded.
pub fn seal_by(keys: &GroupKeys, record: &ChangeRecord, chance: &Chance) -> (result: Result<
    SealedRecord,
    RecordError,
>)
    ensures
        exists|nonce: Option<Seq<u8>>|
            chance.allows_nonce(nonce) && agrees(
                result,
                #[trigger] sealed_by(keys@, record@, nonce),
            ),
{
    let ghost unasked = sealed_by(keys@, record@, chance.unasked().nonce);
    assert(chance.allows_nonce(chance.unasked().nonce));
    match chance {
        Chance::Given(draw) => match draw.nonce {
            Some(nonce) => seal_record(keys, record, nonce),
            None => match encode_change_record(record) {
                Ok(_) => Err(RecordError::Crypto(CryptoError::Randomness)),
                Err(error) => Err(RecordError::Manifest(error)),
            },
        },
        Chance::Fresh => {
            let result: Result<SealedRecord, RecordError> = seal_fresh_record(keys, record);
            proof {
                let view = match &result {
                    Ok(sealed) => Ok(sealed@),
                    Err(error) => Err(error@),
                };
                if exists|nonce: Seq<u8>|
                    nonce.len() == 24 && view == #[trigger] sealed_record(keys@, record@, nonce) {
                    let nonce = choose|nonce: Seq<u8>|
                        nonce.len() == 24 && view == #[trigger] sealed_record(
                            keys@,
                            record@,
                            nonce,
                        );
                    assert(sealed_by(keys@, record@, Some(nonce)) == view);
                    assert(chance.allows_nonce(Some(nonce)));
                }
            }
            result
        },
    }
}

} // verus!
