//! Batches of encrypted changes.
use vstd::prelude::*;

use crate::bytes::copy_bytes;
use crate::envelope::{parsed_envelope, EncryptedObject, ObjectKind};
use crate::identity::{
    signature_of, AuthorizationView, ChangeAuthorization, ChangeSignature, CHANGE_SIGNATURE_SIZE,
};
use crate::ids::{ContentId, DeviceId, RevisionId};
use crate::message::list_view;
use crate::outcome::agrees;
use crate::protocol::{
    content_identifier, identifier, parse_content_id, parse_uuid, LimitsView, ProtocolError,
    ProtocolLimits,
};
use crate::wire::{ChangeBatch, ChangeBatchView, EncryptedChange, EncryptedChangeView};

verus! {

/// An encrypted change that has been tested.
#[derive(Debug, PartialEq, Eq)]
pub struct ValidatedEncryptedChange {
    pub sequence: u64,
    pub revision_id: RevisionId,
    pub content_id: ContentId,
    pub authorization: ChangeAuthorization,
    pub encrypted_record: Vec<u8>,
}

/// The contents of a `ValidatedEncryptedChange`.
pub struct ChangeView {
    pub sequence: u64,
    pub revision_id: RevisionId,
    pub content_id: ContentId,
    pub authorization: AuthorizationView,
    pub encrypted_record: Seq<u8>,
}

impl View for ValidatedEncryptedChange {
    type V = ChangeView;

    open spec fn view(&self) -> ChangeView {
        ChangeView {
            sequence: self.sequence,
            revision_id: self.revision_id,
            content_id: self.content_id,
            authorization: self.authorization@,
            encrypted_record: self.encrypted_record@,
        }
    }
}

/// A batch of encrypted changes that has been tested.
#[derive(Debug, PartialEq, Eq)]
pub struct ValidatedChangeBatch {
    pub records: Vec<ValidatedEncryptedChange>,
    pub high_watermark: u64,
    pub has_more: bool,
}

/// The contents of a `ValidatedChangeBatch`.
pub struct BatchView {
    pub records: Seq<ChangeView>,
    pub high_watermark: u64,
    pub has_more: bool,
}

impl View for ValidatedChangeBatch {
    type V = BatchView;

    open spec fn view(&self) -> BatchView {
        BatchView {
            records: list_view(self.records@),
            high_watermark: self.high_watermark,
            has_more: self.has_more,
        }
    }
}

/// The change that one record of a batch holds, after a record with the given sequence number.
pub open spec fn validated_change(
    index: int,
    previous: u64,
    record: EncryptedChangeView,
    limits: LimitsView,
) -> Result<ChangeView, ProtocolError> {
    if record.sequence <= previous {
        Err(
            ProtocolError::InvalidChangeSequence {
                index: index as usize,
                previous,
                actual: record.sequence,
            },
        )
    } else {
        match identifier("change.revision_id", record.revision_id) {
            Err(error) => Err(error),
            Ok(revision_id) => match content_identifier(
                "change.content_id",
                index,
                record.content_id,
            ) {
                Err(error) => Err(error),
                Ok(content_id) => match identifier(
                    "change.author_device_id",
                    record.author_device_id,
                ) {
                    Err(error) => Err(error),
                    Ok(author) => if record.signature.len() != CHANGE_SIGNATURE_SIZE {
                        Err(
                            ProtocolError::InvalidChangeSignatureLength {
                                index: index as usize,
                                actual: record.signature.len() as usize,
                            },
                        )
                    } else {
                        match object_problem(index, content_id, record.encrypted_record, limits) {
                            Some(error) => Err(error),
                            None => Ok(
                                ChangeView {
                                    sequence: record.sequence,
                                    revision_id: RevisionId { value: revision_id },
                                    content_id,
                                    authorization: AuthorizationView {
                                        author_device_id: DeviceId { value: author },
                                        signature: record.signature,
                                    },
                                    encrypted_record: record.encrypted_record,
                                },
                            ),
                        }
                    },
                },
            },
        }
    }
}

/// What is wrong with the object that holds a change.
pub open spec fn object_problem(
    index: int,
    content_id: ContentId,
    encrypted: Seq<u8>,
    limits: LimitsView,
) -> Option<ProtocolError> {
    if encrypted.len() > limits.maximum_encrypted_object_bytes {
        Some(
            ProtocolError::EncryptedObjectTooLarge {
                index: index as usize,
                actual: encrypted.len() as u64,
                maximum: limits.maximum_encrypted_object_bytes,
            },
        )
    } else {
        match parsed_envelope(encrypted) {
            Err(source) => Some(
                ProtocolError::InvalidEncryptedObject { index: index as usize, source },
            ),
            Ok(object) => if object.kind != ObjectKind::Manifest {
                Some(
                    ProtocolError::UnexpectedChangeObjectKind {
                        index: index as usize,
                        actual: object.kind,
                    },
                )
            } else if object.content_id != content_id {
                Some(ProtocolError::ChangeContentIdMismatch { index: index as usize })
            } else {
                None
            },
        }
    }
}

/// The sequence number of the last of the changes, zero where there is none.
pub open spec fn last_sequence(changes: Seq<ChangeView>) -> u64 {
    if changes.len() == 0 {
        0
    } else {
        changes.last().sequence
    }
}

/// The changes that the records of a batch hold.
pub open spec fn validated_changes(records: Seq<EncryptedChangeView>, limits: LimitsView) -> Result<
    Seq<ChangeView>,
    ProtocolError,
>
    decreases records.len(),
{
    if records.len() == 0 {
        Ok(seq![])
    } else {
        match validated_changes(records.drop_last(), limits) {
            Err(error) => Err(error),
            Ok(changes) => match validated_change(
                records.len() - 1,
                last_sequence(changes),
                records.last(),
                limits,
            ) {
                Err(error) => Err(error),
                Ok(change) => Ok(changes.push(change)),
            },
        }
    }
}

/// What a batch holds, or why it is refused.
pub open spec fn validated_batch(batch: ChangeBatchView, limits: LimitsView) -> Result<
    BatchView,
    ProtocolError,
> {
    if batch.records.len() > limits.maximum_change_records_per_batch {
        Err(
            ProtocolError::TooManyChangeRecords {
                actual: batch.records.len() as usize,
                maximum: limits.maximum_change_records_per_batch,
            },
        )
    } else {
        match validated_changes(batch.records, limits) {
            Err(error) => Err(error),
            Ok(records) => if last_sequence(records) > batch.high_watermark {
                Err(
                    ProtocolError::InvalidHighWatermark {
                        last_sequence: last_sequence(records),
                        high_watermark: batch.high_watermark,
                    },
                )
            } else {
                Ok(
                    BatchView {
                        records,
                        high_watermark: batch.high_watermark,
                        has_more: batch.has_more,
                    },
                )
            },
        }
    }
}

proof fn lemma_validated_prefix(records: Seq<EncryptedChangeView>, count: int, limits: LimitsView)
    requires
        0 <= count <= records.len(),
        validated_changes(records.take(count), limits) is Err,
    ensures
        validated_changes(records, limits) == validated_changes(records.take(count), limits),
    decreases records.len(),
{
    if count < records.len() {
        assert(records.drop_last().take(count) =~= records.take(count));
        lemma_validated_prefix(records.drop_last(), count, limits);
    } else {
        assert(records.take(count) =~= records);
    }
}

fn validate_object(
    index: usize,
    content_id: ContentId,
    encrypted: &[u8],
    limits: ProtocolLimits,
) -> (result: Result<(), ProtocolError>)
    ensures
        match result {
            Ok(_) => object_problem(index as int, content_id, encrypted@, limits@) is None,
            Err(error) => object_problem(index as int, content_id, encrypted@, limits@) == Some(
                error,
            ),
        },
{
    let encrypted_size: u64 = encrypted.len() as u64;
    let maximum: u64 = limits.maximum_encrypted_object_bytes();
    if encrypted_size > maximum {
        return Err(
            ProtocolError::EncryptedObjectTooLarge { index, actual: encrypted_size, maximum },
        );
    }
    let object: EncryptedObject = match EncryptedObject::from_bytes(encrypted) {
        Ok(object) => object,
        Err(source) => {
            return Err(ProtocolError::InvalidEncryptedObject { index, source });
        },
    };
    if object.kind() != ObjectKind::Manifest {
        return Err(
            ProtocolError::UnexpectedChangeObjectKind { index, actual: object.kind() },
        );
    }
    if object.content_id() != content_id {
        return Err(ProtocolError::ChangeContentIdMismatch { index });
    }
    Ok(())
}

fn validate_change(
    index: usize,
    previous: u64,
    record: &EncryptedChange,
    limits: ProtocolLimits,
) -> (result: Result<ValidatedEncryptedChange, ProtocolError>)
    ensures
        agrees(result, validated_change(index as int, previous, record@, limits@)),
{
    if record.sequence == 0 || record.sequence <= previous {
        return Err(
            ProtocolError::InvalidChangeSequence { index, previous, actual: record.sequence },
        );
    }
    let revision_id: RevisionId = RevisionId::from_u128(
        parse_uuid("change.revision_id", record.revision_id.as_slice())?,
    );
    let content_id: ContentId = parse_content_id(
        "change.content_id",
        index,
        record.content_id.as_slice(),
    )?;
    let author_device_id: DeviceId = DeviceId::from_u128(
        parse_uuid("change.author_device_id", record.author_device_id.as_slice())?,
    );
    if record.signature.len() != CHANGE_SIGNATURE_SIZE {
        return Err(
            ProtocolError::InvalidChangeSignatureLength { index, actual: record.signature.len() },
        );
    }
    validate_object(index, content_id, record.encrypted_record.as_slice(), limits)?;
    Ok(
        ValidatedEncryptedChange {
            sequence: record.sequence,
            revision_id,
            content_id,
            authorization: ChangeAuthorization {
                author_device_id,
                signature: ChangeSignature::from_bytes(signature_of(record.signature.as_slice())),
            },
            encrypted_record: copy_bytes(record.encrypted_record.as_slice()),
        },
    )
}

/// Tests a batch of changes.
pub fn validate_change_batch(batch: &ChangeBatch, limits: ProtocolLimits) -> (result: Result<
    ValidatedChangeBatch,
    ProtocolError,
>)
    ensures
        agrees(result, validated_batch(batch@, limits@)),
{
    let maximum: usize = limits.maximum_change_records_per_batch();
    if batch.records.len() > maximum {
        return Err(
            ProtocolError::TooManyChangeRecords { actual: batch.records.len(), maximum },
        );
    }
    let ghost views = list_view(batch.records@);
    let mut previous_sequence: u64 = 0;
    let mut validated: Vec<ValidatedEncryptedChange> = Vec::new();
    let mut index: usize = 0;
    assert(views.take(0) =~= seq![]);
    assert(list_view(validated@) =~= seq![]);
    while index < batch.records.len()
        invariant
            index <= batch.records@.len(),
            views == list_view(batch.records@),
            batch@.records == views,
            views.len() <= limits@.maximum_change_records_per_batch,
            previous_sequence == last_sequence(list_view(validated@)),
            validated_changes(views.take(index as int), limits@) == Ok::<
                Seq<ChangeView>,
                ProtocolError,
            >(list_view(validated@)),
        decreases batch.records@.len() - index,
    {
        let ghost next = views.take(index + 1);
        let ghost before = list_view(validated@);
        proof {
            assert(next.drop_last() =~= views.take(index as int));
            assert(next.last() == batch.records@[index as int]@);
            if validated_changes(next, limits@) is Err {
                lemma_validated_prefix(views, index + 1, limits@);
            }
        }
        let change: ValidatedEncryptedChange = validate_change(
            index,
            previous_sequence,
            &batch.records[index],
            limits,
        )?;
        previous_sequence = change.sequence;
        let ghost view = change@;
        validated.push(change);
        proof {
            assert(list_view(validated@) =~= before.push(view));
        }
        index += 1;
    }
    assert(views.take(index as int) =~= views);
    if previous_sequence > batch.high_watermark {
        return Err(
            ProtocolError::InvalidHighWatermark {
                last_sequence: previous_sequence,
                high_watermark: batch.high_watermark,
            },
        );
    }
    Ok(
        ValidatedChangeBatch {
            records: validated,
            high_watermark: batch.high_watermark,
            has_more: batch.has_more,
        },
    )
}

/// The changes of an accepted batch come in strictly increasing order, none of them after the
/// high watermark, and there are no more of them than the limit.
pub proof fn law_accepted_batch_is_ordered(batch: ChangeBatchView, limits: LimitsView)
    requires
        validated_batch(batch, limits) is Ok,
    ensures
        ({
            let accepted = validated_batch(batch, limits)->Ok_0;
            &&& accepted.records.len() == batch.records.len()
            &&& accepted.records.len() <= limits.maximum_change_records_per_batch
            &&& forall|i: int, j: int|
                0 <= i < j < accepted.records.len() ==> (#[trigger] accepted.records[i]).sequence
                    < (#[trigger] accepted.records[j]).sequence
            &&& forall|i: int|
                0 <= i < accepted.records.len() ==> 0 < (
                #[trigger] accepted.records[i]).sequence <= accepted.high_watermark
        }),
{
    lemma_changes_ordered(batch.records, limits);
    let records = validated_batch(batch, limits)->Ok_0.records;
    assert forall|i: int| 0 <= i < records.len() implies 0 < (#[trigger] records[i]).sequence
        <= batch.high_watermark by {
        assert(records.last() == records[records.len() - 1]);
    }
}

proof fn lemma_changes_ordered(records: Seq<EncryptedChangeView>, limits: LimitsView)
    ensures
        validated_changes(records, limits) matches Ok(changes) ==> {
            &&& changes.len() == records.len()
            &&& forall|i: int, j: int|
                0 <= i < j < changes.len() ==> (#[trigger] changes[i]).sequence < (
                #[trigger] changes[j]).sequence
            &&& forall|i: int| 0 <= i < changes.len() ==> 0 < (#[trigger] changes[i]).sequence
        },
    decreases records.len(),
{
    if records.len() > 0 {
        lemma_changes_ordered(records.drop_last(), limits);
        if let Ok(changes) = validated_changes(records, limits) {
            let front = validated_changes(records.drop_last(), limits)->Ok_0;
            assert(changes =~= front.push(changes.last()));
            if front.len() > 0 {
                assert(front.last() == front[front.len() - 1]);
            }
        }
    }
}

} // verus!
