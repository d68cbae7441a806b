//! Limits, capabilities and errors of the protocol.
use vstd::prelude::*;

use crate::envelope::{EnvelopeError, ObjectKind};
use crate::identity::IdentityError;
use crate::ids::{uuid_of_bytes, ContentId, DeviceId, GroupId};

verus! {

pub const MINIMUM_CONTROL_FRAME_BYTES: usize = 1024;

pub const DEFAULT_MAXIMUM_CONTROL_FRAME_BYTES: usize = 1_048_576;

pub const HARD_MAXIMUM_CONTROL_FRAME_BYTES: usize = 4_194_304;

pub const MINIMUM_ENCRYPTED_OBJECT_BYTES: u64 = 88;

pub const DEFAULT_MAXIMUM_ENCRYPTED_OBJECT_BYTES: u64 = 33_554_432;

pub const HARD_MAXIMUM_ENCRYPTED_OBJECT_BYTES: u64 = 67_108_864;

pub const DEFAULT_MAXIMUM_CONTENT_IDS_PER_REQUEST: usize = 4096;

pub const HARD_MAXIMUM_CONTENT_IDS_PER_REQUEST: usize = 16_384;

pub const DEFAULT_MAXIMUM_CHANGE_RECORDS_PER_BATCH: usize = 1024;

pub const HARD_MAXIMUM_CHANGE_RECORDS_PER_BATCH: usize = 4096;

/// What a device can do.
#[derive(Clone, Copy, Debug, PartialEq, Eq, PartialOrd, Ord, Hash, Structural)]
pub enum Capability {
    Unspecified,
    EncryptedObjects,
    FastCdcV2020,
    ResumableObjects,
    Tombstones,
    KeepBothConflicts,
    SignedChanges,
    AuthenticatedSessions,
}

impl Capability {
    /// The number of the capability in messages.
    pub open spec fn spec_number(self) -> i32 {
        match self {
            Capability::Unspecified => 0,
            Capability::EncryptedObjects => 1,
            Capability::FastCdcV2020 => 2,
            Capability::ResumableObjects => 3,
            Capability::Tombstones => 4,
            Capability::KeepBothConflicts => 5,
            Capability::SignedChanges => 6,
            Capability::AuthenticatedSessions => 7,
        }
    }

    /// The number of the capability in messages.
    pub fn number(self) -> (number: i32)
        ensures
            number == self.spec_number(),
    {
        match self {
            Capability::Unspecified => 0,
            Capability::EncryptedObjects => 1,
            Capability::FastCdcV2020 => 2,
            Capability::ResumableObjects => 3,
            Capability::Tombstones => 4,
            Capability::KeepBothConflicts => 5,
            Capability::SignedChanges => 6,
            Capability::AuthenticatedSessions => 7,
        }
    }
}

pub const REQUIRED_CAPABILITIES: [Capability; 7] = [
    Capability::EncryptedObjects,
    Capability::FastCdcV2020,
    Capability::ResumableObjects,
    Capability::Tombstones,
    Capability::KeepBothConflicts,
    Capability::SignedChanges,
    Capability::AuthenticatedSessions,
];

#[derive(Clone, Copy, Debug, PartialEq, Eq)]
pub enum ProtocolError {
    Randomness,
    Identity(IdentityError),
    InvalidLimit { name: &'static str, value: u64, minimum: u64, maximum: u64 },
    InvalidVersionRange { minimum: u32, maximum: u32 },
    IncompatibleProtocolVersion { local: u16, remote_minimum: u32, remote_maximum: u32 },
    InvalidIdentifierLength { field: &'static str, actual: usize },
    NilIdentifier { field: &'static str },
    GroupMismatch { expected: GroupId, actual: GroupId },
    MissingRequiredCapability(Capability),
    MissingSessionField(&'static str),
    InvalidSessionNonceLength { field: &'static str, actual: usize },
    ZeroSessionNonce,
    InvalidSessionTransportBindingLength { actual: usize },
    ZeroSessionTransportBinding,
    SessionTransportBindingMismatch,
    InvalidEnrollmentPublicKeyLength { actual: usize },
    InvalidEnrollmentListenPort(u32),
    InvalidEnrollmentProof,
    InvalidSessionSignatureLength { field: &'static str, actual: usize },
    SelfConnection { device_id: DeviceId },
    LocalIdentityMismatch,
    PeerIdentityMismatch { claimed: DeviceId, authenticated: DeviceId },
    HandshakeAcknowledgementMismatch,
    AdvertisedLimitTooSmall { name: &'static str, value: u64, minimum: u64 },
    ControlFrameHeaderTooShort { actual: usize },
    ControlFrameTooLarge { actual: usize, maximum: usize },
    ControlFrameLengthMismatch { declared: usize, actual: usize },
    FrameLengthOverflow,
    Decode,
    EmptyObjectRequest,
    TooManyContentIds { actual: usize, maximum: usize },
    InvalidContentIdLength { field: &'static str, index: usize, actual: usize },
    DuplicateContentId(ContentId),
    ObjectRangeOffsetTooLarge { actual: u64, maximum: u64 },
    InvalidObjectTransferSize { actual: u64, minimum: u64, maximum: u64 },
    InvalidObjectTransferRange { start_offset: u64, encrypted_size: u64 },
    ObjectTransferRequestMismatch,
    ObjectTransferMetadataMismatch,
    TooManyChangeRecords { actual: usize, maximum: usize },
    InvalidChangeSequence { index: usize, previous: u64, actual: u64 },
    EncryptedObjectTooLarge { index: usize, actual: u64, maximum: u64 },
    InvalidEncryptedObject { index: usize, source: EnvelopeError },
    UnexpectedChangeObjectKind { index: usize, actual: ObjectKind },
    ChangeContentIdMismatch { index: usize },
    InvalidChangeSignatureLength { index: usize, actual: usize },
    InvalidHighWatermark { last_sequence: u64, high_watermark: u64 },
}

impl View for ProtocolError {
    type V = ProtocolError;

    open spec fn view(&self) -> ProtocolError {
        *self
    }
}

/// A limit lies between its bounds.
pub open spec fn limit_problem(
    name: &'static str,
    value: int,
    minimum: int,
    maximum: int,
) -> Option<ProtocolError> {
    if minimum <= value <= maximum {
        None
    } else {
        Some(
            ProtocolError::InvalidLimit {
                name,
                value: value as u64,
                minimum: minimum as u64,
                maximum: maximum as u64,
            },
        )
    }
}

fn validate_u64_limit(name: &'static str, value: u64, minimum: u64, maximum: u64) -> (result:
    Result<(), ProtocolError>)
    ensures
        match result {
            Ok(_) => limit_problem(name, value as int, minimum as int, maximum as int) is None,
            Err(error) => limit_problem(name, value as int, minimum as int, maximum as int)
                == Some(error),
        },
{
    if value < minimum || value > maximum {
        return Err(ProtocolError::InvalidLimit { name, value, minimum, maximum });
    }
    Ok(())
}

fn validate_usize_limit(name: &'static str, value: usize, minimum: usize, maximum: usize) -> (result:
    Result<(), ProtocolError>)
    ensures
        match result {
            Ok(_) => limit_problem(name, value as int, minimum as int, maximum as int) is None,
            Err(error) => limit_problem(name, value as int, minimum as int, maximum as int)
                == Some(error),
        },
{
    validate_u64_limit(name, value as u64, minimum as u64, maximum as u64)
}

/// The limits that a device imposes on messages.
#[derive(Copy, Debug, PartialEq, Eq)]
pub struct ProtocolLimits {
    maximum_control_frame_bytes: usize,
    maximum_encrypted_object_bytes: u64,
    maximum_content_ids_per_request: usize,
    maximum_change_records_per_batch: usize,
}

/// The limits as numbers.
pub struct LimitsView {
    pub maximum_control_frame_bytes: usize,
    pub maximum_encrypted_object_bytes: u64,
    pub maximum_content_ids_per_request: usize,
    pub maximum_change_records_per_batch: usize,
}

impl LimitsView {
    /// The first limit that lies outside its bounds.
    pub open spec fn problem(self) -> Option<ProtocolError> {
        let control = limit_problem(
            "maximum_control_frame_bytes",
            self.maximum_control_frame_bytes as int,
            MINIMUM_CONTROL_FRAME_BYTES as int,
            HARD_MAXIMUM_CONTROL_FRAME_BYTES as int,
        );
        let object = limit_problem(
            "maximum_encrypted_object_bytes",
            self.maximum_encrypted_object_bytes as int,
            MINIMUM_ENCRYPTED_OBJECT_BYTES as int,
            HARD_MAXIMUM_ENCRYPTED_OBJECT_BYTES as int,
        );
        let ids = limit_problem(
            "maximum_content_ids_per_request",
            self.maximum_content_ids_per_request as int,
            1,
            HARD_MAXIMUM_CONTENT_IDS_PER_REQUEST as int,
        );
        let records = limit_problem(
            "maximum_change_records_per_batch",
            self.maximum_change_records_per_batch as int,
            1,
            HARD_MAXIMUM_CHANGE_RECORDS_PER_BATCH as int,
        );
        if control is Some {
            control
        } else if object is Some {
            object
        } else if ids is Some {
            ids
        } else {
            records
        }
    }

    /// All limits lie between their bounds.
    pub open spec fn wf(self) -> bool {
        self.problem() is None
    }
}

impl View for ProtocolLimits {
    type V = LimitsView;

    closed spec fn view(&self) -> LimitsView {
        LimitsView {
            maximum_control_frame_bytes: self.maximum_control_frame_bytes,
            maximum_encrypted_object_bytes: self.maximum_encrypted_object_bytes,
            maximum_content_ids_per_request: self.maximum_content_ids_per_request,
            maximum_change_records_per_batch: self.maximum_change_records_per_batch,
        }
    }
}

impl Clone for ProtocolLimits {
    fn clone(&self) -> (limits: Self)
        ensures
            limits == *self,
    {
        *self
    }
}

impl ProtocolLimits {
    /// All limits lie between their bounds.
    #[verifier::type_invariant]
    pub open spec fn canonical(self) -> bool {
        self@.wf()
    }

    pub fn new(
        maximum_control_frame_bytes: usize,
        maximum_encrypted_object_bytes: u64,
        maximum_content_ids_per_request: usize,
        maximum_change_records_per_batch: usize,
    ) -> (result: Result<Self, ProtocolError>)
        ensures
            ({
                let view = LimitsView {
                    maximum_control_frame_bytes,
                    maximum_encrypted_object_bytes,
                    maximum_content_ids_per_request,
                    maximum_change_records_per_batch,
                };
                match result {
                    Ok(limits) => limits@ == view && view.wf(),
                    Err(error) => view.problem() == Some(error),
                }
            }),
    {
        validate_usize_limit(
            "maximum_control_frame_bytes",
            maximum_control_frame_bytes,
            MINIMUM_CONTROL_FRAME_BYTES,
            HARD_MAXIMUM_CONTROL_FRAME_BYTES,
        )?;
        validate_u64_limit(
            "maximum_encrypted_object_bytes",
            maximum_encrypted_object_bytes,
            MINIMUM_ENCRYPTED_OBJECT_BYTES,
            HARD_MAXIMUM_ENCRYPTED_OBJECT_BYTES,
        )?;
        validate_usize_limit(
            "maximum_content_ids_per_request",
            maximum_content_ids_per_request,
            1,
            HARD_MAXIMUM_CONTENT_IDS_PER_REQUEST,
        )?;
        validate_usize_limit(
            "maximum_change_records_per_batch",
            maximum_change_records_per_batch,
            1,
            HARD_MAXIMUM_CHANGE_RECORDS_PER_BATCH,
        )?;
        Ok(
            ProtocolLimits {
                maximum_control_frame_bytes,
                maximum_encrypted_object_bytes,
                maximum_content_ids_per_request,
                maximum_change_records_per_batch,
            },
        )
    }

    pub fn maximum_control_frame_bytes(self) -> (limit: usize)
        ensures
            limit == self@.maximum_control_frame_bytes,
            self@.wf(),
    {
        proof {
            use_type_invariant(&self);
        }
        self.maximum_control_frame_bytes
    }

    pub fn maximum_encrypted_object_bytes(self) -> (limit: u64)
        ensures
            limit == self@.maximum_encrypted_object_bytes,
            self@.wf(),
    {
        proof {
            use_type_invariant(&self);
        }
        self.maximum_encrypted_object_bytes
    }

    pub fn maximum_content_ids_per_request(self) -> (limit: usize)
        ensures
            limit == self@.maximum_content_ids_per_request,
            self@.wf(),
    {
        proof {
            use_type_invariant(&self);
        }
        self.maximum_content_ids_per_request
    }

    pub fn maximum_change_records_per_batch(self) -> (limit: usize)
        ensures
            limit == self@.maximum_change_records_per_batch,
            self@.wf(),
    {
        proof {
            use_type_invariant(&self);
        }
        self.maximum_change_records_per_batch
    }
}

impl Default for ProtocolLimits {
    fn default() -> (limits: Self)
        ensures
            limits@ == (LimitsView {
                maximum_control_frame_bytes: DEFAULT_MAXIMUM_CONTROL_FRAME_BYTES,
                maximum_encrypted_object_bytes: DEFAULT_MAXIMUM_ENCRYPTED_OBJECT_BYTES,
                maximum_content_ids_per_request: DEFAULT_MAXIMUM_CONTENT_IDS_PER_REQUEST,
                maximum_change_records_per_batch: DEFAULT_MAXIMUM_CHANGE_RECORDS_PER_BATCH,
            }),
    {
        ProtocolLimits {
            maximum_control_frame_bytes: DEFAULT_MAXIMUM_CONTROL_FRAME_BYTES,
            maximum_encrypted_object_bytes: DEFAULT_MAXIMUM_ENCRYPTED_OBJECT_BYTES,
            maximum_content_ids_per_request: DEFAULT_MAXIMUM_CONTENT_IDS_PER_REQUEST,
            maximum_change_records_per_batch: DEFAULT_MAXIMUM_CHANGE_RECORDS_PER_BATCH,
        }
    }
}

/// The identifier that a field of a message spells.
pub open spec fn identifier(field: &'static str, bytes: Seq<u8>) -> Result<u128, ProtocolError> {
    if bytes.len() != 16 {
        Err(ProtocolError::InvalidIdentifierLength { field, actual: bytes.len() as usize })
    } else if uuid_of_bytes(bytes) == 0 {
        Err(ProtocolError::NilIdentifier { field })
    } else {
        Ok(uuid_of_bytes(bytes))
    }
}

/// Reads the identifier that a field of a message spells.
pub fn parse_uuid(field: &'static str, bytes: &[u8]) -> (result: Result<u128, ProtocolError>)
    ensures
        result == identifier(field, bytes@),
{
    if bytes.len() != 16 {
        return Err(ProtocolError::InvalidIdentifierLength { field, actual: bytes.len() });
    }
    let value: u128 = DeviceId::from_bytes(bytes).as_u128();
    if value == 0 {
        return Err(ProtocolError::NilIdentifier { field });
    }
    Ok(value)
}

/// The content identifier that a field of a message spells.
pub open spec fn content_identifier(field: &'static str, index: int, bytes: Seq<u8>) -> Result<
    ContentId,
    ProtocolError,
> {
    if bytes.len() != 32 {
        Err(
            ProtocolError::InvalidContentIdLength {
                field,
                index: index as usize,
                actual: bytes.len() as usize,
            },
        )
    } else {
        Ok(ContentId::of_bytes(bytes))
    }
}

/// Reads the content identifier that a field of a message spells.
pub fn parse_content_id(field: &'static str, index: usize, bytes: &[u8]) -> (result: Result<
    ContentId,
    ProtocolError,
>)
    ensures
        result == content_identifier(field, index as int, bytes@),
{
    match ContentId::from_slice(bytes) {
        Some(content_id) => Ok(content_id),
        None => Err(
            ProtocolError::InvalidContentIdLength { field, index, actual: bytes.len() },
        ),
    }
}

} // verus!
