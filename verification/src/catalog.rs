//! The catalog: its rows, how they are encoded, and what can be wrong with them.
use vstd::prelude::*;

use crate::envelope::{EnvelopeError, ObjectKind};
use crate::identity::{AuthorizationView, ChangeAuthorization, IdentityError};
use crate::ids::{
    is_random_uuid, random_uuid, uuid_bytes, uuid_of_bytes, ContentId, DeviceId, FileId, GroupId,
    PathId, RevisionId,
};
use crate::keys::CryptoError;
use crate::record::ChangeRecordKind;
use crate::table::Key;
use crate::text::{chars_of, hex_text, push_hex};

verus! {

pub const MAXIMUM_ENCRYPTED_OBJECT_BYTES: usize = 67_108_864;

pub const SCHEMA_VERSION: i64 = 7;

#[derive(Clone, Copy, Debug, PartialEq, Eq)]
pub enum StoreError {
    Io,
    CatalogFull,
    Envelope(EnvelopeError),
    Crypto(CryptoError),
    Identity(IdentityError),
    ObjectTooLarge { actual: usize, maximum: usize },
    ObjectNotFound { group_id: GroupId, content_id: ContentId },
    ObjectKindMismatch {
        group_id: GroupId,
        content_id: ContentId,
        expected: ObjectKind,
        actual: i64,
    },
    RevisionContentMismatch { revision_id: RevisionId },
    StaleLocalHead {
        path_id: PathId,
        expected: Option<ContentId>,
        actual: Option<ContentId>,
    },
    LocalHeadKindMismatch {
        path_id: PathId,
        expected: ChangeRecordKind,
        actual: ChangeRecordKind,
    },
    MaterializationInProgress { path_id: PathId },
    UnknownGroupMember { device_id: DeviceId },
    ObjectNotRequested { peer_device_id: DeviceId, content_id: ContentId },
    NilTransferRequestId,
    InvalidTransferSize { actual: u64, maximum: usize },
    TransferSizeMismatch { content_id: ContentId, expected: u64, actual: u64 },
    TransferOffsetMismatch { content_id: ContentId, expected: u64, actual: u64 },
    TransferExceedsExpectedSize { content_id: ContentId, expected: u64, actual: u64 },
    TransferFileLengthMismatch { content_id: ContentId, catalog: u64, actual: u64 },
    ObjectTransferNotFound { peer_device_id: DeviceId, content_id: ContentId },
    ObjectTransferIncomplete { content_id: ContentId, expected: u64, actual: u64 },
    ObjectRangeStartOutOfBounds { content_id: ContentId, start_offset: u64, encrypted_size: u64 },
    MemberRevoked { device_id: DeviceId },
    MemberKeyMismatch { device_id: DeviceId },
    MemberRoleMismatch { device_id: DeviceId, expected: MemberRole, actual: MemberRole },
    ChangeAuthenticationMismatch { revision_id: RevisionId },
    InvalidMaterializationStage,
    SequenceOutOfRange(u64),
    CorruptCatalogIdentifier { field: &'static str, expected: usize, actual: usize },
    CorruptCatalogInteger { field: &'static str, value: i64 },
    CorruptChangeRecordKind { field: &'static str, value: i64 },
    CorruptMemberRole { field: &'static str, value: i64 },
    CorruptMemberStatus { field: &'static str, value: i64 },
    UnsupportedSchemaVersion(i64),
}

impl View for StoreError {
    type V = StoreError;

    open spec fn view(&self) -> StoreError {
        *self
    }
}

#[derive(Clone, Copy, Debug, PartialEq, Eq, Structural)]
pub enum MemberRole {
    Owner,
    Member,
}

#[derive(Clone, Copy, Debug, PartialEq, Eq, Structural)]
pub enum MemberStatus {
    Active,
    Revoked,
}

/// Finds an object.
#[derive(Clone, Copy, Debug, PartialEq, Eq, Structural)]
pub struct ObjectKey {
    pub group_id: GroupId,
    pub content_id: ContentId,
}

impl Key for ObjectKey {
    fn same(&self, other: &Self) -> (same: bool) {
        self.group_id == other.group_id && self.content_id == other.content_id
    }
}

/// Finds what is asked of a peer.
#[derive(Clone, Copy, Debug, PartialEq, Eq, Structural)]
pub struct PeerObjectKey {
    pub group_id: GroupId,
    pub peer_device_id: DeviceId,
    pub content_id: ContentId,
}

impl Key for PeerObjectKey {
    fn same(&self, other: &Self) -> (same: bool) {
        self.group_id == other.group_id && self.peer_device_id == other.peer_device_id
            && self.content_id == other.content_id
    }
}

/// Finds what stands at a path.
#[derive(Clone, Copy, Debug, PartialEq, Eq, Structural)]
pub struct PathKey {
    pub group_id: GroupId,
    pub path_id: PathId,
}

impl Key for PathKey {
    fn same(&self, other: &Self) -> (same: bool) {
        self.group_id == other.group_id && self.path_id == other.path_id
    }
}

/// Finds a device.
#[derive(Clone, Copy, Debug, PartialEq, Eq, Structural)]
pub struct DeviceKey {
    pub group_id: GroupId,
    pub device_id: DeviceId,
}

impl Key for DeviceKey {
    fn same(&self, other: &Self) -> (same: bool) {
        self.group_id == other.group_id && self.device_id == other.device_id
    }
}

/// Finds a revision.
#[derive(Clone, Copy, Debug, PartialEq, Eq, Structural)]
pub struct RevisionKey {
    pub group_id: GroupId,
    pub revision_id: RevisionId,
}

impl Key for RevisionKey {
    fn same(&self, other: &Self) -> (same: bool) {
        self.group_id == other.group_id && self.revision_id == other.revision_id
    }
}

/// One object needs another.
#[derive(Clone, Copy, Debug, PartialEq, Eq, Structural)]
pub struct ReferenceKey {
    pub group_id: GroupId,
    pub owner_content_id: ContentId,
    pub referenced_content_id: ContentId,
}

impl Key for ReferenceKey {
    fn same(&self, other: &Self) -> (same: bool) {
        self.group_id == other.group_id && self.owner_content_id == other.owner_content_id
            && self.referenced_content_id == other.referenced_content_id
    }
}

/// What is known of an object.
#[derive(Clone, Copy, Debug, PartialEq, Eq)]
pub struct ObjectRow {
    pub kind: ObjectKind,
    pub format_version: u16,
    pub encrypted_size: u64,
    pub verified_at_unix_ms: i64,
    pub available: bool,
}

impl View for ObjectRow {
    type V = ObjectRow;

    open spec fn view(&self) -> ObjectRow {
        *self
    }
}

/// What is known of a request to a peer.
#[derive(Clone, Copy, Debug, PartialEq, Eq)]
pub struct RequestRow {
    pub requested_at_unix_ms: i64,
    pub attempt_count: u64,
    pub last_attempt_at_unix_ms: Option<i64>,
}

impl View for RequestRow {
    type V = RequestRow;

    open spec fn view(&self) -> RequestRow {
        *self
    }
}

/// How far the transfer of an object has come.
#[derive(Clone, Copy, Debug, PartialEq, Eq)]
pub struct TransferRow {
    pub request_id: u128,
    pub encrypted_size: u64,
    pub received_size: u64,
}

impl View for TransferRow {
    type V = TransferRow;

    open spec fn view(&self) -> TransferRow {
        *self
    }
}

/// What stands at a path.
#[derive(Clone, Copy, Debug, PartialEq, Eq)]
pub struct HeadRow {
    pub content_id: ContentId,
    pub kind: ChangeRecordKind,
}

impl View for HeadRow {
    type V = HeadRow;

    open spec fn view(&self) -> HeadRow {
        *self
    }
}

/// What is being brought to a path.
#[derive(Clone, Debug, PartialEq, Eq)]
pub struct PendingRow {
    pub target_content_id: ContentId,
    pub expected_previous_content_id: Option<ContentId>,
    pub kind: ChangeRecordKind,
    pub stage_name: Option<String>,
}

/// The contents of a `PendingRow`.
pub struct PendingRowView {
    pub target_content_id: ContentId,
    pub expected_previous_content_id: Option<ContentId>,
    pub kind: ChangeRecordKind,
    pub stage_name: Option<Seq<char>>,
}

/// The text of a name that may be absent.
pub open spec fn text_of(name: Option<String>) -> Option<Seq<char>> {
    match name {
        Some(name) => Some(name@),
        None => None,
    }
}

/// The text of a name that may be absent.
pub open spec fn str_of(name: Option<&str>) -> Option<Seq<char>> {
    match name {
        Some(name) => Some(name@),
        None => None,
    }
}

impl View for PendingRow {
    type V = PendingRowView;

    open spec fn view(&self) -> PendingRowView {
        PendingRowView {
            target_content_id: self.target_content_id,
            expected_previous_content_id: self.expected_previous_content_id,
            kind: self.kind,
            stage_name: text_of(self.stage_name),
        }
    }
}

/// What is known of a member of a group.
#[derive(Clone, Copy, Debug, PartialEq, Eq)]
pub struct MemberRow {
    pub public_key: [u8; 32],
    pub role: MemberRole,
    pub status: MemberStatus,
}

/// The contents of a `MemberRow`.
pub struct MemberRowView {
    pub public_key: Seq<u8>,
    pub role: MemberRole,
    pub status: MemberStatus,
}

impl View for MemberRow {
    type V = MemberRowView;

    open spec fn view(&self) -> MemberRowView {
        MemberRowView { public_key: self.public_key@, role: self.role, status: self.status }
    }
}

/// Who signed a revision.
#[derive(Clone, Copy, Debug, PartialEq, Eq)]
pub struct AuthenticationRow {
    pub content_id: ContentId,
    pub authorization: ChangeAuthorization,
}

/// The contents of an `AuthenticationRow`.
pub struct AuthenticationRowView {
    pub content_id: ContentId,
    pub authorization: AuthorizationView,
}

impl View for AuthenticationRow {
    type V = AuthenticationRowView;

    open spec fn view(&self) -> AuthenticationRowView {
        AuthenticationRowView {
            content_id: self.content_id,
            authorization: self.authorization@,
        }
    }
}

/// An entry of the change log.
#[derive(Clone, Copy, Debug, PartialEq, Eq)]
pub struct ChangeRow {
    pub sequence: u64,
    pub group_id: GroupId,
    pub revision_id: RevisionId,
    pub content_id: ContentId,
}

/// The identifier in a column of sixteen bytes.
pub open spec fn stored_uuid(field: &'static str, value: Seq<u8>) -> Result<u128, StoreError> {
    if value.len() != 16 {
        Err(
            StoreError::CorruptCatalogIdentifier {
                field,
                expected: 16,
                actual: value.len() as usize,
            },
        )
    } else {
        Ok(uuid_of_bytes(value))
    }
}

pub fn decode_uuid(field: &'static str, value: &[u8]) -> (result: Result<u128, StoreError>)
    ensures
        result == stored_uuid(field, value@),
{
    if value.len() != 16 {
        return Err(
            StoreError::CorruptCatalogIdentifier { field, expected: 16, actual: value.len() },
        );
    }
    Ok(DeviceId::from_bytes(value).as_u128())
}

pub fn decode_group_id(field: &'static str, value: &[u8]) -> (result: Result<GroupId, StoreError>)
    ensures
        match result {
            Ok(id) => stored_uuid(field, value@) == Ok::<u128, StoreError>(id.value),
            Err(error) => stored_uuid(field, value@) == Err::<u128, StoreError>(error),
        },
{
    Ok(GroupId::from_u128(decode_uuid(field, value)?))
}

pub fn decode_device_id(field: &'static str, value: &[u8]) -> (result: Result<
    DeviceId,
    StoreError,
>)
    ensures
        match result {
            Ok(id) => stored_uuid(field, value@) == Ok::<u128, StoreError>(id.value),
            Err(error) => stored_uuid(field, value@) == Err::<u128, StoreError>(error),
        },
{
    Ok(DeviceId::from_u128(decode_uuid(field, value)?))
}

pub fn decode_revision_id(field: &'static str, value: &[u8]) -> (result: Result<
    RevisionId,
    StoreError,
>)
    ensures
        match result {
            Ok(id) => stored_uuid(field, value@) == Ok::<u128, StoreError>(id.value),
            Err(error) => stored_uuid(field, value@) == Err::<u128, StoreError>(error),
        },
{
    Ok(RevisionId::from_u128(decode_uuid(field, value)?))
}

pub fn decode_content_id(field: &'static str, value: &[u8]) -> (result: Result<
    ContentId,
    StoreError,
>)
    ensures
        result == if value@.len() == 32 {
            Ok(ContentId::of_bytes(value@))
        } else {
            Err(
                StoreError::CorruptCatalogIdentifier {
                    field,
                    expected: 32,
                    actual: value@.len() as usize,
                },
            )
        },
{
    match ContentId::from_slice(value) {
        Some(id) => Ok(id),
        None => Err(
            StoreError::CorruptCatalogIdentifier { field, expected: 32, actual: value.len() },
        ),
    }
}

pub fn decode_path_id(field: &'static str, value: &[u8]) -> (result: Result<PathId, StoreError>)
    ensures
        result == if value@.len() == 32 {
            Ok(PathId::of_bytes(value@))
        } else {
            Err(
                StoreError::CorruptCatalogIdentifier {
                    field,
                    expected: 32,
                    actual: value@.len() as usize,
                },
            )
        },
{
    match PathId::from_slice(value) {
        Some(id) => Ok(id),
        None => Err(
            StoreError::CorruptCatalogIdentifier { field, expected: 32, actual: value.len() },
        ),
    }
}

/// The number that stands for a kind of change.
pub open spec fn kind_number(kind: ChangeRecordKind) -> i64 {
    match kind {
        ChangeRecordKind::File => 1,
        ChangeRecordKind::Tombstone => 2,
    }
}

pub fn encode_change_record_kind(kind: ChangeRecordKind) -> (value: i64)
    ensures
        value == kind_number(kind),
{
    match kind {
        ChangeRecordKind::File => 1,
        ChangeRecordKind::Tombstone => 2,
    }
}

pub fn decode_change_record_kind(field: &'static str, value: i64) -> (result: Result<
    ChangeRecordKind,
    StoreError,
>)
    ensures
        match result {
            Ok(kind) => value == kind_number(kind),
            Err(error) => value != 1 && value != 2 && error
                == (StoreError::CorruptChangeRecordKind { field, value }),
        },
{
    if value == 1 {
        Ok(ChangeRecordKind::File)
    } else if value == 2 {
        Ok(ChangeRecordKind::Tombstone)
    } else {
        Err(StoreError::CorruptChangeRecordKind { field, value })
    }
}

pub fn decode_sequence(field: &'static str, value: i64) -> (result: Result<u64, StoreError>)
    ensures
        match result {
            Ok(sequence) => value == sequence,
            Err(error) => value < 0 && error == (StoreError::CorruptCatalogInteger {
                field,
                value,
            }),
        },
{
    if value < 0 {
        return Err(StoreError::CorruptCatalogInteger { field, value });
    }
    Ok(value as u64)
}

/// Whether a number fits the catalog's signed integers.
pub open spec fn sequence_problem(value: u64) -> Option<StoreError> {
    if value > i64::MAX {
        Some(StoreError::SequenceOutOfRange(value))
    } else {
        None
    }
}

pub fn sequence_to_i64(value: u64) -> (result: Result<i64, StoreError>)
    ensures
        match result {
            Ok(sequence) => sequence == value && sequence_problem(value) is None,
            Err(error) => sequence_problem(value) == Some(error),
        },
{
    if value > 0x7fff_ffff_ffff_ffff {
        return Err(StoreError::SequenceOutOfRange(value));
    }
    Ok(value as i64)
}

/// The number that stands for a role.
pub open spec fn role_number(role: MemberRole) -> i64 {
    match role {
        MemberRole::Owner => 1,
        MemberRole::Member => 2,
    }
}

pub fn encode_member_role(role: MemberRole) -> (value: i64)
    ensures
        value == role_number(role),
{
    match role {
        MemberRole::Owner => 1,
        MemberRole::Member => 2,
    }
}

pub fn decode_member_role(field: &'static str, value: i64) -> (result: Result<
    MemberRole,
    StoreError,
>)
    ensures
        match result {
            Ok(role) => value == role_number(role),
            Err(error) => value != 1 && value != 2 && error == (StoreError::CorruptMemberRole {
                field,
                value,
            }),
        },
{
    if value == 1 {
        Ok(MemberRole::Owner)
    } else if value == 2 {
        Ok(MemberRole::Member)
    } else {
        Err(StoreError::CorruptMemberRole { field, value })
    }
}

/// The number that stands for a status.
pub open spec fn status_number(status: MemberStatus) -> i64 {
    match status {
        MemberStatus::Active => 1,
        MemberStatus::Revoked => 2,
    }
}

pub fn encode_member_status(status: MemberStatus) -> (value: i64)
    ensures
        value == status_number(status),
{
    match status {
        MemberStatus::Active => 1,
        MemberStatus::Revoked => 2,
    }
}

pub fn decode_member_status(field: &'static str, value: i64) -> (result: Result<
    MemberStatus,
    StoreError,
>)
    ensures
        match result {
            Ok(status) => value == status_number(status),
            Err(error) => value != 1 && value != 2 && error == (StoreError::CorruptMemberStatus {
                field,
                value,
            }),
        },
{
    if value == 1 {
        Ok(MemberStatus::Active)
    } else if value == 2 {
        Ok(MemberStatus::Revoked)
    } else {
        Err(StoreError::CorruptMemberStatus { field, value })
    }
}

/// Tests the version of a catalog that is opened.
pub fn check_schema_version(version: i64) -> (result: Result<(), StoreError>)
    ensures
        result == if version > SCHEMA_VERSION {
            Err::<(), StoreError>(StoreError::UnsupportedSchemaVersion(version))
        } else {
            Ok(())
        },
{
    if version > SCHEMA_VERSION {
        return Err(StoreError::UnsupportedSchemaVersion(version));
    }
    Ok(())
}

/// Whether the size of an object that is to be transferred is acceptable.
pub open spec fn transfer_size_problem(encrypted_size: u64) -> Option<StoreError> {
    if encrypted_size == 0 || encrypted_size > MAXIMUM_ENCRYPTED_OBJECT_BYTES {
        Some(
            StoreError::InvalidTransferSize {
                actual: encrypted_size,
                maximum: MAXIMUM_ENCRYPTED_OBJECT_BYTES,
            },
        )
    } else {
        None
    }
}

pub fn checked_transfer_size(encrypted_size: u64) -> (result: Result<u64, StoreError>)
    ensures
        match result {
            Ok(size) => size == encrypted_size && transfer_size_problem(encrypted_size) is None,
            Err(error) => transfer_size_problem(encrypted_size) == Some(error),
        },
{
    if encrypted_size == 0 || encrypted_size > MAXIMUM_ENCRYPTED_OBJECT_BYTES as u64 {
        return Err(
            StoreError::InvalidTransferSize {
                actual: encrypted_size,
                maximum: MAXIMUM_ENCRYPTED_OBJECT_BYTES,
            },
        );
    }
    Ok(encrypted_size)
}

/// A lowercase hexadecimal digit.
pub open spec fn is_hex_digit(character: char) -> bool {
    ('0' <= character && character <= '9') || ('a' <= character && character <= 'f')
}

/// The name of a staging file: a fixed beginning and end, and thirty-two digits between them.
pub open spec fn is_stage_name(name: Seq<char>) -> bool {
    exists|digits: Seq<char>|
        {
            &&& #[trigger] stage_name_of(digits) == name
            &&& digits.len() == 32
            &&& forall|i: int| 0 <= i < digits.len() ==> is_hex_digit(#[trigger] digits[i])
        }
}

/// The name of the staging file with the given digits.
pub open spec fn stage_name_of(digits: Seq<char>) -> Seq<char> {
    ".orbit-stage-"@ + digits + ".tmp"@
}

/// What is wrong with the name of a staging file for a change of the given kind.
pub open spec fn stage_problem(kind: ChangeRecordKind, stage_name: Option<Seq<char>>) -> Option<
    StoreError,
> {
    match (kind, stage_name) {
        (ChangeRecordKind::Tombstone, None) => None,
        (ChangeRecordKind::File, Some(name)) => if is_stage_name(name) {
            None
        } else {
            Some(StoreError::InvalidMaterializationStage)
        },
        _ => Some(StoreError::InvalidMaterializationStage),
    }
}

fn stands_at(characters: &Vec<char>, start: usize, part: &Vec<char>) -> (stands: bool)
    requires
        start + part@.len() <= characters@.len(),
    ensures
        stands == (characters@.subrange(start as int, start + part@.len()) == part@),
{
    let total: usize = characters.len();
    let mut index: usize = 0;
    while index < part.len()
        invariant
            index <= part@.len(),
            total == characters@.len(),
            start + part@.len() <= characters@.len(),
            forall|i: int| 0 <= i < index ==> characters@[start + i] == part@[i],
        decreases part@.len() - index,
    {
        if characters[start + index] != part[index] {
            assert(characters@.subrange(start as int, start + part@.len())[index as int]
                != part@[index as int]);
            return false;
        }
        index += 1;
    }
    assert(characters@.subrange(start as int, start + part@.len()) =~= part@);
    true
}

fn check_stage_name(name: &str) -> (valid: bool)
    ensures
        valid == is_stage_name(name@),
{
    let characters: Vec<char> = chars_of(name);
    let prefix: Vec<char> = chars_of(".orbit-stage-");
    let suffix: Vec<char> = chars_of(".tmp");
    proof {
        reveal_strlit(".orbit-stage-");
        reveal_strlit(".tmp");
    }
    if characters.len() != 49 {
        assert(!is_stage_name(name@));
        return false;
    }
    let ghost digits = characters@.subrange(13, 45);
    proof {
        if is_stage_name(name@) {
            let named = choose|named: Seq<char>|
                {
                    &&& #[trigger] stage_name_of(named) == name@
                    &&& named.len() == 32
                    &&& forall|i: int| 0 <= i < named.len() ==> is_hex_digit(#[trigger] named[i])
                };
            assert(characters@.subrange(0, 13) =~= prefix@);
            assert(characters@.subrange(45, 49) =~= suffix@);
            assert(digits =~= named);
        }
    }
    if !stands_at(&characters, 0, &prefix) || !stands_at(&characters, 45, &suffix) {
        return false;
    }
    let mut index: usize = 13;
    while index < 45
        invariant
            13 <= index <= 45,
            characters@.len() == 49,
            digits == characters@.subrange(13, 45),
            is_stage_name(name@) ==> forall|i: int|
                0 <= i < digits.len() ==> is_hex_digit(#[trigger] digits[i]),
            forall|i: int| 13 <= i < index ==> is_hex_digit(#[trigger] characters@[i]),
        decreases 45 - index,
    {
        let character: char = characters[index];
        if !(('0' <= character && character <= '9') || ('a' <= character && character <= 'f')) {
            assert(digits[index - 13] == character);
            return false;
        }
        index += 1;
    }
    proof {
        assert(stage_name_of(digits) =~= name@) by {
            assert(characters@ =~= characters@.subrange(0, 13) + digits + characters@.subrange(
                45,
                49,
            ));
        }
        assert forall|i: int| 0 <= i < digits.len() implies is_hex_digit(#[trigger] digits[i]) by {
            assert(digits[i] == characters@[i + 13]);
        }
    }
    true
}

/// Tests the name of a staging file for a change of the given kind.
pub fn validate_materialization_stage(kind: ChangeRecordKind, stage_name: Option<&str>) -> (result:
    Result<(), StoreError>)
    ensures
        match result {
            Ok(_) => stage_problem(kind, str_of(stage_name)) is None,
            Err(error) => stage_problem(kind, str_of(stage_name)) == Some(error),
        },
{
    match (kind, stage_name) {
        (ChangeRecordKind::Tombstone, None) => Ok(()),
        (ChangeRecordKind::File, Some(name)) => if check_stage_name(name) {
            Ok(())
        } else {
            Err(StoreError::InvalidMaterializationStage)
        },
        _ => Err(StoreError::InvalidMaterializationStage),
    }
}

/// The hexadecimal text of a content identifier.
pub fn encode_content_id(content_id: ContentId) -> (text: String)
    ensures
        text@ == hex_text(content_id@),
{
    let mut text: String = "".to_owned();
    push_hex(&mut text, content_id.as_bytes().as_slice());
    proof {
        reveal_strlit("");
    }
    assert(text@ =~= hex_text(content_id@));
    text
}

/// Where an object is kept, below the root of the store.
pub open spec fn object_path_of(group_id: GroupId, content_id: ContentId) -> Seq<char> {
    "objects/"@ + hex_text(uuid_bytes(group_id.value)) + "/"@ + hex_text(content_id@).take(2)
        + "/"@ + hex_text(content_id@) + ".orbit"@
}

pub fn object_path_for(group_id: GroupId, content_id: ContentId) -> (path: String)
    ensures
        path@ == object_path_of(group_id, content_id),
{
    let mut path: String = "objects/".to_owned();
    let bytes: [u8; 32] = content_id.as_bytes();
    push_hex(&mut path, group_id.to_bytes().as_slice());
    vstd::string::StringExecFns::append(&mut path, "/");
    let first: &[u8] = vstd::slice::slice_subrange(bytes.as_slice(), 0, 1);
    push_hex(&mut path, first);
    assert(hex_text(first@) =~= hex_text(content_id@).take(2));
    vstd::string::StringExecFns::append(&mut path, "/");
    push_hex(&mut path, bytes.as_slice());
    vstd::string::StringExecFns::append(&mut path, ".orbit");
    path
}

/// Where an object that arrives is kept, below the root of the store.
pub open spec fn transfer_path_of(
    group_id: GroupId,
    peer_device_id: DeviceId,
    content_id: ContentId,
) -> Seq<char> {
    "transfers/"@ + transfer_name_of(group_id, peer_device_id, content_id)
}

/// The name of the file that an object arrives in.
pub open spec fn transfer_name_of(
    group_id: GroupId,
    peer_device_id: DeviceId,
    content_id: ContentId,
) -> Seq<char> {
    hex_text(uuid_bytes(group_id.value)) + "-"@ + hex_text(uuid_bytes(peer_device_id.value))
        + "-"@ + hex_text(content_id@) + ".part"@
}

/// The name of the file that an object arrives in.
pub fn incoming_transfer_name(
    group_id: GroupId,
    peer_device_id: DeviceId,
    content_id: ContentId,
) -> (name: String)
    ensures
        name@ == transfer_name_of(group_id, peer_device_id, content_id),
{
    let mut name: String = "".to_owned();
    proof {
        reveal_strlit("");
        assert(name@ =~= seq![]);
    }
    push_hex(&mut name, group_id.to_bytes().as_slice());
    vstd::string::StringExecFns::append(&mut name, "-");
    push_hex(&mut name, peer_device_id.to_bytes().as_slice());
    vstd::string::StringExecFns::append(&mut name, "-");
    push_hex(&mut name, content_id.as_bytes().as_slice());
    vstd::string::StringExecFns::append(&mut name, ".part");
    assert(name@ =~= transfer_name_of(group_id, peer_device_id, content_id));
    name
}

pub fn incoming_transfer_path_for(
    group_id: GroupId,
    peer_device_id: DeviceId,
    content_id: ContentId,
) -> (path: String)
    ensures
        path@ == transfer_path_of(group_id, peer_device_id, content_id),
{
    let mut path: String = "transfers/".to_owned();
    vstd::string::StringExecFns::append(
        &mut path,
        incoming_transfer_name(group_id, peer_device_id, content_id).as_str(),
    );
    path
}

/// Where an object is written before it is moved into place, below the root of the store.
pub open spec fn staging_path_of(
    group_id: GroupId,
    content_id: ContentId,
    random: u128,
) -> Seq<char> {
    "staging/"@ + hex_text(uuid_bytes(group_id.value)) + "-"@ + hex_text(content_id@) + "-"@
        + hex_text(uuid_bytes(random)) + ".part"@
}

/// Where an object is written before it is moved into place, under a fresh random name.
pub fn staging_path(group_id: GroupId, content_id: ContentId) -> (path: String)
    ensures
        exists|random: u128|
            is_random_uuid(random) && path@ == #[trigger] staging_path_of(
                group_id,
                content_id,
                random,
            ),
{
    staging_path_for(group_id, content_id, random_uuid())
}

/// Where an object is written before it is moved into place, under the given name.
pub fn staging_path_for(group_id: GroupId, content_id: ContentId, random: u128) -> (path: String)
    ensures
        path@ == staging_path_of(group_id, content_id, random),
{
    let mut path: String = "staging/".to_owned();
    push_hex(&mut path, group_id.to_bytes().as_slice());
    vstd::string::StringExecFns::append(&mut path, "-");
    push_hex(&mut path, content_id.as_bytes().as_slice());
    vstd::string::StringExecFns::append(&mut path, "-");
    push_hex(&mut path, FileId::from_u128(random).to_bytes().as_slice());
    vstd::string::StringExecFns::append(&mut path, ".part");
    path
}

} // verus!
