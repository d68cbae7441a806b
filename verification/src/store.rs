//! The store: which objects, members, requests and transfers a device knows of.
use vstd::prelude::*;

use crate::bytes::copy_bytes;
use crate::catalog::{
    checked_transfer_size, sequence_problem, sequence_to_i64, transfer_name_of,
    transfer_size_problem, AuthenticationRow, AuthenticationRowView, ChangeRow, DeviceKey, HeadRow,
    MemberRole, MemberRow, MemberRowView, MemberStatus, ObjectKey, ObjectRow, PathKey,
    PeerObjectKey, PendingRow, PendingRowView, ReferenceKey, RequestRow, RevisionKey, StoreError,
    TransferRow, MAXIMUM_ENCRYPTED_OBJECT_BYTES,
};
use crate::crypto::ed25519_valid_key;
use crate::envelope::{parsed_envelope, EncryptedObject, ObjectKind, ObjectView};
use crate::identity::{
    change_verified, device_id_of, lemma_public_key_ext, AuthorizationView, ChangeAuthorization,
    DevicePublicKey, IdentityError,
};
use crate::ids::{array_of, ContentId, DeviceId, GroupId, RevisionId};
use crate::keys::{GroupKeys, KeysView};
use crate::order::{
    at_most, has_content_id, lemma_sorted, order_ids, ordered_ids, sort_keys, sorted, SortKey,
};
use crate::outcome::agrees;
use crate::table::{kept, lookup, put, removed, Table};
use crate::text::text_equal;

verus! {

/// What a device knows of its groups.
#[derive(Debug)]
pub struct Store {
    pub objects: Table<ObjectKey, ObjectRow>,
    pub requests: Table<PeerObjectKey, RequestRow>,
    pub transfers: Table<PeerObjectKey, TransferRow>,
    pub heads: Table<PathKey, HeadRow>,
    pub pending: Table<PathKey, PendingRow>,
    pub members: Table<DeviceKey, MemberRow>,
    pub authentications: Table<RevisionKey, AuthenticationRow>,
    pub changes: Vec<ChangeRow>,
    pub references: Table<ReferenceKey, ()>,
    pub watermarks: Table<DeviceKey, u64>,
}

/// The contents of a `Store`.
pub struct StoreView {
    pub objects: Seq<(ObjectKey, ObjectRow)>,
    pub requests: Seq<(PeerObjectKey, RequestRow)>,
    pub transfers: Seq<(PeerObjectKey, TransferRow)>,
    pub heads: Seq<(PathKey, HeadRow)>,
    pub pending: Seq<(PathKey, PendingRowView)>,
    pub members: Seq<(DeviceKey, MemberRowView)>,
    pub authentications: Seq<(RevisionKey, AuthenticationRowView)>,
    pub changes: Seq<ChangeRow>,
    pub references: Seq<(ReferenceKey, ())>,
    pub watermarks: Seq<(DeviceKey, u64)>,
}

impl View for Store {
    type V = StoreView;

    open spec fn view(&self) -> StoreView {
        StoreView {
            objects: self.objects@,
            requests: self.requests@,
            transfers: self.transfers@,
            heads: self.heads@,
            pending: self.pending@,
            members: self.members@,
            authentications: self.authentications@,
            changes: self.changes@,
            references: self.references@,
            watermarks: self.watermarks@,
        }
    }
}

impl StoreView {
    /// The contents of a store in which nothing has happened yet.
    pub open spec fn empty() -> StoreView {
        StoreView {
            objects: seq![],
            requests: seq![],
            transfers: seq![],
            heads: seq![],
            pending: seq![],
            members: seq![],
            authentications: seq![],
            changes: seq![],
            references: seq![],
            watermarks: seq![],
        }
    }
}

#[derive(Clone, Copy, Debug, PartialEq, Eq, Structural)]
pub enum Admission {
    Stored,
    AlreadyPresent,
}

#[derive(Clone, Copy, Debug, PartialEq, Eq, Structural)]
pub enum MembershipAdmission {
    Added,
    AlreadyActive,
}

#[derive(Clone, Copy, Debug, PartialEq, Eq, Structural)]
pub enum ChangeAuthenticationAdmission {
    Authenticated,
    AlreadyAuthenticated,
}

#[derive(Clone, Copy, Debug, PartialEq, Eq, Structural)]
pub enum ObjectTransferAdmission {
    Started,
    Resuming { received_size: u64 },
    AlreadyPresent,
}

/// A member of a group.
#[derive(Clone, Copy, Debug, PartialEq, Eq)]
pub struct GroupMember {
    pub device_id: DeviceId,
    pub public_key: DevicePublicKey,
    pub role: MemberRole,
    pub status: MemberStatus,
}

/// The contents of a `GroupMember`.
pub struct MemberView {
    pub device_id: DeviceId,
    pub public_key: Seq<u8>,
    pub role: MemberRole,
    pub status: MemberStatus,
}

impl View for GroupMember {
    type V = MemberView;

    open spec fn view(&self) -> MemberView {
        MemberView {
            device_id: self.device_id,
            public_key: self.public_key@,
            role: self.role,
            status: self.status,
        }
    }
}

/// The signature under a revision.
#[derive(Clone, Copy, Debug, PartialEq, Eq)]
pub struct StoredChangeAuthentication {
    pub revision_id: RevisionId,
    pub content_id: ContentId,
    pub authorization: ChangeAuthorization,
}

/// The contents of a `StoredChangeAuthentication`.
pub struct StoredAuthenticationView {
    pub revision_id: RevisionId,
    pub content_id: ContentId,
    pub authorization: AuthorizationView,
}

impl View for StoredChangeAuthentication {
    type V = StoredAuthenticationView;

    open spec fn view(&self) -> StoredAuthenticationView {
        StoredAuthenticationView {
            revision_id: self.revision_id,
            content_id: self.content_id,
            authorization: self.authorization@,
        }
    }
}

/// A request to a peer that is not yet fulfilled.
#[derive(Clone, Copy, Debug, PartialEq, Eq)]
pub struct ObjectRequestState {
    pub content_id: ContentId,
    pub requested_at_unix_ms: i64,
    pub attempt_count: u64,
    pub last_attempt_at_unix_ms: Option<i64>,
}

/// An object that is arriving.
#[derive(Clone, Copy, Debug, PartialEq, Eq)]
pub struct IncomingObjectTransfer {
    pub request_id: u128,
    pub content_id: ContentId,
    pub encrypted_size: u64,
    pub received_size: u64,
}

/// The rest of an object from some offset on.
#[derive(Clone, Debug, PartialEq, Eq)]
pub struct EncryptedObjectRange {
    pub content_id: ContentId,
    pub encrypted_size: u64,
    pub start_offset: u64,
    pub encrypted_bytes: Vec<u8>,
}

/// The contents of an `EncryptedObjectRange`.
pub struct RangeView {
    pub content_id: ContentId,
    pub encrypted_size: u64,
    pub start_offset: u64,
    pub encrypted_bytes: Seq<u8>,
}

impl View for EncryptedObjectRange {
    type V = RangeView;

    open spec fn view(&self) -> RangeView {
        RangeView {
            content_id: self.content_id,
            encrypted_size: self.encrypted_size,
            start_offset: self.start_offset,
            encrypted_bytes: self.encrypted_bytes@,
        }
    }
}

/// What recovery removed when the store was opened.
#[derive(Clone, Copy, Debug, Default, PartialEq, Eq, Structural)]
pub struct RecoveryReport {
    pub removed_staging_files: usize,
    pub removed_missing_objects: usize,
}

/// What stands where the file of a transfer should be.
#[derive(Clone, Copy, Debug, PartialEq, Eq, Structural)]
pub enum TransferFile {
    Missing,
    Regular { size: u64 },
    Link,
    Other,
}

/// The bytes that may be in a file.
pub open spec fn file_bytes(file: Option<&[u8]>) -> Option<Seq<u8>> {
    match file {
        Some(bytes) => Some(bytes@),
        None => None,
    }
}

/// The member with the given identifier, where its row makes sense.
pub open spec fn member_at(store: StoreView, group_id: GroupId, device_id: DeviceId) -> Result<
    Option<MemberView>,
    StoreError,
> {
    match lookup(store.members, DeviceKey { group_id, device_id }) {
        None => Ok(None),
        Some(row) => if !ed25519_valid_key(row.public_key) {
            Err(StoreError::Identity(IdentityError::InvalidPublicKey))
        } else if device_id_of(row.public_key) != device_id {
            Err(StoreError::MemberKeyMismatch { device_id })
        } else {
            Ok(
                Some(
                    MemberView {
                        device_id,
                        public_key: row.public_key,
                        role: row.role,
                        status: row.status,
                    },
                ),
            )
        },
    }
}

/// Whether a device may be added to a group.
pub open spec fn membership_verdict(
    store: StoreView,
    group_id: GroupId,
    public_key: Seq<u8>,
    role: MemberRole,
) -> Result<MembershipAdmission, StoreError> {
    let device_id = device_id_of(public_key);
    match member_at(store, group_id, device_id) {
        Err(error) => Err(error),
        Ok(None) => Ok(MembershipAdmission::Added),
        Ok(Some(member)) => if member.public_key != public_key {
            Err(StoreError::MemberKeyMismatch { device_id })
        } else if member.role != role {
            Err(
                StoreError::MemberRoleMismatch {
                    device_id,
                    expected: member.role,
                    actual: role,
                },
            )
        } else if member.status == MemberStatus::Revoked {
            Err(StoreError::MemberRevoked { device_id })
        } else {
            Ok(MembershipAdmission::AlreadyActive)
        },
    }
}

/// The store after an attempt to add a device to a group.
pub open spec fn with_member(
    store: StoreView,
    group_id: GroupId,
    public_key: Seq<u8>,
    role: MemberRole,
) -> StoreView {
    match membership_verdict(store, group_id, public_key, role) {
        Ok(MembershipAdmission::Added) => StoreView {
            members: put(
                store.members,
                DeviceKey { group_id, device_id: device_id_of(public_key) },
                MemberRowView { public_key, role, status: MemberStatus::Active },
            ),
            ..store
        },
        _ => store,
    }
}

/// Whether there is an active member to revoke.
pub open spec fn is_revocable(store: StoreView, group_id: GroupId, device_id: DeviceId) -> bool {
    match lookup(store.members, DeviceKey { group_id, device_id }) {
        Some(row) => row.status == MemberStatus::Active,
        None => false,
    }
}

/// The store after a device was revoked.
pub open spec fn with_revocation(
    store: StoreView,
    group_id: GroupId,
    device_id: DeviceId,
) -> StoreView {
    let key = DeviceKey { group_id, device_id };
    match lookup(store.members, key) {
        Some(row) => if row.status == MemberStatus::Active {
            StoreView {
                members: put(
                    store.members,
                    key,
                    MemberRowView { status: MemberStatus::Revoked, ..row },
                ),
                ..store
            }
        } else {
            store
        },
        None => store,
    }
}

/// Whether an active member has signed a change.
pub open spec fn authorization_verdict(
    store: StoreView,
    group_id: GroupId,
    revision_id: RevisionId,
    content_id: ContentId,
    authorization: AuthorizationView,
) -> Result<(), StoreError> {
    match member_at(store, group_id, authorization.author_device_id) {
        Err(error) => Err(error),
        Ok(None) => Err(
            StoreError::UnknownGroupMember { device_id: authorization.author_device_id },
        ),
        Ok(Some(member)) => if member.status != MemberStatus::Active {
            Err(StoreError::MemberRevoked { device_id: member.device_id })
        } else {
            match change_verified(
                member.public_key,
                group_id,
                revision_id,
                content_id,
                authorization,
            ) {
                Err(error) => Err(StoreError::Identity(error)),
                Ok(_) => Ok(()),
            }
        },
    }
}

/// What is wrong with an object that should be there and of the given kind.
pub open spec fn kind_problem(
    store: StoreView,
    group_id: GroupId,
    content_id: ContentId,
    expected: ObjectKind,
) -> Option<StoreError> {
    match lookup(store.objects, ObjectKey { group_id, content_id }) {
        Some(row) => if !row.available {
            Some(StoreError::ObjectNotFound { group_id, content_id })
        } else if row.kind != expected {
            Some(
                StoreError::ObjectKindMismatch {
                    group_id,
                    content_id,
                    expected,
                    actual: row.kind.byte() as i64,
                },
            )
        } else {
            None
        },
        None => Some(StoreError::ObjectNotFound { group_id, content_id }),
    }
}

/// Whether the signature under a change is accepted.
pub open spec fn authentication_verdict(
    store: StoreView,
    group_id: GroupId,
    revision_id: RevisionId,
    content_id: ContentId,
    authorization: AuthorizationView,
) -> Result<ChangeAuthenticationAdmission, StoreError> {
    match lookup(store.authentications, RevisionKey { group_id, revision_id }) {
        Some(row) => if row.content_id == content_id && row.authorization == authorization {
            Ok(ChangeAuthenticationAdmission::AlreadyAuthenticated)
        } else {
            Err(StoreError::ChangeAuthenticationMismatch { revision_id })
        },
        None => match kind_problem(store, group_id, content_id, ObjectKind::Manifest) {
            Some(error) => Err(error),
            None => match authorization_verdict(
                store,
                group_id,
                revision_id,
                content_id,
                authorization,
            ) {
                Err(error) => Err(error),
                Ok(_) => Ok(ChangeAuthenticationAdmission::Authenticated),
            },
        },
    }
}

/// The store after the signature under a change was recorded.
pub open spec fn with_authentication(
    store: StoreView,
    group_id: GroupId,
    revision_id: RevisionId,
    content_id: ContentId,
    authorization: AuthorizationView,
) -> StoreView {
    match authentication_verdict(store, group_id, revision_id, content_id, authorization) {
        Ok(ChangeAuthenticationAdmission::Authenticated) => StoreView {
            authentications: put(
                store.authentications,
                RevisionKey { group_id, revision_id },
                AuthenticationRowView { content_id, authorization },
            ),
            ..store
        },
        _ => store,
    }
}

/// The store with an object marked as lost.
pub open spec fn demoted(store: StoreView, group_id: GroupId, content_id: ContentId) -> StoreView {
    let key = ObjectKey { group_id, content_id };
    match lookup(store.objects, key) {
        Some(row) => StoreView {
            objects: put(store.objects, key, ObjectRow { available: false, ..row }),
            ..store
        },
        None => store,
    }
}

/// Whether an object is there, given whether its file is.
pub open spec fn is_present(
    store: StoreView,
    group_id: GroupId,
    content_id: ContentId,
    file_present: bool,
) -> bool {
    match lookup(store.objects, ObjectKey { group_id, content_id }) {
        Some(row) => row.available && file_present,
        None => false,
    }
}

/// The store after it was asked for an object: one whose file is gone is marked as lost.
pub open spec fn after_look(
    store: StoreView,
    group_id: GroupId,
    content_id: ContentId,
    file_present: bool,
) -> StoreView {
    match lookup(store.objects, ObjectKey { group_id, content_id }) {
        Some(row) => if row.available && !file_present {
            demoted(store, group_id, content_id)
        } else {
            store
        },
        None => store,
    }
}

/// The object that bytes hold, where it is what it should be.
pub open spec fn verified_object(
    keys: KeysView,
    kind: ObjectKind,
    content_id: ContentId,
    bytes: Seq<u8>,
) -> Result<ObjectView, StoreError> {
    if bytes.len() > MAXIMUM_ENCRYPTED_OBJECT_BYTES {
        Err(
            StoreError::ObjectTooLarge {
                actual: bytes.len() as usize,
                maximum: MAXIMUM_ENCRYPTED_OBJECT_BYTES,
            },
        )
    } else {
        match parsed_envelope(bytes) {
            Err(error) => Err(StoreError::Envelope(error)),
            Ok(object) => match keys.opened(kind, content_id, object) {
                Err(error) => Err(StoreError::Crypto(error)),
                Ok(_) => Ok(object),
            },
        }
    }
}

/// The store after an object was written: it is available, and no longer asked of any peer.
pub open spec fn cataloged(
    store: StoreView,
    group_id: GroupId,
    object: ObjectView,
    encrypted_size: nat,
    now: i64,
) -> StoreView {
    let other = |key: PeerObjectKey|
        !(key.group_id == group_id && key.content_id == object.content_id);
    StoreView {
        objects: put(
            store.objects,
            ObjectKey { group_id, content_id: object.content_id },
            ObjectRow {
                kind: object.kind,
                format_version: object.format_version,
                encrypted_size: encrypted_size as u64,
                verified_at_unix_ms: now,
                available: true,
            },
        ),
        requests: kept(store.requests, other),
        transfers: kept(store.transfers, other),
        ..store
    }
}

/// What the file of an object that is too large gives.
pub open spec fn size_problem(bytes: Seq<u8>) -> Option<StoreError> {
    if bytes.len() > MAXIMUM_ENCRYPTED_OBJECT_BYTES {
        Some(
            StoreError::ObjectTooLarge {
                actual: bytes.len() as usize,
                maximum: MAXIMUM_ENCRYPTED_OBJECT_BYTES,
            },
        )
    } else {
        None
    }
}

/// Whether an object is accepted, given what the file in its place holds.
pub open spec fn admission_verdict(
    keys: KeysView,
    kind: ObjectKind,
    content_id: ContentId,
    bytes: Seq<u8>,
    existing: Option<Seq<u8>>,
) -> Result<Admission, StoreError> {
    match verified_object(keys, kind, content_id, bytes) {
        Err(error) => Err(error),
        Ok(_) => match existing {
            None => Ok(Admission::Stored),
            Some(existing) => match size_problem(existing) {
                Some(error) => Err(error),
                None => match verified_object(keys, kind, content_id, existing) {
                    Ok(_) => Ok(Admission::AlreadyPresent),
                    Err(_) => Ok(Admission::Stored),
                },
            },
        },
    }
}

/// The file of an object has still to be written: the object is available, and the file does not
/// hold it.
pub open spec fn file_is_due(
    store: StoreView,
    keys: KeysView,
    kind: ObjectKind,
    content_id: ContentId,
    file: Option<Seq<u8>>,
) -> bool {
    match lookup(store.objects, ObjectKey { group_id: keys.group_id, content_id }) {
        None => false,
        Some(row) => row.available && match file {
            None => true,
            Some(bytes) => verified_object(keys, kind, content_id, bytes) is Err,
        },
    }
}

/// The store after an attempt to admit an object.
pub open spec fn with_object(
    store: StoreView,
    keys: KeysView,
    kind: ObjectKind,
    content_id: ContentId,
    bytes: Seq<u8>,
    existing: Option<Seq<u8>>,
    now: i64,
) -> StoreView {
    match admission_verdict(keys, kind, content_id, bytes, existing) {
        Err(_) => store,
        Ok(Admission::AlreadyPresent) => cataloged(
            store,
            keys.group_id,
            verified_object(keys, kind, content_id, existing->0)->Ok_0,
            existing->0.len(),
            now,
        ),
        Ok(Admission::Stored) => cataloged(
            if existing is Some {
                demoted(store, keys.group_id, content_id)
            } else {
                store
            },
            keys.group_id,
            verified_object(keys, kind, content_id, bytes)->Ok_0,
            bytes.len(),
            now,
        ),
    }
}

/// What loading an object gives.
pub open spec fn loaded(
    store: StoreView,
    keys: KeysView,
    kind: ObjectKind,
    content_id: ContentId,
    file: Option<Seq<u8>>,
) -> Result<Seq<u8>, StoreError> {
    if !is_present(store, keys.group_id, content_id, file is Some) {
        Err(StoreError::ObjectNotFound { group_id: keys.group_id, content_id })
    } else {
        match verified_object(keys, kind, content_id, file->0) {
            Err(error) => Err(error),
            Ok(_) => Ok(file->0),
        }
    }
}

/// The store after an object was loaded: one that fails verification is marked as lost.
pub open spec fn after_load(
    store: StoreView,
    keys: KeysView,
    kind: ObjectKind,
    content_id: ContentId,
    file: Option<Seq<u8>>,
) -> StoreView {
    if is_present(store, keys.group_id, content_id, file is Some) && loaded(
        store,
        keys,
        kind,
        content_id,
        file,
    ) is Err {
        demoted(store, keys.group_id, content_id)
    } else {
        after_look(store, keys.group_id, content_id, file is Some)
    }
}

/// What loading the rest of an object gives.
pub open spec fn loaded_range(
    store: StoreView,
    keys: KeysView,
    content_id: ContentId,
    start_offset: u64,
    file: Option<Seq<u8>>,
) -> Result<RangeView, StoreError> {
    if !is_present(store, keys.group_id, content_id, file is Some) {
        Err(StoreError::ObjectNotFound { group_id: keys.group_id, content_id })
    } else {
        match size_problem(file->0) {
            Some(error) => Err(error),
            None => match parsed_envelope(file->0) {
                Err(error) => Err(StoreError::Envelope(error)),
                Ok(object) => match verified_object(keys, object.kind, content_id, file->0) {
                    Err(error) => Err(error),
                    Ok(_) => if start_offset >= file->0.len() {
                        Err(
                            StoreError::ObjectRangeStartOutOfBounds {
                                content_id,
                                start_offset,
                                encrypted_size: file->0.len() as u64,
                            },
                        )
                    } else {
                        Ok(
                            RangeView {
                                content_id,
                                encrypted_size: file->0.len() as u64,
                                start_offset,
                                encrypted_bytes: file->0.skip(start_offset as int),
                            },
                        )
                    },
                },
            },
        }
    }
}

/// The store after one object was asked of a peer, unless it is there.
pub open spec fn with_request(
    store: StoreView,
    group_id: GroupId,
    peer_device_id: DeviceId,
    content_id: ContentId,
    file_present: bool,
    now: i64,
) -> StoreView {
    let key = PeerObjectKey { group_id, peer_device_id, content_id };
    let looked = after_look(store, group_id, content_id, file_present);
    if is_new_request(store, group_id, peer_device_id, content_id, file_present) {
        StoreView {
            requests: put(
                looked.requests,
                key,
                RequestRow {
                    requested_at_unix_ms: now,
                    attempt_count: 0,
                    last_attempt_at_unix_ms: None,
                },
            ),
            ..looked
        }
    } else {
        looked
    }
}

/// An object is neither there nor asked of the peer.
pub open spec fn is_new_request(
    store: StoreView,
    group_id: GroupId,
    peer_device_id: DeviceId,
    content_id: ContentId,
    file_present: bool,
) -> bool {
    !is_present(store, group_id, content_id, file_present) && lookup(
        store.requests,
        PeerObjectKey { group_id, peer_device_id, content_id },
    ) is None
}

/// The store after objects were asked of a peer, and how many of the requests are new.
pub open spec fn with_requests(
    store: StoreView,
    group_id: GroupId,
    peer_device_id: DeviceId,
    content_ids: Seq<ContentId>,
    present: Seq<ContentId>,
    now: i64,
) -> (StoreView, nat)
    decreases content_ids.len(),
{
    if content_ids.len() == 0 {
        (store, 0)
    } else {
        let (before, count) = with_requests(
            store,
            group_id,
            peer_device_id,
            content_ids.drop_last(),
            present,
            now,
        );
        let content_id = content_ids.last();
        (
            with_request(
                before,
                group_id,
                peer_device_id,
                content_id,
                present.contains(content_id),
                now,
            ),
            if is_new_request(
                before,
                group_id,
                peer_device_id,
                content_id,
                present.contains(content_id),
            ) {
                count + 1
            } else {
                count
            },
        )
    }
}

/// What the requests to a peer are sorted by: when they were made, and of what.
pub open spec fn request_keys(
    rows: Seq<(PeerObjectKey, RequestRow)>,
    group_id: GroupId,
    peer_device_id: DeviceId,
) -> Seq<SortKey>
    decreases rows.len(),
{
    if rows.len() == 0 {
        seq![]
    } else {
        let before = request_keys(rows.drop_last(), group_id, peer_device_id);
        let (key, row) = rows.last();
        if key.group_id == group_id && key.peer_device_id == peer_device_id {
            before.push(
                SortKey {
                    time: row.requested_at_unix_ms,
                    high: key.content_id.high,
                    low: key.content_id.low,
                },
            )
        } else {
            before
        }
    }
}

/// The request that a sort key stands for.
pub open spec fn request_state(
    store: StoreView,
    group_id: GroupId,
    peer_device_id: DeviceId,
    key: SortKey,
) -> ObjectRequestState {
    let content_id = ContentId { high: key.high, low: key.low };
    let row = lookup(
        store.requests,
        PeerObjectKey { group_id, peer_device_id, content_id },
    )->0;
    ObjectRequestState {
        content_id,
        requested_at_unix_ms: row.requested_at_unix_ms,
        attempt_count: row.attempt_count,
        last_attempt_at_unix_ms: row.last_attempt_at_unix_ms,
    }
}

/// The oldest requests to a peer.
pub open spec fn pending_requests(
    store: StoreView,
    group_id: GroupId,
    peer_device_id: DeviceId,
    maximum: nat,
) -> Seq<ObjectRequestState> {
    let page = at_most(
        sorted(request_keys(store.requests, group_id, peer_device_id)),
        maximum,
    );
    Seq::new(page.len(), |i: int| request_state(store, group_id, peer_device_id, page[i]))
}

/// The transfer of an object from a peer, where its row makes sense.
pub open spec fn transfer_at(
    store: StoreView,
    group_id: GroupId,
    peer_device_id: DeviceId,
    content_id: ContentId,
) -> Result<Option<IncomingObjectTransfer>, StoreError> {
    match lookup(store.transfers, PeerObjectKey { group_id, peer_device_id, content_id }) {
        None => Ok(None),
        Some(row) => if row.request_id == 0 {
            Err(StoreError::NilTransferRequestId)
        } else {
            Ok(
                Some(
                    IncomingObjectTransfer {
                        request_id: row.request_id,
                        content_id,
                        encrypted_size: row.encrypted_size,
                        received_size: row.received_size,
                    },
                ),
            )
        },
    }
}

/// Whether the transfer of an object may begin or go on.
pub open spec fn transfer_verdict(
    store: StoreView,
    group_id: GroupId,
    peer_device_id: DeviceId,
    request_id: u128,
    content_id: ContentId,
    encrypted_size: u64,
    file_present: bool,
) -> Result<ObjectTransferAdmission, StoreError> {
    if request_id == 0 {
        Err(StoreError::NilTransferRequestId)
    } else {
        match transfer_size_problem(encrypted_size) {
            Some(error) => Err(error),
            None => if is_present(store, group_id, content_id, file_present) {
                Ok(ObjectTransferAdmission::AlreadyPresent)
            } else if lookup(
                store.requests,
                PeerObjectKey { group_id, peer_device_id, content_id },
            ) is None {
                Err(StoreError::ObjectNotRequested { peer_device_id, content_id })
            } else {
                match transfer_at(store, group_id, peer_device_id, content_id) {
                    Err(error) => Err(error),
                    Ok(None) => Ok(ObjectTransferAdmission::Started),
                    Ok(Some(existing)) => if existing.encrypted_size != encrypted_size {
                        Err(
                            StoreError::TransferSizeMismatch {
                                content_id,
                                expected: existing.encrypted_size,
                                actual: encrypted_size,
                            },
                        )
                    } else {
                        Ok(
                            ObjectTransferAdmission::Resuming {
                                received_size: existing.received_size,
                            },
                        )
                    },
                }
            },
        }
    }
}

/// The store after the transfer of an object began or was taken up again.
pub open spec fn with_transfer(
    store: StoreView,
    group_id: GroupId,
    peer_device_id: DeviceId,
    request_id: u128,
    content_id: ContentId,
    encrypted_size: u64,
    file_present: bool,
) -> StoreView {
    let looked = if request_id == 0 || transfer_size_problem(encrypted_size) is Some {
        store
    } else {
        after_look(store, group_id, content_id, file_present)
    };
    match transfer_verdict(
        store,
        group_id,
        peer_device_id,
        request_id,
        content_id,
        encrypted_size,
        file_present,
    ) {
        Ok(ObjectTransferAdmission::Started) => with_transfer_row(
            looked,
            group_id,
            peer_device_id,
            content_id,
            TransferRow { request_id, encrypted_size, received_size: 0 },
        ),
        Ok(ObjectTransferAdmission::Resuming { received_size }) => with_transfer_row(
            looked,
            group_id,
            peer_device_id,
            content_id,
            TransferRow { request_id, encrypted_size, received_size },
        ),
        _ => looked,
    }
}

/// The store with the given row for the transfer of an object.
pub open spec fn with_transfer_row(
    store: StoreView,
    group_id: GroupId,
    peer_device_id: DeviceId,
    content_id: ContentId,
    row: TransferRow,
) -> StoreView {
    StoreView {
        transfers: put(
            store.transfers,
            PeerObjectKey { group_id, peer_device_id, content_id },
            row,
        ),
        ..store
    }
}

/// How far a transfer comes with further bytes, given the size of the file that they go to.
pub open spec fn append_verdict(
    store: StoreView,
    group_id: GroupId,
    peer_device_id: DeviceId,
    content_id: ContentId,
    expected_offset: u64,
    count: nat,
    file_size: Option<u64>,
) -> Result<u64, StoreError> {
    match transfer_at(store, group_id, peer_device_id, content_id) {
        Err(error) => Err(error),
        Ok(None) => Err(StoreError::ObjectTransferNotFound { peer_device_id, content_id }),
        Ok(Some(transfer)) => if transfer.received_size != expected_offset {
            Err(
                StoreError::TransferOffsetMismatch {
                    content_id,
                    expected: transfer.received_size,
                    actual: expected_offset,
                },
            )
        } else if count == 0 {
            Ok(transfer.received_size)
        } else if transfer.received_size + count > u64::MAX {
            Err(
                StoreError::TransferExceedsExpectedSize {
                    content_id,
                    expected: transfer.encrypted_size,
                    actual: u64::MAX,
                },
            )
        } else if transfer.received_size + count > transfer.encrypted_size {
            Err(
                StoreError::TransferExceedsExpectedSize {
                    content_id,
                    expected: transfer.encrypted_size,
                    actual: (transfer.received_size + count) as u64,
                },
            )
        } else {
            match file_size {
                None => Err(StoreError::Io),
                Some(actual) => if actual != transfer.received_size {
                    Err(
                        StoreError::TransferFileLengthMismatch {
                            content_id,
                            catalog: transfer.received_size,
                            actual,
                        },
                    )
                } else if sequence_problem((transfer.received_size + count) as u64) is Some {
                    Err(sequence_problem((transfer.received_size + count) as u64)->0)
                } else {
                    Ok((transfer.received_size + count) as u64)
                },
            }
        },
    }
}

/// The store after further bytes of an object arrived.
pub open spec fn with_appended(
    store: StoreView,
    group_id: GroupId,
    peer_device_id: DeviceId,
    content_id: ContentId,
    expected_offset: u64,
    count: nat,
    file_size: Option<u64>,
) -> StoreView {
    let key = PeerObjectKey { group_id, peer_device_id, content_id };
    match append_verdict(
        store,
        group_id,
        peer_device_id,
        content_id,
        expected_offset,
        count,
        file_size,
    ) {
        Ok(received_size) => if count == 0 {
            store
        } else {
            with_transfer_row(
                store,
                group_id,
                peer_device_id,
                content_id,
                TransferRow { received_size, ..lookup(store.transfers, key)->0 },
            )
        },
        Err(_) => store,
    }
}

/// The object that a transfer has brought, where all of it has arrived.
pub open spec fn arrived_object(
    store: StoreView,
    group_id: GroupId,
    peer_device_id: DeviceId,
    content_id: ContentId,
    file: Option<Seq<u8>>,
) -> Result<ObjectView, StoreError> {
    match transfer_at(store, group_id, peer_device_id, content_id) {
        Err(error) => Err(error),
        Ok(None) => Err(StoreError::ObjectTransferNotFound { peer_device_id, content_id }),
        Ok(Some(transfer)) => if transfer.received_size != transfer.encrypted_size {
            Err(
                StoreError::ObjectTransferIncomplete {
                    content_id,
                    expected: transfer.encrypted_size,
                    actual: transfer.received_size,
                },
            )
        } else {
            match file {
                None => Err(StoreError::Io),
                Some(bytes) => match size_problem(bytes) {
                    Some(error) => Err(error),
                    None => match parsed_envelope(bytes) {
                        Err(error) => Err(StoreError::Envelope(error)),
                        Ok(object) => Ok(object),
                    },
                },
            }
        },
    }
}

/// Whether what a transfer has brought is accepted.
pub open spec fn completion_verdict(
    store: StoreView,
    keys: KeysView,
    peer_device_id: DeviceId,
    content_id: ContentId,
    file: Option<Seq<u8>>,
    existing: Option<Seq<u8>>,
) -> Result<Admission, StoreError> {
    match arrived_object(store, keys.group_id, peer_device_id, content_id, file) {
        Err(error) => Err(error),
        Ok(object) => admission_verdict(keys, object.kind, content_id, file->0, existing),
    }
}

/// The store after what a transfer has brought was accepted.
pub open spec fn with_completion(
    store: StoreView,
    keys: KeysView,
    peer_device_id: DeviceId,
    content_id: ContentId,
    file: Option<Seq<u8>>,
    existing: Option<Seq<u8>>,
    now: i64,
) -> StoreView {
    match arrived_object(store, keys.group_id, peer_device_id, content_id, file) {
        Err(_) => store,
        Ok(object) => with_object(store, keys, object.kind, content_id, file->0, existing, now),
    }
}

/// The row of a transfer after recovery, given what stands where its file should be.
pub open spec fn recovered_row(row: TransferRow, file: TransferFile) -> Option<TransferRow> {
    match file {
        TransferFile::Regular { size } => if size <= row.encrypted_size {
            Some(TransferRow { received_size: size, ..row })
        } else {
            None
        },
        _ => None,
    }
}

/// Whether recovery removes what stands where the file of a transfer should be.
pub open spec fn is_discarded(row: TransferRow, file: TransferFile) -> bool {
    match file {
        TransferFile::Regular { size } => size > row.encrypted_size,
        TransferFile::Link => true,
        _ => false,
    }
}

/// The rows of the transfers that recovery keeps.
pub open spec fn recovered_transfers(
    rows: Seq<(PeerObjectKey, TransferRow)>,
    files: Seq<TransferFile>,
) -> Seq<(PeerObjectKey, TransferRow)>
    decreases rows.len(),
{
    if rows.len() == 0 {
        seq![]
    } else {
        let before = recovered_transfers(rows.drop_last(), files);
        match recovered_row(rows.last().1, files[rows.len() - 1]) {
            Some(row) => before.push((rows.last().0, row)),
            None => before,
        }
    }
}

/// The transfers whose files recovery removes.
pub open spec fn discarded_files(
    rows: Seq<(PeerObjectKey, TransferRow)>,
    files: Seq<TransferFile>,
) -> Seq<PeerObjectKey>
    decreases rows.len(),
{
    if rows.len() == 0 {
        seq![]
    } else {
        let before = discarded_files(rows.drop_last(), files);
        if is_discarded(rows.last().1, files[rows.len() - 1]) {
            before.push(rows.last().0)
        } else {
            before
        }
    }
}

/// A file belongs to a transfer that is under way.
pub open spec fn is_transfer_file(store: StoreView, name: Seq<char>) -> bool {
    exists|i: int|
        0 <= i < store.transfers.len() && name == transfer_name_of(
            (#[trigger] store.transfers[i]).0.group_id,
            store.transfers[i].0.peer_device_id,
            store.transfers[i].0.content_id,
        )
}

/// The rows of the objects after recovery, given which of their files are there.
pub open spec fn recovered_objects(
    rows: Seq<(ObjectKey, ObjectRow)>,
    present: Seq<ObjectKey>,
) -> Seq<(ObjectKey, ObjectRow)> {
    Seq::new(
        rows.len(),
        |i: int|
            (
                rows[i].0,
                ObjectRow {
                    available: rows[i].1.available && present.contains(rows[i].0),
                    ..rows[i].1
                },
            ),
    )
}

/// How many objects recovery marks as lost.
pub open spec fn lost_objects(
    rows: Seq<(ObjectKey, ObjectRow)>,
    present: Seq<ObjectKey>,
) -> nat
    decreases rows.len(),
{
    if rows.len() == 0 {
        0
    } else {
        lost_objects(rows.drop_last(), present) + if rows.last().1.available && !present.contains(
            rows.last().0,
        ) {
            1nat
        } else {
            0nat
        }
    }
}

/// Opens the object that bytes hold, and tests that it is what it should be.
pub fn verify_object(
    keys: &GroupKeys,
    expected_kind: ObjectKind,
    expected_content_id: ContentId,
    encrypted_bytes: &[u8],
) -> (result: Result<EncryptedObject, StoreError>)
    ensures
        agrees(
            result,
            verified_object(keys@, expected_kind, expected_content_id, encrypted_bytes@),
        ),
{
    if encrypted_bytes.len() > MAXIMUM_ENCRYPTED_OBJECT_BYTES {
        return Err(
            StoreError::ObjectTooLarge {
                actual: encrypted_bytes.len(),
                maximum: MAXIMUM_ENCRYPTED_OBJECT_BYTES,
            },
        );
    }
    let object: EncryptedObject = match EncryptedObject::from_bytes(encrypted_bytes) {
        Ok(object) => object,
        Err(error) => {
            return Err(StoreError::Envelope(error));
        },
    };
    match keys.open(expected_kind, expected_content_id, &object) {
        Ok(_) => Ok(object),
        Err(error) => Err(StoreError::Crypto(error)),
    }
}

fn check_size(bytes: &[u8]) -> (result: Result<(), StoreError>)
    ensures
        match result {
            Ok(_) => size_problem(bytes@) is None,
            Err(error) => size_problem(bytes@) == Some(error),
        },
{
    if bytes.len() > MAXIMUM_ENCRYPTED_OBJECT_BYTES {
        return Err(
            StoreError::ObjectTooLarge {
                actual: bytes.len(),
                maximum: MAXIMUM_ENCRYPTED_OBJECT_BYTES,
            },
        );
    }
    Ok(())
}

fn has_object_key(keys: &Vec<ObjectKey>, key: ObjectKey) -> (found: bool)
    ensures
        found == keys@.contains(key),
{
    let mut index: usize = 0;
    while index < keys.len()
        invariant
            index <= keys@.len(),
            forall|i: int| 0 <= i < index ==> keys@[i] != key,
        decreases keys@.len() - index,
    {
        if keys[index] == key {
            assert(keys@[index as int] == key);
            return true;
        }
        index += 1;
    }
    false
}

impl Store {
    /// A store in which nothing has happened yet.
    pub fn new() -> (store: Self)
        ensures
            store@ == StoreView::empty(),
    {
        let store: Store = Store {
            objects: Table::new(),
            requests: Table::new(),
            transfers: Table::new(),
            heads: Table::new(),
            pending: Table::new(),
            members: Table::new(),
            authentications: Table::new(),
            changes: Vec::new(),
            references: Table::new(),
            watermarks: Table::new(),
        };
        assert(store@.changes =~= seq![]);
        store
    }

    /// The member of a group with the given identifier.
    pub fn group_member(&self, group_id: GroupId, device_id: DeviceId) -> (result: Result<
        Option<GroupMember>,
        StoreError,
    >)
        ensures
            match result {
                Ok(Some(member)) => member_at(self@, group_id, device_id) == Ok::<
                    Option<MemberView>,
                    StoreError,
                >(Some(member@)),
                Ok(None) => member_at(self@, group_id, device_id) == Ok::<
                    Option<MemberView>,
                    StoreError,
                >(None),
                Err(error) => member_at(self@, group_id, device_id) == Err::<
                    Option<MemberView>,
                    StoreError,
                >(error),
            },
    {
        match self.members.get(DeviceKey { group_id, device_id }) {
            None => Ok(None),
            Some(row) => {
                let public_key: DevicePublicKey = match DevicePublicKey::from_bytes(
                    row.public_key,
                ) {
                    Ok(public_key) => public_key,
                    Err(error) => {
                        return Err(StoreError::Identity(error));
                    },
                };
                if public_key.device_id() != device_id {
                    return Err(StoreError::MemberKeyMismatch { device_id });
                }
                Ok(
                    Some(
                        GroupMember { device_id, public_key, role: row.role, status: row.status },
                    ),
                )
            },
        }
    }

    /// Adds a device to a group.
    pub fn add_group_member(
        &mut self,
        group_id: GroupId,
        public_key: DevicePublicKey,
        role: MemberRole,
    ) -> (result: Result<MembershipAdmission, StoreError>)
        ensures
            result == membership_verdict(old(self)@, group_id, public_key@, role),
            final(self)@ == with_member(old(self)@, group_id, public_key@, role),
    {
        let device_id: DeviceId = public_key.device_id();
        if let Some(existing) = self.group_member(group_id, device_id)? {
            proof {
                lemma_public_key_ext(existing.public_key, public_key);
            }
            if existing.public_key != public_key {
                return Err(StoreError::MemberKeyMismatch { device_id });
            }
            if existing.role != role {
                return Err(
                    StoreError::MemberRoleMismatch {
                        device_id,
                        expected: existing.role,
                        actual: role,
                    },
                );
            }
            if existing.status == MemberStatus::Revoked {
                return Err(StoreError::MemberRevoked { device_id });
            }
            return Ok(MembershipAdmission::AlreadyActive);
        }
        let row: MemberRow = MemberRow {
            public_key: array_of(public_key.as_bytes().as_slice()),
            role,
            status: MemberStatus::Active,
        };
        self.members.put(DeviceKey { group_id, device_id }, row);
        Ok(MembershipAdmission::Added)
    }

    /// Revokes a device. It stays known, and cannot be added again.
    pub fn revoke_group_member(&mut self, group_id: GroupId, device_id: DeviceId) -> (revoked: bool)
        ensures
            revoked == is_revocable(old(self)@, group_id, device_id),
            final(self)@ == with_revocation(old(self)@, group_id, device_id),
    {
        let key: DeviceKey = DeviceKey { group_id, device_id };
        let row: MemberRow = match self.members.get(key) {
            Some(row) => *row,
            None => {
                return false;
            },
        };
        if row.status != MemberStatus::Active {
            return false;
        }
        let revoked: MemberRow = MemberRow {
            public_key: row.public_key,
            role: row.role,
            status: MemberStatus::Revoked,
        };
        self.members.put(key, revoked);
        true
    }

    /// Tests that an active member has signed a change.
    pub fn verify_change_authorization(
        &self,
        group_id: GroupId,
        revision_id: RevisionId,
        content_id: ContentId,
        authorization: ChangeAuthorization,
    ) -> (result: Result<(), StoreError>)
        ensures
            result == authorization_verdict(
                self@,
                group_id,
                revision_id,
                content_id,
                authorization@,
            ),
    {
        let member: GroupMember = match self.group_member(
            group_id,
            authorization.author_device_id,
        )? {
            Some(member) => member,
            None => {
                return Err(
                    StoreError::UnknownGroupMember { device_id: authorization.author_device_id },
                );
            },
        };
        if member.status != MemberStatus::Active {
            return Err(StoreError::MemberRevoked { device_id: member.device_id });
        }
        match member.public_key.verify_change(group_id, revision_id, content_id, authorization) {
            Ok(_) => Ok(()),
            Err(error) => Err(StoreError::Identity(error)),
        }
    }

    /// The signature under a revision.
    pub fn change_authentication(&self, group_id: GroupId, revision_id: RevisionId) -> (result: Option<
        StoredChangeAuthentication,
    >)
        ensures
            match (
                result,
                lookup(self@.authentications, RevisionKey { group_id, revision_id }),
            ) {
                (Some(found), Some(row)) => found@ == (StoredAuthenticationView {
                    revision_id,
                    content_id: row.content_id,
                    authorization: row.authorization,
                }),
                (None, None) => true,
                _ => false,
            },
    {
        match self.authentications.get(RevisionKey { group_id, revision_id }) {
            Some(row) => Some(
                StoredChangeAuthentication {
                    revision_id,
                    content_id: row.content_id,
                    authorization: row.authorization,
                },
            ),
            None => None,
        }
    }

    /// Tests that an object is there and of the given kind.
    pub fn require_object_kind(
        &self,
        group_id: GroupId,
        content_id: ContentId,
        expected: ObjectKind,
    ) -> (result: Result<(), StoreError>)
        ensures
            match result {
                Ok(_) => kind_problem(self@, group_id, content_id, expected) is None,
                Err(error) => kind_problem(self@, group_id, content_id, expected) == Some(error),
            },
    {
        match self.objects.get(ObjectKey { group_id, content_id }) {
            Some(row) => {
                if !row.available {
                    return Err(StoreError::ObjectNotFound { group_id, content_id });
                }
                if row.kind != expected {
                    return Err(
                        StoreError::ObjectKindMismatch {
                            group_id,
                            content_id,
                            expected,
                            actual: row.kind.to_byte() as i64,
                        },
                    );
                }
                Ok(())
            },
            None => Err(StoreError::ObjectNotFound { group_id, content_id }),
        }
    }

    /// Tests whether the signature under a change is to be accepted.
    pub fn check_authentication(
        &self,
        group_id: GroupId,
        revision_id: RevisionId,
        content_id: ContentId,
        authorization: ChangeAuthorization,
    ) -> (result: Result<ChangeAuthenticationAdmission, StoreError>)
        ensures
            result == authentication_verdict(
                self@,
                group_id,
                revision_id,
                content_id,
                authorization@,
            ),
    {
        if let Some(existing) = self.authentications.get(RevisionKey { group_id, revision_id }) {
            proof {
                lemma_authorization_ext(existing.authorization, authorization);
            }
            if existing.content_id == content_id && existing.authorization == authorization {
                return Ok(ChangeAuthenticationAdmission::AlreadyAuthenticated);
            }
            return Err(StoreError::ChangeAuthenticationMismatch { revision_id });
        }
        self.require_object_kind(group_id, content_id, ObjectKind::Manifest)?;
        self.verify_change_authorization(group_id, revision_id, content_id, authorization)?;
        Ok(ChangeAuthenticationAdmission::Authenticated)
    }

    /// Records the signature under a change.
    pub fn admit_change_authentication(
        &mut self,
        group_id: GroupId,
        revision_id: RevisionId,
        content_id: ContentId,
        authorization: ChangeAuthorization,
    ) -> (result: Result<ChangeAuthenticationAdmission, StoreError>)
        ensures
            result == authentication_verdict(
                old(self)@,
                group_id,
                revision_id,
                content_id,
                authorization@,
            ),
            final(self)@ == with_authentication(
                old(self)@,
                group_id,
                revision_id,
                content_id,
                authorization@,
            ),
    {
        let admission: ChangeAuthenticationAdmission = self.check_authentication(
            group_id,
            revision_id,
            content_id,
            authorization,
        )?;
        if admission == ChangeAuthenticationAdmission::Authenticated {
            self.authentications.put(
                RevisionKey { group_id, revision_id },
                AuthenticationRow { content_id, authorization },
            );
        }
        Ok(admission)
    }

    /// Marks an object as lost.
    pub fn invalidate_object(&mut self, group_id: GroupId, content_id: ContentId)
        ensures
            final(self)@ == demoted(old(self)@, group_id, content_id),
    {
        let key: ObjectKey = ObjectKey { group_id, content_id };
        let row: Option<ObjectRow> = match self.objects.get(key) {
            Some(row) => Some(*row),
            None => None,
        };
        if let Some(row) = row {
            self.objects.put(
                key,
                ObjectRow {
                    kind: row.kind,
                    format_version: row.format_version,
                    encrypted_size: row.encrypted_size,
                    verified_at_unix_ms: row.verified_at_unix_ms,
                    available: false,
                },
            );
        }
    }

    /// Tells whether the file of an object has still to be written, given what it holds: the object
    /// is available, and the file does not hold it.
    pub fn lacks_file(
        &self,
        keys: &GroupKeys,
        kind: ObjectKind,
        content_id: ContentId,
        file: Option<&[u8]>,
    ) -> (lacks: bool)
        ensures
            lacks == file_is_due(self@, keys@, kind, content_id, file_bytes(file)),
    {
        match self.objects.get(ObjectKey { group_id: keys.group_id(), content_id }) {
            None => false,
            Some(row) => row.available && match file {
                None => true,
                Some(bytes) => verify_object(keys, kind, content_id, bytes).is_err(),
            },
        }
    }

    /// Tells whether an object is known and lost.
    pub fn is_lost(&self, group_id: GroupId, content_id: ContentId) -> (lost: bool)
        ensures
            lost == match lookup(self@.objects, ObjectKey { group_id, content_id }) {
                Some(row) => !row.available,
                None => false,
            },
    {
        match self.objects.get(ObjectKey { group_id, content_id }) {
            Some(row) => !row.available,
            None => false,
        }
    }

    /// Tests whether an object is there, given whether its file is. An object whose file is gone
    /// is marked as lost.
    pub fn has_object(
        &mut self,
        group_id: GroupId,
        content_id: ContentId,
        file_present: bool,
    ) -> (present: bool)
        ensures
            present == is_present(old(self)@, group_id, content_id, file_present),
            final(self)@ == after_look(old(self)@, group_id, content_id, file_present),
    {
        let available: bool = match self.objects.get(ObjectKey { group_id, content_id }) {
            Some(row) => row.available,
            None => false,
        };
        if !available {
            return false;
        }
        if file_present {
            return true;
        }
        self.invalidate_object(group_id, content_id);
        false
    }

    /// Records that an object was written.
    pub fn catalog_object(
        &mut self,
        group_id: GroupId,
        object: &EncryptedObject,
        encrypted_size: usize,
        now: i64,
    )
        ensures
            final(self)@ == cataloged(old(self)@, group_id, object@, encrypted_size as nat, now),
    {
        let content_id: ContentId = object.content_id();
        self.objects.put(
            ObjectKey { group_id, content_id },
            ObjectRow {
                kind: object.kind(),
                format_version: object.format_version(),
                encrypted_size: encrypted_size as u64,
                verified_at_unix_ms: now,
                available: true,
            },
        );
        let ghost other = |key: PeerObjectKey|
            !(key.group_id == group_id && key.content_id == object@.content_id);
        let keep_request = |key: PeerObjectKey| -> (answer: bool)
            ensures
                answer == !(key.group_id == group_id && key.content_id == content_id),
        {
            !(key.group_id == group_id && key.content_id == content_id)
        };
        let keep_transfer = |key: PeerObjectKey| -> (answer: bool)
            ensures
                answer == !(key.group_id == group_id && key.content_id == content_id),
        {
            !(key.group_id == group_id && key.content_id == content_id)
        };
        self.requests.retain(keep_request, Ghost(other));
        self.transfers.retain(keep_transfer, Ghost(other));
    }

    /// Accepts an object that verifies, given what the file in its place holds.
    pub fn admit_object(
        &mut self,
        keys: &GroupKeys,
        expected_kind: ObjectKind,
        expected_content_id: ContentId,
        encrypted_bytes: &[u8],
        existing: Option<&[u8]>,
        now: i64,
    ) -> (result: Result<Admission, StoreError>)
        ensures
            result == admission_verdict(
                keys@,
                expected_kind,
                expected_content_id,
                encrypted_bytes@,
                file_bytes(existing),
            ),
            final(self)@ == with_object(
                old(self)@,
                keys@,
                expected_kind,
                expected_content_id,
                encrypted_bytes@,
                file_bytes(existing),
                now,
            ),
    {
        let object: EncryptedObject = verify_object(
            keys,
            expected_kind,
            expected_content_id,
            encrypted_bytes,
        )?;
        let group_id: GroupId = keys.group_id();
        if let Some(existing_bytes) = existing {
            check_size(existing_bytes)?;
            if let Ok(existing_object) = verify_object(
                keys,
                expected_kind,
                expected_content_id,
                existing_bytes,
            ) {
                self.catalog_object(group_id, &existing_object, existing_bytes.len(), now);
                return Ok(Admission::AlreadyPresent);
            }
            self.invalidate_object(group_id, expected_content_id);
        }
        self.catalog_object(group_id, &object, encrypted_bytes.len(), now);
        Ok(Admission::Stored)
    }

    /// Loads an object from its file. One that fails verification is marked as lost.
    pub fn load_object(
        &mut self,
        keys: &GroupKeys,
        expected_kind: ObjectKind,
        expected_content_id: ContentId,
        file: Option<&[u8]>,
    ) -> (result: Result<Vec<u8>, StoreError>)
        ensures
            agrees(
                result,
                loaded(old(self)@, keys@, expected_kind, expected_content_id, file_bytes(file)),
            ),
            final(self)@ == after_load(
                old(self)@,
                keys@,
                expected_kind,
                expected_content_id,
                file_bytes(file),
            ),
    {
        let group_id: GroupId = keys.group_id();
        if !self.has_object(group_id, expected_content_id, file.is_some()) {
            return Err(StoreError::ObjectNotFound { group_id, content_id: expected_content_id });
        }
        match file {
            Some(bytes) => match verify_object(keys, expected_kind, expected_content_id, bytes) {
                Ok(_) => Ok(copy_bytes(bytes)),
                Err(error) => {
                    self.invalidate_object(group_id, expected_content_id);
                    Err(error)
                },
            },
            None => Err(StoreError::ObjectNotFound { group_id, content_id: expected_content_id }),
        }
    }

    /// Loads the rest of an object from its file.
    pub fn load_object_range(
        &mut self,
        keys: &GroupKeys,
        content_id: ContentId,
        start_offset: u64,
        file: Option<&[u8]>,
    ) -> (result: Result<EncryptedObjectRange, StoreError>)
        ensures
            agrees(
                result,
                loaded_range(old(self)@, keys@, content_id, start_offset, file_bytes(file)),
            ),
            final(self)@ == after_look(
                old(self)@,
                keys@.group_id,
                content_id,
                file_bytes(file) is Some,
            ),
    {
        let group_id: GroupId = keys.group_id();
        if !self.has_object(group_id, content_id, file.is_some()) {
            return Err(StoreError::ObjectNotFound { group_id, content_id });
        }
        let encrypted_bytes: &[u8] = match file {
            Some(bytes) => bytes,
            None => {
                return Err(StoreError::ObjectNotFound { group_id, content_id });
            },
        };
        check_size(encrypted_bytes)?;
        let object: EncryptedObject = match EncryptedObject::from_bytes(encrypted_bytes) {
            Ok(object) => object,
            Err(error) => {
                return Err(StoreError::Envelope(error));
            },
        };
        verify_object(keys, object.kind(), content_id, encrypted_bytes)?;
        let encrypted_size: u64 = encrypted_bytes.len() as u64;
        if start_offset >= encrypted_size {
            return Err(
                StoreError::ObjectRangeStartOutOfBounds {
                    content_id,
                    start_offset,
                    encrypted_size,
                },
            );
        }
        let rest: &[u8] = vstd::slice::slice_subrange(
            encrypted_bytes,
            start_offset as usize,
            encrypted_bytes.len(),
        );
        assert(rest@ =~= encrypted_bytes@.skip(start_offset as int));
        Ok(
            EncryptedObjectRange {
                content_id,
                encrypted_size,
                start_offset,
                encrypted_bytes: copy_bytes(rest),
            },
        )
    }

    /// Asks objects of a peer, unless they are there or already asked for, and tells how many
    /// requests are new. `present` holds those of the objects whose files are there.
    pub fn queue_object_requests(
        &mut self,
        group_id: GroupId,
        peer_device_id: DeviceId,
        content_ids: &Vec<ContentId>,
        present: &Vec<ContentId>,
        now: i64,
    ) -> (inserted: usize)
        ensures
            (final(self)@, inserted as nat) == with_requests(
                old(self)@,
                group_id,
                peer_device_id,
                ordered_ids(content_ids@),
                present@,
                now,
            ),
    {
        let ghost start = self@;
        let candidates: Vec<ContentId> = order_ids(content_ids);
        let mut inserted: usize = 0;
        let mut index: usize = 0;
        assert(candidates@.take(0) =~= seq![]);
        while index < candidates.len()
            invariant
                index <= candidates@.len(),
                inserted <= index,
                (self@, inserted as nat) == with_requests(
                    start,
                    group_id,
                    peer_device_id,
                    candidates@.take(index as int),
                    present@,
                    now,
                ),
            decreases candidates@.len() - index,
        {
            proof {
                assert(candidates@.take(index + 1).drop_last() =~= candidates@.take(index as int));
                assert(candidates@.take(index + 1).last() == candidates@[index as int]);
            }
            let content_id: ContentId = candidates[index];
            let file_present: bool = has_content_id(present, content_id);
            if !self.has_object(group_id, content_id, file_present) {
                let key: PeerObjectKey = PeerObjectKey { group_id, peer_device_id, content_id };
                if !self.requests.has(key) {
                    self.requests.put(
                        key,
                        RequestRow {
                            requested_at_unix_ms: now,
                            attempt_count: 0,
                            last_attempt_at_unix_ms: None,
                        },
                    );
                    inserted += 1;
                }
            }
            index += 1;
        }
        assert(candidates@.take(index as int) =~= candidates@);
        inserted
    }

    /// The oldest requests to a peer, at most as many as asked for.
    pub fn pending_object_requests(
        &self,
        group_id: GroupId,
        peer_device_id: DeviceId,
        maximum: usize,
    ) -> (states: Vec<ObjectRequestState>)
        ensures
            states@ == pending_requests(self@, group_id, peer_device_id, maximum as nat),
    {
        let ghost rows = self@.requests;
        let mut keys: Vec<SortKey> = Vec::new();
        let mut index: usize = 0;
        assert(rows.take(0) =~= seq![]);
        while index < self.requests.len()
            invariant
                index <= rows.len(),
                rows == self@.requests,
                keys@ == request_keys(rows.take(index as int), group_id, peer_device_id),
                forall|i: int|
                    0 <= i < keys@.len() ==> lookup(
                        rows,
                        PeerObjectKey {
                            group_id,
                            peer_device_id,
                            content_id: ContentId {
                                high: (#[trigger] keys@[i]).high,
                                low: keys@[i].low,
                            },
                        },
                    ) is Some,
            decreases rows.len() - index,
        {
            proof {
                assert(rows.take(index + 1).drop_last() =~= rows.take(index as int));
                assert(rows.take(index + 1).last() == rows[index as int]);
            }
            let key: PeerObjectKey = self.requests.key(index);
            if key.group_id == group_id && key.peer_device_id == peer_device_id {
                proof {
                    crate::table::lemma_lookup(rows, key);
                }
                keys.push(
                    SortKey {
                        time: self.requests.value(index).requested_at_unix_ms,
                        high: key.content_id.high,
                        low: key.content_id.low,
                    },
                );
            }
            index += 1;
        }
        assert(rows.take(index as int) =~= rows);
        let page: Vec<SortKey> = sort_keys(&keys);
        let mut states: Vec<ObjectRequestState> = Vec::new();
        let mut place: usize = 0;
        proof {
            lemma_sorted(keys@);
        }
        while place < page.len() && place < maximum
            invariant
                place <= page@.len(),
                place <= maximum,
                rows == self@.requests,
                page@ == sorted(keys@),
                forall|i: int| 0 <= i < page@.len() ==> keys@.contains(#[trigger] page@[i]),
                forall|i: int|
                    0 <= i < keys@.len() ==> lookup(
                        rows,
                        PeerObjectKey {
                            group_id,
                            peer_device_id,
                            content_id: ContentId {
                                high: (#[trigger] keys@[i]).high,
                                low: keys@[i].low,
                            },
                        },
                    ) is Some,
                states@.len() == place,
                forall|i: int|
                    0 <= i < place ==> states@[i] == request_state(
                        self@,
                        group_id,
                        peer_device_id,
                        page@[i],
                    ),
            decreases page@.len() - place,
        {
            let content_id: ContentId = ContentId { high: page[place].high, low: page[place].low };
            proof {
                assert(keys@.contains(page@[place as int]));
                let k = choose|k: int| 0 <= k < keys@.len() && keys@[k] == page@[place as int];
                assert(keys@[k].high == content_id.high);
            }
            if let Some(row) = self.requests.get(
                PeerObjectKey { group_id, peer_device_id, content_id },
            ) {
                states.push(
                    ObjectRequestState {
                        content_id,
                        requested_at_unix_ms: row.requested_at_unix_ms,
                        attempt_count: row.attempt_count,
                        last_attempt_at_unix_ms: row.last_attempt_at_unix_ms,
                    },
                );
            }
            place += 1;
        }
        assert(states@ =~= pending_requests(self@, group_id, peer_device_id, maximum as nat));
        states
    }

    /// Counts an attempt to fulfil a request.
    pub fn mark_object_request_attempt(
        &mut self,
        group_id: GroupId,
        peer_device_id: DeviceId,
        content_id: ContentId,
        now: i64,
    ) -> (result: Result<bool, StoreError>)
        ensures
            ({
                let key = PeerObjectKey { group_id, peer_device_id, content_id };
                match lookup(old(self)@.requests, key) {
                    None => result == Ok::<bool, StoreError>(false) && final(self)@ == old(self)@,
                    Some(row) => if row.attempt_count >= i64::MAX {
                        result == Err::<bool, StoreError>(StoreError::CatalogFull) && final(self)@
                            == old(self)@
                    } else {
                        &&& result == Ok::<bool, StoreError>(true)
                        &&& final(self)@ == (StoreView {
                            requests: put(
                                old(self)@.requests,
                                key,
                                RequestRow {
                                    attempt_count: (row.attempt_count + 1) as u64,
                                    last_attempt_at_unix_ms: Some(now),
                                    ..row
                                },
                            ),
                            ..old(self)@
                        })
                    },
                }
            }),
    {
        let key: PeerObjectKey = PeerObjectKey { group_id, peer_device_id, content_id };
        let row: RequestRow = match self.requests.get(key) {
            Some(row) => *row,
            None => {
                return Ok(false);
            },
        };
        if row.attempt_count >= 0x7fff_ffff_ffff_ffff {
            return Err(StoreError::CatalogFull);
        }
        self.requests.put(
            key,
            RequestRow {
                requested_at_unix_ms: row.requested_at_unix_ms,
                attempt_count: row.attempt_count + 1,
                last_attempt_at_unix_ms: Some(now),
            },
        );
        Ok(true)
    }

    /// The transfer of an object from a peer.
    pub fn incoming_object_transfer(
        &self,
        group_id: GroupId,
        peer_device_id: DeviceId,
        content_id: ContentId,
    ) -> (result: Result<Option<IncomingObjectTransfer>, StoreError>)
        ensures
            result == transfer_at(self@, group_id, peer_device_id, content_id),
    {
        match self.transfers.get(PeerObjectKey { group_id, peer_device_id, content_id }) {
            None => Ok(None),
            Some(row) => {
                if row.request_id == 0 {
                    return Err(StoreError::NilTransferRequestId);
                }
                Ok(
                    Some(
                        IncomingObjectTransfer {
                            request_id: row.request_id,
                            content_id,
                            encrypted_size: row.encrypted_size,
                            received_size: row.received_size,
                        },
                    ),
                )
            },
        }
    }

    /// Begins the transfer of an object that was asked for, or takes it up again.
    pub fn begin_object_transfer(
        &mut self,
        group_id: GroupId,
        peer_device_id: DeviceId,
        request_id: u128,
        content_id: ContentId,
        encrypted_size: u64,
        file_present: bool,
    ) -> (result: Result<ObjectTransferAdmission, StoreError>)
        ensures
            result == transfer_verdict(
                old(self)@,
                group_id,
                peer_device_id,
                request_id,
                content_id,
                encrypted_size,
                file_present,
            ),
            final(self)@ == with_transfer(
                old(self)@,
                group_id,
                peer_device_id,
                request_id,
                content_id,
                encrypted_size,
                file_present,
            ),
    {
        if request_id == 0 {
            return Err(StoreError::NilTransferRequestId);
        }
        let encrypted_size: u64 = checked_transfer_size(encrypted_size)?;
        if self.has_object(group_id, content_id, file_present) {
            return Ok(ObjectTransferAdmission::AlreadyPresent);
        }
        let key: PeerObjectKey = PeerObjectKey { group_id, peer_device_id, content_id };
        if !self.requests.has(key) {
            return Err(StoreError::ObjectNotRequested { peer_device_id, content_id });
        }
        if let Some(existing) = self.incoming_object_transfer(
            group_id,
            peer_device_id,
            content_id,
        )? {
            if existing.encrypted_size != encrypted_size {
                return Err(
                    StoreError::TransferSizeMismatch {
                        content_id,
                        expected: existing.encrypted_size,
                        actual: encrypted_size,
                    },
                );
            }
            let received_size: u64 = existing.received_size;
            self.transfers.put(key, TransferRow { request_id, encrypted_size, received_size });
            return Ok(ObjectTransferAdmission::Resuming { received_size });
        }
        self.transfers.put(key, TransferRow { request_id, encrypted_size, received_size: 0 });
        Ok(ObjectTransferAdmission::Started)
    }

    /// Records that further bytes of an object arrived, given the size of the file that they are
    /// appended to.
    pub fn append_object_transfer(
        &mut self,
        group_id: GroupId,
        peer_device_id: DeviceId,
        content_id: ContentId,
        expected_offset: u64,
        bytes: &[u8],
        file_size: Option<u64>,
    ) -> (result: Result<u64, StoreError>)
        ensures
            result == append_verdict(
                old(self)@,
                group_id,
                peer_device_id,
                content_id,
                expected_offset,
                bytes@.len(),
                file_size,
            ),
            final(self)@ == with_appended(
                old(self)@,
                group_id,
                peer_device_id,
                content_id,
                expected_offset,
                bytes@.len(),
                file_size,
            ),
    {
        let transfer: IncomingObjectTransfer = match self.incoming_object_transfer(
            group_id,
            peer_device_id,
            content_id,
        )? {
            Some(transfer) => transfer,
            None => {
                return Err(StoreError::ObjectTransferNotFound { peer_device_id, content_id });
            },
        };
        if transfer.received_size != expected_offset {
            return Err(
                StoreError::TransferOffsetMismatch {
                    content_id,
                    expected: transfer.received_size,
                    actual: expected_offset,
                },
            );
        }
        if bytes.len() == 0 {
            return Ok(transfer.received_size);
        }
        let received_size: u64 = match transfer.received_size.checked_add(bytes.len() as u64) {
            Some(received_size) => received_size,
            None => {
                return Err(
                    StoreError::TransferExceedsExpectedSize {
                        content_id,
                        expected: transfer.encrypted_size,
                        actual: u64::MAX,
                    },
                );
            },
        };
        if received_size > transfer.encrypted_size {
            return Err(
                StoreError::TransferExceedsExpectedSize {
                    content_id,
                    expected: transfer.encrypted_size,
                    actual: received_size,
                },
            );
        }
        match file_size {
            None => {
                return Err(StoreError::Io);
            },
            Some(actual) => {
                if actual != transfer.received_size {
                    return Err(
                        StoreError::TransferFileLengthMismatch {
                            content_id,
                            catalog: transfer.received_size,
                            actual,
                        },
                    );
                }
            },
        }
        sequence_to_i64(received_size)?;
        self.transfers.put(
            PeerObjectKey { group_id, peer_device_id, content_id },
            TransferRow {
                request_id: transfer.request_id,
                encrypted_size: transfer.encrypted_size,
                received_size,
            },
        );
        Ok(received_size)
    }

    /// Accepts the object that a transfer has brought, given what its file and the file in the
    /// object's place hold.
    pub fn complete_object_transfer(
        &mut self,
        keys: &GroupKeys,
        peer_device_id: DeviceId,
        content_id: ContentId,
        file: Option<&[u8]>,
        existing: Option<&[u8]>,
        now: i64,
    ) -> (result: Result<Admission, StoreError>)
        ensures
            result == completion_verdict(
                old(self)@,
                keys@,
                peer_device_id,
                content_id,
                file_bytes(file),
                file_bytes(existing),
            ),
            final(self)@ == with_completion(
                old(self)@,
                keys@,
                peer_device_id,
                content_id,
                file_bytes(file),
                file_bytes(existing),
                now,
            ),
    {
        let transfer: IncomingObjectTransfer = match self.incoming_object_transfer(
            keys.group_id(),
            peer_device_id,
            content_id,
        )? {
            Some(transfer) => transfer,
            None => {
                return Err(StoreError::ObjectTransferNotFound { peer_device_id, content_id });
            },
        };
        if transfer.received_size != transfer.encrypted_size {
            return Err(
                StoreError::ObjectTransferIncomplete {
                    content_id,
                    expected: transfer.encrypted_size,
                    actual: transfer.received_size,
                },
            );
        }
        let encrypted_bytes: &[u8] = match file {
            Some(bytes) => bytes,
            None => {
                return Err(StoreError::Io);
            },
        };
        check_size(encrypted_bytes)?;
        let object: EncryptedObject = match EncryptedObject::from_bytes(encrypted_bytes) {
            Ok(object) => object,
            Err(error) => {
                return Err(StoreError::Envelope(error));
            },
        };
        self.admit_object(keys, object.kind(), content_id, encrypted_bytes, existing, now)
    }

    /// Gives up the transfer of an object.
    pub fn cancel_object_transfer(
        &mut self,
        group_id: GroupId,
        peer_device_id: DeviceId,
        content_id: ContentId,
    ) -> (cancelled: bool)
        ensures
            ({
                let key = PeerObjectKey { group_id, peer_device_id, content_id };
                &&& cancelled == (lookup(old(self)@.transfers, key) is Some)
                &&& final(self)@ == (StoreView {
                    transfers: removed(old(self)@.transfers, key),
                    ..old(self)@
                })
            }),
    {
        let key: PeerObjectKey = PeerObjectKey { group_id, peer_device_id, content_id };
        let cancelled: bool = self.transfers.has(key);
        self.transfers.remove(key);
        cancelled
    }

    /// Brings the transfers in line with their files, of which `files` tells one for each row, and
    /// tells whose files are to be removed.
    pub fn recover_incoming_object_transfers(&mut self, files: &Vec<TransferFile>) -> (discarded: Vec<
        PeerObjectKey,
    >)
        requires
            files@.len() == old(self)@.transfers.len(),
        ensures
            discarded@ == discarded_files(old(self)@.transfers, files@),
            final(self)@ == (StoreView {
                transfers: recovered_transfers(old(self)@.transfers, files@),
                ..old(self)@
            }),
    {
        let ghost rows = self@.transfers;
        let mut recovered: Table<PeerObjectKey, TransferRow> = Table::new();
        let mut discarded: Vec<PeerObjectKey> = Vec::new();
        let mut index: usize = 0;
        assert(rows.take(0) =~= seq![]);
        while index < self.transfers.len()
            invariant
                index <= rows.len(),
                rows == self@.transfers,
                files@.len() == rows.len(),
                recovered@ == recovered_transfers(rows.take(index as int), files@),
                discarded@ == discarded_files(rows.take(index as int), files@),
            decreases rows.len() - index,
        {
            proof {
                assert(rows.take(index + 1).drop_last() =~= rows.take(index as int));
                assert(rows.take(index + 1).last() == rows[index as int]);
            }
            let key: PeerObjectKey = self.transfers.key(index);
            let row: TransferRow = *self.transfers.value(index);
            match files[index] {
                TransferFile::Regular { size } => {
                    if size <= row.encrypted_size {
                        recovered.append(
                            key,
                            TransferRow {
                                request_id: row.request_id,
                                encrypted_size: row.encrypted_size,
                                received_size: size,
                            },
                        );
                    } else {
                        discarded.push(key);
                    }
                },
                TransferFile::Link => {
                    discarded.push(key);
                },
                _ => {},
            }
            index += 1;
        }
        assert(rows.take(index as int) =~= rows);
        self.transfers = recovered;
        discarded
    }

    /// Tests whether a file belongs to a transfer that is under way.
    pub fn is_incoming_transfer_file(&self, name: &str) -> (retained: bool)
        ensures
            retained == is_transfer_file(self@, name@),
    {
        let mut index: usize = 0;
        while index < self.transfers.len()
            invariant
                index <= self@.transfers.len(),
                forall|i: int|
                    0 <= i < index ==> name@ != transfer_name_of(
                        (#[trigger] self@.transfers[i]).0.group_id,
                        self@.transfers[i].0.peer_device_id,
                        self@.transfers[i].0.content_id,
                    ),
            decreases self@.transfers.len() - index,
        {
            let key: PeerObjectKey = self.transfers.key(index);
            let known: String = crate::catalog::incoming_transfer_name(
                key.group_id,
                key.peer_device_id,
                key.content_id,
            );
            if text_equal(known.as_str(), name) {
                assert(name@ == transfer_name_of(
                    self@.transfers[index as int].0.group_id,
                    self@.transfers[index as int].0.peer_device_id,
                    self@.transfers[index as int].0.content_id,
                ));
                return true;
            }
            index += 1;
        }
        false
    }

    /// Marks the objects as lost whose files are not among those that are there, and tells how
    /// many they are.
    pub fn recover_missing_objects(&mut self, present: &Vec<ObjectKey>) -> (lost: usize)
        ensures
            lost == lost_objects(old(self)@.objects, present@),
            final(self)@ == (StoreView {
                objects: recovered_objects(old(self)@.objects, present@),
                ..old(self)@
            }),
    {
        let ghost rows = self@.objects;
        let mut recovered: Table<ObjectKey, ObjectRow> = Table::new();
        let mut lost: usize = 0;
        let mut index: usize = 0;
        assert(rows.take(0) =~= seq![]);
        assert(recovered@ =~= recovered_objects(rows, present@).take(0));
        while index < self.objects.len()
            invariant
                index <= rows.len(),
                lost <= index,
                rows == self@.objects,
                recovered@ == recovered_objects(rows, present@).take(index as int),
                lost == lost_objects(rows.take(index as int), present@),
            decreases rows.len() - index,
        {
            proof {
                assert(rows.take(index + 1).drop_last() =~= rows.take(index as int));
                assert(rows.take(index + 1).last() == rows[index as int]);
            }
            let key: ObjectKey = self.objects.key(index);
            let row: ObjectRow = *self.objects.value(index);
            let found: bool = has_object_key(present, key);
            if row.available && !found {
                lost += 1;
            }
            recovered.append(
                key,
                ObjectRow {
                    kind: row.kind,
                    format_version: row.format_version,
                    encrypted_size: row.encrypted_size,
                    verified_at_unix_ms: row.verified_at_unix_ms,
                    available: row.available && found,
                },
            );
            proof {
                let all = recovered_objects(rows, present@);
                assert(all.take(index + 1) =~= all.take(index as int).push(all[index as int]));
            }
            index += 1;
        }
        proof {
            assert(rows.take(index as int) =~= rows);
            let all = recovered_objects(rows, present@);
            assert(all.take(index as int) =~= all);
        }
        self.objects = recovered;
        lost
    }
}

pub proof fn lemma_authorization_ext(left: ChangeAuthorization, right: ChangeAuthorization)
    ensures
        (left@ == right@) == (left == right),
{
    if left@ == right@ {
        assert(left.signature.bytes =~= right.signature.bytes);
    }
}

} // verus!
