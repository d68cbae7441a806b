//! Who belongs to a group, whose changes count, and whom a device talks to.
use vstd::prelude::*;

use crate::catalog::{
    DeviceKey, MemberRole, MemberRowView, MemberStatus, RevisionKey, StoreError,
};
use crate::crypto::{ed25519_valid_key, ed25519_verified};
use crate::envelope::ObjectKind;
use crate::identity::{
    change_message, change_verified, device_id_of, session_message, session_verified,
    AuthorizationView, IdentityError,
};
use crate::ids::{ContentId, DeviceId, GroupId, RevisionId};
use crate::store::{
    authentication_verdict, authorization_verdict, is_revocable, kind_problem, member_at,
    membership_verdict, with_authentication, with_member, with_revocation,
    ChangeAuthenticationAdmission, MemberView, MembershipAdmission, StoreView,
};
use crate::table::{lemma_lookup_put, lookup};
use crate::transport::{active_member, local_problem, outgoing_peer};

verus! {

/// The row of a member, where there is one.
pub open spec fn member_row(store: StoreView, group_id: GroupId, device_id: DeviceId) -> Option<
    MemberRowView,
> {
    lookup(store.members, DeviceKey { group_id, device_id })
}

/// The row holds a key, and it is the key of the device that it is for.
pub open spec fn is_sound(row: MemberRowView, device_id: DeviceId) -> bool {
    ed25519_valid_key(row.public_key) && device_id_of(row.public_key) == device_id
}

/// A member is read as its row says, and only where the row holds the key of that member.
pub proof fn law_member_is_read_as_recorded(
    store: StoreView,
    group_id: GroupId,
    device_id: DeviceId,
)
    ensures
        match (member_row(store, group_id, device_id), member_at(store, group_id, device_id)) {
            (None, read) => read == Ok::<Option<MemberView>, StoreError>(None),
            (Some(row), Ok(read)) => {
                &&& is_sound(row, device_id)
                &&& read is Some
                &&& read->0.device_id == device_id
                &&& read->0.public_key == row.public_key
                &&& read->0.role == row.role
                &&& read->0.status == row.status
            },
            (Some(row), Err(error)) => {
                &&& !is_sound(row, device_id)
                &&& error == if ed25519_valid_key(row.public_key) {
                    StoreError::MemberKeyMismatch { device_id }
                } else {
                    StoreError::Identity(IdentityError::InvalidPublicKey)
                }
            },
        },
{
}

/// A device that is not known is added with its key and role, and is active; a member is told
/// that it is one already; one with another key or role, or one that was revoked, is refused.
pub proof fn law_new_members_are_added_active(
    store: StoreView,
    group_id: GroupId,
    public_key: Seq<u8>,
    role: MemberRole,
)
    ensures
        ({
            let device_id = device_id_of(public_key);
            let verdict = membership_verdict(store, group_id, public_key, role);
            let after = with_member(store, group_id, public_key, role);
            match member_row(store, group_id, device_id) {
                None => {
                    &&& verdict == Ok::<MembershipAdmission, StoreError>(
                        MembershipAdmission::Added,
                    )
                    &&& member_row(after, group_id, device_id) == Some(
                        MemberRowView { public_key, role, status: MemberStatus::Active },
                    )
                },
                Some(row) => {
                    &&& after == store
                    &&& verdict == Ok::<MembershipAdmission, StoreError>(
                        MembershipAdmission::AlreadyActive,
                    ) <==> is_sound(row, device_id) && row == (MemberRowView {
                        public_key,
                        role,
                        status: MemberStatus::Active,
                    })
                    &&& is_sound(row, device_id) && row.public_key != public_key ==> verdict
                        == Err::<MembershipAdmission, StoreError>(
                        StoreError::MemberKeyMismatch { device_id },
                    )
                    &&& is_sound(row, device_id) && row.public_key == public_key && row.role
                        != role ==> verdict == Err::<MembershipAdmission, StoreError>(
                        StoreError::MemberRoleMismatch {
                            device_id,
                            expected: row.role,
                            actual: role,
                        },
                    )
                    &&& is_sound(row, device_id) && row.public_key == public_key && row.role
                        == role && row.status == MemberStatus::Revoked ==> verdict == Err::<
                        MembershipAdmission,
                        StoreError,
                    >(StoreError::MemberRevoked { device_id })
                    &&& !is_sound(row, device_id) ==> verdict is Err
                },
            }
        }),
{
    let device_id = device_id_of(public_key);
    let key = DeviceKey { group_id, device_id };
    lemma_lookup_put(
        store.members,
        key,
        MemberRowView { public_key, role, status: MemberStatus::Active },
        key,
    );
}

/// Adding a member changes nothing but that member's row.
pub proof fn law_adding_a_member_leaves_the_others(
    store: StoreView,
    group_id: GroupId,
    public_key: Seq<u8>,
    role: MemberRole,
    other: DeviceKey,
)
    requires
        other != (DeviceKey { group_id, device_id: device_id_of(public_key) }),
    ensures
        ({
            let after = with_member(store, group_id, public_key, role);
            &&& lookup(after.members, other) == lookup(store.members, other)
            &&& after == StoreView { members: after.members, ..store }
        }),
{
    lemma_lookup_put(
        store.members,
        DeviceKey { group_id, device_id: device_id_of(public_key) },
        MemberRowView { public_key, role, status: MemberStatus::Active },
        other,
    );
}

/// Revoking an active member keeps its key and role and takes its standing, and changes no
/// other member and nothing else; whoever is not an active member stays as it is.
pub proof fn law_revocation_takes_the_standing_alone(
    store: StoreView,
    group_id: GroupId,
    device_id: DeviceId,
    other: DeviceKey,
)
    requires
        other != (DeviceKey { group_id, device_id }),
    ensures
        ({
            let after = with_revocation(store, group_id, device_id);
            let row = member_row(store, group_id, device_id);
            let active = row is Some && row->0.status == MemberStatus::Active;
            &&& is_revocable(store, group_id, device_id) == active
            &&& member_row(after, group_id, device_id) == if active {
                Some(MemberRowView { status: MemberStatus::Revoked, ..row->0 })
            } else {
                row
            }
            &&& lookup(after.members, other) == lookup(store.members, other)
            &&& after == StoreView { members: after.members, ..store }
            &&& !active ==> after == store
        }),
{
    let key = DeviceKey { group_id, device_id };
    match lookup(store.members, key) {
        Some(row) => {
            let revoked = MemberRowView { status: MemberStatus::Revoked, ..row };
            lemma_lookup_put(store.members, key, revoked, key);
            lemma_lookup_put(store.members, key, revoked, other);
        },
        None => {},
    }
}

/// A signature is valid exactly where it names the device that has the key, the key is one, and
/// it verifies the message that binds the group, the author, the revision and its contents.
pub proof fn law_change_is_verified_by_its_signature(
    key: Seq<u8>,
    group_id: GroupId,
    revision_id: RevisionId,
    content_id: ContentId,
    authorization: AuthorizationView,
)
    ensures
        change_verified(key, group_id, revision_id, content_id, authorization) is Ok <==> {
            &&& authorization.author_device_id == device_id_of(key)
            &&& ed25519_valid_key(key)
            &&& ed25519_verified(
                key,
                change_message(group_id, device_id_of(key), revision_id, content_id),
                authorization.signature,
            )
        },
{
}

/// A session is verified exactly where its signature names the device that has the key, the key
/// is one, and the signature verifies what was said in the session.
pub proof fn law_session_is_verified_by_its_signature(
    key: Seq<u8>,
    transcript: Seq<u8>,
    authorization: AuthorizationView,
)
    ensures
        session_verified(key, transcript, authorization) is Ok <==> {
            &&& authorization.author_device_id == device_id_of(key)
            &&& ed25519_valid_key(key)
            &&& ed25519_verified(
                key,
                session_message(device_id_of(key), transcript),
                authorization.signature,
            )
        },
{
}

/// A change counts exactly where its author is an active member of the group and has signed it
/// with the key that is on record for that member.
pub proof fn law_only_changes_of_active_members_count(
    store: StoreView,
    group_id: GroupId,
    revision_id: RevisionId,
    content_id: ContentId,
    authorization: AuthorizationView,
)
    ensures
        authorization_verdict(store, group_id, revision_id, content_id, authorization) is Ok
            <==> {
            &&& member_row(store, group_id, authorization.author_device_id) matches Some(row)
            &&& is_sound(row, authorization.author_device_id)
            &&& row.status == MemberStatus::Active
            &&& ed25519_verified(
                row.public_key,
                change_message(
                    group_id,
                    authorization.author_device_id,
                    revision_id,
                    content_id,
                ),
                authorization.signature,
            )
        },
        member_row(store, group_id, authorization.author_device_id) is None
            ==> authorization_verdict(store, group_id, revision_id, content_id, authorization)
            == Err::<(), StoreError>(
            StoreError::UnknownGroupMember { device_id: authorization.author_device_id },
        ),
        (member_row(store, group_id, authorization.author_device_id) matches Some(row)
            && is_sound(row, authorization.author_device_id) && row.status
            == MemberStatus::Revoked) ==> authorization_verdict(
            store,
            group_id,
            revision_id,
            content_id,
            authorization,
        ) == Err::<(), StoreError>(
            StoreError::MemberRevoked { device_id: authorization.author_device_id },
        ),
{
}

/// A revision is put on record with its signature exactly where it has none yet, its record is
/// there, and its author's signature counts; one that is on record stays as it is, whatever
/// became of its author, and another is refused.
pub proof fn law_signatures_are_put_on_record_once(
    store: StoreView,
    group_id: GroupId,
    revision_id: RevisionId,
    content_id: ContentId,
    authorization: AuthorizationView,
    other: RevisionKey,
)
    requires
        other != (RevisionKey { group_id, revision_id }),
    ensures
        ({
            let key = RevisionKey { group_id, revision_id };
            let verdict = authentication_verdict(
                store,
                group_id,
                revision_id,
                content_id,
                authorization,
            );
            let after = with_authentication(
                store,
                group_id,
                revision_id,
                content_id,
                authorization,
            );
            &&& match lookup(store.authentications, key) {
                Some(row) => {
                    &&& after == store
                    &&& verdict == if row.content_id == content_id && row.authorization
                        == authorization {
                        Ok::<ChangeAuthenticationAdmission, StoreError>(
                            ChangeAuthenticationAdmission::AlreadyAuthenticated,
                        )
                    } else {
                        Err(StoreError::ChangeAuthenticationMismatch { revision_id })
                    }
                },
                None => {
                    let there = kind_problem(store, group_id, content_id, ObjectKind::Manifest);
                    let counts = authorization_verdict(
                        store,
                        group_id,
                        revision_id,
                        content_id,
                        authorization,
                    );
                    &&& verdict is Ok <==> there is None && counts is Ok
                    &&& verdict is Ok ==> {
                        &&& verdict->Ok_0 == ChangeAuthenticationAdmission::Authenticated
                        &&& lookup(after.authentications, key) is Some
                        &&& lookup(after.authentications, key)->0.content_id == content_id
                        &&& lookup(after.authentications, key)->0.authorization == authorization
                    }
                    &&& verdict is Err ==> after == store && (Some(verdict->Err_0) == there
                        || counts == Err::<(), StoreError>(verdict->Err_0))
                },
            }
            &&& lookup(after.authentications, other) == lookup(store.authentications, other)
            &&& after == StoreView { authentications: after.authentications, ..store }
        }),
{
    let key = RevisionKey { group_id, revision_id };
    let row = crate::catalog::AuthenticationRowView { content_id, authorization };
    lemma_lookup_put(store.authentications, key, row, key);
    lemma_lookup_put(store.authentications, key, row, other);
}

/// A device deals with exactly the active members of its group, each under the key on record.
pub proof fn law_active_members_are_known_by_their_keys(
    store: StoreView,
    group_id: GroupId,
    device_id: DeviceId,
)
    ensures
        match active_member(store, group_id, device_id) {
            Ok(key) => {
                &&& member_row(store, group_id, device_id) matches Some(row)
                &&& is_sound(row, device_id)
                &&& row.status == MemberStatus::Active
                &&& key == row.public_key
            },
            Err(StoreError::UnknownGroupMember { device_id: unknown }) => {
                &&& member_row(store, group_id, device_id) is None
                &&& unknown == device_id
            },
            Err(StoreError::MemberRevoked { device_id: revoked }) => {
                &&& member_row(store, group_id, device_id) matches Some(row)
                &&& row.status == MemberStatus::Revoked
                &&& revoked == device_id
            },
            Err(_) => {
                &&& member_row(store, group_id, device_id) matches Some(row)
                &&& !is_sound(row, device_id)
            },
        },
{
}

/// A device goes to a peer exactly where it is itself an active member under its own key, and
/// the peer is one too; it then expects the peer's key on record.
pub proof fn law_members_go_to_members(
    store: StoreView,
    group_id: GroupId,
    key: Seq<u8>,
    peer_device_id: DeviceId,
)
    ensures
        local_problem(store, group_id, key) is None <==> active_member(
            store,
            group_id,
            device_id_of(key),
        ) == Ok::<Seq<u8>, StoreError>(key),
        outgoing_peer(store, group_id, key, peer_device_id) is Ok <==> active_member(
            store,
            group_id,
            device_id_of(key),
        ) == Ok::<Seq<u8>, StoreError>(key) && active_member(
            store,
            group_id,
            peer_device_id,
        ) is Ok,
        outgoing_peer(store, group_id, key, peer_device_id) is Ok ==> outgoing_peer(
            store,
            group_id,
            key,
            peer_device_id,
        ) == active_member(store, group_id, peer_device_id),
{
}

} // verus!
