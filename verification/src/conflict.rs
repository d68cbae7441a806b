//! Reconciliation of concurrent changes.
use vstd::prelude::*;

use crate::ids::{DeviceId, FileId, RevisionId};
use crate::record::{ChangeRecord, FileManifest, ManifestView, RecordView, TombstoneView};
use crate::version::{
    counter_of, law_relation_compares_counters, law_relation_is_antisymmetric,
    law_version_order_is_lexicographic, law_version_order_is_total, relation_of, version_less,
    VersionRelation, VersionVector,
};

verus! {

#[derive(Clone, Copy, Debug, PartialEq, Eq, Structural)]
pub enum ReconcileAction {
    NoChange,
    KeepLocal,
    UseIncoming,
    KeepBoth { canonical_revision: RevisionId, conflict_revision: RevisionId },
}

#[derive(Clone, Copy, Debug, PartialEq, Eq, Structural)]
pub enum ReconcileError {
    DifferentFiles { local: FileId, incoming: FileId },
    RevisionCollision { revision_id: RevisionId },
}

/// The revision `(version, revision_id)` is not before `(other, other_revision_id)` in the order
/// of versions, then of revision identifiers.
pub open spec fn at_least(
    version: Seq<(DeviceId, u64)>,
    revision_id: RevisionId,
    other: Seq<(DeviceId, u64)>,
    other_revision_id: RevisionId,
) -> bool {
    version_less(other, version) || (!version_less(version, other) && revision_id.value
        >= other_revision_id.value)
}

/// Which of two different revisions of one file stays at the file's path.
pub open spec fn reconciled_files(local: ManifestView, incoming: ManifestView) -> ReconcileAction {
    match relation_of(local.version, incoming.version) {
        VersionRelation::Ancestor => ReconcileAction::UseIncoming,
        VersionRelation::Descendant => ReconcileAction::KeepLocal,
        _ => if at_least(
            local.version,
            local.revision_id,
            incoming.version,
            incoming.revision_id,
        ) {
            ReconcileAction::KeepBoth {
                canonical_revision: local.revision_id,
                conflict_revision: incoming.revision_id,
            }
        } else {
            ReconcileAction::KeepBoth {
                canonical_revision: incoming.revision_id,
                conflict_revision: local.revision_id,
            }
        },
    }
}

/// Which of two different tombstones of one file stays.
pub open spec fn single_winner(local: RecordView, incoming: RecordView) -> ReconcileAction {
    match relation_of(local.version(), incoming.version()) {
        VersionRelation::Ancestor => ReconcileAction::UseIncoming,
        VersionRelation::Descendant => ReconcileAction::KeepLocal,
        _ => if at_least(
            local.version(),
            local.revision_id(),
            incoming.version(),
            incoming.revision_id(),
        ) {
            ReconcileAction::KeepLocal
        } else {
            ReconcileAction::UseIncoming
        },
    }
}

/// Which of an edit and a deletion stays; `concurrent` where neither descends from the other.
pub open spec fn edit_delete_winner(
    local: RecordView,
    incoming: RecordView,
    concurrent: ReconcileAction,
) -> ReconcileAction {
    match relation_of(local.version(), incoming.version()) {
        VersionRelation::Ancestor => ReconcileAction::UseIncoming,
        VersionRelation::Descendant => ReconcileAction::KeepLocal,
        _ => concurrent,
    }
}

/// What becomes of an incoming record where a local one is in place.
pub open spec fn reconciled(local: RecordView, incoming: RecordView) -> Result<
    ReconcileAction,
    ReconcileError,
> {
    if local.file_id() != incoming.file_id() {
        Err(
            ReconcileError::DifferentFiles {
                local: local.file_id(),
                incoming: incoming.file_id(),
            },
        )
    } else if local.revision_id() == incoming.revision_id() {
        if local == incoming {
            Ok(ReconcileAction::NoChange)
        } else {
            Err(ReconcileError::RevisionCollision { revision_id: local.revision_id() })
        }
    } else {
        Ok(
            match (local, incoming) {
                (RecordView::File(left), RecordView::File(right)) => reconciled_files(left, right),
                (RecordView::Tombstone(_), RecordView::Tombstone(_)) => single_winner(
                    local,
                    incoming,
                ),
                (RecordView::File(_), RecordView::Tombstone(_)) => edit_delete_winner(
                    local,
                    incoming,
                    ReconcileAction::KeepLocal,
                ),
                (RecordView::Tombstone(_), RecordView::File(_)) => edit_delete_winner(
                    local,
                    incoming,
                    ReconcileAction::UseIncoming,
                ),
            },
        )
    }
}

fn is_at_least(
    version: &VersionVector,
    revision_id: RevisionId,
    other: &VersionVector,
    other_revision_id: RevisionId,
) -> (result: bool)
    ensures
        result == at_least(version@, revision_id, other@, other_revision_id),
{
    other.is_before(version) || (!version.is_before(other) && revision_id.value
        >= other_revision_id.value)
}

/// Decides what becomes of an incoming record where a local one is in place.
pub fn reconcile_change(local: &ChangeRecord, incoming: &ChangeRecord) -> (result: Result<
    ReconcileAction,
    ReconcileError,
>)
    ensures
        result == reconciled(local@, incoming@),
{
    if local.file_id() != incoming.file_id() {
        return Err(
            ReconcileError::DifferentFiles {
                local: local.file_id(),
                incoming: incoming.file_id(),
            },
        );
    }
    if local.revision_id() == incoming.revision_id() {
        return if local.same(incoming) {
            Ok(ReconcileAction::NoChange)
        } else {
            Err(ReconcileError::RevisionCollision { revision_id: local.revision_id() })
        };
    }
    match (local, incoming) {
        (ChangeRecord::File(left), ChangeRecord::File(right)) => reconcile_file(left, right),
        (ChangeRecord::Tombstone(_), ChangeRecord::Tombstone(_)) => Ok(
            select_single_winner(local, incoming),
        ),
        (ChangeRecord::File(_), ChangeRecord::Tombstone(_)) => Ok(
            reconcile_edit_delete(local, incoming, ReconcileAction::KeepLocal),
        ),
        (ChangeRecord::Tombstone(_), ChangeRecord::File(_)) => Ok(
            reconcile_edit_delete(local, incoming, ReconcileAction::UseIncoming),
        ),
    }
}

/// Decides which of two revisions of one file stays at the file's path.
pub fn reconcile_file(local: &FileManifest, incoming: &FileManifest) -> (result: Result<
    ReconcileAction,
    ReconcileError,
>)
    ensures
        result == reconciled(RecordView::File(local@), RecordView::File(incoming@)),
{
    if local.file_id != incoming.file_id {
        return Err(
            ReconcileError::DifferentFiles { local: local.file_id, incoming: incoming.file_id },
        );
    }
    if local.revision_id == incoming.revision_id {
        return if local.same(incoming) {
            Ok(ReconcileAction::NoChange)
        } else {
            Err(ReconcileError::RevisionCollision { revision_id: local.revision_id })
        };
    }
    match local.version.relation(&incoming.version) {
        VersionRelation::Ancestor => Ok(ReconcileAction::UseIncoming),
        VersionRelation::Descendant => Ok(ReconcileAction::KeepLocal),
        VersionRelation::Equal | VersionRelation::Concurrent => {
            if is_at_least(
                &local.version,
                local.revision_id,
                &incoming.version,
                incoming.revision_id,
            ) {
                Ok(
                    ReconcileAction::KeepBoth {
                        canonical_revision: local.revision_id,
                        conflict_revision: incoming.revision_id,
                    },
                )
            } else {
                Ok(
                    ReconcileAction::KeepBoth {
                        canonical_revision: incoming.revision_id,
                        conflict_revision: local.revision_id,
                    },
                )
            }
        },
    }
}

fn reconcile_edit_delete(
    local: &ChangeRecord,
    incoming: &ChangeRecord,
    concurrent_winner: ReconcileAction,
) -> (action: ReconcileAction)
    ensures
        action == edit_delete_winner(local@, incoming@, concurrent_winner),
{
    match local.version().relation(incoming.version()) {
        VersionRelation::Ancestor => ReconcileAction::UseIncoming,
        VersionRelation::Descendant => ReconcileAction::KeepLocal,
        VersionRelation::Equal | VersionRelation::Concurrent => concurrent_winner,
    }
}

fn select_single_winner(local: &ChangeRecord, incoming: &ChangeRecord) -> (action: ReconcileAction)
    ensures
        action == single_winner(local@, incoming@),
{
    match local.version().relation(incoming.version()) {
        VersionRelation::Ancestor => ReconcileAction::UseIncoming,
        VersionRelation::Descendant => ReconcileAction::KeepLocal,
        VersionRelation::Equal | VersionRelation::Concurrent => {
            if is_at_least(
                local.version(),
                local.revision_id(),
                incoming.version(),
                incoming.revision_id(),
            ) {
                ReconcileAction::KeepLocal
            } else {
                ReconcileAction::UseIncoming
            }
        },
    }
}

/// The action that one device takes where the other device takes `action`.
pub open spec fn mirrored(action: ReconcileAction) -> ReconcileAction {
    match action {
        ReconcileAction::KeepLocal => ReconcileAction::UseIncoming,
        ReconcileAction::UseIncoming => ReconcileAction::KeepLocal,
        other => other,
    }
}

/// Whichever of two records arrives at the other's device, the outcome is the same: what one
/// device keeps the other takes, and two devices that keep both agree on which is canonical.
pub proof fn law_reconciliation_is_independent_of_arrival_order(
    local: RecordView,
    incoming: RecordView,
)
    requires
        local.wf(),
        incoming.wf(),
        reconciled(local, incoming) is Ok,
    ensures
        reconciled(incoming, local) is Ok,
        reconciled(incoming, local)->Ok_0 == mirrored(reconciled(local, incoming)->Ok_0),
{
    law_relation_is_antisymmetric(local.version(), incoming.version());
    law_version_order_is_total(local.version(), incoming.version());
}

/// Where reconciliation is refused on one device, it is refused on the other.
pub proof fn law_refusal_is_symmetric(local: RecordView, incoming: RecordView)
    requires
        reconciled(local, incoming) is Err,
    ensures
        reconciled(incoming, local) is Err,
{
}

/// A record is no change where it is already in place.
pub proof fn law_reconciliation_is_idempotent(record: RecordView)
    ensures
        reconciled(record, record) == Ok::<ReconcileAction, ReconcileError>(
            ReconcileAction::NoChange,
        ),
{
}

/// A record that descends from the one in place takes its place, an edit and a deletion alike.
pub proof fn law_descendant_wins(local: RecordView, incoming: RecordView)
    requires
        local.file_id() == incoming.file_id(),
        local.revision_id() != incoming.revision_id(),
        relation_of(local.version(), incoming.version()) == VersionRelation::Ancestor,
    ensures
        reconciled(local, incoming) == Ok::<ReconcileAction, ReconcileError>(
            ReconcileAction::UseIncoming,
        ),
{
}

/// An edit and a deletion that are concurrent leave the edit in place.
pub proof fn law_concurrent_edit_survives_deletion(local: RecordView, incoming: RecordView)
    requires
        local.file_id() == incoming.file_id(),
        local.revision_id() != incoming.revision_id(),
        relation_of(local.version(), incoming.version()) == VersionRelation::Concurrent,
        local is File,
        incoming is Tombstone,
    ensures
        reconciled(local, incoming) == Ok::<ReconcileAction, ReconcileError>(
            ReconcileAction::KeepLocal,
        ),
        reconciled(incoming, local) == Ok::<ReconcileAction, ReconcileError>(
            ReconcileAction::UseIncoming,
        ),
{
    law_relation_is_antisymmetric(local.version(), incoming.version());
}

/// Two edits of one file, neither of which has seen the other, are both kept: the one at the
/// file's path, the other as a conflict copy.
pub proof fn law_concurrent_edits_are_both_kept(local: ManifestView, incoming: ManifestView)
    requires
        local.file_id == incoming.file_id,
        local.revision_id != incoming.revision_id,
        (exists|device: DeviceId| #[trigger]
            counter_of(local.version, device) > counter_of(incoming.version, device)) == (exists|
            device: DeviceId,
        | #[trigger]
            counter_of(local.version, device) < counter_of(incoming.version, device)),
    ensures
        match reconciled(RecordView::File(local), RecordView::File(incoming)) {
            Ok(ReconcileAction::KeepBoth { canonical_revision, conflict_revision }) => {
                ||| canonical_revision == local.revision_id && conflict_revision
                    == incoming.revision_id
                ||| canonical_revision == incoming.revision_id && conflict_revision
                    == local.revision_id
            },
            _ => false,
        },
{
    law_relation_compares_counters(local.version, incoming.version);
}

/// One of two edits of a file takes the other's place only where it has seen every change that
/// the other has, and more.
pub proof fn law_only_a_newer_edit_takes_the_place(local: ManifestView, incoming: ManifestView)
    requires
        local.file_id == incoming.file_id,
        local.revision_id != incoming.revision_id,
    ensures
        ({
            let outcome = reconciled(RecordView::File(local), RecordView::File(incoming));
            let local_is_newer = (forall|device: DeviceId| #[trigger]
                counter_of(local.version, device) >= counter_of(incoming.version, device)) && exists|
                device: DeviceId,
            | #[trigger]
                counter_of(local.version, device) > counter_of(incoming.version, device);
            let incoming_is_newer = (forall|device: DeviceId| #[trigger]
                counter_of(local.version, device) <= counter_of(incoming.version, device)) && exists|
                device: DeviceId,
            | #[trigger]
                counter_of(local.version, device) < counter_of(incoming.version, device);
            &&& outcome == Ok::<ReconcileAction, ReconcileError>(ReconcileAction::KeepLocal)
                <==> local_is_newer
            &&& outcome == Ok::<ReconcileAction, ReconcileError>(ReconcileAction::UseIncoming)
                <==> incoming_is_newer
            &&& outcome != Ok::<ReconcileAction, ReconcileError>(ReconcileAction::NoChange)
            &&& outcome is Ok
        }),
{
    law_relation_compares_counters(local.version, incoming.version);
}

/// Of two edits that are both kept, the one with the later version stays at the path, by the
/// first entry in which their versions differ, and of two with one version that with the larger
/// revision identifier.
pub proof fn law_later_edit_stays_at_the_path(
    local: ManifestView,
    incoming: ManifestView,
    index: int,
)
    requires
        reconciled(RecordView::File(local), RecordView::File(incoming)) matches Ok(action)
            && action is KeepBoth,
        0 <= index <= local.version.len(),
        0 <= index <= incoming.version.len(),
        forall|i: int| 0 <= i < index ==> #[trigger] local.version[i] == incoming.version[i],
        index < local.version.len() && index < incoming.version.len() ==> local.version[index]
            != incoming.version[index],
    ensures
        ({
            let canonical = reconciled(
                RecordView::File(local),
                RecordView::File(incoming),
            )->Ok_0->canonical_revision;
            let left = local.version;
            let right = incoming.version;
            if index == left.len() && index == right.len() {
                canonical.value == if local.revision_id.value > incoming.revision_id.value {
                    local.revision_id.value
                } else {
                    incoming.revision_id.value
                }
            } else if index == left.len() {
                canonical == incoming.revision_id
            } else if index == right.len() {
                canonical == local.revision_id
            } else if left[index].0 == right[index].0 {
                canonical == if left[index].1 > right[index].1 {
                    local.revision_id
                } else {
                    incoming.revision_id
                }
            } else {
                canonical == if left[index].0.value > right[index].0.value {
                    local.revision_id
                } else {
                    incoming.revision_id
                }
            }
        }),
{
    law_version_order_is_lexicographic(local.version, incoming.version, index);
    assert forall|i: int| 0 <= i < index implies #[trigger] incoming.version[i]
        == local.version[i] by {
        assert(local.version[i] == incoming.version[i]);
    }
    law_version_order_is_lexicographic(incoming.version, local.version, index);
}

/// A deletion takes the place of an edit only where it has seen that edit and more, and an edit
/// gives way to a deletion only then: in every other case the edit stays.
pub proof fn law_edit_gives_way_only_to_a_later_deletion(
    edit: ManifestView,
    deletion: TombstoneView,
)
    requires
        edit.file_id == deletion.file_id,
        edit.revision_id != deletion.revision_id,
    ensures
        ({
            let deletion_is_newer = (forall|device: DeviceId| #[trigger]
                counter_of(edit.version, device) <= counter_of(deletion.version, device)) && exists|
                device: DeviceId,
            | #[trigger]
                counter_of(edit.version, device) < counter_of(deletion.version, device);
            &&& reconciled(RecordView::File(edit), RecordView::Tombstone(deletion)) == Ok::<
                ReconcileAction,
                ReconcileError,
            >(
                if deletion_is_newer {
                    ReconcileAction::UseIncoming
                } else {
                    ReconcileAction::KeepLocal
                },
            )
            &&& reconciled(RecordView::Tombstone(deletion), RecordView::File(edit)) == Ok::<
                ReconcileAction,
                ReconcileError,
            >(
                if deletion_is_newer {
                    ReconcileAction::KeepLocal
                } else {
                    ReconcileAction::UseIncoming
                },
            )
        }),
{
    law_relation_compares_counters(edit.version, deletion.version);
    law_relation_is_antisymmetric(edit.version, deletion.version);
}

/// Of two deletions of one file one stays: the one that has seen the other, and where neither
/// has, the one with the later version, or the larger revision identifier.
pub proof fn law_one_of_two_deletions_stays(local: TombstoneView, incoming: TombstoneView)
    requires
        local.file_id == incoming.file_id,
        local.revision_id != incoming.revision_id,
    ensures
        ({
            let outcome = reconciled(
                RecordView::Tombstone(local),
                RecordView::Tombstone(incoming),
            );
            let behind = forall|device: DeviceId| #[trigger]
                counter_of(local.version, device) <= counter_of(incoming.version, device);
            let ahead = forall|device: DeviceId| #[trigger]
                counter_of(local.version, device) >= counter_of(incoming.version, device);
            let incoming_stays = if behind != ahead {
                behind
            } else {
                version_less(local.version, incoming.version) || (!version_less(
                    incoming.version,
                    local.version,
                ) && local.revision_id.value < incoming.revision_id.value)
            };
            outcome == Ok::<ReconcileAction, ReconcileError>(
                if incoming_stays {
                    ReconcileAction::UseIncoming
                } else {
                    ReconcileAction::KeepLocal
                },
            )
        }),
{
    law_relation_compares_counters(local.version, incoming.version);
    law_version_order_is_total(local.version, incoming.version);
}

/// Reconciliation is refused exactly for records of different files, and for different records
/// of one revision.
pub proof fn law_reconciliation_is_refused_for_strangers(local: RecordView, incoming: RecordView)
    ensures
        local.file_id() != incoming.file_id() ==> reconciled(local, incoming) == Err::<
            ReconcileAction,
            ReconcileError,
        >(
            ReconcileError::DifferentFiles {
                local: local.file_id(),
                incoming: incoming.file_id(),
            },
        ),
        local.file_id() == incoming.file_id() && local.revision_id() == incoming.revision_id()
            && local != incoming ==> reconciled(local, incoming) == Err::<
            ReconcileAction,
            ReconcileError,
        >(ReconcileError::RevisionCollision { revision_id: local.revision_id() }),
        local.file_id() == incoming.file_id() && local.revision_id() != incoming.revision_id()
            ==> reconciled(local, incoming) is Ok,
{
}

} // verus!
