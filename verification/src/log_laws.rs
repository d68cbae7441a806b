//! How the log of changes travels: what a page of it holds, and that neither a walk of the own
//! catalog nor a pull from a peer passes anything over.
use vstd::prelude::*;

use crate::batch::BatchView;
use crate::catalog::{ChangeRow, DeviceKey, RevisionKey, StoreError};
use crate::cycle::{change_to_apply, page_walked, with_examined, MaterializationReport};
use crate::daemon::DaemonProblem;
use crate::exchange::{accepted_through, has_more};
use crate::history::{change_page, changes_of, high_watermark, watermark_at, StoredChange};
use crate::ids::{DeviceId, GroupId};
use crate::protocol::LimitsView;
use crate::pull::{page_followed, pull_begun, PullState};
use crate::store::StoreView;
use crate::store_laws::{is_consistent, is_numbered, law_pages_cover_the_log};
use crate::table::{distinct_keys, lemma_found, lemma_lookup, lemma_lookup_put, lookup, put};
use crate::transport::TransportProblem;

verus! {

/// The change that a row of the log stands for.
pub open spec fn change_in(row: ChangeRow) -> StoredChange {
    StoredChange {
        sequence: row.sequence,
        revision_id: row.revision_id,
        content_id: row.content_id,
    }
}

/// What follows a point of the log is every change of the group after that point, and nothing
/// else, in the order of the log.
pub proof fn law_log_holds_every_later_change(
    changes: Seq<ChangeRow>,
    group_id: GroupId,
    after_sequence: u64,
)
    requires
        is_numbered(changes),
    ensures
        ({
            let later = changes_of(changes, group_id, after_sequence);
            &&& forall|k: int|
                0 <= k < changes.len() && (#[trigger] changes[k]).group_id == group_id
                    && changes[k].sequence > after_sequence ==> later.contains(
                    change_in(changes[k]),
                )
            &&& forall|i: int|
                0 <= i < later.len() ==> exists|k: int|
                    {
                        &&& 0 <= k < changes.len()
                        &&& (#[trigger] changes[k]).group_id == group_id
                        &&& changes[k].sequence > after_sequence
                        &&& change_in(changes[k]) == #[trigger] later[i]
                    }
            &&& forall|i: int, j: int|
                0 <= i < j < later.len() ==> (#[trigger] later[i]).sequence < (
                #[trigger] later[j]).sequence
        }),
    decreases changes.len(),
{
    let later = changes_of(changes, group_id, after_sequence);
    if changes.len() > 0 {
        let front = changes.drop_last();
        let row = changes.last();
        assert(changes[changes.len() - 1] == row);
        assert forall|i: int, j: int| 0 <= i < j < front.len() implies (
        #[trigger] front[i]).sequence < (#[trigger] front[j]).sequence by {
            assert(changes[i].sequence < changes[j].sequence);
        }
        assert forall|i: int| 0 <= i < front.len() implies 0 < (#[trigger] front[i]).sequence
            <= i64::MAX by {
            assert(0 < changes[i].sequence);
        }
        law_log_holds_every_later_change(front, group_id, after_sequence);
        let before = changes_of(front, group_id, after_sequence);
        let added = row.group_id == group_id && row.sequence > after_sequence;
        assert forall|k: int|
            0 <= k < changes.len() && (#[trigger] changes[k]).group_id == group_id
                && changes[k].sequence > after_sequence implies later.contains(
            change_in(changes[k]),
        ) by {
            if k < front.len() {
                assert(front[k] == changes[k]);
                assert(before.contains(change_in(front[k])));
                let m = choose|m: int| 0 <= m < before.len() && before[m] == change_in(front[k]);
                assert(later[m] == before[m]);
            } else {
                assert(later[later.len() - 1] == change_in(row));
            }
        }
        assert forall|i: int| 0 <= i < later.len() implies exists|k: int|
            {
                &&& 0 <= k < changes.len()
                &&& (#[trigger] changes[k]).group_id == group_id
                &&& changes[k].sequence > after_sequence
                &&& change_in(changes[k]) == #[trigger] later[i]
            } by {
            if i < before.len() {
                assert(later[i] == before[i]);
                let k = choose|k: int|
                    {
                        &&& 0 <= k < front.len()
                        &&& (#[trigger] front[k]).group_id == group_id
                        &&& front[k].sequence > after_sequence
                        &&& change_in(front[k]) == before[i]
                    };
                assert(changes[k] == front[k]);
            } else {
                assert(changes[changes.len() - 1].group_id == group_id);
                assert(change_in(row) == later[i]);
            }
        }
        assert forall|i: int, j: int| 0 <= i < j < later.len() implies (
        #[trigger] later[i]).sequence < (#[trigger] later[j]).sequence by {
            assert(later[i] == before[i]);
            if j < before.len() {
                assert(later[j] == before[j]);
            } else {
                let k = choose|k: int|
                    {
                        &&& 0 <= k < front.len()
                        &&& (#[trigger] front[k]).group_id == group_id
                        &&& front[k].sequence > after_sequence
                        &&& change_in(front[k]) == before[i]
                    };
                assert(changes[k].sequence < changes[changes.len() - 1].sequence);
            }
        }
    }
}

/// The high watermark of a group is the sequence of its last change, zero where it has none.
pub proof fn law_high_watermark_is_the_last_sequence(changes: Seq<ChangeRow>, group_id: GroupId)
    ensures
        forall|k: int|
            0 <= k < changes.len() && (#[trigger] changes[k]).group_id == group_id
                ==> changes[k].sequence <= high_watermark(changes, group_id),
        high_watermark(changes, group_id) > 0 ==> exists|k: int|
            {
                &&& 0 <= k < changes.len()
                &&& (#[trigger] changes[k]).group_id == group_id
                &&& changes[k].sequence == high_watermark(changes, group_id)
            },
    decreases changes.len(),
{
    if changes.len() > 0 {
        let front = changes.drop_last();
        law_high_watermark_is_the_last_sequence(front, group_id);
        assert(changes[changes.len() - 1] == changes.last());
        assert forall|k: int|
            0 <= k < changes.len() && (#[trigger] changes[k]).group_id == group_id implies changes[k].sequence
            <= high_watermark(changes, group_id) by {
            if k < front.len() {
                assert(front[k] == changes[k]);
            }
        }
        if high_watermark(changes, group_id) > 0 && high_watermark(changes, group_id)
            == high_watermark(front, group_id) {
            let k = choose|k: int|
                {
                    &&& 0 <= k < front.len()
                    &&& (#[trigger] front[k]).group_id == group_id
                    &&& front[k].sequence == high_watermark(front, group_id)
                };
            assert(changes[k] == front[k]);
        }
    }
}

/// A page of the log is the start of what follows a point of it, as long as was asked for where
/// there is so much, and tells how far the log goes.
pub proof fn law_page_is_the_start_of_what_follows(
    store: StoreView,
    group_id: GroupId,
    after_sequence: u64,
    maximum: nat,
)
    ensures
        match change_page(store, group_id, after_sequence, maximum) {
            Err(error) => after_sequence > i64::MAX && error == StoreError::SequenceOutOfRange(
                after_sequence,
            ),
            Ok(page) => {
                let later = changes_of(store.changes, group_id, after_sequence);
                &&& after_sequence <= i64::MAX
                &&& page.records.len() == if later.len() < maximum {
                    later.len()
                } else {
                    maximum
                }
                &&& forall|i: int|
                    0 <= i < page.records.len() ==> #[trigger] page.records[i] == later[i]
                &&& page.high_watermark == high_watermark(store.changes, group_id)
            },
        },
{
}

/// There is more after a page exactly where the log holds a change after the last one of the
/// page.
proof fn lemma_more_after_page(
    store: StoreView,
    group_id: GroupId,
    after_sequence: u64,
    maximum: nat,
)
    requires
        is_consistent(store),
        maximum > 0,
        after_sequence <= i64::MAX,
    ensures
        ({
            let later = changes_of(store.changes, group_id, after_sequence);
            let page = change_page(store, group_id, after_sequence, maximum)->Ok_0;
            &&& page.records.len() == 0 ==> later.len() == 0 && high_watermark(
                store.changes,
                group_id,
            ) <= after_sequence
            &&& page.records.len() > 0 ==> {
                &&& after_sequence < page.records.last().sequence <= i64::MAX
                &&& later == page.records + changes_of(
                    store.changes,
                    group_id,
                    page.records.last().sequence,
                )
                &&& page.records.last().sequence < page.high_watermark <==> changes_of(
                    store.changes,
                    group_id,
                    page.records.last().sequence,
                ).len() > 0
            }
        }),
{
    let changes = store.changes;
    let later = changes_of(changes, group_id, after_sequence);
    let page = change_page(store, group_id, after_sequence, maximum)->Ok_0;
    law_log_holds_every_later_change(changes, group_id, after_sequence);
    law_high_watermark_is_the_last_sequence(changes, group_id);
    let high = high_watermark(changes, group_id);
    if page.records.len() == 0 {
        assert(later.len() == 0);
        if high > after_sequence {
            let k = choose|k: int|
                {
                    &&& 0 <= k < changes.len()
                    &&& (#[trigger] changes[k]).group_id == group_id
                    &&& changes[k].sequence == high
                };
            assert(later.contains(change_in(changes[k])));
        }
    } else {
        law_pages_cover_the_log(store, group_id, after_sequence, maximum);
        let last = page.records.last();
        assert(last == later[page.records.len() - 1]);
        let k = choose|k: int|
            {
                &&& 0 <= k < changes.len()
                &&& (#[trigger] changes[k]).group_id == group_id
                &&& changes[k].sequence > after_sequence
                &&& change_in(changes[k]) == later[page.records.len() - 1]
            };
        assert(0 < changes[k].sequence <= i64::MAX);
        let rest = changes_of(changes, group_id, last.sequence);
        law_log_holds_every_later_change(changes, group_id, last.sequence);
        if last.sequence < high {
            let m = choose|m: int|
                {
                    &&& 0 <= m < changes.len()
                    &&& (#[trigger] changes[m]).group_id == group_id
                    &&& changes[m].sequence == high
                };
            assert(rest.contains(change_in(changes[m])));
        }
        if rest.len() > 0 {
            assert(rest[0] == rest[0]);
            let m = choose|m: int|
                {
                    &&& 0 <= m < changes.len()
                    &&& (#[trigger] changes[m]).group_id == group_id
                    &&& changes[m].sequence > last.sequence
                    &&& change_in(changes[m]) == rest[0]
                };
            assert(changes[m].sequence <= high);
        }
    }
}

/// The changes that a walk of the catalog looks at from a point on, in at most so many pages.
pub open spec fn walked_changes(
    store: StoreView,
    group_id: GroupId,
    after_sequence: u64,
    maximum: nat,
    pages: nat,
) -> Result<Seq<StoredChange>, DaemonProblem>
    decreases pages,
{
    match change_page(store, group_id, after_sequence, maximum) {
        Err(error) => Err(DaemonProblem::Store(error)),
        Ok(page) => match page_walked(after_sequence, page) {
            Err(problem) => Err(problem),
            Ok(None) => Ok(page.records),
            Ok(Some(next)) => if pages == 0 {
                Ok(page.records)
            } else {
                match walked_changes(store, group_id, next, maximum, (pages - 1) as nat) {
                    Err(problem) => Err(problem),
                    Ok(rest) => Ok(page.records + rest),
                }
            },
        },
    }
}

/// A finished walk has looked at every change of the group that follows the point where it
/// started, in order, and at no other; no walk fails.
pub proof fn law_walk_looks_at_every_change(
    store: StoreView,
    group_id: GroupId,
    after_sequence: u64,
    maximum: nat,
    pages: nat,
)
    requires
        is_consistent(store),
        maximum > 0,
        after_sequence <= i64::MAX,
        pages >= changes_of(store.changes, group_id, after_sequence).len(),
    ensures
        walked_changes(store, group_id, after_sequence, maximum, pages) == Ok::<
            Seq<StoredChange>,
            DaemonProblem,
        >(changes_of(store.changes, group_id, after_sequence)),
    decreases pages,
{
    let later = changes_of(store.changes, group_id, after_sequence);
    let page = change_page(store, group_id, after_sequence, maximum)->Ok_0;
    lemma_more_after_page(store, group_id, after_sequence, maximum);
    if page.records.len() == 0 {
        assert(page.records =~= later);
    } else {
        let next = page.records.last().sequence;
        let rest = changes_of(store.changes, group_id, next);
        assert(later.len() == page.records.len() + rest.len());
        if next < page.high_watermark {
            law_walk_looks_at_every_change(store, group_id, next, maximum, (pages - 1) as nat);
        } else {
            assert(page.records =~= later);
        }
    }
}

/// A change that the walk looks at is applied, under the signature that is on record for it,
/// exactly where there is one and it is by another device; so a change is passed over only
/// where it is unsigned or the device's own.
pub proof fn law_signed_changes_of_others_are_applied(
    store: StoreView,
    group_id: GroupId,
    device_id: DeviceId,
    change: StoredChange,
    index: int,
)
    requires
        distinct_keys(store.authentications),
        0 <= index < store.authentications.len(),
        store.authentications[index].0 == (RevisionKey {
            group_id,
            revision_id: change.revision_id,
        }),
    ensures
        ({
            let authorization = store.authentications[index].1.authorization;
            &&& authorization.author_device_id != device_id ==> change_to_apply(
                store,
                group_id,
                device_id,
                change,
            ) == Some(authorization)
            &&& authorization.author_device_id == device_id ==> change_to_apply(
                store,
                group_id,
                device_id,
                change,
            ) is None
        }),
{
    lemma_found(store.authentications, index);
}

/// A change without a signature on record is passed over.
pub proof fn law_unsigned_changes_are_passed_over(
    store: StoreView,
    group_id: GroupId,
    device_id: DeviceId,
    change: StoredChange,
)
    requires
        forall|i: int|
            0 <= i < store.authentications.len() ==> (#[trigger] store.authentications[i]).0 != (
            RevisionKey { group_id, revision_id: change.revision_id }),
    ensures
        change_to_apply(store, group_id, device_id, change) is None,
{
    lemma_lookup(
        store.authentications,
        RevisionKey { group_id, revision_id: change.revision_id },
    );
    match lookup(
        store.authentications,
        RevisionKey { group_id, revision_id: change.revision_id },
    ) {
        Some(row) => {
            let k = choose|k: int|
                0 <= k < store.authentications.len() && store.authentications[k] == (
                    RevisionKey { group_id, revision_id: change.revision_id },
                    row,
                );
            assert(store.authentications[k].0 == RevisionKey {
                group_id,
                revision_id: change.revision_id,
            });
        },
        None => {},
    }
}

/// A pull begins after exactly what was recorded of the peer: it asks for the changes that
/// follow the recorded watermark, in pages of the size that was asked for, and fails only where
/// the session is that of another group or the pages would be too small or too large.
pub proof fn law_pull_begins_at_the_recorded_watermark(
    store: StoreView,
    session_group_id: GroupId,
    group_id: GroupId,
    peer_device_id: DeviceId,
    maximum_records: usize,
    limits: LimitsView,
)
    ensures
        match pull_begun(
            store,
            session_group_id,
            group_id,
            peer_device_id,
            maximum_records,
            limits,
        ) {
            Ok(state) => {
                &&& session_group_id == group_id
                &&& 0 < maximum_records <= limits.maximum_change_records_per_batch
                &&& state.after_sequence == watermark_at(store, group_id, peer_device_id)
                &&& state.maximum_records == maximum_records
                &&& state.report.peer_high_watermark == watermark_at(
                    store,
                    group_id,
                    peer_device_id,
                )
                &&& state.report.pages_received == 0
                &&& state.report.records_committed == 0
                &&& state.report.records_replayed == 0
                &&& state.report.objects_requested == 0
                &&& state.report.objects_stored == 0
                &&& state.report.objects_reused == 0
                &&& state.report.encrypted_bytes_received == 0
            },
            Err(TransportProblem::SessionGroupMismatch { session, keys }) => {
                &&& session_group_id != group_id
                &&& session == session_group_id
                &&& keys == group_id
            },
            Err(TransportProblem::InvalidPageSize { actual, maximum }) => {
                &&& session_group_id == group_id
                &&& actual == maximum_records
                &&& maximum == limits.maximum_change_records_per_batch
                &&& actual == 0 || actual > maximum || actual > u32::MAX
            },
            Err(_) => false,
        },
{
}

/// What is recorded of a peer is what is read of it, and nothing is recorded of others by it;
/// of a peer of which nothing was recorded everything is asked for.
pub proof fn law_recorded_watermark_is_read(
    store: StoreView,
    group_id: GroupId,
    device_id: DeviceId,
    sequence: u64,
    other: DeviceKey,
)
    ensures
        ({
            let after = StoreView {
                watermarks: put(store.watermarks, DeviceKey { group_id, device_id }, sequence),
                ..store
            };
            &&& watermark_at(after, group_id, device_id) == sequence
            &&& other != (DeviceKey { group_id, device_id }) ==> watermark_at(
                after,
                other.group_id,
                other.device_id,
            ) == watermark_at(store, other.group_id, other.device_id)
        }),
        (forall|i: int|
            0 <= i < store.watermarks.len() ==> (#[trigger] store.watermarks[i]).0 != (DeviceKey {
                group_id,
                device_id,
            })) ==> watermark_at(store, group_id, device_id) == 0,
{
    let key = DeviceKey { group_id, device_id };
    lemma_lookup_put(store.watermarks, key, sequence, key);
    lemma_lookup_put(store.watermarks, key, sequence, other);
    lemma_lookup(store.watermarks, key);
    match lookup(store.watermarks, key) {
        Some(value) => {
            let k = choose|k: int|
                0 <= k < store.watermarks.len() && store.watermarks[k] == (key, value);
            assert(store.watermarks[k].0 == key);
        },
        None => {},
    }
}

/// A peer is told that there is more exactly where the log goes on after the page that it gets,
/// or after the point from which it asked where the page is empty.
pub proof fn law_more_is_announced_while_the_log_goes_on(
    records: Seq<StoredChange>,
    after_sequence: u64,
    high_watermark: u64,
)
    ensures
        has_more(records, after_sequence, high_watermark) <==> high_watermark > if records.len()
            > 0 {
            records[records.len() - 1].sequence
        } else {
            after_sequence
        },
{
}

/// How far a batch brings the one who accepts all of it: to the end of the sender's log where
/// there is no more, else to the last change of the batch.
pub proof fn law_batch_brings_as_far_as_it_goes(batch: BatchView, known: u64)
    ensures
        !batch.has_more ==> accepted_through(batch, known) == batch.high_watermark,
        batch.has_more && batch.records.len() > 0 ==> accepted_through(batch, known)
            == batch.records[batch.records.len() - 1].sequence,
        batch.has_more && batch.records.len() == 0 ==> accepted_through(batch, known) == known,
{
}

/// A pull goes on after a page exactly where there is more, from the point that the page brought
/// it to, which is further than where it was.
pub proof fn law_pull_goes_on_while_there_is_more(
    state: PullState,
    high_watermark: u64,
    has_more: bool,
)
    ensures
        match page_followed(state, high_watermark, has_more) {
            Ok(None) => !has_more,
            Ok(Some(next)) => has_more && next == high_watermark && next > state.after_sequence,
            Err(TransportProblem::ChangePageMadeNoProgress {
                after_sequence,
                high_watermark: reached,
            }) => {
                &&& has_more
                &&& reached == high_watermark
                &&& after_sequence == state.after_sequence
                &&& reached <= after_sequence
            },
            Err(_) => false,
        },
{
}

/// The changes that a pull gets from a peer whose log stays as it is, from a point on, in at
/// most so many pages: each request asks for what follows the point that the page before
/// brought it to.
pub open spec fn pulled_changes(
    store: StoreView,
    group_id: GroupId,
    after_sequence: u64,
    maximum: nat,
    pages: nat,
) -> Seq<StoredChange>
    decreases pages,
{
    let page = change_page(store, group_id, after_sequence, maximum)->Ok_0;
    let more = has_more(page.records, after_sequence, page.high_watermark);
    if more && page.records.len() > 0 && pages > 0 {
        page.records + pulled_changes(
            store,
            group_id,
            page.records.last().sequence,
            maximum,
            (pages - 1) as nat,
        )
    } else {
        page.records
    }
}

/// A pull that goes on while there is more gets every change of the peer's log after the point
/// where it began, in order, and no other.
pub proof fn law_pull_gets_every_change(
    store: StoreView,
    group_id: GroupId,
    after_sequence: u64,
    maximum: nat,
    pages: nat,
)
    requires
        is_consistent(store),
        maximum > 0,
        after_sequence <= i64::MAX,
        pages >= changes_of(store.changes, group_id, after_sequence).len(),
    ensures
        pulled_changes(store, group_id, after_sequence, maximum, pages) == changes_of(
            store.changes,
            group_id,
            after_sequence,
        ),
    decreases pages,
{
    let later = changes_of(store.changes, group_id, after_sequence);
    let page = change_page(store, group_id, after_sequence, maximum)->Ok_0;
    lemma_more_after_page(store, group_id, after_sequence, maximum);
    if page.records.len() == 0 {
        assert(page.records =~= later);
    } else {
        let next = page.records.last().sequence;
        let rest = changes_of(store.changes, group_id, next);
        assert(later.len() == page.records.len() + rest.len());
        if next < page.high_watermark {
            law_pull_gets_every_change(store, group_id, next, maximum, (pages - 1) as nat);
        } else {
            assert(page.records =~= later);
        }
    }
}

/// Every change that is looked at is counted, and one without a signature is counted as such
/// too; nothing else in the report changes.
pub proof fn law_every_change_looked_at_is_counted(
    store: StoreView,
    group_id: GroupId,
    device_id: DeviceId,
    report: MaterializationReport,
    change: StoredChange,
)
    requires
        report.has_room(),
    ensures
        ({
            let after = with_examined(store, group_id, report, change);
            let unsigned = lookup(
                store.authentications,
                RevisionKey { group_id, revision_id: change.revision_id },
            ) is None;
            &&& after.records_examined == report.records_examined + 1
            &&& after.unsigned_records_skipped == report.unsigned_records_skipped + if unsigned {
                1int
            } else {
                0int
            }
            &&& after.recovered == report.recovered
            &&& after.records_applied == report.records_applied
            &&& after.records_unchanged == report.records_unchanged
            &&& after.records_kept_local == report.records_kept_local
            &&& after.conflicts_kept_both == report.conflicts_kept_both
        }),
{
}

} // verus!
