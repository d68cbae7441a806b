//! What looking through a folder promises: which paths it takes, which collide, in which order
//! they come, which files are gone, and what times are read.
use vstd::prelude::*;

use crate::discovery::{
    bytes_before, colliding, component_texts, component_trouble, lost_heads, FoundComponent,
};
use crate::history::LocalHead;
use crate::ids::PathId;
use crate::path::PathForms;
use crate::placement::{file_at, milliseconds_at, time_of, EntryKind, PlaceRefusal, Timestamp};
use crate::record::ChangeRecordKind;
use crate::scan::ScanProblem;

verus! {

/// A path is taken where each of its components is a name; otherwise the first that is none says
/// why it is not.
pub proof fn law_path_is_made_of_names(components: Seq<FoundComponent>)
    ensures
        component_trouble(components) is None <==> forall|i: int|
            0 <= i < components.len() ==> #[trigger] components[i] is Normal,
        component_trouble(components) matches Some(problem) ==> exists|i: int|
            {
                &&& 0 <= i < components.len()
                &&& forall|j: int| 0 <= j < i ==> #[trigger] components[j] is Normal
                &&& match #[trigger] components[i] {
                    FoundComponent::Normal(_) => false,
                    FoundComponent::NonUnicode => problem == ScanProblem::NonUnicodePath,
                    FoundComponent::Unsupported => problem == ScanProblem::InvalidPathComponent,
                }
            },
        component_texts(components).len() == components.len(),
        forall|i: int|
            0 <= i < components.len() ==> (#[trigger] components[i] matches FoundComponent::Normal(
                text,
            ) ==> component_texts(components)[i] == text@),
    decreases components.len(),
{
    if components.len() > 0 {
        let before = components.drop_last();
        let last = components.len() - 1;
        law_path_is_made_of_names(before);
        assert forall|i: int| 0 <= i < before.len() implies before[i] == #[trigger] components[i] by {}
        if component_trouble(before) is Some {
            let problem = component_trouble(before)->0;
            let i = choose|i: int|
                {
                    &&& 0 <= i < before.len()
                    &&& forall|j: int| 0 <= j < i ==> #[trigger] before[j] is Normal
                    &&& match #[trigger] before[i] {
                        FoundComponent::Normal(_) => false,
                        FoundComponent::NonUnicode => problem == ScanProblem::NonUnicodePath,
                        FoundComponent::Unsupported => problem == ScanProblem::InvalidPathComponent,
                    }
                };
            assert(components[i] == before[i]);
            assert forall|j: int| 0 <= j < i implies #[trigger] components[j] is Normal by {
                assert(before[j] is Normal);
            }
        } else {
            assert forall|j: int| 0 <= j < last implies #[trigger] components[j] is Normal by {
                assert(before[j] is Normal);
            }
            assert(components[last] == components.last());
        }
    }
}

/// A path collides with the first that was found under the same comparison key, and with no other.
pub proof fn law_paths_collide_by_comparison_key(paths: Seq<PathForms>, path: PathForms)
    ensures
        colliding(paths, path) is None <==> forall|i: int|
            0 <= i < paths.len() ==> (#[trigger] paths[i]).comparison_key != path.comparison_key,
        colliding(paths, path) matches Some(earlier) ==> exists|i: int|
            {
                &&& 0 <= i < paths.len()
                &&& #[trigger] paths[i] == earlier
                &&& earlier.comparison_key == path.comparison_key
                &&& forall|j: int|
                    0 <= j < i ==> (#[trigger] paths[j]).comparison_key != path.comparison_key
            },
    decreases paths.len(),
{
    if paths.len() > 0 {
        let before = paths.drop_last();
        let last = paths.len() - 1;
        law_paths_collide_by_comparison_key(before, path);
        assert forall|i: int| 0 <= i < before.len() implies before[i] == #[trigger] paths[i] by {}
        if colliding(before, path) is Some {
            let earlier = colliding(before, path)->0;
            let i = choose|i: int|
                {
                    &&& 0 <= i < before.len()
                    &&& #[trigger] before[i] == earlier
                    &&& earlier.comparison_key == path.comparison_key
                    &&& forall|j: int|
                        0 <= j < i ==> (#[trigger] before[j]).comparison_key != path.comparison_key
                };
            assert(paths[i] == earlier);
            assert forall|j: int| 0 <= j < i implies (#[trigger] paths[j]).comparison_key
                != path.comparison_key by {
                assert(before[j] == paths[j]);
            }
        } else {
            assert forall|j: int| 0 <= j < last implies (#[trigger] paths[j]).comparison_key
                != path.comparison_key by {
                assert(before[j] == paths[j]);
            }
            assert(paths[last] == paths.last());
        }
    }
}

/// Bytes come before others where they end first, or are the smaller at the first place at which
/// the two differ.
pub proof fn law_bytes_are_ordered_by_the_first_difference(left: Seq<u8>, right: Seq<u8>)
    ensures
        bytes_before(left, right) <==> exists|i: int| #[trigger] first_smaller(left, right, i),
    decreases left.len(),
{
    if bytes_before(left, right) {
        if left.len() == 0 || left[0] < right[0] {
            assert(first_smaller(left, right, 0));
        } else {
            law_bytes_are_ordered_by_the_first_difference(left.skip(1), right.skip(1));
            let i = choose|i: int| #[trigger] first_smaller(left.skip(1), right.skip(1), i);
            assert(left.skip(1).take(i) =~= left.take(i + 1).skip(1));
            assert forall|j: int| 0 <= j < i + 1 implies #[trigger] left[j] == right[j] by {
                if j > 0 {
                    assert(left.skip(1)[j - 1] == right.skip(1)[j - 1]);
                }
            }
            assert(first_smaller(left, right, i + 1));
        }
    } else if exists|i: int| #[trigger] first_smaller(left, right, i) {
        let i = choose|i: int| #[trigger] first_smaller(left, right, i);
        assert(right.len() > 0);
        if i > 0 {
            assert(left[0] == right[0]);
            assert forall|j: int| 0 <= j < i - 1 implies #[trigger] left.skip(1)[j] == right.skip(
                1,
            )[j] by {
                assert(left[j + 1] == right[j + 1]);
            }
            assert(first_smaller(left.skip(1), right.skip(1), i - 1));
            law_bytes_are_ordered_by_the_first_difference(left.skip(1), right.skip(1));
        }
    }
}

/// The bytes agree up to a place, and there the first ends or is the smaller.
pub open spec fn first_smaller(left: Seq<u8>, right: Seq<u8>, i: int) -> bool {
    &&& 0 <= i <= left.len()
    &&& i < right.len()
    &&& forall|j: int| 0 <= j < i ==> #[trigger] left[j] == right[j]
    &&& i == left.len() || left[i] < right[i]
}

/// A file is gone where there is a head of it and it was not found; a head that is a deletion is
/// not gone again.
pub proof fn law_file_that_is_not_found_is_gone(
    heads: Seq<LocalHead>,
    found: Seq<PathId>,
    head: LocalHead,
)
    ensures
        lost_heads(heads, found).contains(head) <==> {
            &&& heads.contains(head)
            &&& head.kind == ChangeRecordKind::File
            &&& !found.contains(head.path_id)
        },
    decreases heads.len(),
{
    reveal(Seq::filter);
    let lost = lost_heads(heads, found);
    if heads.len() > 0 {
        let before = heads.drop_last();
        let last = heads.last();
        law_file_that_is_not_found_is_gone(before, found, head);
        assert(heads =~= before.push(last));
        let lost_before = lost_heads(before, found);
        if heads.contains(head) {
            let i = heads.index_of(head);
            if i < before.len() {
                assert(before[i] == head);
            }
        }
        if before.contains(head) {
            let i = before.index_of(head);
            assert(heads[i] == head);
        }
        assert(heads[heads.len() - 1] == last);
        if last.kind == ChangeRecordKind::File && !found.contains(last.path_id) {
            assert(lost == lost_before.push(last));
            assert(lost[lost.len() - 1] == last);
            if lost.contains(head) {
                let i = lost.index_of(head);
                if i < lost_before.len() {
                    assert(lost_before[i] == head);
                }
            }
            if lost_before.contains(head) {
                let i = lost_before.index_of(head);
                assert(lost[i] == head);
            }
        } else {
            assert(lost == lost_before);
        }
    }
}

/// A file may be written where there is a file or nothing; a link is never followed.
pub proof fn law_only_files_are_written_over(kind: EntryKind)
    ensures
        file_at(kind) is Ok <==> kind == EntryKind::File || kind == EntryKind::Missing,
        file_at(kind) matches Ok(there) ==> there == (kind == EntryKind::File),
        file_at(kind) matches Err(refusal) ==> refusal == if kind == EntryKind::SymbolicLink {
            PlaceRefusal::SymbolicLink
        } else {
            PlaceRefusal::UnsupportedFileType
        },
{
}

/// The distance of a time from the epoch, in nanoseconds.
pub open spec fn distance(time: Timestamp) -> int {
    time.seconds * 1_000_000_000 + time.nanoseconds
}

/// A time is read as the milliseconds that have gone by since the epoch, or that are left until
/// it, without the rest; it is not read where their number is too large.
pub proof fn law_time_is_read_in_whole_milliseconds(time: Timestamp)
    ensures
        match milliseconds_at(time) {
            Some(milliseconds) => {
                let gone = if milliseconds < 0 {
                    -(milliseconds as int)
                } else {
                    milliseconds as int
                };
                &&& gone * 1_000_000 <= distance(time) < (gone + 1) * 1_000_000
                &&& milliseconds < 0 ==> time.before_epoch
                &&& milliseconds > 0 ==> !time.before_epoch
            },
            None => distance(time) >= 0x8000_0000_0000_0000 * 1_000_000,
        },
{
    let whole: int = time.nanoseconds as int / 1_000_000;
    assert(time.nanoseconds == whole * 1_000_000 + time.nanoseconds as int % 1_000_000);
    assert(0 <= time.nanoseconds as int % 1_000_000 < 1_000_000);
}

/// A number of milliseconds becomes the time that lies so far from the epoch, on its side of it.
pub proof fn law_time_lies_so_far_from_the_epoch(milliseconds: i64)
    ensures
        ({
            let time = time_of(milliseconds);
            &&& time.before_epoch <==> milliseconds < 0
            &&& distance(time) == if milliseconds < 0 {
                -(milliseconds as int) * 1_000_000
            } else {
                milliseconds as int * 1_000_000
            }
            &&& time.nanoseconds < 1_000_000_000
        }),
{
    let magnitude: int = if milliseconds < 0 {
        -(milliseconds as int)
    } else {
        milliseconds as int
    };
    assert(magnitude == magnitude / 1000 * 1000 + magnitude % 1000);
    assert(0 <= magnitude / 1000 <= u64::MAX);
}

} // verus!
