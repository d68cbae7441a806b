//! Where files are brought to: what may stand in the way, and what their times mean.
use vstd::prelude::*;

use crate::bytes::bytes_equal;

verus! {

/// What stands at a place of the file system, links not followed.
#[derive(Clone, Copy, Debug, PartialEq, Eq, Structural)]
pub enum EntryKind {
    Missing,
    SymbolicLink,
    Directory,
    File,
    Other,
}

/// Why a place is not used.
#[derive(Clone, Copy, Debug, PartialEq, Eq, Structural)]
pub enum PlaceRefusal {
    SymbolicLink,
    UnsupportedFileType,
    RootNotDirectory,
    RootStoreOverlap,
}

/// What to do about a directory on the way to a file.
#[derive(Clone, Copy, Debug, PartialEq, Eq, Structural)]
pub enum ParentStep {
    /// It is there.
    Enter,
    /// It has to be made.
    Create,
    /// It is not there, and so neither is the file.
    Absent,
}

/// What to do about a directory on the way to a file, which is made where `create_parents`. No
/// link is followed.
pub fn check_parent(kind: EntryKind, create_parents: bool) -> (result: Result<
    ParentStep,
    PlaceRefusal,
>)
    ensures
        result == match kind {
            EntryKind::SymbolicLink => Err::<ParentStep, PlaceRefusal>(PlaceRefusal::SymbolicLink),
            EntryKind::Directory => Ok(ParentStep::Enter),
            EntryKind::Missing => Ok(
                if create_parents {
                    ParentStep::Create
                } else {
                    ParentStep::Absent
                },
            ),
            EntryKind::File | EntryKind::Other => Err(PlaceRefusal::UnsupportedFileType),
        },
{
    match kind {
        EntryKind::SymbolicLink => Err(PlaceRefusal::SymbolicLink),
        EntryKind::Directory => Ok(ParentStep::Enter),
        EntryKind::Missing => {
            if create_parents {
                Ok(ParentStep::Create)
            } else {
                Ok(ParentStep::Absent)
            }
        },
        EntryKind::File | EntryKind::Other => Err(PlaceRefusal::UnsupportedFileType),
    }
}

/// Whether a file is at a place where one may be: nothing but a file or nothing at all may stand
/// there.
pub open spec fn file_at(kind: EntryKind) -> Result<bool, PlaceRefusal> {
    match kind {
        EntryKind::SymbolicLink => Err(PlaceRefusal::SymbolicLink),
        EntryKind::File => Ok(true),
        EntryKind::Missing => Ok(false),
        EntryKind::Directory | EntryKind::Other => Err(PlaceRefusal::UnsupportedFileType),
    }
}

/// Tells whether a file is at the place of a destination, of a staging file or of a file that is
/// to be removed.
pub fn check_file(kind: EntryKind) -> (result: Result<bool, PlaceRefusal>)
    ensures
        result == file_at(kind),
{
    match kind {
        EntryKind::SymbolicLink => Err(PlaceRefusal::SymbolicLink),
        EntryKind::File => Ok(true),
        EntryKind::Missing => Ok(false),
        EntryKind::Directory | EntryKind::Other => Err(PlaceRefusal::UnsupportedFileType),
    }
}

/// One path leads to a place inside the other, or to the same place. Paths are absolute and given
/// by their components.
pub open spec fn is_inside(path: Seq<Seq<u8>>, directory: Seq<Seq<u8>>) -> bool {
    directory.len() <= path.len() && path.take(directory.len() as int) == directory
}

/// The components of a path.
pub open spec fn components_view(path: Seq<Vec<u8>>) -> Seq<Seq<u8>> {
    path.map_values(|component: Vec<u8>| component@)
}

/// Tells whether one path leads to a place inside the other.
pub fn starts_with(path: &Vec<Vec<u8>>, directory: &Vec<Vec<u8>>) -> (inside: bool)
    ensures
        inside == is_inside(components_view(path@), components_view(directory@)),
{
    if directory.len() > path.len() {
        return false;
    }
    let ghost taken = components_view(path@).take(directory@.len() as int);
    let mut index: usize = 0;
    while index < directory.len()
        invariant
            index <= directory@.len() <= path@.len(),
            taken == components_view(path@).take(directory@.len() as int),
            forall|i: int| 0 <= i < index ==> #[trigger] path@[i]@ == directory@[i]@,
        decreases directory@.len() - index,
    {
        if !bytes_equal(path[index].as_slice(), directory[index].as_slice()) {
            assert(taken[index as int] == path@[index as int]@);
            assert(components_view(directory@)[index as int] == directory@[index as int]@);
            return false;
        }
        index += 1;
    }
    assert(taken =~= components_view(directory@));
    true
}

/// Checks the place of the synchronized files: a directory, apart from the place of the store.
pub fn check_sync_root(
    kind: EntryKind,
    root: &Vec<Vec<u8>>,
    store_root: &Vec<Vec<u8>>,
) -> (result: Result<(), PlaceRefusal>)
    ensures
        result == if kind == EntryKind::SymbolicLink {
            Err::<(), PlaceRefusal>(PlaceRefusal::SymbolicLink)
        } else if kind != EntryKind::Directory {
            Err(PlaceRefusal::RootNotDirectory)
        } else if is_inside(components_view(root@), components_view(store_root@)) || is_inside(
            components_view(store_root@),
            components_view(root@),
        ) {
            Err(PlaceRefusal::RootStoreOverlap)
        } else {
            Ok(())
        },
{
    if kind == EntryKind::SymbolicLink {
        return Err(PlaceRefusal::SymbolicLink);
    }
    if kind != EntryKind::Directory {
        return Err(PlaceRefusal::RootNotDirectory);
    }
    if starts_with(root, store_root) || starts_with(store_root, root) {
        return Err(PlaceRefusal::RootStoreOverlap);
    }
    Ok(())
}

/// A time, by its distance from the start of 1970.
#[derive(Clone, Copy, Debug, PartialEq, Eq, Structural)]
pub struct Timestamp {
    pub before_epoch: bool,
    pub seconds: u64,
    pub nanoseconds: u32,
}

/// The whole milliseconds between the start of 1970 and a time.
pub open spec fn whole_milliseconds(time: Timestamp) -> nat {
    (time.seconds * 1000 + time.nanoseconds / 1_000_000) as nat
}

/// The milliseconds since the start of 1970 at a time, none where they do not fit.
pub open spec fn milliseconds_at(time: Timestamp) -> Option<i64> {
    if whole_milliseconds(time) > i64::MAX {
        None
    } else if time.before_epoch {
        Some((-whole_milliseconds(time)) as i64)
    } else {
        Some(whole_milliseconds(time) as i64)
    }
}

/// The milliseconds since the start of 1970 at a time, none where they do not fit.
pub fn unix_milliseconds(time: Timestamp) -> (milliseconds: Option<i64>)
    ensures
        milliseconds == milliseconds_at(time),
{
    let whole: u128 = time.seconds as u128 * 1000 + (time.nanoseconds / 1_000_000) as u128;
    if whole > i64::MAX as u128 {
        return None;
    }
    let magnitude: i64 = whole as i64;
    if time.before_epoch {
        Some(-magnitude)
    } else {
        Some(magnitude)
    }
}

/// The time that is the given milliseconds from the start of 1970.
pub open spec fn time_of(milliseconds: i64) -> Timestamp {
    let magnitude = if milliseconds < 0 {
        -milliseconds
    } else {
        milliseconds as int
    };
    Timestamp {
        before_epoch: milliseconds < 0,
        seconds: (magnitude / 1000) as u64,
        nanoseconds: (magnitude % 1000 * 1_000_000) as u32,
    }
}

/// The time that is the given milliseconds from the start of 1970.
pub fn time_from_unix_milliseconds(milliseconds: i64) -> (time: Timestamp)
    ensures
        time == time_of(milliseconds),
{
    let wide: i128 = milliseconds as i128;
    let magnitude: u64 = if wide < 0 {
        (-wide) as u64
    } else {
        wide as u64
    };
    Timestamp {
        before_epoch: milliseconds < 0,
        seconds: magnitude / 1000,
        nanoseconds: (magnitude % 1000 * 1_000_000) as u32,
    }
}

/// The milliseconds of the time that stands for them are those milliseconds; all but the very
/// first can be represented both ways.
pub proof fn law_milliseconds_round_trip(milliseconds: i64)
    requires
        milliseconds != i64::MIN,
    ensures
        milliseconds_at(time_of(milliseconds)) == Some(milliseconds),
{
    let time = time_of(milliseconds);
    let magnitude = if milliseconds < 0 {
        -milliseconds
    } else {
        milliseconds as int
    };
    assert(magnitude % 1000 * 1_000_000 / 1_000_000 == magnitude % 1000);
    assert(whole_milliseconds(time) == magnitude);
}

} // verus!
