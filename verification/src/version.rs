//! Version vectors: how often each device has changed a file.
use vstd::prelude::*;

use crate::ids::DeviceId;

verus! {

/// The entries of a version vector: each device once, in order, with a positive counter.
pub open spec fn version_wf(entries: Seq<(DeviceId, u64)>) -> bool {
    &&& forall|i: int, j: int|
        0 <= i < j < entries.len() ==> (#[trigger] entries[i]).0.value < (
        #[trigger] entries[j]).0.value
    &&& forall|i: int| 0 <= i < entries.len() ==> (#[trigger] entries[i]).1 > 0
}

/// `device` has an entry.
pub open spec fn has_device(entries: Seq<(DeviceId, u64)>, device: DeviceId) -> bool {
    exists|i: int| 0 <= i < entries.len() && (#[trigger] entries[i]).0 == device
}

/// The counter of `device`, zero where it has no entry.
pub open spec fn counter_of(entries: Seq<(DeviceId, u64)>, device: DeviceId) -> u64 {
    if has_device(entries, device) {
        entries[choose|i: int| 0 <= i < entries.len() && (#[trigger] entries[i]).0 == device].1
    } else {
        0
    }
}

/// Some device has a higher counter in `left` than in `right`.
pub open spec fn is_ahead(left: Seq<(DeviceId, u64)>, right: Seq<(DeviceId, u64)>) -> bool {
    exists|device: DeviceId| #[trigger] counter_of(left, device) > counter_of(right, device)
}

/// How `left` stands to `right`, device by device.
pub open spec fn relation_of(
    left: Seq<(DeviceId, u64)>,
    right: Seq<(DeviceId, u64)>,
) -> VersionRelation {
    if is_ahead(left, right) {
        if is_ahead(right, left) {
            VersionRelation::Concurrent
        } else {
            VersionRelation::Descendant
        }
    } else if is_ahead(right, left) {
        VersionRelation::Ancestor
    } else {
        VersionRelation::Equal
    }
}

/// `left` comes before `right` in the lexicographic order of their entries.
pub open spec fn version_less(left: Seq<(DeviceId, u64)>, right: Seq<(DeviceId, u64)>) -> bool
    decreases left.len(),
{
    if right.len() == 0 {
        false
    } else if left.len() == 0 {
        true
    } else if left[0] != right[0] {
        left[0].0.value < right[0].0.value || (left[0].0 == right[0].0 && left[0].1 < right[0].1)
    } else {
        version_less(left.drop_first(), right.drop_first())
    }
}

/// The entry at `index` has a positive counter and a device that no earlier entry has.
pub open spec fn entry_ok(entries: Seq<(DeviceId, u64)>, index: int) -> bool {
    &&& entries[index].1 > 0
    &&& forall|k: int| 0 <= k < index ==> (#[trigger] entries[k]).0 != entries[index].0
}

/// The first entry that is not acceptable stands at `index`.
pub open spec fn first_bad_entry(entries: Seq<(DeviceId, u64)>, index: int) -> bool {
    &&& 0 <= index < entries.len()
    &&& !entry_ok(entries, index)
    &&& forall|j: int| 0 <= j < index ==> #[trigger] entry_ok(entries, j)
}

#[derive(Clone, Copy, Debug, PartialEq, Eq, Structural)]
pub enum VersionRelation {
    Equal,
    Ancestor,
    Descendant,
    Concurrent,
}

#[derive(Clone, Copy, Debug, PartialEq, Eq, Structural)]
pub enum VersionVectorError {
    CounterOverflow { device_id: DeviceId },
    ZeroCounter { device_id: DeviceId },
    DuplicateDevice { device_id: DeviceId },
}

/// For each device that has changed a file, how often it has.
#[derive(Debug, PartialEq, Eq, PartialOrd, Ord)]
pub struct VersionVector {
    entries: Vec<(DeviceId, u64)>,
}

impl View for VersionVector {
    type V = Seq<(DeviceId, u64)>;

    closed spec fn view(&self) -> Seq<(DeviceId, u64)> {
        self.entries@
    }
}

impl Default for VersionVector {
    fn default() -> (vector: Self)
        ensures
            vector@ == Seq::<(DeviceId, u64)>::empty(),
    {
        VersionVector { entries: Vec::new() }
    }
}

impl Clone for VersionVector {
    fn clone(&self) -> (vector: Self)
        ensures
            vector@ == self@,
    {
        proof {
            use_type_invariant(self);
        }
        let entries: Vec<(DeviceId, u64)> = copy_entries(&self.entries);
        VersionVector { entries }
    }
}

fn copy_entries(entries: &Vec<(DeviceId, u64)>) -> (copy: Vec<(DeviceId, u64)>)
    ensures
        copy@ == entries@,
{
    let mut copy: Vec<(DeviceId, u64)> = Vec::new();
    let mut index: usize = 0;
    while index < entries.len()
        invariant
            index <= entries.len(),
            copy@ == entries@.take(index as int),
        decreases entries.len() - index,
    {
        copy.push(entries[index]);
        proof {
            assert(entries@.take(index + 1) =~= entries@.take(index as int).push(
                entries@[index as int],
            ));
        }
        index += 1;
    }
    assert(copy@ =~= entries@);
    copy
}

impl VersionVector {
    /// Every vector keeps its entries in order, without repetition and without zero counters.
    #[verifier::type_invariant]
    pub open spec fn canonical(self) -> bool {
        version_wf(self@)
    }

    /// The vector with the given entries, in any order.
    pub fn from_entries(entries: Vec<(DeviceId, u64)>) -> (result: Result<Self, VersionVectorError>)
        ensures
            result is Ok == (forall|i: int|
                0 <= i < entries@.len() ==> #[trigger] entry_ok(entries@, i)),
            result matches Ok(vector) ==> {
                &&& version_wf(vector@)
                &&& vector@.len() == entries@.len()
                &&& forall|entry: (DeviceId, u64)| #[trigger]
                    vector@.contains(entry) == entries@.contains(entry)
            },
            result matches Err(error) ==> exists|i: int| #[trigger]
                first_bad_entry(entries@, i) && error == if entries@[i].1 == 0 {
                    VersionVectorError::ZeroCounter { device_id: entries@[i].0 }
                } else {
                    VersionVectorError::DuplicateDevice { device_id: entries@[i].0 }
                },
    {
        let mut sorted: Vec<(DeviceId, u64)> = Vec::new();
        let mut index: usize = 0;
        while index < entries.len()
            invariant
                index <= entries.len(),
                version_wf(sorted@),
                sorted@.len() == index,
                forall|i: int| 0 <= i < index ==> #[trigger] entry_ok(entries@, i),
                forall|entry: (DeviceId, u64)| #[trigger]
                    sorted@.contains(entry) == entries@.take(index as int).contains(entry),
            decreases entries.len() - index,
        {
            let (device_id, counter) = entries[index];
            let ghost done = entries@.take(index as int);
            if counter == 0 {
                proof {
                    assert(first_bad_entry(entries@, index as int));
                }
                return Err(VersionVectorError::ZeroCounter { device_id });
            }
            let position: usize = position_of(&sorted, device_id);
            if position < sorted.len() && sorted[position].0 == device_id {
                proof {
                    assert(sorted@.contains(sorted@[position as int]));
                    assert(done.contains(sorted@[position as int]));
                    let k = choose|k: int| 0 <= k < done.len() && done[k] == sorted@[position as int];
                    assert(entries@[k].0 == entries@[index as int].0);
                    assert(!entry_ok(entries@, index as int));
                    assert(first_bad_entry(entries@, index as int));
                }
                return Err(VersionVectorError::DuplicateDevice { device_id });
            }
            let ghost before = sorted@;
            sorted.insert(position, (device_id, counter));
            proof {
                assert(entry_ok(entries@, index as int)) by {
                    assert forall|k: int| 0 <= k < index implies (#[trigger] entries@[k]).0
                        != entries@[index as int].0 by {
                        assert(done[k] == entries@[k]);
                        assert(done.contains(entries@[k]));
                        assert(before.contains(entries@[k]));
                        let m = choose|m: int| 0 <= m < before.len() && before[m] == entries@[k];
                    }
                }
                assert forall|entry: (DeviceId, u64)| #[trigger]
                    sorted@.contains(entry) == entries@.take(index + 1).contains(entry) by {
                    lemma_insert_contains(before, position as int, (device_id, counter), entry);
                    let next = entries@.take(index + 1);
                    assert(next =~= done.push((device_id, counter)));
                    assert(next.contains(entry) == (done.contains(entry) || entry == (
                        device_id,
                        counter,
                    ))) by {
                        if done.contains(entry) {
                            let k = choose|k: int| 0 <= k < done.len() && done[k] == entry;
                            assert(next[k] == entry);
                        }
                        if entry == (device_id, counter) {
                            assert(next[index as int] == entry);
                        }
                        if next.contains(entry) {
                            let k = choose|k: int| 0 <= k < next.len() && next[k] == entry;
                            if k < index {
                                assert(done[k] == entry);
                            }
                        }
                    }
                }
            }
            index += 1;
        }
        assert(entries@.take(index as int) =~= entries@);
        Ok(VersionVector { entries: sorted })
    }

    /// The counter of `device_id`, zero where it has no entry.
    pub fn counter(&self, device_id: DeviceId) -> (counter: u64)
        ensures
            counter == counter_of(self@, device_id),
    {
        proof {
            use_type_invariant(self);
        }
        entry_counter(&self.entries, device_id)
    }

    /// The entries in the order of their devices.
    pub fn iter(&self) -> (entries: Vec<(DeviceId, u64)>)
        ensures
            entries@ == self@,
            version_wf(entries@),
    {
        proof {
            use_type_invariant(self);
        }
        copy_entries(&self.entries)
    }

    /// Adds one to the counter of `device_id` and returns it.
    pub fn increment(&mut self, device_id: DeviceId) -> (result: Result<u64, VersionVectorError>)
        ensures
            version_wf(final(self)@),
            result == if counter_of(old(self)@, device_id) == u64::MAX {
                Err::<u64, _>(VersionVectorError::CounterOverflow { device_id })
            } else {
                Ok((counter_of(old(self)@, device_id) + 1) as u64)
            },
            result is Err ==> final(self)@ == old(self)@,
            result is Ok ==> is_incremented(old(self)@, final(self)@, device_id),
    {
        proof {
            use_type_invariant(&*self);
        }
        let counter: u64 = entry_counter(&self.entries, device_id);
        if counter == u64::MAX {
            return Err(VersionVectorError::CounterOverflow { device_id });
        }
        self.entries = with_counter(&self.entries, device_id, counter + 1);
        Ok(counter + 1)
    }

    /// Raises each counter to that of `other` where the latter is higher.
    pub fn merge(&mut self, other: &Self)
        ensures
            is_merged(old(self)@, other@, final(self)@),
    {
        proof {
            use_type_invariant(&*self);
            use_type_invariant(other);
        }
        let ghost start = self@;
        let mut merged: Vec<(DeviceId, u64)> = copy_entries(&self.entries);
        let mut index: usize = 0;
        proof {
            assert forall|device: DeviceId|
                counter_of(other.entries@.take(0), device) == 0 by {}
        }
        while index < other.entries.len()
            invariant
                index <= other.entries.len(),
                version_wf(other.entries@),
                version_wf(merged@),
                forall|device: DeviceId| #[trigger]
                    counter_of(merged@, device) == larger(
                        counter_of(start, device),
                        counter_of(other.entries@.take(index as int), device),
                    ),
            decreases other.entries.len() - index,
        {
            let (device_id, counter) = other.entries[index];
            let ghost before = merged@;
            let ghost done = other.entries@.take(index as int);
            if entry_counter(&merged, device_id) < counter {
                merged = with_counter(&merged, device_id, counter);
            }
            proof {
                let next = other.entries@.take(index + 1);
                assert forall|device: DeviceId| #[trigger]
                    counter_of(merged@, device) == larger(
                        counter_of(start, device),
                        counter_of(next, device),
                    ) by {
                    lemma_counter_take(other.entries@, index as int, device);
                    assert(counter_of(before, device) == larger(
                        counter_of(start, device),
                        counter_of(done, device),
                    ));
                }
            }
            index += 1;
        }
        assert(other.entries@.take(index as int) =~= other.entries@);
        self.entries = merged;
    }

    /// How the vector stands to `other`.
    pub fn relation(&self, other: &Self) -> (relation: VersionRelation)
        ensures
            relation == relation_of(self@, other@),
    {
        proof {
            use_type_invariant(self);
            use_type_invariant(other);
        }
        let self_is_ahead: bool = any_ahead(&self.entries, &other.entries);
        let other_is_ahead: bool = any_ahead(&other.entries, &self.entries);
        match (self_is_ahead, other_is_ahead) {
            (false, false) => VersionRelation::Equal,
            (false, true) => VersionRelation::Ancestor,
            (true, false) => VersionRelation::Descendant,
            (true, true) => VersionRelation::Concurrent,
        }
    }

    /// Tests whether the two vectors have the same entries.
    pub fn same(&self, other: &Self) -> (same: bool)
        ensures
            same == (self@ == other@),
    {
        if self.entries.len() != other.entries.len() {
            return false;
        }
        let mut index: usize = 0;
        while index < self.entries.len()
            invariant
                index <= self.entries.len(),
                self.entries.len() == other.entries.len(),
                forall|i: int| 0 <= i < index ==> self.entries@[i] == other.entries@[i],
            decreases self.entries.len() - index,
        {
            let (left_device, left_counter) = self.entries[index];
            let (right_device, right_counter) = other.entries[index];
            if left_device != right_device || left_counter != right_counter {
                return false;
            }
            index += 1;
        }
        assert(self@ =~= other@);
        true
    }

    /// Tests whether the vector comes before `other` in the lexicographic order of their entries.
    pub fn is_before(&self, other: &Self) -> (before: bool)
        ensures
            before == version_less(self@, other@),
    {
        let mut index: usize = 0;
        let ghost left = self@;
        let ghost right = other@;
        assert(left.skip(0) =~= left);
        assert(right.skip(0) =~= right);
        while index < self.entries.len() && index < other.entries.len()
            invariant
                left == self.entries@,
                right == other.entries@,
                index <= left.len(),
                index <= right.len(),
                version_less(left, right) == version_less(
                    left.skip(index as int),
                    right.skip(index as int),
                ),
            decreases self.entries.len() - index,
        {
            let (left_device, left_counter) = self.entries[index];
            let (right_device, right_counter) = other.entries[index];
            let ghost left_rest = left.skip(index as int);
            let ghost right_rest = right.skip(index as int);
            assert(left_rest[0] == left[index as int]);
            assert(right_rest[0] == right[index as int]);
            if left_device.value != right_device.value {
                return left_device.value < right_device.value;
            }
            if left_counter != right_counter {
                return left_counter < right_counter;
            }
            proof {
                assert(left_rest.drop_first() =~= left.skip(index + 1));
                assert(right_rest.drop_first() =~= right.skip(index + 1));
            }
            index += 1;
        }
        index < other.entries.len()
    }
}

/// The larger of two counters.
pub open spec fn larger(left: u64, right: u64) -> u64 {
    if left < right {
        right
    } else {
        left
    }
}

/// `after` is `before` with one more change by `device`.
pub open spec fn is_incremented(
    before: Seq<(DeviceId, u64)>,
    after: Seq<(DeviceId, u64)>,
    device: DeviceId,
) -> bool {
    &&& version_wf(after)
    &&& forall|other: DeviceId| #[trigger]
        counter_of(after, other) == counter_of(before, other) + if other == device {
            1int
        } else {
            0int
        }
}

/// `merged` has each device's highest counter.
pub open spec fn is_merged(
    left: Seq<(DeviceId, u64)>,
    right: Seq<(DeviceId, u64)>,
    merged: Seq<(DeviceId, u64)>,
) -> bool {
    &&& version_wf(merged)
    &&& forall|device: DeviceId| #[trigger]
        counter_of(merged, device) == larger(counter_of(left, device), counter_of(right, device))
}

proof fn lemma_insert_contains(
    entries: Seq<(DeviceId, u64)>,
    position: int,
    added: (DeviceId, u64),
    entry: (DeviceId, u64),
)
    requires
        0 <= position <= entries.len(),
    ensures
        entries.insert(position, added).contains(entry) == (entries.contains(entry) || entry
            == added),
{
    let after = entries.insert(position, added);
    if entries.contains(entry) {
        let k = choose|k: int| 0 <= k < entries.len() && entries[k] == entry;
        assert(after[if k < position { k } else { k + 1 }] == entry);
    }
    if entry == added {
        assert(after[position] == entry);
    }
    if after.contains(entry) {
        let k = choose|k: int| 0 <= k < after.len() && after[k] == entry;
        if k < position {
            assert(entries[k] == entry);
        } else if k > position {
            assert(entries[k - 1] == entry);
        }
    }
}

/// The counter of the device of an entry is that of the entry.
pub proof fn lemma_counter_at(entries: Seq<(DeviceId, u64)>, index: int)
    requires
        version_wf(entries),
        0 <= index < entries.len(),
    ensures
        has_device(entries, entries[index].0),
        counter_of(entries, entries[index].0) == entries[index].1,
{
    let device = entries[index].0;
    assert(has_device(entries, device));
    let found = choose|i: int| 0 <= i < entries.len() && (#[trigger] entries[i]).0 == device;
    assert(found == index);
}

proof fn lemma_counter_take(entries: Seq<(DeviceId, u64)>, index: int, device: DeviceId)
    requires
        version_wf(entries),
        0 <= index < entries.len(),
    ensures
        version_wf(entries.take(index)),
        counter_of(entries.take(index + 1), device) == if device == entries[index].0 {
            entries[index].1
        } else {
            counter_of(entries.take(index), device)
        },
        device == entries[index].0 ==> counter_of(entries.take(index), device) == 0,
{
    let done = entries.take(index);
    let next = entries.take(index + 1);
    assert(version_wf(done));
    assert(version_wf(next));
    if device == entries[index].0 {
        assert(next[index] == entries[index]);
        lemma_counter_at(next, index);
    } else if has_device(next, device) {
        let k = choose|k: int| 0 <= k < next.len() && (#[trigger] next[k]).0 == device;
        assert(done[k] == next[k]);
        lemma_counter_at(next, k);
        lemma_counter_at(done, k);
    } else {
        assert forall|k: int| 0 <= k < done.len() implies (#[trigger] done[k]).0 != device by {
            assert(next[k] == done[k]);
        }
    }
}

fn position_of(entries: &Vec<(DeviceId, u64)>, device_id: DeviceId) -> (position: usize)
    requires
        version_wf(entries@),
    ensures
        position <= entries.len(),
        forall|i: int| 0 <= i < position ==> (#[trigger] entries@[i]).0.value < device_id.value,
        forall|i: int|
            position <= i < entries.len() ==> (#[trigger] entries@[i]).0.value >= device_id.value,
{
    let mut position: usize = 0;
    while position < entries.len() && entries[position].0.value < device_id.value
        invariant
            position <= entries.len(),
            forall|i: int| 0 <= i < position ==> (#[trigger] entries@[i]).0.value < device_id.value,
        decreases entries.len() - position,
    {
        position += 1;
    }
    position
}

fn entry_counter(entries: &Vec<(DeviceId, u64)>, device_id: DeviceId) -> (counter: u64)
    requires
        version_wf(entries@),
    ensures
        counter == counter_of(entries@, device_id),
{
    let position: usize = position_of(entries, device_id);
    if position < entries.len() && entries[position].0 == device_id {
        proof {
            lemma_counter_at(entries@, position as int);
        }
        entries[position].1
    } else {
        proof {
            assert forall|i: int| 0 <= i < entries@.len() implies (#[trigger] entries@[i]).0
                != device_id by {
                if i >= position {
                    assert(entries@[position as int].0.value >= device_id.value);
                }
            }
        }
        0
    }
}

fn with_counter(entries: &Vec<(DeviceId, u64)>, device_id: DeviceId, counter: u64) -> (updated: Vec<
    (DeviceId, u64),
>)
    requires
        version_wf(entries@),
        counter > 0,
    ensures
        version_wf(updated@),
        forall|device: DeviceId| #[trigger]
            counter_of(updated@, device) == if device == device_id {
                counter
            } else {
                counter_of(entries@, device)
            },
{
    let position: usize = position_of(entries, device_id);
    let mut updated: Vec<(DeviceId, u64)> = copy_entries(entries);
    if position < entries.len() && entries[position].0 == device_id {
        updated[position] = (device_id, counter);
    } else {
        updated.insert(position, (device_id, counter));
    }
    proof {
        let present = position < entries.len() && entries@[position as int].0 == device_id;
        assert(version_wf(updated@));
        assert forall|device: DeviceId| #[trigger]
            counter_of(updated@, device) == if device == device_id {
                counter
            } else {
                counter_of(entries@, device)
            } by {
            if device == device_id {
                lemma_counter_at(updated@, position as int);
            } else if has_device(entries@, device) {
                let k = choose|k: int|
                    0 <= k < entries@.len() && (#[trigger] entries@[k]).0 == device;
                let m = if present || k < position {
                    k
                } else {
                    k + 1
                };
                assert(updated@[m] == entries@[k]);
                lemma_counter_at(updated@, m);
                lemma_counter_at(entries@, k);
            } else {
                assert forall|m: int| 0 <= m < updated@.len() implies (#[trigger] updated@[m]).0
                    != device by {
                    let k = if present || m < position {
                        m
                    } else {
                        m - 1
                    };
                    if m != position {
                        assert(updated@[m] == entries@[k]);
                    }
                }
            }
        }
    }
    updated
}

fn any_ahead(left: &Vec<(DeviceId, u64)>, right: &Vec<(DeviceId, u64)>) -> (ahead: bool)
    requires
        version_wf(left@),
        version_wf(right@),
    ensures
        ahead == is_ahead(left@, right@),
{
    let mut index: usize = 0;
    while index < left.len()
        invariant
            index <= left.len(),
            version_wf(left@),
            version_wf(right@),
            forall|i: int|
                0 <= i < index ==> (#[trigger] left@[i]).1 <= counter_of(right@, left@[i].0),
        decreases left.len() - index,
    {
        let (device_id, counter) = left[index];
        if counter > entry_counter(right, device_id) {
            proof {
                lemma_counter_at(left@, index as int);
                assert(counter_of(left@, device_id) > counter_of(right@, device_id));
            }
            return true;
        }
        index += 1;
    }
    proof {
        assert forall|device: DeviceId| #[trigger]
            counter_of(left@, device) <= counter_of(right@, device) by {
            if has_device(left@, device) {
                let k = choose|k: int| 0 <= k < left@.len() && (#[trigger] left@[k]).0 == device;
                lemma_counter_at(left@, k);
            }
        }
    }
    false
}

proof fn lemma_counter_drop_first(entries: Seq<(DeviceId, u64)>, device: DeviceId)
    requires
        version_wf(entries),
        entries.len() > 0,
    ensures
        version_wf(entries.drop_first()),
        counter_of(entries.drop_first(), device) == if device == entries[0].0 {
            0
        } else {
            counter_of(entries, device)
        },
{
    let rest = entries.drop_first();
    assert(forall|i: int| 0 <= i < rest.len() ==> #[trigger] rest[i] == entries[i + 1]);
    assert(version_wf(rest));
    if has_device(rest, device) {
        let k = choose|k: int| 0 <= k < rest.len() && (#[trigger] rest[k]).0 == device;
        lemma_counter_at(rest, k);
        assert(rest[k] == entries[k + 1]);
        lemma_counter_at(entries, k + 1);
    } else if device != entries[0].0 && has_device(entries, device) {
        let k = choose|k: int| 0 <= k < entries.len() && (#[trigger] entries[k]).0 == device;
        assert(rest[k - 1] == entries[k]);
    }
}

/// A vector is determined by the counters of all devices.
pub proof fn lemma_counters_determine_entries(
    left: Seq<(DeviceId, u64)>,
    right: Seq<(DeviceId, u64)>,
)
    requires
        version_wf(left),
        version_wf(right),
        forall|device: DeviceId| #[trigger] counter_of(left, device) == counter_of(right, device),
    ensures
        left == right,
    decreases left.len(),
{
    if left.len() == 0 {
        if right.len() > 0 {
            lemma_counter_at(right, 0);
            assert(counter_of(left, right[0].0) == counter_of(right, right[0].0));
        }
        assert(left =~= right);
    } else {
        lemma_counter_at(left, 0);
        assert(counter_of(left, left[0].0) == counter_of(right, left[0].0));
        assert(has_device(right, left[0].0));
        let k = choose|k: int| 0 <= k < right.len() && (#[trigger] right[k]).0 == left[0].0;
        if k > 0 {
            lemma_counter_at(right, 0);
            assert(counter_of(left, right[0].0) == counter_of(right, right[0].0));
            let m = choose|m: int| 0 <= m < left.len() && (#[trigger] left[m]).0 == right[0].0;
            assert(left[m].0.value >= left[0].0.value);
            assert(right[0].0.value < right[k].0.value);
        }
        lemma_counter_at(right, 0);
        assert(left[0] == right[0]);
        assert forall|device: DeviceId| #[trigger]
            counter_of(left.drop_first(), device) == counter_of(right.drop_first(), device) by {
            lemma_counter_drop_first(left, device);
            lemma_counter_drop_first(right, device);
            assert(counter_of(left, device) == counter_of(right, device));
        }
        lemma_counter_drop_first(left, left[0].0);
        lemma_counter_drop_first(right, left[0].0);
        lemma_counters_determine_entries(left.drop_first(), right.drop_first());
        assert(left =~= seq![left[0]] + left.drop_first());
        assert(right =~= seq![right[0]] + right.drop_first());
    }
}

/// Whichever order the entries are given in, the vector that they make is the same.
pub proof fn law_entries_are_order_independent(
    left: Seq<(DeviceId, u64)>,
    right: Seq<(DeviceId, u64)>,
)
    requires
        version_wf(left),
        version_wf(right),
        forall|entry: (DeviceId, u64)| #[trigger] left.contains(entry) == right.contains(entry),
    ensures
        left == right,
{
    assert forall|device: DeviceId| #[trigger]
        counter_of(left, device) == counter_of(right, device) by {
        if has_device(left, device) {
            let k = choose|k: int| 0 <= k < left.len() && (#[trigger] left[k]).0 == device;
            lemma_counter_at(left, k);
            assert(left.contains(left[k]));
            let m = choose|m: int| 0 <= m < right.len() && right[m] == left[k];
            lemma_counter_at(right, m);
        } else if has_device(right, device) {
            let m = choose|m: int| 0 <= m < right.len() && (#[trigger] right[m]).0 == device;
            assert(right.contains(right[m]));
            assert(left.contains(right[m]));
            let k = choose|k: int| 0 <= k < left.len() && left[k] == right[m];
            assert(left[k].0 == device);
        }
    }
    lemma_counters_determine_entries(left, right);
}

/// Two vectors stand to each other as mirror images.
pub proof fn law_relation_is_antisymmetric(
    left: Seq<(DeviceId, u64)>,
    right: Seq<(DeviceId, u64)>,
)
    ensures
        relation_of(right, left) == match relation_of(left, right) {
            VersionRelation::Ancestor => VersionRelation::Descendant,
            VersionRelation::Descendant => VersionRelation::Ancestor,
            other => other,
        },
{
}

/// Two vectors are in the relation `Equal` exactly where they are the same vector.
pub proof fn law_equal_relation_is_equality(
    left: Seq<(DeviceId, u64)>,
    right: Seq<(DeviceId, u64)>,
)
    requires
        version_wf(left),
        version_wf(right),
    ensures
        (relation_of(left, right) == VersionRelation::Equal) == (left == right),
{
    if relation_of(left, right) == VersionRelation::Equal {
        assert forall|device: DeviceId| #[trigger]
            counter_of(left, device) == counter_of(right, device) by {
            assert(!(counter_of(left, device) > counter_of(right, device)));
            assert(!(counter_of(right, device) > counter_of(left, device)));
        }
        lemma_counters_determine_entries(left, right);
    }
}

/// Descent is transitive.
pub proof fn law_descent_is_transitive(
    first: Seq<(DeviceId, u64)>,
    second: Seq<(DeviceId, u64)>,
    third: Seq<(DeviceId, u64)>,
)
    requires
        relation_of(first, second) == VersionRelation::Ancestor,
        relation_of(second, third) == VersionRelation::Ancestor,
    ensures
        relation_of(first, third) == VersionRelation::Ancestor,
{
    assert forall|device: DeviceId| #[trigger]
        counter_of(first, device) <= counter_of(third, device) by {
        assert(!(counter_of(first, device) > counter_of(second, device)));
        assert(!(counter_of(second, device) > counter_of(third, device)));
    }
    let device = choose|device: DeviceId| #[trigger]
        counter_of(second, device) > counter_of(first, device);
    assert(!(counter_of(second, device) > counter_of(third, device)));
    assert(counter_of(third, device) > counter_of(first, device));
}

/// A vector that was incremented descends from what it was.
pub proof fn law_increment_descends(
    before: Seq<(DeviceId, u64)>,
    after: Seq<(DeviceId, u64)>,
    device: DeviceId,
)
    requires
        is_incremented(before, after, device),
    ensures
        relation_of(before, after) == VersionRelation::Ancestor,
        relation_of(after, before) == VersionRelation::Descendant,
{
    assert(counter_of(after, device) > counter_of(before, device));
    assert forall|other: DeviceId| #[trigger]
        counter_of(before, other) <= counter_of(after, other) by {
        assert(counter_of(after, other) >= counter_of(before, other));
    }
}

/// The merge of two vectors is behind neither of them.
pub proof fn law_merge_is_an_upper_bound(
    left: Seq<(DeviceId, u64)>,
    right: Seq<(DeviceId, u64)>,
    merged: Seq<(DeviceId, u64)>,
)
    requires
        is_merged(left, right, merged),
    ensures
        !is_ahead(left, merged),
        !is_ahead(right, merged),
{
    assert forall|device: DeviceId| #[trigger]
        counter_of(left, device) <= counter_of(merged, device) by {}
    assert forall|device: DeviceId| #[trigger]
        counter_of(right, device) <= counter_of(merged, device) by {}
}

/// No vector that is behind neither of two vectors is behind their merge.
pub proof fn law_merge_is_the_least_upper_bound(
    left: Seq<(DeviceId, u64)>,
    right: Seq<(DeviceId, u64)>,
    merged: Seq<(DeviceId, u64)>,
    bound: Seq<(DeviceId, u64)>,
)
    requires
        is_merged(left, right, merged),
        !is_ahead(left, bound),
        !is_ahead(right, bound),
    ensures
        !is_ahead(merged, bound),
{
    assert forall|device: DeviceId| #[trigger]
        counter_of(merged, device) <= counter_of(bound, device) by {
        assert(!(counter_of(left, device) > counter_of(bound, device)));
        assert(!(counter_of(right, device) > counter_of(bound, device)));
    }
}

/// The order of a merge makes no difference.
pub proof fn law_merge_is_commutative(
    left: Seq<(DeviceId, u64)>,
    right: Seq<(DeviceId, u64)>,
    one: Seq<(DeviceId, u64)>,
    other: Seq<(DeviceId, u64)>,
)
    requires
        is_merged(left, right, one),
        is_merged(right, left, other),
    ensures
        one == other,
{
    assert forall|device: DeviceId| #[trigger]
        counter_of(one, device) == counter_of(other, device) by {}
    lemma_counters_determine_entries(one, other);
}

/// The grouping of merges makes no difference.
pub proof fn law_merge_is_associative(
    first: Seq<(DeviceId, u64)>,
    second: Seq<(DeviceId, u64)>,
    third: Seq<(DeviceId, u64)>,
    front: Seq<(DeviceId, u64)>,
    back: Seq<(DeviceId, u64)>,
    one: Seq<(DeviceId, u64)>,
    other: Seq<(DeviceId, u64)>,
)
    requires
        is_merged(first, second, front),
        is_merged(front, third, one),
        is_merged(second, third, back),
        is_merged(first, back, other),
    ensures
        one == other,
{
    assert forall|device: DeviceId| #[trigger]
        counter_of(one, device) == counter_of(other, device) by {
        assert(counter_of(front, device) == larger(
            counter_of(first, device),
            counter_of(second, device),
        ));
        assert(counter_of(back, device) == larger(
            counter_of(second, device),
            counter_of(third, device),
        ));
    }
    lemma_counters_determine_entries(one, other);
}

/// A vector merged with one that it is not behind stays as it is.
pub proof fn law_merge_absorbs(
    left: Seq<(DeviceId, u64)>,
    right: Seq<(DeviceId, u64)>,
    merged: Seq<(DeviceId, u64)>,
)
    requires
        version_wf(left),
        is_merged(left, right, merged),
        !is_ahead(right, left),
    ensures
        merged == left,
{
    assert forall|device: DeviceId| #[trigger]
        counter_of(merged, device) == counter_of(left, device) by {
        assert(!(counter_of(right, device) > counter_of(left, device)));
    }
    lemma_counters_determine_entries(merged, left);
}

/// The lexicographic order of vectors is a strict total order.
pub proof fn law_version_order_is_total(
    left: Seq<(DeviceId, u64)>,
    right: Seq<(DeviceId, u64)>,
)
    ensures
        left == right ==> !version_less(left, right),
        left != right ==> version_less(left, right) != version_less(right, left),
    decreases left.len(),
{
    if left.len() > 0 && right.len() > 0 {
        if left[0] == right[0] {
            law_version_order_is_total(left.drop_first(), right.drop_first());
            if left.drop_first() == right.drop_first() {
                assert(left =~= seq![left[0]] + left.drop_first());
                assert(right =~= seq![right[0]] + right.drop_first());
            }
        }
    } else if left.len() == 0 && right.len() == 0 {
        assert(left =~= right);
    }
}

/// The counter of a device is that of its entry, and zero where it has none.
pub proof fn law_counter_is_that_of_the_entry(entries: Seq<(DeviceId, u64)>, device: DeviceId)
    requires
        version_wf(entries),
    ensures
        forall|i: int|
            0 <= i < entries.len() && (#[trigger] entries[i]).0 == device ==> counter_of(
                entries,
                device,
            ) == entries[i].1,
        (forall|i: int| 0 <= i < entries.len() ==> (#[trigger] entries[i]).0 != device)
            ==> counter_of(entries, device) == 0,
{
    assert forall|i: int|
        0 <= i < entries.len() && (#[trigger] entries[i]).0 == device implies counter_of(
        entries,
        device,
    ) == entries[i].1 by {
        lemma_counter_at(entries, i);
    }
}

/// How one vector stands to another is told by the counters alone: an ancestor is nowhere higher
/// and somewhere lower, a descendant the other way round, and concurrent vectors are each
/// somewhere higher.
pub proof fn law_relation_compares_counters(
    left: Seq<(DeviceId, u64)>,
    right: Seq<(DeviceId, u64)>,
)
    ensures
        ({
            let higher = exists|device: DeviceId| #[trigger]
                counter_of(left, device) > counter_of(right, device);
            let lower = exists|device: DeviceId| #[trigger]
                counter_of(left, device) < counter_of(right, device);
            &&& (relation_of(left, right) == VersionRelation::Equal) == (!higher && !lower)
            &&& (relation_of(left, right) == VersionRelation::Ancestor) == (!higher && lower)
            &&& (relation_of(left, right) == VersionRelation::Descendant) == (higher && !lower)
            &&& (relation_of(left, right) == VersionRelation::Concurrent) == (higher && lower)
        }),
{
    let lower = exists|device: DeviceId| #[trigger]
        counter_of(left, device) < counter_of(right, device);
    if lower {
        let device = choose|device: DeviceId| #[trigger]
            counter_of(left, device) < counter_of(right, device);
        assert(counter_of(right, device) > counter_of(left, device));
    }
    if is_ahead(right, left) {
        let device = choose|device: DeviceId| #[trigger]
            counter_of(right, device) > counter_of(left, device);
        assert(counter_of(left, device) < counter_of(right, device));
    }
}

/// An increment adds one to the counter of the device and leaves those of all others.
pub proof fn law_increment_adds_one(
    before: Seq<(DeviceId, u64)>,
    after: Seq<(DeviceId, u64)>,
    device: DeviceId,
    other: DeviceId,
)
    requires
        is_incremented(before, after, device),
    ensures
        counter_of(after, device) == counter_of(before, device) + 1,
        other != device ==> counter_of(after, other) == counter_of(before, other),
{
    assert(counter_of(after, other) >= counter_of(before, other));
}

/// The order of vectors goes by the first entry in which they differ, its device first and then
/// its counter; a vector that goes on comes after one that ends there.
pub proof fn law_version_order_is_lexicographic(
    left: Seq<(DeviceId, u64)>,
    right: Seq<(DeviceId, u64)>,
    index: int,
)
    requires
        0 <= index <= left.len(),
        0 <= index <= right.len(),
        forall|i: int| 0 <= i < index ==> #[trigger] left[i] == right[i],
        index < left.len() && index < right.len() ==> left[index] != right[index],
    ensures
        version_less(left, right) == (index < right.len() && (index == left.len()
            || left[index].0.value < right[index].0.value || (left[index].0 == right[index].0
            && left[index].1 < right[index].1))),
    decreases index,
{
    if index > 0 {
        assert(left[0] == right[0]);
        let left_rest = left.drop_first();
        let right_rest = right.drop_first();
        assert forall|i: int| 0 <= i < index - 1 implies #[trigger] left_rest[i]
            == right_rest[i] by {
            assert(left[i + 1] == right[i + 1]);
        }
        law_version_order_is_lexicographic(left_rest, right_rest, index - 1);
        if index < left.len() {
            assert(left_rest[index - 1] == left[index]);
        }
        if index < right.len() {
            assert(right_rest[index - 1] == right[index]);
        }
    }
}

} // verus!
