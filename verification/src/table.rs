//! Tables: rows that are found by their keys.
use vstd::prelude::*;

verus! {

/// A value that rows are found by.
pub trait Key: Copy {
    /// Tests whether two keys are the same.
    fn same(&self, other: &Self) -> (same: bool)
        ensures
            same == (*self == *other),
    ;
}

/// The row with the given key, the first where there are several.
pub open spec fn lookup<K, V>(rows: Seq<(K, V)>, key: K) -> Option<V>
    decreases rows.len(),
{
    if rows.len() == 0 {
        None
    } else if rows[0].0 == key {
        Some(rows[0].1)
    } else {
        lookup(rows.drop_first(), key)
    }
}

/// The rows with the given one in the place of the one with the same key, or at the end.
pub open spec fn put<K, V>(rows: Seq<(K, V)>, key: K, value: V) -> Seq<(K, V)>
    decreases rows.len(),
{
    if rows.len() == 0 {
        seq![(key, value)]
    } else if rows[0].0 == key {
        seq![(key, value)] + rows.drop_first()
    } else {
        seq![rows[0]] + put(rows.drop_first(), key, value)
    }
}

/// The rows whose keys satisfy a condition.
pub open spec fn kept<K, V>(rows: Seq<(K, V)>, keep: spec_fn(K) -> bool) -> Seq<(K, V)>
    decreases rows.len(),
{
    if rows.len() == 0 {
        seq![]
    } else if keep(rows.last().0) {
        kept(rows.drop_last(), keep).push(rows.last())
    } else {
        kept(rows.drop_last(), keep)
    }
}

/// Keys other than the given one.
pub open spec fn other_than<K>(key: K) -> spec_fn(K) -> bool {
    |other: K| other != key
}

/// The rows without those that have the given key.
pub open spec fn removed<K, V>(rows: Seq<(K, V)>, key: K) -> Seq<(K, V)> {
    kept(rows, other_than(key))
}

/// No two rows have the same key.
pub open spec fn distinct_keys<K, V>(rows: Seq<(K, V)>) -> bool {
    forall|i: int, j: int|
        0 <= i < j < rows.len() ==> (#[trigger] rows[i]).0 != (#[trigger] rows[j]).0
}

/// Where the first row with a key stands decides what is found and what is replaced.
pub proof fn lemma_at<K, V>(rows: Seq<(K, V)>, key: K, value: V, index: int)
    requires
        0 <= index <= rows.len(),
        forall|j: int| 0 <= j < index ==> (#[trigger] rows[j]).0 != key,
        index < rows.len() ==> rows[index].0 == key,
    ensures
        lookup(rows, key) == if index < rows.len() {
            Some(rows[index].1)
        } else {
            None
        },
        put(rows, key, value) == if index < rows.len() {
            rows.update(index, (key, value))
        } else {
            rows.push((key, value))
        },
    decreases rows.len(),
{
    if rows.len() == 0 {
        assert(put(rows, key, value) =~= rows.push((key, value)));
    } else if index == 0 {
        assert(put(rows, key, value) =~= rows.update(0, (key, value)));
    } else {
        let rest = rows.drop_first();
        assert forall|j: int| 0 <= j < index - 1 implies (#[trigger] rest[j]).0 != key by {
            assert(rest[j] == rows[j + 1]);
        }
        assert(rows[0].0 != key);
        lemma_at(rest, key, value, index - 1);
        if index < rows.len() {
            assert(put(rows, key, value) =~= rows.update(index, (key, value)));
        } else {
            assert(put(rows, key, value) =~= rows.push((key, value)));
        }
    }
}

/// What is found stands in some row, and what is not found in none.
pub proof fn lemma_lookup<K, V>(rows: Seq<(K, V)>, key: K)
    ensures
        match lookup(rows, key) {
            Some(value) => rows.contains((key, value)),
            None => forall|i: int| 0 <= i < rows.len() ==> (#[trigger] rows[i]).0 != key,
        },
    decreases rows.len(),
{
    if rows.len() > 0 {
        let rest = rows.drop_first();
        if rows[0].0 == key {
            assert(rows[0] == (key, rows[0].1));
            assert(rows.contains((key, rows[0].1)));
        } else {
            lemma_lookup(rest, key);
            match lookup(rows, key) {
                Some(value) => {
                    let k = choose|k: int| 0 <= k < rest.len() && rest[k] == (key, value);
                    assert(rows[k + 1] == (key, value));
                },
                None => {
                    assert forall|i: int| 0 <= i < rows.len() implies (#[trigger] rows[i]).0
                        != key by {
                        if i > 0 {
                            assert(rest[i - 1] == rows[i]);
                        }
                    }
                },
            }
        }
    }
}

/// Where no two rows have the same key, each row is found by its key.
pub proof fn lemma_found<K, V>(rows: Seq<(K, V)>, index: int)
    requires
        distinct_keys(rows),
        0 <= index < rows.len(),
    ensures
        lookup(rows, rows[index].0) == Some(rows[index].1),
{
    let key = rows[index].0;
    lemma_lookup(rows, key);
    match lookup(rows, key) {
        Some(value) => {
            let k = choose|k: int| 0 <= k < rows.len() && rows[k] == (key, value);
            if k < index {
                assert(rows[k].0 != rows[index].0);
            } else if k > index {
                assert(rows[index].0 != rows[k].0);
            }
        },
        None => {},
    }
}

/// What is put is found, and nothing else changes.
pub proof fn lemma_lookup_put<K, V>(rows: Seq<(K, V)>, key: K, value: V, other: K)
    ensures
        lookup(put(rows, key, value), other) == if other == key {
            Some(value)
        } else {
            lookup(rows, other)
        },
    decreases rows.len(),
{
    let after = put(rows, key, value);
    if rows.len() == 0 {
        assert(after.drop_first() =~= seq![]);
        assert(lookup(after.drop_first(), other) == None::<V>);
    } else if rows[0].0 == key {
        assert(after.drop_first() =~= rows.drop_first());
    } else {
        lemma_lookup_put(rows.drop_first(), key, value, other);
        assert(after.drop_first() =~= put(rows.drop_first(), key, value));
    }
}

/// Every row after a row was put is that row or was there before, and keys stay distinct.
pub proof fn lemma_put_rows<K, V>(rows: Seq<(K, V)>, key: K, value: V)
    requires
        distinct_keys(rows),
    ensures
        forall|i: int|
            0 <= i < put(rows, key, value).len() ==> {
                let row = #[trigger] put(rows, key, value)[i];
                row == (key, value) || (row.0 != key && rows.contains(row))
            },
        distinct_keys(put(rows, key, value)),
        put(rows, key, value).contains((key, value)),
{
    let index = first_index(rows, key);
    lemma_first_index(rows, key);
    lemma_at(rows, key, value, index);
    let after = put(rows, key, value);
    assert(after[index] == (key, value));
    assert forall|i: int| 0 <= i < after.len() implies (#[trigger] after[i]) == (key, value) || (
    after[i].0 != key && rows.contains(after[i])) by {
        if i != index {
            assert(after[i] == rows[i]);
            assert(rows.contains(rows[i]));
            if index < rows.len() {
                assert(rows[i].0 != rows[index].0);
            }
        }
    }
    assert forall|i: int, j: int| 0 <= i < j < after.len() implies (#[trigger] after[i]).0 != (
    #[trigger] after[j]).0 by {
        if i != index && j != index {
            assert(rows[i].0 != rows[j].0);
        } else if index < rows.len() {
            assert(rows[i].0 != rows[j].0);
        }
    }
}

/// Where the first row with a key stands, the number of rows where there is none.
pub open spec fn first_index<K, V>(rows: Seq<(K, V)>, key: K) -> int
    decreases rows.len(),
{
    if rows.len() == 0 || rows[0].0 == key {
        0
    } else {
        1 + first_index(rows.drop_first(), key)
    }
}

proof fn lemma_first_index<K, V>(rows: Seq<(K, V)>, key: K)
    ensures
        0 <= first_index(rows, key) <= rows.len(),
        forall|j: int| 0 <= j < first_index(rows, key) ==> (#[trigger] rows[j]).0 != key,
        first_index(rows, key) < rows.len() ==> rows[first_index(rows, key)].0 == key,
    decreases rows.len(),
{
    if rows.len() > 0 && rows[0].0 != key {
        let rest = rows.drop_first();
        lemma_first_index(rest, key);
        assert forall|j: int| 0 <= j < first_index(rows, key) implies (#[trigger] rows[j]).0 != key by {
            if j > 0 {
                assert(rest[j - 1] == rows[j]);
            }
        }
    }
}

/// The rows that are kept are those whose keys satisfy the condition.
pub proof fn lemma_kept_rows<K, V>(rows: Seq<(K, V)>, keep: spec_fn(K) -> bool)
    ensures
        forall|row: (K, V)| #[trigger]
            kept(rows, keep).contains(row) == (keep(row.0) && rows.contains(row)),
        distinct_keys(rows) ==> distinct_keys(kept(rows, keep)),
        kept(rows, keep).len() <= rows.len(),
    decreases rows.len(),
{
    if rows.len() > 0 {
        let front = rows.drop_last();
        let last = rows.last();
        lemma_kept_rows(front, keep);
        let before = kept(front, keep);
        let after = kept(rows, keep);
        assert(rows =~= front.push(last));
        assert forall|row: (K, V)| #[trigger]
            after.contains(row) == (keep(row.0) && rows.contains(row)) by {
            assert(rows.contains(row) == (front.contains(row) || row == last)) by {
                if front.contains(row) {
                    let k = choose|k: int| 0 <= k < front.len() && front[k] == row;
                    assert(rows[k] == row);
                }
                if row == last {
                    assert(rows[rows.len() - 1] == row);
                }
                if rows.contains(row) && row != last {
                    let k = choose|k: int| 0 <= k < rows.len() && rows[k] == row;
                    assert(front[k] == row);
                }
            }
            if keep(last.0) {
                assert(after.contains(row) == (before.contains(row) || row == last)) by {
                    if before.contains(row) {
                        let k = choose|k: int| 0 <= k < before.len() && before[k] == row;
                        assert(after[k] == row);
                    }
                    if row == last {
                        assert(after[after.len() - 1] == row);
                    }
                    if after.contains(row) && row != last {
                        let k = choose|k: int| 0 <= k < after.len() && after[k] == row;
                        assert(before[k] == row);
                    }
                }
            }
            assert(before.contains(row) == (keep(row.0) && front.contains(row)));
        }
        if distinct_keys(rows) {
            assert forall|i: int, j: int| 0 <= i < j < front.len() implies (#[trigger] front[i]).0
                != (#[trigger] front[j]).0 by {
                assert(rows[i].0 != rows[j].0);
            }
            if keep(last.0) {
                assert forall|i: int, j: int| 0 <= i < j < after.len() implies (#[trigger] after[i]).0
                    != (#[trigger] after[j]).0 by {
                    if j < before.len() {
                        assert(before[i].0 != before[j].0);
                    } else {
                        assert(before.contains(before[i]));
                        let k = choose|k: int| 0 <= k < front.len() && front[k] == before[i];
                        assert(rows[k].0 != rows[rows.len() - 1].0);
                    }
                }
            }
        }
    } else {
        assert forall|row: (K, V)| #[trigger]
            kept(rows, keep).contains(row) == (keep(row.0) && rows.contains(row)) by {
            assert(kept(rows, keep) =~= seq![]);
        }
    }
}

/// A row is found among those that are kept where its key satisfies the condition.
pub proof fn lemma_lookup_kept<K, V>(rows: Seq<(K, V)>, keep: spec_fn(K) -> bool, key: K)
    ensures
        lookup(kept(rows, keep), key) == if keep(key) {
            lookup(rows, key)
        } else {
            None
        },
    decreases rows.len(),
{
    if rows.len() > 0 {
        let front = rows.drop_last();
        let last = rows.last();
        lemma_lookup_kept(front, keep, key);
        lemma_lookup_push(front, last, key);
        assert(rows =~= front.push(last));
        if keep(last.0) {
            lemma_lookup_push(kept(front, keep), last, key);
        }
    }
}

proof fn lemma_lookup_push<K, V>(rows: Seq<(K, V)>, row: (K, V), key: K)
    ensures
        lookup(rows.push(row), key) == match lookup(rows, key) {
            Some(value) => Some(value),
            None => if row.0 == key {
                Some(row.1)
            } else {
                None
            },
        },
    decreases rows.len(),
{
    let after = rows.push(row);
    if rows.len() == 0 {
        assert(after.drop_first() =~= seq![]);
        assert(lookup(after.drop_first(), key) == None::<V>);
    } else {
        lemma_lookup_push(rows.drop_first(), row, key);
        assert(after.drop_first() =~= rows.drop_first().push(row));
    }
}

/// Rows that are found by their keys.
#[derive(Debug)]
pub struct Table<K, V> {
    rows: Vec<(K, V)>,
}

impl<K: Key, V: View> View for Table<K, V> {
    type V = Seq<(K, V::V)>;

    closed spec fn view(&self) -> Seq<(K, V::V)> {
        Seq::new(self.rows@.len(), |i: int| (self.rows@[i].0, self.rows@[i].1@))
    }
}

impl<K: Key, V: View> Table<K, V> {
    /// A table without rows.
    pub fn new() -> (table: Self)
        ensures
            table@ == Seq::<(K, V::V)>::empty(),
    {
        let table: Table<K, V> = Table { rows: Vec::new() };
        assert(table@ =~= seq![]);
        table
    }

    pub fn len(&self) -> (count: usize)
        ensures
            count == self@.len(),
    {
        self.rows.len()
    }

    /// The key of a row.
    pub fn key(&self, index: usize) -> (key: K)
        requires
            index < self@.len(),
        ensures
            key == self@[index as int].0,
    {
        self.rows[index].0
    }

    /// The value of a row.
    pub fn value(&self, index: usize) -> (value: &V)
        requires
            index < self@.len(),
        ensures
            value@ == self@[index as int].1,
    {
        &self.rows[index].1
    }

    fn position(&self, key: K) -> (index: usize)
        ensures
            index <= self@.len(),
            forall|j: int| 0 <= j < index ==> (#[trigger] self@[j]).0 != key,
            index < self@.len() ==> self@[index as int].0 == key,
    {
        let mut index: usize = 0;
        while index < self.rows.len()
            invariant
                index <= self.rows@.len(),
                self@.len() == self.rows@.len(),
                forall|j: int| 0 <= j < index ==> (#[trigger] self@[j]).0 != key,
            decreases self.rows@.len() - index,
        {
            if self.rows[index].0.same(&key) {
                return index;
            }
            index += 1;
        }
        index
    }

    /// The value of the row with the given key.
    pub fn get(&self, key: K) -> (value: Option<&V>)
        ensures
            match value {
                Some(value) => lookup(self@, key) == Some(value@),
                None => lookup(self@, key) is None,
            },
    {
        let index: usize = self.position(key);
        proof {
            let value = if index < self@.len() {
                self@[index as int].1
            } else {
                arbitrary()
            };
            lemma_at(self@, key, value, index as int);
        }
        if index < self.rows.len() {
            Some(&self.rows[index].1)
        } else {
            None
        }
    }

    /// Tests whether there is a row with the given key.
    pub fn has(&self, key: K) -> (found: bool)
        ensures
            found == (lookup(self@, key) is Some),
    {
        self.get(key).is_some()
    }

    /// Puts a row in the place of the one with the same key, or at the end.
    pub fn put(&mut self, key: K, value: V)
        ensures
            final(self)@ == put(old(self)@, key, value@),
    {
        let index: usize = self.position(key);
        let ghost before = self@;
        let ghost view = value@;
        proof {
            lemma_at(self@, key, view, index as int);
        }
        if index < self.rows.len() {
            self.rows[index] = (key, value);
            assert(self@ =~= before.update(index as int, (key, view)));
        } else {
            self.rows.push((key, value));
            assert(self@ =~= before.push((key, view)));
        }
    }

    /// Adds a row at the end.
    pub fn append(&mut self, key: K, value: V)
        ensures
            final(self)@ == old(self)@.push((key, value@)),
    {
        let ghost before = self@;
        let ghost view = value@;
        self.rows.push((key, value));
        assert(self@ =~= before.push((key, view)));
    }

    /// Keeps the rows whose keys satisfy a condition.
    pub fn retain<F: Fn(K) -> bool>(&mut self, keep: F, Ghost(condition): Ghost<spec_fn(K) -> bool>)
        requires
            forall|key: K| call_requires(keep, (key,)),
            forall|key: K, answer: bool|
                call_ensures(keep, (key,), answer) ==> answer == condition(key),
        ensures
            final(self)@ == kept(old(self)@, condition),
    {
        let ghost all = self@;
        let mut index: usize = 0;
        let ghost mut done: int = 0;
        assert(all.take(0) =~= seq![]);
        assert(self@ =~= kept(all.take(0), condition) + all.skip(0));
        while index < self.rows.len()
            invariant
                0 <= done <= all.len(),
                self@ == kept(all.take(done), condition) + all.skip(done),
                index == kept(all.take(done), condition).len(),
                forall|key: K| call_requires(keep, (key,)),
                forall|key: K, answer: bool|
                    call_ensures(keep, (key,), answer) ==> answer == condition(key),
            decreases self.rows@.len() - index,
        {
            let ghost before = kept(all.take(done), condition);
            proof {
                assert(self@.len() == self.rows@.len());
                assert(done < all.len());
                assert(self@[index as int] == all[done]);
                assert(all.take(done + 1).drop_last() =~= all.take(done));
                assert(all.take(done + 1).last() == all[done]);
                assert(all.skip(done) =~= seq![all[done]] + all.skip(done + 1));
            }
            let key: K = self.rows[index].0;
            if keep(key) {
                index += 1;
                assert(self@ =~= kept(all.take(done + 1), condition) + all.skip(done + 1));
            } else {
                let ghost current = self@;
                let _ = self.rows.remove(index);
                assert(self@ =~= current.remove(index as int));
                assert(self@ =~= kept(all.take(done + 1), condition) + all.skip(done + 1));
            }
            proof {
                done = done + 1;
            }
        }
        proof {
            assert(self@.len() == self.rows@.len());
            assert(all.skip(done).len() == 0);
            assert(all.take(done) =~= all);
            assert(self@ =~= kept(all, condition));
        }
    }

    /// Removes the rows with the given key.
    pub fn remove(&mut self, key: K)
        ensures
            final(self)@ == removed(old(self)@, key),
    {
        let keep = |other: K| -> (answer: bool)
            ensures
                answer == (other != key),
        {
            !other.same(&key)
        };
        self.retain(keep, Ghost(other_than(key)));
    }
}

} // verus!
