//! Orders: pages of rows sorted by time and identifier, and ordered sets of identifiers.
use vstd::prelude::*;
use vstd::relations::{sorted_by, total_ordering};

use crate::ids::ContentId;

verus! {

/// What rows are sorted by: a time, and an identifier among those of the same time.
#[derive(Clone, Copy, Debug, PartialEq, Eq, Structural)]
pub struct SortKey {
    pub time: i64,
    pub high: u128,
    pub low: u128,
}

/// `left` does not come after `right`.
pub open spec fn not_after(left: SortKey, right: SortKey) -> bool {
    left.time < right.time || (left.time == right.time && (left.high < right.high || (left.high
        == right.high && left.low <= right.low)))
}

/// The keys in order.
pub open spec fn sorted(keys: Seq<SortKey>) -> Seq<SortKey> {
    keys.sort_by(|left: SortKey, right: SortKey| not_after(left, right))
}

/// The first of the values, at most as many as asked for.
pub open spec fn at_most<T>(values: Seq<T>, maximum: nat) -> Seq<T> {
    if values.len() <= maximum {
        values
    } else {
        values.take(maximum as int)
    }
}

proof fn lemma_total()
    ensures
        total_ordering(|left: SortKey, right: SortKey| not_after(left, right)),
{
}

fn comes_after(left: SortKey, right: SortKey) -> (after: bool)
    ensures
        after == !not_after(left, right),
{
    left.time > right.time || (left.time == right.time && (left.high > right.high || (left.high
        == right.high && left.low > right.low)))
}

/// Sorts keys.
pub fn sort_keys(keys: &Vec<SortKey>) -> (result: Vec<SortKey>)
    ensures
        result@ == sorted(keys@),
{
    let ghost leq = |left: SortKey, right: SortKey| not_after(left, right);
    let mut result: Vec<SortKey> = Vec::new();
    let mut index: usize = 0;
    assert(keys@.take(0) =~= seq![]);
    assert(result@.to_multiset() =~= keys@.take(0).to_multiset());
    while index < keys.len()
        invariant
            index <= keys@.len(),
            leq == (|left: SortKey, right: SortKey| not_after(left, right)),
            forall|i: int, j: int|
                0 <= i < j < result@.len() ==> not_after(
                    #[trigger] result@[i],
                    #[trigger] result@[j],
                ),
            result@.to_multiset() == keys@.take(index as int).to_multiset(),
        decreases keys@.len() - index,
    {
        let key: SortKey = keys[index];
        let mut place: usize = result.len();
        while place > 0 && comes_after(result[place - 1], key)
            invariant
                place <= result@.len(),
                forall|j: int| place <= j < result@.len() ==> !not_after(#[trigger] result@[j], key),
            decreases place,
        {
            place -= 1;
        }
        let ghost before = result@;
        result.insert(place, key);
        proof {
            before.to_multiset_ensures();
            vstd::seq_lib::to_multiset_insert(before, place as int, key);
            vstd::seq_lib::to_multiset_build(keys@.take(index as int), key);
            assert(keys@.take(index + 1) =~= keys@.take(index as int).push(key));
            assert forall|i: int, j: int| 0 <= i < j < result@.len() implies not_after(
                #[trigger] result@[i],
                #[trigger] result@[j],
            ) by {
                if j < place {
                    assert(result@[i] == before[i] && result@[j] == before[j]);
                } else if j == place {
                    assert(result@[i] == before[i]);
                    assert(not_after(before[place - 1], key));
                    if i < place - 1 {
                        assert(not_after(before[i], before[place - 1]));
                    }
                } else if i < place {
                    assert(result@[i] == before[i] && result@[j] == before[j - 1]);
                } else if i == place {
                    assert(result@[j] == before[j - 1]);
                    assert(!not_after(before[j - 1], key));
                } else {
                    assert(result@[i] == before[i - 1] && result@[j] == before[j - 1]);
                }
            }
        }
        index += 1;
    }
    proof {
        assert(keys@.take(index as int) =~= keys@);
        lemma_total();
        keys@.lemma_sort_by_ensures(leq);
        assert(sorted_by(result@, leq));
        vstd::seq_lib::lemma_sorted_unique(result@, keys@.sort_by(leq), leq);
    }
    result
}

/// What is sorted has the same keys, in order.
pub proof fn lemma_sorted(keys: Seq<SortKey>)
    ensures
        sorted(keys).len() == keys.len(),
        sorted(keys).to_multiset() == keys.to_multiset(),
        forall|i: int| 0 <= i < sorted(keys).len() ==> keys.contains(#[trigger] sorted(keys)[i]),
        forall|key: SortKey| #[trigger] sorted(keys).contains(key) == keys.contains(key),
        forall|i: int, j: int|
            0 <= i < j < sorted(keys).len() ==> not_after(
                #[trigger] sorted(keys)[i],
                #[trigger] sorted(keys)[j],
            ),
{
    let leq = |left: SortKey, right: SortKey| not_after(left, right);
    lemma_total();
    keys.lemma_sort_by_ensures(leq);
    let result = sorted(keys);
    vstd::seq_lib::to_multiset_len(keys);
    vstd::seq_lib::to_multiset_len(result);
    assert forall|key: SortKey| #[trigger] result.contains(key) == keys.contains(key) by {
        vstd::seq_lib::to_multiset_contains(keys, key);
        vstd::seq_lib::to_multiset_contains(result, key);
    }
    assert forall|i: int| 0 <= i < result.len() implies keys.contains(#[trigger] result[i]) by {
        assert(result.contains(result[i]));
    }
    assert forall|i: int, j: int| 0 <= i < j < result.len() implies not_after(
        #[trigger] result[i],
        #[trigger] result[j],
    ) by {
        assert(sorted_by(result, leq));
        assert(leq(result[i], result[j]));
    }
}

/// The identifiers, each of them once.
pub open spec fn distinct_ids(ids: Seq<ContentId>) -> Seq<ContentId>
    decreases ids.len(),
{
    if ids.len() == 0 {
        seq![]
    } else if distinct_ids(ids.drop_last()).contains(ids.last()) {
        distinct_ids(ids.drop_last())
    } else {
        distinct_ids(ids.drop_last()).push(ids.last())
    }
}

/// Tests whether an identifier is among others.
pub fn has_content_id(ids: &Vec<ContentId>, id: ContentId) -> (found: bool)
    ensures
        found == ids@.contains(id),
{
    let mut index: usize = 0;
    while index < ids.len()
        invariant
            index <= ids@.len(),
            forall|i: int| 0 <= i < index ==> ids@[i] != id,
        decreases ids@.len() - index,
    {
        if ids[index] == id {
            assert(ids@[index as int] == id);
            return true;
        }
        index += 1;
    }
    false
}

/// What identifiers are sorted by.
pub open spec fn id_keys(ids: Seq<ContentId>) -> Seq<SortKey> {
    Seq::new(ids.len(), |i: int| SortKey { time: 0, high: ids[i].high, low: ids[i].low })
}

/// The identifiers that were sorted.
pub open spec fn key_ids(keys: Seq<SortKey>) -> Seq<ContentId> {
    Seq::new(keys.len(), |i: int| ContentId { high: keys[i].high, low: keys[i].low })
}

/// The identifiers in order, each of them once.
pub open spec fn ordered_ids(ids: Seq<ContentId>) -> Seq<ContentId> {
    key_ids(sorted(id_keys(distinct_ids(ids))))
}

/// Puts identifiers in order, each of them once.
pub fn order_ids(ids: &Vec<ContentId>) -> (result: Vec<ContentId>)
    ensures
        result@ == ordered_ids(ids@),
{
    let mut distinct: Vec<ContentId> = Vec::new();
    let mut index: usize = 0;
    assert(ids@.take(0) =~= seq![]);
    while index < ids.len()
        invariant
            index <= ids@.len(),
            distinct@ == distinct_ids(ids@.take(index as int)),
        decreases ids@.len() - index,
    {
        proof {
            assert(ids@.take(index + 1).drop_last() =~= ids@.take(index as int));
            assert(ids@.take(index + 1).last() == ids@[index as int]);
        }
        if !has_content_id(&distinct, ids[index]) {
            distinct.push(ids[index]);
        }
        index += 1;
    }
    assert(ids@.take(index as int) =~= ids@);
    let mut keys: Vec<SortKey> = Vec::new();
    let mut place: usize = 0;
    while place < distinct.len()
        invariant
            place <= distinct@.len(),
            keys@.len() == place,
            forall|i: int| 0 <= i < place ==> keys@[i] == id_keys(distinct@)[i],
        decreases distinct@.len() - place,
    {
        keys.push(SortKey { time: 0, high: distinct[place].high, low: distinct[place].low });
        place += 1;
    }
    assert(keys@ =~= id_keys(distinct@));
    let sorted_keys: Vec<SortKey> = sort_keys(&keys);
    ids_of_keys(&sorted_keys, sorted_keys.len())
}

/// The identifiers of the first of the keys, at most as many as asked for.
pub fn ids_of_keys(keys: &Vec<SortKey>, maximum: usize) -> (result: Vec<ContentId>)
    ensures
        result@ == key_ids(at_most(keys@, maximum as nat)),
{
    let mut result: Vec<ContentId> = Vec::new();
    let mut index: usize = 0;
    while index < keys.len() && index < maximum
        invariant
            index <= keys@.len(),
            index <= maximum,
            result@.len() == index,
            forall|i: int|
                0 <= i < index ==> result@[i] == (ContentId {
                    high: keys@[i].high,
                    low: keys@[i].low,
                }),
        decreases keys@.len() - index,
    {
        result.push(ContentId { high: keys[index].high, low: keys[index].low });
        index += 1;
    }
    assert(result@ =~= key_ids(at_most(keys@, maximum as nat)));
    result
}

/// What is put in order has the same identifiers, each of them once.
pub proof fn lemma_ordered_ids(ids: Seq<ContentId>)
    ensures
        forall|id: ContentId| #[trigger] ordered_ids(ids).contains(id) == ids.contains(id),
        ordered_ids(ids).no_duplicates(),
{
    let distinct = distinct_ids(ids);
    lemma_distinct_ids(ids);
    let keys = id_keys(distinct);
    let leq = |left: SortKey, right: SortKey| not_after(left, right);
    lemma_total();
    keys.lemma_sort_by_ensures(leq);
    let result = sorted(keys);
    keys.to_multiset_ensures();
    result.to_multiset_ensures();
    assert forall|id: ContentId| #[trigger] ordered_ids(ids).contains(id) == ids.contains(id) by {
        let key = SortKey { time: 0, high: id.high, low: id.low };
        vstd::seq_lib::to_multiset_contains(keys, key);
        vstd::seq_lib::to_multiset_contains(result, key);
        assert(result.contains(key) == keys.contains(key));
        if ids.contains(id) {
            assert(distinct.contains(id));
            let k = choose|k: int| 0 <= k < distinct.len() && distinct[k] == id;
            assert(keys[k] == key);
            let m = choose|m: int| 0 <= m < result.len() && result[m] == key;
            assert(ordered_ids(ids)[m] == id);
        }
        if ordered_ids(ids).contains(id) {
            let m = choose|m: int|
                0 <= m < ordered_ids(ids).len() && ordered_ids(ids)[m] == id;
            vstd::seq_lib::to_multiset_contains(result, result[m]);
            vstd::seq_lib::to_multiset_contains(keys, result[m]);
            assert(result.contains(result[m]));
            let k = choose|k: int| 0 <= k < keys.len() && keys[k] == result[m];
            assert(distinct[k] == id);
            assert(distinct.contains(id));
        }
    }
    lemma_sorted_no_duplicates(keys);
    assert forall|i: int, j: int|
        0 <= i < ordered_ids(ids).len() && 0 <= j < ordered_ids(ids).len() && i != j implies ordered_ids(
        ids,
    )[i] != ordered_ids(ids)[j] by {
        vstd::seq_lib::to_multiset_contains(result, result[i]);
        vstd::seq_lib::to_multiset_contains(keys, result[i]);
        vstd::seq_lib::to_multiset_contains(result, result[j]);
        vstd::seq_lib::to_multiset_contains(keys, result[j]);
        assert(result.contains(result[i]));
        assert(result.contains(result[j]));
        assert(keys.contains(result[i]));
        assert(keys.contains(result[j]));
        assert(result[i].time == 0 && result[j].time == 0);
        assert(result[i] != result[j]);
    }
}

proof fn lemma_sorted_no_duplicates(keys: Seq<SortKey>)
    requires
        keys.no_duplicates(),
    ensures
        sorted(keys).no_duplicates(),
{
    let leq = |left: SortKey, right: SortKey| not_after(left, right);
    lemma_total();
    keys.lemma_sort_by_ensures(leq);
    let result = sorted(keys);
    keys.lemma_multiset_has_no_duplicates();
    assert(forall|key: SortKey|
        keys.to_multiset().contains(key) ==> keys.to_multiset().count(key) == 1);
    result.lemma_multiset_has_no_duplicates_conv();
}

proof fn lemma_distinct_ids(ids: Seq<ContentId>)
    ensures
        distinct_ids(ids).no_duplicates(),
        forall|id: ContentId| #[trigger] distinct_ids(ids).contains(id) == ids.contains(id),
    decreases ids.len(),
{
    if ids.len() > 0 {
        let front = ids.drop_last();
        let last = ids.last();
        lemma_distinct_ids(front);
        let before = distinct_ids(front);
        let after = distinct_ids(ids);
        assert(ids =~= front.push(last));
        assert forall|id: ContentId| #[trigger] after.contains(id) == ids.contains(id) by {
            assert(ids.contains(id) == (front.contains(id) || id == last)) by {
                if front.contains(id) {
                    let k = choose|k: int| 0 <= k < front.len() && front[k] == id;
                    assert(ids[k] == id);
                }
                if id == last {
                    assert(ids[ids.len() - 1] == id);
                }
                if ids.contains(id) && id != last {
                    let k = choose|k: int| 0 <= k < ids.len() && ids[k] == id;
                    assert(front[k] == id);
                }
            }
            assert(before.contains(id) == front.contains(id));
            if !before.contains(last) {
                if before.contains(id) {
                    let k = choose|k: int| 0 <= k < before.len() && before[k] == id;
                    assert(after[k] == id);
                }
                if id == last {
                    assert(after[after.len() - 1] == id);
                }
                if after.contains(id) && id != last {
                    let k = choose|k: int| 0 <= k < after.len() && after[k] == id;
                    assert(before[k] == id);
                }
            }
        }
        if !before.contains(last) {
            assert forall|i: int, j: int|
                0 <= i < after.len() && 0 <= j < after.len() && i != j implies after[i]
                != after[j] by {
                if i < before.len() && j < before.len() {
                    assert(before[i] != before[j]);
                } else if i < before.len() {
                    assert(before.contains(before[i]));
                } else {
                    assert(before.contains(before[j]));
                }
            }
        }
    } else {
        assert forall|id: ContentId| #[trigger]
            distinct_ids(ids).contains(id) == ids.contains(id) by {
            assert(distinct_ids(ids) =~= seq![]);
        }
    }
}

/// An identifier comes before another.
pub open spec fn id_before(left: ContentId, right: ContentId) -> bool {
    left.high < right.high || (left.high == right.high && left.low < right.low)
}

/// Each identifier comes before those that follow it.
pub open spec fn is_ascending(ids: Seq<ContentId>) -> bool {
    forall|i: int, j: int|
        0 <= i < j < ids.len() ==> id_before(#[trigger] ids[i], #[trigger] ids[j])
}

/// What is put in order ascends.
pub proof fn lemma_ordered_ids_ascend(ids: Seq<ContentId>)
    ensures
        is_ascending(ordered_ids(ids)),
{
    lemma_ordered_ids(ids);
    let keys = id_keys(distinct_ids(ids));
    let leq = |left: SortKey, right: SortKey| not_after(left, right);
    lemma_total();
    keys.lemma_sort_by_ensures(leq);
    let result = sorted(keys);
    let ordered = ordered_ids(ids);
    assert forall|i: int, j: int| 0 <= i < j < ordered.len() implies id_before(
        #[trigger] ordered[i],
        #[trigger] ordered[j],
    ) by {
        vstd::seq_lib::to_multiset_contains(result, result[i]);
        vstd::seq_lib::to_multiset_contains(keys, result[i]);
        vstd::seq_lib::to_multiset_contains(result, result[j]);
        vstd::seq_lib::to_multiset_contains(keys, result[j]);
        assert(result.contains(result[i]) && result.contains(result[j]));
        assert(keys.contains(result[i]) && keys.contains(result[j]));
        assert(leq(result[i], result[j]));
        assert(ordered[i] != ordered[j]);
    }
}

} // verus!
