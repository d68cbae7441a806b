//! The files that a scan finds, and the heads whose files it does not find.
use vstd::prelude::*;

use crate::history::LocalHead;
use crate::ids::PathId;
use crate::path::{join_strings, path_forms, path_problem, texts, PathForms, RelativePath};
use crate::record::ChangeRecordKind;
use crate::scan::{ScanError, ScanProblem};
use crate::text::text_equal;

verus! {

/// One component of the path of a file that was found.
#[derive(Clone, Debug, PartialEq, Eq)]
pub enum FoundComponent {
    Normal(String),
    /// A name that is no text.
    NonUnicode,
    /// Something that is no name.
    Unsupported,
}

/// The first component that cannot stand in a path.
pub open spec fn component_trouble(components: Seq<FoundComponent>) -> Option<ScanProblem>
    decreases components.len(),
{
    if components.len() == 0 {
        None
    } else {
        match component_trouble(components.drop_last()) {
            Some(problem) => Some(problem),
            None => match components.last() {
                FoundComponent::Normal(_) => None,
                FoundComponent::NonUnicode => Some(ScanProblem::NonUnicodePath),
                FoundComponent::Unsupported => Some(ScanProblem::InvalidPathComponent),
            },
        }
    }
}

/// The texts of components.
pub open spec fn component_texts(components: Seq<FoundComponent>) -> Seq<Seq<char>> {
    components.map_values(
        |component: FoundComponent|
            match component {
                FoundComponent::Normal(text) => text@,
                _ => seq![],
            },
    )
}

proof fn lemma_component_trouble(components: Seq<FoundComponent>, count: int)
    requires
        0 <= count <= components.len(),
        component_trouble(components.take(count)) is Some,
    ensures
        component_trouble(components) == component_trouble(components.take(count)),
    decreases components.len(),
{
    if count < components.len() {
        assert(components.drop_last().take(count) =~= components.take(count));
        lemma_component_trouble(components.drop_last(), count);
    } else {
        assert(components.take(count) =~= components);
    }
}

/// The portable path of a file that was found, by the components of its path.
pub fn portable_relative_path(components: &Vec<FoundComponent>) -> (result: Result<
    RelativePath,
    ScanError,
>)
    ensures
        ({
            let text = crate::path::join(component_texts(components@));
            match component_trouble(components@) {
                Some(problem) => result matches Err(error) && error@ == problem,
                None => match path_problem(text) {
                    Some(problem) => result matches Err(error) && error@
                        == ScanProblem::InvalidPortablePath(problem),
                    None => result matches Ok(path) && path@ == path_forms(text),
                },
            }
        }),
{
    let mut names: Vec<String> = Vec::new();
    let mut index: usize = 0;
    assert(components@.take(0) =~= seq![]);
    while index < components.len()
        invariant
            index <= components@.len(),
            component_trouble(components@.take(index as int)) is None,
            names@.len() == index,
            forall|i: int|
                0 <= i < index ==> (#[trigger] names@[i])@ == component_texts(components@)[i],
        decreases components@.len() - index,
    {
        let ghost next = components@.take(index + 1);
        proof {
            assert(next.drop_last() =~= components@.take(index as int));
            assert(next.last() == components@[index as int]);
            if component_trouble(next) is Some {
                lemma_component_trouble(components@, index + 1);
            }
        }
        match &components[index] {
            FoundComponent::Normal(text) => {
                names.push(text.as_str().to_owned());
            },
            FoundComponent::NonUnicode => {
                return Err(ScanError::NonUnicodePath);
            },
            FoundComponent::Unsupported => {
                return Err(ScanError::InvalidPathComponent);
            },
        }
        index += 1;
    }
    assert(components@.take(index as int) =~= components@);
    let joined: String = join_strings(&names);
    assert(texts(names@) =~= component_texts(components@));
    match RelativePath::new(joined.as_str()) {
        Ok(path) => Ok(path),
        Err(error) => Err(ScanError::InvalidPortablePath(error)),
    }
}

/// The paths of the files that were found, no two of which differ by case alone.
#[derive(Debug)]
pub struct Discovery {
    pub paths: Vec<RelativePath>,
}

/// The forms of paths.
pub open spec fn path_views(paths: Seq<RelativePath>) -> Seq<PathForms> {
    paths.map_values(|path: RelativePath| path@)
}

impl View for Discovery {
    type V = Seq<PathForms>;

    open spec fn view(&self) -> Seq<PathForms> {
        path_views(self.paths@)
    }
}

/// The first path that differs from the given one by case alone.
pub open spec fn colliding(paths: Seq<PathForms>, path: PathForms) -> Option<PathForms>
    decreases paths.len(),
{
    if paths.len() == 0 {
        None
    } else {
        match colliding(paths.drop_last(), path) {
            Some(earlier) => Some(earlier),
            None => if paths.last().comparison_key == path.comparison_key {
                Some(paths.last())
            } else {
                None
            },
        }
    }
}

proof fn lemma_colliding(paths: Seq<PathForms>, path: PathForms, count: int)
    requires
        0 <= count <= paths.len(),
        colliding(paths.take(count), path) is Some,
    ensures
        colliding(paths, path) == colliding(paths.take(count), path),
    decreases paths.len(),
{
    if count < paths.len() {
        assert(paths.drop_last().take(count) =~= paths.take(count));
        lemma_colliding(paths.drop_last(), path, count);
    } else {
        assert(paths.take(count) =~= paths);
    }
}

/// One text comes before another in the order of their bytes.
pub open spec fn bytes_before(left: Seq<u8>, right: Seq<u8>) -> bool
    decreases left.len(),
{
    if right.len() == 0 {
        false
    } else if left.len() == 0 {
        true
    } else {
        left[0] < right[0] || (left[0] == right[0] && bytes_before(left.skip(1), right.skip(1)))
    }
}

proof fn lemma_bytes_before_total(left: Seq<u8>, right: Seq<u8>)
    ensures
        bytes_before(left, right) || bytes_before(right, left) || left == right,
        !(bytes_before(left, right) && bytes_before(right, left)),
    decreases left.len(),
{
    if left.len() > 0 && right.len() > 0 {
        lemma_bytes_before_total(left.skip(1), right.skip(1));
        if left[0] == right[0] && left.skip(1) == right.skip(1) {
            assert(left =~= seq![left[0]] + left.skip(1));
            assert(right =~= seq![right[0]] + right.skip(1));
        }
    } else if left.len() == 0 && right.len() == 0 {
        assert(left =~= right);
    }
}

proof fn lemma_bytes_before_transitive(one: Seq<u8>, two: Seq<u8>, three: Seq<u8>)
    requires
        bytes_before(one, two),
        bytes_before(two, three),
    ensures
        bytes_before(one, three),
    decreases one.len(),
{
    if one.len() > 0 && two.len() > 0 && three.len() > 0 {
        if one[0] == two[0] && two[0] == three[0] {
            lemma_bytes_before_transitive(one.skip(1), two.skip(1), three.skip(1));
        }
    }
}

proof fn lemma_bytes_common(left: Seq<u8>, right: Seq<u8>, count: int)
    requires
        0 <= count <= left.len(),
        count <= right.len(),
        left.take(count) == right.take(count),
    ensures
        bytes_before(left, right) == bytes_before(left.skip(count), right.skip(count)),
    decreases count,
{
    if count > 0 {
        assert(left.take(count)[0] == left[0]);
        assert(right.take(count)[0] == right[0]);
        assert(left.skip(1).take(count - 1) =~= left.take(count).skip(1));
        assert(right.skip(1).take(count - 1) =~= right.take(count).skip(1));
        lemma_bytes_common(left.skip(1), right.skip(1), count - 1);
        assert(left.skip(1).skip(count - 1) =~= left.skip(count));
        assert(right.skip(1).skip(count - 1) =~= right.skip(count));
    } else {
        assert(left.skip(0) =~= left);
        assert(right.skip(0) =~= right);
    }
}

fn is_before(left: &[u8], right: &[u8]) -> (before: bool)
    ensures
        before == bytes_before(left@, right@),
{
    let mut index: usize = 0;
    while index < left.len() && index < right.len()
        invariant
            index <= left@.len(),
            index <= right@.len(),
            left@.take(index as int) == right@.take(index as int),
        decreases left@.len() - index,
    {
        if left[index] != right[index] {
            proof {
                lemma_bytes_common(left@, right@, index as int);
                assert(left@.skip(index as int)[0] == left@[index as int]);
                assert(right@.skip(index as int)[0] == right@[index as int]);
            }
            return left[index] < right[index];
        }
        proof {
            assert(left@.take(index + 1) =~= left@.take(index as int).push(left@[index as int]));
            assert(right@.take(index + 1) =~= right@.take(index as int).push(
                right@[index as int],
            ));
        }
        index += 1;
    }
    proof {
        lemma_bytes_common(left@, right@, index as int);
    }
    index < right.len()
}

/// The bytes of the text of a path.
pub open spec fn display_bytes(path: PathForms) -> Seq<u8> {
    vstd::utf8::encode_utf8(path.display)
}

/// One path does not come after another.
pub open spec fn path_not_after(left: PathForms, right: PathForms) -> bool {
    !bytes_before(display_bytes(right), display_bytes(left))
}

/// `order` names each of the paths once, in the order of their texts.
pub open spec fn is_arrangement(paths: Seq<PathForms>, order: Seq<usize>) -> bool {
    &&& order.len() == paths.len()
    &&& order.no_duplicates()
    &&& forall|i: int| 0 <= i < order.len() ==> (#[trigger] order[i]) < paths.len()
    &&& forall|i: int, j: int|
        0 <= i < j < order.len() ==> path_not_after(
            paths[(#[trigger] order[i]) as int],
            paths[(#[trigger] order[j]) as int],
        )
}

impl Discovery {
    /// Nothing was found yet.
    pub fn new() -> (discovery: Self)
        ensures
            discovery@ == Seq::<PathForms>::empty(),
    {
        let discovery: Discovery = Discovery { paths: Vec::new() };
        assert(discovery@ =~= seq![]);
        discovery
    }

    /// Takes in a file that was found, unless its path differs from that of another by case
    /// alone.
    pub fn insert(&mut self, path: RelativePath) -> (result: Result<(), ScanError>)
        ensures
            match colliding(old(self)@, path@) {
                None => result is Ok && final(self)@ == old(self)@.push(path@),
                Some(first) => {
                    &&& result matches Err(error)
                    &&& error@ == (ScanProblem::PathCollision { first, second: path@ })
                    &&& final(self)@ == old(self)@
                },
            },
    {
        let ghost views = self@;
        let mut index: usize = 0;
        assert(views.take(0) =~= seq![]);
        while index < self.paths.len()
            invariant
                index <= self.paths@.len(),
                views == self@,
                views == old(self)@,
                colliding(views.take(index as int), path@) is None,
            decreases self.paths@.len() - index,
        {
            proof {
                assert(views.take(index + 1).drop_last() =~= views.take(index as int));
                assert(views.take(index + 1).last() == self.paths@[index as int]@);
            }
            if text_equal(self.paths[index].comparison_key(), path.comparison_key()) {
                proof {
                    lemma_colliding(views, path@, index + 1);
                }
                return Err(
                    ScanError::PathCollision { first: self.paths[index].clone(), second: path },
                );
            }
            index += 1;
        }
        assert(views.take(index as int) =~= views);
        let ghost added = path@;
        self.paths.push(path);
        assert(self@ =~= views.push(added));
        Ok(())
    }

    /// The order in which the files are read: that of the texts of their paths.
    pub fn arrange(&self) -> (order: Vec<usize>)
        ensures
            is_arrangement(self@, order@),
    {
        let ghost views = self@;
        let mut order: Vec<usize> = Vec::new();
        let mut next: usize = 0;
        while next < self.paths.len()
            invariant
                next <= self.paths@.len(),
                views == self@,
                is_arrangement(views.take(next as int), order@),
            decreases self.paths@.len() - next,
        {
            let ghost before = order@;
            let ghost known = views.take(next as int);
            let ghost wider = views.take(next + 1);
            let mut place: usize = order.len();
            proof {
                assert forall|i: int| 0 <= i < next implies known[i] == #[trigger] wider[i] by {}
            }
            while place > 0 && is_before(
                self.paths[next].as_str().as_bytes(),
                self.paths[order[place - 1]].as_str().as_bytes(),
            )
                invariant
                    place <= order@.len(),
                    order@ == before,
                    next < self.paths@.len(),
                    views == self@,
                    known == views.take(next as int),
                    is_arrangement(known, before),
                    forall|i: int|
                        place <= i < before.len() ==> bytes_before(
                            display_bytes(views[next as int]),
                            display_bytes(views[(#[trigger] before[i]) as int]),
                        ),
                decreases place,
            {
                assert(views[before[place - 1] as int] == self.paths@[before[place - 1] as int]@);
                place -= 1;
            }
            order.insert(place, next);
            proof {
                lemma_insert_arranges(views, next as int, before, place as int, order@);
            }
            next += 1;
        }
        assert(views.take(next as int) =~= views);
        order
    }
}

proof fn lemma_insert_arranges(
    views: Seq<PathForms>,
    next: int,
    before: Seq<usize>,
    place: int,
    after: Seq<usize>,
)
    requires
        0 <= next < views.len(),
        next <= usize::MAX,
        is_arrangement(views.take(next), before),
        0 <= place <= before.len(),
        after == before.insert(place, next as usize),
        forall|i: int|
            place <= i < before.len() ==> bytes_before(
                display_bytes(views[next]),
                display_bytes(views[(#[trigger] before[i]) as int]),
            ),
        place > 0 ==> path_not_after(views[before[place - 1] as int], views[next]),
    ensures
        is_arrangement(views.take(next + 1), after),
{
    let known = views.take(next);
    let wider = views.take(next + 1);
    assert forall|i: int| 0 <= i < next implies known[i] == #[trigger] wider[i] by {}
    assert forall|i: int| 0 <= i < after.len() implies (#[trigger] after[i]) < wider.len() by {
        if i < place {
            assert(after[i] == before[i]);
        } else if i > place {
            assert(after[i] == before[i - 1]);
        }
    }
    assert(after.no_duplicates()) by {
        assert forall|i: int, j: int| 0 <= i < j < after.len() implies after[i] != after[j] by {
            let left = if i < place {
                before[i]
            } else {
                before[i - 1]
            };
            let right = if j < place {
                before[j]
            } else {
                before[j - 1]
            };
        }
    }
    assert forall|i: int, j: int| 0 <= i < j < after.len() implies path_not_after(
        wider[(#[trigger] after[i]) as int],
        wider[(#[trigger] after[j]) as int],
    ) by {
        let this = display_bytes(views[next]);
        if i == place {
            assert(after[j] == before[j - 1]);
            lemma_bytes_before_total(this, display_bytes(views[before[j - 1] as int]));
        } else if j == place {
            assert(after[i] == before[i]);
            if i < place - 1 {
                let near = display_bytes(known[before[place - 1] as int]);
                let far = display_bytes(known[before[i] as int]);
                lemma_not_after_transitive(far, near, this);
            }
        } else if i < place && j < place {
            assert(after[i] == before[i] && after[j] == before[j]);
        } else if i < place {
            assert(after[i] == before[i] && after[j] == before[j - 1]);
        } else {
            assert(after[i] == before[i - 1] && after[j] == before[j - 1]);
        }
    }
}

proof fn lemma_not_after_transitive(one: Seq<u8>, two: Seq<u8>, three: Seq<u8>)
    requires
        !bytes_before(two, one),
        !bytes_before(three, two),
    ensures
        !bytes_before(three, one),
{
    lemma_bytes_before_total(one, two);
    lemma_bytes_before_total(two, three);
    lemma_bytes_before_total(one, three);
    if bytes_before(three, one) {
        if bytes_before(one, two) {
            lemma_bytes_before_transitive(three, one, two);
        }
    }
}

/// The heads that are files and were not found.
pub open spec fn lost_heads(heads: Seq<LocalHead>, found: Seq<PathId>) -> Seq<LocalHead> {
    heads.filter(
        |head: LocalHead| head.kind == ChangeRecordKind::File && !found.contains(head.path_id),
    )
}

fn has_path(found: &Vec<PathId>, path_id: PathId) -> (has: bool)
    ensures
        has == found@.contains(path_id),
{
    let mut index: usize = 0;
    while index < found.len()
        invariant
            index <= found@.len(),
            forall|i: int| 0 <= i < index ==> found@[i] != path_id,
        decreases found@.len() - index,
    {
        if found[index] == path_id {
            assert(found@[index as int] == path_id);
            return true;
        }
        index += 1;
    }
    false
}

/// The heads that are files and were not found: each of them gets a tombstone.
pub fn missing_heads(heads: &Vec<LocalHead>, found: &Vec<PathId>) -> (lost: Vec<LocalHead>)
    ensures
        lost@ == lost_heads(heads@, found@),
{
    let mut lost: Vec<LocalHead> = Vec::new();
    let mut index: usize = 0;
    proof {
        assert(heads@.take(0) =~= seq![]);
        assert(lost_heads(heads@.take(0), found@) =~= seq![]) by {
            reveal(Seq::filter);
        }
    }
    while index < heads.len()
        invariant
            index <= heads@.len(),
            lost@ == lost_heads(heads@.take(index as int), found@),
        decreases heads@.len() - index,
    {
        let head: LocalHead = heads[index];
        proof {
            reveal(Seq::filter);
            assert(heads@.take(index + 1).drop_last() =~= heads@.take(index as int));
            assert(heads@.take(index + 1).last() == head);
        }
        if head.kind == ChangeRecordKind::File && !has_path(found, head.path_id) {
            lost.push(head);
        }
        index += 1;
    }
    assert(heads@.take(index as int) =~= heads@);
    lost
}

} // verus!
