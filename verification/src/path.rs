//! Portable relative paths.
use vstd::prelude::*;

use crate::text::{chars_of, push_chars, text_equal, utf8_len};

verus! {

pub const MAX_COMPONENT_BYTES: usize = 255;

pub const MAX_PATH_BYTES: usize = 4096;

/// What `unicode_normalization` gives as the canonical composition (NFC) of a text.
pub uninterp spec fn nfc(text: Seq<char>) -> Seq<char>;

/// `UnicodeNormalization::nfc`, collected: the canonical composition of the text.
/// Composition is idempotent, and no character other than `/` is composed to, or
/// decomposed into, the character `/`.
#[verifier::external_body]
pub(crate) fn to_nfc(text: &str) -> (normalized: String)
    ensures
        normalized@ == nfc(text@),
        nfc(normalized@) == normalized@,
        !text@.contains('/') ==> !normalized@.contains('/'),
{
    unicode_normalization::UnicodeNormalization::nfc(text).collect()
}

/// What `unicode_casefold` gives as the full case folding of a text.
pub uninterp spec fn case_fold(text: Seq<char>) -> Seq<char>;

/// `UnicodeCaseFold::case_fold`, collected: the full case folding of the text.
#[verifier::external_body]
pub(crate) fn to_case_fold(text: &str) -> (folded: String)
    ensures
        folded@ == case_fold(text@),
{
    unicode_casefold::UnicodeCaseFold::case_fold(text).collect()
}

/// The parts of `text` between separators; one more than there are separators.
pub open spec fn split(text: Seq<char>) -> Seq<Seq<char>>
    decreases text.len(),
{
    if text.len() == 0 {
        seq![seq![]]
    } else {
        let parts = split(text.drop_last());
        if text.last() == '/' {
            parts.push(seq![])
        } else {
            parts.update(parts.len() - 1, parts.last().push(text.last()))
        }
    }
}

/// The parts with a separator between each two.
pub open spec fn join(parts: Seq<Seq<char>>) -> Seq<char>
    decreases parts.len(),
{
    if parts.len() == 0 {
        seq![]
    } else if parts.len() == 1 {
        parts[0]
    } else {
        join(parts.drop_last()).push('/') + parts.last()
    }
}

/// The texts that strings hold.
pub open spec fn texts(strings: Seq<String>) -> Seq<Seq<char>> {
    Seq::new(strings.len(), |i: int| strings[i]@)
}

/// The parts, each in canonical composition.
pub open spec fn normalized_parts(parts: Seq<Seq<char>>) -> Seq<Seq<char>> {
    Seq::new(parts.len(), |i: int| nfc(parts[i]))
}

/// The parts, each in the form in which two parts that differ by case alone agree.
pub open spec fn key_parts(parts: Seq<Seq<char>>) -> Seq<Seq<char>> {
    Seq::new(parts.len(), |i: int| nfc(case_fold(parts[i])))
}

/// What is wrong with a path.
pub enum PathProblem {
    Empty,
    NotRelative,
    EmptyComponent,
    TraversalComponent { component: Seq<char> },
    ForbiddenCharacter { component: Seq<char>, character: char },
    TrailingDotOrSpace { component: Seq<char> },
    ReservedName { component: Seq<char> },
    ComponentTooLong { actual: nat, maximum: nat },
    PathTooLong { actual: nat, maximum: nat },
}

#[derive(Clone, Debug, PartialEq, Eq)]
pub enum PathError {
    Empty,
    NotRelative,
    EmptyComponent,
    TraversalComponent { component: String },
    ForbiddenCharacter { component: String, character: char },
    TrailingDotOrSpace { component: String },
    ReservedName { component: String },
    ComponentTooLong { actual: usize, maximum: usize },
    PathTooLong { actual: usize, maximum: usize },
}

impl View for PathError {
    type V = PathProblem;

    open spec fn view(&self) -> PathProblem {
        match *self {
            PathError::Empty => PathProblem::Empty,
            PathError::NotRelative => PathProblem::NotRelative,
            PathError::EmptyComponent => PathProblem::EmptyComponent,
            PathError::TraversalComponent { component } => PathProblem::TraversalComponent {
                component: component@,
            },
            PathError::ForbiddenCharacter { component, character } =>
            PathProblem::ForbiddenCharacter { component: component@, character },
            PathError::TrailingDotOrSpace { component } => PathProblem::TrailingDotOrSpace {
                component: component@,
            },
            PathError::ReservedName { component } => PathProblem::ReservedName {
                component: component@,
            },
            PathError::ComponentTooLong { actual, maximum } => PathProblem::ComponentTooLong {
                actual: actual as nat,
                maximum: maximum as nat,
            },
            PathError::PathTooLong { actual, maximum } => PathProblem::PathTooLong {
                actual: actual as nat,
                maximum: maximum as nat,
            },
        }
    }
}

/// The control characters.
pub open spec fn control_char(character: char) -> bool {
    character as u32 <= 0x1f || 0x7f <= character as u32 <= 0x9f
}

/// A character that no portable file name may have.
pub open spec fn forbidden_char(character: char) -> bool {
    control_char(character) || character == '<' || character == '>' || character == ':' || character
        == '"' || character == '\\' || character == '|' || character == '?' || character == '*'
}

/// The first forbidden character of a text.
pub open spec fn first_forbidden(text: Seq<char>) -> Option<char>
    decreases text.len(),
{
    if text.len() == 0 {
        None
    } else if forbidden_char(text[0]) {
        Some(text[0])
    } else {
        first_forbidden(text.drop_first())
    }
}

/// The part of a text before its first dot, all of it where it has none.
pub open spec fn before_dot(text: Seq<char>) -> Seq<char>
    decreases text.len(),
{
    if text.len() == 0 || text[0] == '.' {
        seq![]
    } else {
        seq![text[0]] + before_dot(text.drop_first())
    }
}

/// The character with an ASCII letter in upper case.
pub open spec fn ascii_upper(character: char) -> char {
    if 'a' <= character && character <= 'z' {
        (character as u32 - 32) as char
    } else {
        character
    }
}

/// The name of a device that Windows reserves, in upper case.
pub open spec fn reserved_stem(stem: Seq<char>) -> bool {
    ||| stem == seq!['C', 'O', 'N']
    ||| stem == seq!['P', 'R', 'N']
    ||| stem == seq!['A', 'U', 'X']
    ||| stem == seq!['N', 'U', 'L']
    ||| {
        &&& stem.len() == 4
        &&& stem.take(3) == seq!['C', 'O', 'M'] || stem.take(3) == seq!['L', 'P', 'T']
        &&& '1' <= stem[3] && stem[3] <= '9'
    }
}

/// A component whose name, without what follows its first dot, Windows reserves.
pub open spec fn windows_reserved(component: Seq<char>) -> bool {
    let stem = before_dot(component);
    reserved_stem(Seq::new(stem.len(), |i: int| ascii_upper(stem[i])))
}

/// What is wrong with a component, where something is.
pub open spec fn component_problem(component: Seq<char>) -> Option<PathProblem> {
    if component.len() == 0 {
        Some(PathProblem::EmptyComponent)
    } else if component == seq!['.'] || component == seq!['.', '.'] {
        Some(PathProblem::TraversalComponent { component })
    } else if utf8_len(component) > MAX_COMPONENT_BYTES {
        Some(
            PathProblem::ComponentTooLong {
                actual: utf8_len(component),
                maximum: MAX_COMPONENT_BYTES as nat,
            },
        )
    } else if component.last() == '.' || component.last() == ' ' {
        Some(PathProblem::TrailingDotOrSpace { component })
    } else if windows_reserved(component) {
        Some(PathProblem::ReservedName { component })
    } else {
        match first_forbidden(component) {
            Some(character) => Some(PathProblem::ForbiddenCharacter { component, character }),
            None => None,
        }
    }
}

/// What is wrong with the first component that is not acceptable.
pub open spec fn first_component_problem(components: Seq<Seq<char>>) -> Option<PathProblem>
    decreases components.len(),
{
    if components.len() == 0 {
        None
    } else if first_component_problem(components.drop_last()) is Some {
        first_component_problem(components.drop_last())
    } else {
        component_problem(components.last())
    }
}

/// What is wrong with a path, where something is.
pub open spec fn path_problem(value: Seq<char>) -> Option<PathProblem> {
    let components = normalized_parts(split(value));
    if value.len() == 0 {
        Some(PathProblem::Empty)
    } else if value[0] == '/' || value.last() == '/' {
        Some(PathProblem::NotRelative)
    } else if first_component_problem(components) is Some {
        first_component_problem(components)
    } else if utf8_len(join(components)) > MAX_PATH_BYTES {
        Some(
            PathProblem::PathTooLong {
                actual: utf8_len(join(components)),
                maximum: MAX_PATH_BYTES as nat,
            },
        )
    } else {
        None
    }
}

/// The display form and the comparison key of an acceptable path.
pub open spec fn path_forms(value: Seq<char>) -> PathForms {
    let components = normalized_parts(split(value));
    PathForms { display: join(components), comparison_key: join(key_parts(components)) }
}

/// The two forms of a path.
pub struct PathForms {
    pub display: Seq<char>,
    pub comparison_key: Seq<char>,
}

/// A path is the result of reading its own display form.
pub open spec fn path_wf(path: PathForms) -> bool {
    path_problem(path.display) is None && path_forms(path.display) == path
}

/// Splitting gives at least one part, and none with a separator in it.
pub proof fn lemma_split(text: Seq<char>)
    ensures
        split(text).len() > 0,
        forall|i: int| 0 <= i < split(text).len() ==> !(#[trigger] split(text)[i]).contains('/'),
        join(split(text)) == text,
        text.len() > 0 ==> split(text).len() > 1 || split(text)[0] == text,
    decreases text.len(),
{
    if text.len() == 0 {
        assert(split(text)[0] =~= seq![]);
    } else {
        let front = text.drop_last();
        let parts = split(front);
        lemma_split(front);
        let all = split(text);
        assert(text =~= front.push(text.last()));
        if text.last() == '/' {
            assert(all.drop_last() =~= parts);
            assert(join(all) =~= join(parts).push('/') + seq![]);
        } else {
            let last = parts.last().push(text.last());
            assert forall|i: int| 0 <= i < all.len() implies !(#[trigger] all[i]).contains('/') by {
                if i == all.len() - 1 {
                    assert(!parts[i].contains('/'));
                    assert forall|k: int| 0 <= k < last.len() implies last[k] != '/' by {
                        if k < parts.last().len() {
                            assert(parts.last().contains(parts.last()[k]));
                        }
                    }
                } else {
                    assert(all[i] == parts[i]);
                }
            }
            if parts.len() == 1 {
                assert(join(all) =~= text);
            } else {
                assert(all.drop_last() =~= parts.drop_last());
                assert(join(all) =~= (join(parts.drop_last()).push('/') + parts.last()).push(
                    text.last(),
                ));
            }
        }
    }
}

/// Joining parts without separators and splitting again gives the parts.
pub proof fn lemma_split_join(parts: Seq<Seq<char>>)
    requires
        parts.len() > 0,
        forall|i: int| 0 <= i < parts.len() ==> !(#[trigger] parts[i]).contains('/'),
    ensures
        split(join(parts)) == parts,
    decreases parts.len(), parts.last().len(),
{
    let last = parts.last();
    let whole = join(parts);
    if last.len() == 0 {
        if parts.len() == 1 {
            assert(whole =~= seq![]);
            assert(parts =~= seq![seq![]]);
        } else {
            assert(whole.drop_last() =~= join(parts.drop_last()));
            assert forall|i: int| 0 <= i < parts.drop_last().len() implies !(
            #[trigger] parts.drop_last()[i]).contains('/') by {
                assert(parts[i] == parts.drop_last()[i]);
            }
            lemma_split_join(parts.drop_last());
            assert(last =~= seq![]);
            assert(whole =~= join(parts.drop_last()).push('/'));
            assert(split(whole) == parts.drop_last().push(seq![]));
            assert(parts =~= parts.drop_last().push(last));
        }
    } else {
        let shorter = parts.update(parts.len() - 1, last.drop_last());
        assert(last =~= last.drop_last().push(last.last()));
        assert(last.contains(last.last()));
        assert(!parts[parts.len() - 1].contains('/'));
        assert forall|i: int| 0 <= i < shorter.len() implies !(#[trigger] shorter[i]).contains(
            '/',
        ) by {
            assert(!parts[i].contains('/'));
            if i == parts.len() - 1 {
                assert forall|k: int| 0 <= k < shorter[i].len() implies shorter[i][k] != '/' by {
                    assert(last[k] == shorter[i][k]);
                    assert(last.contains(last[k]));
                }
            }
        }
        if parts.len() == 1 {
            assert(whole.drop_last() =~= join(shorter));
        } else {
            assert(shorter.drop_last() =~= parts.drop_last());
            assert(whole.drop_last() =~= join(shorter));
        }
        lemma_split_join(shorter);
        assert(split(whole) =~= parts);
    }
}

/// A component without a problem is not empty.
proof fn lemma_component_not_empty(components: Seq<Seq<char>>, index: int)
    requires
        first_component_problem(components) is None,
        0 <= index < components.len(),
    ensures
        component_problem(components[index]) is None,
        components[index].len() > 0,
    decreases components.len(),
{
    if index < components.len() - 1 {
        lemma_component_not_empty(components.drop_last(), index);
        assert(components.drop_last()[index] == components[index]);
    }
}

proof fn lemma_join_ends(parts: Seq<Seq<char>>)
    requires
        parts.len() > 0,
        forall|i: int|
            0 <= i < parts.len() ==> (#[trigger] parts[i]).len() > 0 && !parts[i].contains('/'),
    ensures
        join(parts).len() > 0,
        join(parts)[0] != '/',
        join(parts).last() != '/',
    decreases parts.len(),
{
    let last = parts.last();
    assert(parts[parts.len() - 1] == last);
    assert(last.contains(last.last()));
    assert(last.contains(last[0]));
    if parts.len() > 1 {
        assert forall|i: int| 0 <= i < parts.drop_last().len() implies (
        #[trigger] parts.drop_last()[i]).len() > 0 && !parts.drop_last()[i].contains('/') by {
            assert(parts[i] == parts.drop_last()[i]);
        }
        lemma_join_ends(parts.drop_last());
        let front = join(parts.drop_last()).push('/');
        assert(join(parts) =~= front + last);
        assert((front + last).last() == last.last());
        assert((front + last)[0] == front[0]);
    }
}

/// Reading an acceptable path gives a path that is the result of reading its own display form.
pub proof fn lemma_path_forms_wf(value: Seq<char>)
    requires
        path_problem(value) is None,
        forall|i: int|
            0 <= i < split(value).len() ==> nfc(nfc(#[trigger] split(value)[i])) == nfc(
                split(value)[i],
            ) && !nfc(split(value)[i]).contains('/'),
    ensures
        path_wf(path_forms(value)),
{
    let components = normalized_parts(split(value));
    lemma_split(value);
    assert forall|i: int| 0 <= i < components.len() implies (#[trigger] components[i]).len() > 0
        && !components[i].contains('/') by {
        lemma_component_not_empty(components, i);
        assert(components[i] == nfc(split(value)[i]));
    }
    lemma_split_join(components);
    lemma_join_ends(components);
    let again = normalized_parts(split(join(components)));
    assert forall|i: int| 0 <= i < components.len() implies #[trigger] again[i]
        == components[i] by {
        assert(again[i] == nfc(components[i]));
        assert(components[i] == nfc(split(value)[i]));
    }
    assert(again =~= components);
}

/// A path relative to a synchronized folder, whose components every platform accepts.
#[derive(Debug, PartialEq, Eq, PartialOrd, Ord, Hash)]
pub struct RelativePath {
    display: String,
    comparison_key: String,
}

impl View for RelativePath {
    type V = PathForms;

    closed spec fn view(&self) -> PathForms {
        PathForms { display: self.display@, comparison_key: self.comparison_key@ }
    }
}

impl Clone for RelativePath {
    fn clone(&self) -> (path: Self)
        ensures
            path@ == self@,
    {
        proof {
            use_type_invariant(self);
        }
        RelativePath { display: self.display.clone(), comparison_key: self.comparison_key.clone() }
    }
}

impl RelativePath {
    /// Every path is the result of reading its own display form.
    #[verifier::type_invariant]
    pub open spec fn canonical(self) -> bool {
        path_wf(self@)
    }

    /// Reads a path, composing its characters and checking each component.
    pub fn new(value: &str) -> (result: Result<Self, PathError>)
        ensures
            match result {
                Ok(path) => path_problem(value@) is None && path@ == path_forms(value@)
                    && path_wf(path@),
                Err(error) => path_problem(value@) == Some(error@),
            },
    {
        let components: Vec<String> = split_components(value);
        if value.is_empty() {
            return Err(PathError::Empty);
        }
        let characters: Vec<char> = chars_of(value);
        if characters[0] == '/' || characters[characters.len() - 1] == '/' {
            return Err(PathError::NotRelative);
        }
        let mut display_components: Vec<String> = Vec::new();
        let mut comparison_components: Vec<String> = Vec::new();
        let ghost parts = split(value@);
        let ghost all = normalized_parts(parts);
        proof {
            lemma_split(value@);
            assert(all.take(0) =~= seq![]);
        }
        let mut index: usize = 0;
        while index < components.len()
            invariant
                index <= components.len(),
                texts(components@) == parts,
                all == normalized_parts(parts),
                parts == split(value@),
                value@.len() > 0,
                value@[0] != '/' && value@.last() != '/',
                forall|i: int| 0 <= i < parts.len() ==> !(#[trigger] parts[i]).contains('/'),
                texts(display_components@) == all.take(index as int),
                texts(comparison_components@) == key_parts(all).take(index as int),
                first_component_problem(all.take(index as int)) is None,
                forall|i: int|
                    0 <= i < index ==> nfc(nfc(#[trigger] parts[i])) == nfc(parts[i]) && !nfc(
                        parts[i],
                    ).contains('/'),
            decreases components.len() - index,
        {
            assert(components@[index as int]@ == parts[index as int]);
            let normalized: String = to_nfc(components[index].as_str());
            let ghost next = all.take(index + 1);
            proof {
                assert(next.drop_last() =~= all.take(index as int));
                assert(next.last() == normalized@);
            }
            match validate_component(normalized.as_str()) {
                Ok(_) => {},
                Err(error) => {
                    proof {
                        lemma_first_problem_extends(all, index + 1);
                    }
                    return Err(error);
                },
            }
            let folded: String = to_case_fold(normalized.as_str());
            let key: String = to_nfc(folded.as_str());
            let ghost keys = texts(comparison_components@).push(key@);
            comparison_components.push(key);
            display_components.push(normalized);
            proof {
                assert(texts(comparison_components@) =~= keys);
                assert(keys.last() == key_parts(all)[index as int]);
                assert(texts(display_components@) =~= all.take(index + 1));
                assert(texts(comparison_components@) =~= key_parts(all).take(index + 1));
            }
            index += 1;
        }
        proof {
            assert(all.take(index as int) =~= all);
            assert(key_parts(all).take(index as int) =~= key_parts(all));
        }
        let display: String = match join_components(&display_components) {
            Ok(display) => display,
            Err(error) => {
                return Err(error);
            },
        };
        let comparison_key: String = join_strings(&comparison_components);
        proof {
            lemma_path_forms_wf(value@);
        }
        Ok(RelativePath { display, comparison_key })
    }

    /// The path as it is displayed.
    pub fn as_str(&self) -> (text: &str)
        ensures
            text@ == self@.display,
    {
        self.display.as_str()
    }

    /// The form in which two paths that differ by case alone agree.
    pub fn comparison_key(&self) -> (text: &str)
        ensures
            text@ == self@.comparison_key,
    {
        self.comparison_key.as_str()
    }

    /// The last component.
    pub fn file_name(&self) -> (text: &str)
        ensures
            text@ == split(self@.display).last(),
    {
        let characters: Vec<char> = chars_of(self.display.as_str());
        let start: usize = last_component_start(&characters);
        self.display.as_str().substring_char(start, characters.len())
    }

    /// The path as text.
    pub fn to_string(&self) -> (text: String)
        ensures
            text@ == self@.display,
    {
        self.display.clone()
    }

    /// Tests whether the two paths have the same forms.
    pub fn same(&self, other: &Self) -> (same: bool)
        ensures
            same == (self@ == other@),
    {
        text_equal(self.display.as_str(), other.display.as_str()) && text_equal(
            self.comparison_key.as_str(),
            other.comparison_key.as_str(),
        )
    }
}

/// Where the last component of a path starts.
pub fn last_component_start(characters: &Vec<char>) -> (start: usize)
    ensures
        start <= characters@.len(),
        characters@.subrange(start as int, characters@.len() as int) == split(characters@).last(),
        start > 0 ==> characters@[start - 1] == '/' && split(characters@).len() > 1 && join(
            split(characters@).drop_last(),
        ) == characters@.take(start - 1),
        start == 0 ==> split(characters@).len() == 1,
{
    let mut start: usize = 0;
    let mut index: usize = 0;
    proof {
        assert(characters@.take(0) =~= seq![]);
        assert(split(seq![]).drop_last() =~= seq![]);
    }
    while index < characters.len()
        invariant
            start <= index <= characters@.len(),
            split(characters@.take(index as int)).len() > 0,
            characters@.subrange(start as int, index as int) == split(
                characters@.take(index as int),
            ).last(),
            start > 0 ==> characters@[start - 1] == '/' && split(
                characters@.take(index as int),
            ).len() > 1 && join(split(characters@.take(index as int)).drop_last())
                == characters@.take(start - 1),
            start == 0 ==> split(characters@.take(index as int)).len() == 1,
        decreases characters@.len() - index,
    {
        let ghost front = characters@.take(index as int);
        let ghost next = characters@.take(index + 1);
        proof {
            assert(next.drop_last() =~= front);
            assert(next.last() == characters@[index as int]);
            lemma_split(front);
        }
        if characters[index] == '/' {
            start = index + 1;
            proof {
                assert(split(next).drop_last() =~= split(front));
                assert(characters@.subrange(start as int, index + 1) =~= seq![]);
            }
        } else {
            proof {
                assert(split(next).drop_last() =~= split(front).drop_last());
                assert(characters@.subrange(start as int, index + 1) =~= characters@.subrange(
                    start as int,
                    index as int,
                ).push(characters@[index as int]));
            }
        }
        index += 1;
    }
    assert(characters@.take(index as int) =~= characters@);
    start
}

proof fn lemma_first_problem_extends(components: Seq<Seq<char>>, count: int)
    requires
        0 <= count <= components.len(),
        first_component_problem(components.take(count)) is Some,
    ensures
        first_component_problem(components) == first_component_problem(components.take(count)),
    decreases components.len() - count,
{
    if count < components.len() {
        let next = components.take(count + 1);
        assert(next.drop_last() =~= components.take(count));
        lemma_first_problem_extends(components, count + 1);
    } else {
        assert(components.take(count) =~= components);
    }
}

/// The parts of a text between separators.
pub fn split_components(value: &str) -> (components: Vec<String>)
    ensures
        texts(components@) == split(value@),
{
    let characters: Vec<char> = chars_of(value);
    let mut components: Vec<String> = Vec::new();
    let mut current: String = String::new();
    let mut index: usize = 0;
    proof {
        assert(characters@.take(0) =~= seq![]);
        assert(texts(components@).push(current@) =~= split(seq![]));
    }
    while index < characters.len()
        invariant
            index <= characters@.len(),
            characters@ == value@,
            texts(components@).push(current@) == split(value@.take(index as int)),
        decreases characters@.len() - index,
    {
        let ghost front = value@.take(index as int);
        let ghost next = value@.take(index + 1);
        let ghost parts = texts(components@).push(current@);
        proof {
            assert(next.drop_last() =~= front);
            assert(next.last() == characters@[index as int]);
        }
        if characters[index] == '/' {
            components.push(current);
            current = String::new();
            proof {
                assert(texts(components@) =~= parts);
            }
        } else {
            current.push(characters[index]);
            proof {
                assert(texts(components@).push(current@) =~= parts.update(
                    parts.len() - 1,
                    parts.last().push(characters@[index as int]),
                ));
            }
        }
        index += 1;
    }
    let ghost parts = texts(components@).push(current@);
    components.push(current);
    proof {
        assert(value@.take(index as int) =~= value@);
        assert(texts(components@) =~= parts);
    }
    components
}

/// The components with a separator between each two.
pub fn join_strings(components: &Vec<String>) -> (joined: String)
    ensures
        joined@ == join(texts(components@)),
{
    let mut joined: String = String::new();
    let mut index: usize = 0;
    assert(texts(components@).take(0) =~= seq![]);
    while index < components.len()
        invariant
            index <= components.len(),
            joined@ == join(texts(components@).take(index as int)),
        decreases components.len() - index,
    {
        let ghost front = texts(components@).take(index as int);
        let ghost next = texts(components@).take(index + 1);
        proof {
            assert(next.drop_last() =~= front);
            assert(next.last() == components@[index as int]@);
        }
        if index > 0 {
            joined.push('/');
        }
        let characters: Vec<char> = chars_of(components[index].as_str());
        push_chars(&mut joined, &characters, 0, characters.len());
        proof {
            assert(characters@.subrange(0, characters@.len() as int) =~= characters@);
            assert(joined@ =~= join(next));
        }
        index += 1;
    }
    assert(texts(components@).take(index as int) =~= texts(components@));
    joined
}

/// Joins normalized components, where the path that they make is not too long.
pub fn join_components(components: &Vec<String>) -> (result: Result<String, PathError>)
    ensures
        match result {
            Ok(path) => path@ == join(texts(components@)) && utf8_len(path@) <= MAX_PATH_BYTES,
            Err(error) => error@ == (PathProblem::PathTooLong {
                actual: utf8_len(join(texts(components@))),
                maximum: MAX_PATH_BYTES as nat,
            }) && utf8_len(join(texts(components@))) > MAX_PATH_BYTES,
        },
{
    let joined: String = join_strings(components);
    let actual: usize = joined.as_str().as_bytes().len();
    if actual > MAX_PATH_BYTES {
        return Err(PathError::PathTooLong { actual, maximum: MAX_PATH_BYTES });
    }
    Ok(joined)
}

/// Tests whether a character is a control character.
pub fn is_control_char(character: char) -> (control: bool)
    ensures
        control == control_char(character),
{
    let code: u32 = character as u32;
    code <= 0x1f || (0x7f <= code && code <= 0x9f)
}

fn is_forbidden_char(character: char) -> (forbidden: bool)
    ensures
        forbidden == forbidden_char(character),
{
    is_control_char(character) || character == '<' || character == '>' || character == ':'
        || character == '"' || character == '\\' || character == '|' || character == '?'
        || character == '*'
}

/// Checks a component that is in canonical composition.
pub fn validate_component(component: &str) -> (result: Result<(), PathError>)
    ensures
        match result {
            Ok(_) => component_problem(component@) is None,
            Err(error) => component_problem(component@) == Some(error@),
        },
{
    let characters: Vec<char> = chars_of(component);
    let count: usize = characters.len();
    if count == 0 {
        return Err(PathError::EmptyComponent);
    }
    let ghost dot = seq!['.'];
    let ghost dots = seq!['.', '.'];
    if (count == 1 && characters[0] == '.') || (count == 2 && characters[0] == '.' && characters[1]
        == '.') {
        assert(component@ =~= dot || component@ =~= dots);
        return Err(PathError::TraversalComponent { component: component.to_owned() });
    }
    assert(component@ != dot && component@ != dots);
    let actual: usize = component.as_bytes().len();
    if actual > MAX_COMPONENT_BYTES {
        return Err(PathError::ComponentTooLong { actual, maximum: MAX_COMPONENT_BYTES });
    }
    if characters[count - 1] == '.' || characters[count - 1] == ' ' {
        return Err(PathError::TrailingDotOrSpace { component: component.to_owned() });
    }
    if is_windows_reserved(&characters) {
        return Err(PathError::ReservedName { component: component.to_owned() });
    }
    let mut index: usize = 0;
    assert(component@.skip(0) =~= component@);
    while index < count
        invariant
            count == characters@.len(),
            characters@ == component@,
            index <= count,
            first_forbidden(component@) == first_forbidden(component@.skip(index as int)),
            component@.len() > 0,
            component@ != seq!['.'],
            component@ != seq!['.', '.'],
            utf8_len(component@) <= MAX_COMPONENT_BYTES,
            component@.last() != '.' && component@.last() != ' ',
            !windows_reserved(component@),
        decreases count - index,
    {
        let ghost rest = component@.skip(index as int);
        assert(rest[0] == characters@[index as int]);
        if is_forbidden_char(characters[index]) {
            return Err(
                PathError::ForbiddenCharacter {
                    component: component.to_owned(),
                    character: characters[index],
                },
            );
        }
        assert(rest.drop_first() =~= component@.skip(index + 1));
        index += 1;
    }
    Ok(())
}

fn to_ascii_upper(character: char) -> (upper: char)
    ensures
        upper == ascii_upper(character),
{
    if 'a' <= character && character <= 'z' {
        ((character as u8) - 32) as char
    } else {
        character
    }
}

/// Tests whether Windows reserves a component's name.
pub fn is_windows_reserved(component: &Vec<char>) -> (reserved: bool)
    ensures
        reserved == windows_reserved(component@),
{
    let mut stem: Vec<char> = Vec::new();
    let mut index: usize = 0;
    let ghost whole = before_dot(component@);
    let ghost upper = Seq::new(whole.len(), |i: int| ascii_upper(whole[i]));
    assert(component@.skip(0) =~= component@);
    while index < component.len() && component[index] != '.'
        invariant
            index <= component@.len(),
            stem@.len() == index,
            whole == component@.take(index as int) + before_dot(component@.skip(index as int)),
            forall|i: int| 0 <= i < index ==> stem@[i] == ascii_upper(component@[i]),
        decreases component@.len() - index,
    {
        let ghost rest = component@.skip(index as int);
        assert(rest[0] == component@[index as int]);
        assert(rest.drop_first() =~= component@.skip(index + 1));
        assert(component@.take(index + 1) + before_dot(component@.skip(index + 1)) =~= whole);
        stem.push(to_ascii_upper(component[index]));
        index += 1;
    }
    proof {
        assert(before_dot(component@.skip(index as int)) =~= seq![]);
        assert(whole =~= component@.take(index as int));
        assert(stem@ =~= upper);
    }
    let three: bool = stem.len() == 3 && ((stem[0] == 'C' && stem[1] == 'O' && stem[2] == 'N') || (
    stem[0] == 'P' && stem[1] == 'R' && stem[2] == 'N') || (stem[0] == 'A' && stem[1] == 'U'
        && stem[2] == 'X') || (stem[0] == 'N' && stem[1] == 'U' && stem[2] == 'L'));
    proof {
        assert(stem@.len() == 3 ==> stem@ =~= seq![stem@[0], stem@[1], stem@[2]]);
    }
    let four: bool = stem.len() == 4 && has_reserved_numbered_prefix(&stem);
    three || four
}

fn has_reserved_numbered_prefix(stem: &Vec<char>) -> (reserved: bool)
    requires
        stem@.len() == 4,
    ensures
        reserved == ((stem@.take(3) == seq!['C', 'O', 'M'] || stem@.take(3) == seq!['L', 'P', 'T'])
            && '1' <= stem@[3] && stem@[3] <= '9'),
{
    proof {
        assert(stem@.take(3) =~= seq![stem@[0], stem@[1], stem@[2]]);
    }
    ((stem[0] == 'C' && stem[1] == 'O' && stem[2] == 'M') || (stem[0] == 'L' && stem[1] == 'P'
        && stem[2] == 'T')) && '1' <= stem[3] && stem[3] <= '9'
}

} // verus!
