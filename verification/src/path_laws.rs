//! Which paths are accepted, told by their characters, and what becomes of them.
use vstd::prelude::*;

use crate::path::{
    ascii_upper, before_dot, case_fold, component_problem, first_component_problem,
    first_forbidden, forbidden_char, join, key_parts, lemma_split, lemma_split_join, nfc,
    normalized_parts, path_forms, path_problem, path_wf, split, windows_reserved, PathForms,
    PathProblem,
};
use crate::text::utf8_len;

verus! {

/// The part of a component before its first dot, all of it where it has none, has `count`
/// characters.
pub open spec fn is_stem_length(component: Seq<char>, count: int) -> bool {
    &&& 0 <= count <= component.len()
    &&& forall|i: int| 0 <= i < count ==> #[trigger] component[i] != '.'
    &&& count < component.len() ==> component[count] == '.'
}

/// The character is the given letter, in either case.
pub open spec fn is_letter(character: char, upper: char, lower: char) -> bool {
    character == upper || character == lower
}

/// The first `count` characters of a component spell the name of a device that Windows reserves:
/// `CON`, `PRN`, `AUX`, `NUL`, or `COM` or `LPT` with a digit from 1 to 9, in either case.
pub open spec fn spells_a_device(component: Seq<char>, count: int) -> bool {
    ||| {
        &&& count == 3
        &&& {
            ||| is_letter(component[0], 'C', 'c') && is_letter(component[1], 'O', 'o')
                && is_letter(component[2], 'N', 'n')
            ||| is_letter(component[0], 'P', 'p') && is_letter(component[1], 'R', 'r')
                && is_letter(component[2], 'N', 'n')
            ||| is_letter(component[0], 'A', 'a') && is_letter(component[1], 'U', 'u')
                && is_letter(component[2], 'X', 'x')
            ||| is_letter(component[0], 'N', 'n') && is_letter(component[1], 'U', 'u')
                && is_letter(component[2], 'L', 'l')
        }
    }
    ||| {
        &&& count == 4
        &&& {
            ||| is_letter(component[0], 'C', 'c') && is_letter(component[1], 'O', 'o')
                && is_letter(component[2], 'M', 'm')
            ||| is_letter(component[0], 'L', 'l') && is_letter(component[1], 'P', 'p')
                && is_letter(component[2], 'T', 't')
        }
        &&& '1' <= component[3] && component[3] <= '9'
    }
}

/// No file name on some platform may have the character: a control character, or one of
/// `< > : " \ | ? *`.
pub open spec fn is_unportable(character: char) -> bool {
    ||| character as u32 <= 31
    ||| 127 <= character as u32 <= 159
    ||| character == '<'
    ||| character == '>'
    ||| character == ':'
    ||| character == '"'
    ||| character == '\\'
    ||| character == '|'
    ||| character == '?'
    ||| character == '*'
}

proof fn lemma_upper(character: char)
    ensures
        ascii_upper(character) == 'A' <==> is_letter(character, 'A', 'a'),
        ascii_upper(character) == 'C' <==> is_letter(character, 'C', 'c'),
        ascii_upper(character) == 'L' <==> is_letter(character, 'L', 'l'),
        ascii_upper(character) == 'M' <==> is_letter(character, 'M', 'm'),
        ascii_upper(character) == 'N' <==> is_letter(character, 'N', 'n'),
        ascii_upper(character) == 'O' <==> is_letter(character, 'O', 'o'),
        ascii_upper(character) == 'P' <==> is_letter(character, 'P', 'p'),
        ascii_upper(character) == 'R' <==> is_letter(character, 'R', 'r'),
        ascii_upper(character) == 'T' <==> is_letter(character, 'T', 't'),
        ascii_upper(character) == 'U' <==> is_letter(character, 'U', 'u'),
        ascii_upper(character) == 'X' <==> is_letter(character, 'X', 'x'),
        '1' <= ascii_upper(character) && ascii_upper(character) <= '9' <==> '1' <= character
            && character <= '9',
{
    if 'a' <= character && character <= 'z' {
        let code = (character as u32 - 32) as u32;
        assert(65 <= code <= 90);
        assert(ascii_upper(character) as u32 == code);
    }
}

proof fn lemma_stem(component: Seq<char>, count: int)
    requires
        is_stem_length(component, count),
    ensures
        before_dot(component) == component.take(count),
    decreases count,
{
    if count == 0 {
        assert(before_dot(component) =~= component.take(0));
    } else {
        let rest = component.drop_first();
        assert(component[0] != '.');
        assert forall|i: int| 0 <= i < count - 1 implies #[trigger] rest[i] != '.' by {
            assert(component[i + 1] != '.');
        }
        lemma_stem(rest, count - 1);
        assert(seq![component[0]] + rest.take(count - 1) =~= component.take(count));
    }
}

proof fn lemma_stem_exists(component: Seq<char>) -> (count: int)
    ensures
        is_stem_length(component, count),
    decreases component.len(),
{
    if component.len() == 0 || component[0] == '.' {
        0
    } else {
        let rest = component.drop_first();
        let count = lemma_stem_exists(rest);
        assert forall|i: int| 0 <= i < count + 1 implies #[trigger] component[i] != '.' by {
            if i > 0 {
                assert(rest[i - 1] != '.');
            }
        }
        if count < rest.len() {
            assert(component[count + 1] == rest[count]);
        }
        count + 1
    }
}

/// A component is reserved exactly where what stands before its first dot spells the name of a
/// device.
pub proof fn law_reserved_names_are_device_names(component: Seq<char>, count: int)
    requires
        is_stem_length(component, count),
    ensures
        windows_reserved(component) == spells_a_device(component, count),
{
    lemma_stem(component, count);
    let stem = before_dot(component);
    let upper = Seq::new(stem.len(), |i: int| ascii_upper(stem[i]));
    if count == 3 || count == 4 {
        lemma_upper(component[0]);
        lemma_upper(component[1]);
        lemma_upper(component[2]);
        if count == 3 {
            assert(upper =~= seq![upper[0], upper[1], upper[2]]);
        } else {
            lemma_upper(component[3]);
            assert(upper.take(3) =~= seq![upper[0], upper[1], upper[2]]);
        }
        let con = seq!['C', 'O', 'N'];
        let prn = seq!['P', 'R', 'N'];
        let aux = seq!['A', 'U', 'X'];
        let nul = seq!['N', 'U', 'L'];
        let com = seq!['C', 'O', 'M'];
        let lpt = seq!['L', 'P', 'T'];
        assert(upper.take(3) =~= con <==> upper[0] == 'C' && upper[1] == 'O' && upper[2] == 'N');
        assert(upper.take(3) =~= prn <==> upper[0] == 'P' && upper[1] == 'R' && upper[2] == 'N');
        assert(upper.take(3) =~= aux <==> upper[0] == 'A' && upper[1] == 'U' && upper[2] == 'X');
        assert(upper.take(3) =~= nul <==> upper[0] == 'N' && upper[1] == 'U' && upper[2] == 'L');
        assert(upper.take(3) =~= com <==> upper[0] == 'C' && upper[1] == 'O' && upper[2] == 'M');
        assert(upper.take(3) =~= lpt <==> upper[0] == 'L' && upper[1] == 'P' && upper[2] == 'T');
        if count == 3 {
            assert(upper.take(3) =~= upper);
        }
    }
}

proof fn lemma_first_forbidden(text: Seq<char>)
    ensures
        match first_forbidden(text) {
            None => forall|i: int| 0 <= i < text.len() ==> !is_unportable(#[trigger] text[i]),
            Some(character) => exists|i: int|
                {
                    &&& 0 <= i < text.len()
                    &&& #[trigger] text[i] == character
                    &&& is_unportable(character)
                    &&& forall|j: int| 0 <= j < i ==> !is_unportable(#[trigger] text[j])
                },
        },
    decreases text.len(),
{
    if text.len() > 0 {
        assert(forbidden_char(text[0]) == is_unportable(text[0]));
        if forbidden_char(text[0]) {
            assert(text[0] == first_forbidden(text)->0);
        } else {
            let rest = text.drop_first();
            lemma_first_forbidden(rest);
            match first_forbidden(text) {
                None => {
                    assert forall|i: int| 0 <= i < text.len() implies !is_unportable(
                        #[trigger] text[i],
                    ) by {
                        if i > 0 {
                            assert(rest[i - 1] == text[i]);
                        }
                    }
                },
                Some(character) => {
                    let i = choose|i: int|
                        {
                            &&& 0 <= i < rest.len()
                            &&& #[trigger] rest[i] == character
                            &&& is_unportable(character)
                            &&& forall|j: int| 0 <= j < i ==> !is_unportable(#[trigger] rest[j])
                        };
                    assert(text[i + 1] == character);
                    assert forall|j: int| 0 <= j < i + 1 implies !is_unportable(
                        #[trigger] text[j],
                    ) by {
                        if j > 0 {
                            assert(rest[j - 1] == text[j]);
                        }
                    }
                },
            }
        }
    }
}

/// A component is accepted exactly where it is not empty, is neither `.` nor `..`, has at most
/// 255 bytes, ends in neither a dot nor a space, is not named like a device, and has no
/// character that is not portable. Hidden files are accepted like any others.
pub proof fn law_portable_components_are_accepted(component: Seq<char>, count: int)
    requires
        is_stem_length(component, count),
    ensures
        component_problem(component) is None <==> {
            &&& component.len() > 0
            &&& !(component.len() == 1 && component[0] == '.')
            &&& !(component.len() == 2 && component[0] == '.' && component[1] == '.')
            &&& utf8_len(component) <= 255
            &&& component[component.len() - 1] != '.'
            &&& component[component.len() - 1] != ' '
            &&& !spells_a_device(component, count)
            &&& forall|i: int|
                0 <= i < component.len() ==> !is_unportable(#[trigger] component[i])
        },
{
    law_reserved_names_are_device_names(component, count);
    lemma_first_forbidden(component);
    let dot = seq!['.'];
    let dots = seq!['.', '.'];
    assert(component =~= dot <==> component.len() == 1 && component[0] == '.');
    assert(component =~= dots <==> component.len() == 2 && component[0] == '.' && component[1]
        == '.');
}

/// What a component is refused for is what is wrong with it: only `.` and `..` lead elsewhere,
/// and each other refusal names what it is for.
pub proof fn law_component_refusal_names_its_reason(component: Seq<char>, count: int)
    requires
        is_stem_length(component, count),
    ensures
        component_problem(component) == Some(PathProblem::EmptyComponent) <==> component.len()
            == 0,
        component_problem(component) == Some(PathProblem::TraversalComponent { component }) <==> (
        component.len() == 1 && component[0] == '.') || (component.len() == 2 && component[0]
            == '.' && component[1] == '.'),
        match component_problem(component) {
            None => true,
            Some(PathProblem::EmptyComponent) => true,
            Some(PathProblem::TraversalComponent { component: named }) => named == component,
            Some(PathProblem::ComponentTooLong { actual, maximum }) => {
                &&& actual == utf8_len(component)
                &&& maximum == 255
                &&& actual > maximum
            },
            Some(PathProblem::TrailingDotOrSpace { component: named }) => {
                &&& named == component
                &&& component[component.len() - 1] == '.' || component[component.len() - 1] == ' '
            },
            Some(PathProblem::ReservedName { component: named }) => named == component
                && spells_a_device(component, count),
            Some(PathProblem::ForbiddenCharacter { component: named, character }) => {
                &&& named == component
                &&& is_unportable(character)
                &&& component.contains(character)
            },
            Some(_) => false,
        },
{
    law_reserved_names_are_device_names(component, count);
    lemma_first_forbidden(component);
    let dot = seq!['.'];
    let dots = seq!['.', '.'];
    assert(component =~= dot <==> component.len() == 1 && component[0] == '.');
    assert(component =~= dots <==> component.len() == 2 && component[0] == '.' && component[1]
        == '.');
}

proof fn lemma_first_component_problem(components: Seq<Seq<char>>)
    ensures
        match first_component_problem(components) {
            None => forall|i: int|
                0 <= i < components.len() ==> component_problem(
                    #[trigger] components[i],
                ) is None,
            Some(problem) => exists|i: int|
                {
                    &&& 0 <= i < components.len()
                    &&& component_problem(#[trigger] components[i]) == Some(problem)
                    &&& forall|j: int|
                        0 <= j < i ==> component_problem(#[trigger] components[j]) is None
                },
        },
    decreases components.len(),
{
    if components.len() > 0 {
        let front = components.drop_last();
        lemma_first_component_problem(front);
        match first_component_problem(front) {
            None => {
                assert forall|i: int| 0 <= i < front.len() implies component_problem(
                    #[trigger] components[i],
                ) is None by {
                    assert(front[i] == components[i]);
                }
                assert(components[components.len() - 1] == components.last());
            },
            Some(problem) => {
                let i = choose|i: int|
                    {
                        &&& 0 <= i < front.len()
                        &&& component_problem(#[trigger] front[i]) == Some(problem)
                        &&& forall|j: int|
                            0 <= j < i ==> component_problem(#[trigger] front[j]) is None
                    };
                assert(components[i] == front[i]);
                assert forall|j: int| 0 <= j < i implies component_problem(
                    #[trigger] components[j],
                ) is None by {
                    assert(front[j] == components[j]);
                }
            },
        }
    }
}

/// A path is accepted exactly where it is not empty, starts and ends with no separator, each of
/// the components between its separators is accepted once composed, and all of them together
/// have at most 4096 bytes.
pub proof fn law_portable_paths_are_accepted(value: Seq<char>, parts: Seq<Seq<char>>)
    requires
        parts.len() > 0,
        forall|i: int| 0 <= i < parts.len() ==> !(#[trigger] parts[i]).contains('/'),
        join(parts) == value,
    ensures
        path_problem(value) is None <==> {
            &&& value.len() > 0
            &&& value[0] != '/'
            &&& value[value.len() - 1] != '/'
            &&& forall|i: int|
                0 <= i < parts.len() ==> component_problem(nfc(#[trigger] parts[i])) is None
            &&& utf8_len(join(normalized_parts(parts))) <= 4096
        },
{
    lemma_split_join(parts);
    let components = normalized_parts(parts);
    lemma_first_component_problem(components);
    if first_component_problem(components) is None {
        assert forall|i: int| 0 <= i < parts.len() implies component_problem(
            nfc(#[trigger] parts[i]),
        ) is None by {
            assert(components[i] == nfc(parts[i]));
        }
    }
}

/// What a path is refused for is what is wrong with it, and with its first component that is
/// not accepted.
pub proof fn law_path_refusal_names_its_reason(value: Seq<char>)
    ensures
        match path_problem(value) {
            None => true,
            Some(PathProblem::Empty) => value.len() == 0,
            Some(PathProblem::NotRelative) => value.len() > 0 && (value[0] == '/'
                || value[value.len() - 1] == '/'),
            Some(PathProblem::PathTooLong { actual, maximum }) => {
                &&& actual == utf8_len(path_forms(value).display)
                &&& maximum == 4096
                &&& actual > maximum
            },
            Some(problem) => exists|i: int|
                0 <= i < split(value).len() && component_problem(nfc(#[trigger] split(value)[i]))
                    == Some(problem),
        },
{
    let components = normalized_parts(split(value));
    lemma_first_component_problem(components);
    if value.len() > 0 && value[0] != '/' && value.last() != '/' && first_component_problem(
        components,
    ) is Some {
        let problem = first_component_problem(components)->0;
        let i = choose|i: int|
            {
                &&& 0 <= i < components.len()
                &&& component_problem(#[trigger] components[i]) == Some(problem)
            };
        assert(component_problem(nfc(split(value)[i])) == Some(problem));
        let count = lemma_stem_exists(components[i]);
        law_component_refusal_names_its_reason(components[i], count);
    }
}

/// A path is displayed with each component composed, and compared with each component folded
/// and composed, the separators in their places.
pub proof fn law_path_forms_go_by_component(value: Seq<char>, parts: Seq<Seq<char>>)
    requires
        parts.len() > 0,
        forall|i: int| 0 <= i < parts.len() ==> !(#[trigger] parts[i]).contains('/'),
        join(parts) == value,
    ensures
        path_forms(value).display == join(Seq::new(parts.len(), |i: int| nfc(parts[i]))),
        path_forms(value).comparison_key == join(
            Seq::new(parts.len(), |i: int| nfc(case_fold(nfc(parts[i])))),
        ),
{
    lemma_split_join(parts);
    assert(normalized_parts(parts) =~= Seq::new(parts.len(), |i: int| nfc(parts[i])));
    assert(key_parts(normalized_parts(parts)) =~= Seq::new(
        parts.len(),
        |i: int| nfc(case_fold(nfc(parts[i]))),
    ));
}

/// A path is one path however often it is read: reading what a path displays gives the path
/// again.
pub proof fn law_path_is_read_back(path: PathForms)
    requires
        path_wf(path),
    ensures
        path_problem(path.display) is None,
        path_forms(path.display) == path,
        path.display.len() > 0,
        path.display[0] != '/',
        path.display[path.display.len() - 1] != '/',
        utf8_len(path.display) <= 4096,
        forall|i: int|
            0 <= i < split(path.display).len() ==> component_problem(
                nfc(#[trigger] split(path.display)[i]),
            ) is None,
{
    let parts = split(path.display);
    lemma_split(path.display);
    law_portable_paths_are_accepted(path.display, parts);
}

} // verus!
