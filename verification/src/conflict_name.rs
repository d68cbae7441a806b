//! The names of conflict copies.
use vstd::prelude::*;
use vstd::utf8::{char_is_scalar, encode_scalar, encode_utf8};

use crate::ids::{lemma_uuid_bytes, uuid_bytes, RevisionId};
use crate::path::{
    control_char, is_control_char, join, last_component_start, lemma_split, path_forms,
    path_problem, path_wf, split, PathError, RelativePath, MAX_COMPONENT_BYTES,
};
use crate::text::{
    chars_of, decimal_int, hex_text, push_chars, push_decimal_signed, push_hex, utf8_len,
};

verus! {

pub const MAX_DEVICE_LABEL_BYTES: usize = 48;

/// The longest prefix of `text` that has at most `maximum` bytes in UTF-8.
pub open spec fn truncated(text: Seq<char>, maximum: nat) -> Seq<char>
    decreases text.len(),
{
    if utf8_len(text) <= maximum || text.len() == 0 {
        text
    } else {
        truncated(text.drop_last(), maximum)
    }
}

/// The number of bytes of a character in UTF-8.
pub open spec fn char_width(character: char) -> nat {
    let code = character as u32;
    if code <= 0x7f {
        1
    } else if code <= 0x7ff {
        2
    } else if code <= 0xffff {
        3
    } else {
        4
    }
}

/// The length in UTF-8 adds up.
pub proof fn lemma_utf8_len_concat(left: Seq<char>, right: Seq<char>)
    ensures
        utf8_len(left + right) == utf8_len(left) + utf8_len(right),
    decreases left.len(),
{
    if left.len() == 0 {
        assert(left + right =~= right);
    } else {
        assert((left + right).drop_first() =~= left.drop_first() + right);
        lemma_utf8_len_concat(left.drop_first(), right);
    }
}

/// The length in UTF-8 of one character.
pub proof fn lemma_utf8_len_char(character: char)
    ensures
        utf8_len(seq![character]) == char_width(character),
{
    char_is_scalar(character);
    let text = seq![character];
    assert(text.drop_first() =~= seq![]);
    assert(encode_utf8(text.drop_first()) =~= seq![]);
    assert(encode_utf8(text) =~= encode_scalar(character as u32) + seq![]);
}

proof fn lemma_utf8_len_push(text: Seq<char>, character: char)
    ensures
        utf8_len(text.push(character)) == utf8_len(text) + char_width(character),
{
    assert(text.push(character) =~= text + seq![character]);
    lemma_utf8_len_concat(text, seq![character]);
    lemma_utf8_len_char(character);
}

proof fn lemma_utf8_len_take(text: Seq<char>, short: int, long: int)
    requires
        0 <= short <= long <= text.len(),
    ensures
        utf8_len(text.take(short)) <= utf8_len(text.take(long)),
{
    assert(text.take(long) =~= text.take(short) + text.subrange(short, long));
    lemma_utf8_len_concat(text.take(short), text.subrange(short, long));
}

proof fn lemma_truncated(text: Seq<char>, maximum: nat, count: int, length: int)
    requires
        0 <= count <= length <= text.len(),
        utf8_len(text.take(count)) <= maximum,
        count < text.len() ==> utf8_len(text.take(count + 1)) > maximum,
    ensures
        truncated(text.take(length), maximum) == text.take(count),
    decreases length - count,
{
    if count < length {
        lemma_utf8_len_take(text, count + 1, length);
        assert(text.take(length).drop_last() =~= text.take(length - 1));
        lemma_truncated(text, maximum, count, length - 1);
    }
}

/// What is kept of a text is no longer than the maximum.
pub proof fn lemma_truncated_len(text: Seq<char>, maximum: nat)
    ensures
        utf8_len(truncated(text, maximum)) <= maximum,
    decreases text.len(),
{
    if utf8_len(text) > maximum && text.len() > 0 {
        lemma_truncated_len(text.drop_last(), maximum);
    }
}

fn char_bytes(character: char) -> (width: usize)
    ensures
        width == char_width(character),
        1 <= width <= 4,
{
    let code: u32 = character as u32;
    if code <= 0x7f {
        1
    } else if code <= 0x7ff {
        2
    } else if code <= 0xffff {
        3
    } else {
        4
    }
}

/// The number of characters in the longest prefix that has at most `maximum` bytes in UTF-8.
pub fn truncate_utf8(text: &[char], maximum: usize) -> (count: usize)
    ensures
        count <= text@.len(),
        text@.take(count as int) == truncated(text@, maximum as nat),
{
    let mut count: usize = 0;
    let mut size: usize = 0;
    assert(text@.take(0) =~= seq![]);
    assert(utf8_len(seq![]) == 0);
    while count < text.len()
        invariant
            count <= text@.len(),
            size == utf8_len(text@.take(count as int)),
            size <= maximum,
        decreases text@.len() - count,
    {
        let width: usize = char_bytes(text[count]);
        proof {
            assert(text@.take(count + 1) =~= text@.take(count as int).push(text@[count as int]));
            lemma_utf8_len_push(text@.take(count as int), text@[count as int]);
        }
        if width > maximum - size {
            proof {
                lemma_truncated(text@, maximum as nat, count as int, text@.len() as int);
                assert(text@.take(text@.len() as int) =~= text@);
            }
            return count;
        }
        size += width;
        count += 1;
    }
    proof {
        assert(text@.take(count as int) =~= text@);
    }
    count
}

/// The name before its extension, and the extension with its dot. A name has an extension where
/// something stands before its last dot and something after it.
pub open spec fn extension_start(name: Seq<char>) -> int {
    extension_start_from(name, name.len() as int)
}

/// Where the last dot among the first `end` characters stands, if it starts an extension.
pub open spec fn extension_start_from(name: Seq<char>, end: int) -> int
    decreases end,
{
    if end <= 0 {
        name.len() as int
    } else if name[end - 1] == '.' {
        if end - 1 > 0 && end < name.len() {
            end - 1
        } else {
            name.len() as int
        }
    } else {
        extension_start_from(name, end - 1)
    }
}

/// Where the extension of a file name starts, at its end where it has none.
pub fn split_extension(name: &[char]) -> (start: usize)
    ensures
        start == extension_start(name@),
        start <= name@.len(),
{
    let mut end: usize = name.len();
    while end > 0
        invariant
            end <= name@.len(),
            extension_start(name@) == extension_start_from(name@, end as int),
        decreases end,
    {
        if name[end - 1] == '.' {
            return if end - 1 > 0 && end < name.len() {
                end - 1
            } else {
                name.len()
            };
        }
        end -= 1;
    }
    name.len()
}

/// The characters with the Unicode property `White_Space`.
pub open spec fn white_space(character: char) -> bool {
    let code = character as u32;
    ||| 0x9 <= code <= 0xd
    ||| code == 0x20
    ||| code == 0x85
    ||| code == 0xa0
    ||| code == 0x1680
    ||| 0x2000 <= code <= 0x200a
    ||| code == 0x2028
    ||| code == 0x2029
    ||| code == 0x202f
    ||| code == 0x205f
    ||| code == 0x3000
}

pub fn is_white_space(character: char) -> (space: bool)
    ensures
        space == white_space(character),
{
    let code: u32 = character as u32;
    (0x9 <= code && code <= 0xd) || code == 0x20 || code == 0x85 || code == 0xa0 || code == 0x1680
        || (0x2000 <= code && code <= 0x200a) || code == 0x2028 || code == 0x2029 || code == 0x202f
        || code == 0x205f || code == 0x3000
}

/// The character of a device label that stands for `character`.
pub open spec fn label_char(character: char) -> char {
    if control_char(character) || character == '<' || character == '>' || character == ':'
        || character == '"' || character == '/' || character == '\\' || character == '|'
        || character == '?' || character == '*' {
        '_'
    } else {
        character
    }
}

fn to_label_char(character: char) -> (result: char)
    ensures
        result == label_char(character),
{
    if is_control_char(character) || character == '<' || character == '>' || character == ':'
        || character == '"' || character == '/' || character == '\\' || character == '|'
        || character == '?' || character == '*' {
        '_'
    } else {
        character
    }
}

/// The text without the white space that it starts with.
pub open spec fn trim_start(text: Seq<char>) -> Seq<char>
    decreases text.len(),
{
    if text.len() > 0 && white_space(text[0]) {
        trim_start(text.drop_first())
    } else {
        text
    }
}

/// The text without the white space that it ends with.
pub open spec fn trim_end(text: Seq<char>) -> Seq<char>
    decreases text.len(),
{
    if text.len() > 0 && white_space(text.last()) {
        trim_end(text.drop_last())
    } else {
        text
    }
}

/// The text without the dots and spaces that it ends with.
pub open spec fn trim_dots(text: Seq<char>) -> Seq<char>
    decreases text.len(),
{
    if text.len() > 0 && (text.last() == '.' || text.last() == ' ') {
        trim_dots(text.drop_last())
    } else {
        text
    }
}

/// The form of a device label that a file name may hold.
pub open spec fn portable_label(label: Seq<char>) -> Seq<char> {
    let sanitized = trim_dots(
        trim_end(trim_start(Seq::new(label.len(), |i: int| label_char(label[i])))),
    );
    truncated(
        if sanitized.len() == 0 {
            seq!['d', 'e', 'v', 'i', 'c', 'e']
        } else {
            sanitized
        },
        MAX_DEVICE_LABEL_BYTES as nat,
    )
}

/// Makes a device label fit for a file name.
pub fn portable_device_label(label: &str) -> (portable: String)
    ensures
        portable@ == portable_label(label@),
{
    let given: Vec<char> = chars_of(label);
    let mut sanitized: Vec<char> = Vec::new();
    let mut index: usize = 0;
    let ghost mapped = Seq::new(label@.len(), |i: int| label_char(label@[i]));
    while index < given.len()
        invariant
            index <= given@.len(),
            given@ == label@,
            sanitized@.len() == index,
            forall|i: int| 0 <= i < index ==> sanitized@[i] == label_char(label@[i]),
        decreases given@.len() - index,
    {
        sanitized.push(to_label_char(given[index]));
        index += 1;
    }
    assert(sanitized@ =~= mapped);
    let mut start: usize = 0;
    assert(mapped.skip(0) =~= mapped);
    while start < sanitized.len() && is_white_space(sanitized[start])
        invariant
            start <= sanitized@.len(),
            sanitized@ == mapped,
            trim_start(mapped) == trim_start(mapped.skip(start as int)),
        decreases sanitized@.len() - start,
    {
        assert(mapped.skip(start as int).drop_first() =~= mapped.skip(start + 1));
        start += 1;
    }
    let ghost begun = mapped.skip(start as int);
    assert(trim_start(mapped) == begun);
    let mut end: usize = sanitized.len();
    assert(begun =~= mapped.subrange(start as int, end as int));
    while end > start && is_white_space(sanitized[end - 1])
        invariant
            start <= end <= sanitized@.len(),
            sanitized@ == mapped,
            trim_end(begun) == trim_end(mapped.subrange(start as int, end as int)),
        decreases end,
    {
        assert(mapped.subrange(start as int, end as int).drop_last() =~= mapped.subrange(
            start as int,
            end - 1,
        ));
        end -= 1;
    }
    let ghost trimmed = mapped.subrange(start as int, end as int);
    assert(trim_end(begun) == trimmed);
    while end > start && (sanitized[end - 1] == '.' || sanitized[end - 1] == ' ')
        invariant
            start <= end <= sanitized@.len(),
            sanitized@ == mapped,
            trim_dots(trimmed) == trim_dots(mapped.subrange(start as int, end as int)),
        decreases end,
    {
        assert(mapped.subrange(start as int, end as int).drop_last() =~= mapped.subrange(
            start as int,
            end - 1,
        ));
        end -= 1;
    }
    let ghost kept = mapped.subrange(start as int, end as int);
    assert(trim_dots(trimmed) == kept);
    let mut portable: String = String::new();
    if start == end {
        let fallback: Vec<char> = vec!['d', 'e', 'v', 'i', 'c', 'e'];
        let ghost word = seq!['d', 'e', 'v', 'i', 'c', 'e'];
        assert(fallback@ =~= word);
        let count: usize = truncate_utf8(fallback.as_slice(), MAX_DEVICE_LABEL_BYTES);
        push_chars(&mut portable, fallback.as_slice(), 0, count);
        assert(word.subrange(0, count as int) =~= word.take(count as int));
        assert(kept.len() == 0);
        assert(portable@ =~= word.take(count as int));
    } else {
        let slice: &[char] = vstd::slice::slice_subrange(sanitized.as_slice(), start, end);
        let count: usize = truncate_utf8(slice, MAX_DEVICE_LABEL_BYTES);
        push_chars(&mut portable, slice, 0, count);
        assert(slice@ == kept);
        assert(slice@.subrange(0, count as int) =~= slice@.take(count as int));
        assert(portable@ =~= slice@.take(count as int));
    }
    portable
}

/// What a conflict copy's name has between the stem and the extension.
pub open spec fn conflict_suffix(
    label: Seq<char>,
    timestamp: int,
    revision_id: RevisionId,
) -> Seq<char> {
    seq![' ', '(', 'O', 'r', 'b', 'i', 't', ' ', 'c', 'o', 'n', 'f', 'l', 'i', 'c', 't', ' ']
        + portable_label(label) + seq![' '] + decimal_int(timestamp) + seq![' '] + hex_text(
        uuid_bytes(revision_id.value).take(4),
    ) + seq![')']
}

/// The file name of the conflict copy of a file named `name`.
pub open spec fn conflict_file_name(
    name: Seq<char>,
    label: Seq<char>,
    timestamp: int,
    revision_id: RevisionId,
) -> Seq<char> {
    let start = extension_start(name);
    let extension = name.skip(start);
    let suffix = conflict_suffix(label, timestamp, revision_id);
    let room = MAX_COMPONENT_BYTES - (utf8_len(suffix) + utf8_len(extension));
    truncated(
        name.take(start),
        if room < 0 {
            0
        } else {
            room as nat
        },
    ) + suffix + extension
}

/// The path of the conflict copy of the file at `display`, before it is read as a path.
pub open spec fn conflict_display(
    display: Seq<char>,
    label: Seq<char>,
    timestamp: int,
    revision_id: RevisionId,
) -> Seq<char> {
    let parts = split(display);
    let name = conflict_file_name(parts.last(), label, timestamp, revision_id);
    if parts.len() > 1 {
        join(parts.drop_last()).push('/') + name
    } else {
        name
    }
}

fn push_conflict_intro(text: &mut String)
    ensures
        final(text)@ == old(text)@ + seq![
            ' ',
            '(',
            'O',
            'r',
            'b',
            'i',
            't',
            ' ',
            'c',
            'o',
            'n',
            'f',
            'l',
            'i',
            'c',
            't',
            ' ',
        ],
{
    let intro: Vec<char> = vec![
        ' ',
        '(',
        'O',
        'r',
        'b',
        'i',
        't',
        ' ',
        'c',
        'o',
        'n',
        'f',
        'l',
        'i',
        'c',
        't',
        ' ',
    ];
    push_chars(text, intro.as_slice(), 0, intro.len());
    assert(intro@.subrange(0, intro@.len() as int) =~= seq![
        ' ',
        '(',
        'O',
        'r',
        'b',
        'i',
        't',
        ' ',
        'c',
        'o',
        'n',
        'f',
        'l',
        'i',
        'c',
        't',
        ' ',
    ]);
}

/// The text between the stem and the extension of a conflict copy's name.
fn conflict_suffix_text(device_label: &str, timestamp_unix_ms: i64, revision_id: RevisionId) -> (suffix:
    String)
    ensures
        suffix@ == conflict_suffix(device_label@, timestamp_unix_ms as int, revision_id),
{
    let mut suffix: String = String::new();
    push_conflict_intro(&mut suffix);
    let label: String = portable_device_label(device_label);
    let label_chars: Vec<char> = chars_of(label.as_str());
    push_chars(&mut suffix, label_chars.as_slice(), 0, label_chars.len());
    suffix.push(' ');
    push_decimal_signed(&mut suffix, timestamp_unix_ms);
    suffix.push(' ');
    let revision: [u8; 16] = revision_id.to_bytes();
    proof {
        lemma_uuid_bytes(revision_id.value);
        assert(label_chars@.subrange(0, label_chars@.len() as int) =~= label_chars@);
        assert(revision@.subrange(0, 4) =~= revision@.take(4));
    }
    push_hex(&mut suffix, vstd::slice::slice_subrange(revision.as_slice(), 0, 4));
    suffix.push(')');
    assert(suffix@ =~= conflict_suffix(device_label@, timestamp_unix_ms as int, revision_id));
    suffix
}

/// The path of the conflict copy of a file, which names the device, the time and the revision.
pub fn conflict_copy_path(
    original: &RelativePath,
    device_label: &str,
    timestamp_unix_ms: i64,
    revision_id: RevisionId,
) -> (result: Result<RelativePath, PathError>)
    ensures
        ({
            let display = conflict_display(
                original@.display,
                device_label@,
                timestamp_unix_ms as int,
                revision_id,
            );
            match result {
                Ok(path) => path_problem(display) is None && path@ == path_forms(display)
                    && path_wf(path@),
                Err(error) => path_problem(display) == Some(error@),
            }
        }),
{
    let characters: Vec<char> = chars_of(original.as_str());
    let name_start: usize = last_component_start(&characters);
    let count: usize = characters.len();
    let name: &[char] = vstd::slice::slice_subrange(characters.as_slice(), name_start, count);
    let extension_at: usize = split_extension(name);
    let suffix: String = conflict_suffix_text(device_label, timestamp_unix_ms, revision_id);
    let suffix_chars: Vec<char> = chars_of(suffix.as_str());
    let mut extension: String = String::new();
    push_chars(&mut extension, name, extension_at, name.len());
    let ghost whole_name = split(original@.display).last();
    proof {
        assert(name@ == whole_name);
        assert(name@.subrange(extension_at as int, name@.len() as int) =~= name@.skip(
            extension_at as int,
        ));
        assert(extension@ =~= name@.skip(extension_at as int));
    }
    let suffix_bytes: usize = suffix.as_str().as_bytes().len();
    let extension_bytes: usize = extension.as_str().as_bytes().len();
    let room: usize = if suffix_bytes <= MAX_COMPONENT_BYTES && extension_bytes
        <= MAX_COMPONENT_BYTES - suffix_bytes {
        MAX_COMPONENT_BYTES - suffix_bytes - extension_bytes
    } else {
        0
    };
    let stem: &[char] = vstd::slice::slice_subrange(name, 0, extension_at);
    let kept: usize = truncate_utf8(stem, room);
    let mut display: String = String::new();
    if name_start > 0 {
        push_chars(&mut display, characters.as_slice(), 0, name_start);
    }
    let ghost parent = display@;
    push_chars(&mut display, stem, 0, kept);
    push_chars(&mut display, suffix_chars.as_slice(), 0, suffix_chars.len());
    push_chars(&mut display, name, extension_at, name.len());
    proof {
        let parts = split(original@.display);
        lemma_split(original@.display);
        assert(stem@ =~= whole_name.take(extension_at as int));
        assert(stem@.subrange(0, kept as int) =~= stem@.take(kept as int));
        assert(suffix_chars@.subrange(0, suffix_chars@.len() as int) =~= suffix@);
        let result_name = conflict_file_name(
            whole_name,
            device_label@,
            timestamp_unix_ms as int,
            revision_id,
        );
        assert(display@ =~= parent + result_name);
        if name_start > 0 {
            assert(characters@.subrange(0, name_start as int) =~= characters@.take(
                name_start - 1,
            ).push('/'));
            assert(parent =~= join(parts.drop_last()).push('/'));
        } else {
            assert(parent =~= seq![]);
            assert(parts.len() == 1);
        }
        assert(display@ =~= conflict_display(
            original@.display,
            device_label@,
            timestamp_unix_ms as int,
            revision_id,
        ));
    }
    RelativePath::new(display.as_str())
}

/// The name of a conflict copy ends with the extension of the file that it copies.
pub proof fn law_conflict_name_keeps_the_extension(
    name: Seq<char>,
    label: Seq<char>,
    timestamp: int,
    revision_id: RevisionId,
)
    ensures
        ({
            let extension = name.skip(extension_start(name));
            let copy = conflict_file_name(name, label, timestamp, revision_id);
            copy.len() >= extension.len() && copy.skip(copy.len() - extension.len()) == extension
        }),
{
    let extension = name.skip(extension_start(name));
    let copy = conflict_file_name(name, label, timestamp, revision_id);
    assert(copy.skip(copy.len() - extension.len()) =~= extension);
}

/// The name of a conflict copy fits in a component wherever the suffix and the extension do.
pub proof fn law_conflict_name_fits_in_a_component(
    name: Seq<char>,
    label: Seq<char>,
    timestamp: int,
    revision_id: RevisionId,
)
    requires
        utf8_len(conflict_suffix(label, timestamp, revision_id)) + utf8_len(
            name.skip(extension_start(name)),
        ) <= MAX_COMPONENT_BYTES,
    ensures
        utf8_len(conflict_file_name(name, label, timestamp, revision_id)) <= MAX_COMPONENT_BYTES,
{
    let start = extension_start(name);
    let extension = name.skip(start);
    let suffix = conflict_suffix(label, timestamp, revision_id);
    let room = (MAX_COMPONENT_BYTES - (utf8_len(suffix) + utf8_len(extension))) as nat;
    let stem = truncated(name.take(start), room);
    lemma_truncated_len(name.take(start), room);
    lemma_utf8_len_concat(stem, suffix);
    lemma_utf8_len_concat(stem + suffix, extension);
}

/// A device label in a conflict copy's name has at most the bytes allowed.
pub proof fn law_device_label_is_bounded(label: Seq<char>)
    ensures
        utf8_len(portable_label(label)) <= MAX_DEVICE_LABEL_BYTES,
{
    let sanitized = trim_dots(
        trim_end(trim_start(Seq::new(label.len(), |i: int| label_char(label[i])))),
    );
    lemma_truncated_len(sanitized, MAX_DEVICE_LABEL_BYTES as nat);
    lemma_truncated_len(seq!['d', 'e', 'v', 'i', 'c', 'e'], MAX_DEVICE_LABEL_BYTES as nat);
}

} // verus!
