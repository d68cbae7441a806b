//! How things are written down: the names of conflict copies, the sizes of chunks, numbers, and
//! what a record may say.
use vstd::arithmetic::power2::{lemma_pow2_unfold, pow2};
use vstd::prelude::*;

use crate::conflict_name::{
    conflict_display, conflict_file_name, conflict_suffix, extension_start, extension_start_from,
    label_char, lemma_utf8_len_concat, portable_label, trim_dots, trim_end, trim_start, truncated,
    white_space,
};
use crate::content::{power_of_two, reference_bytes, size_problem};
use crate::ids::{uuid_bytes, RevisionId};
use crate::manifest::{manifest_problem, record_problem, total_size};
use crate::path::{join, lemma_split_join};
use crate::path_laws::is_unportable;
use crate::record::{ChunkRef, ManifestView, RecordView};
use crate::text::{decimal_int, decimal_nat, hex_text, utf8_len};

verus! {

/// What is left of a text that is cut to a number of bytes is its longest start with at most so
/// many.
pub proof fn law_cut_text_is_its_longest_start(text: Seq<char>, maximum: nat)
    ensures
        ({
            let cut = truncated(text, maximum);
            &&& cut.len() <= text.len()
            &&& cut == text.take(cut.len() as int)
            &&& utf8_len(cut) <= maximum
            &&& cut.len() < text.len() ==> utf8_len(text.take(cut.len() as int + 1)) > maximum
            &&& utf8_len(text) <= maximum ==> cut == text
        }),
    decreases text.len(),
{
    if utf8_len(text) <= maximum || text.len() == 0 {
        assert(text.take(text.len() as int) =~= text);
    } else {
        let front = text.drop_last();
        law_cut_text_is_its_longest_start(front, maximum);
        let cut = truncated(front, maximum);
        assert(front.take(cut.len() as int) =~= text.take(cut.len() as int));
        if cut.len() < front.len() {
            assert(front.take(cut.len() as int + 1) =~= text.take(cut.len() as int + 1));
        } else {
            assert(text.take(cut.len() as int + 1) =~= text);
        }
    }
}

proof fn lemma_extension(name: Seq<char>, end: int)
    requires
        0 <= end <= name.len(),
        forall|i: int| end <= i < name.len() ==> #[trigger] name[i] != '.',
    ensures
        ({
            let start = extension_start_from(name, end);
            &&& 0 <= start <= name.len()
            &&& start < name.len() ==> {
                &&& 0 < start
                &&& start + 1 < name.len()
                &&& name[start] == '.'
                &&& forall|i: int| start < i < name.len() ==> #[trigger] name[i] != '.'
            }
            &&& start == name.len() ==> forall|i: int|
                0 < i < name.len() - 1 && #[trigger] name[i] == '.' ==> exists|j: int|
                    i < j < name.len() && #[trigger] name[j] == '.'
        }),
    decreases end,
{
    if end > 0 {
        if name[end - 1] == '.' {
            if !(end - 1 > 0 && end < name.len()) {
                assert forall|i: int|
                    0 < i < name.len() - 1 && #[trigger] name[i] == '.' implies exists|j: int|
                    i < j < name.len() && #[trigger] name[j] == '.' by {
                    assert(name[end - 1] == '.');
                    if i >= end {
                        assert(name[i] != '.');
                    }
                }
            }
        } else {
            assert forall|i: int| end - 1 <= i < name.len() implies #[trigger] name[i] != '.' by {}
            lemma_extension(name, end - 1);
        }
    }
}

/// The extension of a name is what follows its last dot, and the dot, unless the name starts or
/// ends with that dot: a hidden file has no extension by its first dot.
pub proof fn law_extension_starts_at_the_last_dot(name: Seq<char>, dot: int)
    requires
        0 <= dot < name.len(),
        name[dot] == '.',
        forall|i: int| dot < i < name.len() ==> #[trigger] name[i] != '.',
    ensures
        extension_start(name) == if 0 < dot && dot + 1 < name.len() {
            dot
        } else {
            name.len() as int
        },
{
    lemma_extension(name, name.len() as int);
    let start = extension_start(name);
    if start < name.len() {
        if start < dot {
            assert(name[dot] != '.');
        } else if dot < start {
            assert(name[start] != '.');
        }
    } else if 0 < dot && dot + 1 < name.len() {
        assert(name[dot] == '.');
        let j = choose|j: int| dot < j < name.len() && #[trigger] name[j] == '.';
        assert(name[j] != '.');
    }
}

/// A name without a dot has no extension.
pub proof fn law_name_without_a_dot_has_no_extension(name: Seq<char>)
    requires
        forall|i: int| 0 <= i < name.len() ==> #[trigger] name[i] != '.',
    ensures
        extension_start(name) == name.len(),
{
    lemma_extension(name, name.len() as int);
    let start = extension_start(name);
    if start < name.len() {
        assert(name[start] != '.');
    }
}

/// What is put into the name of a conflict copy says that it is one, of which device, of which
/// time and of which revision.
pub proof fn law_conflict_suffix_says_whose_copy_it_is(
    label: Seq<char>,
    timestamp: int,
    revision_id: RevisionId,
)
    ensures
        conflict_suffix(label, timestamp, revision_id) == " (Orbit conflict "@ + portable_label(
            label,
        ) + " "@ + decimal_int(timestamp) + " "@ + hex_text(
            uuid_bytes(revision_id.value).take(4),
        ) + ")"@,
{
    reveal_strlit(" (Orbit conflict ");
    reveal_strlit(" ");
    reveal_strlit(")");
    assert(" (Orbit conflict "@ =~= seq![
        ' ',
        '(',
        'O',
        'r',
        'b',
        'i',
        't',
        ' ',
        'c',
        'o',
        'n',
        'f',
        'l',
        'i',
        'c',
        't',
        ' ',
    ]);
    assert(" "@ =~= seq![' ']);
    assert(")"@ =~= seq![')']);
}

/// The name of a conflict copy is the name of the file with the suffix before its extension; the
/// part before is cut only where the whole would have more than 255 bytes, and then no more than
/// it takes.
pub proof fn law_conflict_name_is_the_name_with_a_suffix(
    name: Seq<char>,
    label: Seq<char>,
    timestamp: int,
    revision_id: RevisionId,
)
    ensures
        ({
            let start = extension_start(name);
            let extension = name.skip(start);
            let suffix = conflict_suffix(label, timestamp, revision_id);
            let copy = conflict_file_name(name, label, timestamp, revision_id);
            let kept = copy.len() - suffix.len() - extension.len();
            &&& 0 <= kept <= start
            &&& copy == name.take(kept) + suffix + extension
            &&& utf8_len(name) + utf8_len(suffix) <= 255 ==> copy == name.take(start) + suffix
                + extension
            &&& kept < start ==> utf8_len(name.take(kept + 1)) + utf8_len(suffix) + utf8_len(
                extension,
            ) > 255
        }),
{
    lemma_extension(name, name.len() as int);
    let start = extension_start(name);
    let stem = name.take(start);
    let extension = name.skip(start);
    let suffix = conflict_suffix(label, timestamp, revision_id);
    let room = 255 - (utf8_len(suffix) + utf8_len(extension));
    let maximum: nat = if room < 0 {
        0
    } else {
        room as nat
    };
    law_cut_text_is_its_longest_start(stem, maximum);
    let cut = truncated(stem, maximum);
    assert(stem.take(cut.len() as int) =~= name.take(cut.len() as int));
    assert(name =~= stem + extension);
    lemma_utf8_len_concat(stem, extension);
    if cut.len() < start {
        assert(stem.take(cut.len() as int + 1) =~= name.take(cut.len() as int + 1));
    }
    if utf8_len(name) + utf8_len(suffix) <= 255 {
        assert(cut == stem);
    }
    assert(conflict_file_name(name, label, timestamp, revision_id) =~= cut + suffix + extension);
}

/// A conflict copy stands beside the file: every directory of its path is that of the file, and
/// its name is the conflict name of the file.
pub proof fn law_conflict_copy_stands_beside_the_file(
    directories: Seq<Seq<char>>,
    name: Seq<char>,
    label: Seq<char>,
    timestamp: int,
    revision_id: RevisionId,
)
    requires
        !name.contains('/'),
        forall|i: int|
            0 <= i < directories.len() ==> !(#[trigger] directories[i]).contains('/'),
    ensures
        conflict_display(join(directories.push(name)), label, timestamp, revision_id) == join(
            directories.push(conflict_file_name(name, label, timestamp, revision_id)),
        ),
{
    let parts = directories.push(name);
    assert forall|i: int| 0 <= i < parts.len() implies !(#[trigger] parts[i]).contains('/') by {
        if i < directories.len() {
            assert(parts[i] == directories[i]);
        }
    }
    lemma_split_join(parts);
    let copy = conflict_file_name(name, label, timestamp, revision_id);
    let after = directories.push(copy);
    assert(parts.drop_last() =~= directories);
    assert(after.drop_last() =~= directories);
    assert(parts.last() == name);
    assert(after.last() == copy);
}

/// A label that is portable as it is stays as it is: one that is not empty, has no character
/// that is not portable and no separator, starts and ends with no white space, ends with no dot,
/// and has at most 48 bytes.
pub proof fn law_portable_label_stays_as_it_is(label: Seq<char>)
    requires
        label.len() > 0,
        forall|i: int|
            0 <= i < label.len() ==> !is_unportable(#[trigger] label[i]) && label[i] != '/',
        !white_space(label[0]),
        !white_space(label[label.len() - 1]),
        label[label.len() - 1] != '.',
        utf8_len(label) <= 48,
    ensures
        portable_label(label) == label,
{
    let mapped = Seq::new(label.len(), |i: int| label_char(label[i]));
    assert(mapped =~= label) by {
        assert forall|i: int| 0 <= i < label.len() implies mapped[i] == label[i] by {
            assert(!is_unportable(label[i]));
        }
    }
    assert(label.last() == label[label.len() - 1]);
    assert(trim_start(label) == label);
    assert(trim_end(label) == label);
    assert(trim_dots(label) == label);
    law_cut_text_is_its_longest_start(label, 48);
}

proof fn lemma_power(value: nat, exponent: nat)
    requires
        value == pow2(exponent),
    ensures
        power_of_two(value),
    decreases exponent,
{
    if exponent == 0 {
        vstd::arithmetic::power2::lemma2_to64();
    } else {
        lemma_pow2_unfold(exponent);
        let half = pow2((exponent - 1) as nat);
        vstd::arithmetic::power2::lemma_pow2_pos((exponent - 1) as nat);
        assert(value == 2 * half);
        lemma_power(half, (exponent - 1) as nat);
        assert(value / 2 == half);
        assert(value % 2 == 0);
    }
}

proof fn lemma_exponent(value: nat) -> (exponent: nat)
    requires
        power_of_two(value),
    ensures
        value == pow2(exponent),
    decreases value,
{
    if value == 1 {
        vstd::arithmetic::power2::lemma2_to64();
        0
    } else {
        let exponent = lemma_exponent(value / 2);
        lemma_pow2_unfold(exponent + 1);
        exponent + 1
    }
}

/// The sizes of chunks are accepted exactly where the minimum is from 64 bytes to 1 MiB, the
/// average a power of two from 256 bytes to 4 MiB, the maximum from 1 KiB to 16 MiB, and they
/// are in order.
pub proof fn law_chunk_sizes_are_in_range_and_order(minimum: usize, average: usize, maximum: usize)
    ensures
        size_problem(minimum, average, maximum) is None <==> {
            &&& 64 <= minimum <= 1_048_576
            &&& 256 <= average <= 4_194_304
            &&& 1024 <= maximum <= 16_777_216
            &&& minimum <= average <= maximum
            &&& exists|exponent: nat| #[trigger] pow2(exponent) == average
        },
{
    if power_of_two(average as nat) {
        let exponent = lemma_exponent(average as nat);
        assert(pow2(exponent) == average);
    }
    if exists|exponent: nat| #[trigger] pow2(exponent) == average {
        let exponent = choose|exponent: nat| #[trigger] pow2(exponent) == average;
        lemma_power(average as nat, exponent);
    }
}

/// The number that decimal digits write.
pub open spec fn number_of(digits: Seq<char>) -> int
    decreases digits.len(),
{
    if digits.len() == 0 {
        0
    } else {
        number_of(digits.drop_last()) * 10 + (digits.last() as u32 - 48)
    }
}

/// A number is written in decimal digits, without a leading zero, and they give the number back.
pub proof fn law_decimal_text_gives_the_number_back(value: nat)
    ensures
        number_of(decimal_nat(value)) == value,
        decimal_nat(value).len() > 0,
        forall|i: int|
            0 <= i < decimal_nat(value).len() ==> '0' <= #[trigger] decimal_nat(value)[i]
                && decimal_nat(value)[i] <= '9',
        decimal_nat(value).len() > 1 ==> decimal_nat(value)[0] != '0',
        decimal_int(value as int) == decimal_nat(value),
        value > 0 ==> decimal_int(-(value as int)) == seq!['-'] + decimal_nat(value),
    decreases value,
{
    let text = decimal_nat(value);
    if value < 10 {
        assert(text.drop_last() =~= seq![]);
        assert(number_of(text.drop_last()) == 0);
        assert(text.last() as u32 == 48 + value);
    } else {
        law_decimal_text_gives_the_number_back(value / 10);
        let front = decimal_nat(value / 10);
        assert(text.drop_last() =~= front);
        assert(text.last() as u32 == 48 + value % 10);
        assert forall|i: int| 0 <= i < text.len() implies '0' <= #[trigger] text[i] && text[i]
            <= '9' by {
            if i < front.len() {
                assert(text[i] == front[i]);
            }
        }
        assert(text[0] == front[0]);
        if front.len() == 1 {
            assert(number_of(front) == value / 10);
            assert(front.drop_last() =~= seq![]);
            assert(number_of(front.drop_last()) == 0);
            assert(front.last() == front[0]);
        }
    }
}

proof fn lemma_total_size(chunks: Seq<ChunkRef>)
    ensures
        total_size(chunks) matches Ok(total) ==> {
            &&& total == reference_bytes(chunks)
            &&& forall|i: int| 0 <= i < chunks.len() ==> (#[trigger] chunks[i]).plaintext_size > 0
        },
        (forall|i: int| 0 <= i < chunks.len() ==> (#[trigger] chunks[i]).plaintext_size > 0)
            && reference_bytes(chunks) <= u64::MAX ==> total_size(chunks) is Ok,
        reference_bytes(chunks) >= 0,
    decreases chunks.len(),
{
    if chunks.len() > 0 {
        let front = chunks.drop_last();
        lemma_total_size(front);
        assert(chunks[chunks.len() - 1] == chunks.last());
        if total_size(chunks) is Ok {
            assert forall|i: int| 0 <= i < chunks.len() implies (
            #[trigger] chunks[i]).plaintext_size > 0 by {
                if i < front.len() {
                    assert(front[i] == chunks[i]);
                }
            }
        }
        if forall|i: int| 0 <= i < chunks.len() ==> (#[trigger] chunks[i]).plaintext_size > 0 {
            assert forall|i: int| 0 <= i < front.len() implies (#[trigger] front[i]).plaintext_size
                > 0 by {
                assert(chunks[i] == front[i]);
            }
        }
    }
}

/// A file may be put on record exactly where its identifiers are not nil, it has at most a
/// million chunks, none of them empty, and their sizes add up to its own.
pub proof fn law_whole_files_may_be_recorded(manifest: ManifestView)
    ensures
        manifest_problem(manifest) is None <==> {
            &&& manifest.file_id.value != 0
            &&& manifest.revision_id.value != 0
            &&& manifest.chunks.len() <= 1_000_000
            &&& forall|i: int|
                0 <= i < manifest.chunks.len() ==> (
                #[trigger] manifest.chunks[i]).plaintext_size > 0
            &&& reference_bytes(manifest.chunks) == manifest.size
        },
{
    lemma_total_size(manifest.chunks);
}

/// A record may be made exactly where its file may be recorded, or its deletion has identifiers,
/// and some device has made the change.
pub proof fn law_records_have_a_version(record: RecordView)
    ensures
        record_problem(record) is None <==> {
            &&& record matches RecordView::File(manifest) ==> manifest_problem(manifest) is None
            &&& record.file_id().value != 0
            &&& record.revision_id().value != 0
            &&& record.version().len() > 0
        },
{
    match record {
        RecordView::File(manifest) => {
            law_whole_files_may_be_recorded(manifest);
        },
        RecordView::Tombstone(_) => {},
    }
}

/// White space is what Unicode calls so: the tab and what follows it up to the carriage return, the
/// spaces of every width, the separators of lines and paragraphs, and the next line.
pub proof fn law_white_space_is_that_of_unicode(character: char)
    ensures
        white_space(character) <==> {
            let code = character as int;
            ||| 9 <= code <= 13
            ||| code == 32
            ||| code == 133
            ||| code == 160
            ||| code == 5760
            ||| 8192 <= code <= 8202
            ||| code == 8232
            ||| code == 8233
            ||| code == 8239
            ||| code == 8287
            ||| code == 12288
        },
{
}

} // verus!
