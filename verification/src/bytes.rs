//! Byte strings and big-endian integers.
use vstd::prelude::*;

verus! {

/// Tests whether two byte strings are equal.
pub fn bytes_equal(left: &[u8], right: &[u8]) -> (equal: bool)
    ensures
        equal == (left@ == right@),
{
    if left.len() != right.len() {
        return false;
    }
    let mut index: usize = 0;
    while index < left.len()
        invariant
            index <= left.len(),
            left.len() == right.len(),
            forall|i: int| 0 <= i < index ==> left@[i] == right@[i],
        decreases left.len() - index,
    {
        if left[index] != right[index] {
            return false;
        }
        index += 1;
    }
    assert(left@ =~= right@);
    true
}

/// Appends `suffix` to `target`.
pub fn append_bytes(target: &mut Vec<u8>, suffix: &[u8])
    ensures
        final(target)@ == old(target)@ + suffix@,
{
    let mut index: usize = 0;
    let ghost start = target@;
    while index < suffix.len()
        invariant
            index <= suffix.len(),
            target@ == start + suffix@.take(index as int),
        decreases suffix.len() - index,
    {
        target.push(suffix[index]);
        proof {
            assert(suffix@.take(index + 1) =~= suffix@.take(index as int).push(suffix@[index as int]));
        }
        index += 1;
    }
    assert(suffix@.take(index as int) =~= suffix@);
}

/// A copy of `bytes`.
pub fn copy_bytes(bytes: &[u8]) -> (copy: Vec<u8>)
    ensures
        copy@ == bytes@,
{
    let mut copy: Vec<u8> = Vec::new();
    append_bytes(&mut copy, bytes);
    assert(copy@ =~= bytes@);
    copy
}

/// The value that `digits` has as a big-endian integer.
pub open spec fn be_value(digits: Seq<u8>) -> nat
    decreases digits.len(),
{
    if digits.len() == 0 {
        0
    } else {
        be_value(digits.drop_last()) * 256 + digits.last() as nat
    }
}

/// The big-endian representation of `value` in `width` bytes.
pub open spec fn be_bytes(value: nat, width: nat) -> Seq<u8>
    decreases width,
{
    if width == 0 {
        seq![]
    } else {
        be_bytes(value / 256, (width - 1) as nat).push((value % 256) as u8)
    }
}

/// The number of values that `width` bytes can hold.
pub open spec fn be_bound(width: nat) -> nat
    decreases width,
{
    if width == 0 {
        1
    } else {
        256 * be_bound((width - 1) as nat)
    }
}

/// Big-endian bytes have the requested width.
pub proof fn lemma_be_bytes_len(value: nat, width: nat)
    ensures
        be_bytes(value, width).len() == width,
    decreases width,
{
    if width > 0 {
        lemma_be_bytes_len(value / 256, (width - 1) as nat);
    }
}

/// Reading back the big-endian bytes of a value gives the value.
pub proof fn lemma_be_value_of_be_bytes(value: nat, width: nat)
    requires
        value < be_bound(width),
    ensures
        be_value(be_bytes(value, width)) == value,
    decreases width,
{
    if width > 0 {
        lemma_be_value_of_be_bytes(value / 256, (width - 1) as nat);
        let bytes = be_bytes(value, width);
        assert(bytes.drop_last() =~= be_bytes(value / 256, (width - 1) as nat));
    }
}

/// A byte string is the big-endian representation of its value.
pub proof fn lemma_be_bytes_of_be_value(digits: Seq<u8>)
    ensures
        be_bytes(be_value(digits), digits.len()) == digits,
        be_value(digits) < be_bound(digits.len()),
    decreases digits.len(),
{
    if digits.len() > 0 {
        lemma_be_bytes_of_be_value(digits.drop_last());
        let high = be_value(digits.drop_last());
        assert((high * 256 + digits.last()) / 256 == high);
        assert((high * 256 + digits.last()) % 256 == digits.last());
        assert(digits =~= digits.drop_last().push(digits.last()));
    }
}

/// The bounds of the widths in use.
pub proof fn lemma_be_bounds()
    ensures
        be_bound(2) == 0x1_0000,
        be_bound(4) == 0x1_0000_0000,
        be_bound(8) == 0x1_0000_0000_0000_0000,
        be_bound(16) == 0x1_0000_0000_0000_0000_0000_0000_0000_0000,
{
    reveal_with_fuel(be_bound, 17);
}

/// The big-endian representation of `value` in `width` bytes.
pub fn be_encode(value: u128, width: usize) -> (bytes: Vec<u8>)
    requires
        width <= 16,
    ensures
        bytes@ == be_bytes(value as nat, width as nat),
{
    let mut reversed: Vec<u8> = Vec::new();
    let mut rest: u128 = value;
    let mut index: usize = 0;
    while index < width
        invariant
            index <= width,
            reversed@.len() == index,
            be_bytes(value as nat, width as nat) == be_bytes(rest as nat, (width - index) as nat)
                + reversed@.reverse(),
        decreases width - index,
    {
        let ghost before = reversed@;
        let digit: u8 = (rest % 256) as u8;
        reversed.push(digit);
        proof {
            assert(reversed@.reverse() =~= seq![digit] + before.reverse());
            assert(be_bytes(rest as nat, (width - index) as nat) =~= be_bytes(
                (rest / 256) as nat,
                (width - index - 1) as nat,
            ).push(digit));
            assert(be_bytes((rest / 256) as nat, (width - index - 1) as nat).push(digit)
                + before.reverse() =~= be_bytes((rest / 256) as nat, (width - index - 1) as nat)
                + (seq![digit] + before.reverse()));
        }
        rest = rest / 256;
        index += 1;
    }
    let mut bytes: Vec<u8> = Vec::new();
    let mut left: usize = width;
    while left > 0
        invariant
            left <= width,
            reversed@.len() == width,
            bytes@ == reversed@.reverse().take(width - left),
        decreases left,
    {
        left -= 1;
        bytes.push(reversed[left]);
        proof {
            assert(reversed@.reverse().take(width - left) =~= reversed@.reverse().take(
                width - left - 1,
            ).push(reversed@.reverse()[width - left - 1]));
        }
    }
    proof {
        assert(be_bytes(rest as nat, 0) =~= seq![]);
        assert(bytes@ =~= be_bytes(value as nat, width as nat));
    }
    bytes
}

/// The value of a big-endian integer of at most sixteen bytes.
pub fn be_decode(digits: &[u8]) -> (value: u128)
    requires
        digits@.len() <= 16,
    ensures
        value == be_value(digits@),
{
    let mut value: u128 = 0;
    let mut index: usize = 0;
    assert(digits@.take(0) =~= seq![]);
    while index < digits.len()
        invariant
            index <= digits.len() <= 16,
            value == be_value(digits@.take(index as int)),
        decreases digits.len() - index,
    {
        proof {
            let next = digits@.take(index + 1);
            lemma_be_bytes_of_be_value(next);
            lemma_be_bound_monotone(index as nat + 1, 16);
            lemma_be_bounds();
            assert(next.drop_last() =~= digits@.take(index as int));
            assert(next.last() == digits@[index as int]);
        }
        value = value * 256 + digits[index] as u128;
        index += 1;
    }
    assert(digits@.take(index as int) =~= digits@);
    value
}

proof fn lemma_be_bound_monotone(small: nat, large: nat)
    requires
        small <= large,
    ensures
        be_bound(small) <= be_bound(large),
    decreases large,
{
    if small < large {
        lemma_be_bound_monotone(small, (large - 1) as nat);
    }
}

/// Byte strings, one after the other.
pub open spec fn joined(parts: Seq<Seq<u8>>) -> Seq<u8>
    decreases parts.len(),
{
    if parts.len() == 0 {
        seq![]
    } else {
        joined(parts.drop_last()) + parts.last()
    }
}

} // verus!
