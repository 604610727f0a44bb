//! Big-endian integers on byte sequences: the one encoding shared by every
//! wire format of this crate.

use vstd::prelude::*;

verus! {

/// The number that `bytes` spells, most significant byte first.
pub open spec fn be_value(bytes: Seq<u8>) -> nat
    decreases bytes.len(),
{
    if bytes.len() == 0 {
        0
    } else {
        be_value(bytes.drop_last()) * 256 + bytes.last() as nat
    }
}

/// The low `width` bytes of `value`, most significant byte first.
pub open spec fn be_bytes(value: nat, width: nat) -> Seq<u8>
    decreases width,
{
    if width == 0 {
        Seq::empty()
    } else {
        be_bytes(value / 256, (width - 1) as nat).push((value % 256) as u8)
    }
}

/// How many values fit in `width` bytes.
pub open spec fn byte_range(width: nat) -> nat
    decreases width,
{
    if width == 0 {
        1
    } else {
        256 * byte_range((width - 1) as nat)
    }
}

/// `bytes` with the big-endian `value` written over the two bytes at `at`.
pub open spec fn put16(bytes: Seq<u8>, at: int, value: u16) -> Seq<u8> {
    bytes.update(at, (value / 256) as u8).update(at + 1, (value % 256) as u8)
}

pub broadcast proof fn be_bytes_len(value: nat, width: nat)
    ensures
        #[trigger] be_bytes(value, width).len() == width,
    decreases width,
{
    if width > 0 {
        be_bytes_len(value / 256, (width - 1) as nat);
    }
}

/// A number fits in as many bytes as it was read from.
pub proof fn be_value_bound(bytes: Seq<u8>)
    ensures
        be_value(bytes) < byte_range(bytes.len()),
    decreases bytes.len(),
{
    if bytes.len() > 0 {
        be_value_bound(bytes.drop_last());
    }
}

/// Reading what was written gives the number back, where it fits.
pub proof fn be_value_of_be_bytes(value: nat, width: nat)
    requires
        value < byte_range(width),
    ensures
        be_value(be_bytes(value, width)) == value,
    decreases width,
{
    if width > 0 {
        be_value_of_be_bytes(value / 256, (width - 1) as nat);
        let bytes = be_bytes(value, width);
        assert(bytes.drop_last() =~= be_bytes(value / 256, (width - 1) as nat));
    }
}

/// Writing what was read gives the bytes back.
pub proof fn be_bytes_of_be_value(bytes: Seq<u8>)
    ensures
        be_bytes(be_value(bytes), bytes.len()) == bytes,
    decreases bytes.len(),
{
    if bytes.len() > 0 {
        be_bytes_of_be_value(bytes.drop_last());
        assert(bytes.drop_last().push(bytes.last()) =~= bytes);
    }
}

/// Each byte that is written is a digit of the number in base 256, the last
/// one its lowest.
pub proof fn be_bytes_are_digits(value: nat, width: nat, place: nat)
    requires
        place < width,
    ensures
        byte_range(place) > 0,
        be_bytes(value, width)[width - 1 - place] == value / byte_range(place) % 256,
    decreases place,
{
    broadcast use be_bytes_len;

    let fewer = be_bytes(value / 256, (width - 1) as nat);
    assert(fewer.len() == width - 1);
    assert(be_bytes(value, width) == fewer.push((value % 256) as u8));
    if place > 0 {
        let lower = (place - 1) as nat;
        be_bytes_are_digits(value / 256, (width - 1) as nat, lower);
        vstd::arithmetic::div_mod::lemma_div_denominator(
            value as int,
            256,
            byte_range(lower) as int,
        );
        assert(be_bytes(value, width)[width - 1 - place] == fewer[width - 2 - lower]);
        assert(byte_range(place) == 256 * byte_range(lower));
    } else {
        assert(byte_range(0) == 1);
        assert(value / byte_range(0) == value);
        assert(be_bytes(value, width)[width - 1] == (value % 256) as u8);
    }
}

/// The number in two bytes, spelled out.
pub proof fn be_value_two(bytes: Seq<u8>)
    requires
        bytes.len() == 2,
    ensures
        be_value(bytes) == bytes[0] * 256 + bytes[1],
{
    reveal_with_fuel(be_value, 3);
}

/// The number in four bytes, spelled out.
pub proof fn be_value_four(bytes: Seq<u8>)
    requires
        bytes.len() == 4,
    ensures
        be_value(bytes) == ((bytes[0] * 256 + bytes[1]) * 256 + bytes[2]) * 256 + bytes[3],
{
    reveal_with_fuel(be_value, 5);
}

/// The two bytes of a number, spelled out.
pub proof fn be_bytes_two(value: nat)
    ensures
        be_bytes(value, 2) == seq![(value / 256 % 256) as u8, (value % 256) as u8],
{
    reveal_with_fuel(be_bytes, 3);
}

/// The four bytes of a number, spelled out.
pub proof fn be_bytes_four(value: nat)
    ensures
        be_bytes(value, 4) == seq![
            (value / 256 / 256 / 256 % 256) as u8,
            (value / 256 / 256 % 256) as u8,
            (value / 256 % 256) as u8,
            (value % 256) as u8,
        ],
{
    reveal_with_fuel(be_bytes, 5);
}

/// Bytes that do not fit in `width` do not change what is written.
pub proof fn be_bytes_truncates(value: nat, width: nat)
    ensures
        byte_range(width) > 0,
        be_bytes(value, width) == be_bytes(value % byte_range(width), width),
    decreases width,
{
    if width > 0 {
        let w = (width - 1) as nat;
        be_bytes_truncates(value / 256, w);
        let r = byte_range(w);
        vstd::arithmetic::div_mod::lemma_mod_breakdown(value as int, 256, r as int);
        let low = value % (256 * r);
        assert(low as int == 256 * ((value / 256) % r) + value % 256);
        assert(low / 256 == (value / 256) % r && low % 256 == value % 256) by (nonlinear_arith)
            requires
                low as int == 256 * ((value / 256) % r) + value % 256,
                r > 0,
        ;
    }
}

/// Reads the two bytes at `at`.
pub fn read_u16(bytes: &[u8], at: usize) -> (value: u16)
    requires
        at + 2 <= bytes@.len(),
    ensures
        value == be_value(bytes@.subrange(at as int, at + 2)),
{
    proof {
        be_value_two(bytes@.subrange(at as int, at + 2));
    }
    bytes[at] as u16 * 256 + bytes[at + 1] as u16
}

/// Reads the four bytes at `at`.
pub fn read_u32(bytes: &[u8], at: usize) -> (value: u32)
    requires
        at + 4 <= bytes@.len(),
    ensures
        value == be_value(bytes@.subrange(at as int, at + 4)),
{
    proof {
        be_value_four(bytes@.subrange(at as int, at + 4));
    }
    ((bytes[at] as u32 * 256 + bytes[at + 1] as u32) * 256 + bytes[at + 2] as u32) * 256
        + bytes[at + 3] as u32
}

/// Reads the sixteen bytes at `at`.
pub fn read_u128(bytes: &[u8], at: usize) -> (value: u128)
    requires
        at + 16 <= bytes@.len(),
    ensures
        value == be_value(bytes@.subrange(at as int, at + 16)),
{
    let mut value: u128 = 0;
    let mut i: usize = 0;
    assert(bytes.len() == bytes@.len());
    while i < 16
        invariant
            i <= 16,
            at + 16 <= bytes@.len(),
            at + 16 <= usize::MAX,
            value == be_value(bytes@.subrange(at as int, at + i)),
        decreases 16 - i,
    {
        proof {
            let next = bytes@.subrange(at as int, at + i + 1);
            assert(next.drop_last() =~= bytes@.subrange(at as int, at + i));
            be_value_bound(next);
            assert(byte_range(i as nat + 1) <= 0x1_0000_0000_0000_0000_0000_0000_0000_0000) by {
                byte_range_grows(i as nat + 1, 16);
                reveal_with_fuel(byte_range, 17);
            }
        }
        value = value * 256 + bytes[at + i] as u128;
        i = i + 1;
    }
    value
}

/// More bytes hold at least as many values.
pub proof fn byte_range_grows(small: nat, large: nat)
    requires
        small <= large,
    ensures
        byte_range(small) <= byte_range(large),
    decreases large,
{
    if small < large {
        byte_range_grows(small, (large - 1) as nat);
    }
}

/// Appends `more` to `out`.
pub fn push_all(out: &mut Vec<u8>, more: &[u8])
    ensures
        final(out)@ == old(out)@ + more@,
{
    let ghost before = out@;
    out.extend_from_slice(more);
    assert(out@ =~= before + more@);
}

/// Appends the two bytes of `value`.
pub fn push_u16(out: &mut Vec<u8>, value: u16)
    ensures
        final(out)@ == old(out)@ + be_bytes(value as nat, 2),
{
    proof {
        be_bytes_two(value as nat);
    }
    out.push((value / 256) as u8);
    out.push((value % 256) as u8);
    assert(out@ =~= old(out)@ + be_bytes(value as nat, 2));
}

/// Appends the two low bytes of a length.
pub fn push_len16(out: &mut Vec<u8>, len: usize)
    ensures
        final(out)@ == old(out)@ + be_bytes(len as nat, 2),
{
    proof {
        be_bytes_truncates(len as nat, 2);
        reveal_with_fuel(byte_range, 3);
    }
    push_u16(out, (len % 65536) as u16);
}

/// Appends the four low bytes of a length.
pub fn push_len32(out: &mut Vec<u8>, len: usize)
    ensures
        final(out)@ == old(out)@ + be_bytes(len as nat, 4),
{
    proof {
        be_bytes_truncates(len as nat, 4);
        reveal_with_fuel(byte_range, 5);
    }
    push_u32(out, (len as u64 % 0x1_0000_0000) as u32);
}

/// Writes `value` over the two bytes at `at`.
pub fn write_u16(out: &mut Vec<u8>, at: usize, value: u16)
    requires
        at + 2 <= old(out)@.len(),
    ensures
        final(out)@ == put16(old(out)@, at as int, value),
{
    assert(out.len() == out@.len());
    out[at] = (value / 256) as u8;
    out[at + 1] = (value % 256) as u8;
}

/// Appends the four bytes of `value`.
pub fn push_u32(out: &mut Vec<u8>, value: u32)
    ensures
        final(out)@ == old(out)@ + be_bytes(value as nat, 4),
{
    proof {
        be_bytes_four(value as nat);
    }
    out.push((value / 0x100_0000) as u8);
    out.push((value / 0x1_0000 % 256) as u8);
    out.push((value / 0x100 % 256) as u8);
    out.push((value % 256) as u8);
    assert(out@ =~= old(out)@ + be_bytes(value as nat, 4));
}

/// Appends the sixteen bytes of `value`.
pub fn push_u128(out: &mut Vec<u8>, value: u128)
    ensures
        final(out)@ == old(out)@ + be_bytes(value as nat, 16),
{
    broadcast use be_bytes_len;

    let mut low_first: Vec<u8> = Vec::new();
    let mut rest: u128 = value;
    let mut i: usize = 0;
    while i < 16
        invariant
            i <= 16,
            low_first@.len() == i,
            be_bytes(value as nat, 16) == be_bytes(rest as nat, (16 - i) as nat)
                + low_first@.reverse(),
        decreases 16 - i,
    {
        let ghost before = low_first@;
        let ghost head = be_bytes(rest as nat / 256, (16 - i - 1) as nat);
        low_first.push((rest % 256) as u8);
        proof {
            assert(be_bytes(rest as nat, (16 - i) as nat) == head.push((rest % 256) as u8));
            assert(head.push((rest % 256) as u8) + before.reverse() =~= head
                + low_first@.reverse());
        }
        rest = rest / 256;
        i = i + 1;
    }
    assert(be_bytes(rest as nat, 0) =~= Seq::<u8>::empty());
    assert(be_bytes(value as nat, 16) =~= low_first@.reverse());
    let ghost start = out@;
    let mut left: usize = 16;
    while left > 0
        invariant
            left <= 16,
            low_first@.len() == 16,
            out@ == start + low_first@.reverse().subrange(0, 16 - left),
        decreases left,
    {
        left = left - 1;
        let ghost before = out@;
        out.push(low_first[left]);
        assert(out@ =~= start + low_first@.reverse().subrange(0, 16 - left));
    }
    assert(low_first@.reverse().subrange(0, 16) =~= low_first@.reverse());
}

} // verus!
