//! One sample's payload window: the `bits` adjacent bits from bit `depth` up.
//!
//! Only the low byte of a sample takes part, so a sample is a `u8` here; a
//! JPEG coefficient lends its low byte.

use vstd::prelude::*;
use crate::bitqueue::byte_bit;
use crate::bitqueue::lemma_bit_is_0_or_1;
use crate::bitqueue::lemma_byte_with_bit;
use crate::bitqueue::byte_with_bit;

verus! {

/// A byte whose `bits` low bits are set and no other.
pub open spec fn low_mask(bits: nat) -> u8 {
    0xffu8 >> ((8 - bits) as u8)
}

/// A byte whose bits `depth .. depth + bits` are set and no other.
pub open spec fn window_mask(depth: nat, bits: nat) -> u8 {
    low_mask(bits) << (depth as u8)
}

/// `sample` with its window replaced by the low bits of `value`.
pub open spec fn put_field(sample: u8, value: u8, depth: nat, bits: nat) -> u8 {
    (sample & !window_mask(depth, bits)) | (value << (depth as u8))
}

/// The window of `sample`, moved down to bit 0.
pub open spec fn take_field(sample: u8, depth: nat, bits: nat) -> u8 {
    (sample >> (depth as u8)) & low_mask(bits)
}

/// Whether `value` has no bit set at or above bit `bits`.
pub open spec fn fits(value: u8, bits: nat) -> bool {
    value & !low_mask(bits) == 0
}

/// The value that carries a run of payload bits in a window of `n` bits: the
/// first bit of `chunk` at bit `n - 1`, the next one below it, and so on; the
/// bits that `chunk` does not reach are 0.
pub open spec fn pack(chunk: Seq<bool>, n: nat) -> u8
    decreases chunk.len(),
{
    if chunk.len() == 0 {
        0u8
    } else {
        let rest = pack(chunk.drop_last(), n);
        if chunk.last() {
            byte_with_bit(rest, n - chunk.len(), true)
        } else {
            rest
        }
    }
}

/// The `n` payload bits that a window value carries, in payload order: bit
/// `n - 1` of `value` first, bit 0 last.
pub open spec fn unpack(value: u8, n: nat) -> Seq<bool> {
    Seq::new(n, |t: int| byte_bit(value, n - 1 - t))
}

/// The `n` low bits of `value` in reverse order; the other bits are 0.
pub open spec fn reverse_low_bits(value: u8, n: nat) -> u8 {
    pack(Seq::new(n, |t: int| byte_bit(value, t)), n)
}

proof fn lemma_field_ops(s: u8, v: u8, d: u8, w: u8, j: u8)
    by (bit_vector)
    requires
        1 <= w,
        d + w <= 8,
        j < 8,
    ensures
        v & !(0xffu8 >> ((8u8 - w) as u8)) == 0 ==> (((s & !((0xffu8 >> ((8u8 - w) as u8)) << d)) | (v << d))
            >> j) & 1u8 == (if d <= j && j < d + w {
            (v >> ((j - d) as u8)) & 1u8
        } else {
            (s >> j) & 1u8
        }),
        (((s >> d) & (0xffu8 >> ((8u8 - w) as u8))) >> j) & 1u8 == (if j < w {
            (s >> ((j + d) as u8)) & 1u8
        } else {
            0u8
        }),
        ((s >> d) & (0xffu8 >> ((8u8 - w) as u8))) & !(0xffu8 >> ((8u8 - w) as u8)) == 0,
{
}

proof fn lemma_fits_by_bits(v: u8, w: u8)
    by (bit_vector)
    requires
        1 <= w <= 8,
        w <= 1 ==> (v >> 1u8) & 1u8 == 0,
        w <= 2 ==> (v >> 2u8) & 1u8 == 0,
        w <= 3 ==> (v >> 3u8) & 1u8 == 0,
        w <= 4 ==> (v >> 4u8) & 1u8 == 0,
        w <= 5 ==> (v >> 5u8) & 1u8 == 0,
        w <= 6 ==> (v >> 6u8) & 1u8 == 0,
        w <= 7 ==> (v >> 7u8) & 1u8 == 0,
    ensures
        v & !(0xffu8 >> ((8u8 - w) as u8)) == 0,
{
}

/// A byte fits in `bits` bits when its bits from `bits` up are 0.
pub proof fn lemma_fits(value: u8, bits: nat)
    requires
        1 <= bits <= 8,
        forall|j: int| bits <= j < 8 ==> !byte_bit(value, j),
    ensures
        fits(value, bits),
{
    assert forall|j: u8| bits <= j < 8 implies #[trigger] (value >> j) & 1u8 == 0 by {
        lemma_bit_is_0_or_1(value, j);
        assert(!byte_bit(value, j as int));
    }
    lemma_fits_by_bits(value, bits as u8);
}

/// Bit by bit, what [`put_field`] gives: inside the window the bits of
/// `value`, outside it the bits of `sample`.
pub proof fn lemma_put_field_bits(sample: u8, value: u8, depth: nat, bits: nat)
    requires
        1 <= bits,
        depth + bits <= 8,
        fits(value, bits),
    ensures
        forall|j: int|
            0 <= j < 8 ==> #[trigger] byte_bit(put_field(sample, value, depth, bits), j) == (if depth <= j < depth
                + bits {
                byte_bit(value, j - depth)
            } else {
                byte_bit(sample, j)
            }),
{
    assert forall|j: int| 0 <= j < 8 implies #[trigger] byte_bit(put_field(sample, value, depth, bits), j) == (if depth
        <= j < depth + bits {
        byte_bit(value, j - depth)
    } else {
        byte_bit(sample, j)
    }) by {
        lemma_field_ops(sample, value, depth as u8, bits as u8, j as u8);
    }
}

/// Bit by bit, what [`take_field`] gives: the window's bits from bit 0 up,
/// and 0 above them.
pub proof fn lemma_take_field_bits(sample: u8, depth: nat, bits: nat)
    requires
        1 <= bits,
        depth + bits <= 8,
    ensures
        fits(take_field(sample, depth, bits), bits),
        forall|j: int|
            0 <= j < 8 ==> #[trigger] byte_bit(take_field(sample, depth, bits), j) == (j < bits && byte_bit(
                sample,
                j + depth,
            )),
{
    lemma_field_ops(sample, 0, depth as u8, bits as u8, 0);
    assert forall|j: int| 0 <= j < 8 implies #[trigger] byte_bit(take_field(sample, depth, bits), j) == (j < bits
        && byte_bit(sample, j + depth)) by {
        lemma_field_ops(sample, 0, depth as u8, bits as u8, j as u8);
    }
}

/// Bit by bit, what [`pack`] gives: bit `j` is payload bit `n - 1 - j` where
/// the chunk reaches that far, and 0 elsewhere.
pub proof fn lemma_pack_bits(chunk: Seq<bool>, n: nat)
    requires
        chunk.len() <= n <= 8,
    ensures
        forall|j: int|
            0 <= j < 8 ==> #[trigger] byte_bit(pack(chunk, n), j) == (0 <= n - 1 - j < chunk.len() && chunk[n - 1 - j]),
    decreases chunk.len(),
{
    if chunk.len() == 0 {
        assert forall|j: int| 0 <= j < 8 implies !#[trigger] byte_bit(0u8, j) by {
            crate::bitqueue::lemma_zero_byte(j as u8);
        }
    } else {
        let rest = chunk.drop_last();
        lemma_pack_bits(rest, n);
        lemma_byte_with_bit(pack(rest, n), n - chunk.len(), true);
        assert forall|j: int| 0 <= j < 8 implies #[trigger] byte_bit(pack(chunk, n), j) == (0 <= n - 1 - j
            < chunk.len() && chunk[n - 1 - j]) by {
            if 0 <= n - 1 - j < rest.len() {
                assert(rest[n - 1 - j] == chunk[n - 1 - j]);
            }
        }
    }
}

/// A packed chunk fits the window it was packed for.
pub proof fn lemma_pack_fits(chunk: Seq<bool>, n: nat)
    requires
        chunk.len() <= n,
        1 <= n <= 8,
    ensures
        fits(pack(chunk, n), n),
{
    lemma_pack_bits(chunk, n);
    lemma_fits(pack(chunk, n), n);
}

/// What was packed into a window comes out of it: the bits that a stored
/// value carries begin with the chunk that was packed.
pub proof fn lemma_unpack_pack(sample: u8, chunk: Seq<bool>, depth: nat, bits: nat)
    requires
        1 <= bits,
        depth + bits <= 8,
        chunk.len() <= bits,
    ensures
        unpack(take_field(put_field(sample, pack(chunk, bits), depth, bits), depth, bits), bits).take(
            chunk.len() as int,
        ) == chunk,
{
    let v = pack(chunk, bits);
    lemma_pack_bits(chunk, bits);
    lemma_pack_fits(chunk, bits);
    let stored = put_field(sample, v, depth, bits);
    lemma_put_field_bits(sample, v, depth, bits);
    lemma_take_field_bits(stored, depth, bits);
    let got = unpack(take_field(stored, depth, bits), bits).take(chunk.len() as int);
    assert forall|t: int| 0 <= t < chunk.len() implies got[t] == chunk[t] by {
        let j = bits - 1 - t;
        assert(byte_bit(take_field(stored, depth, bits), j) == byte_bit(stored, j + depth));
        assert(byte_bit(stored, j + depth) == byte_bit(v, j));
    }
    assert(got =~= chunk);
}

/// The bits of `sample` outside the window.
pub open spec fn outside(sample: u8, depth: nat, bits: nat) -> u8 {
    sample & !window_mask(depth, bits)
}

proof fn lemma_outside_ops(s: u8, v: u8, d: u8, w: u8)
    by (bit_vector)
    requires
        1 <= w,
        d + w <= 8,
        v & !(0xffu8 >> ((8u8 - w) as u8)) == 0,
    ensures
        ((s & !((0xffu8 >> ((8u8 - w) as u8)) << d)) | (v << d)) & !((0xffu8 >> ((8u8 - w) as u8)) << d) == s & !((0xffu8
            >> ((8u8 - w) as u8)) << d),
{
}

/// Storing a value that fits the window changes no bit outside it.
pub proof fn lemma_put_field_outside(sample: u8, value: u8, depth: nat, bits: nat)
    requires
        1 <= bits,
        depth + bits <= 8,
        fits(value, bits),
    ensures
        outside(put_field(sample, value, depth, bits), depth, bits) == outside(sample, depth, bits),
{
    lemma_outside_ops(sample, value, depth as u8, bits as u8);
}

/// Stores `value` in the window of `sample`.
pub fn write_field(sample: u8, value: u8, depth: usize, bits: usize) -> (r: u8)
    requires
        1 <= bits,
        depth + bits <= 8,
    ensures
        r == put_field(sample, value, depth as nat, bits as nat),
{
    let mask: u8 = (0xffu8 >> ((8 - bits) as u8)) << (depth as u8);
    (sample & !mask) | (value << (depth as u8))
}

/// Reads the window of `sample`.
pub fn read_field(sample: u8, depth: usize, bits: usize) -> (r: u8)
    requires
        1 <= bits,
        depth + bits <= 8,
    ensures
        r == take_field(sample, depth as nat, bits as nat),
{
    (sample >> (depth as u8)) & (0xffu8 >> ((8 - bits) as u8))
}

/// Reverses the `n` low bits of `value` and clears the others.
pub fn reverse_bits(value: u8, n: usize) -> (r: u8)
    requires
        n <= 8,
    ensures
        r == reverse_low_bits(value, n as nat),
{
    let ghost all = Seq::new(n as nat, |t: int| byte_bit(value, t));
    let mut r: u8 = 0;
    let mut t: usize = 0;
    assert(all.take(0) =~= Seq::<bool>::empty());
    while t < n
        invariant
            t <= n <= 8,
            all == Seq::new(n as nat, |t: int| byte_bit(value, t)),
            r == pack(all.take(t as int), n as nat),
        decreases n - t,
    {
        let bit: bool = (value >> (t as u8)) & 1u8 == 1u8;
        assert(all.take(t + 1).drop_last() =~= all.take(t as int));
        assert(all.take(t + 1).last() == bit);
        if bit {
            r = r | (1u8 << ((n - 1 - t) as u8));
        }
        t = t + 1;
    }
    assert(all.take(n as int) =~= all);
    r
}

} // verus!
