//! Moving payload bits between a queue and a window value, and drawing the
//! steps of the walk.

use vstd::prelude::*;
use crate::bitqueue::BitQueue;
use crate::bitqueue::NoMoreData;
use crate::bitqueue::byte_bit;
use crate::bitqueue::overwrite;
use crate::sample::pack;
use crate::stepper::Stepper;
use crate::stepper::step_of;

verus! {

/// The smaller of two numbers.
pub open spec fn min(a: int, b: int) -> int {
    if a <= b {
        a
    } else {
        b
    }
}

/// Takes up to `n_bits` bits off the queue and packs them for a window of
/// `n_bits` bits, the first bit taken highest. Fewer bits are taken where the
/// queue ends first; where it has none left, that is reported.
pub fn get_n_bits(queue: &mut BitQueue, n_bits: usize) -> (r: Result<u8, NoMoreData>)
    requires
        old(queue).wf(),
        n_bits <= 8,
    ensures
        final(queue).wf(),
        final(queue).bytes() == old(queue).bytes(),
        final(queue).write_pos() == old(queue).write_pos(),
        match r {
            Ok(value) => {
                let from = old(queue).read_pos() as int;
                let taken = min(n_bits as int, old(queue).capacity() - from);
                &&& n_bits == 0 || from < old(queue).capacity()
                &&& value == pack(old(queue).bits().subrange(from, from + taken), n_bits as nat)
                &&& final(queue).read_pos() == from + taken
            },
            Err(_) => {
                &&& n_bits > 0
                &&& old(queue).read_pos() == old(queue).capacity()
                &&& final(queue).read_pos() == old(queue).read_pos()
            },
        },
{
    let ghost from = queue.read_pos() as int;
    let ghost bits = queue.bits();
    proof {
        queue.lemma_cursors_in_range();
    }
    let mut value: u8 = 0;
    let mut i: usize = 0;
    assert(bits.subrange(from, from) =~= Seq::<bool>::empty());
    while i < n_bits
        invariant
            i <= n_bits <= 8,
            queue.wf(),
            queue.bytes() == old(queue).bytes(),
            queue.write_pos() == old(queue).write_pos(),
            bits == old(queue).bits(),
            from == old(queue).read_pos(),
            queue.read_pos() == from + i,
            from + i <= queue.capacity(),
            value == pack(bits.subrange(from, from + i), n_bits as nat),
        decreases n_bits - i,
    {
        match queue.pop_bit() {
            Some(bit) => {
                assert(bits.subrange(from, from + i + 1).drop_last() =~= bits.subrange(from, from + i));
                if bit {
                    value = value | (1u8 << ((n_bits - 1 - i) as u8));
                }
                i = i + 1;
            },
            None => {
                if i == 0 {
                    return Err(NoMoreData);
                } else {
                    return Ok(value);
                }
            },
        }
    }
    Ok(value)
}

/// Puts the `n_bits` low bits of `value` on the queue, lowest first. Where
/// the queue fills up first, the bits that fit are put and the rest is
/// reported as not stored.
pub fn set_n_bits(value: u8, queue: &mut BitQueue, n_bits: usize) -> (r: Result<(), NoMoreData>)
    requires
        old(queue).wf(),
        n_bits <= 8,
    ensures
        final(queue).wf(),
        final(queue).read_pos() == old(queue).read_pos(),
        final(queue).capacity() == old(queue).capacity(),
        ({
            let at = old(queue).write_pos() as int;
            let put = min(n_bits as int, old(queue).capacity() - at);
            &&& final(queue).bits() == overwrite(
                old(queue).bits(),
                at,
                Seq::new(put as nat, |t: int| byte_bit(value, t)),
            )
            &&& final(queue).write_pos() == at + put
            &&& r is Ok <==> n_bits <= old(queue).capacity() - at
        }),
{
    let ghost at = queue.write_pos() as int;
    let ghost before = queue.bits();
    proof {
        queue.lemma_cursors_in_range();
    }
    let mut t: usize = 0;
    assert(queue.bits() =~= overwrite(before, at, Seq::new(0, |t: int| byte_bit(value, t))));
    while t < n_bits
        invariant
            t <= n_bits <= 8,
            queue.wf(),
            queue.read_pos() == old(queue).read_pos(),
            queue.capacity() == old(queue).capacity(),
            before == old(queue).bits(),
            at == old(queue).write_pos(),
            queue.write_pos() == at + t,
            at + t <= queue.capacity(),
            queue.bits() == overwrite(before, at, Seq::new(t as nat, |t: int| byte_bit(value, t))),
        decreases n_bits - t,
    {
        let bit: bool = (value >> (t as u8)) & 1u8 == 1u8;
        match queue.push_bit(bit) {
            Ok(_) => {
                assert(queue.bits() =~= overwrite(
                    before,
                    at,
                    Seq::new((t + 1) as nat, |t: int| byte_bit(value, t)),
                ));
                t = t + 1;
            },
            Err(e) => {
                return Err(e);
            },
        }
    }
    Ok(())
}

/// The next step of the walk: 0 where `max_step` leaves no choice, a number
/// drawn below `max_step` otherwise.
pub fn rand_step(rng: &mut Stepper, max_step: usize) -> (k: usize)
    ensures
        k == step_of(old(rng).state(), max_step).0,
        final(rng).state() == step_of(old(rng).state(), max_step).1,
        max_step > 1 ==> k < max_step,
        max_step <= 1 ==> k == 0,
{
    if max_step > 1 {
        rng.draw(max_step)
    } else {
        0
    }
}

} // verus!
