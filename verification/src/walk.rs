//! The bit-dispersion engine: the walk over a carrier's samples that writes a
//! payload into their windows and reads it back.
//!
//! A carrier is a sequence of bytes here, one for each sample that takes
//! part, in the order its source gives them. The walk starts at `seek`; each
//! step skips some samples and lands on the next, which then holds or gives
//! `bits` payload bits.

use vstd::prelude::*;
use vstd::slice::slice_to_vec;
use crate::bitqueue::BitQueue;
use crate::bitqueue::bits_of;
use crate::bitqueue::bytes_of;
use crate::bitqueue::byte_bit;
use crate::bitqueue::u32_bit;
use crate::bitqueue::u32_bits;
use crate::bitqueue::word_of;
use crate::error::Error;
use crate::plan::chunk_count;
use crate::sample::pack;
use crate::sample::put_field;
use crate::sample::take_field;
use crate::sample::unpack;
use crate::sample::read_field;
use crate::sample::reverse_bits;
use crate::sample::write_field;
use crate::stepper::Stepper;
use crate::stepper::state_after;
use crate::stepper::step_of;
use crate::stepper::steps_from;
use crate::utils::iter::get_n_bits;
use crate::utils::iter::min;
use crate::utils::iter::rand_step;
use crate::utils::iter::set_n_bits;

verus! {

/// Where the walk stands before step `j`: at `seek`, moved on by each
/// earlier step and by the sample that step landed on.
pub open spec fn cursor(seek: int, steps: Seq<usize>, j: nat) -> int
    decreases j,
{
    if j == 0 {
        seek
    } else {
        cursor(seek, steps, (j - 1) as nat) + steps[j - 1] + 1
    }
}

/// The sample that step `j` lands on.
pub open spec fn landing(seek: int, steps: Seq<usize>, j: nat) -> int {
    cursor(seek, steps, j) + steps[j as int]
}

/// How many of the first `n` steps land inside a carrier of `len` samples
/// before one falls outside.
pub open spec fn reach(seek: int, steps: Seq<usize>, len: nat, n: nat) -> nat
    decreases n,
{
    if n == 0 {
        0
    } else {
        let before = reach(seek, steps, len, (n - 1) as nat);
        if before == n - 1 && landing(seek, steps, (n - 1) as nat) < len {
            n
        } else {
            before
        }
    }
}

/// The payload bits that go into the sample of step `j`: `bits` of them, or
/// those that are left.
pub open spec fn chunk(data: Seq<bool>, j: nat, bits: nat) -> Seq<bool> {
    data.subrange((j * bits) as int, min(((j + 1) * bits) as int, data.len() as int))
}

/// The carrier after the first `n` steps have stored their payload bits.
pub open spec fn written(
    samples: Seq<u8>,
    depth: nat,
    bits: nat,
    data: Seq<bool>,
    seek: int,
    steps: Seq<usize>,
    n: nat,
) -> Seq<u8>
    decreases n,
{
    if n == 0 {
        samples
    } else {
        let before = written(samples, depth, bits, data, seek, steps, (n - 1) as nat);
        let at = landing(seek, steps, (n - 1) as nat);
        before.update(at, put_field(before[at], pack(chunk(data, (n - 1) as nat, bits), bits), depth, bits))
    }
}

/// The payload bits that the first `n` steps find in the carrier: `bits` for
/// each step, in the order of the steps.
pub open spec fn gathered(samples: Seq<u8>, depth: nat, bits: nat, seek: int, steps: Seq<usize>, n: nat) -> Seq<
    bool,
>
    decreases n,
{
    if n == 0 {
        Seq::<bool>::empty()
    } else {
        gathered(samples, depth, bits, seek, steps, (n - 1) as nat) + unpack(
            take_field(samples[landing(seek, steps, (n - 1) as nat)], depth, bits),
            bits,
        )
    }
}

/// The value that carries one header bit in a window.
pub open spec fn header_value(bit: bool) -> u8 {
    if bit {
        1u8
    } else {
        0u8
    }
}

/// The carrier after the length header `len` is stored: sample `i` of the
/// first 32 has its window cleared and bit `i` of `len` put at the window's
/// lowest bit; the other samples are as before.
pub open spec fn header_written(samples: Seq<u8>, depth: nat, bits: nat, len: u32) -> Seq<u8> {
    Seq::new(
        samples.len(),
        |i: int|
            if i < 32 {
                put_field(samples[i], header_value(u32_bit(len, i)), depth, bits)
            } else {
                samples[i]
            },
    )
}

/// The 32 header bits of a carrier: bit `depth` of each of its first 32
/// samples.
pub open spec fn header_bits(samples: Seq<u8>, depth: nat) -> Seq<bool> {
    Seq::new(32, |i: int| byte_bit(samples[i], depth as int))
}

/// The length that a carrier's header announces.
pub open spec fn header_len(samples: Seq<u8>, depth: nat) -> u32 {
    word_of(header_bits(samples, depth))
}

/// Once a step falls outside the carrier, no later one counts.
pub proof fn lemma_reach_stops(seek: int, steps: Seq<usize>, len: nat, j: nat, n: nat)
    requires
        j < n,
        reach(seek, steps, len, j) == j,
        landing(seek, steps, j) >= len,
    ensures
        reach(seek, steps, len, n) == j,
    decreases n,
{
    if n > j + 1 {
        lemma_reach_stops(seek, steps, len, j, (n - 1) as nat);
    }
}

/// Step `j` has payload bits to store exactly when `j` is below the number
/// of samples the payload takes; the bits before it are `j * bits` many.
pub proof fn lemma_chunk_bounds(n_bits: nat, bits: nat, j: nat)
    requires
        1 <= bits,
    ensures
        j < chunk_count(n_bits, bits) <==> j * bits < n_bits,
        j <= chunk_count(n_bits, bits) ==> min((j * bits) as int, n_bits as int) == (if j == chunk_count(
            n_bits,
            bits,
        ) {
            n_bits as int
        } else {
            (j * bits) as int
        }),
        (j + 1) * bits == j * bits + bits,
{
    let x = n_bits + bits - 1;
    let b = bits as int;
    let n = x / b;
    assert(x == b * n + x % b && 0 <= x % b < b) by {
        vstd::arithmetic::div_mod::lemma_fundamental_div_mod(x, b);
        vstd::arithmetic::div_mod::lemma_mod_bound(x, b);
    }
    let r = x % b;
    assert((j < n <==> j * b < n_bits) && (j == n ==> j * b >= n_bits) && (j + 1) * b == j * b + b)
        by (nonlinear_arith)
        requires
            x == b * n + r,
            0 <= r < b,
            x == n_bits + b - 1,
            1 <= b,
            0 <= j,
    ;
}

/// Whether none of the first `n` steps lands on sample `p`.
pub open spec fn untouched(seek: int, steps: Seq<usize>, n: nat, p: int) -> bool
    decreases n,
{
    n == 0 || (untouched(seek, steps, (n - 1) as nat, p) && landing(seek, steps, (n - 1) as nat) != p)
}

/// The walk only moves forward: each step leaves the cursor at least one
/// sample further.
pub proof fn lemma_cursor_grows(seek: int, steps: Seq<usize>, i: nat, j: nat)
    requires
        i <= j,
    ensures
        cursor(seek, steps, i) + (j - i) <= cursor(seek, steps, j),
    decreases j,
{
    if i < j {
        lemma_cursor_grows(seek, steps, i, (j - 1) as nat);
    }
}

/// No two steps land on the same sample: a later step lands further on.
pub proof fn lemma_landings_apart(seek: int, steps: Seq<usize>, i: nat, j: nat)
    requires
        i < j,
    ensures
        landing(seek, steps, i) < landing(seek, steps, j),
        seek <= landing(seek, steps, i),
{
    lemma_cursor_grows(seek, steps, i + 1, j);
    lemma_cursor_grows(seek, steps, 0, i);
}

/// A sample before `seek`, or one that a later step lands on, is none that
/// the first `n` steps land on.
pub proof fn lemma_untouched(seek: int, steps: Seq<usize>, n: nat, p: int)
    requires
        p < seek || exists|j: nat| n <= j && landing(seek, steps, j) == p,
    ensures
        untouched(seek, steps, n, p),
    decreases n,
{
    if n > 0 {
        lemma_untouched(seek, steps, (n - 1) as nat, p);
        if p < seek {
            lemma_cursor_grows(seek, steps, 0, (n - 1) as nat);
        } else {
            let j = choose|j: nat| n <= j && landing(seek, steps, j) == p;
            lemma_landings_apart(seek, steps, (n - 1) as nat, j);
        }
    }
}

/// A sample that none of the first `n` steps lands on is untouched by them.
pub proof fn lemma_untouched_apart(seek: int, steps: Seq<usize>, n: nat, p: int)
    requires
        forall|j: nat| j < n ==> landing(seek, steps, j) != p,
    ensures
        untouched(seek, steps, n, p),
    decreases n,
{
    if n > 0 {
        lemma_untouched_apart(seek, steps, (n - 1) as nat, p);
    }
}

/// No more steps count than are made.
pub proof fn lemma_reach_bound(seek: int, steps: Seq<usize>, len: nat, n: nat)
    ensures
        reach(seek, steps, len, n) <= n,
    decreases n,
{
    if n > 0 {
        lemma_reach_bound(seek, steps, len, (n - 1) as nat);
    }
}

/// Where all of the first `n` steps count, each of them lands inside the
/// carrier, and all of any fewer first steps count.
pub proof fn lemma_reach_full(seek: int, steps: Seq<usize>, len: nat, n: nat, j: nat)
    requires
        reach(seek, steps, len, n) == n,
        j <= n,
    ensures
        reach(seek, steps, len, j) == j,
        j < n ==> landing(seek, steps, j) < len,
    decreases n,
{
    if j < n {
        lemma_reach_bound(seek, steps, len, (n - 1) as nat);
        lemma_reach_full(seek, steps, len, (n - 1) as nat, if j < n - 1 {
            j
        } else {
            (n - 1) as nat
        });
    }
}

/// Where each of the first `n` steps lands inside the carrier, all of them
/// count.
pub proof fn lemma_reach_all(seek: int, steps: Seq<usize>, len: nat, n: nat)
    requires
        forall|j: nat| j < n ==> landing(seek, steps, j) < len,
    ensures
        reach(seek, steps, len, n) == n,
    decreases n,
{
    if n > 0 {
        lemma_reach_all(seek, steps, len, (n - 1) as nat);
    }
}

/// The count of steps that land inside the carrier is made of steps that do.
pub proof fn lemma_reach_lands(seek: int, steps: Seq<usize>, len: nat, n: nat)
    ensures
        reach(seek, steps, len, reach(seek, steps, len, n)) == reach(seek, steps, len, n),
    decreases n,
{
    if n > 0 {
        lemma_reach_lands(seek, steps, len, (n - 1) as nat);
        let before = reach(seek, steps, len, (n - 1) as nat);
        if before == n - 1 && landing(seek, steps, (n - 1) as nat) < len {
            assert(reach(seek, steps, len, n) == n);
        }
    }
}

/// What a walk that stays inside the carrier leaves behind: the carrier's
/// length; each sample it did not land on as it was; and in each sample it
/// landed on the payload bits of that step, packed into the window.
pub proof fn lemma_written(
    samples: Seq<u8>,
    depth: nat,
    bits: nat,
    data: Seq<bool>,
    seek: int,
    steps: Seq<usize>,
    n: nat,
)
    requires
        0 <= seek,
        reach(seek, steps, samples.len(), n) == n,
    ensures
        written(samples, depth, bits, data, seek, steps, n).len() == samples.len(),
        forall|p: int|
            0 <= p < samples.len() && untouched(seek, steps, n, p) ==> #[trigger] written(
                samples,
                depth,
                bits,
                data,
                seek,
                steps,
                n,
            )[p] == samples[p],
        forall|j: nat|
            j < n ==> written(samples, depth, bits, data, seek, steps, n)[#[trigger] landing(seek, steps, j)]
                == put_field(samples[landing(seek, steps, j)], pack(chunk(data, j, bits), bits), depth, bits),
    decreases n,
{
    if n > 0 {
        let m = (n - 1) as nat;
        lemma_reach_full(seek, steps, samples.len(), n, m);
        lemma_written(samples, depth, bits, data, seek, steps, m);
        let before = written(samples, depth, bits, data, seek, steps, m);
        let after = written(samples, depth, bits, data, seek, steps, n);
        let at = landing(seek, steps, m);
        lemma_cursor_grows(seek, steps, 0, m);
        assert(0 <= at < samples.len());
        assert(untouched(seek, steps, m, at)) by {
            lemma_untouched(seek, steps, m, at);
        }
        assert forall|j: nat| j < n implies after[#[trigger] landing(seek, steps, j)] == put_field(
            samples[landing(seek, steps, j)],
            pack(chunk(data, j, bits), bits),
            depth,
            bits,
        ) by {
            if j < m {
                lemma_landings_apart(seek, steps, j, m);
                lemma_reach_full(seek, steps, samples.len(), n, j);
            }
        }
    }
}

/// A walk that stays inside the carrier changes no bit outside the windows.
pub proof fn lemma_written_outside(
    samples: Seq<u8>,
    depth: nat,
    bits: nat,
    data: Seq<bool>,
    seek: int,
    steps: Seq<usize>,
    n: nat,
)
    requires
        1 <= bits,
        depth + bits <= 8,
        0 <= seek,
        n <= chunk_count(data.len(), bits),
        reach(seek, steps, samples.len(), n) == n,
    ensures
        written(samples, depth, bits, data, seek, steps, n).len() == samples.len(),
        forall|p: int|
            0 <= p < samples.len() ==> crate::sample::outside(
                #[trigger] written(samples, depth, bits, data, seek, steps, n)[p],
                depth,
                bits,
            ) == crate::sample::outside(samples[p], depth, bits),
    decreases n,
{
    if n > 0 {
        let m = (n - 1) as nat;
        lemma_reach_full(seek, steps, samples.len(), n, m);
        lemma_written_outside(samples, depth, bits, data, seek, steps, m);
        let before = written(samples, depth, bits, data, seek, steps, m);
        let at = landing(seek, steps, m);
        lemma_cursor_grows(seek, steps, 0, m);
        lemma_chunk_bounds(data.len(), bits, m);
        let piece = chunk(data, m, bits);
        assert(piece.len() <= bits);
        crate::sample::lemma_pack_fits(piece, bits);
        crate::sample::lemma_put_field_outside(before[at], pack(piece, bits), depth, bits);
    }
}

/// What a walk reads where a walk wrote: the bits that the first `m` steps
/// find begin with the payload bits that those steps stored.
pub proof fn lemma_gathered(
    origin: Seq<u8>,
    carrier: Seq<u8>,
    depth: nat,
    bits: nat,
    data: Seq<bool>,
    seek: int,
    steps: Seq<usize>,
    m: nat,
)
    requires
        1 <= bits,
        depth + bits <= 8,
        m <= chunk_count(data.len(), bits),
        forall|j: nat|
            j < m ==> carrier[#[trigger] landing(seek, steps, j)] == put_field(
                origin[landing(seek, steps, j)],
                pack(chunk(data, j, bits), bits),
                depth,
                bits,
            ),
    ensures
        gathered(carrier, depth, bits, seek, steps, m).len() == m * bits,
        forall|t: int|
            0 <= t < min((m * bits) as int, data.len() as int) ==> gathered(carrier, depth, bits, seek, steps, m)[t]
                == data[t],
    decreases m,
{
    if m == 0 {
        assert(0 * bits == 0) by (nonlinear_arith);
    } else {
        let k = (m - 1) as nat;
        lemma_gathered(origin, carrier, depth, bits, data, seek, steps, k);
        lemma_chunk_bounds(data.len(), bits, k);
        let before = gathered(carrier, depth, bits, seek, steps, k);
        let at = landing(seek, steps, k);
        let part = unpack(take_field(carrier[at], depth, bits), bits);
        let piece = chunk(data, k, bits);
        let was = origin[at];
        assert(k * bits < data.len());
        assert(m * bits == k * bits + bits) by (nonlinear_arith)
            requires
                m == k + 1,
        ;
        assert(piece.len() <= bits);
        crate::sample::lemma_unpack_pack(was, piece, depth, bits);
        let all = gathered(carrier, depth, bits, seek, steps, m);
        assert(all == before + part);
        assert forall|t: int| 0 <= t < min((m * bits) as int, data.len() as int) implies all[t] == data[t] by {
            if t >= k * bits {
                let u = t - k * bits;
                assert(part.take(piece.len() as int)[u] == piece[u]);
            }
        }
    }
}

/// A walk whose steps all stay below a stride of at least 1 moves on by no
/// more than the stride a step.
pub proof fn lemma_cursor_bound(seek: int, steps: Seq<usize>, stride: int, j: nat)
    requires
        1 <= stride,
        forall|i: int| 0 <= i < j ==> steps[i] < stride,
    ensures
        cursor(seek, steps, j) <= seek + j * stride,
    decreases j,
{
    if j > 0 {
        lemma_cursor_bound(seek, steps, stride, (j - 1) as nat);
        assert(j * stride == (j - 1) * stride + stride) by (nonlinear_arith);
    } else {
        assert(0 * stride == 0) by (nonlinear_arith);
    }
}

/// One header bit as a window value fits any window, and its lowest bit is
/// the header bit.
pub proof fn lemma_header_value(bit: bool, bits: nat)
    requires
        1 <= bits <= 8,
    ensures
        crate::sample::fits(header_value(bit), bits),
        byte_bit(header_value(bit), 0) == bit,
        forall|t: int| 1 <= t < 8 ==> !#[trigger] byte_bit(header_value(bit), t),
        header_value(bit) == pack(seq![bit], 1),
{
    lemma_header_ops(bits as u8, 1);
    assert forall|t: int| 1 <= t < 8 implies !#[trigger] byte_bit(header_value(bit), t) by {
        lemma_header_ops(bits as u8, t as u8);
    }
    assert(seq![bit].drop_last() =~= Seq::<bool>::empty());
    assert(pack(seq![bit].drop_last(), 1) == 0u8);
}

proof fn lemma_header_ops(w: u8, t: u8)
    by (bit_vector)
    requires
        1 <= w <= 8,
        1 <= t < 8,
    ensures
        (1u8 >> t) & 1u8 == 0u8,
        (0u8 >> t) & 1u8 == 0u8,
        1u8 & !(0xffu8 >> ((8u8 - w) as u8)) == 0,
        0u8 & !(0xffu8 >> ((8u8 - w) as u8)) == 0,
        (1u8 >> 0u8) & 1u8 == 1u8,
        (0u8 >> 0u8) & 1u8 == 0u8,
        0u8 | (1u8 << 0u8) == 1u8,
{
}

/// Stores the length header `len` in the first 32 samples, one bit a sample,
/// or reports a carrier with fewer samples than that and leaves it as it is.
pub fn write_header(samples: &mut Vec<u8>, depth: usize, bits: usize, len: u32) -> (r: Result<(), Error>)
    requires
        1 <= bits,
        depth + bits <= 8,
    ensures
        r == (if old(samples)@.len() >= 32 {
            Ok::<(), Error>(())
        } else {
            Err(Error::CarrierTruncated)
        }),
        final(samples)@ == (if old(samples)@.len() >= 32 {
            header_written(old(samples)@, depth as nat, bits as nat, len)
        } else {
            old(samples)@
        }),
{
    if samples.len() < 32 {
        return Err(Error::CarrierTruncated);
    }
    let mut queue = BitQueue::zeroed(4);
    let pushed = queue.push_u32_le(len);
    assert(pushed is Ok);
    assert(queue.bits() =~= u32_bits(len));
    let mut i: usize = 0;
    while i < 32
        invariant
            i <= 32,
            1 <= bits,
            depth + bits <= 8,
            queue.wf(),
            queue.capacity() == 32,
            queue.bits() == u32_bits(len),
            queue.read_pos() == i,
            samples@.len() == old(samples)@.len(),
            samples@.len() >= 32,
            forall|p: int|
                0 <= p < samples@.len() ==> samples@[p] == (if p < i {
                    put_field(old(samples)@[p], header_value(u32_bit(len, p)), depth as nat, bits as nat)
                } else {
                    old(samples)@[p]
                }),
        decreases 32 - i,
    {
        let bit = queue.pop_bit();
        assert(bit is Some);
        let value: u8 = if bit.unwrap() {
            1
        } else {
            0
        };
        let sample: u8 = samples[i];
        samples[i] = write_field(sample, value, depth, bits);
        i = i + 1;
    }
    assert(samples@ =~= header_written(old(samples)@, depth as nat, bits as nat, len));
    Ok(())
}

/// Reads the length header off the first 32 samples, or reports a carrier
/// with fewer samples than that.
pub fn read_header(samples: &Vec<u8>, depth: usize) -> (r: Result<u32, Error>)
    requires
        depth < 8,
    ensures
        r == (if samples@.len() >= 32 {
            Ok::<u32, Error>(header_len(samples@, depth as nat))
        } else {
            Err(Error::CarrierTruncated)
        }),
{
    if samples.len() < 32 {
        return Err(Error::CarrierTruncated);
    }
    let mut queue = BitQueue::zeroed(4);
    let mut i: usize = 0;
    while i < 32
        invariant
            i <= 32,
            depth < 8,
            samples@.len() >= 32,
            queue.wf(),
            queue.capacity() == 32,
            queue.read_pos() == 0,
            queue.write_pos() == i,
            forall|p: int| 0 <= p < i ==> queue.bits()[p] == byte_bit(samples@[p], depth as int),
        decreases 32 - i,
    {
        let bit: bool = (samples[i] >> (depth as u8)) & 1u8 == 1u8;
        let pushed = queue.push_bit(bit);
        assert(pushed is Ok);
        i = i + 1;
    }
    let word = queue.pop_u32_le();
    assert(word is Some);
    proof {
        let x = word.unwrap();
        assert(u32_bits(x) =~= header_bits(samples@, depth as nat));
        crate::bitqueue::lemma_word_of_u32_bits(x, header_bits(samples@, depth as nat));
    }
    Ok(word.unwrap())
}

/// Walks the carrier from `seek` and stores the bits of `data`, `bits` to a
/// sample, each step drawn from `rng` for `max_step`. A step that falls
/// outside the carrier ends the walk: what was stored before it stays, and
/// the carrier is reported as too short.
pub fn write_walk(
    samples: &mut Vec<u8>,
    depth: usize,
    bits: usize,
    data: &[u8],
    seek: usize,
    max_step: usize,
    rng: &mut Stepper,
) -> (r: Result<(), Error>)
    requires
        1 <= bits,
        depth + bits <= 8,
    ensures
        final(samples)@.len() == old(samples)@.len(),
        ({
            let payload = bits_of(data@);
            let n = chunk_count(payload.len(), bits as nat);
            let steps = steps_from(old(rng).state(), max_step, n);
            let got = reach(seek as int, steps, old(samples)@.len(), n);
            &&& final(samples)@ == written(old(samples)@, depth as nat, bits as nat, payload, seek as int, steps, got)
            &&& r == (if got == n {
                Ok::<(), Error>(())
            } else {
                Err(Error::CarrierTruncated)
            })
            &&& final(rng).state() == state_after(
                old(rng).state(),
                max_step,
                if got == n {
                    n
                } else {
                    got + 1
                },
            )
        }),
{
    let ghost payload = bits_of(data@);
    let ghost n = chunk_count(payload.len(), bits as nat);
    let ghost state0 = rng.state();
    let ghost steps = steps_from(state0, max_step, n);
    let ghost before = samples@;
    let ghost mut j: nat = 0;
    let mut queue = BitQueue::new(slice_to_vec(data));
    let mut cur: usize = seek;
    proof {
        lemma_chunk_bounds(payload.len(), bits as nat, 0);
        assert(0 * bits == 0) by (nonlinear_arith);
    }
    while !queue.is_drained()
        invariant
            1 <= bits,
            depth + bits <= 8,
            payload == bits_of(data@),
            n == chunk_count(payload.len(), bits as nat),
            state0 == old(rng).state(),
            before == old(samples)@,
            steps == steps_from(state0, max_step, n),
            queue.wf(),
            queue.bytes() == data@,
            j <= n,
            queue.read_pos() == min((j * bits) as int, payload.len() as int),
            reach(seek as int, steps, before.len(), j) == j,
            cur == cursor(seek as int, steps, j),
            samples@.len() == before.len(),
            samples@ == written(before, depth as nat, bits as nat, payload, seek as int, steps, j),
            rng.state() == state_after(state0, max_step, j),
        decreases n - j,
    {
        proof {
            lemma_chunk_bounds(payload.len(), bits as nat, j);
            lemma_chunk_bounds(payload.len(), bits as nat, j + 1);
        }
        assert(j < n);
        let k = rand_step(rng, max_step);
        assert(k == steps[j as int]);
        if cur >= samples.len() || k >= samples.len() - cur {
            proof {
                assert(landing(seek as int, steps, j) >= before.len());
                lemma_reach_stops(seek as int, steps, before.len(), j, n);
                assert(rng.state() == state_after(state0, max_step, j + 1));
            }
            return Err(Error::CarrierTruncated);
        }
        let at: usize = cur + k;
        let got = get_n_bits(&mut queue, bits);
        assert(got is Ok);
        let value: u8 = got.unwrap();
        assert(value == pack(chunk(payload, j, bits as nat), bits as nat));
        let sample: u8 = samples[at];
        samples[at] = write_field(sample, value, depth, bits);
        cur = at + 1;
        proof {
            j = j + 1;
        }
    }
    proof {
        lemma_chunk_bounds(payload.len(), bits as nat, j);
    }
    Ok(())
}

/// Walks the carrier from `seek` and collects `len` bytes of payload, `bits`
/// bits from a sample, each step drawn from `rng` for `max_step`. A step that
/// falls outside the carrier ends the walk, and the carrier is reported as
/// too short.
pub fn read_walk(
    samples: &Vec<u8>,
    depth: usize,
    bits: usize,
    len: usize,
    seek: usize,
    max_step: usize,
    rng: &mut Stepper,
) -> (r: Result<Vec<u8>, Error>)
    requires
        1 <= bits,
        depth + bits <= 8,
    ensures
        ({
            let n = chunk_count(8 * len as nat, bits as nat);
            let steps = steps_from(old(rng).state(), max_step, n);
            let got = reach(seek as int, steps, samples@.len(), n);
            &&& match r {
                Ok(out) => {
                    &&& got == n
                    &&& out@ == bytes_of(
                        gathered(samples@, depth as nat, bits as nat, seek as int, steps, n).take(8 * len),
                    )
                },
                Err(e) => e == Error::CarrierTruncated && got < n,
            }
            &&& final(rng).state() == state_after(
                old(rng).state(),
                max_step,
                if got == n {
                    n
                } else {
                    got + 1
                },
            )
        }),
{
    let ghost n_bits: nat = 8 * len as nat;
    let ghost n = chunk_count(n_bits, bits as nat);
    let ghost state0 = rng.state();
    let ghost steps = steps_from(state0, max_step, n);
    let ghost mut j: nat = 0;
    let mut queue = BitQueue::zeroed(len);
    let mut cur: usize = seek;
    proof {
        lemma_chunk_bounds(n_bits, bits as nat, 0);
        assert(0 * bits == 0) by (nonlinear_arith);
        assert(queue.bits().take(0) =~= gathered(samples@, depth as nat, bits as nat, seek as int, steps, 0));
    }
    while !queue.is_full()
        invariant
            1 <= bits,
            depth + bits <= 8,
            n_bits == 8 * len,
            n == chunk_count(n_bits, bits as nat),
            state0 == old(rng).state(),
            steps == steps_from(state0, max_step, n),
            queue.wf(),
            queue.capacity() == n_bits,
            j <= n,
            queue.write_pos() == min((j * bits) as int, n_bits as int),
            reach(seek as int, steps, samples@.len(), j) == j,
            cur == cursor(seek as int, steps, j),
            gathered(samples@, depth as nat, bits as nat, seek as int, steps, j).len() == j * bits,
            queue.bits().take(queue.write_pos() as int) == gathered(
                samples@,
                depth as nat,
                bits as nat,
                seek as int,
                steps,
                j,
            ).take(queue.write_pos() as int),
            rng.state() == state_after(state0, max_step, j),
        decreases n - j,
    {
        proof {
            lemma_chunk_bounds(n_bits, bits as nat, j);
            lemma_chunk_bounds(n_bits, bits as nat, j + 1);
        }
        assert(j < n);
        let k = rand_step(rng, max_step);
        assert(k == steps[j as int]);
        if cur >= samples.len() || k >= samples.len() - cur {
            proof {
                assert(landing(seek as int, steps, j) >= samples@.len());
                lemma_reach_stops(seek as int, steps, samples@.len(), j, n);
                assert(rng.state() == state_after(state0, max_step, j + 1));
            }
            return Err(Error::CarrierTruncated);
        }
        let at: usize = cur + k;
        let field: u8 = read_field(samples[at], depth, bits);
        let value: u8 = reverse_bits(field, bits);
        let ghost wp = queue.write_pos() as int;
        let ghost prev_bits = queue.bits();
        let ghost prev = gathered(samples@, depth as nat, bits as nat, seek as int, steps, j);
        let stored = set_n_bits(value, &mut queue, bits);
        proof {
            let next = gathered(samples@, depth as nat, bits as nat, seek as int, steps, j + 1);
            let part = unpack(field, bits as nat);
            assert(next == prev + part);
            crate::sample::lemma_pack_bits(Seq::new(bits as nat, |t: int| byte_bit(field, t)), bits as nat);
            assert forall|t: int| 0 <= t < bits implies byte_bit(value, t) == part[t] by {}
            let nwp = queue.write_pos() as int;
            assert forall|p: int| 0 <= p < nwp implies queue.bits()[p] == next[p] by {
                if p < wp {
                    assert(prev_bits.take(wp)[p] == prev.take(wp)[p]);
                }
            }
            assert(queue.bits().take(nwp) =~= next.take(nwp));
            j = j + 1;
        }
        cur = at + 1;
    }
    proof {
        lemma_chunk_bounds(n_bits, bits as nat, j);
        assert(queue.bits().take(n_bits as int) =~= queue.bits());
        crate::bitqueue::lemma_bytes_of_bits_of(queue.bytes());
    }
    Ok(queue.into_bytes())
}

} // verus!
