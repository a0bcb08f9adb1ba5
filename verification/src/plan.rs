//! The capacity planner: whether a payload fits a carrier, and the stride of
//! the walk that spreads it.
//!
//! The first 32 samples of a carrier hold the length header, one bit each.
//! The samples after them hold the payload, `bits` bits each.

use vstd::prelude::*;
use crate::error::Error;

verus! {

/// How many samples are left for the payload.
pub open spec fn header_free(samples: nat) -> nat {
    if samples >= 32 {
        (samples - 32) as nat
    } else {
        0
    }
}

/// How many payload bits a carrier of `samples` samples holds.
pub open spec fn capacity_bits(samples: nat, bits: nat) -> nat {
    header_free(samples) * bits
}

/// How many samples `n_bits` payload bits take at `bits` bits a sample:
/// `n_bits / bits`, rounded up.
pub open spec fn chunk_count(n_bits: nat, bits: nat) -> nat {
    if bits == 0 {
        0
    } else {
        ((n_bits + bits - 1) / (bits as int)) as nat
    }
}

/// How many samples a payload of `len` bytes takes at `bits` bits a sample.
pub open spec fn chunks_for(len: nat, bits: nat) -> nat {
    chunk_count(8 * len, bits)
}

/// What an encoder answers to a payload of `len` bytes, given that it holds
/// `total` payload bits.
pub open spec fn payload_check(total: nat, len: nat) -> Result<(), Error> {
    if len == 0 {
        Err(Error::InvalidParameters)
    } else if 8 * len > total {
        Err(Error::TooMuchData)
    } else {
        Ok(())
    }
}

/// What a decoder answers to a header that announces `len` bytes, given that
/// the carrier holds `total` payload bits.
pub open spec fn header_check(total: nat, len: nat) -> Result<(), Error> {
    if len == 0 || 8 * len > total {
        Err(Error::InvalidDataSize)
    } else {
        Ok(())
    }
}

/// The stride of the walk for a payload of `len` bytes in a carrier that
/// holds `total` payload bits at `bits` bits a sample.
///
/// A stride that the caller chose is taken as it is, provided that
/// `max_step * (8 * len / bits)`, the quotient taken exactly, stays below the
/// number of payload samples. Otherwise the stride is the number of payload
/// samples, `total / bits`, divided by the number of samples the payload
/// takes; a stride of 0 is an invalid data size.
pub open spec fn stride_for(total: nat, bits: nat, len: nat, max_step: Option<usize>) -> Result<usize, Error> {
    match max_step {
        Some(m) => if m * (8 * len) < total {
            Ok(m)
        } else {
            Err(Error::TooBigStep)
        },
        None => {
            let n = chunks_for(len, bits);
            if n == 0 || (total / bits) / n == 0 {
                Err(Error::InvalidDataSize)
            } else {
                Ok(((total / bits) / n) as usize)
            }
        },
    }
}

/// The payload's length and the stride that a decoder works with, given the
/// length `header` that it found in a carrier of `samples` samples.
///
/// Without a stride of the caller's the header is the length. With one, the
/// length is `(samples / max_step) / 8` whatever the header says, and a
/// stride of 0 is refused.
pub open spec fn length_and_stride(samples: nat, bits: nat, header: nat, max_step: Option<usize>) -> Result<
    (usize, usize),
    Error,
> {
    let total = capacity_bits(samples, bits);
    match max_step {
        Some(m) => {
            if m == 0 {
                Err(Error::InvalidParameters)
            } else {
                let len = (samples / (m as nat)) / 8;
                if len == 0 {
                    Err(Error::TooBigStep)
                } else {
                    match stride_for(total, bits, len, max_step) {
                        Ok(s) => Ok((len as usize, s)),
                        Err(e) => Err(e),
                    }
                }
            }
        },
        None => match stride_for(total, bits, header, max_step) {
            Ok(s) => Ok((header as usize, s)),
            Err(e) => Err(e),
        },
    }
}

/// What a decoder does with the length `header` that it found: without a
/// stride of the caller's it first asks whether the header can be a
/// payload's; then it settles length and stride.
pub open spec fn read_plan(samples: nat, bits: nat, header: nat, max_step: Option<usize>) -> Result<
    (usize, usize),
    Error,
> {
    if max_step is None && header_check(capacity_bits(samples, bits), header) is Err {
        Err(Error::InvalidDataSize)
    } else {
        length_and_stride(samples, bits, header, max_step)
    }
}

/// A carrier that holds any payload bit has more samples than the header
/// takes.
pub proof fn lemma_capacity_positive(samples: nat, bits: nat)
    requires
        capacity_bits(samples, bits) > 0,
    ensures
        samples > 32,
        bits > 0,
{
    let free = header_free(samples);
    assert(free > 0 && bits > 0) by (nonlinear_arith)
        requires
            free * bits > 0,
    ;
}

/// A payload that fits takes no more samples than the carrier has for it.
pub proof fn lemma_chunks_fit(free: nat, bits: nat, len: nat)
    requires
        1 <= bits,
        8 * len <= free * bits,
    ensures
        chunks_for(len, bits) <= free,
        len > 0 ==> chunks_for(len, bits) >= 1,
        chunks_for(len, bits) * bits >= 8 * len,
        chunks_for(len, bits) > 0 ==> (chunks_for(len, bits) - 1) * bits < 8 * len,
{
    let x = 8 * len + bits - 1;
    let b = bits as int;
    assert(x == b * (x / b) + x % b && 0 <= x % b < b) by {
        vstd::arithmetic::div_mod::lemma_fundamental_div_mod(x, b);
        vstd::arithmetic::div_mod::lemma_mod_bound(x, b);
    }
    let n = x / b;
    assert(n <= free) by (nonlinear_arith)
        requires
            x == b * n + x % b,
            0 <= x % b < b,
            x == 8 * len + b - 1,
            8 * len <= free * b,
            1 <= b,
    ;
    assert(len > 0 ==> n >= 1) by (nonlinear_arith)
        requires
            x == b * n + x % b,
            0 <= x % b < b,
            x == 8 * len + b - 1,
            1 <= b,
    ;
    assert(n * b >= 8 * len && (n > 0 ==> (n - 1) * b < 8 * len)) by (nonlinear_arith)
        requires
            x == b * n + x % b,
            0 <= x % b < b,
            x == 8 * len + b - 1,
            1 <= b,
    ;
}

/// A payload that passes the size check gets a stride of at least 1, and a
/// walk at that stride stays inside the carrier.
pub proof fn lemma_stride_fits(samples: nat, bits: nat, len: nat)
    requires
        1 <= bits,
        len > 0,
        8 * len <= capacity_bits(samples, bits),
        samples <= usize::MAX,
    ensures
        stride_for(capacity_bits(samples, bits), bits, len, None) is Ok,
        stride_for(capacity_bits(samples, bits), bits, len, None)->Ok_0 >= 1,
        stride_for(capacity_bits(samples, bits), bits, len, None)->Ok_0 * chunks_for(len, bits) <= header_free(
            samples,
        ),
        stride_for(capacity_bits(samples, bits), bits, len, None)->Ok_0 == header_free(samples) / chunks_for(
            len,
            bits,
        ),
{
    let free = header_free(samples);
    let total = capacity_bits(samples, bits);
    lemma_chunks_fit(free, bits, len);
    let n = chunks_for(len, bits);
    assert(total / bits == free) by {
        vstd::arithmetic::div_mod::lemma_div_multiples_vanish(free as int, bits as int);
    }
    let f = free as int;
    let m = n as int;
    let s = f / m;
    let r = f % m;
    assert(f == m * s + r && 0 <= r < m) by {
        vstd::arithmetic::div_mod::lemma_fundamental_div_mod(f, m);
        vstd::arithmetic::div_mod::lemma_mod_bound(f, m);
    }
    assert(1 <= s <= f && s * m <= f) by (nonlinear_arith)
        requires
            f == m * s + r,
            0 <= r < m,
            1 <= m <= f,
    ;
}

/// Whether a payload of `data_size` bytes may go into a carrier that holds
/// `total_size` payload bits.
pub fn check_payload_size(total_size: usize, data_size: usize) -> (r: Result<(), Error>)
    ensures
        r == payload_check(total_size as nat, data_size as nat),
{
    if data_size == 0 {
        Err(Error::InvalidParameters)
    } else if data_size > total_size / 8 {
        Err(Error::TooMuchData)
    } else {
        Ok(())
    }
}

/// Whether a header that announces `data_size` bytes can be true of a
/// carrier that holds `total_size` payload bits.
pub fn check_header_size(total_size: usize, data_size: usize) -> (r: Result<(), Error>)
    ensures
        r == header_check(total_size as nat, data_size as nat),
{
    if data_size == 0 || data_size > total_size / 8 {
        Err(Error::InvalidDataSize)
    } else {
        Ok(())
    }
}

/// The stride of the walk; see [`stride_for`].
pub fn plan_stride(total_size: usize, bits: usize, data_size: usize, max_step: Option<usize>) -> (r: Result<
    usize,
    Error,
>)
    ensures
        r == stride_for(total_size as nat, bits as nat, data_size as nat, max_step),
{
    let data_bits: u128 = 8 * (data_size as u128);
    match max_step {
        Some(m) => {
            if m == 0 {
                assert(m * (8 * data_size) == 0) by (nonlinear_arith)
                    requires
                        m == 0,
                ;
                if total_size > 0 {
                    Ok(m)
                } else {
                    Err(Error::TooBigStep)
                }
            } else if data_bits > total_size as u128 {
                assert(m * (8 * data_size) >= total_size) by (nonlinear_arith)
                    requires
                        m >= 1,
                        8 * data_size > total_size,
                ;
                Err(Error::TooBigStep)
            } else {
                assert(m * (8 * data_size) <= 0xffff_ffff_ffff_ffff * 0xffff_ffff_ffff_ffff) by (nonlinear_arith)
                    requires
                        m <= 0xffff_ffff_ffff_ffff,
                        0 <= 8 * data_size <= 0xffff_ffff_ffff_ffff,
                ;
                let product: u128 = (m as u128) * data_bits;
                assert(product == m * (8 * data_size));
                if product < total_size as u128 {
                    Ok(m)
                } else {
                    Err(Error::TooBigStep)
                }
            }
        },
        None => {
            if bits == 0 {
                return Err(Error::InvalidDataSize);
            }
            let n: u128 = (data_bits + (bits as u128) - 1) / (bits as u128);
            let free: usize = total_size / bits;
            if n == 0 || n > free as u128 {
                proof {
                    if n > free {
                        vstd::arithmetic::div_mod::lemma_basic_div(free as int, n as int);
                    }
                }
                Err(Error::InvalidDataSize)
            } else {
                let s: usize = free / (n as usize);
                proof {
                    vstd::arithmetic::div_mod::lemma_div_non_zero(free as int, n as int);
                }
                Ok(s)
            }
        },
    }
}

/// How many payload bits a carrier of `samples` samples holds.
pub fn total_bits(samples: usize, bits: usize) -> (total: usize)
    requires
        bits <= 8,
        samples * 8 <= usize::MAX,
    ensures
        total == capacity_bits(samples as nat, bits as nat),
{
    let free: usize = if samples >= 32 {
        samples - 32
    } else {
        0
    };
    assert(free * bits <= samples * 8) by (nonlinear_arith)
        requires
            free <= samples,
            bits <= 8,
    ;
    free * bits
}

/// The length and the stride a decoder works with; see
/// [`length_and_stride`].
pub fn plan_length(samples: usize, bits: usize, header: usize, max_step: Option<usize>) -> (r: Result<
    (usize, usize),
    Error,
>)
    requires
        bits <= 8,
        samples * 8 <= usize::MAX,
    ensures
        r == length_and_stride(samples as nat, bits as nat, header as nat, max_step),
{
    let total: usize = total_bits(samples, bits);
    match max_step {
        Some(m) => {
            if m == 0 {
                Err(Error::InvalidParameters)
            } else {
                let len: usize = (samples / m) / 8;
                if len == 0 {
                    Err(Error::TooBigStep)
                } else {
                    match plan_stride(total, bits, len, max_step) {
                        Ok(s) => Ok((len, s)),
                        Err(e) => Err(e),
                    }
                }
            }
        },
        None => match plan_stride(total, bits, header, max_step) {
            Ok(s) => Ok((header, s)),
            Err(e) => Err(e),
        },
    }
}

} // verus!
