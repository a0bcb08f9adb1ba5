//! Embedding: what every encoder does with a payload, whatever its carrier.

pub mod jpeg;
pub mod png;

use vstd::prelude::*;
use crate::bitqueue::bits_of;
use crate::error::Error;
use crate::options::EmbedConfig;
use crate::options::ExtraArgs;
use crate::plan::capacity_bits;
use crate::plan::chunk_count;
use crate::plan::check_payload_size;
use crate::plan::lemma_capacity_positive;
use crate::plan::payload_check;
use crate::plan::plan_stride;
use crate::plan::stride_for;
use crate::stepper::key_steps;

use crate::walk::header_written;
use crate::walk::reach;
use crate::walk::written;

verus! {

/// The stride an encoder walks a payload of `len` bytes with, or the reason
/// why it refuses the payload.
pub open spec fn encode_plan(samples: nat, cfg: EmbedConfig, len: nat) -> Result<usize, Error> {
    let total = capacity_bits(samples, cfg.bits);
    match payload_check(total, len) {
        Err(e) => Err(e),
        Ok(_) => stride_for(total, cfg.bits, len, cfg.max_step),
    }
}

/// The steps of the walk that stores `data` at `stride`.
pub open spec fn payload_steps(cfg: EmbedConfig, data: Seq<u8>, stride: usize) -> Seq<usize> {
    key_steps(cfg.key, stride, chunk_count(bits_of(data).len(), cfg.bits))
}

/// How many of those steps land inside the carrier.
pub open spec fn payload_reach(samples: Seq<u8>, cfg: EmbedConfig, data: Seq<u8>, stride: usize) -> nat {
    reach(32, payload_steps(cfg, data, stride), samples.len(), chunk_count(bits_of(data).len(), cfg.bits))
}

/// What embedding `data` answers: the planner's refusal, or that the carrier
/// ended before the payload, or success.
pub open spec fn encode_result(samples: Seq<u8>, cfg: EmbedConfig, data: Seq<u8>) -> Result<(), Error> {
    match encode_plan(samples.len(), cfg, data.len()) {
        Err(e) => Err(e),
        Ok(stride) => if payload_reach(samples, cfg, data, stride) == chunk_count(bits_of(data).len(), cfg.bits) {
            Ok(())
        } else {
            Err(Error::CarrierTruncated)
        },
    }
}

/// The carrier after embedding `data` was tried: untouched where the planner
/// refused; otherwise with the length header in its first 32 samples and the
/// payload in the samples that the keyed walk from sample 32 landed on. The
/// header holds the low 32 bits of the payload's length.
pub open spec fn encoded(samples: Seq<u8>, cfg: EmbedConfig, data: Seq<u8>) -> Seq<u8> {
    match encode_plan(samples.len(), cfg, data.len()) {
        Err(_) => samples,
        Ok(stride) => written(
            header_written(samples, cfg.depth, cfg.bits, data.len() as u32),
            cfg.depth,
            cfg.bits,
            bits_of(data),
            32,
            payload_steps(cfg, data, stride),
            payload_reach(samples, cfg, data, stride),
        ),
    }
}

/// An encoder: a carrier whose samples take a payload.
pub trait Encoder {
    /// What the encoder holds besides its samples' low bytes.
    type Frame;

    /// The configuration is valid and the carrier's capacity can be counted.
    spec fn wf(&self) -> bool;

    /// The low byte of each sample that takes part, in the carrier's order.
    spec fn samples(&self) -> Seq<u8>;

    /// The configuration.
    spec fn config(&self) -> EmbedConfig;

    /// What embedding leaves alone.
    spec fn frame(&self) -> Self::Frame;

    /// What well-formedness promises.
    proof fn lemma_wf(&self)
        requires
            self.wf(),
        ensures
            self.config().valid(),
            self.samples().len() * 8 <= usize::MAX,
    ;

    /// How many samples take part.
    fn sample_count(&self) -> (n: usize)
        requires
            self.wf(),
        ensures
            n == self.samples().len(),
    ;

    /// How many payload bits the carrier holds.
    fn total_size(&self) -> (n: usize)
        requires
            self.wf(),
        ensures
            n == capacity_bits(self.samples().len(), self.config().bits),
    ;

    /// The configuration.
    fn extra(&self) -> (e: &ExtraArgs)
        ensures
            e@ == self.config(),
    ;

    /// Stores the length header `len` in the first 32 samples.
    fn write_header(&mut self, len: u32) -> (r: Result<(), Error>)
        requires
            old(self).wf(),
        ensures
            final(self).wf(),
            final(self).config() == old(self).config(),
            final(self).frame() == old(self).frame(),
            final(self).samples().len() == old(self).samples().len(),
            r == (if old(self).samples().len() >= 32 {
                Ok::<(), Error>(())
            } else {
                Err(Error::CarrierTruncated)
            }),
            final(self).samples() == (if old(self).samples().len() >= 32 {
                header_written(old(self).samples(), old(self).config().depth, old(self).config().bits, len)
            } else {
                old(self).samples()
            }),
    ;

    /// Stores `data` along the keyed walk that starts at sample `seek` and
    /// draws its steps for `max_step`.
    fn write(&mut self, data: &[u8], seek: usize, max_step: usize) -> (r: Result<(), Error>)
        requires
            old(self).wf(),
        ensures
            final(self).wf(),
            final(self).config() == old(self).config(),
            final(self).frame() == old(self).frame(),
            final(self).samples().len() == old(self).samples().len(),
            ({
                let cfg = old(self).config();
                let n = chunk_count(bits_of(data@).len(), cfg.bits);
                let steps = key_steps(cfg.key, max_step, n);
                let got = reach(seek as int, steps, old(self).samples().len(), n);
                &&& final(self).samples() == written(
                    old(self).samples(),
                    cfg.depth,
                    cfg.bits,
                    bits_of(data@),
                    seek as int,
                    steps,
                    got,
                )
                &&& r == (if got == n {
                    Ok::<(), Error>(())
                } else {
                    Err(Error::CarrierTruncated)
                })
            }),
    ;

    /// Embeds `data`: the planner first, then the header, then the payload.
    fn write_data(&mut self, data: &[u8]) -> (r: Result<(), Error>)
        requires
            old(self).wf(),
        ensures
            final(self).wf(),
            final(self).config() == old(self).config(),
            final(self).frame() == old(self).frame(),
            final(self).samples().len() == old(self).samples().len(),
            r == encode_result(old(self).samples(), old(self).config(), data@),
            final(self).samples() == encoded(old(self).samples(), old(self).config(), data@),
            old(self).config().max_step is None ==> r == payload_check(
                capacity_bits(old(self).samples().len(), old(self).config().bits),
                data@.len(),
            ),
    {
        proof {
            self.lemma_wf();
            if data@.len() > 0 {
                crate::laws::law_capacity_boundary(self.samples(), self.config(), data@);
            }
        }
        match self.check_size(data.len()) {
            Err(e) => {
                return Err(e);
            },
            Ok(_) => {},
        }
        let stride = match self.max_step(data.len()) {
            Err(e) => {
                return Err(e);
            },
            Ok(s) => s,
        };
        let header = self.write_header(#[verifier::truncate] (data.len() as u32));
        assert(header is Ok) by {
            lemma_capacity_positive(old(self).samples().len(), old(self).config().bits);
        }
        self.write(data, 32, stride)
    }

    /// Whether a payload of `data_size` bytes may go into the carrier.
    fn check_size(&self, data_size: usize) -> (r: Result<(), Error>)
        requires
            self.wf(),
        ensures
            r == payload_check(capacity_bits(self.samples().len(), self.config().bits), data_size as nat),
    {
        check_payload_size(self.total_size(), data_size)
    }

    /// The stride of the walk for a payload of `data_size` bytes.
    fn max_step(&self, data_size: usize) -> (r: Result<usize, Error>)
        requires
            self.wf(),
        ensures
            r == stride_for(
                capacity_bits(self.samples().len(), self.config().bits),
                self.config().bits,
                data_size as nat,
                self.config().max_step,
            ),
    {
        let total = self.total_size();
        let extra = self.extra();
        plan_stride(total, extra.bits, data_size, extra.max_step)
    }
}

} // verus!
