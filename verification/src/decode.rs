//! Extraction: what every decoder does to get a payload back, whatever its
//! carrier.

pub mod jpeg;
pub mod png;

use vstd::prelude::*;
use crate::bitqueue::bytes_of;
use crate::error::Error;
use crate::options::EmbedConfig;
use crate::options::ExtraArgs;
use crate::plan::capacity_bits;
use crate::plan::chunk_count;
use crate::plan::check_header_size;
use crate::plan::header_check;
use crate::plan::length_and_stride;
use crate::plan::plan_length;
use crate::plan::read_plan;
use crate::stepper::key_steps;

use crate::walk::gathered;
use crate::walk::header_len;
use crate::walk::reach;

verus! {

/// The payload bytes that a walk of `len` bytes at `max_step` from sample
/// `seek` collects, or that the carrier ended first.
pub open spec fn collected(samples: Seq<u8>, cfg: EmbedConfig, len: usize, seek: int, max_step: usize) -> Result<
    Seq<u8>,
    Error,
> {
    let n = chunk_count(8 * len as nat, cfg.bits);
    let steps = key_steps(cfg.key, max_step, n);
    if reach(seek, steps, samples.len(), n) == n {
        Ok(bytes_of(gathered(samples, cfg.depth, cfg.bits, seek, steps, n).take(8 * len)))
    } else {
        Err(Error::CarrierTruncated)
    }
}

/// The payload that a carrier gives back: the length header off its first 32
/// samples, the planner's word on it, then the bytes that the keyed walk
/// from sample 32 collects.
pub open spec fn decoded(samples: Seq<u8>, cfg: EmbedConfig) -> Result<Seq<u8>, Error> {
    if samples.len() < 32 {
        Err(Error::CarrierTruncated)
    } else {
        match read_plan(samples.len(), cfg.bits, header_len(samples, cfg.depth) as nat, cfg.max_step) {
            Err(e) => Err(e),
            Ok((len, stride)) => collected(samples, cfg, len, 32, stride),
        }
    }
}

/// A decoder: a carrier whose samples give a payload back.
pub trait Decoder {
    /// The configuration is valid and the carrier's capacity can be counted.
    spec fn wf(&self) -> bool;

    /// The low byte of each sample that takes part, in the carrier's order.
    spec fn samples(&self) -> Seq<u8>;

    /// The configuration.
    spec fn config(&self) -> EmbedConfig;

    /// What well-formedness promises.
    proof fn lemma_wf(&self)
        requires
            self.wf(),
        ensures
            self.config().valid(),
            self.samples().len() * 8 <= usize::MAX,
    ;

    /// How many samples take part.
    fn sample_count(&self) -> (n: usize)
        requires
            self.wf(),
        ensures
            n == self.samples().len(),
    ;

    /// How many payload bits the carrier holds.
    fn total_size(&self) -> (n: usize)
        requires
            self.wf(),
        ensures
            n == capacity_bits(self.samples().len(), self.config().bits),
    ;

    /// The configuration.
    fn extra(&self) -> (e: &ExtraArgs)
        ensures
            e@ == self.config(),
    ;

    /// Reads the length header off the first 32 samples.
    fn read_header(&self) -> (r: Result<u32, Error>)
        requires
            self.wf(),
        ensures
            r == (if self.samples().len() >= 32 {
                Ok::<u32, Error>(header_len(self.samples(), self.config().depth))
            } else {
                Err(Error::CarrierTruncated)
            }),
    ;

    /// Collects `len` bytes along the keyed walk that starts at sample `seek`
    /// and draws its steps for `max_step`.
    fn read(&self, len: usize, seek: usize, max_step: usize) -> (r: Result<Vec<u8>, Error>)
        requires
            self.wf(),
        ensures
            match collected(self.samples(), self.config(), len, seek as int, max_step) {
                Ok(bytes) => r matches Ok(out) && out@ == bytes,
                Err(e) => r == Err::<Vec<u8>, Error>(e),
            },
    ;

    /// Extracts the payload: the header first, then the planner, then the
    /// payload.
    fn read_data(&self) -> (r: Result<Vec<u8>, Error>)
        requires
            self.wf(),
        ensures
            match decoded(self.samples(), self.config()) {
                Ok(bytes) => r matches Ok(out) && out@ == bytes,
                Err(e) => r == Err::<Vec<u8>, Error>(e),
            },
    {
        let header = match self.read_header() {
            Err(e) => {
                return Err(e);
            },
            Ok(h) => h as usize,
        };
        if self.extra().max_step.is_none() {
            match self.check_size(header) {
                Err(e) => {
                    return Err(e);
                },
                Ok(_) => {},
            }
        }
        let (len, stride) = match self.data_size(header) {
            Err(e) => {
                return Err(e);
            },
            Ok(plan) => plan,
        };
        self.read(len, 32, stride)
    }

    /// Whether a header that announces `data_size` bytes can be true of the
    /// carrier.
    fn check_size(&self, data_size: usize) -> (r: Result<(), Error>)
        requires
            self.wf(),
        ensures
            r == header_check(capacity_bits(self.samples().len(), self.config().bits), data_size as nat),
    {
        check_header_size(self.total_size(), data_size)
    }

    /// The payload's length and the stride of the walk, given the length
    /// `data_size` that the header announces.
    fn data_size(&self, data_size: usize) -> (r: Result<(usize, usize), Error>)
        requires
            self.wf(),
        ensures
            r == length_and_stride(
                self.samples().len(),
                self.config().bits,
                data_size as nat,
                self.config().max_step,
            ),
    {
        proof {
            self.lemma_wf();
        }
        let extra = self.extra();
        plan_length(self.sample_count(), extra.bits, data_size, extra.max_step)
    }
}

} // verus!
