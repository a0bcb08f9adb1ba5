//! Extraction from a JPEG carrier: the samples are the low bytes of the
//! quantized DCT coefficients that take part.

use vstd::prelude::*;
use crate::decode::Decoder;
use crate::encode::jpeg::coefficient_check;
use crate::encode::jpeg::open_coefficients;
use crate::error::Error;
use crate::options::EmbedConfig;
use crate::options::ExtraArgs;
use crate::plan::total_bits;
use crate::stepper::Stepper;
use crate::utils::jpeg::positions;
use crate::utils::jpeg::surface;
use crate::utils::jpeg::Component;
use crate::walk::read_header;
use crate::walk::read_walk;

verus! {

/// A decoder over the coefficients of a JPEG image.
pub struct JpegDecoder {
    samples: Vec<u8>,
    extra: ExtraArgs,
}

impl JpegDecoder {
    /// A decoder over the coefficients of `components`, if the configuration
    /// is valid and the component it asks for exists.
    pub fn new(components: &Vec<Component>, extra: ExtraArgs) -> (r: Result<Self, Error>)
        ensures
            match coefficient_check(components@, extra@) {
                Ok(coefs) => {
                    &&& r matches Ok(dec)
                    &&& dec.wf()
                    &&& dec.config() == extra@
                    &&& dec.samples() == surface(coefs, positions(coefs, extra@))
                },
                Err(e) => r matches Err(x) && x == e,
            },
    {
        match open_coefficients(components, &extra) {
            Err(e) => Err(e),
            Ok((_blocks, _places, samples)) => Ok(JpegDecoder { samples, extra }),
        }
    }
}

impl Decoder for JpegDecoder {
    closed spec fn wf(&self) -> bool {
        &&& self.extra@.valid()
        &&& self.samples@.len() * 8 <= usize::MAX
    }

    closed spec fn samples(&self) -> Seq<u8> {
        self.samples@
    }

    closed spec fn config(&self) -> EmbedConfig {
        self.extra@
    }

    proof fn lemma_wf(&self) {
    }

    fn sample_count(&self) -> (n: usize) {
        self.samples.len()
    }

    fn total_size(&self) -> (n: usize) {
        total_bits(self.samples.len(), self.extra.bits)
    }

    fn extra(&self) -> (e: &ExtraArgs) {
        &self.extra
    }

    fn read_header(&self) -> (r: Result<u32, Error>) {
        read_header(&self.samples, self.extra.depth)
    }

    fn read(&self, len: usize, seek: usize, max_step: usize) -> (r: Result<Vec<u8>, Error>) {
        let mut rng = Stepper::new(&self.extra.key);
        read_walk(&self.samples, self.extra.depth, self.extra.bits, len, seek, max_step, &mut rng)
    }
}

} // verus!
