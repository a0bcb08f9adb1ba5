//! Extraction from a PNG carrier: the samples are the channel bytes.

use vstd::prelude::*;
use crate::decode::Decoder;
use crate::encode::png::carrier_check;
use crate::encode::png::check_carrier;
use crate::encode::png::opened;
use crate::error::Error;
use crate::options::EmbedConfig;
use crate::options::ExtraArgs;
use crate::plan::total_bits;
use crate::raster::load;
use crate::raster::Raster;
use crate::stepper::Stepper;
use crate::walk::read_header;
use crate::walk::read_walk;

verus! {

/// A decoder over a decoded PNG image.
pub struct PngDecoder {
    samples: Vec<u8>,
    extra: ExtraArgs,
}

impl PngDecoder {
    /// A decoder over `image`, if the configuration is valid and the image is
    /// RGB or RGBA.
    pub fn new(image: Raster, extra: ExtraArgs) -> (r: Result<Self, Error>)
        ensures
            match r {
                Ok(dec) => {
                    &&& carrier_check(image@, extra@) is Ok
                    &&& dec.wf()
                    &&& dec.samples() == image@.samples
                    &&& dec.config() == extra@
                },
                Err(e) => carrier_check(image@, extra@) == Err::<(), Error>(e),
            },
    {
        match check_carrier(&image, &extra) {
            Err(e) => {
                return Err(e);
            },
            Ok(_) => {},
        }
        Ok(PngDecoder { samples: image.into_raw(), extra })
    }
}

impl PngDecoder {
    /// A decoder over the image that a PNG file's bytes decode to. The
    /// configuration is looked at before the bytes.
    pub fn open(buffer: &[u8], extra: ExtraArgs) -> (r: Result<Self, Error>)
        ensures
            match opened(buffer@, extra@) {
                Ok(image) => {
                    &&& r matches Ok(dec)
                    &&& dec.wf()
                    &&& dec.samples() == image.samples
                    &&& dec.config() == extra@
                },
                Err(e) => r matches Err(x) && x == e,
            },
    {
        if !extra.is_valid() {
            return Err(Error::InvalidParameters);
        }
        match load(buffer) {
            Err(e) => Err(e),
            Ok(image) => PngDecoder::new(image, extra),
        }
    }
}

impl Decoder for PngDecoder {
    closed spec fn wf(&self) -> bool {
        &&& self.extra@.valid()
        &&& self.samples@.len() * 8 <= usize::MAX
    }

    closed spec fn samples(&self) -> Seq<u8> {
        self.samples@
    }

    closed spec fn config(&self) -> EmbedConfig {
        self.extra@
    }

    proof fn lemma_wf(&self) {
    }

    fn sample_count(&self) -> (n: usize) {
        self.samples.len()
    }

    fn total_size(&self) -> (n: usize) {
        total_bits(self.samples.len(), self.extra.bits)
    }

    fn extra(&self) -> (e: &ExtraArgs) {
        &self.extra
    }

    fn read_header(&self) -> (r: Result<u32, Error>) {
        read_header(&self.samples, self.extra.depth)
    }

    fn read(&self, len: usize, seek: usize, max_step: usize) -> (r: Result<Vec<u8>, Error>) {
        let mut rng = Stepper::new(&self.extra.key);
        read_walk(&self.samples, self.extra.depth, self.extra.bits, len, seek, max_step, &mut rng)
    }
}

} // verus!
