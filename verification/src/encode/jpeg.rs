//! Embedding in a JPEG carrier: the samples are the low bytes of the
//! quantized DCT coefficients that take part.

use vstd::prelude::*;
use crate::encode::encoded;
use crate::encode::Encoder;
use crate::error::Error;
use crate::options::EmbedConfig;
use crate::options::ExtraArgs;
use crate::plan::total_bits;
use crate::stepper::Stepper;
use crate::utils::jpeg::get_blocks;
use crate::utils::jpeg::lemma_scattered;
use crate::utils::jpeg::lemma_visible;
use crate::utils::jpeg::positions;
use crate::utils::jpeg::scattered;
use crate::utils::jpeg::selected;
use crate::utils::jpeg::surface;
use crate::utils::jpeg::Blocks;
use crate::utils::jpeg::Component;
use crate::walk::write_header;
use crate::walk::write_walk;

verus! {

/// What a codec answers to the components of a JPEG carrier and a
/// configuration: the configuration is looked at first, then the component
/// asked for, then whether the samples can be counted in bits. On success
/// the answer holds the coefficients that the walk goes over.
pub open spec fn coefficient_check(components: Seq<Component>, cfg: EmbedConfig) -> Result<Seq<i16>, Error> {
    if !cfg.valid() {
        Err(Error::InvalidParameters)
    } else {
        match selected(components, cfg.jpeg_comp) {
            Err(e) => Err(e),
            Ok(coefs) => if positions(coefs, cfg).len() * 8 > usize::MAX {
                Err(Error::UnsupportedFormat)
            } else {
                Ok(coefs)
            },
        }
    }
}

/// The coefficients of a JPEG carrier after embedding `data` was tried: the
/// carrier of their low bytes embeds the payload, and each byte of it goes
/// back to the coefficient it came from.
pub open spec fn coefficients_encoded(coefs: Seq<i16>, cfg: EmbedConfig, data: Seq<u8>) -> Seq<i16> {
    let places = positions(coefs, cfg);
    scattered(coefs, places, encoded(surface(coefs, places), cfg, data), places.len())
}

/// The parts of a codec over JPEG coefficients: the coefficients that the
/// walk goes over, the places of those that take part, and the low bytes at
/// those places.
pub fn open_coefficients(components: &Vec<Component>, extra: &ExtraArgs) -> (r: Result<
    (Blocks, Vec<usize>, Vec<u8>),
    Error,
>)
    ensures
        match coefficient_check(components@, extra@) {
            Ok(coefs) => {
                &&& r matches Ok((blocks, places, samples))
                &&& blocks@ == coefs
                &&& places@.map_values(|p: usize| p as int) == positions(coefs, extra@)
                &&& samples@ == surface(coefs, positions(coefs, extra@))
            },
            Err(e) => r matches Err(x) && x == e,
        },
{
    if !extra.is_valid() {
        return Err(Error::InvalidParameters);
    }
    let (blocks, _size) = match get_blocks(components, extra.jpeg_comp) {
        Err(e) => {
            return Err(e);
        },
        Ok(found) => found,
    };
    let places = blocks.iter(extra);
    if places.len() > usize::MAX / 8 {
        return Err(Error::UnsupportedFormat);
    }
    proof {
        lemma_visible(blocks@, extra@, blocks@.len());
        let at = places@.map_values(|p: usize| p as int);
        assert forall|i: int| 0 <= i < places@.len() implies places@[i] < blocks@.len() by {
            assert(at[i] == places@[i]);
        }
    }
    let samples = blocks.gather(&places);
    Ok((blocks, places, samples))
}

/// An encoder over the coefficients of a JPEG image.
pub struct JpegEncoder {
    blocks: Blocks,
    places: Vec<usize>,
    samples: Vec<u8>,
    extra: ExtraArgs,
}

impl JpegEncoder {
    /// An encoder over the coefficients of `components`, if the
    /// configuration is valid and the component it asks for exists.
    pub fn new(components: &Vec<Component>, extra: ExtraArgs) -> (r: Result<Self, Error>)
        ensures
            match coefficient_check(components@, extra@) {
                Ok(coefs) => {
                    &&& r matches Ok(enc)
                    &&& enc.wf()
                    &&& enc.frame() == coefs
                    &&& enc.config() == extra@
                    &&& enc.samples() == surface(coefs, positions(coefs, extra@))
                },
                Err(e) => r matches Err(x) && x == e,
            },
    {
        match open_coefficients(components, &extra) {
            Err(e) => Err(e),
            Ok((blocks, places, samples)) => Ok(JpegEncoder { blocks, places, samples, extra }),
        }
    }

    /// The coefficients as they stand: the carrier's bytes put back as the
    /// low bytes of the coefficients that take part.
    pub fn coefficients(&self) -> (b: Blocks)
        requires
            self.wf(),
        ensures
            b@ == scattered(
                self.frame(),
                positions(self.frame(), self.config()),
                self.samples(),
                self.samples().len(),
            ),
            b@.len() == self.frame().len(),
            self.samples().len() == positions(self.frame(), self.config()).len(),
    {
        proof {
            lemma_visible(self.blocks@, self.extra@, self.blocks@.len());
            lemma_scattered(
                self.blocks@,
                positions(self.blocks@, self.extra@),
                self.samples@,
                self.samples@.len(),
            );
            let at = self.places@.map_values(|p: usize| p as int);
            assert forall|i: int| 0 <= i < self.places@.len() implies self.places@[i] < self.blocks@.len() by {
                assert(at[i] == self.places@[i]);
            }
        }
        self.blocks.scatter(&self.places, &self.samples)
    }
}

impl Encoder for JpegEncoder {
    /// The coefficients that the walk goes over, as the carrier came with
    /// them.
    type Frame = Seq<i16>;

    closed spec fn wf(&self) -> bool {
        &&& self.extra@.valid()
        &&& self.places@.map_values(|p: usize| p as int) == positions(self.blocks@, self.extra@)
        &&& self.samples@.len() == self.places@.len()
        &&& self.samples@.len() * 8 <= usize::MAX
    }

    closed spec fn samples(&self) -> Seq<u8> {
        self.samples@
    }

    closed spec fn config(&self) -> EmbedConfig {
        self.extra@
    }

    closed spec fn frame(&self) -> Seq<i16> {
        self.blocks@
    }

    proof fn lemma_wf(&self) {
    }

    fn sample_count(&self) -> (n: usize) {
        self.samples.len()
    }

    fn total_size(&self) -> (n: usize) {
        total_bits(self.samples.len(), self.extra.bits)
    }

    fn extra(&self) -> (e: &ExtraArgs) {
        &self.extra
    }

    fn write_header(&mut self, len: u32) -> (r: Result<(), Error>) {
        write_header(&mut self.samples, self.extra.depth, self.extra.bits, len)
    }

    fn write(&mut self, data: &[u8], seek: usize, max_step: usize) -> (r: Result<(), Error>) {
        let mut rng = Stepper::new(&self.extra.key);
        write_walk(&mut self.samples, self.extra.depth, self.extra.bits, data, seek, max_step, &mut rng)
    }
}

} // verus!
