//! Embedding in a PNG carrier: the samples are the channel bytes.

use vstd::prelude::*;
use crate::bitqueue::bits_of;
use crate::encode::Encoder;
use crate::error::Error;
use crate::options::EmbedConfig;
use crate::options::ExtraArgs;
use crate::options::ImageOptions;
use crate::plan::capacity_bits;
use crate::plan::total_bits;
use crate::raster::channel_count;
use crate::raster::compression_code;
use crate::raster::filter_code;
use crate::raster::load;
use crate::raster::loaded;
use crate::raster::png_file;
use crate::raster::write_png;
use crate::raster::ColorKind;
use crate::raster::Raster;
use crate::raster::RasterView;
use crate::stepper::Stepper;
use crate::walk::write_header;
use crate::walk::write_walk;

verus! {

/// What a codec answers to a carrier image and a configuration: the
/// configuration is looked at first; then the image must be RGB or RGBA, and
/// its samples few enough to be counted in bits.
pub open spec fn carrier_check(image: RasterView, cfg: EmbedConfig) -> Result<(), Error> {
    if !cfg.valid() {
        Err(Error::InvalidParameters)
    } else if image.color == ColorKind::Other || image.samples.len() * 8 > usize::MAX {
        Err(Error::UnsupportedFormat)
    } else {
        Ok(())
    }
}

/// The image that a codec over a PNG file's bytes works on, or why there is
/// no such codec: the configuration is looked at first, then whether the
/// bytes decode, then the image.
pub open spec fn opened(buffer: Seq<u8>, cfg: EmbedConfig) -> Result<RasterView, Error> {
    if !cfg.valid() {
        Err(Error::InvalidParameters)
    } else {
        match loaded(buffer) {
            Err(e) => Err(e),
            Ok(image) => match carrier_check(image, cfg) {
                Err(e) => Err(e),
                Ok(_) => Ok(image),
            },
        }
    }
}

/// Whether a carrier image and a configuration make a codec.
pub fn check_carrier(image: &Raster, extra: &ExtraArgs) -> (r: Result<(), Error>)
    ensures
        r == carrier_check(image@, extra@),
{
    if !extra.is_valid() {
        Err(Error::InvalidParameters)
    } else if image.color() == ColorKind::Other || image.as_bytes().len() > usize::MAX / 8 {
        Err(Error::UnsupportedFormat)
    } else {
        Ok(())
    }
}

/// An encoder over a decoded PNG image.
pub struct PngEncoder {
    width: u32,
    height: u32,
    color: ColorKind,
    samples: Vec<u8>,
    extra: ExtraArgs,
}

impl PngEncoder {
    /// The carrier image as it stands: the size and the layout it came
    /// with, and the samples as they are now.
    pub open spec fn image(&self) -> RasterView {
        RasterView {
            width: self.frame().0,
            height: self.frame().1,
            color: self.frame().2,
            samples: self.samples(),
        }
    }

    /// What a well-formed encoder holds is an image: its samples are those
    /// of [`PngEncoder::image`], its frame is that image's size and layout,
    /// and there is a sample for each channel of each pixel.
    pub proof fn lemma_image(&self)
        requires
            self.wf(),
        ensures
            self.image().samples == self.samples(),
            (self.image().width, self.image().height, self.image().color) == self.frame(),
            self.image().color != ColorKind::Other,
            self.image().consistent(),
            self.samples().len() == self.frame().0 * self.frame().1 * channel_count(self.frame().2),
    {
    }

    /// An encoder over `image`, if the configuration is valid and the image
    /// is RGB or RGBA.
    pub fn new(image: Raster, extra: ExtraArgs) -> (r: Result<Self, Error>)
        ensures
            match r {
                Ok(enc) => {
                    &&& carrier_check(image@, extra@) is Ok
                    &&& enc.wf()
                    &&& enc.image() == image@
                    &&& enc.samples() == image@.samples
                    &&& enc.samples().len() == image@.width * image@.height * channel_count(image@.color)
                    &&& enc.config() == extra@
                },
                Err(e) => carrier_check(image@, extra@) == Err::<(), Error>(e),
            },
    {
        match check_carrier(&image, &extra) {
            Err(e) => {
                return Err(e);
            },
            Ok(_) => {},
        }
        let width = image.width();
        let height = image.height();
        let color = image.color();
        Ok(PngEncoder { width, height, color, samples: image.into_raw(), extra })
    }

    /// An encoder over the image that a PNG file's bytes decode to. The
    /// configuration is looked at before the bytes.
    pub fn open(buffer: &[u8], extra: ExtraArgs) -> (r: Result<Self, Error>)
        ensures
            match opened(buffer@, extra@) {
                Ok(image) => {
                    &&& r matches Ok(enc)
                    &&& enc.wf()
                    &&& enc.image() == image
                    &&& enc.samples() == image.samples
                    &&& enc.config() == extra@
                },
                Err(e) => r matches Err(x) && x == e,
            },
    {
        if !extra.is_valid() {
            return Err(Error::InvalidParameters);
        }
        match load(buffer) {
            Err(e) => Err(e),
            Ok(image) => PngEncoder::new(image, extra),
        }
    }

    /// The carrier's samples as they stand.
    pub fn as_bytes(&self) -> (s: &Vec<u8>)
        ensures
            s@ == self.samples(),
    {
        &self.samples
    }

    /// The carrier image as it stands, given away.
    pub fn into_image(self) -> (r: Result<Raster, Error>)
        requires
            self.wf(),
        ensures
            r matches Ok(img) && img@ == self.image() && img@.samples == self.samples(),
    {
        Raster::new(self.width, self.height, self.color, self.samples)
    }

    /// The carrier as a PNG file.
    pub fn encode_image(&self, image_opts: ImageOptions) -> (r: Result<Vec<u8>, Error>)
        requires
            self.wf(),
        ensures
            match png_file(
                self.samples(),
                self.image().width,
                self.image().height,
                channel_count(self.image().color),
                compression_code(image_opts.png.compression),
                filter_code(image_opts.png.filter),
            ) {
                Some(bytes) => r matches Ok(file) && file@ == bytes,
                None => r matches Err(e) && e == Error::CarrierIoError,
            },
    {
        match write_png(self.samples.as_slice(), self.width, self.height, self.color, image_opts.png) {
            Ok(file) => Ok(file),
            Err(_) => Err(Error::CarrierIoError),
        }
    }
}

impl Encoder for PngEncoder {
    type Frame = (u32, u32, ColorKind);

    closed spec fn wf(&self) -> bool {
        &&& self.extra@.valid()
        &&& self.color != ColorKind::Other
        &&& self.samples@.len() == self.width * self.height * channel_count(self.color)
        &&& self.samples@.len() * 8 <= usize::MAX
    }

    closed spec fn samples(&self) -> Seq<u8> {
        self.samples@
    }

    closed spec fn config(&self) -> EmbedConfig {
        self.extra@
    }

    closed spec fn frame(&self) -> (u32, u32, ColorKind) {
        (self.width, self.height, self.color)
    }

    proof fn lemma_wf(&self) {
    }

    fn sample_count(&self) -> (n: usize) {
        self.samples.len()
    }

    fn total_size(&self) -> (n: usize) {
        total_bits(self.samples.len(), self.extra.bits)
    }

    fn extra(&self) -> (e: &ExtraArgs) {
        &self.extra
    }

    fn write_header(&mut self, len: u32) -> (r: Result<(), Error>) {
        write_header(&mut self.samples, self.extra.depth, self.extra.bits, len)
    }

    fn write(&mut self, data: &[u8], seek: usize, max_step: usize) -> (r: Result<(), Error>) {
        let mut rng = Stepper::new(&self.extra.key);
        write_walk(&mut self.samples, self.extra.depth, self.extra.bits, data, seek, max_step, &mut rng)
    }
}

} // verus!
