//! A decoded image as the codec sees it, and the calls into the `image`
//! crate that read and write one.

use vstd::prelude::*;
use image::codecs::png;
use image::ImageEncoder;
use crate::error::Error;
use crate::options::CompressionType;
use crate::options::FilterType;
use crate::options::PngOptions;

verus! {

/// `image::ImageError`, carried through verified code as an opaque value.
#[verifier::external_type_specification]
#[verifier::external_body]
pub struct ExImageError(image::ImageError);

/// What the first bytes of a file say it is.
#[derive(Clone, Copy, Debug, PartialEq, Eq, Structural)]
pub enum ImageKind {
    Png,
    Jpeg,
    Other,
}

/// How a decoded image lays out its samples.
#[derive(Clone, Copy, Debug, PartialEq, Eq, Structural)]
pub enum ColorKind {
    /// Three 8-bit channels a pixel.
    Rgb8,
    /// Four 8-bit channels a pixel.
    Rgba8,
    /// Anything else; such an image carries no samples here.
    Other,
}

/// How many samples a pixel has.
pub open spec fn channel_count(color: ColorKind) -> nat {
    match color {
        ColorKind::Rgb8 => 3,
        ColorKind::Rgba8 => 4,
        ColorKind::Other => 0,
    }
}

/// The eight bytes a PNG file starts with.
pub open spec fn png_signature() -> Seq<u8> {
    seq![0x89u8, 0x50u8, 0x4eu8, 0x47u8, 0x0du8, 0x0au8, 0x1au8, 0x0au8]
}

/// The three bytes a JPEG file starts with.
pub open spec fn jpeg_signature() -> Seq<u8> {
    seq![0xffu8, 0xd8u8, 0xffu8]
}

/// Whether `buffer` begins with `prefix`.
pub open spec fn starts_with(buffer: Seq<u8>, prefix: Seq<u8>) -> bool {
    prefix.len() <= buffer.len() && buffer.subrange(0, prefix.len() as int) == prefix
}

/// What [`detect_format`] answers.
pub open spec fn format_of(buffer: Seq<u8>) -> Result<ImageKind, Error> {
    if starts_with(buffer, png_signature()) {
        Ok(ImageKind::Png)
    } else if starts_with(buffer, jpeg_signature()) {
        Ok(ImageKind::Jpeg)
    } else {
        Err(Error::UnsupportedFormat)
    }
}

/// A decoded image: its size, its layout and its samples, pixel by pixel and
/// within a pixel channel by channel.
#[derive(Debug)]
pub struct Raster {
    width: u32,
    height: u32,
    color: ColorKind,
    samples: Vec<u8>,
}

/// A [`Raster`] as contracts see it.
pub struct RasterView {
    pub width: u32,
    pub height: u32,
    pub color: ColorKind,
    pub samples: Seq<u8>,
}

impl RasterView {
    /// An RGB or RGBA image has one sample for each channel of each pixel.
    pub open spec fn consistent(self) -> bool {
        self.color != ColorKind::Other ==> self.samples.len() == self.width * self.height * channel_count(
            self.color,
        )
    }
}

impl View for Raster {
    type V = RasterView;

    closed spec fn view(&self) -> RasterView {
        RasterView { width: self.width, height: self.height, color: self.color, samples: self.samples@ }
    }
}

/// What `image`'s PNG decoder decodes from a file's bytes: nothing, or the
/// width, the height, the number of channels (0 for a layout that is neither
/// RGB nor RGBA) and the samples of an image.
pub uninterp spec fn decoded_png(buffer: Seq<u8>) -> Option<(u32, u32, nat, Seq<u8>)>;

/// The PNG file that `image`'s `PngEncoder` writes for an image, if it
/// writes one; the last two arguments number the compression and the filter
/// as their enums list them.
pub uninterp spec fn png_file(
    samples: Seq<u8>,
    width: u32,
    height: u32,
    channels: nat,
    compression: nat,
    filter: nat,
) -> Option<Seq<u8>>;

/// The place of a compression type in its enum.
pub open spec fn compression_code(c: CompressionType) -> nat {
    match c {
        CompressionType::Default => 0,
        CompressionType::Fast => 1,
        CompressionType::Best => 2,
    }
}

/// The place of a filter type in its enum.
pub open spec fn filter_code(f: FilterType) -> nat {
    match f {
        FilterType::No => 0,
        FilterType::Sub => 1,
        FilterType::Up => 2,
        FilterType::Avg => 3,
        FilterType::Paeth => 4,
        FilterType::Adaptive => 5,
    }
}

/// `image::guess_format`: the format whose magic bytes the buffer starts
/// with. PNG's and JPEG's are the first two it tries, and no buffer starts
/// with both.
#[verifier::external_body]
pub(crate) fn guess_format(buffer: &[u8]) -> (r: Result<ImageKind, image::ImageError>)
    ensures
        r matches Ok(ImageKind::Png) <==> starts_with(buffer@, png_signature()),
        r matches Ok(ImageKind::Jpeg) <==> starts_with(buffer@, jpeg_signature()),
{
    match image::guess_format(buffer) {
        Ok(image::ImageFormat::Png) => Ok(ImageKind::Png),
        Ok(image::ImageFormat::Jpeg) => Ok(ImageKind::Jpeg),
        Ok(_) => Ok(ImageKind::Other),
        Err(e) => Err(e),
    }
}

/// `image::load_from_memory_with_format` with the format set to PNG: the
/// image that the PNG decoder reads out of a file's bytes, or the error that
/// it reads none. With the format set, the call guesses nothing and looks
/// into no registry of formats or decoders, so the bytes alone determine the
/// outcome. An RGB or RGBA image of 8-bit channels comes with its samples;
/// of any other only the size is kept.
#[verifier::external_body]
pub(crate) fn load_png_from_memory(buffer: &[u8]) -> (r: Result<(u32, u32, ColorKind, Vec<u8>), image::ImageError>)
    ensures
        match r {
            Ok(parts) => decoded_png(buffer@) == Some((parts.0, parts.1, channel_count(parts.2), parts.3@)),
            Err(_) => decoded_png(buffer@) is None,
        },
{
    match image::load_from_memory_with_format(buffer, image::ImageFormat::Png) {
        Ok(image::DynamicImage::ImageRgb8(b)) => Ok((b.width(), b.height(), ColorKind::Rgb8, b.into_raw())),
        Ok(image::DynamicImage::ImageRgba8(b)) => Ok((b.width(), b.height(), ColorKind::Rgba8, b.into_raw())),
        Ok(o) => Ok((o.width(), o.height(), ColorKind::Other, Vec::new())),
        Err(e) => Err(e),
    }
}

/// `PngEncoder::new_with_quality(..).write_image(..)` of `image`: the PNG
/// file of an RGB or RGBA image, or the error that there is none (an image
/// without pixels has none); the arguments alone determine which. The call
/// panics on a buffer whose length is not that of the image, so that length
/// is asked for.
#[verifier::external_body]
pub(crate) fn write_png(samples: &[u8], width: u32, height: u32, color: ColorKind, opts: PngOptions) -> (r: Result<
    Vec<u8>,
    image::ImageError,
>)
    requires
        color != ColorKind::Other,
        samples@.len() == width * height * channel_count(color),
    ensures
        match r {
            Ok(file) => png_file(
                samples@,
                width,
                height,
                channel_count(color),
                compression_code(opts.compression),
                filter_code(opts.filter),
            ) == Some(file@),
            Err(_) => png_file(
                samples@,
                width,
                height,
                channel_count(color),
                compression_code(opts.compression),
                filter_code(opts.filter),
            ) is None,
        },
{
    let c = [png::CompressionType::Default, png::CompressionType::Fast, png::CompressionType::Best];
    let f = [
        png::FilterType::NoFilter,
        png::FilterType::Sub,
        png::FilterType::Up,
        png::FilterType::Avg,
        png::FilterType::Paeth,
        png::FilterType::Adaptive,
    ];
    let k = [image::ExtendedColorType::Rgb8, image::ExtendedColorType::Rgba8][color as usize];
    let mut out = Vec::new();
    let to = png::PngEncoder::new_with_quality(&mut out, c[opts.compression as usize], f[opts.filter as usize]);
    to.write_image(samples, width, height, k).map(|_| out)
}

impl Raster {
    /// An RGB or RGBA image has one sample for each channel of each pixel.
    #[verifier::type_invariant]
    spec fn consistent(&self) -> bool {
        self@.consistent()
    }

    /// An image from its parts, if they agree: an RGB or RGBA image has one
    /// sample for each channel of each pixel.
    pub fn new(width: u32, height: u32, color: ColorKind, samples: Vec<u8>) -> (r: Result<Raster, Error>)
        ensures
            match r {
                Ok(img) => {
                    &&& img@ == (RasterView { width, height, color, samples: samples@ })
                    &&& color != ColorKind::Other
                    &&& img@.consistent()
                },
                Err(e) => {
                    &&& e == Error::UnsupportedFormat
                    &&& (color == ColorKind::Other || samples@.len() != width * height * channel_count(color))
                },
            },
    {
        let channels: u128 = match color {
            ColorKind::Rgb8 => 3,
            ColorKind::Rgba8 => 4,
            ColorKind::Other => {
                return Err(Error::UnsupportedFormat);
            },
        };
        assert(width * height * channels <= 0xffff_ffff * 0xffff_ffff * 4) by (nonlinear_arith)
            requires
                0 <= width <= 0xffff_ffff,
                0 <= height <= 0xffff_ffff,
                0 <= channels <= 4,
        ;
        assert(0 <= width * height <= 0xffff_ffff * 0xffff_ffff) by (nonlinear_arith)
            requires
                0 <= width <= 0xffff_ffff,
                0 <= height <= 0xffff_ffff,
        ;
        let expected: u128 = (width as u128) * (height as u128) * channels;
        if samples.len() as u128 != expected {
            return Err(Error::UnsupportedFormat);
        }
        Ok(Raster { width, height, color, samples })
    }

    /// The image's width in pixels.
    pub fn width(&self) -> (w: u32)
        ensures
            w == self@.width,
    {
        self.width
    }

    /// The image's height in pixels.
    pub fn height(&self) -> (h: u32)
        ensures
            h == self@.height,
    {
        self.height
    }

    /// The image's layout.
    pub fn color(&self) -> (c: ColorKind)
        ensures
            c == self@.color,
    {
        self.color
    }

    /// The image's samples.
    pub fn as_bytes(&self) -> (s: &Vec<u8>)
        ensures
            s@ == self@.samples,
    {
        &self.samples
    }

    /// The image's samples, given away.
    pub fn into_raw(self) -> (s: Vec<u8>)
        ensures
            s@ == self@.samples,
            self@.consistent(),
    {
        proof {
            use_type_invariant(&self);
        }
        self.samples
    }
}

/// Tells a PNG file from a JPEG file by its first bytes, and refuses every
/// other.
pub fn detect_format(buffer: &[u8]) -> (r: Result<ImageKind, Error>)
    ensures
        r == format_of(buffer@),
{
    proof {
        assert(png_signature()[0] == 0x89u8);
        assert(jpeg_signature()[0] == 0xffu8);
        if starts_with(buffer@, png_signature()) && starts_with(buffer@, jpeg_signature()) {
            assert(buffer@.subrange(0, 8)[0] == buffer@[0]);
            assert(buffer@.subrange(0, 3)[0] == buffer@[0]);
        }
    }
    match guess_format(buffer) {
        Ok(ImageKind::Png) => Ok(ImageKind::Png),
        Ok(ImageKind::Jpeg) => Ok(ImageKind::Jpeg),
        Ok(ImageKind::Other) => Err(Error::UnsupportedFormat),
        Err(_) => Err(Error::UnsupportedFormat),
    }
}

/// The layout of an image with that many channels.
pub open spec fn color_of(channels: nat) -> ColorKind {
    if channels == 3 {
        ColorKind::Rgb8
    } else if channels == 4 {
        ColorKind::Rgba8
    } else {
        ColorKind::Other
    }
}

/// What decoding a PNG carrier's bytes answers: the image that the bytes
/// decode to; an i/o error where they decode to none, as PNG; and
/// `UnsupportedFormat` for an RGB or RGBA image that comes without a sample
/// for each channel of each pixel.
pub open spec fn loaded(buffer: Seq<u8>) -> Result<RasterView, Error> {
    match decoded_png(buffer) {
        None => Err(Error::CarrierIoError),
        Some((width, height, channels, samples)) => {
            let image = RasterView { width, height, color: color_of(channels), samples };
            if image.consistent() {
                Ok(image)
            } else {
                Err(Error::UnsupportedFormat)
            }
        },
    }
}

/// Decodes a PNG carrier's bytes.
pub fn load(buffer: &[u8]) -> (r: Result<Raster, Error>)
    ensures
        match loaded(buffer@) {
            Ok(image) => r matches Ok(img) && img@ == image,
            Err(e) => r matches Err(x) && x == e,
        },
{
    match load_png_from_memory(buffer) {
        Err(_) => Err(Error::CarrierIoError),
        Ok((width, height, color, samples)) => match color {
            ColorKind::Other => Ok(Raster { width, height, color, samples }),
            _ => Raster::new(width, height, color, samples),
        },
    }
}

} // verus!
