use s739::decode::jpeg::JpegDecoder;
use s739::decode::png::PngDecoder;
use s739::decode::Decoder;
use s739::encode::jpeg::JpegEncoder;
use s739::encode::png::PngEncoder;
use s739::encode::Encoder;
use s739::error::Error;
use s739::options::{ExtraArgs, ImageOptions};
use s739::raster::{load, ColorKind, Raster};
use s739::utils::jpeg::{put_blocks, Component};

/// A small generator of test data, so that every run sees the same bytes.
struct Lcg(u64);

impl Lcg {
    fn next(&mut self) -> u64 {
        self.0 = self.0.wrapping_mul(6364136223846793005).wrapping_add(1442695040888963407);
        self.0 >> 33
    }
}

fn rand_string(size: usize, seed: u64) -> Vec<u8> {
    let alphabet = b"ABCDEFGHIJKLMNOPQRSTUVWXYZabcdefghijklmnopqrstuvwxyz0123456789";
    let mut rng = Lcg(seed);
    (0..size).map(|_| alphabet[(rng.next() % alphabet.len() as u64) as usize]).collect()
}

fn png_carrier(width: u32, height: u32, random: bool) -> Vec<u8> {
    let mut samples = vec![0u8; (width * height * 3) as usize];
    if random {
        let mut rng = Lcg(7);
        for s in samples.iter_mut() {
            *s = rng.next() as u8;
        }
    }
    let image = Raster::new(width, height, ColorKind::Rgb8, samples).unwrap();
    let encoder = PngEncoder::new(image, ExtraArgs::default()).unwrap();
    encoder.encode_image(ImageOptions::default()).unwrap()
}

fn png_e2e(image_size: (u32, u32), data_size: usize, extra: ExtraArgs) -> Result<(), Error> {
    let data = rand_string(data_size, data_size as u64 + 1);
    let carrier = png_carrier(image_size.0, image_size.1, false);

    let mut encoder = PngEncoder::new(load(&carrier)?, extra.clone())?;
    encoder.write_data(&data)?;
    let buffer = encoder.encode_image(ImageOptions::default())?;

    let decoder = PngDecoder::new(load(&buffer)?, extra.clone())?;
    let decoded_data = decoder.read_data()?;
    assert_eq!(decoded_data, data);

    if extra.key.is_some() {
        let mut wrong_extra = extra;
        wrong_extra.key = None;
        let decoder = PngDecoder::new(load(&buffer)?, wrong_extra)?;
        let decoded_data = decoder.read_data()?;
        assert_ne!(decoded_data, data);
    }
    Ok(())
}

/// The components of a 128 x 128 image without subsampling: three of 16 x 16
/// blocks.
fn synthetic_components(random: bool) -> Vec<Component> {
    let mut rng = Lcg(11);
    (0..3)
        .map(|_| {
            let coefs: Vec<i16> = (0..16 * 16 * 64)
                .map(|_| if random { (rng.next() % 41) as i16 - 20 } else { 0 })
                .collect();
            Component::new(16, 16, coefs).unwrap()
        })
        .collect()
}

fn jpeg_e2e(data_size: usize, extra: ExtraArgs, random: bool) -> Result<(), Error> {
    let data = rand_string(data_size, data_size as u64 + 2);
    let components = synthetic_components(random);

    let mut encoder = JpegEncoder::new(&components, extra.clone())?;
    encoder.write_data(&data)?;
    let after = put_blocks(&components, extra.jpeg_comp, &encoder.coefficients())?;

    let decoder = JpegDecoder::new(&after, extra.clone())?;
    let decoded_data = decoder.read_data()?;
    assert_eq!(decoded_data, data);

    if extra.key.is_some() {
        let mut wrong_extra = extra;
        wrong_extra.key = None;
        let decoder = JpegDecoder::new(&after, wrong_extra)?;
        let decoded_data = decoder.read_data()?;
        assert_ne!(decoded_data, data);
    }
    Ok(())
}

#[test]
fn png_default() {
    png_e2e((128, 128), 128, ExtraArgs::default()).unwrap();
}

#[test]
fn jpeg_default() {
    jpeg_e2e(128, ExtraArgs::default(), false).unwrap();
}

#[test]
fn png_key() {
    let extra = ExtraArgs { key: Some("some key".to_string()), ..Default::default() };
    png_e2e((128, 128), 128, extra).unwrap();
}

#[test]
fn jpeg_key() {
    let extra = ExtraArgs { key: Some("some key".to_string()), ..Default::default() };
    jpeg_e2e(128, extra, false).unwrap();
}

#[test]
fn png_depth() {
    for depth in 0..=7 {
        png_e2e((128, 128), 128, ExtraArgs { depth, ..Default::default() }).unwrap();
    }
}

#[test]
fn jpeg_depth() {
    for depth in 0..=7 {
        jpeg_e2e(128, ExtraArgs { depth, ..Default::default() }, false).unwrap();
    }
}

#[test]
fn png_bits() {
    for bits in 1..=8 {
        png_e2e((128, 128), 128, ExtraArgs { bits, ..Default::default() }).unwrap();
    }
}

#[test]
fn jpeg_bits() {
    for bits in 1..=8 {
        jpeg_e2e(128, ExtraArgs { bits, ..Default::default() }, false).unwrap();
    }
}

#[test]
fn png_wrong_depth_and_lsbs() {
    let result = png_e2e((128, 128), 128, ExtraArgs { depth: 2, bits: 7, ..Default::default() });
    assert!(result.is_err());
    assert_eq!(result, Err(Error::InvalidParameters));
}

#[test]
fn jpeg_wrong_depth_and_lsbs() {
    let result = jpeg_e2e(128, ExtraArgs { depth: 7, bits: 2, ..Default::default() }, false);
    assert!(result.is_err());
    assert_eq!(result, Err(Error::InvalidParameters));
}

#[test]
fn png_full() {
    let total_size = 128 * 128 * 3 - 32;
    png_e2e((128, 128), total_size >> 3, ExtraArgs::default()).unwrap();
    png_e2e((128, 128), total_size, ExtraArgs { bits: 8, ..Default::default() }).unwrap();
}

#[test]
fn jpeg_full() {
    let total_size = 128 * 128 * 3 - 32;
    jpeg_e2e(total_size >> 3, ExtraArgs::default(), false).unwrap();
    jpeg_e2e(total_size, ExtraArgs { bits: 8, ..Default::default() }, false).unwrap();
}

#[test]
fn jpeg_components() {
    for comp in 0..3 {
        jpeg_e2e(128, ExtraArgs { jpeg_comp: Some(comp), ..Default::default() }, false).unwrap();
    }
}

#[test]
fn jpeg_selective() {
    jpeg_e2e(128, ExtraArgs { selective: true, ..Default::default() }, true).unwrap();
}
