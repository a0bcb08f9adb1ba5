use image::codecs::png;
use image::ImageEncoder;
use s739::decode::jpeg::JpegDecoder;
use s739::decode::png::PngDecoder;
use s739::decode::Decoder;
use s739::encode::jpeg::JpegEncoder;
use s739::encode::png::PngEncoder;
use s739::encode::Encoder;
use s739::error::Error;
use s739::options::{
    CompressProfile, CompressionType, ExtraArgs, FilterType, ImageOptions, JpegOptions, PngOptions,
};
use s739::raster::{detect_format, load, ColorKind, ImageKind, Raster};
use s739::stepper::Stepper;
use s739::utils::jpeg::{get_blocks, low, put_blocks, selective_check, with_low, Blocks, Component};
use s739::walk::{read_header, read_walk, write_header, write_walk};

fn patterned(len: usize) -> Vec<u8> {
    (0..len).map(|i| (i * 37 + 11) as u8).collect()
}

fn rgb(width: u32, height: u32) -> Raster {
    Raster::new(width, height, ColorKind::Rgb8, patterned((width * height * 3) as usize)).unwrap()
}

fn coefficients(len: usize) -> Vec<i16> {
    (0..len).map(|i| ((i * 7919) % 61) as i16 - 30).collect()
}

#[test]
fn options_have_the_documented_defaults() {
    let extra = ExtraArgs::default();
    assert_eq!(extra.key, None);
    assert!(!extra.selective);
    assert_eq!(extra.depth, 0);
    assert_eq!(extra.bits, 1);
    assert_eq!(extra.jpeg_comp, None);
    assert_eq!(extra.max_step, None);
    assert!(extra.is_valid());
    let image = ImageOptions::default();
    assert_eq!(image.png, PngOptions { compression: CompressionType::Fast, filter: FilterType::Adaptive });
    assert_eq!(image.jpeg, JpegOptions { compress_profile: CompressProfile::Max });
    assert_eq!(CompressionType::default(), CompressionType::Fast);
    assert_eq!(FilterType::default(), FilterType::Adaptive);
    assert_eq!(CompressProfile::default(), CompressProfile::Max);
}

#[test]
fn options_have_command_line_names() {
    assert_eq!(CompressionType::Default.name(), "default");
    assert_eq!(CompressionType::Fast.name(), "fast");
    assert_eq!(CompressionType::Best.name(), "best");
    assert_eq!(FilterType::No.name(), "no");
    assert_eq!(FilterType::Sub.name(), "sub");
    assert_eq!(FilterType::Up.name(), "up");
    assert_eq!(FilterType::Avg.name(), "avg");
    assert_eq!(FilterType::Paeth.name(), "paeth");
    assert_eq!(FilterType::Adaptive.name(), "adaptive");
    assert_eq!(CompressProfile::Max.name(), "max");
    assert_eq!(CompressProfile::Fastest.name(), "fastest");
}

#[test]
fn window_must_lie_inside_a_byte() {
    for depth in 0..=9usize {
        for bits in 0..=9usize {
            let extra = ExtraArgs { depth, bits, ..Default::default() };
            assert_eq!(extra.is_valid(), bits >= 1 && depth + bits <= 8);
        }
    }
    assert!(!ExtraArgs { depth: usize::MAX, bits: 2, ..Default::default() }.is_valid());
}

#[test]
fn errors_have_messages() {
    assert_eq!(Error::InvalidParameters.message(), "invalid parameters");
    assert_eq!(Error::UnsupportedFormat.message(), "unsupported image format");
    assert_eq!(Error::TooMuchData.message(), "too much data");
    assert_eq!(Error::InvalidDataSize.message(), "invalid data size");
    assert_eq!(Error::TooBigStep.message(), "too big step");
    assert_eq!(Error::CarrierTruncated.message(), "image ended but data not");
    assert_eq!(Error::CarrierIoError.message(), "carrier i/o error");
    assert_eq!(Error::PayloadIoError.message(), "payload i/o error");
}

#[test]
fn format_is_told_by_the_first_bytes() {
    assert_eq!(detect_format(&[0x89, b'P', b'N', b'G', b'\r', b'\n', 0x1a, b'\n', 0, 0]), Ok(ImageKind::Png));
    assert_eq!(detect_format(&[0xff, 0xd8, 0xff, 0xe0]), Ok(ImageKind::Jpeg));
    assert_eq!(detect_format(&[0xff, 0xd8, 0xff]), Ok(ImageKind::Jpeg));
    assert_eq!(detect_format(b"GIF89a"), Err(Error::UnsupportedFormat));
    assert_eq!(detect_format(b"BM123456"), Err(Error::UnsupportedFormat));
    assert_eq!(detect_format(&[0x89, b'P', b'N', b'G']), Err(Error::UnsupportedFormat));
    assert_eq!(detect_format(&[0xff, 0xd8]), Err(Error::UnsupportedFormat));
    assert_eq!(detect_format(&[]), Err(Error::UnsupportedFormat));
}

#[test]
fn raster_wants_a_sample_for_each_channel() {
    assert!(Raster::new(2, 3, ColorKind::Rgb8, vec![0; 18]).is_ok());
    assert!(Raster::new(2, 3, ColorKind::Rgba8, vec![0; 24]).is_ok());
    assert_eq!(Raster::new(2, 3, ColorKind::Rgb8, vec![0; 17]).err(), Some(Error::UnsupportedFormat));
    assert_eq!(Raster::new(2, 3, ColorKind::Rgba8, vec![0; 18]).err(), Some(Error::UnsupportedFormat));
    assert_eq!(Raster::new(2, 3, ColorKind::Other, vec![]).err(), Some(Error::UnsupportedFormat));
    let image = Raster::new(2, 3, ColorKind::Rgba8, patterned(24)).unwrap();
    assert_eq!((image.width(), image.height(), image.color()), (2, 3, ColorKind::Rgba8));
    assert_eq!(image.as_bytes(), &patterned(24));
    assert_eq!(image.into_raw(), patterned(24));
}

#[test]
fn png_file_keeps_every_sample() {
    for color in [ColorKind::Rgb8, ColorKind::Rgba8] {
        let channels = if color == ColorKind::Rgb8 { 3 } else { 4 };
        let samples = patterned(5 * 7 * channels);
        let image = Raster::new(5, 7, color, samples.clone()).unwrap();
        let encoder = PngEncoder::new(image, ExtraArgs::default()).unwrap();
        for compression in [CompressionType::Default, CompressionType::Fast, CompressionType::Best] {
            for filter in [
                FilterType::No,
                FilterType::Sub,
                FilterType::Up,
                FilterType::Avg,
                FilterType::Paeth,
                FilterType::Adaptive,
            ] {
                let options = ImageOptions { png: PngOptions { compression, filter }, ..Default::default() };
                let file = encoder.encode_image(options).unwrap();
                assert_ne!(file, samples);
                assert_eq!(detect_format(&file), Ok(ImageKind::Png));
                let back = load(&file).unwrap();
                assert_eq!((back.width(), back.height(), back.color()), (5, 7, color));
                assert_eq!(back.into_raw(), samples);
            }
        }
    }
}

#[test]
fn png_file_is_what_the_image_crate_reads() {
    let samples = patterned(4 * 4 * 3);
    let encoder = PngEncoder::new(Raster::new(4, 4, ColorKind::Rgb8, samples.clone()).unwrap(), ExtraArgs::default())
        .unwrap();
    let file = encoder.encode_image(ImageOptions::default()).unwrap();
    let image = image::load_from_memory(&file).unwrap();
    assert_eq!(image.color(), image::ColorType::Rgb8);
    assert_eq!((image.width(), image.height()), (4, 4));
    assert_eq!(image.as_bytes(), &samples[..]);
}

#[test]
fn png_file_is_what_the_image_crate_writes() {
    let samples = patterned(9 * 6 * 4);
    let encoder = PngEncoder::new(Raster::new(9, 6, ColorKind::Rgba8, samples.clone()).unwrap(), ExtraArgs::default())
        .unwrap();
    let compressions = [
        (CompressionType::Default, png::CompressionType::Default),
        (CompressionType::Fast, png::CompressionType::Fast),
        (CompressionType::Best, png::CompressionType::Best),
    ];
    let filters = [
        (FilterType::No, png::FilterType::NoFilter),
        (FilterType::Sub, png::FilterType::Sub),
        (FilterType::Up, png::FilterType::Up),
        (FilterType::Avg, png::FilterType::Avg),
        (FilterType::Paeth, png::FilterType::Paeth),
        (FilterType::Adaptive, png::FilterType::Adaptive),
    ];
    let mut distinct = Vec::new();
    for (compression, theirs_c) in compressions {
        for (filter, theirs_f) in filters {
            let options = ImageOptions { png: PngOptions { compression, filter }, ..Default::default() };
            let ours = encoder.encode_image(options).unwrap();
            let mut theirs = Vec::new();
            png::PngEncoder::new_with_quality(&mut theirs, theirs_c, theirs_f)
                .write_image(&samples, 9, 6, image::ExtendedColorType::Rgba8)
                .unwrap();
            assert_eq!(ours, theirs);
            if !distinct.contains(&ours) {
                distinct.push(ours);
            }
        }
    }
    assert!(distinct.len() > 1);
}

#[test]
fn carrier_that_does_not_decode_is_an_io_error() {
    assert_eq!(load(b"no image at all").err(), Some(Error::CarrierIoError));
    assert_eq!(load(&[0x89, b'P', b'N', b'G', b'\r', b'\n', 0x1a, b'\n', 1, 2, 3]).err(), Some(Error::CarrierIoError));
}

#[test]
fn carrier_is_decoded_as_png_only() {
    let mut file = Vec::new();
    image::DynamicImage::ImageRgb8(image::RgbImage::new(8, 8))
        .write_to(&mut std::io::Cursor::new(&mut file), image::ImageFormat::Jpeg)
        .unwrap();
    assert_eq!(detect_format(&file), Ok(ImageKind::Jpeg));
    assert!(image::load_from_memory(&file).is_ok());
    assert_eq!(load(&file).err(), Some(Error::CarrierIoError));
    assert_eq!(PngEncoder::open(&file, ExtraArgs::default()).err(), Some(Error::CarrierIoError));
    assert_eq!(PngDecoder::open(&file, ExtraArgs::default()).err(), Some(Error::CarrierIoError));
}

#[test]
fn encoder_gives_its_image_away_with_the_payload_in_it() {
    let mut encoder = PngEncoder::new(rgb(16, 16), ExtraArgs::default()).unwrap();
    assert_eq!(encoder.write_data(b"payload"), Ok(()));
    let samples = encoder.as_bytes().clone();
    assert_ne!(samples, patterned(768));
    let image = encoder.into_image().unwrap();
    assert_eq!((image.width(), image.height(), image.color()), (16, 16, ColorKind::Rgb8));
    assert_eq!(image.as_bytes(), &samples);
}

#[test]
fn carrier_of_another_layout_is_unsupported() {
    let mut file = Vec::new();
    let gray = image::GrayImage::new(8, 8);
    image::DynamicImage::ImageLuma8(gray)
        .write_to(&mut std::io::Cursor::new(&mut file), image::ImageFormat::Png)
        .unwrap();
    let image = load(&file).unwrap();
    assert_eq!(image.color(), ColorKind::Other);
    assert_eq!(PngEncoder::new(image, ExtraArgs::default()).err(), Some(Error::UnsupportedFormat));
    assert_eq!(PngDecoder::new(load(&file).unwrap(), ExtraArgs::default()).err(), Some(Error::UnsupportedFormat));
    let bad = ExtraArgs { depth: 8, ..Default::default() };
    assert_eq!(PngEncoder::new(load(&file).unwrap(), bad).err(), Some(Error::InvalidParameters));
}

#[test]
fn invalid_window_is_refused_whatever_the_carrier() {
    for (depth, bits) in [(2usize, 7usize), (7, 2), (8, 1), (0, 9), (0, 0), (100, 100)] {
        let extra = ExtraArgs { depth, bits, ..Default::default() };
        assert_eq!(PngEncoder::new(rgb(8, 8), extra.clone()).err(), Some(Error::InvalidParameters));
        assert_eq!(PngDecoder::new(rgb(8, 8), extra.clone()).err(), Some(Error::InvalidParameters));
        let components = vec![Component::new(1, 1, coefficients(64)).unwrap()];
        assert_eq!(JpegEncoder::new(&components, extra.clone()).err(), Some(Error::InvalidParameters));
        assert_eq!(JpegDecoder::new(&components, extra).err(), Some(Error::InvalidParameters));
    }
}

#[test]
fn header_goes_into_the_first_32_samples() {
    let mut samples = vec![0u8; 40];
    assert_eq!(write_header(&mut samples, 0, 1, 0x0000_0105), Ok(()));
    let mut expected = vec![0u8; 40];
    expected[0] = 1;
    expected[2] = 1;
    expected[8] = 1;
    assert_eq!(samples, expected);
    assert_eq!(read_header(&samples, 0), Ok(0x0000_0105));

    let mut samples = vec![0xFFu8; 33];
    assert_eq!(write_header(&mut samples, 1, 2, 1), Ok(()));
    assert_eq!(samples[0], 0xFB);
    assert!(samples[1..32].iter().all(|s| *s == 0xF9));
    assert_eq!(samples[32], 0xFF);
    assert_eq!(read_header(&samples, 1), Ok(1));
}

#[test]
fn header_needs_32_samples() {
    let mut samples = vec![7u8; 31];
    assert_eq!(write_header(&mut samples, 0, 1, 5), Err(Error::CarrierTruncated));
    assert_eq!(samples, vec![7u8; 31]);
    assert_eq!(read_header(&samples, 0), Err(Error::CarrierTruncated));
}

#[test]
fn header_round_trips_at_every_window() {
    for bits in 1..=8usize {
        for depth in 0..=(8 - bits) {
            for len in [0u32, 1, 128, 0xFFFF_FFFF, 0x8000_0001, 49_120] {
                let mut samples = patterned(64);
                assert_eq!(write_header(&mut samples, depth, bits, len), Ok(()));
                assert_eq!(read_header(&samples, depth), Ok(len));
                assert_eq!(samples[32..], patterned(64)[32..]);
            }
        }
    }
}

#[test]
fn walk_without_a_stride_fills_sample_after_sample() {
    let mut samples = vec![0u8; 40];
    let mut rng = Stepper::new(&None);
    assert_eq!(write_walk(&mut samples, 0, 1, &[0b1010_0101], 32, 0, &mut rng), Ok(()));
    assert_eq!(samples[..32], vec![0u8; 32][..]);
    assert_eq!(samples[32..], [1, 0, 1, 0, 0, 1, 0, 1]);
    let mut rng = Stepper::new(&None);
    assert_eq!(read_walk(&samples, 0, 1, 1, 32, 1, &mut rng), Ok(vec![0b1010_0101]));
}

#[test]
fn walk_packs_the_first_bit_highest() {
    let mut samples = vec![0xFFu8; 4];
    let mut rng = Stepper::new(&None);
    // The bits of 0x35, lowest first: 1 0 1 0 1 1 0 0; three to a sample.
    assert_eq!(write_walk(&mut samples, 2, 3, &[0x35], 1, 0, &mut rng), Ok(()));
    assert_eq!(samples, vec![0xFF, 0xF7, 0xEF, 0xE3]);
    let mut rng = Stepper::new(&None);
    assert_eq!(read_walk(&samples, 2, 3, 1, 1, 0, &mut rng), Ok(vec![0x35]));
}

#[test]
fn walk_that_leaves_the_carrier_is_truncated() {
    let mut samples = vec![0u8; 40];
    let mut rng = Stepper::new(&None);
    assert_eq!(write_walk(&mut samples, 0, 1, &[0xFF], 36, 0, &mut rng), Err(Error::CarrierTruncated));
    assert_eq!(samples[36..], [1, 1, 1, 1]);
    let mut rng = Stepper::new(&None);
    assert_eq!(read_walk(&samples, 0, 1, 1, 36, 0, &mut rng), Err(Error::CarrierTruncated));
    let mut rng = Stepper::new(&None);
    assert_eq!(read_walk(&samples, 0, 1, 1, usize::MAX, 0, &mut rng), Err(Error::CarrierTruncated));
    let mut rng = Stepper::new(&None);
    assert_eq!(read_walk(&samples, 0, 1, 0, 36, 0, &mut rng), Ok(vec![]));
}

#[test]
fn walk_round_trips_under_a_key() {
    let key = Some("walk".to_string());
    let payload = patterned(100);
    for bits in [1usize, 3, 5, 8] {
        let mut samples = patterned(20_000);
        let mut rng = Stepper::new(&key);
        assert_eq!(write_walk(&mut samples, 0, bits, &payload, 32, 20, &mut rng), Ok(()));
        let mut rng = Stepper::new(&key);
        assert_eq!(read_walk(&samples, 0, bits, payload.len(), 32, 20, &mut rng), Ok(payload.clone()));
        let mut rng = Stepper::new(&None);
        assert_ne!(read_walk(&samples, 0, bits, payload.len(), 32, 20, &mut rng), Ok(payload.clone()));
    }
}

#[test]
fn capacity_boundary_is_exact() {
    for bits in 1..=8usize {
        let extra = ExtraArgs { bits, ..Default::default() };
        let mut encoder = PngEncoder::new(rgb(16, 16), extra.clone()).unwrap();
        let capacity = (16 * 16 * 3 - 32) * bits;
        assert_eq!(encoder.sample_count(), 768);
        assert_eq!(encoder.total_size(), capacity);
        let most = capacity / 8;
        assert_eq!(encoder.check_size(most), Ok(()));
        assert_eq!(encoder.check_size(most + 1), Err(Error::TooMuchData));
        assert_eq!(encoder.write_data(&patterned(most + 1)), Err(Error::TooMuchData));
        assert_eq!(encoder.as_bytes(), &patterned(768));
        assert_eq!(encoder.write_data(&patterned(most)), Ok(()));
        let decoder = PngDecoder::new(encoder.into_image().unwrap(), extra).unwrap();
        assert_eq!(decoder.total_size(), capacity);
        assert_eq!(decoder.read_data(), Ok(patterned(most)));
    }
}

#[test]
fn empty_payload_is_refused() {
    let mut encoder = PngEncoder::new(rgb(16, 16), ExtraArgs::default()).unwrap();
    assert_eq!(encoder.check_size(0), Err(Error::InvalidParameters));
    assert_eq!(encoder.write_data(&[]), Err(Error::InvalidParameters));
    assert_eq!(encoder.as_bytes(), &patterned(768));
}

#[test]
fn carrier_without_room_is_refused() {
    let mut encoder = PngEncoder::new(rgb(3, 3), ExtraArgs::default()).unwrap();
    assert_eq!(encoder.total_size(), 0);
    assert_eq!(encoder.write_data(&[1]), Err(Error::TooMuchData));
    let decoder = PngDecoder::new(rgb(3, 3), ExtraArgs::default()).unwrap();
    assert_eq!(decoder.read_data(), Err(Error::CarrierTruncated));
}

#[test]
fn stride_of_the_encoder_follows_the_planner() {
    let encoder = PngEncoder::new(rgb(128, 128), ExtraArgs::default()).unwrap();
    assert_eq!(encoder.max_step(128), Ok(47));
    let encoder = PngEncoder::new(rgb(128, 128), ExtraArgs { bits: 8, ..Default::default() }).unwrap();
    assert_eq!(encoder.max_step(128), Ok(383));
    let encoder = PngEncoder::new(rgb(128, 128), ExtraArgs { max_step: Some(47), ..Default::default() }).unwrap();
    assert_eq!(encoder.max_step(128), Ok(47));
    let mut encoder =
        PngEncoder::new(rgb(128, 128), ExtraArgs { max_step: Some(48), ..Default::default() }).unwrap();
    assert_eq!(encoder.max_step(128), Err(Error::TooBigStep));
    assert_eq!(encoder.write_data(&patterned(128)), Err(Error::TooBigStep));
    assert_eq!(encoder.as_bytes(), &patterned(128 * 128 * 3));
}

#[test]
fn header_does_not_depend_on_key_or_stride() {
    let payload = patterned(77);
    let plain = {
        let mut encoder = PngEncoder::new(rgb(64, 64), ExtraArgs::default()).unwrap();
        encoder.write_data(&payload).unwrap();
        encoder.as_bytes()[..32].to_vec()
    };
    for (key, max_step) in [
        (Some("a".to_string()), None),
        (Some("b".to_string()), Some(3)),
        (None, Some(0)),
        (None, Some(19)),
    ] {
        let mut encoder = PngEncoder::new(rgb(64, 64), ExtraArgs { key, max_step, ..Default::default() }).unwrap();
        encoder.write_data(&payload).unwrap();
        assert_eq!(encoder.as_bytes()[..32], plain[..]);
    }
    let original = patterned(32);
    for (i, sample) in plain.iter().enumerate() {
        assert_eq!(*sample, (original[i] & 0xFE) | ((77u32 >> i) & 1) as u8);
    }
    for bits in 1..=4usize {
        for depth in 0..=4usize {
            let extra = ExtraArgs { depth, bits, ..Default::default() };
            let mut encoder = PngEncoder::new(rgb(64, 64), extra).unwrap();
            encoder.write_data(&payload).unwrap();
            assert_eq!(read_header(encoder.as_bytes(), depth), Ok(77));
            let mask = !((((1u16 << bits) - 1) as u8) << depth);
            for (i, sample) in encoder.as_bytes()[..32].iter().enumerate() {
                assert_eq!(*sample, (original[i] & mask) | ((((77u32 >> i) & 1) as u8) << depth));
            }
        }
    }
}

#[test]
fn embedding_touches_the_window_only() {
    for (depth, bits) in [(0usize, 1usize), (3, 2), (4, 4), (7, 1), (0, 8)] {
        let mut encoder = PngEncoder::new(rgb(32, 32), ExtraArgs { depth, bits, ..Default::default() }).unwrap();
        encoder.write_data(&patterned(50)).unwrap();
        let mask = ((((1u16 << bits) - 1) as u8) << depth) as u8;
        for (after, before) in encoder.as_bytes().iter().zip(patterned(32 * 32 * 3)) {
            assert_eq!(after & !mask, before & !mask);
        }
    }
}

#[test]
fn decoder_refuses_a_header_that_cannot_be_true() {
    let zeros = Raster::new(16, 16, ColorKind::Rgb8, vec![0u8; 768]).unwrap();
    let decoder = PngDecoder::new(zeros, ExtraArgs::default()).unwrap();
    assert_eq!(decoder.read_header(), Ok(0));
    assert_eq!(decoder.check_size(0), Err(Error::InvalidDataSize));
    assert_eq!(decoder.read_data(), Err(Error::InvalidDataSize));
    let ones = Raster::new(16, 16, ColorKind::Rgb8, vec![0xFFu8; 768]).unwrap();
    let decoder = PngDecoder::new(ones, ExtraArgs::default()).unwrap();
    assert_eq!(decoder.read_header(), Ok(u32::MAX));
    assert_eq!(decoder.read_data(), Err(Error::InvalidDataSize));
    assert_eq!(decoder.data_size(92), Ok((92, 1)));
    assert_eq!(decoder.data_size(93), Err(Error::InvalidDataSize));
}

#[test]
fn decoder_under_a_stride_takes_the_length_from_the_capacity() {
    let extra = ExtraArgs { bits: 8, max_step: Some(100), ..Default::default() };
    let payload = patterned(61);
    let mut encoder = PngEncoder::new(rgb(128, 128), extra.clone()).unwrap();
    assert_eq!(encoder.write_data(&payload), Ok(()));
    let decoder = PngDecoder::new(encoder.into_image().unwrap(), extra).unwrap();
    assert_eq!(decoder.data_size(7), Ok((61, 100)));
    assert_eq!(decoder.read_data(), Ok(payload));
    let zero = ExtraArgs { max_step: Some(0), ..Default::default() };
    let decoder = PngDecoder::new(rgb(128, 128), zero).unwrap();
    assert_eq!(decoder.read_data(), Err(Error::InvalidParameters));
    let big = ExtraArgs { max_step: Some(10_000), ..Default::default() };
    let decoder = PngDecoder::new(rgb(128, 128), big).unwrap();
    assert_eq!(decoder.read_data(), Err(Error::TooBigStep));
}

#[test]
fn encoder_reports_a_walk_that_leaves_the_carrier() {
    let mut encoder = PngEncoder::new(rgb(4, 4), ExtraArgs::default()).unwrap();
    assert_eq!(encoder.write(&[0xFF], 41, 0), Err(Error::CarrierTruncated));
    let decoder = PngDecoder::new(rgb(4, 4), ExtraArgs::default()).unwrap();
    assert_eq!(decoder.read(1, 41, 0), Err(Error::CarrierTruncated));
    assert_eq!(decoder.read(1, 40, 0).map(|v| v.len()), Ok(1));
}

#[test]
fn selective_check_skips_dc_zero_and_the_mark() {
    let extra = ExtraArgs { selective: true, ..Default::default() };
    assert!(selective_check(&extra, 0, 5));
    assert!(selective_check(&extra, 1, 0));
    assert!(selective_check(&extra, 1, 1));
    assert!(!selective_check(&extra, 1, 2));
    assert!(!selective_check(&extra, 63, -1));
    assert!(!selective_check(&extra, 1, 257));
    let extra = ExtraArgs { selective: true, bits: 2, depth: 1, ..Default::default() };
    assert!(selective_check(&extra, 1, 4));
    assert!(!selective_check(&extra, 1, 1));
    assert!(!selective_check(&extra, 1, 2));
    let extra = ExtraArgs { selective: true, bits: 1, depth: 7, ..Default::default() };
    assert!(selective_check(&extra, 1, 128));
    assert!(!selective_check(&extra, 1, -128));
    let extra = ExtraArgs::default();
    assert!(!selective_check(&extra, 0, 0));
    assert!(!selective_check(&extra, 1, 1));
}

#[test]
fn low_byte_of_a_coefficient() {
    assert_eq!(low(0x1234), 0x34);
    assert_eq!(low(-1), 0xFF);
    assert_eq!(low(-256), 0x00);
    assert_eq!(with_low(0x1234, 0xAB), 0x12AB);
    assert_eq!(with_low(-1, 0x00), -256);
    assert_eq!(with_low(-256, 0x01), -255);
    assert_eq!(with_low(0, 0xFF), 255);
}

#[test]
fn blocks_take_part_unless_skipped() {
    let mut coefs = vec![5i16, 0, 1, 2, -3];
    coefs.resize(64, 0);
    coefs.extend([9i16, 7, 1, 0, -1]);
    let blocks = Blocks::new(coefs.clone());
    assert_eq!(blocks.inner(), &coefs);
    let selective = ExtraArgs { selective: true, ..Default::default() };
    assert_eq!(blocks.iter(&selective), vec![3, 4, 65, 68]);
    assert_eq!(blocks.iter(&ExtraArgs::default()), (0..69).collect::<Vec<usize>>());
    assert_eq!(blocks.gather(&vec![3, 4, 68]), vec![2, 0xFD, 0xFF]);
    let back = blocks.scatter(&vec![3, 4, 68], &vec![0x10, 0x20, 0x30]);
    let mut expected = coefs.clone();
    expected[3] = 0x10;
    expected[4] = -224;
    expected[68] = -208;
    assert_eq!(back.into_inner(), expected);
}

#[test]
fn component_wants_64_coefficients_a_block() {
    assert!(Component::new(2, 3, vec![0; 384]).is_ok());
    assert_eq!(Component::new(2, 3, vec![0; 383]).err(), Some(Error::UnsupportedFormat));
    assert!(Component::new(0, 3, vec![]).is_ok());
    let c = Component::new(2, 1, coefficients(128)).unwrap();
    assert_eq!((c.width_in_blocks(), c.height_in_blocks()), (2, 1));
    assert_eq!(c.coefs(), &coefficients(128));
}

fn three_components() -> Vec<Component> {
    vec![
        Component::new(2, 2, coefficients(256)).unwrap(),
        Component::new(1, 1, coefficients(64).iter().map(|c| c + 1).collect()).unwrap(),
        Component::new(1, 2, coefficients(128).iter().map(|c| c - 1).collect()).unwrap(),
    ]
}

#[test]
fn blocks_are_picked_by_component() {
    let components = three_components();
    let (all, size) = get_blocks(&components, None).unwrap();
    assert_eq!(size, 448);
    let mut expected = components[0].coefs().clone();
    expected.extend(components[1].coefs());
    expected.extend(components[2].coefs());
    assert_eq!(all.inner(), &expected);
    for comp in 0..3u8 {
        let (one, size) = get_blocks(&components, Some(comp)).unwrap();
        assert_eq!(size, components[comp as usize].coefs().len());
        assert_eq!(one.inner(), components[comp as usize].coefs());
    }
    assert_eq!(get_blocks(&components, Some(3)).err(), Some(Error::InvalidParameters));
    assert_eq!(get_blocks(&components, Some(255)).err(), Some(Error::InvalidParameters));
    assert_eq!(get_blocks(&Vec::new(), Some(0)).err(), Some(Error::InvalidParameters));
    assert_eq!(get_blocks(&Vec::new(), None).map(|(b, n)| (b.into_inner(), n)), Ok((vec![], 0)));
}

#[test]
fn blocks_go_back_where_they_came_from() {
    let components = three_components();
    let new: Vec<i16> = (0..448).map(|i| i as i16).collect();
    let out = put_blocks(&components, None, &Blocks::new(new.clone())).unwrap();
    assert_eq!(out[0].coefs(), &new[..256].to_vec());
    assert_eq!(out[1].coefs(), &new[256..320].to_vec());
    assert_eq!(out[2].coefs(), &new[320..].to_vec());
    assert_eq!(get_blocks(&out, None).unwrap().0.into_inner(), new);

    let one: Vec<i16> = (0..64).map(|i| -(i as i16)).collect();
    let out = put_blocks(&components, Some(1), &Blocks::new(one.clone())).unwrap();
    assert_eq!(out[0].coefs(), components[0].coefs());
    assert_eq!(out[1].coefs(), &one);
    assert_eq!(out[2].coefs(), components[2].coefs());
    assert_eq!((out[2].width_in_blocks(), out[2].height_in_blocks()), (1, 2));

    assert_eq!(put_blocks(&components, Some(3), &Blocks::new(one.clone())).err(), Some(Error::InvalidParameters));
    assert_eq!(put_blocks(&components, Some(0), &Blocks::new(one)).err(), Some(Error::UnsupportedFormat));
    assert_eq!(put_blocks(&components, None, &Blocks::new(vec![])).err(), Some(Error::UnsupportedFormat));
}

#[test]
fn jpeg_component_alone_is_altered() {
    let components = three_components();
    let extra = ExtraArgs { jpeg_comp: Some(2), ..Default::default() };
    let mut encoder = JpegEncoder::new(&components, extra.clone()).unwrap();
    assert_eq!(encoder.sample_count(), 128);
    assert_eq!(encoder.total_size(), 96);
    assert_eq!(encoder.write_data(&patterned(12)), Ok(()));
    let after = put_blocks(&components, extra.jpeg_comp, &encoder.coefficients()).unwrap();
    assert_eq!(after[0].coefs(), components[0].coefs());
    assert_eq!(after[1].coefs(), components[1].coefs());
    assert_ne!(after[2].coefs(), components[2].coefs());
    assert_eq!(JpegDecoder::new(&after, extra).unwrap().read_data(), Ok(patterned(12)));
    let missing = ExtraArgs { jpeg_comp: Some(3), ..Default::default() };
    assert_eq!(JpegEncoder::new(&components, missing.clone()).err(), Some(Error::InvalidParameters));
    assert_eq!(JpegDecoder::new(&components, missing).err(), Some(Error::InvalidParameters));
}

#[test]
fn jpeg_embedding_keeps_the_high_byte() {
    let components = vec![Component::new(4, 4, (0..1024).map(|i| (i * 31) as i16 - 15_000).collect()).unwrap()];
    let mut encoder = JpegEncoder::new(&components, ExtraArgs { bits: 8, ..Default::default() }).unwrap();
    assert_eq!(encoder.write_data(&patterned(900)), Ok(()));
    let after = encoder.coefficients().into_inner();
    for (new, old) in after.iter().zip(components[0].coefs()) {
        assert_eq!(new >> 8, old >> 8);
    }
}

#[test]
fn selective_walk_agrees_on_both_sides() {
    let coefs: Vec<i16> = (0..4096).map(|i| ((i * 7919) % 9) as i16 - 4).collect();
    let components = vec![Component::new(8, 8, coefs).unwrap()];
    for depth in 0..=7usize {
        let extra = ExtraArgs { selective: true, depth, ..Default::default() };
        let before = get_blocks(&components, None).unwrap().0;
        let places = before.iter(&extra);
        assert!(places.len() < 4096 - 64);
        assert!(places.iter().all(|p| p % 64 != 0));
        let mut encoder = JpegEncoder::new(&components, extra.clone()).unwrap();
        assert_eq!(encoder.sample_count(), places.len());
        let room = (places.len() - 32) / 8;
        assert_eq!(encoder.write_data(&patterned(room + 1)), Err(Error::TooMuchData));
        assert_eq!(encoder.write_data(&patterned(room)), Ok(()));
        let after = encoder.coefficients();
        assert_eq!(after.iter(&extra), places);
        let stored = put_blocks(&components, None, &after).unwrap();
        assert_eq!(JpegDecoder::new(&stored, extra).unwrap().read_data(), Ok(patterned(room)));
    }
}

#[test]
fn png_carrier_opens_from_its_bytes() {
    let samples = patterned(16 * 16 * 3);
    let file = PngEncoder::new(Raster::new(16, 16, ColorKind::Rgb8, samples.clone()).unwrap(), ExtraArgs::default())
        .unwrap()
        .encode_image(ImageOptions::default())
        .unwrap();
    let mut encoder = PngEncoder::open(&file, ExtraArgs::default()).unwrap();
    assert_eq!(encoder.as_bytes(), &samples);
    assert_eq!(encoder.sample_count(), 16 * 16 * 3);
    assert_eq!(encoder.write_data(b"hidden"), Ok(()));
    let file = encoder.encode_image(ImageOptions::default()).unwrap();
    assert_eq!(PngDecoder::open(&file, ExtraArgs::default()).unwrap().read_data(), Ok(b"hidden".to_vec()));
}

#[test]
fn png_carrier_looks_at_the_window_before_the_bytes() {
    let bad = ExtraArgs { depth: 2, bits: 7, ..Default::default() };
    assert_eq!(PngEncoder::open(b"no image", bad.clone()).err(), Some(Error::InvalidParameters));
    assert_eq!(PngDecoder::open(b"no image", bad).err(), Some(Error::InvalidParameters));
    assert_eq!(PngEncoder::open(b"no image", ExtraArgs::default()).err(), Some(Error::CarrierIoError));
    assert_eq!(PngDecoder::open(b"no image", ExtraArgs::default()).err(), Some(Error::CarrierIoError));
}

#[test]
fn selective_walk_with_a_wide_window_agrees_on_steady_coefficients() {
    let coefs: Vec<i16> = (0..4096).map(|i| 256 + ((i * 7919) % 500) as i16).collect();
    let components = vec![Component::new(8, 8, coefs).unwrap()];
    for (depth, bits) in [(0usize, 2usize), (0, 8), (3, 4), (5, 3)] {
        let extra = ExtraArgs { selective: true, depth, bits, key: Some("k".to_string()), ..Default::default() };
        let places = get_blocks(&components, None).unwrap().0.iter(&extra);
        assert_eq!(places.len(), 4096 - 64);
        let mut encoder = JpegEncoder::new(&components, extra.clone()).unwrap();
        assert_eq!(encoder.write_data(&patterned(200)), Ok(()));
        let after = encoder.coefficients();
        assert_eq!(after.iter(&extra), places);
        let stored = put_blocks(&components, None, &after).unwrap();
        assert_eq!(JpegDecoder::new(&stored, extra).unwrap().read_data(), Ok(patterned(200)));
    }
}

#[test]
fn selective_walk_with_a_wide_window_can_lose_small_coefficients() {
    let components = vec![Component::new(2, 1, vec![1i16; 128]).unwrap()];
    let extra = ExtraArgs { selective: true, bits: 2, ..Default::default() };
    let places = get_blocks(&components, None).unwrap().0.iter(&extra);
    assert_eq!(places.len(), 126);
    let mut encoder = JpegEncoder::new(&components, extra.clone()).unwrap();
    assert_eq!(encoder.write_data(&[0]), Ok(()));
    let after = encoder.coefficients();
    assert_ne!(after.iter(&extra), places);
    assert_eq!(after.inner()[1], 1);
    assert_eq!(after.inner()[2], 0);
}

#[test]
fn decoder_answers_to_any_carrier() {
    let mut seed = 0x9E37_79B9_7F4A_7C15u64;
    let mut next = move || {
        seed ^= seed << 13;
        seed ^= seed >> 7;
        seed ^= seed << 17;
        seed
    };
    for round in 0..300usize {
        let bits = 1 + (next() % 8) as usize;
        let depth = (next() % (9 - bits as u64)) as usize;
        let max_step = match round % 3 {
            0 => None,
            _ => Some((next() % 50) as usize),
        };
        let extra = ExtraArgs { depth, bits, max_step, selective: round % 2 == 0, ..Default::default() };
        let side = 1 + (next() % 12) as u32;
        let samples: Vec<u8> = (0..side * side * 4).map(|_| if round % 5 == 0 { 0 } else { next() as u8 }).collect();
        let image = Raster::new(side, side, ColorKind::Rgba8, samples).unwrap();
        let decoder = PngDecoder::new(image, extra.clone()).unwrap();
        match decoder.read_data() {
            Ok(data) => assert!(!data.is_empty() && data.len() * 8 <= decoder.sample_count() * bits),
            Err(e) => assert!(matches!(
                e,
                Error::InvalidDataSize | Error::TooBigStep | Error::CarrierTruncated | Error::InvalidParameters
            )),
        }
        let coefs: Vec<i16> = (0..64 * side as usize).map(|_| (next() % 7) as i16 - 3).collect();
        let components = vec![Component::new(side, 1, coefs).unwrap()];
        let decoder = JpegDecoder::new(&components, extra).unwrap();
        match decoder.read_data() {
            Ok(data) => assert!(!data.is_empty()),
            Err(e) => assert!(matches!(
                e,
                Error::InvalidDataSize | Error::TooBigStep | Error::CarrierTruncated | Error::InvalidParameters
            )),
        }
    }
}

#[test]
fn header_is_a_walk_where_a_sample_takes_one_bit() {
    for depth in 0..8usize {
        for max_step in [0usize, 1] {
            let extra = ExtraArgs { depth, key: Some("any".to_string()), ..Default::default() };
            let mut walked = PngEncoder::new(rgb(8, 8), extra.clone()).unwrap();
            assert_eq!(walked.write(&0x8000_004Du32.to_le_bytes(), 0, max_step), Ok(()));
            let mut headed = PngEncoder::new(rgb(8, 8), extra).unwrap();
            assert_eq!(headed.write_header(0x8000_004D), Ok(()));
            assert_eq!(walked.as_bytes(), headed.as_bytes());
        }
    }
    let extra = ExtraArgs { bits: 2, ..Default::default() };
    let mut walked = PngEncoder::new(rgb(8, 8), extra.clone()).unwrap();
    assert_eq!(walked.write(&77u32.to_le_bytes(), 0, 0), Ok(()));
    let mut headed = PngEncoder::new(rgb(8, 8), extra).unwrap();
    assert_eq!(headed.write_header(77), Ok(()));
    assert_ne!(walked.as_bytes(), headed.as_bytes());
    assert_eq!(walked.as_bytes()[16..], patterned(192)[16..]);
    assert_ne!(headed.as_bytes()[16..32], patterned(192)[16..32]);
}
