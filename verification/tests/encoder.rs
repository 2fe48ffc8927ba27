use png_encoder::common::{ScaledFloat, SourceChromaticities, SrgbRenderingIntent};
use png_encoder::encoder::Encoder;
use png_encoder::{
    chunk, AdaptiveFilterType, BitDepth, BlendOp, ColorType, Compression, DisposeOp,
    EncodingError, FilterType, FormatErrorKind, ParameterErrorKind,
};

const SIGNATURE: [u8; 8] = [137, 80, 78, 71, 13, 10, 26, 10];

/// Cuts a file into its chunks, and checks each chunk's checksum.
fn chunks_of(bytes: &[u8]) -> Vec<(String, Vec<u8>)> {
    assert_eq!(&bytes[..8], &SIGNATURE);
    chunks_after(&bytes[8..])
}

fn chunks_after(bytes: &[u8]) -> Vec<(String, Vec<u8>)> {
    let mut chunks = Vec::new();
    let mut pos = 0;
    while pos < bytes.len() {
        let len = u32::from_be_bytes([bytes[pos], bytes[pos + 1], bytes[pos + 2], bytes[pos + 3]])
            as usize;
        let name = String::from_utf8(bytes[pos + 4..pos + 8].to_vec()).unwrap();
        let data = bytes[pos + 8..pos + 8 + len].to_vec();
        let stored = u32::from_be_bytes([
            bytes[pos + 8 + len],
            bytes[pos + 9 + len],
            bytes[pos + 10 + len],
            bytes[pos + 11 + len],
        ]);
        assert_eq!(stored, crc32fast::hash(&bytes[pos + 4..pos + 8 + len]));
        chunks.push((name, data));
        pos += 12 + len;
    }
    assert_eq!(pos, bytes.len());
    chunks
}

fn names(chunks: &[(String, Vec<u8>)]) -> Vec<&str> {
    chunks.iter().map(|c| c.0.as_str()).collect()
}

fn inflate(data: &[u8]) -> Vec<u8> {
    miniz_oxide::inflate::decompress_to_vec_zlib(data).unwrap()
}

fn format_kind(r: Result<(), EncodingError>) -> FormatErrorKind {
    match r {
        Err(EncodingError::Format(e)) => e.kind(),
        other => panic!("not a format error: {:?}", other),
    }
}

fn rgb_encoder(width: u32, height: u32) -> Encoder {
    let mut encoder = Encoder::new(width, height);
    encoder.set_color(ColorType::Rgb);
    encoder.set_depth(BitDepth::Eight);
    encoder
}

#[test]
fn one_red_pixel() {
    let mut encoder = rgb_encoder(1, 1);
    encoder.set_filter(FilterType::NoFilter);
    let mut writer = encoder.write_header().unwrap();
    writer.write_image_data(&[255, 0, 0]).unwrap();
    let bytes = writer.finish();

    let chunks = chunks_of(&bytes);
    assert_eq!(names(&chunks), vec!["IHDR", "IDAT", "IEND"]);
    assert_eq!(chunks[0].1, vec![0, 0, 0, 1, 0, 0, 0, 1, 8, 2, 0, 0, 0]);
    assert_eq!(inflate(&chunks[1].1), vec![0, 255, 0, 0]);
    assert!(chunks[2].1.is_empty());
    let n = bytes.len();
    assert_eq!(&bytes[n - 12..], &[0, 0, 0, 0, 73, 69, 78, 68, 0xAE, 0x42, 0x60, 0x82]);
}

#[test]
fn one_red_pixel_is_read_back_by_a_decoder() {
    let mut encoder = rgb_encoder(1, 1);
    encoder.set_filter(FilterType::NoFilter);
    let mut writer = encoder.write_header().unwrap();
    writer.write_image_data(&[255, 0, 0]).unwrap();
    let bytes = writer.finish();
    let decoded = image::load_from_memory(&bytes).unwrap().to_rgb8();
    assert_eq!(decoded.dimensions(), (1, 1));
    assert_eq!(decoded.into_raw(), vec![255, 0, 0]);
}

fn picture(width: usize, height: usize, samples: usize) -> Vec<u8> {
    let mut data = Vec::with_capacity(width * height * samples);
    for y in 0..height {
        for x in 0..width {
            for s in 0..samples {
                data.push((x * 7 + y * 13 + s * 101 + (x * y) % 5) as u8);
            }
        }
    }
    data
}

#[test]
fn every_filter_is_read_back_by_a_decoder() {
    let data = picture(9, 7, 3);
    for filter in [
        FilterType::NoFilter,
        FilterType::Sub,
        FilterType::Up,
        FilterType::Avg,
        FilterType::Paeth,
    ] {
        for adaptive in [AdaptiveFilterType::NonAdaptive, AdaptiveFilterType::Adaptive] {
            let mut encoder = rgb_encoder(9, 7);
            encoder.set_filter(filter);
            encoder.set_adaptive_filter(adaptive);
            let mut writer = encoder.write_header().unwrap();
            writer.write_image_data(&data).unwrap();
            let bytes = writer.finish();
            let decoded = image::load_from_memory(&bytes).unwrap().to_rgb8();
            assert_eq!(decoded.dimensions(), (9, 7));
            assert_eq!(decoded.into_raw(), data);
        }
    }
}

#[test]
fn every_compression_level_is_read_back() {
    let data = picture(16, 16, 4);
    for level in [
        Compression::Default,
        Compression::Fast,
        Compression::Best,
        Compression::Huffman,
        Compression::Rle,
    ] {
        let mut encoder = Encoder::new(16, 16);
        encoder.set_color(ColorType::Rgba);
        encoder.set_compression(level);
        let mut writer = encoder.write_header().unwrap();
        writer.write_image_data(&data).unwrap();
        let bytes = writer.finish();
        let decoded = image::load_from_memory(&bytes).unwrap().to_rgba8();
        assert_eq!(decoded.into_raw(), data);
    }
}

#[test]
fn scanlines_are_tagged_and_filtered_against_the_unfiltered_row_above() {
    let mut encoder = Encoder::new(3, 3);
    encoder.set_filter(FilterType::Up);
    let mut writer = encoder.write_header().unwrap();
    writer.write_image_data(&[1, 2, 3, 5, 5, 5, 5, 6, 4]).unwrap();
    let bytes = writer.finish();
    let chunks = chunks_of(&bytes);
    assert_eq!(
        inflate(&chunks[1].1),
        vec![2, 1, 2, 3, 2, 4, 3, 2, 2, 0, 1, 255]
    );
}

#[test]
fn default_encoder_is_grayscale_with_sub_filter() {
    let mut writer = Encoder::new(4, 1).write_header().unwrap();
    writer.write_image_data(&[10, 20, 30, 40]).unwrap();
    let bytes = writer.finish();
    let chunks = chunks_of(&bytes);
    assert_eq!(chunks[0].1, vec![0, 0, 0, 4, 0, 0, 0, 1, 8, 0, 0, 0, 0]);
    assert_eq!(inflate(&chunks[1].1), vec![1, 10, 10, 10, 10]);
}

#[test]
fn sub_byte_depth_rows_are_rounded_up_to_bytes() {
    let mut encoder = Encoder::new(10, 2);
    encoder.set_depth(BitDepth::One);
    encoder.set_filter(FilterType::NoFilter);
    let mut writer = encoder.write_header().unwrap();
    // 10 pixels of one bit are two bytes a row
    assert!(writer.write_image_data(&[0xAA, 0x80, 0x55, 0x40]).is_ok());
    let bytes = writer.finish();
    let chunks = chunks_of(&bytes);
    assert_eq!(inflate(&chunks[1].1), vec![0, 0xAA, 0x80, 0, 0x55, 0x40]);
}

#[test]
fn sixteen_bit_rgba_rows_have_eight_bytes_a_pixel() {
    let mut encoder = Encoder::new(2, 1);
    encoder.set_color(ColorType::Rgba);
    encoder.set_depth(BitDepth::Sixteen);
    let mut writer = encoder.write_header().unwrap();
    let row: Vec<u8> = (1..=16).collect();
    assert!(writer.write_image_data(&row).is_ok());
    let bytes = writer.finish();
    let chunks = chunks_of(&bytes);
    // Sub with a stride of 8: the second pixel less the first
    assert_eq!(
        inflate(&chunks[1].1),
        vec![1, 1, 2, 3, 4, 5, 6, 7, 8, 8, 8, 8, 8, 8, 8, 8, 8]
    );
}

#[test]
fn header_refuses_zero_width() {
    match Encoder::new(0, 5).write_header() {
        Err(EncodingError::Format(e)) => assert_eq!(e.kind(), FormatErrorKind::ZeroWidth),
        _ => panic!("accepted"),
    }
}

#[test]
fn header_refuses_zero_height() {
    match Encoder::new(5, 0).write_header() {
        Err(EncodingError::Format(e)) => assert_eq!(e.kind(), FormatErrorKind::ZeroHeight),
        _ => panic!("accepted"),
    }
}

#[test]
fn header_refuses_zero_width_before_zero_height() {
    match Encoder::new(0, 0).write_header() {
        Err(EncodingError::Format(e)) => assert_eq!(e.kind(), FormatErrorKind::ZeroWidth),
        _ => panic!("accepted"),
    }
}

#[test]
fn header_refuses_invalid_colour_combinations() {
    let invalid = [
        (BitDepth::One, ColorType::Rgb),
        (BitDepth::Two, ColorType::Rgb),
        (BitDepth::Four, ColorType::Rgb),
        (BitDepth::One, ColorType::GrayscaleAlpha),
        (BitDepth::Two, ColorType::GrayscaleAlpha),
        (BitDepth::Four, ColorType::GrayscaleAlpha),
        (BitDepth::One, ColorType::Rgba),
        (BitDepth::Two, ColorType::Rgba),
        (BitDepth::Four, ColorType::Rgba),
        (BitDepth::Sixteen, ColorType::Indexed),
    ];
    for (depth, color) in invalid {
        let mut encoder = Encoder::new(2, 2);
        encoder.set_depth(depth);
        encoder.set_color(color);
        match encoder.write_header() {
            Err(EncodingError::Format(e)) => assert_eq!(
                e.kind(),
                FormatErrorKind::InvalidColorCombination(depth, color)
            ),
            _ => panic!("accepted {:?} {:?}", depth, color),
        }
    }
}

#[test]
fn header_accepts_valid_colour_combinations() {
    let depths = [
        BitDepth::One,
        BitDepth::Two,
        BitDepth::Four,
        BitDepth::Eight,
        BitDepth::Sixteen,
    ];
    let colours = [
        ColorType::Grayscale,
        ColorType::Rgb,
        ColorType::Indexed,
        ColorType::GrayscaleAlpha,
        ColorType::Rgba,
    ];
    let mut accepted = 0;
    for depth in depths {
        for color in colours {
            let mut encoder = Encoder::new(2, 2);
            encoder.set_depth(depth);
            encoder.set_color(color);
            if encoder.write_header().is_ok() {
                accepted += 1;
                assert!(!color.is_combination_invalid(depth));
            }
        }
    }
    assert_eq!(accepted, 15);
}

#[test]
fn header_holds_palette_transparency_and_animation_control() {
    let mut encoder = Encoder::new(2, 2);
    encoder.set_color(ColorType::Indexed);
    encoder.set_palette(vec![0, 0, 0, 255, 255, 255]);
    encoder.set_trns(vec![0, 255]);
    encoder.set_animated(3, 5).unwrap();
    let mut writer = encoder.write_header().unwrap();
    let bytes = writer.take_output();
    let chunks = chunks_of(&bytes);
    assert_eq!(names(&chunks), vec!["IHDR", "PLTE", "tRNS", "acTL"]);
    assert_eq!(chunks[0].1, vec![0, 0, 0, 2, 0, 0, 0, 2, 8, 3, 0, 0, 0]);
    assert_eq!(chunks[1].1, vec![0, 0, 0, 255, 255, 255]);
    assert_eq!(chunks[2].1, vec![0, 255]);
    assert_eq!(chunks[3].1, vec![0, 0, 0, 3, 0, 0, 0, 5]);
    assert!(writer.take_output().is_empty());
}

#[test]
fn indexed_image_without_palette_is_refused() {
    let mut encoder = Encoder::new(2, 2);
    encoder.set_color(ColorType::Indexed);
    let mut writer = encoder.write_header().unwrap();
    writer.take_output();
    assert_eq!(
        format_kind(writer.write_image_data(&[0, 1, 1, 0])),
        FormatErrorKind::NoPalette
    );
    assert!(writer.take_output().is_empty());
}

#[test]
fn missing_palette_is_reported_before_a_wrong_size() {
    let mut encoder = Encoder::new(2, 2);
    encoder.set_color(ColorType::Indexed);
    let mut writer = encoder.write_header().unwrap();
    assert_eq!(format_kind(writer.write_image_data(&[0])), FormatErrorKind::NoPalette);
}

#[test]
fn wrong_buffer_size_is_a_parameter_error() {
    let mut writer = rgb_encoder(5, 4).write_header().unwrap();
    writer.take_output();
    for len in [0usize, 1, 59, 61, 120] {
        let data = vec![0u8; len];
        match writer.write_image_data(&data) {
            Err(EncodingError::Parameter(e)) => assert_eq!(
                e.kind(),
                ParameterErrorKind::ImageBufferSize { expected: 60, actual: len }
            ),
            other => panic!("{:?}", other),
        }
        assert!(writer.take_output().is_empty());
    }
    assert!(writer.write_image_data(&[0u8; 60]).is_ok());
}

#[test]
fn still_image_ends_after_one_frame_past_the_count() {
    let mut writer = Encoder::new(1, 1).write_header().unwrap();
    assert_eq!(writer.max_frames(), 1);
    // the count is checked before the frame, and the frame that reaches it
    // still goes through
    assert!(writer.write_image_data(&[1]).is_ok());
    assert!(writer.write_image_data(&[2]).is_ok());
    writer.take_output();
    assert_eq!(format_kind(writer.write_image_data(&[3])), FormatErrorKind::EndReached);
    assert!(writer.take_output().is_empty());
    assert_eq!(format_kind(writer.write_image_data(&[3])), FormatErrorKind::EndReached);
}

#[test]
fn end_is_reported_before_a_wrong_size() {
    let mut writer = Encoder::new(1, 1).write_header().unwrap();
    writer.write_image_data(&[1]).unwrap();
    writer.write_image_data(&[2]).unwrap();
    assert_eq!(format_kind(writer.write_image_data(&[])), FormatErrorKind::EndReached);
}

#[test]
fn animation_of_zero_frames_is_refused() {
    let mut encoder = Encoder::new(2, 2);
    assert_eq!(format_kind(encoder.set_animated(0, 1)), FormatErrorKind::ZeroFrames);
    // the encoder is still not animated
    assert_eq!(format_kind(encoder.set_frame_delay(1, 2)), FormatErrorKind::NotAnimated);
}

#[test]
fn separate_default_image_is_a_setting_of_an_animation() {
    let mut encoder = Encoder::new(2, 2);
    assert_eq!(format_kind(encoder.set_sep_def_img(true)), FormatErrorKind::NotAnimated);
    assert!(encoder.set_animated(2, 0).is_ok());
    let plain = Encoder::new(2, 2).write_header().unwrap();
    assert_eq!(plain.max_frames(), 1);
    assert!(encoder.set_sep_def_img(true).is_ok());
    let writer = encoder.write_header().unwrap();
    // the default image and the two frames
    assert_eq!(writer.max_frames(), 3);
}

#[test]
fn separate_default_image_can_be_taken_back() {
    let mut encoder = Encoder::new(2, 2);
    encoder.set_animated(2, 0).unwrap();
    encoder.set_sep_def_img(true).unwrap();
    encoder.set_sep_def_img(false).unwrap();
    let writer = encoder.write_header().unwrap();
    assert_eq!(writer.max_frames(), 2);
}

#[test]
fn refused_default_image_leaves_the_image_plain() {
    let mut encoder = Encoder::new(1, 1);
    assert!(encoder.set_sep_def_img(true).is_err());
    let mut writer = encoder.write_header().unwrap();
    assert_eq!(writer.max_frames(), 1);
    writer.take_output();
    writer.write_image_data(&[1]).unwrap();
    assert_eq!(names(&chunks_after(&writer.take_output())), vec!["IDAT"]);
}

#[test]
fn animation_setters_need_an_animation() {
    let mut encoder = Encoder::new(2, 2);
    assert_eq!(format_kind(encoder.set_frame_delay(1, 2)), FormatErrorKind::NotAnimated);
    assert_eq!(format_kind(encoder.set_blend_op(BlendOp::Over)), FormatErrorKind::NotAnimated);
    assert_eq!(
        format_kind(encoder.set_dispose_op(DisposeOp::Background)),
        FormatErrorKind::NotAnimated
    );
    let mut writer = encoder.write_header().unwrap();
    assert_eq!(format_kind(writer.set_frame_delay(1, 2)), FormatErrorKind::NotAnimated);
    assert_eq!(format_kind(writer.set_frame_dimension(1, 1)), FormatErrorKind::NotAnimated);
    assert_eq!(format_kind(writer.set_frame_position(0, 0)), FormatErrorKind::NotAnimated);
    assert_eq!(format_kind(writer.reset_frame_dimension()), FormatErrorKind::NotAnimated);
    assert_eq!(format_kind(writer.reset_frame_position()), FormatErrorKind::NotAnimated);
    assert_eq!(format_kind(writer.set_blend_op(BlendOp::Over)), FormatErrorKind::NotAnimated);
    assert_eq!(
        format_kind(writer.set_dispose_op(DisposeOp::Previous)),
        FormatErrorKind::NotAnimated
    );
}

fn animated(width: u32, height: u32, frames: u32) -> png_encoder::encoder::Writer {
    let mut encoder = Encoder::new(width, height);
    encoder.set_filter(FilterType::NoFilter);
    encoder.set_animated(frames, 0).unwrap();
    let mut writer = encoder.write_header().unwrap();
    writer.take_output();
    writer
}

fn frame_control(data: &[u8]) -> (u32, u32, u32, u32, u32, u16, u16, u8, u8) {
    assert_eq!(data.len(), 26);
    let word = |i: usize| u32::from_be_bytes([data[i], data[i + 1], data[i + 2], data[i + 3]]);
    let half = |i: usize| u16::from_be_bytes([data[i], data[i + 1]]);
    (
        word(0),
        word(4),
        word(8),
        word(12),
        word(16),
        half(20),
        half(22),
        data[24],
        data[25],
    )
}

#[test]
fn frame_dimension_is_checked_against_the_image() {
    let mut writer = animated(10, 8, 2);
    assert_eq!(format_kind(writer.set_frame_dimension(11, 8)), FormatErrorKind::OutOfBounds);
    assert_eq!(format_kind(writer.set_frame_dimension(10, 9)), FormatErrorKind::OutOfBounds);
    assert_eq!(format_kind(writer.set_frame_dimension(0, 8)), FormatErrorKind::ZeroWidth);
    assert_eq!(format_kind(writer.set_frame_dimension(5, 0)), FormatErrorKind::ZeroHeight);
    assert_eq!(format_kind(writer.set_frame_dimension(0, 0)), FormatErrorKind::ZeroWidth);
    // out of bounds is reported before a missing width
    assert_eq!(format_kind(writer.set_frame_dimension(0, 9)), FormatErrorKind::OutOfBounds);
    assert!(writer.set_frame_dimension(4, 3).is_ok());
    assert!(writer.set_frame_position(6, 5).is_ok());
    assert_eq!(format_kind(writer.set_frame_position(7, 5)), FormatErrorKind::OutOfBounds);
    assert_eq!(format_kind(writer.set_frame_position(6, 6)), FormatErrorKind::OutOfBounds);
    assert_eq!(format_kind(writer.set_frame_dimension(5, 3)), FormatErrorKind::OutOfBounds);
    // the first image written carries the frame control that was set
    writer.write_image_data(&[0u8; 12]).unwrap();
    let chunks = chunks_after(&writer.take_output());
    assert_eq!(names(&chunks), vec!["fcTL", "IDAT"]);
    assert_eq!(frame_control(&chunks[0].1), (0, 4, 3, 6, 5, 0, 0, 0, 0));
}

#[test]
fn frame_can_be_reset_to_the_rest_of_the_image() {
    let mut writer = animated(10, 8, 2);
    writer.set_frame_dimension(2, 2).unwrap();
    writer.set_frame_position(3, 1).unwrap();
    writer.reset_frame_dimension().unwrap();
    writer.set_frame_delay(7, 9).unwrap();
    writer.set_blend_op(BlendOp::Over).unwrap();
    writer.set_dispose_op(DisposeOp::Previous).unwrap();
    writer.write_image_data(&[0u8; 49]).unwrap();
    let chunks = chunks_after(&writer.take_output());
    assert_eq!(frame_control(&chunks[0].1), (0, 7, 7, 3, 1, 7, 9, 2, 1));
    writer.reset_frame_position().unwrap();
    writer.set_dispose_op(DisposeOp::Background).unwrap();
    writer.set_blend_op(BlendOp::Source).unwrap();
    writer.write_image_data(&[0u8; 49]).unwrap();
    let chunks = chunks_after(&writer.take_output());
    assert_eq!(names(&chunks), vec!["fcTL", "fdAT"]);
    assert_eq!(frame_control(&chunks[0].1), (1, 7, 7, 0, 0, 7, 9, 1, 0));
    assert_eq!(&chunks[1].1[..4], &[0, 0, 0, 2]);
}

#[test]
fn animation_with_separate_default_image() {
    let mut encoder = Encoder::new(2, 1);
    encoder.set_filter(FilterType::NoFilter);
    encoder.set_animated(2, 0).unwrap();
    encoder.set_sep_def_img(true).unwrap();
    let mut writer = encoder.write_header().unwrap();
    let header = chunks_of(&writer.take_output());
    assert_eq!(names(&header), vec!["IHDR", "acTL"]);
    assert_eq!(header[1].1, vec![0, 0, 0, 2, 0, 0, 0, 0]);

    writer.write_image_data(&[1, 2]).unwrap();
    let first = chunks_after(&writer.take_output());
    assert_eq!(names(&first), vec!["IDAT"]);
    assert_eq!(inflate(&first[0].1), vec![0, 1, 2]);

    writer.write_image_data(&[3, 4]).unwrap();
    let second = chunks_after(&writer.take_output());
    assert_eq!(names(&second), vec!["fcTL", "fdAT"]);
    assert_eq!(frame_control(&second[0].1).0, 0);
    assert_eq!(&second[1].1[..4], &[0, 0, 0, 1]);
    assert_eq!(inflate(&second[1].1[4..]), vec![0, 3, 4]);

    writer.write_image_data(&[5, 6]).unwrap();
    let third = chunks_after(&writer.take_output());
    assert_eq!(names(&third), vec!["fcTL", "fdAT"]);
    assert_eq!(frame_control(&third[0].1).0, 2);
    assert_eq!(&third[1].1[..4], &[0, 0, 0, 3]);

    assert_eq!(format_kind(writer.write_image_data(&[7, 8])), FormatErrorKind::EndReached);
    let trailer = chunks_after(&writer.finish());
    assert_eq!(names(&trailer), vec!["IEND"]);
}

#[test]
fn animation_numbers_its_chunks_from_zero() {
    let mut writer = animated(3, 2, 4);
    let mut numbers = Vec::new();
    for frame in 0..4u8 {
        writer.write_image_data(&[frame; 6]).unwrap();
        for (name, data) in chunks_after(&writer.take_output()) {
            if name == "fcTL" || name == "fdAT" {
                numbers.push(u32::from_be_bytes([data[0], data[1], data[2], data[3]]));
            }
        }
    }
    // one frame control each, and frame data for all frames but the first
    assert_eq!(numbers, vec![0, 1, 2, 3, 4, 5, 6]);
}

#[test]
fn first_frame_of_an_animation_is_image_data() {
    let mut writer = animated(2, 2, 2);
    writer.write_image_data(&[9, 8, 7, 6]).unwrap();
    let chunks = chunks_after(&writer.take_output());
    assert_eq!(names(&chunks), vec!["fcTL", "IDAT"]);
    assert_eq!(frame_control(&chunks[0].1), (0, 2, 2, 0, 0, 0, 0, 0, 0));
    assert_eq!(inflate(&chunks[1].1), vec![0, 9, 8, 0, 7, 6]);
}

#[test]
fn writer_appends_chunks_of_any_name() {
    let mut writer = Encoder::new(1, 1).write_header().unwrap();
    writer.take_output();
    writer.write_chunk(*b"teXt", b"hello").unwrap();
    let chunks = chunks_after(&writer.take_output());
    assert_eq!(chunks, vec![("teXt".to_string(), b"hello".to_vec())]);
    writer.write_chunk(chunk::IEND, &[]).unwrap();
    assert_eq!(
        writer.take_output(),
        vec![0, 0, 0, 0, 73, 69, 78, 68, 0xAE, 0x42, 0x60, 0x82]
    );
}

#[test]
fn emitted_frame_is_cut_from_the_given_stream() {
    let mut writer = animated(2, 2, 3);
    writer.emit_frame(&[1, 2, 3]);
    let first = chunks_after(&writer.take_output());
    assert_eq!(names(&first), vec!["fcTL", "IDAT"]);
    assert_eq!(first[1].1, vec![1, 2, 3]);
    writer.emit_frame(&[4, 5]);
    let second = chunks_after(&writer.take_output());
    assert_eq!(names(&second), vec!["fcTL", "fdAT"]);
    assert_eq!(second[1].1, vec![0, 0, 0, 2, 4, 5]);
    // no data, no data chunk: the frame control alone uses up a number
    writer.emit_frame(&[]);
    let third = chunks_after(&writer.take_output());
    assert_eq!(names(&third), vec!["fcTL"]);
    assert_eq!(frame_control(&third[0].1).0, 3);
    writer.emit_frame(&[6]);
    let fourth = chunks_after(&writer.take_output());
    assert_eq!(frame_control(&fourth[0].1).0, 4);
    assert_eq!(fourth[1].1, vec![0, 0, 0, 5, 6]);
}

#[test]
fn colour_space_chunks_follow_the_transparency() {
    let mut encoder = Encoder::new(1, 1);
    encoder.set_source_gamma(ScaledFloat::from_scaled(45455));
    encoder.set_source_chromaticities(SourceChromaticities {
        white: (ScaledFloat::from_scaled(1), ScaledFloat::from_scaled(2)),
        red: (ScaledFloat::from_scaled(3), ScaledFloat::from_scaled(4)),
        green: (ScaledFloat::from_scaled(5), ScaledFloat::from_scaled(6)),
        blue: (ScaledFloat::from_scaled(7), ScaledFloat::from_scaled(8)),
    });
    let mut writer = encoder.write_header().unwrap();
    let chunks = chunks_of(&writer.take_output());
    assert_eq!(names(&chunks), vec!["IHDR", "gAMA", "cHRM"]);
    assert_eq!(chunks[1].1, vec![0, 0, 0xB1, 0x8F]);
    assert_eq!(
        chunks[2].1,
        vec![
            0, 0, 0, 1, 0, 0, 0, 2, 0, 0, 0, 3, 0, 0, 0, 4, 0, 0, 0, 5, 0, 0, 0, 6, 0, 0, 0, 7, 0,
            0, 0, 8
        ]
    );

    let mut encoder = Encoder::new(1, 1);
    encoder.set_source_gamma(ScaledFloat::from_scaled(1));
    encoder.set_srgb(SrgbRenderingIntent::Saturation);
    let mut writer = encoder.write_header().unwrap();
    let chunks = chunks_of(&writer.take_output());
    assert_eq!(names(&chunks), vec!["IHDR", "sRGB", "gAMA", "cHRM"]);
    assert_eq!(chunks[1].1, vec![2]);
    assert_eq!(chunks[2].1, 45455u32.to_be_bytes().to_vec());
    let mut expected = Vec::new();
    for v in [31270u32, 32900, 64000, 33000, 30000, 60000, 15000, 6000] {
        expected.extend_from_slice(&v.to_be_bytes());
    }
    assert_eq!(chunks[3].1, expected);
}

#[test]
fn default_compression_is_fast() {
    let data = picture(12, 9, 1);
    let mut plain = Encoder::new(12, 9).write_header().unwrap();
    plain.write_image_data(&data).unwrap();
    let mut encoder = Encoder::new(12, 9);
    encoder.set_compression(Compression::Fast);
    let mut fast = encoder.write_header().unwrap();
    fast.write_image_data(&data).unwrap();
    assert_eq!(plain.finish(), fast.finish());
}

#[test]
fn image_data_is_the_stream_of_the_compressor_fed_row_by_row() {
    let data = picture(7, 5, 3);
    for (level, options) in [
        (Compression::Default, deflate::CompressionOptions::default()),
        (Compression::Fast, deflate::CompressionOptions::fast()),
        (Compression::Best, deflate::CompressionOptions::high()),
        (Compression::Huffman, deflate::CompressionOptions::huffman_only()),
        (Compression::Rle, deflate::CompressionOptions::rle()),
    ] {
        let mut encoder = rgb_encoder(7, 5);
        encoder.set_filter(FilterType::NoFilter);
        encoder.set_compression(level);
        let mut writer = encoder.write_header().unwrap();
        writer.take_output();
        writer.write_image_data(&data).unwrap();
        let chunks = chunks_after(&writer.take_output());
        assert_eq!(names(&chunks), vec!["IDAT"]);

        let mut zlib = deflate::write::ZlibEncoder::new(Vec::new(), options);
        for row in data.chunks(21) {
            std::io::Write::write_all(&mut zlib, &[0]).unwrap();
            std::io::Write::write_all(&mut zlib, row).unwrap();
        }
        assert_eq!(chunks[0].1, zlib.finish().unwrap());
    }
}

#[test]
fn frame_too_large_for_the_machine_exceeds_the_limits() {
    let mut encoder = Encoder::new(u32::MAX, u32::MAX);
    encoder.set_color(ColorType::Rgba);
    encoder.set_depth(BitDepth::Sixteen);
    if let Ok(mut writer) = encoder.write_header() {
        writer.take_output();
        assert!(matches!(
            writer.write_image_data(&[]),
            Err(EncodingError::LimitsExceeded)
        ));
        assert!(writer.take_output().is_empty());
        assert!(matches!(writer.check_stream(), Err(EncodingError::LimitsExceeded)));
        assert!(matches!(
            writer.into_stream_writer(),
            Err(EncodingError::LimitsExceeded)
        ));
    }
}

#[test]
fn compression_levels_give_different_streams() {
    // rows that repeat: matching shortens them, coding alone does not
    let mut data = Vec::new();
    for _ in 0..64 {
        data.extend_from_slice(b"abcdefghijklmnopqrstuvwxyz012345");
    }
    let mut sizes = Vec::new();
    for level in [Compression::Huffman, Compression::Fast, Compression::Best] {
        let mut encoder = Encoder::new(32, 64);
        encoder.set_filter(FilterType::NoFilter);
        encoder.set_compression(level);
        let mut writer = encoder.write_header().unwrap();
        writer.take_output();
        writer.write_image_data(&data).unwrap();
        let chunks = chunks_after(&writer.take_output());
        let mut expected = Vec::new();
        for row in data.chunks(32) {
            expected.push(0);
            expected.extend_from_slice(row);
        }
        assert_eq!(inflate(&chunks[0].1), expected);
        sizes.push(chunks[0].1.len());
    }
    assert!(sizes[0] > sizes[1]);
    assert!(sizes[0] > sizes[2]);
}
