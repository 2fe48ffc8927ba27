use png_encoder::encoder::{Encoder, Writer};
use png_encoder::stream::ChunkWriter;
use png_encoder::{
    BitDepth, BlendOp, ColorType, DisposeOp, EncodingError, FilterType, FormatErrorKind,
};

fn pieces_after(bytes: &[u8]) -> Vec<(String, Vec<u8>)> {
    let mut chunks = Vec::new();
    let mut pos = 0;
    while pos < bytes.len() {
        let len = u32::from_be_bytes([bytes[pos], bytes[pos + 1], bytes[pos + 2], bytes[pos + 3]])
            as usize;
        let name = String::from_utf8(bytes[pos + 4..pos + 8].to_vec()).unwrap();
        let data = bytes[pos + 8..pos + 8 + len].to_vec();
        let stored = u32::from_be_bytes([
            bytes[pos + 8 + len],
            bytes[pos + 9 + len],
            bytes[pos + 10 + len],
            bytes[pos + 11 + len],
        ]);
        assert_eq!(stored, crc32fast::hash(&bytes[pos + 4..pos + 8 + len]));
        chunks.push((name, data));
        pos += 12 + len;
    }
    assert_eq!(pos, bytes.len());
    chunks
}

fn pieces_of(bytes: &[u8]) -> Vec<(String, Vec<u8>)> {
    assert_eq!(&bytes[..8], &[137, 80, 78, 71, 13, 10, 26, 10]);
    pieces_after(&bytes[8..])
}

fn kinds(chunks: &[(String, Vec<u8>)]) -> Vec<&str> {
    chunks.iter().map(|c| c.0.as_str()).collect()
}

fn unzip(data: &[u8]) -> Vec<u8> {
    miniz_oxide::inflate::decompress_to_vec_zlib(data).unwrap()
}

fn kind_of<T: std::fmt::Debug>(r: Result<T, EncodingError>) -> FormatErrorKind {
    match r {
        Err(EncodingError::Format(e)) => e.kind(),
        other => panic!("not a format error: {:?}", other),
    }
}

fn still(width: u32, height: u32) -> Writer {
    let mut encoder = Encoder::new(width, height);
    encoder.set_color(ColorType::Rgb);
    encoder.set_depth(BitDepth::Eight);
    encoder.write_header().unwrap()
}

fn moving(width: u32, height: u32, frames: u32) -> Writer {
    let mut encoder = Encoder::new(width, height);
    encoder.set_filter(FilterType::NoFilter);
    encoder.set_animated(frames, 0).unwrap();
    let mut writer = encoder.write_header().unwrap();
    writer.take_output();
    writer
}

fn image_data(len: usize) -> Vec<u8> {
    (0..len).map(|i| (i * 31 + i / 7) as u8).collect()
}

#[test]
fn chunk_writer_holds_bytes_back_until_the_chunk_is_full() {
    let mut writer = still(1, 1);
    writer.take_output();
    let mut sink = ChunkWriter::new(writer, 4);
    assert_eq!(sink.write(&[]), 0);
    assert_eq!(sink.write(&[1, 2, 3]), 3);
    assert!(sink.take_output().is_empty());
    // the chunk has room for one more byte
    assert_eq!(sink.write(&[4, 5, 6]), 1);
    let out = pieces_after(&sink.take_output());
    assert_eq!(out, vec![("IDAT".to_string(), vec![1, 2, 3, 4])]);
    assert_eq!(sink.write(&[5, 6]), 2);
    sink.flush();
    let out = pieces_after(&sink.take_output());
    assert_eq!(out, vec![("IDAT".to_string(), vec![5, 6])]);
    // nothing is held back: flushing writes no chunk
    sink.flush();
    assert!(sink.take_output().is_empty());
}

#[test]
fn chunk_writer_writes_all_bytes_in_full_chunks() {
    let mut writer = still(1, 1);
    writer.take_output();
    let mut sink = ChunkWriter::new(writer, 3);
    sink.write_all(&[1, 2, 3, 4, 5, 6, 7, 8]);
    let out = pieces_after(&sink.take_output());
    assert_eq!(
        out,
        vec![
            ("IDAT".to_string(), vec![1, 2, 3]),
            ("IDAT".to_string(), vec![4, 5, 6]),
        ]
    );
    let mut writer = sink.into_writer();
    let out = pieces_after(&writer.take_output());
    assert_eq!(out, vec![("IDAT".to_string(), vec![7, 8])]);
}

#[test]
fn chunk_writer_numbers_frame_data_chunks() {
    let mut writer = moving(1, 1, 3);
    writer.write_image_data(&[1]).unwrap();
    writer.take_output();
    // one frame is written: what follows is frame data, numbered after the
    // first frame control
    let mut sink = ChunkWriter::new(writer, 6);
    sink.write_header();
    let header = pieces_after(&sink.take_output());
    assert_eq!(kinds(&header), vec!["fcTL"]);
    assert_eq!(&header[0].1[..4], &[0, 0, 0, 1]);
    // a chunk of six bytes holds the number and two bytes of data
    assert_eq!(sink.write(&[10, 11, 12]), 2);
    assert_eq!(sink.write(&[12]), 1);
    sink.flush();
    let out = pieces_after(&sink.take_output());
    assert_eq!(
        out,
        vec![
            ("fdAT".to_string(), vec![0, 0, 0, 2, 10, 11]),
            ("fdAT".to_string(), vec![0, 0, 0, 3, 12]),
        ]
    );
}

#[test]
fn chunk_writer_caps_its_chunks() {
    let mut writer = still(2, 3);
    writer.take_output();
    let sink = ChunkWriter::new(writer, 16);
    assert_eq!(sink.next_frame_info(), (6, 18));
    assert!(sink.frame_size_fits());
}

#[test]
fn stream_of_a_still_image_is_read_back() {
    let data = image_data(5 * 4 * 3);
    let mut stream = still(5, 4).into_stream_writer_with_size(16).unwrap();
    let mut rest = &data[..];
    let mut sizes = [1usize, 7, 2, 30, 4, 100].iter().cycle();
    while !rest.is_empty() {
        let want = (*sizes.next().unwrap()).min(rest.len());
        let n = stream.write(&rest[..want]).unwrap();
        assert!(n >= 1 && n <= want);
        rest = &rest[n..];
    }
    assert_eq!(stream.flush().map_err(|_| ()), Ok(()));
    let writer = stream.into_writer();
    let bytes = writer.finish();
    let chunks = pieces_of(&bytes);
    assert_eq!(chunks.first().unwrap().0, "IHDR");
    assert_eq!(chunks.last().unwrap().0, "IEND");
    for (name, body) in &chunks[1..chunks.len() - 1] {
        assert_eq!(name, "IDAT");
        assert!(body.len() <= 16 && !body.is_empty());
    }
    // every chunk but the last is full
    for (_, body) in &chunks[1..chunks.len() - 2] {
        assert_eq!(body.len(), 16);
    }
    let decoded = image::load_from_memory(&bytes).unwrap().to_rgb8();
    assert_eq!(decoded.dimensions(), (5, 4));
    assert_eq!(decoded.into_raw(), data);
}

#[test]
fn stream_takes_no_more_than_the_scanline_lacks() {
    let mut stream = still(2, 2).into_stream_writer().unwrap();
    let data = [1u8, 2, 3, 4, 5, 6, 7, 8, 9, 10, 11, 12];
    assert_eq!(stream.write(&[]).unwrap(), 0);
    assert_eq!(stream.write(&data[..4]).unwrap(), 4);
    // two bytes are missing in the first scanline
    assert_eq!(stream.write(&data[4..]).unwrap(), 2);
    assert_eq!(stream.write(&data[6..]).unwrap(), 6);
}

#[test]
fn stream_filters_against_the_unfiltered_scanline_above() {
    let mut encoder = Encoder::new(3, 3);
    encoder.set_filter(FilterType::Up);
    let mut writer = encoder.write_header().unwrap();
    writer.take_output();
    let mut stream = writer.into_stream_writer().unwrap();
    for row in [[1u8, 2, 3], [5, 5, 5], [5, 6, 4]] {
        assert_eq!(stream.write(&row).unwrap(), 3);
    }
    let mut writer = stream.into_writer();
    let chunks = pieces_after(&writer.take_output());
    assert_eq!(kinds(&chunks), vec!["IDAT"]);
    // zeros above the first scanline, [1, 2, 3] above the second, [5, 5, 5]
    // above the third
    assert_eq!(
        unzip(&chunks[0].1),
        vec![2, 1, 2, 3, 2, 4, 3, 2, 2, 0, 1, 255]
    );
}

#[test]
fn stream_averages_with_the_unfiltered_scanline_above() {
    let mut encoder = Encoder::new(2, 2);
    encoder.set_filter(FilterType::Avg);
    let mut writer = encoder.write_header().unwrap();
    writer.take_output();
    let mut stream = writer.into_stream_writer().unwrap();
    stream.write(&[2, 4]).unwrap();
    stream.write(&[10, 10]).unwrap();
    let mut writer = stream.into_writer();
    let chunks = pieces_after(&writer.take_output());
    // first scanline: 2 - 0, 4 - 2 / 2; second: 10 - 2 / 2, 10 - (10 + 4) / 2
    assert_eq!(unzip(&chunks[0].1), vec![3, 2, 3, 3, 9, 3]);
}

#[test]
fn stream_with_every_filter_is_read_back_by_a_decoder() {
    let data = image_data(6 * 5 * 3);
    for filter in [
        FilterType::NoFilter,
        FilterType::Sub,
        FilterType::Up,
        FilterType::Avg,
        FilterType::Paeth,
    ] {
        for adaptive in [
            png_encoder::AdaptiveFilterType::NonAdaptive,
            png_encoder::AdaptiveFilterType::Adaptive,
        ] {
            let mut encoder = Encoder::new(6, 5);
            encoder.set_color(ColorType::Rgb);
            encoder.set_filter(filter);
            encoder.set_adaptive_filter(adaptive);
            let mut stream = encoder
                .write_header()
                .unwrap()
                .into_stream_writer_with_size(32)
                .unwrap();
            let mut rest = &data[..];
            while !rest.is_empty() {
                let want = rest.len().min(7);
                let n = stream.write(&rest[..want]).unwrap();
                rest = &rest[n..];
            }
            let bytes = stream.into_writer().finish();
            let decoded = image::load_from_memory(&bytes).unwrap().to_rgb8();
            assert_eq!(decoded.into_raw(), data, "{:?} {:?}", filter, adaptive);
        }
    }
}

#[test]
fn stream_and_whole_frames_give_the_same_file() {
    let first = image_data(5 * 4);
    let second: Vec<u8> = first.iter().map(|b| b.wrapping_mul(3)).collect();
    for filter in [FilterType::Sub, FilterType::Up, FilterType::Avg, FilterType::Paeth] {
        let animation = |filter: FilterType| {
            let mut encoder = Encoder::new(5, 4);
            encoder.set_filter(filter);
            encoder.set_animated(3, 0).unwrap();
            encoder.write_header().unwrap()
        };
        let mut whole = animation(filter);
        whole.write_image_data(&first).unwrap();
        whole.write_image_data(&second).unwrap();
        let expected = whole.take_output();

        let mut stream = animation(filter).into_stream_writer().unwrap();
        for row in first.chunks(5).chain(second.chunks(5)) {
            assert_eq!(stream.write(row).unwrap(), 5);
        }
        // the third frame is begun: the second is out
        assert_eq!(stream.write(&[0]).unwrap(), 1);
        let pieces = pieces_of(&stream.take_output());
        let frames = pieces_of(&expected);
        assert_eq!(kinds(&frames), vec!["IHDR", "acTL", "fcTL", "IDAT", "fcTL", "fdAT"]);
        assert_eq!(&pieces[..6], &frames[..]);
        assert_eq!(kinds(&pieces[6..]), vec!["fcTL"]);
    }
}

#[test]
fn scanline_above_the_first_of_a_frame_is_zeros() {
    let mut encoder = Encoder::new(2, 1);
    encoder.set_filter(FilterType::Up);
    encoder.set_animated(2, 0).unwrap();
    let mut writer = encoder.write_header().unwrap();
    writer.take_output();
    let mut stream = writer.into_stream_writer().unwrap();
    stream.write(&[9, 9]).unwrap();
    stream.write(&[5, 6]).unwrap();
    let (writer, result) = stream.finish();
    assert!(result.is_ok());
    let chunks = pieces_after(&writer.finish());
    assert_eq!(kinds(&chunks), vec!["fcTL", "IDAT", "fcTL", "fdAT", "IEND"]);
    assert_eq!(unzip(&chunks[1].1), vec![2, 9, 9]);
    assert_eq!(unzip(&chunks[3].1[4..]), vec![2, 5, 6]);
}

#[test]
fn flush_refuses_part_of_a_scanline() {
    let mut stream = still(2, 2).into_stream_writer().unwrap();
    stream.write(&[1, 2, 3, 4]).unwrap();
    assert_eq!(kind_of(stream.flush()), FormatErrorKind::WrittenTooMuch(4));
    stream.write(&[5, 6]).unwrap();
    assert!(stream.flush().is_ok());
}

#[test]
fn finish_of_a_still_image_misses_frames() {
    let mut stream = still(1, 1).into_stream_writer().unwrap();
    stream.write(&[1, 2, 3]).unwrap();
    let (writer, result) = stream.finish();
    assert_eq!(kind_of(result), FormatErrorKind::MissingFrames);
    // the image is complete all the same
    let bytes = writer.finish();
    let decoded = image::load_from_memory(&bytes).unwrap().to_rgb8();
    assert_eq!(decoded.into_raw(), vec![1, 2, 3]);
}

#[test]
fn finish_before_the_last_frame_misses_frames() {
    let mut stream = moving(2, 1, 3).into_stream_writer().unwrap();
    stream.write(&[1, 2]).unwrap();
    stream.write(&[3, 4]).unwrap();
    let (_, result) = stream.finish();
    assert_eq!(kind_of(result), FormatErrorKind::MissingFrames);
}

#[test]
fn finish_within_the_last_frame_misses_data() {
    let mut stream = moving(2, 2, 2).into_stream_writer().unwrap();
    stream.write(&[1, 2]).unwrap();
    stream.write(&[3, 4]).unwrap();
    stream.write(&[5, 6]).unwrap();
    let (_, result) = stream.finish();
    assert_eq!(kind_of(result), FormatErrorKind::MissingData(2));
}

#[test]
fn stream_of_an_animation_ends_after_the_last_frame() {
    let mut stream = moving(2, 1, 2).into_stream_writer_with_size(64).unwrap();
    assert_eq!(stream.write(&[1, 2]).unwrap(), 2);
    assert_eq!(stream.write(&[3, 4]).unwrap(), 2);
    assert_eq!(kind_of(stream.write(&[5, 6])), FormatErrorKind::EndReached);
    assert_eq!(kind_of(stream.write(&[5])), FormatErrorKind::EndReached);
    assert_eq!(stream.write(&[]).unwrap(), 0);
    let (writer, result) = stream.finish();
    assert!(result.is_ok());
    let chunks = pieces_after(&writer.finish());
    assert_eq!(kinds(&chunks), vec!["fcTL", "IDAT", "fcTL", "fdAT", "IEND"]);
    assert_eq!(&chunks[0].1[..4], &[0, 0, 0, 0]);
    assert_eq!(unzip(&chunks[1].1), vec![0, 1, 2]);
    assert_eq!(&chunks[2].1[..4], &[0, 0, 0, 1]);
    assert_eq!(&chunks[3].1[..4], &[0, 0, 0, 2]);
    assert_eq!(unzip(&chunks[3].1[4..]), vec![0, 3, 4]);
}

#[test]
fn stream_numbers_the_chunks_of_an_animation_without_a_gap() {
    let frame = image_data(8 * 8);
    let mut encoder = Encoder::new(8, 8);
    encoder.set_animated(4, 0).unwrap();
    let mut writer = encoder.write_header().unwrap();
    writer.take_output();
    // chunks of 9 bytes: a sequence number and five bytes of frame data
    let mut stream = writer.into_stream_writer_with_size(9).unwrap();
    for _ in 0..4 {
        let mut rest = &frame[..];
        while !rest.is_empty() {
            let n = stream.write(rest).unwrap();
            rest = &rest[n..];
        }
    }
    let (writer, result) = stream.finish();
    assert!(result.is_ok());
    let chunks = pieces_after(&writer.finish());
    let mut numbers = Vec::new();
    let mut frames: Vec<Vec<u8>> = Vec::new();
    for (name, data) in &chunks {
        match name.as_str() {
            "fcTL" => {
                numbers.push(u32::from_be_bytes([data[0], data[1], data[2], data[3]]));
                frames.push(Vec::new());
            }
            "fdAT" => {
                assert!(data.len() <= 9 && data.len() > 4);
                numbers.push(u32::from_be_bytes([data[0], data[1], data[2], data[3]]));
                frames.last_mut().unwrap().extend_from_slice(&data[4..]);
            }
            "IDAT" => {
                assert!(data.len() <= 9);
                frames.last_mut().unwrap().extend_from_slice(data);
            }
            "IEND" => {}
            other => panic!("{}", other),
        }
    }
    let expected: Vec<u32> = (0..numbers.len() as u32).collect();
    assert_eq!(numbers, expected);
    assert!(numbers.len() > 8);
    assert_eq!(frames.len(), 4);
    for stream in &frames {
        assert_eq!(unzip(stream).len(), 8 * 9);
    }
}

#[test]
fn stream_takes_the_frame_control_of_the_next_frame() {
    let mut stream = moving(4, 4, 2).into_stream_writer().unwrap();
    stream.set_frame_dimension(2, 3).unwrap();
    stream.set_frame_position(2, 1).unwrap();
    stream.set_frame_delay(1, 25).unwrap();
    stream.set_blend_op(BlendOp::Over).unwrap();
    stream.set_dispose_op(DisposeOp::Background).unwrap();
    assert_eq!(kind_of(stream.set_frame_position(3, 1)), FormatErrorKind::OutOfBounds);
    assert_eq!(kind_of(stream.set_frame_dimension(3, 3)), FormatErrorKind::OutOfBounds);
    assert_eq!(kind_of(stream.set_frame_dimension(0, 3)), FormatErrorKind::ZeroWidth);
    assert_eq!(kind_of(stream.set_frame_dimension(2, 0)), FormatErrorKind::ZeroHeight);
    // the first frame covers the image
    for _ in 0..4 {
        assert_eq!(stream.write(&[9, 9, 9, 9, 9]).unwrap(), 4);
    }
    // the second is two pixels wide and three high
    for _ in 0..3 {
        assert_eq!(stream.write(&[7, 7, 7]).unwrap(), 2);
    }
    let (writer, result) = stream.finish();
    assert!(result.is_ok());
    let chunks = pieces_after(&writer.finish());
    assert_eq!(kinds(&chunks), vec!["fcTL", "IDAT", "fcTL", "fdAT", "IEND"]);
    assert_eq!(
        chunks[2].1,
        vec![0, 0, 0, 1, 0, 0, 0, 2, 0, 0, 0, 3, 0, 0, 0, 2, 0, 0, 0, 1, 0, 1, 0, 25, 1, 1]
    );
    // the scanlines of the second frame are two bytes long
    assert_eq!(unzip(&chunks[1].1), vec![0, 9, 9, 9, 9, 0, 9, 9, 9, 9, 0, 9, 9, 9, 9, 0, 9, 9, 9, 9]);
    assert_eq!(unzip(&chunks[3].1[4..]), vec![0, 7, 7, 0, 7, 7, 0, 7, 7]);
}

#[test]
fn stream_setters_need_an_animation() {
    let mut stream = still(1, 1).into_stream_writer().unwrap();
    assert_eq!(kind_of(stream.set_frame_delay(1, 2)), FormatErrorKind::NotAnimated);
    assert_eq!(kind_of(stream.set_frame_dimension(1, 1)), FormatErrorKind::NotAnimated);
    assert_eq!(kind_of(stream.set_frame_position(0, 0)), FormatErrorKind::NotAnimated);
    assert_eq!(kind_of(stream.reset_frame_dimension()), FormatErrorKind::NotAnimated);
    assert_eq!(kind_of(stream.reset_frame_position()), FormatErrorKind::NotAnimated);
    assert_eq!(kind_of(stream.set_blend_op(BlendOp::Over)), FormatErrorKind::NotAnimated);
    assert_eq!(kind_of(stream.set_dispose_op(DisposeOp::Keep)), FormatErrorKind::NotAnimated);
}

#[test]
fn no_stream_writer_after_the_end() {
    let mut writer = still(1, 1);
    writer.write_image_data(&[1, 2, 3]).unwrap();
    writer.write_image_data(&[1, 2, 3]).unwrap();
    match writer.into_stream_writer() {
        Err(EncodingError::Format(e)) => assert_eq!(e.kind(), FormatErrorKind::EndReached),
        _ => panic!("accepted"),
    }
}

#[test]
fn stream_hands_out_what_it_has_emitted() {
    let writer = still(4, 4);
    let mut stream = writer.into_stream_writer_with_size(8).unwrap();
    let header = stream.take_output();
    assert_eq!(kinds(&pieces_of(&header)), vec!["IHDR"]);
    assert!(stream.take_output().is_empty());
    let data = image_data(48);
    let mut rest = &data[..];
    while !rest.is_empty() {
        let n = stream.write(rest).unwrap();
        rest = &rest[n..];
    }
    // the compressor keeps its stream until the frame is ended
    assert!(stream.take_output().is_empty());
    let mut writer = stream.into_writer();
    let body = writer.take_output();
    let mut stream_bytes = Vec::new();
    for (name, data) in pieces_after(&body) {
        assert_eq!(name, "IDAT");
        stream_bytes.extend_from_slice(&data);
    }
    assert_eq!(unzip(&stream_bytes).len(), 4 * 13);
}

#[test]
fn filter_can_be_changed_between_scanlines() {
    let mut encoder = Encoder::new(4, 2);
    encoder.set_filter(FilterType::NoFilter);
    let mut stream = encoder.write_header().unwrap().into_stream_writer().unwrap();
    stream.take_output();
    stream.write(&[1, 2, 3, 4]).unwrap();
    stream.set_filter(FilterType::Sub);
    stream.write(&[1, 2, 3, 4]).unwrap();
    let mut writer = stream.into_writer();
    let chunks = pieces_after(&writer.take_output());
    assert_eq!(unzip(&chunks[0].1), vec![0, 1, 2, 3, 4, 1, 1, 1, 1, 1]);
}
