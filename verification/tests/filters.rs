use png_encoder::filter::{filter, filter_internal, filter_paeth, sum_buffer, unfilter};
use png_encoder::{AdaptiveFilterType, BytesPerPixel, FilterType};

fn all_filters() -> Vec<FilterType> {
    vec![
        FilterType::NoFilter,
        FilterType::Sub,
        FilterType::Up,
        FilterType::Avg,
        FilterType::Paeth,
    ]
}

fn all_strides() -> Vec<BytesPerPixel> {
    vec![
        BytesPerPixel::One,
        BytesPerPixel::Two,
        BytesPerPixel::Three,
        BytesPerPixel::Four,
        BytesPerPixel::Six,
        BytesPerPixel::Eight,
    ]
}

fn sample_row(len: usize, seed: u32) -> Vec<u8> {
    let mut state = seed.wrapping_mul(2654435761).wrapping_add(12345);
    let mut row = Vec::with_capacity(len);
    for _ in 0..len {
        state = state.wrapping_mul(1664525).wrapping_add(1013904223);
        row.push((state >> 24) as u8);
    }
    row
}

fn score(row: &[u8]) -> usize {
    row.iter().map(|&x| (x as i8 as i16).unsigned_abs() as usize).sum()
}

#[test]
fn filter_type_from_u8_names_the_five_filters() {
    assert_eq!(FilterType::from_u8(0), Some(FilterType::NoFilter));
    assert_eq!(FilterType::from_u8(1), Some(FilterType::Sub));
    assert_eq!(FilterType::from_u8(2), Some(FilterType::Up));
    assert_eq!(FilterType::from_u8(3), Some(FilterType::Avg));
    assert_eq!(FilterType::from_u8(4), Some(FilterType::Paeth));
    assert_eq!(FilterType::from_u8(5), None);
    assert_eq!(FilterType::from_u8(255), None);
}

#[test]
fn filter_type_tags_round_trip() {
    for f in all_filters() {
        assert_eq!(FilterType::from_u8(f.to_u8()), Some(f));
    }
}

#[test]
fn default_filter_is_sub_and_not_adaptive() {
    assert_eq!(FilterType::default(), FilterType::Sub);
    assert_eq!(AdaptiveFilterType::default(), AdaptiveFilterType::NonAdaptive);
}

#[test]
fn paeth_prefers_left_then_up_then_upleft() {
    // all three equally near: left wins
    assert_eq!(filter_paeth(10, 10, 10), 10);
    // p = 20 + 30 - 25 = 25, distances 5, 5, 0
    assert_eq!(filter_paeth(20, 30, 25), 25);
    // p = 5 + 9 - 7 = 7, distances 2, 2, 0
    assert_eq!(filter_paeth(5, 9, 7), 7);
    // p = 100 + 50 - 50 = 100: left is exact
    assert_eq!(filter_paeth(100, 50, 50), 100);
    // p = 50 + 100 - 50 = 100: up is exact
    assert_eq!(filter_paeth(50, 100, 50), 100);
    // p = 0 + 200 - 0 = 200: up
    assert_eq!(filter_paeth(0, 200, 0), 200);
    // p = 3 + 1 - 2 = 2: left and up tie at 1, upleft exact
    assert_eq!(filter_paeth(3, 1, 2), 2);
    // p = 1 + 3 - 0 = 4: distances 3, 1, 4
    assert_eq!(filter_paeth(1, 3, 0), 3);
    // p = 255 + 255 - 0 = 510: distances 255, 255, 510: tie goes to left
    assert_eq!(filter_paeth(255, 254, 0), 255);
}

#[test]
fn sub_filter_subtracts_the_byte_one_pixel_back() {
    let previous = [0u8; 6];
    let mut current = [10u8, 20, 30, 40, 50, 5];
    let r = filter_internal(FilterType::Sub, 2, 6, &previous, &mut current);
    assert_eq!(r, FilterType::Sub);
    assert_eq!(current, [10, 20, 20, 20, 20, 221]);
}

#[test]
fn up_filter_subtracts_the_byte_above() {
    let previous = [1u8, 2, 3, 250];
    let mut current = [10u8, 1, 3, 4];
    filter_internal(FilterType::Up, 1, 4, &previous, &mut current);
    assert_eq!(current, [9, 255, 0, 10]);
}

#[test]
fn avg_filter_subtracts_the_mean_of_left_and_above() {
    let previous = [10u8, 20, 255, 7];
    let mut current = [100u8, 50, 255, 3];
    filter_internal(FilterType::Avg, 1, 4, &previous, &mut current);
    // 100 - 10/2, 50 - (100+20)/2, 255 - (50+255)/2, 3 - (255+7)/2
    assert_eq!(current, [95, 246, 103, 128]);
}

#[test]
fn paeth_filter_subtracts_the_paeth_predictor() {
    let previous = [10u8, 20, 30];
    let mut current = [15u8, 25, 20];
    filter_internal(FilterType::Paeth, 1, 3, &previous, &mut current);
    // first: predictor is the byte above (10)
    // second: left 15, up 20, upleft 10 -> p = 25, nearest is up (20)
    // third: left 25, up 30, upleft 20 -> p = 35, nearest is up (30)
    assert_eq!(current, [5, 5, 246]);
}

#[test]
fn no_filter_leaves_the_row() {
    let previous = [9u8; 4];
    let mut current = [1u8, 2, 3, 4];
    let r = filter_internal(FilterType::NoFilter, 1, 4, &previous, &mut current);
    assert_eq!(r, FilterType::NoFilter);
    assert_eq!(current, [1, 2, 3, 4]);
}

#[test]
fn sub_filter_needs_no_previous_row() {
    let mut current = [1u8, 2, 4];
    let r = filter(
        FilterType::Sub,
        AdaptiveFilterType::NonAdaptive,
        BytesPerPixel::One,
        &[],
        &mut current,
    );
    assert_eq!(r, FilterType::Sub);
    assert_eq!(current, [1, 1, 2]);
}

#[test]
fn unfilter_undoes_filter_for_every_filter_and_stride() {
    for method in all_filters() {
        for bpp in all_strides() {
            let stride = bpp.into_usize();
            for len in [stride, stride + 1, 2 * stride, 3 * stride + 2, 41] {
                if len < stride {
                    continue;
                }
                let previous = sample_row(len, 7 + len as u32);
                let raw = sample_row(len, 99 + stride as u32);
                let mut row = raw.clone();
                let used = filter(
                    method,
                    AdaptiveFilterType::NonAdaptive,
                    bpp,
                    &previous,
                    &mut row,
                );
                assert_eq!(used, method);
                assert_eq!(unfilter(method, bpp, &previous, &mut row), Ok(()));
                assert_eq!(row, raw, "{:?} stride {} len {}", method, stride, len);
            }
        }
    }
}

#[test]
fn unfilter_undoes_adaptive_filter() {
    for bpp in all_strides() {
        let len = 48;
        let previous = sample_row(len, 3);
        let raw = sample_row(len, 4);
        let mut row = raw.clone();
        let used = filter(
            FilterType::Sub,
            AdaptiveFilterType::Adaptive,
            bpp,
            &previous,
            &mut row,
        );
        assert_eq!(unfilter(used, bpp, &previous, &mut row), Ok(()));
        assert_eq!(row, raw);
    }
}

#[test]
fn unfilter_restores_bytes_past_the_last_whole_pixel() {
    // 7 bytes with a stride of 3: the last byte belongs to no whole pixel
    let previous = [3u8, 1, 4, 1, 5, 9, 2];
    let raw = [2u8, 7, 1, 8, 2, 8, 1];
    for method in [FilterType::Avg, FilterType::Paeth] {
        let mut row = raw;
        filter(
            method,
            AdaptiveFilterType::NonAdaptive,
            BytesPerPixel::Three,
            &previous,
            &mut row,
        );
        assert_eq!(unfilter(method, BytesPerPixel::Three, &previous, &mut row), Ok(()));
        assert_eq!(row, raw);
    }
}

#[test]
fn unfilter_rejects_short_previous_row() {
    for method in [FilterType::Up, FilterType::Avg, FilterType::Paeth] {
        let mut row = [1u8, 2, 3, 4];
        let r = unfilter(method, BytesPerPixel::One, &[0, 0, 0], &mut row);
        assert_eq!(r, Err("Filtering failed: not enough data in previous row"));
        assert_eq!(row, [1, 2, 3, 4]);
    }
}

#[test]
fn unfilter_rejects_row_shorter_than_a_pixel() {
    for method in [FilterType::Avg, FilterType::Paeth] {
        let mut row = [1u8, 2, 3];
        let r = unfilter(method, BytesPerPixel::Four, &[0, 0, 0], &mut row);
        assert_eq!(
            r,
            Err("Filtering failed: bytes per pixel is greater than length of row")
        );
        assert_eq!(row, [1, 2, 3]);
    }
}

#[test]
fn unfilter_accepts_sub_and_plain_rows_without_previous() {
    let mut row = [1u8, 1, 1];
    assert_eq!(unfilter(FilterType::Sub, BytesPerPixel::One, &[], &mut row), Ok(()));
    assert_eq!(row, [1, 2, 3]);
    let mut row = [1u8, 1, 1];
    assert_eq!(unfilter(FilterType::NoFilter, BytesPerPixel::One, &[], &mut row), Ok(()));
    assert_eq!(row, [1, 1, 1]);
    let mut short = [5u8, 6];
    assert_eq!(unfilter(FilterType::Sub, BytesPerPixel::Four, &[], &mut short), Ok(()));
    assert_eq!(short, [5, 6]);
}

#[test]
fn sum_buffer_adds_absolute_values_of_signed_bytes() {
    assert_eq!(sum_buffer(&[]), 0);
    assert_eq!(sum_buffer(&[0, 1, 127]), 128);
    assert_eq!(sum_buffer(&[128]), 128);
    assert_eq!(sum_buffer(&[255]), 1);
    assert_eq!(sum_buffer(&[0, 127, 128, 255, 129]), 127 + 128 + 1 + 127);
}

#[test]
fn adaptive_filter_never_scores_above_the_unfiltered_row() {
    for bpp in all_strides() {
        for seed in 0..20u32 {
            let len = 8 + (seed as usize % 5) * 8;
            let previous = sample_row(len, seed);
            let raw = sample_row(len, seed + 1000);
            let mut row = raw.clone();
            filter(
                FilterType::Paeth,
                AdaptiveFilterType::Adaptive,
                bpp,
                &previous,
                &mut row,
            );
            assert!(score(&row) <= score(&raw));
        }
    }
}

#[test]
fn adaptive_filter_keeps_no_filter_on_a_tie() {
    // a row of zeros above zeros: every filter gives zeros, all scores are 0
    let previous = [0u8; 8];
    let mut row = [0u8; 8];
    let used = filter(
        FilterType::Paeth,
        AdaptiveFilterType::Adaptive,
        BytesPerPixel::One,
        &previous,
        &mut row,
    );
    assert_eq!(used, FilterType::NoFilter);
    assert_eq!(row, [0u8; 8]);
}

#[test]
fn adaptive_filter_picks_sub_for_a_ramp() {
    // a ramp: Sub leaves 1s (score 10 + 7), Up leaves the ramp
    let previous = [0u8; 8];
    let mut row = [10u8, 11, 12, 13, 14, 15, 16, 17];
    let used = filter(
        FilterType::NoFilter,
        AdaptiveFilterType::Adaptive,
        BytesPerPixel::One,
        &previous,
        &mut row,
    );
    assert_eq!(used, FilterType::Sub);
    assert_eq!(row, [10, 1, 1, 1, 1, 1, 1, 1]);
}

#[test]
fn adaptive_filter_picks_up_for_a_repeated_row() {
    let previous = [90u8, 3, 200, 41, 7, 250, 13, 77];
    let mut row = previous;
    let used = filter(
        FilterType::NoFilter,
        AdaptiveFilterType::Adaptive,
        BytesPerPixel::One,
        &previous,
        &mut row,
    );
    assert_eq!(used, FilterType::Up);
    assert_eq!(row, [0u8; 8]);
}

#[test]
fn adaptive_filter_keeps_the_first_of_equal_candidates() {
    // left and above agree everywhere, so Sub and Up give the same output
    // where a byte has a left neighbour; Sub, tried first, is kept when it
    // ties with a later filter
    let previous = [0u8, 5, 5, 5];
    let mut row = [5u8, 5, 5, 5];
    let used = filter(
        FilterType::NoFilter,
        AdaptiveFilterType::Adaptive,
        BytesPerPixel::One,
        &previous,
        &mut row,
    );
    assert_eq!(used, FilterType::Sub);
    assert_eq!(row, [5, 0, 0, 0]);
}
