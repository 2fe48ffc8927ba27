//! The scanline filters: five reversible byte predictors, and the heuristic
//! that picks one of them per scanline.

use vstd::prelude::*;
use vstd::slice::slice_to_vec;

use crate::common::BytesPerPixel;

verus! {

/// The byte level filter applied to scanlines to prepare them for compression.
///
/// A filter does not operate on pixels but on the raw bytes of a scanline.
#[derive(Debug, Clone, Copy, PartialEq, Eq, Structural)]
pub enum FilterType {
    NoFilter,
    Sub,
    Up,
    Avg,
    Paeth,
}

impl Default for FilterType {
    fn default() -> (r: FilterType)
        ensures
            r == FilterType::Sub,
    {
        FilterType::Sub
    }
}

impl FilterType {
    /// The tag byte that precedes a scanline filtered with this filter.
    pub open spec fn tag(self) -> u8 {
        match self {
            FilterType::NoFilter => 0,
            FilterType::Sub => 1,
            FilterType::Up => 2,
            FilterType::Avg => 3,
            FilterType::Paeth => 4,
        }
    }

    /// The filter that a tag byte names, if any.
    pub fn from_u8(n: u8) -> (r: Option<FilterType>)
        ensures
            n <= 4 ==> r is Some && r->0.tag() == n,
            n > 4 ==> r is None,
    {
        match n {
            0 => Some(FilterType::NoFilter),
            1 => Some(FilterType::Sub),
            2 => Some(FilterType::Up),
            3 => Some(FilterType::Avg),
            4 => Some(FilterType::Paeth),
            _ => None,
        }
    }

    /// The tag byte of this filter.
    pub fn to_u8(self) -> (n: u8)
        ensures
            n == self.tag(),
    {
        match self {
            FilterType::NoFilter => 0,
            FilterType::Sub => 1,
            FilterType::Up => 2,
            FilterType::Avg => 3,
            FilterType::Paeth => 4,
        }
    }

    /// Whether the filter reads the scanline above.
    pub open spec fn reads_previous(self) -> bool {
        self == FilterType::Up || self == FilterType::Avg || self == FilterType::Paeth
    }

    /// Whether the filter treats the first pixel of a scanline apart, so that
    /// the scanline has to hold one whole pixel.
    pub open spec fn needs_whole_pixel(self) -> bool {
        self == FilterType::Avg || self == FilterType::Paeth
    }
}

/// Whether the filter is fixed, or chosen anew for every scanline.
#[derive(Debug, Clone, Copy, PartialEq, Eq, Structural)]
pub enum AdaptiveFilterType {
    Adaptive,
    NonAdaptive,
}

impl Default for AdaptiveFilterType {
    fn default() -> (r: AdaptiveFilterType)
        ensures
            r == AdaptiveFilterType::NonAdaptive,
    {
        AdaptiveFilterType::NonAdaptive
    }
}

/// The distance between two integers.
pub open spec fn distance(x: int, y: int) -> int {
    if x >= y {
        x - y
    } else {
        y - x
    }
}

/// The Paeth predictor: of the neighbours left, above and above-left, the
/// one nearest to `left + up - upleft`, the earlier one winning a tie.
pub open spec fn paeth(left: u8, up: u8, upleft: u8) -> u8 {
    let p = left as int + up as int - upleft as int;
    let pa = distance(p, left as int);
    let pb = distance(p, up as int);
    let pc = distance(p, upleft as int);
    if pa <= pb && pa <= pc {
        left
    } else if pb <= pc {
        up
    } else {
        upleft
    }
}

/// The byte that a filter predicts for position `i` of a scanline whose
/// unfiltered bytes are `raw`, below the scanline `previous`. A neighbour
/// that lies before the start of the scanline counts as zero.
pub open spec fn predictor(
    method: FilterType,
    bpp: int,
    previous: Seq<u8>,
    raw: Seq<u8>,
    i: int,
) -> u8 {
    let left = if i >= bpp { raw[i - bpp] } else { 0u8 };
    let up = previous[i];
    let upleft = if i >= bpp { previous[i - bpp] } else { 0u8 };
    match method {
        FilterType::NoFilter => 0u8,
        FilterType::Sub => left,
        FilterType::Up => up,
        FilterType::Avg => ((left as int + up as int) / 2) as u8,
        FilterType::Paeth => paeth(left, up, upleft),
    }
}

/// The scanline `raw` after filtering: every byte less its predictor,
/// modulo 256.
pub open spec fn filtered_row(method: FilterType, bpp: int, previous: Seq<u8>, raw: Seq<u8>) -> Seq<u8> {
    Seq::new(
        raw.len(),
        |i: int| raw[i].wrapping_sub(predictor(method, bpp, previous, raw, i)),
    )
}

/// The first `n` bytes of the scanline that `filtered` was made from: each
/// byte plus its predictor modulo 256, the predictor taken from the bytes
/// already restored.
pub open spec fn unfiltered_prefix(
    method: FilterType,
    bpp: int,
    previous: Seq<u8>,
    filtered: Seq<u8>,
    n: nat,
) -> Seq<u8>
    decreases n,
{
    if n == 0 {
        Seq::<u8>::empty()
    } else {
        let head = unfiltered_prefix(method, bpp, previous, filtered, (n - 1) as nat);
        head.push(filtered[n - 1].wrapping_add(predictor(method, bpp, previous, head, n - 1)))
    }
}

/// The scanline that `filtered` was made from.
pub open spec fn unfiltered_row(
    method: FilterType,
    bpp: int,
    previous: Seq<u8>,
    filtered: Seq<u8>,
) -> Seq<u8> {
    unfiltered_prefix(method, bpp, previous, filtered, filtered.len())
}

/// The weight of one filtered byte in the heuristic: its absolute value as
/// a signed byte.
pub open spec fn byte_cost(x: u8) -> nat {
    if x < 128 {
        x as nat
    } else {
        (256 - x) as nat
    }
}

/// The sum of the weights of all bytes.
pub open spec fn row_cost(buf: Seq<u8>) -> nat
    decreases buf.len(),
{
    if buf.len() == 0 {
        0
    } else {
        row_cost(buf.drop_last()) + byte_cost(buf.last())
    }
}

/// The score of a candidate scanline: its cost, capped at what a `usize` holds.
pub open spec fn score(buf: Seq<u8>) -> nat {
    if row_cost(buf) > usize::MAX {
        usize::MAX as nat
    } else {
        row_cost(buf)
    }
}

/// The score of the scanline `raw` filtered with `method`.
pub open spec fn candidate_score(method: FilterType, bpp: int, previous: Seq<u8>, raw: Seq<u8>) -> nat {
    score(filtered_row(method, bpp, previous, raw))
}

/// The filters that the heuristic tries after `NoFilter`, in order.
pub open spec fn candidate_at(k: int) -> FilterType {
    if k == 0 {
        FilterType::Sub
    } else if k == 1 {
        FilterType::Up
    } else if k == 2 {
        FilterType::Avg
    } else {
        FilterType::Paeth
    }
}

/// The filter that the heuristic holds after trying the first `k`
/// candidates: it starts from `NoFilter` and moves to a candidate only when
/// that one scores strictly lower.
pub open spec fn best_of_first(k: nat, bpp: int, previous: Seq<u8>, raw: Seq<u8>) -> FilterType
    decreases k,
{
    if k == 0 {
        FilterType::NoFilter
    } else {
        let held = best_of_first((k - 1) as nat, bpp, previous, raw);
        let next = candidate_at(k - 1);
        if candidate_score(next, bpp, previous, raw) < candidate_score(held, bpp, previous, raw) {
            next
        } else {
            held
        }
    }
}

/// The filter that `filter` applies to the scanline `raw`.
pub open spec fn chosen_filter(
    method: FilterType,
    adaptive: AdaptiveFilterType,
    bpp: int,
    previous: Seq<u8>,
    raw: Seq<u8>,
) -> FilterType {
    match adaptive {
        AdaptiveFilterType::NonAdaptive => method,
        AdaptiveFilterType::Adaptive => best_of_first(4, bpp, previous, raw),
    }
}

/// What `filter_internal` asks of a scanline of `len` bytes.
pub open spec fn filter_fits(method: FilterType, bpp: int, previous_len: int, len: int) -> bool {
    &&& bpp >= 1
    &&& method.reads_previous() ==> previous_len >= len
    &&& method.needs_whole_pixel() ==> bpp <= len
}

pub fn filter_paeth(a: u8, b: u8, c: u8) -> (r: u8)
    ensures
        r == paeth(a, b, c),
{
    let ia: i16 = a as i16;
    let ib: i16 = b as i16;
    let ic: i16 = c as i16;

    let p: i16 = ia + ib - ic;

    let pa: i16 = if p >= ia { p - ia } else { ia - p };
    let pb: i16 = if p >= ib { p - ib } else { ib - p };
    let pc: i16 = if p >= ic { p - ic } else { ic - p };

    if pa <= pb && pa <= pc {
        a
    } else if pb <= pc {
        b
    } else {
        c
    }
}

/// Filters `current` in place with `method` and returns the method.
pub fn filter_internal(
    method: FilterType,
    bpp: usize,
    len: usize,
    previous: &[u8],
    current: &mut [u8],
) -> (r: FilterType)
    requires
        len == old(current)@.len(),
        filter_fits(method, bpp as int, previous@.len() as int, len as int),
    ensures
        r == method,
        final(current)@ == filtered_row(method, bpp as int, previous@, old(current)@),
{
    let ghost raw = current@;
    match method {
        FilterType::NoFilter => {
            assert(current@ =~= filtered_row(method, bpp as int, previous@, raw));
            FilterType::NoFilter
        },
        FilterType::Sub => {
            let mut i: usize = len;
            while i > bpp
                invariant
                    bpp >= 1,
                    i <= len,
                    current@.len() == len,
                    raw.len() == len,
                    forall|j: int| 0 <= j < i ==> current@[j] == raw[j],
                    forall|j: int|
                        i <= j < len ==> current@[j] == raw[j].wrapping_sub(
                            predictor(FilterType::Sub, bpp as int, previous@, raw, j),
                        ),
                decreases i,
            {
                i -= 1;
                current[i] = current[i].wrapping_sub(current[i - bpp]);
            }
            assert(current@ =~= filtered_row(method, bpp as int, previous@, raw));
            FilterType::Sub
        },
        FilterType::Up => {
            let mut i: usize = 0;
            while i < len
                invariant
                    i <= len,
                    current@.len() == len,
                    raw.len() == len,
                    previous@.len() >= len,
                    forall|j: int| i <= j < len ==> current@[j] == raw[j],
                    forall|j: int|
                        0 <= j < i ==> current@[j] == raw[j].wrapping_sub(
                            predictor(FilterType::Up, bpp as int, previous@, raw, j),
                        ),
                decreases len - i,
            {
                current[i] = current[i].wrapping_sub(previous[i]);
                i += 1;
            }
            assert(current@ =~= filtered_row(method, bpp as int, previous@, raw));
            FilterType::Up
        },
        FilterType::Avg => {
            let mut i: usize = len;
            while i > bpp
                invariant
                    1 <= bpp <= i <= len,
                    current@.len() == len,
                    raw.len() == len,
                    previous@.len() >= len,
                    forall|j: int| 0 <= j < i ==> current@[j] == raw[j],
                    forall|j: int|
                        i <= j < len ==> current@[j] == raw[j].wrapping_sub(
                            predictor(FilterType::Avg, bpp as int, previous@, raw, j),
                        ),
                decreases i,
            {
                i -= 1;
                let mean: u16 = (current[i - bpp] as u16 + previous[i] as u16) / 2;
                current[i] = current[i].wrapping_sub(mean as u8);
            }
            let mut k: usize = 0;
            while k < bpp
                invariant
                    1 <= bpp <= len,
                    k <= bpp,
                    current@.len() == len,
                    raw.len() == len,
                    previous@.len() >= len,
                    forall|j: int| k <= j < bpp ==> current@[j] == raw[j],
                    forall|j: int|
                        (0 <= j < k || bpp <= j < len) ==> current@[j] == raw[j].wrapping_sub(
                            predictor(FilterType::Avg, bpp as int, previous@, raw, j),
                        ),
                decreases bpp - k,
            {
                current[k] = current[k].wrapping_sub(previous[k] / 2);
                k += 1;
            }
            assert(current@ =~= filtered_row(method, bpp as int, previous@, raw));
            FilterType::Avg
        },
        FilterType::Paeth => {
            let mut i: usize = len;
            while i > bpp
                invariant
                    1 <= bpp <= i <= len,
                    current@.len() == len,
                    raw.len() == len,
                    previous@.len() >= len,
                    forall|j: int| 0 <= j < i ==> current@[j] == raw[j],
                    forall|j: int|
                        i <= j < len ==> current@[j] == raw[j].wrapping_sub(
                            predictor(FilterType::Paeth, bpp as int, previous@, raw, j),
                        ),
                decreases i,
            {
                i -= 1;
                let predicted = filter_paeth(current[i - bpp], previous[i], previous[i - bpp]);
                current[i] = current[i].wrapping_sub(predicted);
            }
            let mut k: usize = 0;
            while k < bpp
                invariant
                    1 <= bpp <= len,
                    k <= bpp,
                    current@.len() == len,
                    raw.len() == len,
                    previous@.len() >= len,
                    forall|j: int| k <= j < bpp ==> current@[j] == raw[j],
                    forall|j: int|
                        (0 <= j < k || bpp <= j < len) ==> current@[j] == raw[j].wrapping_sub(
                            predictor(FilterType::Paeth, bpp as int, previous@, raw, j),
                        ),
                decreases bpp - k,
            {
                let predicted = filter_paeth(0, previous[k], 0);
                current[k] = current[k].wrapping_sub(predicted);
                k += 1;
            }
            assert(current@ =~= filtered_row(method, bpp as int, previous@, raw));
            FilterType::Paeth
        },
    }
}

/// The cost of a scanline grows by the weight of each byte appended.
pub proof fn lemma_row_cost_push(buf: Seq<u8>, x: u8)
    ensures
        row_cost(buf.push(x)) == row_cost(buf) + byte_cost(x),
{
    assert(buf.push(x).drop_last() =~= buf);
}

/// The score of a buffer for the adaptive heuristic: the sum of its bytes'
/// absolute values as signed bytes, saturating.
pub fn sum_buffer(buf: &[u8]) -> (r: usize)
    ensures
        r == score(buf@),
{
    let mut acc: usize = 0;
    let mut i: usize = 0;
    while i < buf.len()
        invariant
            i <= buf@.len(),
            acc == score(buf@.take(i as int)),
        decreases buf@.len() - i,
    {
        let x = buf[i];
        let cost: usize = if x < 128 { x as usize } else { 256 - x as usize };
        proof {
            lemma_row_cost_push(buf@.take(i as int), x);
            assert(buf@.take(i as int).push(x) =~= buf@.take(i + 1));
        }
        acc = acc.saturating_add(cost);
        i += 1;
    }
    assert(buf@.take(i as int) =~= buf@);
    acc
}

/// Overwrites `dst` with the bytes of `src`.
fn copy_row(dst: &mut [u8], src: &[u8])
    requires
        old(dst)@.len() == src@.len(),
    ensures
        final(dst)@ == src@,
{
    let len = dst.len();
    let mut i: usize = 0;
    while i < len
        invariant
            i <= len,
            len == dst@.len(),
            len == src@.len(),
            forall|j: int| 0 <= j < i ==> dst@[j] == src@[j],
        decreases len - i,
    {
        dst[i] = src[i];
        i += 1;
    }
    assert(dst@ =~= src@);
}

/// The candidate that the heuristic tries at step `k`.
fn candidate(k: usize) -> (r: FilterType)
    ensures
        r == candidate_at(k as int),
{
    if k == 0 {
        FilterType::Sub
    } else if k == 1 {
        FilterType::Up
    } else if k == 2 {
        FilterType::Avg
    } else {
        FilterType::Paeth
    }
}

/// Filters the scanline `current` in place and returns the filter applied.
///
/// Without adaptive filtering that is `method`. With it, all five filters are
/// applied to the same unfiltered scanline, and the one whose output scores
/// lowest is kept; `NoFilter` wins a tie, then the filter tried first.
pub fn filter(
    method: FilterType,
    adaptive: AdaptiveFilterType,
    bpp: BytesPerPixel,
    previous: &[u8],
    current: &mut [u8],
) -> (r: FilterType)
    requires
        adaptive == AdaptiveFilterType::NonAdaptive ==> filter_fits(
            method,
            bpp.value(),
            previous@.len() as int,
            old(current)@.len() as int,
        ),
        adaptive == AdaptiveFilterType::Adaptive ==> previous@.len() >= old(current)@.len()
            && bpp.value() <= old(current)@.len(),
    ensures
        r == chosen_filter(method, adaptive, bpp.value(), previous@, old(current)@),
        final(current)@ == filtered_row(r, bpp.value(), previous@, old(current)@),
        adaptive == AdaptiveFilterType::Adaptive ==> score(final(current)@) <= score(old(current)@),
{
    let stride = bpp.into_usize();
    let len = current.len();
    let ghost raw = current@;

    match adaptive {
        AdaptiveFilterType::NonAdaptive => filter_internal(method, stride, len, previous, current),
        AdaptiveFilterType::Adaptive => {
            let mut filtered_buffer = slice_to_vec(current);
            assert(filtered_buffer@ =~= filtered_row(FilterType::NoFilter, stride as int, previous@, raw));
            let mut min_sum: usize = sum_buffer(filtered_buffer.as_slice());
            let mut filter_choice = FilterType::NoFilter;

            let mut k: usize = 0;
            while k < 4
                invariant
                    k <= 4,
                    1 <= stride <= len,
                    stride == bpp.value(),
                    current@ == raw,
                    raw.len() == len,
                    previous@.len() >= len,
                    filter_choice == best_of_first(k as nat, stride as int, previous@, raw),
                    filtered_buffer@ == filtered_row(filter_choice, stride as int, previous@, raw),
                    min_sum == score(filtered_buffer@),
                    min_sum <= score(raw),
                decreases 4 - k,
            {
                let next = candidate(k);
                let mut scratch = slice_to_vec(current);
                filter_internal(next, stride, len, previous, scratch.as_mut_slice());
                let sum = sum_buffer(scratch.as_slice());
                if sum < min_sum {
                    min_sum = sum;
                    filter_choice = next;
                    filtered_buffer = scratch;
                }
                k += 1;
            }

            copy_row(current, filtered_buffer.as_slice());
            filter_choice
        },
    }
}

/// Why `unfilter` rejects a scanline, if it does.
pub open spec fn unfilter_error(
    method: FilterType,
    bpp: int,
    previous_len: int,
    len: int,
) -> Option<Seq<char>> {
    if method.reads_previous() && previous_len < len {
        Some("Filtering failed: not enough data in previous row"@)
    } else if method.needs_whole_pixel() && bpp > len {
        Some("Filtering failed: bytes per pixel is greater than length of row"@)
    } else {
        None
    }
}

/// Restores in place the scanline that `current` was filtered from, byte by
/// byte from the start of the scanline.
///
/// Fails, and leaves `current` as it was, when the filter reads the scanline
/// above and `previous` is shorter than `current`, or when the filter needs
/// one whole pixel and `current` is shorter than that.
pub fn unfilter(
    filter: FilterType,
    tbpp: BytesPerPixel,
    previous: &[u8],
    current: &mut [u8],
) -> (r: Result<(), &'static str>)
    ensures
        match r {
            Ok(()) => unfilter_error(
                filter,
                tbpp.value(),
                previous@.len() as int,
                old(current)@.len() as int,
            ) is None && final(current)@ == unfiltered_row(
                filter,
                tbpp.value(),
                previous@,
                old(current)@,
            ),
            Err(msg) => unfilter_error(
                filter,
                tbpp.value(),
                previous@.len() as int,
                old(current)@.len() as int,
            ) == Some(msg@) && final(current)@ == old(current)@,
        },
{
    let bpp = tbpp.into_usize();
    let len = current.len();
    let ghost filtered = current@;

    let reads_previous = match filter {
        FilterType::Up | FilterType::Avg | FilterType::Paeth => true,
        _ => false,
    };
    let needs_whole_pixel = match filter {
        FilterType::Avg | FilterType::Paeth => true,
        _ => false,
    };
    if reads_previous && previous.len() < len {
        return Err("Filtering failed: not enough data in previous row");
    }
    if needs_whole_pixel && bpp > len {
        return Err("Filtering failed: bytes per pixel is greater than length of row");
    }

    let mut i: usize = 0;
    while i < len
        invariant
            i <= len,
            bpp >= 1,
            bpp == tbpp.value(),
            current@.len() == len,
            filtered.len() == len,
            filter.reads_previous() ==> previous@.len() >= len,
            current@.take(i as int) == unfiltered_prefix(filter, bpp as int, previous@, filtered, i as nat),
            forall|j: int| i <= j < len ==> current@[j] == filtered[j],
        decreases len - i,
    {
        let ghost head = current@.take(i as int);
        let predicted: u8 = match filter {
            FilterType::NoFilter => 0,
            FilterType::Sub => if i >= bpp { current[i - bpp] } else { 0 },
            FilterType::Up => previous[i],
            FilterType::Avg => {
                let left: u8 = if i >= bpp { current[i - bpp] } else { 0 };
                ((left as u16 + previous[i] as u16) / 2) as u8
            },
            FilterType::Paeth => {
                if i >= bpp {
                    filter_paeth(current[i - bpp], previous[i], previous[i - bpp])
                } else {
                    filter_paeth(0, previous[i], 0)
                }
            },
        };
        assert(predicted == predictor(filter, bpp as int, previous@, head, i as int));
        current[i] = current[i].wrapping_add(predicted);
        assert(current@.take(i + 1) =~= head.push(filtered[i as int].wrapping_add(predicted)));
        i += 1;
    }
    assert(current@.take(len as int) =~= current@);
    Ok(())
}

/// The first `n` bytes restored from a filtered scanline are the first `n`
/// bytes of the scanline that was filtered.
proof fn lemma_unfilter_prefix(
    method: FilterType,
    bpp: int,
    previous: Seq<u8>,
    row: Seq<u8>,
    n: nat,
)
    requires
        bpp >= 1,
        n <= row.len(),
    ensures
        unfiltered_prefix(method, bpp, previous, filtered_row(method, bpp, previous, row), n)
            == row.take(n as int),
    decreases n,
{
    let filtered = filtered_row(method, bpp, previous, row);
    if n == 0 {
        assert(row.take(0) =~= Seq::<u8>::empty());
    } else {
        lemma_unfilter_prefix(method, bpp, previous, row, (n - 1) as nat);
        let head = row.take(n - 1);
        let i = n - 1;
        assert(predictor(method, bpp, previous, head, i) == predictor(method, bpp, previous, row, i));
        let p = predictor(method, bpp, previous, row, i);
        assert(row[i].wrapping_sub(p).wrapping_add(p) == row[i]);
        assert(head.push(row[i]) =~= row.take(n as int));
    }
}

/// Unfiltering undoes filtering: for every filter, every stride and every
/// scanline above, the scanline restored from a filtered scanline is the
/// scanline that was filtered.
pub proof fn lemma_unfilter_inverts_filter(
    method: FilterType,
    bpp: BytesPerPixel,
    previous: Seq<u8>,
    row: Seq<u8>,
)
    ensures
        unfiltered_row(
            method,
            bpp.value(),
            previous,
            filtered_row(method, bpp.value(), previous, row),
        ) == row,
{
    lemma_unfilter_prefix(method, bpp.value(), previous, row, row.len());
    assert(row.take(row.len() as int) =~= row);
}

/// `unfilter` accepts every scanline that `filter` accepts under the same
/// filter.
pub proof fn lemma_unfilter_accepts_filtered(
    method: FilterType,
    bpp: BytesPerPixel,
    previous: Seq<u8>,
    row: Seq<u8>,
)
    requires
        filter_fits(method, bpp.value(), previous.len() as int, row.len() as int),
    ensures
        unfilter_error(
            method,
            bpp.value(),
            previous.len() as int,
            filtered_row(method, bpp.value(), previous, row).len() as int,
        ) is None,
{
}

/// The filter that the heuristic holds after any number of candidates never
/// scores above the unfiltered scanline.
proof fn lemma_best_of_first_bound(k: nat, bpp: int, previous: Seq<u8>, row: Seq<u8>)
    ensures
        candidate_score(best_of_first(k, bpp, previous, row), bpp, previous, row) <= score(row),
    decreases k,
{
    assert(filtered_row(FilterType::NoFilter, bpp, previous, row) =~= row);
    if k > 0 {
        lemma_best_of_first_bound((k - 1) as nat, bpp, previous, row);
    }
}

/// With adaptive filtering, the scanline that `filter` leaves never scores
/// above the scanline that it was given: the filter chosen scores no higher
/// than no filter at all.
pub proof fn lemma_adaptive_never_worse(
    method: FilterType,
    bpp: BytesPerPixel,
    previous: Seq<u8>,
    row: Seq<u8>,
)
    ensures
        score(
            filtered_row(
                chosen_filter(method, AdaptiveFilterType::Adaptive, bpp.value(), previous, row),
                bpp.value(),
                previous,
                row,
            ),
        ) <= score(filtered_row(FilterType::NoFilter, bpp.value(), previous, row)),
        filtered_row(FilterType::NoFilter, bpp.value(), previous, row) == row,
{
    lemma_best_of_first_bound(4, bpp.value(), previous, row);
    assert(filtered_row(FilterType::NoFilter, bpp.value(), previous, row) =~= row);
}

} // verus!
