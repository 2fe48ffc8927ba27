//! The compressor: the zlib encoder of the `deflate` crate, behind contracts.
//!
//! Nothing here is proved of the encoder. What its calls return is given
//! names, as functions of the options it was made with and of the calls made
//! on it: `zlib_takes` for a write, `zlib_flushes` for a flush,
//! `zlib_finished` for the end. The contracts of the rest of the library
//! speak of those names.

use vstd::prelude::*;

use crate::common::Compression;

verus! {

/// `deflate::MatchingType`: greedy or lazy matching.
#[verifier::external_type_specification]
pub struct ExMatchingType(deflate::MatchingType);

/// `deflate::SpecialOptions`: whether a kind of block is forced.
#[verifier::external_type_specification]
pub struct ExSpecialOptions(deflate::SpecialOptions);

/// `deflate::CompressionOptions`: the four settings of the compressor, a
/// plain struct with public fields.
#[verifier::external_type_specification]
pub struct ExCompressionOptions(deflate::CompressionOptions);

/// `CompressionOptions::default` gives the options of the default level:
/// lazy matching with up to 128 hash checks.
pub assume_specification[ <deflate::CompressionOptions as Default>::default ]() -> (r:
    deflate::CompressionOptions)
    ensures
        r == (deflate::CompressionOptions {
            max_hash_checks: 128,
            lazy_if_less_than: 32,
            matching_type: deflate::MatchingType::Lazy,
            special: deflate::SpecialOptions::Normal,
        }),
;

/// `CompressionOptions::fast` gives the options of the fast level: greedy
/// matching with one hash check.
pub assume_specification[ deflate::CompressionOptions::fast ]() -> (r: deflate::CompressionOptions)
    ensures
        r == (deflate::CompressionOptions {
            max_hash_checks: 1,
            lazy_if_less_than: 0,
            matching_type: deflate::MatchingType::Greedy,
            special: deflate::SpecialOptions::Normal,
        }),
;

/// `CompressionOptions::high` gives the options of the high level: lazy
/// matching with up to 1768 hash checks.
pub assume_specification[ deflate::CompressionOptions::high ]() -> (r: deflate::CompressionOptions)
    ensures
        r == (deflate::CompressionOptions {
            max_hash_checks: 1768,
            lazy_if_less_than: 128,
            matching_type: deflate::MatchingType::Lazy,
            special: deflate::SpecialOptions::Normal,
        }),
;

/// `CompressionOptions::huffman_only` gives options without matching:
/// greedy, with no hash check.
pub assume_specification[ deflate::CompressionOptions::huffman_only ]() -> (r:
    deflate::CompressionOptions)
    ensures
        r == (deflate::CompressionOptions {
            max_hash_checks: 0,
            lazy_if_less_than: 0,
            matching_type: deflate::MatchingType::Greedy,
            special: deflate::SpecialOptions::Normal,
        }),
;

/// `CompressionOptions::rle` gives the options of run-length matching: lazy,
/// with no hash check.
pub assume_specification[ deflate::CompressionOptions::rle ]() -> (r: deflate::CompressionOptions)
    ensures
        r == (deflate::CompressionOptions {
            max_hash_checks: 0,
            lazy_if_less_than: 0,
            matching_type: deflate::MatchingType::Lazy,
            special: deflate::SpecialOptions::Normal,
        }),
;

impl Compression {
    /// The options that the compressor is made with at this level.
    pub open spec fn options(self) -> deflate::CompressionOptions {
        match self {
            Compression::Default => deflate::CompressionOptions {
                max_hash_checks: 128,
                lazy_if_less_than: 32,
                matching_type: deflate::MatchingType::Lazy,
                special: deflate::SpecialOptions::Normal,
            },
            Compression::Fast => deflate::CompressionOptions {
                max_hash_checks: 1,
                lazy_if_less_than: 0,
                matching_type: deflate::MatchingType::Greedy,
                special: deflate::SpecialOptions::Normal,
            },
            Compression::Best => deflate::CompressionOptions {
                max_hash_checks: 1768,
                lazy_if_less_than: 128,
                matching_type: deflate::MatchingType::Lazy,
                special: deflate::SpecialOptions::Normal,
            },
            Compression::Huffman => deflate::CompressionOptions {
                max_hash_checks: 0,
                lazy_if_less_than: 0,
                matching_type: deflate::MatchingType::Greedy,
                special: deflate::SpecialOptions::Normal,
            },
            Compression::Rle => deflate::CompressionOptions {
                max_hash_checks: 0,
                lazy_if_less_than: 0,
                matching_type: deflate::MatchingType::Lazy,
                special: deflate::SpecialOptions::Normal,
            },
        }
    }

    /// The options that the compressor is made with at this level.
    pub fn to_options(self) -> (r: deflate::CompressionOptions)
        ensures
            r == self.options(),
    {
        match self {
            Compression::Default => deflate::CompressionOptions::default(),
            Compression::Fast => deflate::CompressionOptions::fast(),
            Compression::Best => deflate::CompressionOptions::high(),
            Compression::Huffman => deflate::CompressionOptions::huffman_only(),
            Compression::Rle => deflate::CompressionOptions::rle(),
        }
    }
}

/// A zlib stream in the making: a `deflate::write::ZlibEncoder` that writes
/// into a vector of its own.
#[verifier::external_body]
pub struct Compressor {
    inner: deflate::write::ZlibEncoder<Vec<u8>>,
}

/// The options that a compressor was made with.
pub uninterp spec fn compressor_options(c: Compressor) -> deflate::CompressionOptions;

/// The calls made on a compressor so far, in order: `Some` of the bytes of
/// each write, `None` for each flush.
pub uninterp spec fn compressor_input(c: Compressor) -> Seq<Option<Seq<u8>>>;

/// Whether a compressor made with `options`, after the calls `input`, takes
/// all of `data` in one more write.
pub uninterp spec fn zlib_takes(
    options: deflate::CompressionOptions,
    input: Seq<Option<Seq<u8>>>,
    data: Seq<u8>,
) -> bool;

/// Whether a compressor made with `options`, after the calls `input`, ends
/// its current block when it is flushed.
pub uninterp spec fn zlib_flushes(
    options: deflate::CompressionOptions,
    input: Seq<Option<Seq<u8>>>,
) -> bool;

/// What a compressor made with `options` returns when it is finished after
/// the calls `input`: the zlib stream, or nothing where it fails.
pub uninterp spec fn zlib_finished(
    options: deflate::CompressionOptions,
    input: Seq<Option<Seq<u8>>>,
) -> Option<Seq<u8>>;

/// The zlib stream that a compressor made with `options` returns when it is
/// finished after the calls `input`.
pub open spec fn zlib_stream(
    options: deflate::CompressionOptions,
    input: Seq<Option<Seq<u8>>>,
) -> Seq<u8> {
    match zlib_finished(options, input) {
        Some(stream) => stream,
        None => Seq::<u8>::empty(),
    }
}

/// Whether a compressor made with `options` goes through the calls `input`,
/// one after the other, without a failure.
pub open spec fn zlib_accepts(
    options: deflate::CompressionOptions,
    input: Seq<Option<Seq<u8>>>,
) -> bool
    decreases input.len(),
{
    if input.len() == 0 {
        true
    } else {
        zlib_accepts(options, input.drop_last()) && match input.last() {
            Some(data) => zlib_takes(options, input.drop_last(), data),
            None => zlib_flushes(options, input.drop_last()),
        }
    }
}

/// Whether a compressor made with `options` goes through the calls `input`
/// and is then finished, all without a failure.
pub open spec fn zlib_compresses(
    options: deflate::CompressionOptions,
    input: Seq<Option<Seq<u8>>>,
) -> bool {
    zlib_accepts(options, input) && zlib_finished(options, input) is Some
}

/// Calls that a compressor goes through include no call that it fails on.
pub proof fn lemma_accepts_prefix(
    options: deflate::CompressionOptions,
    input: Seq<Option<Seq<u8>>>,
    k: int,
)
    requires
        0 <= k <= input.len(),
        zlib_accepts(options, input),
    ensures
        zlib_accepts(options, input.take(k)),
    decreases input.len(),
{
    if k == input.len() {
        assert(input.take(k) =~= input);
    } else {
        lemma_accepts_prefix(options, input.drop_last(), k);
        assert(input.drop_last().take(k) =~= input.take(k));
    }
}

/// `ZlibEncoder::new` makes an encoder with the given options, on which no
/// call has been made.
#[verifier::external_body]
pub(crate) fn compressor_new(options: deflate::CompressionOptions) -> (c: Compressor)
    ensures
        compressor_options(c) == options,
        compressor_input(c) == Seq::<Option<Seq<u8>>>::empty(),
{
    Compressor { inner: deflate::write::ZlibEncoder::new(Vec::new(), options) }
}

/// `write_all` on a `ZlibEncoder` takes all of `data` into the stream, or
/// fails. The encoder writes into a vector of its own, so whether it fails is
/// a matter of its options, of the calls made on it, and of `data`. After a
/// failure nothing is known of the encoder.
#[verifier::external_body]
pub(crate) fn compressor_write_all(c: &mut Compressor, data: &[u8]) -> (r: Result<
    (),
    std::io::Error,
>)
    ensures
        r is Ok <==> zlib_takes(compressor_options(*old(c)), compressor_input(*old(c)), data@),
        r is Ok ==> compressor_options(*final(c)) == compressor_options(*old(c))
            && compressor_input(*final(c)) == compressor_input(*old(c)).push(Some(data@)),
{
    std::io::Write::write_all(&mut c.inner, data)
}

/// `flush` on a `ZlibEncoder` ends the current block of the stream, or fails.
/// Whether it fails is a matter of the encoder's options and of the calls
/// made on it. After a failure nothing is known of the encoder.
#[verifier::external_body]
pub(crate) fn compressor_flush(c: &mut Compressor) -> (r: Result<(), std::io::Error>)
    ensures
        r is Ok <==> zlib_flushes(compressor_options(*old(c)), compressor_input(*old(c))),
        r is Ok ==> compressor_options(*final(c)) == compressor_options(*old(c))
            && compressor_input(*final(c)) == compressor_input(*old(c)).push(None),
{
    std::io::Write::flush(&mut c.inner)
}

/// `ZlibEncoder::finish` ends the stream and hands out the vector that holds
/// it, or fails. Which of the two, and the stream, are a matter of the
/// encoder's options and of the calls made on it.
#[verifier::external_body]
pub(crate) fn compressor_finish(c: Compressor) -> (r: Result<Vec<u8>, std::io::Error>)
    ensures
        match r {
            Ok(v) => zlib_finished(compressor_options(c), compressor_input(c)) == Some(v@),
            Err(_) => zlib_finished(compressor_options(c), compressor_input(c)) is None,
        },
{
    c.inner.finish()
}

} // verus!
