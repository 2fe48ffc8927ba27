//! The encoder: image parameters are set on an `Encoder`, which writes the
//! header and becomes a `Writer`; the `Writer` takes the image data, one
//! whole frame at a time.
//!
//! A `Writer` does no input or output. What it emits goes to the end of a
//! buffer that it owns, and the caller takes the bytes from there.

use vstd::prelude::*;
use vstd::slice::{slice_subrange, slice_to_vec};

use crate::chunk::{
    advance, chunk_bytes, chunks_bytes, consecutive, data_chunks, fdAT, lemma_advance_add,
    lemma_chunks_bytes_concat, lemma_consecutive_concat, lemma_data_chunks_numbers,
    lemma_sequence_numbers_concat, pieces, sequence_numbers, write_chunk, write_data_chunks,
    Chunk, ChunkType, IDAT, IEND,
};
use crate::common::{
    AnimationControl, BitDepth, BlendOp, BytesPerPixel, ColorType, Compression, DisposeOp,
    FrameControl, Info, ScaledFloat, SourceChromaticities, SrgbRenderingIntent,
};
use crate::error::{EncodingError, FormatError, FormatErrorKind, ParameterError, ParameterErrorKind};
use crate::filter::{chosen_filter, filter, filtered_row, AdaptiveFilterType, FilterType};
use crate::zlib::{
    compressor_finish, compressor_input, compressor_new, compressor_options,
    compressor_write_all, lemma_accepts_prefix, zlib_accepts, zlib_compresses, zlib_stream,
    zlib_takes,
};

verus! {

/// The eight bytes that every PNG file starts with.
pub open spec fn signature() -> Seq<u8> {
    seq![137u8, 80u8, 78u8, 71u8, 13u8, 10u8, 26u8, 10u8]
}

/// What an `Encoder` holds.
pub struct EncoderState {
    pub info: Info,
    pub filter: FilterType,
    pub adaptive_filter: AdaptiveFilterType,
    pub sep_def_img: bool,
}

impl EncoderState {
    /// Animation control and frame control are set together, and the frame
    /// covers the image.
    pub open spec fn wf(self) -> bool {
        match self.info.frame_control {
            Some(fc) => self.info.animation_control is Some && fc == FrameControl::spec_default()
                .with_size(self.info.width, self.info.height).with_presentation(fc),
            None => self.info.animation_control is None,
        }
    }
}

impl FrameControl {
    /// The same frame with another size.
    pub open spec fn with_size(self, width: u32, height: u32) -> FrameControl {
        FrameControl { width, height, ..self }
    }

    /// The same frame, shown as `other` is: with its time, its disposal and
    /// its blending.
    pub open spec fn with_presentation(self, other: FrameControl) -> FrameControl {
        FrameControl {
            delay_num: other.delay_num,
            delay_den: other.delay_den,
            dispose_op: other.dispose_op,
            blend_op: other.blend_op,
            ..self
        }
    }
}

/// PNG Encoder
pub struct Encoder {
    info: Info,
    filter: FilterType,
    adaptive_filter: AdaptiveFilterType,
    sep_def_img: bool,
}

impl View for Encoder {
    type V = EncoderState;

    closed spec fn view(&self) -> EncoderState {
        EncoderState {
            info: self.info,
            filter: self.filter,
            adaptive_filter: self.adaptive_filter,
            sep_def_img: self.sep_def_img,
        }
    }
}

impl Encoder {
    /// An encoder for an eight-bit grayscale image of the given size, with
    /// the `Sub` filter on every scanline.
    pub fn new(width: u32, height: u32) -> (r: Encoder)
        ensures
            r@ == (EncoderState {
                info: Info::spec_with_size(width, height),
                filter: FilterType::Sub,
                adaptive_filter: AdaptiveFilterType::NonAdaptive,
                sep_def_img: false,
            }),
            r@.wf(),
    {
        Encoder {
            info: Info::with_size(width, height),
            filter: FilterType::default(),
            adaptive_filter: AdaptiveFilterType::default(),
            sep_def_img: false,
        }
    }

    /// Specify that the image is animated.
    ///
    /// `num_frames` controls how many frames the animation has, while
    /// `num_plays` controls how many times the animation should be
    /// repeated until it stops; if it is zero it repeats without end.
    ///
    /// Fails with `ZeroFrames`, and changes nothing, if `num_frames` is 0.
    pub fn set_animated(&mut self, num_frames: u32, num_plays: u32) -> (r: Result<
        (),
        EncodingError,
    >)
        requires
            old(self)@.wf(),
        ensures
            final(self)@.wf(),
            num_frames == 0 ==> r is Err && r->Err_0.is_format(FormatErrorKind::ZeroFrames)
                && final(self)@ == old(self)@,
            num_frames != 0 ==> r is Ok && final(self)@ == (EncoderState {
                info: Info {
                    animation_control: Some(AnimationControl { num_frames, num_plays }),
                    frame_control: Some(
                        FrameControl::spec_default().with_size(
                            old(self)@.info.width,
                            old(self)@.info.height,
                        ),
                    ),
                    ..old(self)@.info
                },
                ..old(self)@
            }),
    {
        if num_frames == 0 {
            return Err(EncodingError::format(FormatErrorKind::ZeroFrames));
        }
        let actl = AnimationControl { num_frames, num_plays };
        let fctl = FrameControl {
            sequence_number: 0,
            width: self.info.width,
            height: self.info.height,
            ..FrameControl::default()
        };
        self.info.animation_control = Some(actl);
        self.info.frame_control = Some(fctl);
        Ok(())
    }

    /// Says whether the first image written is a default image that is no
    /// frame of the animation: the image then holds one image more than the
    /// animation has frames. This is a setting of an animation; on an image
    /// that is not animated it fails with `NotAnimated` and changes nothing.
    pub fn set_sep_def_img(&mut self, sep_def_img: bool) -> (r: Result<(), EncodingError>)
        requires
            old(self)@.wf(),
        ensures
            final(self)@.wf(),
            old(self)@.info.animation_control is Some ==> r is Ok && final(self)@ == (EncoderState {
                sep_def_img,
                ..old(self)@
            }),
            old(self)@.info.animation_control is None ==> r is Err && r->Err_0.is_format(
                FormatErrorKind::NotAnimated,
            ) && final(self)@ == old(self)@,
    {
        if self.info.animation_control.is_some() {
            self.sep_def_img = sep_def_img;
            Ok(())
        } else {
            Err(EncodingError::format(FormatErrorKind::NotAnimated))
        }
    }

    /// Sets the raw byte contents of the PLTE chunk.
    pub fn set_palette(&mut self, palette: Vec<u8>)
        requires
            old(self)@.wf(),
        ensures
            final(self)@.wf(),
            final(self)@ == (EncoderState {
                info: Info { palette: Some(palette), ..old(self)@.info },
                ..old(self)@
            }),
    {
        self.info.palette = Some(palette);
    }

    /// Sets the raw byte contents of the tRNS chunk.
    pub fn set_trns(&mut self, trns: Vec<u8>)
        requires
            old(self)@.wf(),
        ensures
            final(self)@.wf(),
            final(self)@ == (EncoderState {
                info: Info { trns: Some(trns), ..old(self)@.info },
                ..old(self)@
            }),
    {
        self.info.trns = Some(trns);
    }

    /// Set the display gamma of the source system on which the image was generated or last edited.
    pub fn set_source_gamma(&mut self, source_gamma: ScaledFloat)
        requires
            old(self)@.wf(),
        ensures
            final(self)@.wf(),
            final(self)@ == (EncoderState {
                info: Info { source_gamma: Some(source_gamma), ..old(self)@.info },
                ..old(self)@
            }),
    {
        self.info.source_gamma = Some(source_gamma);
    }

    /// Set the chromaticities for the source system's display channels (red, green, blue) and the whitepoint
    /// of the source system on which the image was generated or last edited.
    pub fn set_source_chromaticities(&mut self, source_chromaticities: SourceChromaticities)
        requires
            old(self)@.wf(),
        ensures
            final(self)@.wf(),
            final(self)@ == (EncoderState {
                info: Info {
                    source_chromaticities: Some(source_chromaticities),
                    ..old(self)@.info
                },
                ..old(self)@
            }),
    {
        self.info.source_chromaticities = Some(source_chromaticities);
    }

    /// Mark the image data as conforming to the SRGB color space with the specified rendering intent.
    ///
    /// Matching source gamma and chromaticities chunks are added automatically.
    /// Any manually specified source gamma or chromaticities will be ignored.
    pub fn set_srgb(&mut self, rendering_intent: SrgbRenderingIntent)
        requires
            old(self)@.wf(),
        ensures
            final(self)@.wf(),
            final(self)@ == (EncoderState {
                info: Info { srgb: Some(rendering_intent), ..old(self)@.info },
                ..old(self)@
            }),
    {
        self.info.srgb = Some(rendering_intent);
    }

    /// Set the color of the encoded image.
    ///
    /// These correspond to the color types in the png IHDR data that will be written. The length
    /// of the image data that is later supplied must match the color type, otherwise an error will
    /// be emitted.
    pub fn set_color(&mut self, color: ColorType)
        requires
            old(self)@.wf(),
        ensures
            final(self)@.wf(),
            final(self)@ == (EncoderState {
                info: Info { color_type: color, ..old(self)@.info },
                ..old(self)@
            }),
    {
        self.info.color_type = color;
    }

    /// Set the indicated depth of the image data.
    pub fn set_depth(&mut self, depth: BitDepth)
        requires
            old(self)@.wf(),
        ensures
            final(self)@.wf(),
            final(self)@ == (EncoderState {
                info: Info { bit_depth: depth, ..old(self)@.info },
                ..old(self)@
            }),
    {
        self.info.bit_depth = depth;
    }

    /// Set compression parameters.
    pub fn set_compression(&mut self, compression: Compression)
        requires
            old(self)@.wf(),
        ensures
            final(self)@.wf(),
            final(self)@ == (EncoderState {
                info: Info { compression, ..old(self)@.info },
                ..old(self)@
            }),
    {
        self.info.compression = compression;
    }

    /// Set the used filter type.
    ///
    /// The default filter is [`FilterType::Sub`] which provides a basic prediction algorithm for
    /// sample values based on the previous. For a potentially better compression ratio, at the
    /// cost of more complex processing, try out [`FilterType::Paeth`].
    pub fn set_filter(&mut self, filter: FilterType)
        ensures
            final(self)@ == (EncoderState { filter, ..old(self)@ }),
    {
        self.filter = filter;
    }

    /// Set the adaptive filter type.
    ///
    /// Adaptive filtering attempts to select the best filter for each line
    /// based on heuristics which minimize the file size for compression rather
    /// than use a single filter for the entire image. The default method is
    /// [`AdaptiveFilterType::NonAdaptive`].
    pub fn set_adaptive_filter(&mut self, adaptive_filter: AdaptiveFilterType)
        ensures
            final(self)@ == (EncoderState { adaptive_filter, ..old(self)@ }),
    {
        self.adaptive_filter = adaptive_filter;
    }

    /// Set the fraction of time every frame is going to be displayed, in seconds.
    ///
    /// If the denominator is 0, it is to be treated as if it were 100
    /// (that is, the numerator then specifies 1/100ths of a second).
    /// If the the value of the numerator is 0 the decoder should render the next frame
    /// as quickly as possible, though viewers may impose a reasonable lower bound.
    ///
    /// The default value is 0 for both the numerator and denominator.
    ///
    /// This method will return an error if the image is not animated.
    pub fn set_frame_delay(&mut self, numerator: u16, denominator: u16) -> (r: Result<
        (),
        EncodingError,
    >)
        requires
            old(self)@.wf(),
        ensures
            final(self)@.wf(),
            match old(self)@.info.frame_control {
                Some(fc) => r is Ok && final(self)@ == (EncoderState {
                    info: Info {
                        frame_control: Some(
                            FrameControl { delay_num: numerator, delay_den: denominator, ..fc },
                        ),
                        ..old(self)@.info
                    },
                    ..old(self)@
                }),
                None => r is Err && r->Err_0.is_format(FormatErrorKind::NotAnimated)
                    && final(self)@ == old(self)@,
            },
    {
        if let Some(fctl) = self.info.frame_control {
            self.info.frame_control = Some(
                FrameControl { delay_num: numerator, delay_den: denominator, ..fctl },
            );
            Ok(())
        } else {
            Err(EncodingError::format(FormatErrorKind::NotAnimated))
        }
    }

    /// Set the blend operation for every frame.
    ///
    /// The blend operation specifies whether the frame is to be alpha blended
    /// into the current output buffer content, or whether it should completely
    /// replace its region in the output buffer.
    ///
    /// The default value is [`BlendOp::Source`].
    ///
    /// This method will return an error if the image is not animated.
    pub fn set_blend_op(&mut self, op: BlendOp) -> (r: Result<(), EncodingError>)
        requires
            old(self)@.wf(),
        ensures
            final(self)@.wf(),
            match old(self)@.info.frame_control {
                Some(fc) => r is Ok && final(self)@ == (EncoderState {
                    info: Info {
                        frame_control: Some(FrameControl { blend_op: op, ..fc }),
                        ..old(self)@.info
                    },
                    ..old(self)@
                }),
                None => r is Err && r->Err_0.is_format(FormatErrorKind::NotAnimated)
                    && final(self)@ == old(self)@,
            },
    {
        if let Some(fctl) = self.info.frame_control {
            self.info.frame_control = Some(FrameControl { blend_op: op, ..fctl });
            Ok(())
        } else {
            Err(EncodingError::format(FormatErrorKind::NotAnimated))
        }
    }

    /// Set the dispose operation for every frame.
    ///
    /// The dispose operation specifies how the output buffer should be changed
    /// at the end of the delay (before rendering the next frame)
    ///
    /// The default value is [`DisposeOp::Keep`].
    ///
    /// This method will return an error if the image is not animated.
    pub fn set_dispose_op(&mut self, op: DisposeOp) -> (r: Result<(), EncodingError>)
        requires
            old(self)@.wf(),
        ensures
            final(self)@.wf(),
            match old(self)@.info.frame_control {
                Some(fc) => r is Ok && final(self)@ == (EncoderState {
                    info: Info {
                        frame_control: Some(FrameControl { dispose_op: op, ..fc }),
                        ..old(self)@.info
                    },
                    ..old(self)@
                }),
                None => r is Err && r->Err_0.is_format(FormatErrorKind::NotAnimated)
                    && final(self)@ == old(self)@,
            },
    {
        if let Some(fctl) = self.info.frame_control {
            self.info.frame_control = Some(FrameControl { dispose_op: op, ..fctl });
            Ok(())
        } else {
            Err(EncodingError::format(FormatErrorKind::NotAnimated))
        }
    }
}

/// What becomes of the frame `fc` in an image of the given size when it is
/// given another size: the frame with that size, or the reason why the size
/// is refused. A frame that runs over the image's edge is refused before a
/// frame without width, and that before one without height.
pub open spec fn dimension_outcome(
    fc: FrameControl,
    image_width: u32,
    image_height: u32,
    width: u32,
    height: u32,
) -> Result<FrameControl, FormatErrorKind> {
    if fc.x_offset + width > image_width || fc.y_offset + height > image_height {
        Err(FormatErrorKind::OutOfBounds)
    } else if width == 0 {
        Err(FormatErrorKind::ZeroWidth)
    } else if height == 0 {
        Err(FormatErrorKind::ZeroHeight)
    } else {
        Ok(FrameControl { width, height, ..fc })
    }
}

/// What becomes of the frame `fc` in an image of the given size when it is
/// moved: the frame at that place, or the reason why the place is refused.
pub open spec fn position_outcome(
    fc: FrameControl,
    image_width: u32,
    image_height: u32,
    x: u32,
    y: u32,
) -> Result<FrameControl, FormatErrorKind> {
    if x + fc.width > image_width || y + fc.height > image_height {
        Err(FormatErrorKind::OutOfBounds)
    } else {
        Ok(FrameControl { x_offset: x, y_offset: y, ..fc })
    }
}

/// Whether `a` exceeds what is left of `whole` after `part`.
fn exceeds(a: u32, whole: u32, part: u32) -> (r: bool)
    ensures
        r == (part + a > whole),
{
    match whole.checked_sub(part) {
        Some(room) => a > room,
        None => true,
    }
}

/// The frame `fctl` with another size, if the size is accepted.
pub fn frame_with_dimension(
    fctl: FrameControl,
    image_width: u32,
    image_height: u32,
    width: u32,
    height: u32,
) -> (r: Result<FrameControl, EncodingError>)
    ensures
        match dimension_outcome(fctl, image_width, image_height, width, height) {
            Ok(next) => r == Ok::<FrameControl, EncodingError>(next),
            Err(kind) => r is Err && r->Err_0.is_format(kind),
        },
{
    if exceeds(width, image_width, fctl.x_offset) || exceeds(height, image_height, fctl.y_offset) {
        Err(EncodingError::format(FormatErrorKind::OutOfBounds))
    } else if width == 0 {
        Err(EncodingError::format(FormatErrorKind::ZeroWidth))
    } else if height == 0 {
        Err(EncodingError::format(FormatErrorKind::ZeroHeight))
    } else {
        Ok(FrameControl { width, height, ..fctl })
    }
}

/// The frame `fctl` at another place, if the place is accepted.
pub fn frame_with_position(
    fctl: FrameControl,
    image_width: u32,
    image_height: u32,
    x: u32,
    y: u32,
) -> (r: Result<FrameControl, EncodingError>)
    ensures
        match position_outcome(fctl, image_width, image_height, x, y) {
            Ok(next) => r == Ok::<FrameControl, EncodingError>(next),
            Err(kind) => r is Err && r->Err_0.is_format(kind),
        },
{
    if exceeds(x, image_width, fctl.width) || exceeds(y, image_height, fctl.height) {
        Err(EncodingError::format(FormatErrorKind::OutOfBounds))
    } else {
        Ok(FrameControl { x_offset: x, y_offset: y, ..fctl })
    }
}

/// The frame control of an animation, or the error that says that there is
/// no animation.
pub fn animated(frame_control: Option<FrameControl>) -> (r: Result<FrameControl, EncodingError>)
    ensures
        match frame_control {
            Some(fc) => r == Ok::<FrameControl, EncodingError>(fc),
            None => r is Err && r->Err_0.is_format(FormatErrorKind::NotAnimated),
        },
{
    match frame_control {
        Some(fc) => Ok(fc),
        None => Err(EncodingError::format(FormatErrorKind::NotAnimated)),
    }
}

/// The subset of the attributes of an `Info` that a `Writer` needs, taken
/// once when the writer is made.
#[derive(Debug, Clone, Copy)]
pub struct PartialInfo {
    pub width: u32,
    pub height: u32,
    pub bit_depth: BitDepth,
    pub color_type: ColorType,
    pub frame_control: Option<FrameControl>,
    pub animation_control: Option<AnimationControl>,
    pub compression: Compression,
    pub has_palette: bool,
}

impl PartialInfo {
    /// The part of `info` that a writer keeps.
    pub open spec fn of(info: Info) -> PartialInfo {
        PartialInfo {
            width: info.width,
            height: info.height,
            bit_depth: info.bit_depth,
            color_type: info.color_type,
            frame_control: info.frame_control,
            animation_control: info.animation_control,
            compression: info.compression,
            has_palette: info.palette is Some,
        }
    }

    /// The image parameters with these attributes and nothing else set.
    pub open spec fn spec_to_info(self) -> Info {
        Info {
            bit_depth: self.bit_depth,
            color_type: self.color_type,
            frame_control: self.frame_control,
            animation_control: self.animation_control,
            compression: self.compression,
            ..Info::spec_with_size(self.width, self.height)
        }
    }

    /// The stride that the filters predict by.
    pub open spec fn stride(self) -> int {
        self.spec_to_info().spec_bytes_per_pixel()
    }

    /// The number of bytes of a scanline of `width` pixels, without its
    /// filter tag.
    pub open spec fn row_bytes(self, width: int) -> int {
        self.color_type.row_bytes(self.bit_depth, width)
    }

    /// The width of the next frame: that of the frame control, or that of
    /// the image where there is none.
    pub open spec fn frame_width(self) -> u32 {
        match self.frame_control {
            Some(fc) => fc.width,
            None => self.width,
        }
    }

    /// The height of the next frame.
    pub open spec fn frame_height(self) -> u32 {
        match self.frame_control {
            Some(fc) => fc.height,
            None => self.height,
        }
    }

    /// The number of bytes of a scanline of the next frame.
    pub open spec fn frame_row_bytes(self) -> int {
        self.row_bytes(self.frame_width() as int)
    }

    /// The number of bytes of the next frame's data.
    pub open spec fn frame_bytes(self) -> int {
        self.frame_row_bytes() * self.frame_height()
    }

    /// What a writer asks of its image parameters: the image is not empty,
    /// depth and colour type go together, a scanline's length fits into a
    /// `usize`, and a frame control is there exactly where an animation
    /// control is, for a frame that is not empty and lies inside the image.
    pub open spec fn wf(self) -> bool {
        &&& self.width >= 1
        &&& self.height >= 1
        &&& !self.color_type.spec_is_combination_invalid(self.bit_depth)
        &&& 1 + self.row_bytes(self.width as int) <= usize::MAX
        &&& self.frame_control is Some <==> self.animation_control is Some
        &&& self.frame_control matches Some(fc) ==> fc.fits(self.width, self.height)
    }

    pub fn new(info: &Info) -> (r: PartialInfo)
        ensures
            r == PartialInfo::of(*info),
    {
        PartialInfo {
            width: info.width,
            height: info.height,
            bit_depth: info.bit_depth,
            color_type: info.color_type,
            frame_control: info.frame_control,
            animation_control: info.animation_control,
            compression: info.compression,
            has_palette: info.palette.is_some(),
        }
    }

    pub fn bpp_in_prediction(&self) -> (r: BytesPerPixel)
        ensures
            r == BytesPerPixel::of(self.stride()),
            r.value() == self.stride(),
    {
        self.to_info().bpp_in_prediction()
    }

    pub fn raw_row_length(&self) -> (n: usize)
        requires
            1 + self.row_bytes(self.width as int) <= usize::MAX,
        ensures
            n == 1 + self.row_bytes(self.width as int),
    {
        self.to_info().raw_row_length()
    }

    pub fn raw_row_length_from_width(&self, width: u32) -> (n: usize)
        requires
            1 + self.row_bytes(width as int) <= usize::MAX,
        ensures
            n == 1 + self.row_bytes(width as int),
    {
        self.to_info().raw_row_length_from_width(width)
    }

    /// Converts this partial info to an owned `Info`, setting missing values
    /// to their defaults.
    pub fn to_info(&self) -> (r: Info)
        ensures
            r == self.spec_to_info(),
    {
        let mut info = Info::default();
        info.width = self.width;
        info.height = self.height;
        info.bit_depth = self.bit_depth;
        info.color_type = self.color_type;
        info.frame_control = self.frame_control;
        info.animation_control = self.animation_control;
        info.compression = self.compression;
        info
    }
}

/// A scanline is no longer under a narrower width.
pub proof fn lemma_row_bytes_monotonic(color: ColorType, depth: BitDepth, narrow: int, wide: int)
    requires
        0 <= narrow <= wide,
    ensures
        0 <= color.row_bytes(depth, narrow) <= color.row_bytes(depth, wide),
        narrow >= 1 ==> color.row_bytes(depth, narrow) >= 1,
{
    reveal(ColorType::row_bytes);
    let unit = color.spec_samples() * depth.bits();
    assert(unit >= 1) by (nonlinear_arith)
        requires
            unit == color.spec_samples() * depth.bits(),
            color.spec_samples() >= 1,
            depth.bits() >= 1,
    ;
    assert(narrow * color.spec_samples() * depth.bits() == narrow * unit) by (nonlinear_arith)
        requires
            unit == color.spec_samples() * depth.bits(),
    ;
    assert(wide * color.spec_samples() * depth.bits() == wide * unit) by (nonlinear_arith)
        requires
            unit == color.spec_samples() * depth.bits(),
    ;
    assert(0 <= narrow * unit <= wide * unit) by (nonlinear_arith)
        requires
            0 <= narrow <= wide,
            unit >= 1,
    ;
    assert(narrow >= 1 ==> narrow * unit >= 1) by (nonlinear_arith)
        requires
            unit >= 1,
    ;
}

/// The greatest number of bytes of image data in one chunk.
pub const MAX_IDAT_CHUNK_LEN: usize = 0x7FFF_FFFF;

/// The greatest number of bytes of frame data in one chunk, which holds a
/// sequence number before them.
pub const MAX_FDAT_CHUNK_LEN: usize = 0x7FFF_FFFB;

/// A scanline of `n` zero bytes.
pub open spec fn zeros(n: int) -> Seq<u8> {
    Seq::new(n as nat, |i: int| 0u8)
}

/// The scanline `i` of image data with scanlines of `row_len` bytes.
pub open spec fn scanline(data: Seq<u8>, row_len: int, i: int) -> Seq<u8> {
    data.subrange(i * row_len, (i + 1) * row_len)
}

/// The scanline above scanline `i`: zeros above the first.
pub open spec fn scanline_above(data: Seq<u8>, row_len: int, i: int) -> Seq<u8> {
    if i == 0 {
        zeros(row_len)
    } else {
        scanline(data, row_len, i - 1)
    }
}

/// What the compressor is fed for the first `n` scanlines of a frame: for
/// each scanline the tag of the filter applied to it, then the scanline
/// filtered against the unfiltered scanline above.
pub open spec fn frame_input(
    method: FilterType,
    adaptive: AdaptiveFilterType,
    bpp: int,
    row_len: int,
    data: Seq<u8>,
    n: nat,
) -> Seq<Option<Seq<u8>>>
    decreases n,
{
    if n == 0 {
        Seq::<Option<Seq<u8>>>::empty()
    } else {
        let i = n - 1;
        let row = scanline(data, row_len, i);
        let above = scanline_above(data, row_len, i);
        let chosen = chosen_filter(method, adaptive, bpp, above, row);
        frame_input(method, adaptive, bpp, row_len, data, (n - 1) as nat).push(
            Some(seq![chosen.tag()]),
        ).push(Some(filtered_row(chosen, bpp, above, row)))
    }
}

/// What the compressor is fed for a frame begins with what it is fed for the
/// first scanlines of the frame: two calls for each scanline.
pub proof fn lemma_frame_input_prefix(
    method: FilterType,
    adaptive: AdaptiveFilterType,
    bpp: int,
    row_len: int,
    data: Seq<u8>,
    n: nat,
    k: nat,
)
    requires
        k <= n,
    ensures
        frame_input(method, adaptive, bpp, row_len, data, n).len() == 2 * n,
        frame_input(method, adaptive, bpp, row_len, data, n).take(2 * k as int) == frame_input(
            method,
            adaptive,
            bpp,
            row_len,
            data,
            k,
        ),
        k < n ==> frame_input(method, adaptive, bpp, row_len, data, n).take(2 * k as int + 1)
            == frame_input(method, adaptive, bpp, row_len, data, (k + 1) as nat).drop_last(),
    decreases n,
{
    let whole = frame_input(method, adaptive, bpp, row_len, data, n);
    if n > 0 {
        let before = frame_input(method, adaptive, bpp, row_len, data, (n - 1) as nat);
        lemma_frame_input_prefix(method, adaptive, bpp, row_len, data, (n - 1) as nat, 0);
        assert(whole.len() == 2 * n);
        if k == n {
            assert(whole.take(2 * k as int) =~= whole);
        } else {
            lemma_frame_input_prefix(method, adaptive, bpp, row_len, data, (n - 1) as nat, k);
            assert(whole.take(2 * k as int) =~= before.take(2 * k as int));
            if k < n - 1 {
                assert(whole.take(2 * k as int + 1) =~= before.take(2 * k as int + 1));
            } else {
                assert(whole.take(2 * k as int + 1) =~= whole.drop_last());
            }
        }
    } else {
        assert(whole.take(0) =~= whole);
    }
}

/// The compressor goes through what it is fed for one more scanline exactly
/// when it goes through what comes before, takes the tag and takes the
/// filtered scanline; and it goes through that much where it goes through
/// the whole frame.
pub proof fn lemma_frame_input_step(
    options: deflate::CompressionOptions,
    method: FilterType,
    adaptive: AdaptiveFilterType,
    bpp: int,
    row_len: int,
    data: Seq<u8>,
    n: nat,
    k: nat,
    tag: Seq<u8>,
    row: Seq<u8>,
)
    requires
        k < n,
        frame_input(method, adaptive, bpp, row_len, data, (k + 1) as nat) == frame_input(
            method,
            adaptive,
            bpp,
            row_len,
            data,
            k,
        ).push(Some(tag)).push(Some(row)),
    ensures
        ({
            let fed = frame_input(method, adaptive, bpp, row_len, data, k);
            let next = frame_input(method, adaptive, bpp, row_len, data, (k + 1) as nat);
            let whole = frame_input(method, adaptive, bpp, row_len, data, n);
            &&& zlib_accepts(options, fed.push(Some(tag))) <==> zlib_accepts(options, fed)
                && zlib_takes(options, fed, tag)
            &&& zlib_accepts(options, next) <==> zlib_accepts(options, fed.push(Some(tag)))
                && zlib_takes(options, fed.push(Some(tag)), row)
            &&& zlib_accepts(options, whole) ==> zlib_accepts(options, next)
        }),
{
    let fed = frame_input(method, adaptive, bpp, row_len, data, k);
    let half = fed.push(Some(tag));
    let next = frame_input(method, adaptive, bpp, row_len, data, (k + 1) as nat);
    let whole = frame_input(method, adaptive, bpp, row_len, data, n);
    assert(half.drop_last() =~= fed);
    assert(half.last() == Some(tag));
    assert(next.drop_last() =~= half);
    assert(next.last() == Some(row));
    lemma_frame_input_prefix(method, adaptive, bpp, row_len, data, n, (k + 1) as nat);
    if zlib_accepts(options, whole) {
        lemma_accepts_prefix(options, whole, 2 * (k as int + 1));
    }
}

/// A scanline of at least one pixel holds the filters' stride.
pub proof fn lemma_stride_fits_row(info: PartialInfo, width: int)
    requires
        !info.color_type.spec_is_combination_invalid(info.bit_depth),
        width >= 1,
    ensures
        1 <= info.stride() <= info.row_bytes(width),
{
    reveal(ColorType::row_bytes);
    let samples = info.color_type.spec_samples();
    let bits = info.bit_depth.bits();
    assert(width * samples >= samples) by (nonlinear_arith)
        requires
            width >= 1,
            samples >= 1,
    ;
    assert(width * samples * bits >= samples * bits) by (nonlinear_arith)
        requires
            width * samples >= samples,
            bits >= 1,
    ;
    assert(samples * bits >= 1) by (nonlinear_arith)
        requires
            samples >= 1,
            bits >= 1,
    ;
    if bits == 8 {
        assert(samples * 8 == 8 * samples);
    } else if bits == 16 {
        assert(samples * 16 == 8 * (samples * 2));
        assert(info.stride() == samples * 2) by (nonlinear_arith)
            requires
                info.stride() == samples * ((16 + 7) / 8),
        ;
    } else {
        assert(samples == 1);
    }
}

/// The chunks that hold a frame whose compressed data is `z`, written after
/// `written` others under the frame control `frame_control`.
///
/// A plain frame is image data chunks only: that is every frame of an image
/// that is not animated, and a default image that is no frame of the
/// animation. Any other frame starts with the frame control chunk; its data
/// follows as image data chunks if it is the first image written, and else
/// as frame data chunks, numbered onward from the frame control chunk's
/// number.
pub open spec fn frame_chunks(
    frame_control: Option<FrameControl>,
    sep_def_img: bool,
    written: u64,
    z: Seq<u8>,
) -> Seq<Chunk> {
    if sep_def_img || frame_control is None {
        data_chunks(IDAT, z, MAX_IDAT_CHUNK_LEN as int, None)
    } else {
        let fc = frame_control->0;
        seq![fc.chunk()] + (if written == 0 {
            data_chunks(IDAT, z, MAX_IDAT_CHUNK_LEN as int, None)
        } else {
            data_chunks(fdAT, z, MAX_FDAT_CHUNK_LEN as int, Some(advance(fc.sequence_number, 1)))
        })
    }
}

/// The number of sequence numbers that the chunks of such a frame use up.
pub open spec fn frame_numbers(
    frame_control: Option<FrameControl>,
    sep_def_img: bool,
    written: u64,
    z: Seq<u8>,
) -> int {
    if sep_def_img || frame_control is None {
        0
    } else if written == 0 {
        1
    } else {
        1 + pieces(z.len() as int, MAX_FDAT_CHUNK_LEN as int)
    }
}

/// Appends the chunks of a frame, and returns the sequence number after
/// those that they carry.
#[verifier::rlimit(50)]
fn write_frame_chunks(
    w: &mut Vec<u8>,
    fctl: FrameControl,
    plain: bool,
    written: u64,
    zlib_encoded: &[u8],
) -> (next: u32)
    ensures
        final(w)@ == old(w)@ + chunks_bytes(frame_chunks(Some(fctl), plain, written, zlib_encoded@)),
        next == advance(
            fctl.sequence_number,
            frame_numbers(Some(fctl), plain, written, zlib_encoded@),
        ),
{
    let ghost before = w@;
    if plain {
        write_data_chunks(w, IDAT, zlib_encoded, MAX_IDAT_CHUNK_LEN, None);
        proof {
            lemma_advance_add(fctl.sequence_number, 0, 0);
        }
        fctl.sequence_number
    } else {
        fctl.encode(w);
        let first = fctl.sequence_number.wrapping_add(1);
        let ghost rest = if written == 0 {
            data_chunks(IDAT, zlib_encoded@, MAX_IDAT_CHUNK_LEN as int, None)
        } else {
            data_chunks(fdAT, zlib_encoded@, MAX_FDAT_CHUNK_LEN as int, Some(first))
        };
        let next = if written == 0 {
            write_data_chunks(w, IDAT, zlib_encoded, MAX_IDAT_CHUNK_LEN, None);
            first
        } else {
            match write_data_chunks(w, fdAT, zlib_encoded, MAX_FDAT_CHUNK_LEN, Some(first)) {
                Some(n) => n,
                None => first,
            }
        };
        proof {
            let all = seq![fctl.chunk()] + rest;
            assert(all.first() == fctl.chunk());
            assert(all.drop_first() =~= rest);
            assert(chunks_bytes(all) == fctl.chunk().bytes() + chunks_bytes(rest));
            assert(w@ =~= before + chunks_bytes(all));
            let n = pieces(zlib_encoded@.len() as int, MAX_FDAT_CHUNK_LEN as int);
            assert(n >= 0);
            lemma_advance_add(fctl.sequence_number, 1, n);
        }
        next
    }
}

/// What a `Writer` holds: the bytes emitted and not yet taken, the image
/// parameters with the frame control of the next frame, the filter of the
/// next frame, and the number of frames written.
pub struct WriterState {
    pub out: Seq<u8>,
    pub info: PartialInfo,
    pub filter: FilterType,
    pub adaptive_filter: AdaptiveFilterType,
    pub sep_def_img: bool,
    pub written: u64,
}

impl WriterState {
    /// The number of frames that the image holds: that of the animation
    /// control, and one more where the first image is a default image that
    /// is no frame; one where the image is not animated.
    pub open spec fn max_frames(self) -> u64 {
        match self.info.animation_control {
            Some(a) => if self.sep_def_img {
                (a.num_frames + 1) as u64
            } else {
                a.num_frames as u64
            },
            None => 1,
        }
    }

    /// The image parameters are those that a writer asks for.
    pub open spec fn wf(self) -> bool {
        self.info.wf()
    }

    /// The same state with `bytes` emitted.
    pub open spec fn emit(self, bytes: Seq<u8>) -> WriterState {
        WriterState { out: self.out + bytes, ..self }
    }

    /// The same state with another frame control.
    pub open spec fn with_frame_control(self, fc: FrameControl) -> WriterState {
        WriterState { info: PartialInfo { frame_control: Some(fc), ..self.info }, ..self }
    }

    /// Whether the next frame goes out as plain image data without a frame
    /// control chunk: in an image that is not animated, and for a default
    /// image that is no frame of the animation.
    pub open spec fn next_is_plain(self) -> bool {
        self.sep_def_img || self.info.frame_control is None
    }

    /// The chunks that hold the next frame, whose compressed data is `z`.
    pub open spec fn frame_chunks(self, z: Seq<u8>) -> Seq<Chunk> {
        frame_chunks(self.info.frame_control, self.sep_def_img, self.written, z)
    }

    /// The number of sequence numbers that the chunks of the next frame use up.
    pub open spec fn frame_numbers(self, z: Seq<u8>) -> int {
        frame_numbers(self.info.frame_control, self.sep_def_img, self.written, z)
    }

    /// The state after the next frame, whose compressed data is `z`, has been
    /// emitted: the frame's chunks are out, the sequence number has moved past
    /// those that they carry, the mark of a default image is off, and one
    /// more frame is written.
    pub open spec fn after_frame(self, z: Seq<u8>) -> WriterState {
        WriterState {
            out: self.out + chunks_bytes(self.frame_chunks(z)),
            info: PartialInfo {
                frame_control: match self.info.frame_control {
                    Some(fc) => Some(
                        fc.with_sequence_number(
                            advance(fc.sequence_number, self.frame_numbers(z)),
                        ),
                    ),
                    None => None,
                },
                ..self.info
            },
            sep_def_img: false,
            written: (self.written + 1) as u64,
            ..self
        }
    }

    /// The compressed data of the next frame with the image data `data`: the
    /// zlib stream of the filtered scanlines.
    pub open spec fn compressed_frame(self, data: Seq<u8>) -> Seq<u8> {
        zlib_stream(
            self.info.compression.options(),
            frame_input(
                self.filter,
                self.adaptive_filter,
                self.info.stride(),
                self.info.frame_row_bytes(),
                data,
                self.info.frame_height() as nat,
            ),
        )
    }

    /// Whether the compressor makes a stream of the next frame with the
    /// image data `data`: whether it takes every tag and every filtered
    /// scanline, and ends the stream.
    pub open spec fn frame_compresses(self, data: Seq<u8>) -> bool {
        zlib_compresses(
            self.info.compression.options(),
            frame_input(
                self.filter,
                self.adaptive_filter,
                self.info.stride(),
                self.info.frame_row_bytes(),
                data,
                self.info.frame_height() as nat,
            ),
        )
    }

    /// Why `write_image_data` refuses `len` bytes of image data before it
    /// does anything, if it does. In this order: an indexed image without a
    /// palette; more frames written than the image holds; a frame whose size
    /// no `usize` holds; data that is not of the frame's size.
    pub open spec fn frame_refusal(self, len: int) -> Option<EncodingError> {
        if self.info.color_type == ColorType::Indexed && !self.info.has_palette {
            Some(EncodingError::Format(FormatError::spec_new(FormatErrorKind::NoPalette)))
        } else if self.written > self.max_frames() {
            Some(EncodingError::Format(FormatError::spec_new(FormatErrorKind::EndReached)))
        } else if self.info.frame_bytes() > usize::MAX {
            Some(EncodingError::LimitsExceeded)
        } else if self.info.frame_bytes() != len {
            Some(
                EncodingError::Parameter(
                    ParameterError::spec_new(
                        ParameterErrorKind::ImageBufferSize {
                            expected: self.info.frame_bytes() as usize,
                            actual: len as usize,
                        },
                    ),
                ),
            )
        } else {
            None
        }
    }
}

/// PNG writer
pub struct Writer {
    w: Vec<u8>,
    info: PartialInfo,
    filter: FilterType,
    adaptive_filter: AdaptiveFilterType,
    sep_def_img: bool,
    written: u64,
}

impl View for Writer {
    type V = WriterState;

    closed spec fn view(&self) -> WriterState {
        WriterState {
            out: self.w@,
            info: self.info,
            filter: self.filter,
            adaptive_filter: self.adaptive_filter,
            sep_def_img: self.sep_def_img,
            written: self.written,
        }
    }
}

/// Why `write_header` refuses image parameters, if it does: an empty image,
/// a depth and a colour type that do not go together, a scanline too long
/// for a `usize`, or palette or transparency data too long for a chunk.
pub open spec fn header_refusal(info: Info) -> Option<EncodingError> {
    if info.width == 0 {
        Some(EncodingError::Format(FormatError::spec_new(FormatErrorKind::ZeroWidth)))
    } else if info.height == 0 {
        Some(EncodingError::Format(FormatError::spec_new(FormatErrorKind::ZeroHeight)))
    } else if info.color_type.spec_is_combination_invalid(info.bit_depth) {
        Some(
            EncodingError::Format(
                FormatError::spec_new(
                    FormatErrorKind::InvalidColorCombination(info.bit_depth, info.color_type),
                ),
            ),
        )
    } else if info.spec_raw_row_length_from_width(info.width) > usize::MAX || !info.chunks_fit() {
        Some(EncodingError::LimitsExceeded)
    } else {
        None
    }
}

impl Encoder {
    /// Checks the image parameters and writes the signature and the chunks
    /// that stand before the image data. Nothing is written where the
    /// parameters are refused.
    pub fn write_header(self) -> (r: Result<Writer, EncodingError>)
        requires
            self@.wf(),
        ensures
            match r {
                Ok(writer) => header_refusal(self@.info) is None && writer@.wf() && writer@ == (
                WriterState {
                    out: signature() + self@.info.header_chunks(),
                    info: PartialInfo::of(self@.info),
                    filter: self@.filter,
                    adaptive_filter: self@.adaptive_filter,
                    sep_def_img: self@.sep_def_img,
                    written: 0,
                }),
                Err(e) => header_refusal(self@.info) == Some(e),
            },
    {
        Writer::new(
            PartialInfo::new(&self.info),
            self.filter,
            self.adaptive_filter,
            self.sep_def_img,
        ).init(&self.info)
    }
}

impl Writer {
    fn new(
        info: PartialInfo,
        filter: FilterType,
        adaptive_filter: AdaptiveFilterType,
        sep_def_img: bool,
    ) -> (r: Writer)
        ensures
            r@ == (WriterState {
                out: Seq::<u8>::empty(),
                info,
                filter,
                adaptive_filter,
                sep_def_img,
                written: 0,
            }),
    {
        Writer { w: Vec::new(), info, filter, adaptive_filter, sep_def_img, written: 0 }
    }

    fn init(self, info: &Info) -> (r: Result<Writer, EncodingError>)
        requires
            self@.info == PartialInfo::of(*info),
            self@.written == 0,
            self@.out == Seq::<u8>::empty(),
            self@.info.frame_control is Some <==> self@.info.animation_control is Some,
            self@.info.frame_control matches Some(fc) ==> fc.x_offset == 0 && fc.y_offset == 0
                && fc.width == info.width && fc.height == info.height,
        ensures
            match r {
                Ok(writer) => header_refusal(*info) is None && writer@.wf() && writer@
                    == self@.emit(signature() + info.header_chunks()),
                Err(e) => header_refusal(*info) == Some(e),
            },
    {
        if self.info.width == 0 {
            return Err(EncodingError::format(FormatErrorKind::ZeroWidth));
        }
        if self.info.height == 0 {
            return Err(EncodingError::format(FormatErrorKind::ZeroHeight));
        }
        if self.info.color_type.is_combination_invalid(self.info.bit_depth) {
            return Err(
                EncodingError::format(
                    FormatErrorKind::InvalidColorCombination(
                        self.info.bit_depth,
                        self.info.color_type,
                    ),
                ),
            );
        }
        if info.checked_raw_row_length_from_width(info.width).is_none() {
            return Err(EncodingError::LimitsExceeded);
        }
        let mut header: Vec<u8> = Vec::new();
        header.push(137);
        header.push(80);
        header.push(78);
        header.push(71);
        header.push(13);
        header.push(10);
        header.push(26);
        header.push(10);
        assert(header@ =~= signature());
        match info.encode(&mut header) {
            Ok(()) => {},
            Err(e) => {
                return Err(e);
            },
        }
        let mut writer = self;
        writer.w.append(&mut header);
        assert(writer.w@ =~= Seq::<u8>::empty() + (signature() + info.header_chunks()));
        Ok(writer)
    }

    /// Appends one chunk with the given name and data to what the writer has
    /// emitted. Data too long for a chunk is refused, and nothing is written.
    pub fn write_chunk(&mut self, name: ChunkType, data: &[u8]) -> (r: Result<(), EncodingError>)
        ensures
            data@.len() <= u32::MAX ==> r is Ok && final(self)@ == old(self)@.emit(
                chunk_bytes(name, data@),
            ),
            data@.len() > u32::MAX ==> r is Err && r->Err_0 is LimitsExceeded && final(self)@
                == old(self)@,
    {
        write_chunk(&mut self.w, name, data)
    }

    /// The image parameters, with the frame control of the next frame.
    pub(crate) fn info(&self) -> (r: PartialInfo)
        ensures
            r == self@.info,
    {
        self.info
    }

    /// The filter of the next frames.
    pub(crate) fn filter_type(&self) -> (r: FilterType)
        ensures
            r == self@.filter,
    {
        self.filter
    }

    /// Whether the filter is chosen anew for every scanline.
    pub(crate) fn adaptive_filter_type(&self) -> (r: AdaptiveFilterType)
        ensures
            r == self@.adaptive_filter,
    {
        self.adaptive_filter
    }

    /// The number of frames written.
    pub(crate) fn written(&self) -> (r: u64)
        ensures
            r == self@.written,
    {
        self.written
    }

    /// Whether the next image is a default image that is no frame.
    pub(crate) fn sep_def_img(&self) -> (r: bool)
        ensures
            r == self@.sep_def_img,
    {
        self.sep_def_img
    }

    /// Counts one more frame as written.
    pub(crate) fn count_frame(&mut self)
        requires
            old(self)@.written < u64::MAX,
        ensures
            final(self)@ == (WriterState {
                written: (old(self)@.written + 1) as u64,
                ..old(self)@
            }),
    {
        self.written += 1;
    }

    /// Puts `fc` in the place of the frame control.
    pub(crate) fn replace_frame_control(&mut self, fc: FrameControl)
        ensures
            final(self)@ == old(self)@.with_frame_control(fc),
    {
        self.info.frame_control = Some(fc);
    }

    /// Whether the data of the current image goes out in chunks that carry
    /// sequence numbers.
    pub(crate) fn numbers_data(&self) -> (r: bool)
        ensures
            r == (!self@.sep_def_img && self@.info.frame_control is Some && self@.written > 0),
    {
        !self.sep_def_img && self.info.frame_control.is_some() && self.written > 0
    }

    /// The number of frames that the image holds.
    pub fn max_frames(&self) -> (n: u64)
        ensures
            n == self@.max_frames(),
    {
        match self.info.animation_control {
            Some(a) => if self.sep_def_img {
                a.num_frames as u64 + 1
            } else {
                a.num_frames as u64
            },
            None => 1,
        }
    }

    /// The bytes emitted since they were last taken; the writer keeps none
    /// of them.
    pub fn take_output(&mut self) -> (bytes: Vec<u8>)
        ensures
            bytes@ == old(self)@.out,
            final(self)@ == (WriterState { out: Seq::<u8>::empty(), ..old(self)@ }),
    {
        let mut bytes: Vec<u8> = Vec::new();
        bytes.append(&mut self.w);
        assert(bytes@ =~= old(self)@.out);
        bytes
    }

    /// Ends the image: appends the trailer chunk, and hands out all bytes
    /// emitted and not yet taken.
    pub fn finish(self) -> (bytes: Vec<u8>)
        ensures
            bytes@ == self@.out + chunk_bytes(IEND, Seq::<u8>::empty()),
    {
        let mut bytes = self.w;
        let empty: Vec<u8> = Vec::new();
        let _ = write_chunk(&mut bytes, IEND, empty.as_slice());
        bytes
    }
}

impl Writer {
    /// Emits the next frame, whose compressed data is `zlib_encoded`.
    pub fn emit_frame(&mut self, zlib_encoded: &[u8])
        requires
            old(self)@.wf(),
            old(self)@.written < u64::MAX,
        ensures
            final(self)@.wf(),
            final(self)@ == old(self)@.after_frame(zlib_encoded@),
    {
        match self.info.frame_control {
            Some(fctl) => {
                let next = write_frame_chunks(
                    &mut self.w,
                    fctl,
                    self.sep_def_img,
                    self.written,
                    zlib_encoded,
                );
                self.info.frame_control = Some(FrameControl { sequence_number: next, ..fctl });
            },
            None => {
                write_data_chunks(&mut self.w, IDAT, zlib_encoded, MAX_IDAT_CHUNK_LEN, None);
            },
        }
        self.sep_def_img = false;
        self.written += 1;
    }
}

/// The scanlines `i` and `i + 1` lie inside image data of `height`
/// scanlines.
proof fn lemma_scanline_bounds(row_len: int, height: int, i: int)
    requires
        0 <= i < height,
        0 <= row_len,
    ensures
        0 <= i * row_len <= (i + 1) * row_len <= height * row_len,
        (i + 1) * row_len == i * row_len + row_len,
{
    assert((i + 1) * row_len == i * row_len + row_len) by (nonlinear_arith);
    assert(0 <= i * row_len) by (nonlinear_arith)
        requires
            0 <= i,
            0 <= row_len,
    ;
    assert((i + 1) * row_len <= height * row_len) by (nonlinear_arith)
        requires
            i + 1 <= height,
            0 <= row_len,
    ;
}

impl Writer {
    /// Filters the scanlines of the next frame and compresses them into one
    /// zlib stream.
    fn compress_frame(&self, data: &[u8], in_len: usize, height: usize) -> (r: Result<
        Vec<u8>,
        std::io::Error,
    >)
        requires
            self@.wf(),
            in_len == self@.info.frame_row_bytes(),
            height == self@.info.frame_height(),
            data@.len() == in_len * height,
            data@.len() <= usize::MAX,
        ensures
            r is Ok <==> self@.frame_compresses(data@),
            r matches Ok(v) ==> v@ == self@.compressed_frame(data@),
    {
        proof {
            lemma_stride_fits_row(self.info, self.info.frame_width() as int);
        }
        let ghost options = self@.info.compression.options();
        let ghost whole = frame_input(
            self@.filter,
            self@.adaptive_filter,
            self@.info.stride(),
            in_len as int,
            data@,
            height as nat,
        );
        let first_above: Vec<u8> = vec![0u8; in_len];
        assert(first_above@ =~= zeros(in_len as int));
        let mut zlib = compressor_new(self.info.compression.to_options());
        let bpp = self.info.bpp_in_prediction();
        let filter_method = self.filter;
        let adaptive_method = self.adaptive_filter;
        let mut i: usize = 0;
        while i < height
            invariant
                i <= height,
                data@.len() == in_len * height,
                data@.len() <= usize::MAX,
                first_above@ == zeros(in_len as int),
                bpp.value() == self@.info.stride(),
                1 <= bpp.value() <= in_len,
                filter_method == self@.filter,
                adaptive_method == self@.adaptive_filter,
                compressor_options(zlib) == options,
                options == self@.info.compression.options(),
                whole == frame_input(
                    filter_method,
                    adaptive_method,
                    bpp.value(),
                    in_len as int,
                    data@,
                    height as nat,
                ),
                compressor_input(zlib) == frame_input(
                    filter_method,
                    adaptive_method,
                    bpp.value(),
                    in_len as int,
                    data@,
                    i as nat,
                ),
                zlib_accepts(options, compressor_input(zlib)),
                self@.frame_compresses(data@) == zlib_compresses(options, whole),
                self@.compressed_frame(data@) == zlib_stream(options, whole),
            decreases height - i,
        {
            proof {
                assert(in_len * height == height * in_len) by (nonlinear_arith);
                lemma_scanline_bounds(in_len as int, height as int, i as int);
                if i > 0 {
                    lemma_scanline_bounds(in_len as int, height as int, i - 1);
                }
                assert(i * in_len + in_len <= data@.len());
            }
            let start = i * in_len;
            let line = slice_subrange(data, start, start + in_len);
            let mut current = slice_to_vec(line);
            let filter_type = if i == 0 {
                filter(
                    filter_method,
                    adaptive_method,
                    bpp,
                    first_above.as_slice(),
                    current.as_mut_slice(),
                )
            } else {
                let above = slice_subrange(data, start - in_len, start);
                filter(filter_method, adaptive_method, bpp, above, current.as_mut_slice())
            };
            let tag: Vec<u8> = vec![filter_type.to_u8()];
            assert(tag@ =~= seq![filter_type.tag()]);
            proof {
                lemma_frame_input_step(
                    options,
                    filter_method,
                    adaptive_method,
                    bpp.value(),
                    in_len as int,
                    data@,
                    height as nat,
                    i as nat,
                    tag@,
                    current@,
                );
            }
            match compressor_write_all(&mut zlib, tag.as_slice()) {
                Ok(()) => {},
                Err(e) => {
                    return Err(e);
                },
            }
            match compressor_write_all(&mut zlib, current.as_slice()) {
                Ok(()) => {},
                Err(e) => {
                    return Err(e);
                },
            }
            i += 1;
        }
        compressor_finish(zlib)
    }

    /// Writes the image data of the next frame: `data` holds the frame's
    /// scanlines, unfiltered, one after the other.
    ///
    /// The data is refused, and nothing changes, as `frame_refusal` says.
    /// Else the scanlines are filtered and compressed into one zlib stream,
    /// and the stream is emitted as the frame's chunks. The call succeeds
    /// exactly when the compressor takes all that it is fed and ends the
    /// stream; should it fail, its error is returned and nothing changes.
    pub fn write_image_data(&mut self, data: &[u8]) -> (r: Result<(), EncodingError>)
        requires
            old(self)@.wf(),
        ensures
            final(self)@.wf(),
            match old(self)@.frame_refusal(data@.len() as int) {
                Some(e) => r == Err::<(), EncodingError>(e) && final(self)@ == old(self)@,
                None => match r {
                    Ok(()) => old(self)@.frame_compresses(data@) && final(self)@
                        == old(self)@.after_frame(old(self)@.compressed_frame(data@)),
                    Err(e) => !old(self)@.frame_compresses(data@) && e is IoError && final(self)@
                        == old(self)@,
                },
            },
    {
        if self.info.color_type == ColorType::Indexed && !self.info.has_palette {
            return Err(EncodingError::format(FormatErrorKind::NoPalette));
        }
        if self.written > self.max_frames() {
            return Err(EncodingError::format(FormatErrorKind::EndReached));
        }
        let (width, height) = match self.info.frame_control {
            Some(fctl) => (fctl.width, fctl.height),
            None => (self.info.width, self.info.height),
        };
        proof {
            lemma_row_bytes_monotonic(
                self.info.color_type,
                self.info.bit_depth,
                width as int,
                self.info.width as int,
            );
        }
        let in_len = self.info.raw_row_length_from_width(width) - 1;
        assert(in_len * height <= 0xFFFF_FFFF_FFFF_FFFF * 0xFFFF_FFFF) by (nonlinear_arith)
            requires
                0 <= in_len <= 0xFFFF_FFFF_FFFF_FFFF,
                0 <= height <= 0xFFFF_FFFF,
        ;
        let data_size: u128 = in_len as u128 * height as u128;
        if data_size > usize::MAX as u128 {
            return Err(EncodingError::LimitsExceeded);
        }
        if data_size != data.len() as u128 {
            return Err(
                EncodingError::Parameter(
                    ParameterError::new(
                        ParameterErrorKind::ImageBufferSize {
                            expected: data_size as usize,
                            actual: data.len(),
                        },
                    ),
                ),
            );
        }
        let zlib_encoded = match self.compress_frame(data, in_len, height as usize) {
            Ok(v) => v,
            Err(e) => {
                return Err(EncodingError::IoError(e));
            },
        };
        self.emit_frame(zlib_encoded.as_slice());
        Ok(())
    }
}

impl WriterState {
    /// What becomes of the state when an attribute of the next frames is
    /// set: `change` says what becomes of the frame control. An image that
    /// is not animated has none, and the call fails with `NotAnimated`.
    pub open spec fn frame_change(
        self,
        r: Result<(), EncodingError>,
        after: WriterState,
        change: spec_fn(FrameControl) -> Result<FrameControl, FormatErrorKind>,
    ) -> bool {
        match self.info.frame_control {
            Some(fc) => match change(fc) {
                Ok(next) => r is Ok && after == self.with_frame_control(next),
                Err(kind) => r is Err && r->Err_0.is_format(kind) && after == self,
            },
            None => r is Err && r->Err_0.is_format(FormatErrorKind::NotAnimated) && after == self,
        }
    }
}

impl Writer {
    /// Set the used filter type for the following frames.
    ///
    /// The default filter is [`FilterType::Sub`] which provides a basic prediction algorithm for
    /// sample values based on the previous. For a potentially better compression ratio, at the
    /// cost of more complex processing, try out [`FilterType::Paeth`].
    pub fn set_filter(&mut self, filter: FilterType)
        ensures
            final(self)@ == (WriterState { filter, ..old(self)@ }),
    {
        self.filter = filter;
    }

    /// Set the adaptive filter type for the following frames.
    ///
    /// Adaptive filtering attempts to select the best filter for each line
    /// based on heuristics which minimize the file size for compression rather
    /// than use a single filter for the entire image. The default method is
    /// [`AdaptiveFilterType::NonAdaptive`].
    pub fn set_adaptive_filter(&mut self, adaptive_filter: AdaptiveFilterType)
        ensures
            final(self)@ == (WriterState { adaptive_filter, ..old(self)@ }),
    {
        self.adaptive_filter = adaptive_filter;
    }

    /// Set the fraction of time the following frames are going to be displayed,
    /// in seconds
    ///
    /// If the denominator is 0, it is to be treated as if it were 100
    /// (that is, the numerator then specifies 1/100ths of a second).
    /// If the the value of the numerator is 0 the decoder should render the next frame
    /// as quickly as possible, though viewers may impose a reasonable lower bound.
    ///
    /// This method will return an error if the image is not animated.
    pub fn set_frame_delay(&mut self, numerator: u16, denominator: u16) -> (r: Result<
        (),
        EncodingError,
    >)
        requires
            old(self)@.wf(),
        ensures
            final(self)@.wf(),
            old(self)@.frame_change(
                r,
                final(self)@,
                |fc: FrameControl|
                    Ok(FrameControl { delay_num: numerator, delay_den: denominator, ..fc }),
            ),
    {
        let fctl = animated(self.info.frame_control)?;
        self.info.frame_control = Some(
            FrameControl { delay_num: numerator, delay_den: denominator, ..fctl },
        );
        Ok(())
    }

    /// Set the dimension of the following frames.
    ///
    /// This function will return an error when:
    /// - The image is not an animated;
    ///
    /// - The selected dimension, considering also the current frame position,
    ///   goes outside the image boundaries;
    ///
    /// - One or both the width and height are 0;
    pub fn set_frame_dimension(&mut self, width: u32, height: u32) -> (r: Result<
        (),
        EncodingError,
    >)
        requires
            old(self)@.wf(),
        ensures
            final(self)@.wf(),
            old(self)@.frame_change(
                r,
                final(self)@,
                |fc: FrameControl|
                    dimension_outcome(
                        fc,
                        old(self)@.info.width,
                        old(self)@.info.height,
                        width,
                        height,
                    ),
            ),
    {
        let fctl = animated(self.info.frame_control)?;
        let next = frame_with_dimension(fctl, self.info.width, self.info.height, width, height)?;
        self.info.frame_control = Some(next);
        Ok(())
    }

    /// Set the position of the following frames.
    ///
    /// An error will be returned if:
    /// - The image is not animated;
    ///
    /// - The selected position, considering also the current frame dimension,
    ///   goes outside the image boundaries;
    pub fn set_frame_position(&mut self, x: u32, y: u32) -> (r: Result<(), EncodingError>)
        requires
            old(self)@.wf(),
        ensures
            final(self)@.wf(),
            old(self)@.frame_change(
                r,
                final(self)@,
                |fc: FrameControl|
                    position_outcome(fc, old(self)@.info.width, old(self)@.info.height, x, y),
            ),
    {
        let fctl = animated(self.info.frame_control)?;
        let next = frame_with_position(fctl, self.info.width, self.info.height, x, y)?;
        self.info.frame_control = Some(next);
        Ok(())
    }

    /// Set the frame dimension to occupy all the image, starting from
    /// the current position.
    ///
    /// To reset the frame to the full image size [`reset_frame_position`]
    /// should be called first.
    ///
    /// This method will return an error if the image is not animated.
    pub fn reset_frame_dimension(&mut self) -> (r: Result<(), EncodingError>)
        requires
            old(self)@.wf(),
        ensures
            final(self)@.wf(),
            old(self)@.frame_change(
                r,
                final(self)@,
                |fc: FrameControl|
                    Ok(
                        FrameControl {
                            width: (old(self)@.info.width - fc.x_offset) as u32,
                            height: (old(self)@.info.height - fc.y_offset) as u32,
                            ..fc
                        },
                    ),
            ),
    {
        let fctl = animated(self.info.frame_control)?;
        self.info.frame_control = Some(
            FrameControl {
                width: self.info.width - fctl.x_offset,
                height: self.info.height - fctl.y_offset,
                ..fctl
            },
        );
        Ok(())
    }

    /// Set the frame position to (0, 0).
    ///
    /// Equivalent to calling [`set_frame_position(0, 0)`].
    ///
    /// This method will return an error if the image is not animated.
    pub fn reset_frame_position(&mut self) -> (r: Result<(), EncodingError>)
        requires
            old(self)@.wf(),
        ensures
            final(self)@.wf(),
            old(self)@.frame_change(
                r,
                final(self)@,
                |fc: FrameControl| Ok(FrameControl { x_offset: 0, y_offset: 0, ..fc }),
            ),
    {
        let fctl = animated(self.info.frame_control)?;
        self.info.frame_control = Some(FrameControl { x_offset: 0, y_offset: 0, ..fctl });
        Ok(())
    }

    /// Set the blend operation for the following frames.
    ///
    /// The blend operation specifies whether the frame is to be alpha blended
    /// into the current output buffer content, or whether it should completely
    /// replace its region in the output buffer.
    ///
    /// This method will return an error if the image is not animated.
    pub fn set_blend_op(&mut self, op: BlendOp) -> (r: Result<(), EncodingError>)
        requires
            old(self)@.wf(),
        ensures
            final(self)@.wf(),
            old(self)@.frame_change(
                r,
                final(self)@,
                |fc: FrameControl| Ok(FrameControl { blend_op: op, ..fc }),
            ),
    {
        let fctl = animated(self.info.frame_control)?;
        self.info.frame_control = Some(FrameControl { blend_op: op, ..fctl });
        Ok(())
    }

    /// Set the dispose operation for the following frames.
    ///
    /// The dispose operation specifies how the output buffer should be changed
    /// at the end of the delay (before rendering the next frame)
    ///
    /// This method will return an error if the image is not animated.
    pub fn set_dispose_op(&mut self, op: DisposeOp) -> (r: Result<(), EncodingError>)
        requires
            old(self)@.wf(),
        ensures
            final(self)@.wf(),
            old(self)@.frame_change(
                r,
                final(self)@,
                |fc: FrameControl| Ok(FrameControl { dispose_op: op, ..fc }),
            ),
    {
        let fctl = animated(self.info.frame_control)?;
        self.info.frame_control = Some(FrameControl { dispose_op: op, ..fctl });
        Ok(())
    }
}

/// One call of `write_image_data` as the sequence numbers see it: the frame
/// control that the setters have left for the frame, and the compressed data
/// of the frame.
pub struct FrameStep {
    pub frame_control: FrameControl,
    pub data: Seq<u8>,
}

impl WriterState {
    /// The state before the frame of `step`: the frame control of an
    /// animation is that of the step, under the writer's own sequence number.
    pub open spec fn before_step(self, step: FrameStep) -> WriterState {
        match self.info.frame_control {
            Some(fc) => self.with_frame_control(
                step.frame_control.with_sequence_number(fc.sequence_number),
            ),
            None => self,
        }
    }

    /// The state after the frames of `steps` have been written.
    pub open spec fn after_steps(self, steps: Seq<FrameStep>) -> WriterState
        decreases steps.len(),
    {
        if steps.len() == 0 {
            self
        } else {
            self.after_steps(steps.drop_last()).before_step(steps.last()).after_frame(
                steps.last().data,
            )
        }
    }

    /// The chunks that the frames of `steps` go out in.
    pub open spec fn chunks_of_steps(self, steps: Seq<FrameStep>) -> Seq<Chunk>
        decreases steps.len(),
    {
        if steps.len() == 0 {
            Seq::<Chunk>::empty()
        } else {
            self.chunks_of_steps(steps.drop_last()) + self.after_steps(
                steps.drop_last(),
            ).before_step(steps.last()).frame_chunks(steps.last().data)
        }
    }

    /// The sequence number that the next chunk of an animation carries; 0
    /// where the image is not animated.
    pub open spec fn sequence_number(self) -> u32 {
        match self.info.frame_control {
            Some(fc) => fc.sequence_number,
            None => 0,
        }
    }
}

/// The chunks of one frame carry consecutive sequence numbers from the
/// writer's number on, and the writer's number ends up behind them.
pub proof fn lemma_frame_sequence_numbers(state: WriterState, z: Seq<u8>)
    ensures
        sequence_numbers(state.frame_chunks(z)) == consecutive(
            state.sequence_number(),
            state.frame_numbers(z),
        ),
        state.frame_numbers(z) >= 0,
        state.after_frame(z).sequence_number() == advance(
            state.sequence_number(),
            state.frame_numbers(z),
        ),
        state.after_frame(z).info.frame_control is Some <==> state.info.frame_control is Some,
        state.after_frame(z).out == state.out + chunks_bytes(state.frame_chunks(z)),
{
    let start = state.sequence_number();
    lemma_advance_add(start, 0, 0);
    if state.next_is_plain() {
        lemma_data_chunks_numbers(IDAT, z, MAX_IDAT_CHUNK_LEN as int, None);
        assert(consecutive(start, 0) =~= Seq::<u32>::empty());
    } else {
        let fc = state.info.frame_control->0;
        let head = seq![fc.chunk()];
        assert(head.first() == fc.chunk());
        assert(head.drop_first() =~= Seq::<Chunk>::empty());
        assert(sequence_numbers(head.drop_first()) =~= Seq::<u32>::empty());
        assert(sequence_numbers(head) =~= seq![start]);
        assert(seq![start] =~= consecutive(start, 1));
        if state.written == 0 {
            let rest = data_chunks(IDAT, z, MAX_IDAT_CHUNK_LEN as int, None);
            lemma_data_chunks_numbers(IDAT, z, MAX_IDAT_CHUNK_LEN as int, None);
            lemma_sequence_numbers_concat(head, rest);
            assert(consecutive(start, 1) + Seq::<u32>::empty() =~= consecutive(start, 1));
        } else {
            let first = advance(start, 1);
            let rest = data_chunks(fdAT, z, MAX_FDAT_CHUNK_LEN as int, Some(first));
            lemma_data_chunks_numbers(fdAT, z, MAX_FDAT_CHUNK_LEN as int, Some(first));
            lemma_sequence_numbers_concat(head, rest);
            lemma_consecutive_concat(start, 1, pieces(z.len() as int, MAX_FDAT_CHUNK_LEN as int));
        }
    }
}

/// Across the frames of an animation, from the first call of
/// `write_image_data` on, the frame control chunks and the frame data chunks
/// together carry the sequence numbers 0, 1, 2 and so on, each chunk the
/// number after that of the chunk before it, whatever the frames hold and
/// however their data is cut into chunks; and what the writer has emitted is
/// those chunks, in order. The frame control changes between the frames as
/// the setters allow: in all but the sequence number.
pub proof fn lemma_sequence_numbers_contiguous(start: WriterState, steps: Seq<FrameStep>)
    requires
        start.sequence_number() == 0,
    ensures
        sequence_numbers(start.chunks_of_steps(steps)) == consecutive(
            0,
            sequence_numbers(start.chunks_of_steps(steps)).len() as int,
        ),
        start.after_steps(steps).sequence_number() == advance(
            0,
            sequence_numbers(start.chunks_of_steps(steps)).len() as int,
        ),
        start.after_steps(steps).out == start.out + chunks_bytes(start.chunks_of_steps(steps)),
        start.after_steps(steps).info.frame_control is Some <==> start.info.frame_control is Some,
    decreases steps.len(),
{
    if steps.len() == 0 {
        lemma_advance_add(0, 0, 0);
        assert(sequence_numbers(Seq::<Chunk>::empty()) =~= consecutive(0, 0));
        assert(start.out + chunks_bytes(Seq::<Chunk>::empty()) =~= start.out);
    } else {
        let earlier = steps.drop_last();
        lemma_sequence_numbers_contiguous(start, earlier);
        let before = start.after_steps(earlier).before_step(steps.last());
        let z = steps.last().data;
        let done = start.chunks_of_steps(earlier);
        let count = sequence_numbers(done).len() as int;
        assert(before.sequence_number() == start.after_steps(earlier).sequence_number());
        lemma_frame_sequence_numbers(before, z);
        lemma_sequence_numbers_concat(done, before.frame_chunks(z));
        lemma_chunks_bytes_concat(done, before.frame_chunks(z));
        lemma_consecutive_concat(0, count, before.frame_numbers(z));
        lemma_advance_add(0, count, before.frame_numbers(z));
        assert(start.out + (chunks_bytes(done) + chunks_bytes(before.frame_chunks(z))) =~= (
        start.out + chunks_bytes(done)) + chunks_bytes(before.frame_chunks(z)));
    }
}

/// Every frame written counts: after the frames of `steps` the writer has
/// written as many more. So a writer that starts at none refuses the next
/// frame as past the end exactly when it has written more frames than the
/// image holds, whatever the frames were.
pub proof fn lemma_frames_counted(start: WriterState, steps: Seq<FrameStep>)
    requires
        start.written + steps.len() <= u64::MAX,
    ensures
        start.after_steps(steps).written == start.written + steps.len(),
        start.after_steps(steps).info.color_type == start.info.color_type,
        start.after_steps(steps).info.has_palette == start.info.has_palette,
        start.after_steps(steps).info.animation_control == start.info.animation_control,
        steps.len() > 0 ==> !start.after_steps(steps).sep_def_img,
    decreases steps.len(),
{
    if steps.len() > 0 {
        lemma_frames_counted(start, steps.drop_last());
    }
}

} // verus!
