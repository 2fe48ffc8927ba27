//! The image parameters that the encoder reads.

use vstd::prelude::*;

use crate::chunk::{Chunk, acTL, be16, be32, cHRM, chunk_bytes, fcTL, gAMA, push_be16, push_be32, sRGB,
    tRNS, write_chunk, IHDR, PLTE};
use crate::error::EncodingError;

verus! {

/// The number of bits of one sample.
#[derive(Debug, Clone, Copy, PartialEq, Eq, Structural)]
pub enum BitDepth {
    One,
    Two,
    Four,
    Eight,
    Sixteen,
}

impl BitDepth {
    /// The number of bits.
    pub open spec fn bits(self) -> int {
        match self {
            BitDepth::One => 1,
            BitDepth::Two => 2,
            BitDepth::Four => 4,
            BitDepth::Eight => 8,
            BitDepth::Sixteen => 16,
        }
    }

    /// The number of bits, as it stands in the header.
    pub fn into_u8(self) -> (n: u8)
        ensures
            n == self.bits(),
    {
        match self {
            BitDepth::One => 1,
            BitDepth::Two => 2,
            BitDepth::Four => 4,
            BitDepth::Eight => 8,
            BitDepth::Sixteen => 16,
        }
    }
}

/// What the samples of a pixel mean.
#[derive(Debug, Clone, Copy, PartialEq, Eq, Structural)]
pub enum ColorType {
    Grayscale,
    Rgb,
    Indexed,
    GrayscaleAlpha,
    Rgba,
}

impl ColorType {
    /// The number of samples of one pixel.
    pub open spec fn spec_samples(self) -> int {
        match self {
            ColorType::Grayscale | ColorType::Indexed => 1,
            ColorType::Rgb => 3,
            ColorType::GrayscaleAlpha => 2,
            ColorType::Rgba => 4,
        }
    }

    /// The code of the colour type in the header.
    pub open spec fn code(self) -> u8 {
        match self {
            ColorType::Grayscale => 0,
            ColorType::Rgb => 2,
            ColorType::Indexed => 3,
            ColorType::GrayscaleAlpha => 4,
            ColorType::Rgba => 6,
        }
    }

    /// Whether the format rules out this colour type at the given depth:
    /// fewer than eight bits go with one sample per pixel only, and an
    /// indexed image has no sixteen-bit samples.
    pub open spec fn spec_is_combination_invalid(self, bit_depth: BitDepth) -> bool {
        ||| (bit_depth.bits() < 8 && (self == ColorType::Rgb || self == ColorType::GrayscaleAlpha
            || self == ColorType::Rgba))
        ||| (bit_depth == BitDepth::Sixteen && self == ColorType::Indexed)
    }

    /// The number of bytes of a scanline of `width` pixels, without the
    /// filter tag: the samples' bits, rounded up to whole bytes.
    #[verifier::opaque]
    pub open spec fn row_bytes(self, depth: BitDepth, width: int) -> int {
        (width * self.spec_samples() * depth.bits() + 7) / 8
    }

    /// The number of samples of one pixel.
    pub fn samples(self) -> (n: usize)
        ensures
            n == self.spec_samples(),
    {
        match self {
            ColorType::Grayscale | ColorType::Indexed => 1,
            ColorType::Rgb => 3,
            ColorType::GrayscaleAlpha => 2,
            ColorType::Rgba => 4,
        }
    }

    /// The code of the colour type, as it stands in the header.
    pub fn into_u8(self) -> (n: u8)
        ensures
            n == self.code(),
    {
        match self {
            ColorType::Grayscale => 0,
            ColorType::Rgb => 2,
            ColorType::Indexed => 3,
            ColorType::GrayscaleAlpha => 4,
            ColorType::Rgba => 6,
        }
    }

    /// Whether the format rules out this colour type at the given depth.
    pub fn is_combination_invalid(self, bit_depth: BitDepth) -> (r: bool)
        ensures
            r == self.spec_is_combination_invalid(bit_depth),
    {
        let narrow = match bit_depth {
            BitDepth::One | BitDepth::Two | BitDepth::Four => true,
            _ => false,
        };
        let several = match self {
            ColorType::Rgb | ColorType::GrayscaleAlpha | ColorType::Rgba => true,
            _ => false,
        };
        let wide = match bit_depth {
            BitDepth::Sixteen => true,
            _ => false,
        };
        let indexed = match self {
            ColorType::Indexed => true,
            _ => false,
        };
        (narrow && several) || (wide && indexed)
    }
}

/// The prediction stride of the scanline filters: the number of bytes of one
/// complete pixel, rounded up to one byte.
#[derive(Debug, Clone, Copy, PartialEq, Eq, Structural)]
pub enum BytesPerPixel {
    One,
    Two,
    Three,
    Four,
    Six,
    Eight,
}

impl BytesPerPixel {
    /// The stride as a number.
    pub open spec fn value(self) -> int {
        match self {
            BytesPerPixel::One => 1,
            BytesPerPixel::Two => 2,
            BytesPerPixel::Three => 3,
            BytesPerPixel::Four => 4,
            BytesPerPixel::Six => 6,
            BytesPerPixel::Eight => 8,
        }
    }

    /// The stride of the given number of bytes.
    pub open spec fn of(n: int) -> BytesPerPixel {
        if n == 1 {
            BytesPerPixel::One
        } else if n == 2 {
            BytesPerPixel::Two
        } else if n == 3 {
            BytesPerPixel::Three
        } else if n == 4 {
            BytesPerPixel::Four
        } else if n == 6 {
            BytesPerPixel::Six
        } else {
            BytesPerPixel::Eight
        }
    }

    pub fn into_usize(self) -> (n: usize)
        ensures
            n == self.value(),
    {
        match self {
            BytesPerPixel::One => 1,
            BytesPerPixel::Two => 2,
            BytesPerPixel::Three => 3,
            BytesPerPixel::Four => 4,
            BytesPerPixel::Six => 6,
            BytesPerPixel::Eight => 8,
        }
    }
}

/// How hard the compressor tries.
#[derive(Debug, Clone, Copy, PartialEq, Eq, Structural)]
pub enum Compression {
    /// Default level
    Default,
    /// Fast minimal compression
    Fast,
    /// Higher compression level
    Best,
    /// Huffman coding only, no matching
    Huffman,
    /// Run-length matching only
    Rle,
}

/// How a frame's area is to be left when the frame's time is over.
#[derive(Debug, Clone, Copy, PartialEq, Eq, Structural)]
pub enum DisposeOp {
    /// Leave the buffer as it is.
    Keep,
    /// Clear the frame's area to transparent black.
    Background,
    /// Put back what the area held before the frame.
    Previous,
}

impl DisposeOp {
    /// The code of the operation in a frame control chunk.
    pub open spec fn code(self) -> u8 {
        match self {
            DisposeOp::Keep => 0,
            DisposeOp::Background => 1,
            DisposeOp::Previous => 2,
        }
    }

    pub fn into_u8(self) -> (n: u8)
        ensures
            n == self.code(),
    {
        match self {
            DisposeOp::Keep => 0,
            DisposeOp::Background => 1,
            DisposeOp::Previous => 2,
        }
    }
}

/// How a frame is combined with what the buffer holds.
#[derive(Debug, Clone, Copy, PartialEq, Eq, Structural)]
pub enum BlendOp {
    /// The frame replaces its area.
    Source,
    /// The frame is composited onto its area by its alpha.
    Over,
}

impl BlendOp {
    /// The code of the operation in a frame control chunk.
    pub open spec fn code(self) -> u8 {
        match self {
            BlendOp::Source => 0,
            BlendOp::Over => 1,
        }
    }

    pub fn into_u8(self) -> (n: u8)
        ensures
            n == self.code(),
    {
        match self {
            BlendOp::Source => 0,
            BlendOp::Over => 1,
        }
    }
}

/// The parameters of one frame of an animation.
#[derive(Debug, Clone, Copy, PartialEq, Eq, Structural)]
pub struct FrameControl {
    /// The place of the chunk among the animation's chunks.
    pub sequence_number: u32,
    /// Width of the frame
    pub width: u32,
    /// Height of the frame
    pub height: u32,
    /// Column at which the frame starts
    pub x_offset: u32,
    /// Row at which the frame starts
    pub y_offset: u32,
    /// Numerator of the frame's time, in seconds
    pub delay_num: u16,
    /// Denominator of the frame's time
    pub delay_den: u16,
    pub dispose_op: DisposeOp,
    pub blend_op: BlendOp,
}

impl Default for FrameControl {
    fn default() -> (r: FrameControl)
        ensures
            r == FrameControl::spec_default(),
    {
        FrameControl {
            sequence_number: 0,
            width: 0,
            height: 0,
            x_offset: 0,
            y_offset: 0,
            delay_num: 0,
            delay_den: 0,
            dispose_op: DisposeOp::Keep,
            blend_op: BlendOp::Source,
        }
    }
}

impl FrameControl {
    /// An empty frame at the origin, shown for no time, that replaces its
    /// area and leaves it.
    pub open spec fn spec_default() -> FrameControl {
        FrameControl {
            sequence_number: 0,
            width: 0,
            height: 0,
            x_offset: 0,
            y_offset: 0,
            delay_num: 0,
            delay_den: 0,
            dispose_op: DisposeOp::Keep,
            blend_op: BlendOp::Source,
        }
    }

    /// The 22 bytes that follow the sequence number in the frame control
    /// chunk's data.
    pub open spec fn body(self) -> Seq<u8> {
        be32(self.width) + be32(self.height) + be32(self.x_offset) + be32(self.y_offset) + be16(
            self.delay_num,
        ) + be16(self.delay_den) + seq![self.dispose_op.code(), self.blend_op.code()]
    }

    /// The 26 bytes of the frame control chunk's data.
    pub open spec fn payload(self) -> Seq<u8> {
        be32(self.sequence_number) + self.body()
    }

    /// The frame control chunk.
    pub open spec fn chunk(self) -> Chunk {
        Chunk { name: fcTL, sequence_number: Some(self.sequence_number), body: self.body() }
    }

    /// The same frame under another sequence number.
    pub open spec fn with_sequence_number(self, n: u32) -> FrameControl {
        FrameControl { sequence_number: n, ..self }
    }

    /// Whether the frame is not empty and lies inside an image of the given
    /// size.
    pub open spec fn fits(self, width: u32, height: u32) -> bool {
        &&& self.width >= 1
        &&& self.height >= 1
        &&& self.x_offset + self.width <= width
        &&& self.y_offset + self.height <= height
    }

    /// Appends the 22 bytes that follow the sequence number in the frame
    /// control chunk's data.
    pub fn encode_body(self, data: &mut Vec<u8>)
        ensures
            final(data)@ == old(data)@ + self.body(),
    {
        push_be32(data, self.width);
        push_be32(data, self.height);
        push_be32(data, self.x_offset);
        push_be32(data, self.y_offset);
        push_be16(data, self.delay_num);
        push_be16(data, self.delay_den);
        data.push(self.dispose_op.into_u8());
        data.push(self.blend_op.into_u8());
        assert(data@ =~= old(data)@ + self.body());
    }

    /// Appends the frame control chunk.
    pub fn encode(self, w: &mut Vec<u8>)
        ensures
            final(w)@ == old(w)@ + self.chunk().bytes(),
    {
        let mut data: Vec<u8> = Vec::new();
        push_be32(&mut data, self.sequence_number);
        self.encode_body(&mut data);
        assert(data@ =~= self.payload());
        let _ = write_chunk(w, fcTL, data.as_slice());
    }
}

/// The parameters of an animation.
#[derive(Debug, Clone, Copy, PartialEq, Eq, Structural)]
pub struct AnimationControl {
    /// Number of frames
    pub num_frames: u32,
    /// Number of times to play the animation; 0 plays it without end
    pub num_plays: u32,
}

impl AnimationControl {
    /// The 8 bytes of the animation control chunk's data.
    pub open spec fn payload(self) -> Seq<u8> {
        be32(self.num_frames) + be32(self.num_plays)
    }

    /// Appends the animation control chunk.
    pub fn encode(self, w: &mut Vec<u8>)
        ensures
            final(w)@ == old(w)@ + chunk_bytes(acTL, self.payload()),
    {
        let mut data: Vec<u8> = Vec::new();
        push_be32(&mut data, self.num_frames);
        push_be32(&mut data, self.num_plays);
        let _ = write_chunk(w, acTL, data.as_slice());
    }
}

/// A number with five decimal places, held as the number times 100000.
#[derive(Debug, Clone, Copy, PartialEq, Eq, Structural)]
pub struct ScaledFloat(u32);

impl ScaledFloat {
    /// The number times 100000.
    pub closed spec fn scaled(self) -> u32 {
        self.0
    }

    /// The number that is `val` hundred-thousandths.
    pub fn from_scaled(val: u32) -> (r: ScaledFloat)
        ensures
            r.scaled() == val,
    {
        ScaledFloat(val)
    }

    /// The number times 100000.
    pub fn into_scaled(self) -> (r: u32)
        ensures
            r == self.scaled(),
    {
        self.0
    }

    /// Appends the gamma chunk with this number.
    pub fn encode_gama(self, w: &mut Vec<u8>)
        ensures
            final(w)@ == old(w)@ + chunk_bytes(gAMA, be32(self.scaled())),
    {
        let mut data: Vec<u8> = Vec::new();
        push_be32(&mut data, self.0);
        let _ = write_chunk(w, gAMA, data.as_slice());
    }
}

/// The chromaticities of the display that an image was made for.
#[derive(Debug, Clone, Copy)]
pub struct SourceChromaticities {
    pub white: (ScaledFloat, ScaledFloat),
    pub red: (ScaledFloat, ScaledFloat),
    pub green: (ScaledFloat, ScaledFloat),
    pub blue: (ScaledFloat, ScaledFloat),
}

impl SourceChromaticities {
    /// The 32 bytes of the chromaticities chunk's data.
    pub open spec fn payload(self) -> Seq<u8> {
        be32(self.white.0.scaled()) + be32(self.white.1.scaled()) + be32(self.red.0.scaled())
            + be32(self.red.1.scaled()) + be32(self.green.0.scaled()) + be32(
            self.green.1.scaled(),
        ) + be32(self.blue.0.scaled()) + be32(self.blue.1.scaled())
    }

    /// Appends the chromaticities chunk.
    pub fn encode(self, w: &mut Vec<u8>)
        ensures
            final(w)@ == old(w)@ + chunk_bytes(cHRM, self.payload()),
    {
        let mut data: Vec<u8> = Vec::new();
        push_be32(&mut data, self.white.0.into_scaled());
        push_be32(&mut data, self.white.1.into_scaled());
        push_be32(&mut data, self.red.0.into_scaled());
        push_be32(&mut data, self.red.1.into_scaled());
        push_be32(&mut data, self.green.0.into_scaled());
        push_be32(&mut data, self.green.1.into_scaled());
        push_be32(&mut data, self.blue.0.into_scaled());
        push_be32(&mut data, self.blue.1.into_scaled());
        assert(data@ =~= self.payload());
        let _ = write_chunk(w, cHRM, data.as_slice());
    }
}

/// How colours outside the display's range are to be mapped.
#[derive(Debug, Clone, Copy, PartialEq, Eq, Structural)]
pub enum SrgbRenderingIntent {
    Perceptual,
    RelativeColorimetric,
    Saturation,
    AbsoluteColorimetric,
}

impl SrgbRenderingIntent {
    /// The code of the intent in the chunk.
    pub open spec fn code(self) -> u8 {
        match self {
            SrgbRenderingIntent::Perceptual => 0,
            SrgbRenderingIntent::RelativeColorimetric => 1,
            SrgbRenderingIntent::Saturation => 2,
            SrgbRenderingIntent::AbsoluteColorimetric => 3,
        }
    }

    pub fn into_raw(self) -> (n: u8)
        ensures
            n == self.code(),
    {
        match self {
            SrgbRenderingIntent::Perceptual => 0,
            SrgbRenderingIntent::RelativeColorimetric => 1,
            SrgbRenderingIntent::Saturation => 2,
            SrgbRenderingIntent::AbsoluteColorimetric => 3,
        }
    }

    /// Appends the standard colour space chunk.
    pub fn encode(self, w: &mut Vec<u8>)
        ensures
            final(w)@ == old(w)@ + chunk_bytes(sRGB, seq![self.code()]),
    {
        let mut data: Vec<u8> = Vec::new();
        data.push(self.into_raw());
        assert(data@ =~= seq![self.code()]);
        let _ = write_chunk(w, sRGB, data.as_slice());
    }
}

/// The gamma that goes with the standard RGB colour space.
pub open spec fn spec_substitute_gamma() -> u32 {
    45455
}

/// The gamma that goes with the standard RGB colour space.
pub fn substitute_gamma() -> (r: ScaledFloat)
    ensures
        r.scaled() == spec_substitute_gamma(),
{
    ScaledFloat::from_scaled(45455)
}

/// The data of the chromaticities chunk that goes with the standard RGB
/// colour space.
pub open spec fn spec_substitute_chromaticities() -> Seq<u8> {
    be32(31270) + be32(32900) + be32(64000) + be32(33000) + be32(30000) + be32(60000) + be32(
        15000,
    ) + be32(6000)
}

/// The chromaticities that go with the standard RGB colour space.
pub fn substitute_chromaticities() -> (r: SourceChromaticities)
    ensures
        r.payload() == spec_substitute_chromaticities(),
{
    SourceChromaticities {
        white: (ScaledFloat::from_scaled(31270), ScaledFloat::from_scaled(32900)),
        red: (ScaledFloat::from_scaled(64000), ScaledFloat::from_scaled(33000)),
        green: (ScaledFloat::from_scaled(30000), ScaledFloat::from_scaled(60000)),
        blue: (ScaledFloat::from_scaled(15000), ScaledFloat::from_scaled(6000)),
    }
}

/// The parameters of an image.
#[derive(Debug, Clone)]
pub struct Info {
    pub width: u32,
    pub height: u32,
    pub bit_depth: BitDepth,
    pub color_type: ColorType,
    pub interlaced: bool,
    /// The data of the transparency chunk
    pub trns: Option<Vec<u8>>,
    /// The data of the palette chunk
    pub palette: Option<Vec<u8>>,
    /// Gamma of the display that the image was made for
    pub source_gamma: Option<ScaledFloat>,
    /// Chromaticities of the display that the image was made for
    pub source_chromaticities: Option<SourceChromaticities>,
    /// The rendering intent of an image in the standard RGB colour space;
    /// where it is set, gamma and chromaticities are those of that space
    pub srgb: Option<SrgbRenderingIntent>,
    pub frame_control: Option<FrameControl>,
    pub animation_control: Option<AnimationControl>,
    pub compression: Compression,
}

/// The bytes of the chunk `name` with the given data, or nothing where there
/// is no data.
pub open spec fn optional_chunk(name: [u8; 4], data: Option<Vec<u8>>) -> Seq<u8> {
    match data {
        Some(d) => chunk_bytes(name, d@),
        None => Seq::<u8>::empty(),
    }
}

impl Default for Info {
    fn default() -> (r: Info)
        ensures
            r == Info::spec_with_size(0, 0),
    {
        Info {
            width: 0,
            height: 0,
            bit_depth: BitDepth::Eight,
            color_type: ColorType::Grayscale,
            interlaced: false,
            trns: None,
            palette: None,
            source_gamma: None,
            source_chromaticities: None,
            srgb: None,
            frame_control: None,
            animation_control: None,
            compression: Compression::Fast,
        }
    }
}

impl Info {
    /// An eight-bit grayscale image of the given size, compressed fast, with
    /// nothing else set.
    pub open spec fn spec_with_size(width: u32, height: u32) -> Info {
        Info {
            width,
            height,
            bit_depth: BitDepth::Eight,
            color_type: ColorType::Grayscale,
            interlaced: false,
            trns: None,
            palette: None,
            source_gamma: None,
            source_chromaticities: None,
            srgb: None,
            frame_control: None,
            animation_control: None,
            compression: Compression::Fast,
        }
    }

    /// An eight-bit grayscale image of the given size, compressed fast, with
    /// nothing else set.
    pub fn with_size(width: u32, height: u32) -> (r: Info)
        ensures
            r == Info::spec_with_size(width, height),
    {
        Info {
            width,
            height,
            bit_depth: BitDepth::Eight,
            color_type: ColorType::Grayscale,
            interlaced: false,
            trns: None,
            palette: None,
            source_gamma: None,
            source_chromaticities: None,
            srgb: None,
            frame_control: None,
            animation_control: None,
            compression: Compression::Fast,
        }
    }

    /// The 13 bytes of the header chunk's data.
    pub open spec fn ihdr_payload(self) -> Seq<u8> {
        be32(self.width) + be32(self.height) + seq![
            self.bit_depth.bits() as u8,
            self.color_type.code(),
            0u8,
            0u8,
            if self.interlaced { 1u8 } else { 0u8 },
        ]
    }

    /// The chunks that say how the samples map to colours. The standard RGB
    /// colour space, where it is set, comes with its own gamma and
    /// chromaticities and overrides those of the image.
    pub open spec fn colour_chunks(self) -> Seq<u8> {
        match self.srgb {
            Some(intent) => chunk_bytes(sRGB, seq![intent.code()]) + chunk_bytes(
                gAMA,
                be32(spec_substitute_gamma()),
            ) + chunk_bytes(cHRM, spec_substitute_chromaticities()),
            None => (match self.source_gamma {
                Some(g) => chunk_bytes(gAMA, be32(g.scaled())),
                None => Seq::<u8>::empty(),
            }) + (match self.source_chromaticities {
                Some(c) => chunk_bytes(cHRM, c.payload()),
                None => Seq::<u8>::empty(),
            }),
        }
    }

    /// The chunks that stand before the image data: the header, then palette,
    /// transparency, colour space and animation control as far as they are set.
    pub open spec fn header_chunks(self) -> Seq<u8> {
        chunk_bytes(IHDR, self.ihdr_payload()) + optional_chunk(PLTE, self.palette)
            + optional_chunk(tRNS, self.trns) + self.colour_chunks() + (match self.animation_control {
            Some(a) => chunk_bytes(acTL, a.payload()),
            None => Seq::<u8>::empty(),
        })
    }

    /// Whether palette and transparency data are short enough for a chunk.
    pub open spec fn chunks_fit(self) -> bool {
        &&& self.palette matches Some(p) ==> p@.len() <= u32::MAX
        &&& self.trns matches Some(t) ==> t@.len() <= u32::MAX
    }

    /// The number of bytes of one pixel, rounded up to one byte.
    pub open spec fn spec_bytes_per_pixel(self) -> int {
        self.color_type.spec_samples() * ((self.bit_depth.bits() + 7) / 8)
    }

    /// The number of bytes of a scanline of `width` pixels with its filter tag.
    pub open spec fn spec_raw_row_length_from_width(self, width: u32) -> int {
        1 + self.color_type.row_bytes(self.bit_depth, width as int)
    }

    /// The number of bytes of one pixel, rounded up to one byte.
    pub fn bytes_per_pixel(&self) -> (n: usize)
        ensures
            n == self.spec_bytes_per_pixel(),
    {
        let wide = match self.bit_depth {
            BitDepth::Sixteen => true,
            _ => false,
        };
        if wide {
            self.color_type.samples() * 2
        } else {
            self.color_type.samples()
        }
    }

    /// The stride that the filters predict by.
    pub fn bpp_in_prediction(&self) -> (r: BytesPerPixel)
        ensures
            r == BytesPerPixel::of(self.spec_bytes_per_pixel()),
            r.value() == self.spec_bytes_per_pixel(),
    {
        match self.bytes_per_pixel() {
            1 => BytesPerPixel::One,
            2 => BytesPerPixel::Two,
            3 => BytesPerPixel::Three,
            4 => BytesPerPixel::Four,
            6 => BytesPerPixel::Six,
            _ => BytesPerPixel::Eight,
        }
    }

    /// The number of bytes of a scanline of `width` pixels with its filter
    /// tag, or nothing where a `usize` does not hold that number.
    pub fn checked_raw_row_length_from_width(&self, width: u32) -> (r: Option<usize>)
        ensures
            match r {
                Some(n) => n == self.spec_raw_row_length_from_width(width),
                None => self.spec_raw_row_length_from_width(width) > usize::MAX,
            },
    {
        reveal(ColorType::row_bytes);
        let samples: u64 = self.color_type.samples() as u64;
        let depth: u64 = self.bit_depth.into_u8() as u64;
        assert(width as u64 * samples <= 0xFFFF_FFFF * 4) by (nonlinear_arith)
            requires
                width <= 0xFFFF_FFFF,
                samples <= 4,
        ;
        let pixels: u64 = width as u64 * samples;
        assert(pixels * depth <= 0xFFFF_FFFF * 4 * 16) by (nonlinear_arith)
            requires
                pixels <= 0xFFFF_FFFF * 4,
                depth <= 16,
        ;
        let bits: u64 = pixels * depth;
        let bytes: u64 = 1 + (bits + 7) / 8;
        if bytes > usize::MAX as u64 {
            None
        } else {
            Some(bytes as usize)
        }
    }

    /// The number of bytes of a scanline of `width` pixels with its filter tag.
    pub fn raw_row_length_from_width(&self, width: u32) -> (n: usize)
        requires
            self.spec_raw_row_length_from_width(width) <= usize::MAX,
        ensures
            n == self.spec_raw_row_length_from_width(width),
    {
        match self.checked_raw_row_length_from_width(width) {
            Some(n) => n,
            None => 0,
        }
    }

    /// The number of bytes of a scanline of the image with its filter tag.
    pub fn raw_row_length(&self) -> (n: usize)
        requires
            self.spec_raw_row_length_from_width(self.width) <= usize::MAX,
        ensures
            n == self.spec_raw_row_length_from_width(self.width),
    {
        self.raw_row_length_from_width(self.width)
    }

    /// The data of the header chunk.
    fn ihdr_data(&self) -> (data: Vec<u8>)
        ensures
            data@ == self.ihdr_payload(),
    {
        let mut data: Vec<u8> = Vec::new();
        push_be32(&mut data, self.width);
        push_be32(&mut data, self.height);
        data.push(self.bit_depth.into_u8());
        data.push(self.color_type.into_u8());
        data.push(0);
        data.push(0);
        data.push(if self.interlaced { 1 } else { 0 });
        assert(data@ =~= self.ihdr_payload());
        data
    }

    /// Appends the chunks that say how the samples map to colours.
    fn encode_colour(&self, w: &mut Vec<u8>)
        ensures
            final(w)@ == old(w)@ + self.colour_chunks(),
    {
        if let Some(srgb) = self.srgb {
            srgb.encode(w);
            let ghost w1 = w@;
            substitute_gamma().encode_gama(w);
            let ghost w2 = w@;
            substitute_chromaticities().encode(w);
            assert(w@ =~= old(w)@ + ((w1.skip(old(w)@.len() as int) + w2.skip(w1.len() as int))
                + w@.skip(w2.len() as int)));
            assert(w1.skip(old(w)@.len() as int) =~= chunk_bytes(sRGB, seq![srgb.code()]));
            assert(w2.skip(w1.len() as int) =~= chunk_bytes(gAMA, be32(spec_substitute_gamma())));
            assert(w@.skip(w2.len() as int) =~= chunk_bytes(cHRM, spec_substitute_chromaticities()));
        } else {
            if let Some(gma) = self.source_gamma {
                gma.encode_gama(w);
            }
            let ghost w1 = w@;
            if let Some(chrms) = self.source_chromaticities {
                chrms.encode(w);
            }
            assert(w@ =~= old(w)@ + (w1.skip(old(w)@.len() as int) + w@.skip(w1.len() as int)));
            assert(w1.skip(old(w)@.len() as int) =~= match self.source_gamma {
                Some(g) => chunk_bytes(gAMA, be32(g.scaled())),
                None => Seq::<u8>::empty(),
            });
            assert(w@.skip(w1.len() as int) =~= match self.source_chromaticities {
                Some(c) => chunk_bytes(cHRM, c.payload()),
                None => Seq::<u8>::empty(),
            });
        }
    }

    /// Appends the chunks that stand before the image data.
    ///
    /// Palette or transparency data too long for a chunk is refused, and
    /// nothing is written.
    pub fn encode(&self, w: &mut Vec<u8>) -> (r: Result<(), EncodingError>)
        ensures
            self.chunks_fit() ==> r is Ok && final(w)@ == old(w)@ + self.header_chunks(),
            !self.chunks_fit() ==> r is Err && r->Err_0 is LimitsExceeded && final(w)@ == old(w)@,
    {
        if let Some(p) = &self.palette {
            if p.len() > u32::MAX as usize {
                return Err(EncodingError::LimitsExceeded);
            }
        }
        if let Some(t) = &self.trns {
            if t.len() > u32::MAX as usize {
                return Err(EncodingError::LimitsExceeded);
            }
        }
        let ghost w0 = w@;
        let data = self.ihdr_data();
        let _ = write_chunk(w, IHDR, data.as_slice());
        let ghost w1 = w@;
        let ghost c1 = chunk_bytes(IHDR, self.ihdr_payload());
        assert(w1 == w0 + c1);

        if let Some(p) = &self.palette {
            let _ = write_chunk(w, PLTE, p.as_slice());
        }
        let ghost w2 = w@;
        let ghost c2 = c1 + optional_chunk(PLTE, self.palette);
        assert(w2 =~= w0 + c2);
        if let Some(t) = &self.trns {
            let _ = write_chunk(w, tRNS, t.as_slice());
        }
        let ghost w3 = w@;
        let ghost c3 = c2 + optional_chunk(tRNS, self.trns);
        assert(w3 =~= w0 + c3);
        self.encode_colour(w);
        let ghost w4 = w@;
        let ghost c4 = c3 + self.colour_chunks();
        assert(w4 =~= w0 + c4);
        if let Some(actl) = self.animation_control {
            actl.encode(w);
        }
        let ghost c5 = c4 + (match self.animation_control {
            Some(a) => chunk_bytes(acTL, a.payload()),
            None => Seq::<u8>::empty(),
        });
        assert(w@ =~= w0 + c5);
        assert(c5 == self.header_chunks());
        Ok(())
    }
}

} // verus!
