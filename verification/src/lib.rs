//! A streaming encoder for the PNG and APNG image formats.
//!
//! Raw pixel bytes are filtered scanline by scanline, compressed, and framed
//! into length-prefixed, checksummed chunks. Every function states in its
//! contract which bytes it produces, over the models defined beside it.
//!
//! The library does no input or output. A [`Writer`] appends what it emits
//! to a buffer of its own, and the caller takes the bytes from there.

pub mod chunk;
pub mod common;
pub mod encoder;
pub mod error;
pub mod filter;
pub mod raster;
pub mod stream;
pub mod svpng;
pub mod zlib;

pub use crate::common::{
    AnimationControl, BitDepth, BlendOp, BytesPerPixel, ColorType, Compression, DisposeOp,
    FrameControl, Info, ScaledFloat, SourceChromaticities, SrgbRenderingIntent,
};
pub use crate::encoder::{Encoder, PartialInfo, Writer};
pub use crate::error::{
    EncodingError, FormatError, FormatErrorKind, ParameterError, ParameterErrorKind,
};
pub use crate::filter::{AdaptiveFilterType, FilterType};
pub use crate::stream::StreamWriter;
