//! The errors of the encoder.

use vstd::prelude::*;

use crate::common::{BitDepth, ColorType};

verus! {

/// `std::io::Error`: the error of the compressor, carried through as it is.
#[verifier::external_type_specification]
#[verifier::external_body]
pub struct ExIoError(std::io::Error);

/// What a `FormatError` reports.
#[derive(Debug, Clone, Copy, PartialEq, Eq, Structural)]
pub enum FormatErrorKind {
    ZeroWidth,
    ZeroHeight,
    InvalidColorCombination(BitDepth, ColorType),
    NoPalette,
    WrittenTooMuch(usize),
    NotAnimated,
    OutOfBounds,
    EndReached,
    ZeroFrames,
    MissingFrames,
    MissingData(usize),
    Unrecoverable,
}

/// A violation of the format or of the order of calls.
#[derive(Debug, Clone, Copy, PartialEq, Eq, Structural)]
pub struct FormatError {
    pub inner: FormatErrorKind,
}

impl FormatError {
    /// What the error reports.
    pub open spec fn view(&self) -> FormatErrorKind {
        self.inner
    }

    /// The error that reports `kind`.
    pub open spec fn spec_new(kind: FormatErrorKind) -> FormatError {
        FormatError { inner: kind }
    }

    pub fn new(kind: FormatErrorKind) -> (r: FormatError)
        ensures
            r == FormatError::spec_new(kind),
            r@ == kind,
    {
        FormatError { inner: kind }
    }

    /// What the error reports.
    pub fn kind(&self) -> (r: FormatErrorKind)
        ensures
            r == self@,
    {
        self.inner
    }
}

/// What a `ParameterError` reports.
#[derive(Debug, Clone, Copy, PartialEq, Eq, Structural)]
pub enum ParameterErrorKind {
    /// The image data handed to the encoder has `actual` bytes where the
    /// frame holds `expected`.
    ImageBufferSize { expected: usize, actual: usize },
}

/// A wrong argument.
#[derive(Debug, Clone, Copy, PartialEq, Eq, Structural)]
pub struct ParameterError {
    pub inner: ParameterErrorKind,
}

impl ParameterError {
    /// What the error reports.
    pub open spec fn view(&self) -> ParameterErrorKind {
        self.inner
    }

    /// The error that reports `kind`.
    pub open spec fn spec_new(kind: ParameterErrorKind) -> ParameterError {
        ParameterError { inner: kind }
    }

    pub fn new(kind: ParameterErrorKind) -> (r: ParameterError)
        ensures
            r == ParameterError::spec_new(kind),
            r@ == kind,
    {
        ParameterError { inner: kind }
    }

    /// What the error reports.
    pub fn kind(&self) -> (r: ParameterErrorKind)
        ensures
            r == self@,
    {
        self.inner
    }
}

#[derive(Debug)]
pub enum EncodingError {
    IoError(std::io::Error),
    Format(FormatError),
    Parameter(ParameterError),
    LimitsExceeded,
}

impl EncodingError {
    /// The format error of the given kind.
    pub fn format(kind: FormatErrorKind) -> (r: EncodingError)
        ensures
            r == EncodingError::Format(FormatError::spec_new(kind)),
            r.is_format(kind),
    {
        EncodingError::Format(FormatError::new(kind))
    }

    /// Whether this is the format error of the given kind.
    pub open spec fn is_format(self, kind: FormatErrorKind) -> bool {
        self matches EncodingError::Format(e) && e@ == kind
    }

    /// Whether this is the parameter error of the given kind.
    pub open spec fn is_parameter(self, kind: ParameterErrorKind) -> bool {
        self matches EncodingError::Parameter(e) && e@ == kind
    }
}

/// The character of the digit `d`.
pub open spec fn digit(d: nat) -> char {
    ((48 + d) as u8) as char
}

/// The decimal digits of `n`, without leading zeros.
pub open spec fn decimal(n: nat) -> Seq<char>
    decreases n,
{
    if n < 10 {
        seq![digit(n)]
    } else {
        decimal(n / 10).push(digit(n % 10))
    }
}

/// `to_string` on a `usize` gives its decimal digits.
#[verifier::external_body]
fn decimal_string(n: usize) -> (s: String)
    ensures
        s@ == decimal(n as nat),
{
    n.to_string()
}

/// `concat` on string slices gives the characters of the one followed by
/// those of the other.
#[verifier::external_body]
fn joined(a: &str, b: &str) -> (s: String)
    ensures
        s@ == a@ + b@,
{
    [a, b].concat()
}

/// `to_string` on an I/O error gives its description, of which nothing is
/// claimed.
#[verifier::external_body]
fn io_error_text(e: &std::io::Error) -> (s: String) {
    e.to_string()
}

impl BitDepth {
    /// The name of the depth.
    pub open spec fn spec_name(self) -> Seq<char> {
        match self {
            BitDepth::One => "One"@,
            BitDepth::Two => "Two"@,
            BitDepth::Four => "Four"@,
            BitDepth::Eight => "Eight"@,
            BitDepth::Sixteen => "Sixteen"@,
        }
    }

    /// The name of the depth.
    pub fn name(self) -> (r: &'static str)
        ensures
            r@ == self.spec_name(),
    {
        match self {
            BitDepth::One => "One",
            BitDepth::Two => "Two",
            BitDepth::Four => "Four",
            BitDepth::Eight => "Eight",
            BitDepth::Sixteen => "Sixteen",
        }
    }
}

impl ColorType {
    /// The name of the colour type.
    pub open spec fn spec_name(self) -> Seq<char> {
        match self {
            ColorType::Grayscale => "Grayscale"@,
            ColorType::Rgb => "Rgb"@,
            ColorType::Indexed => "Indexed"@,
            ColorType::GrayscaleAlpha => "GrayscaleAlpha"@,
            ColorType::Rgba => "Rgba"@,
        }
    }

    /// The name of the colour type.
    pub fn name(self) -> (r: &'static str)
        ensures
            r@ == self.spec_name(),
    {
        match self {
            ColorType::Grayscale => "Grayscale",
            ColorType::Rgb => "Rgb",
            ColorType::Indexed => "Indexed",
            ColorType::GrayscaleAlpha => "GrayscaleAlpha",
            ColorType::Rgba => "Rgba",
        }
    }
}

impl FormatErrorKind {
    /// What the error says.
    pub open spec fn spec_message(self) -> Seq<char> {
        match self {
            FormatErrorKind::ZeroWidth => "Zero width not allowed"@,
            FormatErrorKind::ZeroHeight => "Zero height not allowed"@,
            FormatErrorKind::ZeroFrames => "Zero frames not allowed"@,
            FormatErrorKind::InvalidColorCombination(depth, color) =>
                "Invalid combination of bit-depth '"@ + depth.spec_name() + "' and color-type '"@
                    + color.spec_name() + "'"@,
            FormatErrorKind::NoPalette => "can't write indexed image without palette"@,
            FormatErrorKind::WrittenTooMuch(index) => "wrong data size, got "@ + decimal(
                index as nat,
            ) + " bytes too many"@,
            FormatErrorKind::NotAnimated => "not an animation"@,
            FormatErrorKind::OutOfBounds =>
                "the dimension and position go over the frame boundaries"@,
            FormatErrorKind::EndReached => "all the frames have been already written"@,
            FormatErrorKind::MissingFrames => "there are still frames to be written"@,
            FormatErrorKind::MissingData(n) => "there are still "@ + decimal(n as nat)
                + " bytes to be written"@,
            FormatErrorKind::Unrecoverable =>
                "a previous error put the writer into an unrecoverable state"@,
        }
    }
}

impl FormatError {
    /// What the error says.
    pub fn message(&self) -> (r: String)
        ensures
            r@ == self@.spec_message(),
    {
        match self.inner {
            FormatErrorKind::ZeroWidth => "Zero width not allowed".to_owned(),
            FormatErrorKind::ZeroHeight => "Zero height not allowed".to_owned(),
            FormatErrorKind::ZeroFrames => "Zero frames not allowed".to_owned(),
            FormatErrorKind::InvalidColorCombination(depth, color) => {
                let a = joined("Invalid combination of bit-depth '", depth.name());
                let b = joined(a.as_str(), "' and color-type '");
                let c = joined(b.as_str(), color.name());
                joined(c.as_str(), "'")
            },
            FormatErrorKind::NoPalette => "can't write indexed image without palette".to_owned(),
            FormatErrorKind::WrittenTooMuch(index) => {
                let digits = decimal_string(index);
                let a = joined("wrong data size, got ", digits.as_str());
                joined(a.as_str(), " bytes too many")
            },
            FormatErrorKind::NotAnimated => "not an animation".to_owned(),
            FormatErrorKind::OutOfBounds =>
                "the dimension and position go over the frame boundaries".to_owned(),
            FormatErrorKind::EndReached => "all the frames have been already written".to_owned(),
            FormatErrorKind::MissingFrames => "there are still frames to be written".to_owned(),
            FormatErrorKind::MissingData(n) => {
                let digits = decimal_string(n);
                let a = joined("there are still ", digits.as_str());
                joined(a.as_str(), " bytes to be written")
            },
            FormatErrorKind::Unrecoverable =>
                "a previous error put the writer into an unrecoverable state".to_owned(),
        }
    }
}

impl ParameterErrorKind {
    /// What the error says.
    pub open spec fn spec_message(self) -> Seq<char> {
        match self {
            ParameterErrorKind::ImageBufferSize { expected, actual } =>
                "wrong data size, expected "@ + decimal(expected as nat) + " got "@ + decimal(
                    actual as nat,
                ),
        }
    }
}

impl ParameterError {
    /// What the error says.
    pub fn message(&self) -> (r: String)
        ensures
            r@ == self@.spec_message(),
    {
        match self.inner {
            ParameterErrorKind::ImageBufferSize { expected, actual } => {
                let wanted = decimal_string(expected);
                let got = decimal_string(actual);
                let a = joined("wrong data size, expected ", wanted.as_str());
                let b = joined(a.as_str(), " got ");
                joined(b.as_str(), got.as_str())
            },
        }
    }
}

impl EncodingError {
    /// What the error says: for an error of the format or of a parameter its
    /// own message, for an I/O error its description.
    pub fn message(&self) -> (r: String)
        ensures
            match self {
                EncodingError::IoError(_) => true,
                EncodingError::Format(e) => r@ == e@.spec_message(),
                EncodingError::Parameter(e) => r@ == e@.spec_message(),
                EncodingError::LimitsExceeded => r@ == "Limits are exceeded."@,
            },
    {
        match self {
            EncodingError::IoError(err) => io_error_text(err),
            EncodingError::Format(desc) => desc.message(),
            EncodingError::Parameter(desc) => desc.message(),
            EncodingError::LimitsExceeded => "Limits are exceeded.".to_owned(),
        }
    }
}

} // verus!
