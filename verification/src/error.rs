//! What can go wrong while an image is opened or read.

use vstd::prelude::*;
use crate::text;
use crate::text::push_decimal;

verus! {

/// The kinds of failed input that the reader tells apart.
#[derive(Debug, Clone, Copy, PartialEq, Eq, Structural)]
pub enum IoErrorKind {
    /// The data ended before everything that was asked for had been read.
    UnexpectedEof,
    /// A position was asked for that no image has.
    InvalidInput,
    /// Any other failure.
    Other,
}

/// A failed read or seek.
#[derive(Debug, PartialEq, Eq)]
pub struct IoError {
    pub kind: IoErrorKind,
    pub message: String,
}

/// The error type of the image reader.
#[derive(Debug, PartialEq, Eq)]
#[allow(inconsistent_fields)]
pub enum EwfError {
    /// A segment file could not be read.
    Io(IoError),
    /// The file does not begin with a known signature.
    InvalidSignature,
    /// A binary structure was cut off.
    BufferTooShort { expected: usize, got: usize },
    /// The volume section asks for chunks beyond the largest accepted size.
    InvalidChunkSize(u32),
    /// No volume section gave a chunk size.
    MissingVolume,
    /// A compressed chunk did not decompress.
    Decompression(String),
    /// The segment numbers are not 1, 2, 3, and so on.
    SegmentGap { expected: u32, got: u32 },
    /// There is nothing to open.
    NoSegments(String),
    /// The contents contradict the format.
    Parse(String),
    /// The image is encrypted.
    EncryptedNotSupported,
}

/// An [`IoError`] with its message as a sequence of characters.
#[verifier::ext_equal]
pub struct IoErrorView {
    pub kind: IoErrorKind,
    pub message: Seq<char>,
}

/// An [`EwfError`] with its messages as sequences of characters.
#[verifier::ext_equal]
pub enum EwfErrorView {
    Io(IoErrorView),
    InvalidSignature,
    BufferTooShort { expected: int, got: int },
    InvalidChunkSize(int),
    MissingVolume,
    Decompression(Seq<char>),
    SegmentGap { expected: int, got: int },
    NoSegments(Seq<char>),
    Parse(Seq<char>),
    EncryptedNotSupported,
}

impl View for IoError {
    type V = IoErrorView;

    open spec fn view(&self) -> IoErrorView {
        IoErrorView { kind: self.kind, message: self.message@ }
    }
}

impl View for EwfError {
    type V = EwfErrorView;

    open spec fn view(&self) -> EwfErrorView {
        match *self {
            EwfError::Io(e) => EwfErrorView::Io(e@),
            EwfError::InvalidSignature => EwfErrorView::InvalidSignature,
            EwfError::BufferTooShort { expected, got } => EwfErrorView::BufferTooShort {
                expected: expected as int,
                got: got as int,
            },
            EwfError::InvalidChunkSize(n) => EwfErrorView::InvalidChunkSize(n as int),
            EwfError::MissingVolume => EwfErrorView::MissingVolume,
            EwfError::Decompression(m) => EwfErrorView::Decompression(m@),
            EwfError::SegmentGap { expected, got } => EwfErrorView::SegmentGap {
                expected: expected as int,
                got: got as int,
            },
            EwfError::NoSegments(m) => EwfErrorView::NoSegments(m@),
            EwfError::Parse(m) => EwfErrorView::Parse(m@),
            EwfError::EncryptedNotSupported => EwfErrorView::EncryptedNotSupported,
        }
    }
}

impl EwfErrorView {
    /// The error as a line of text.
    pub open spec fn message(self) -> Seq<char> {
        match self {
            EwfErrorView::Io(e) => "I/O error: "@ + e.message,
            EwfErrorView::InvalidSignature => "invalid EWF signature"@,
            EwfErrorView::BufferTooShort { expected, got } => "buffer too short: expected "@
                + text::decimal(expected as nat) + ", got "@ + text::decimal(
                got as nat,
            ),
            EwfErrorView::InvalidChunkSize(n) => "invalid chunk size: "@ + text::decimal(
                n as nat,
            ),
            EwfErrorView::MissingVolume => "missing volume section"@,
            EwfErrorView::Decompression(m) => "decompression error: "@ + m,
            EwfErrorView::SegmentGap { expected, got } => "segment gap: expected segment "@
                + text::decimal(expected as nat) + ", got "@ + text::decimal(
                got as nat,
            ),
            EwfErrorView::NoSegments(m) => "no segment files found matching: "@ + m,
            EwfErrorView::Parse(m) => "parse error: "@ + m,
            EwfErrorView::EncryptedNotSupported => "encrypted EWF2 images are not supported"@,
        }
    }
}

impl EwfError {
    /// The error as a line of text.
    pub fn message(&self) -> (r: String)
        ensures
            r@ == self@.message(),
    {
        match self {
            EwfError::Io(e) => {
                let mut m: String = "I/O error: ".to_owned();
                m.append(e.message.as_str());
                m
            },
            EwfError::InvalidSignature => "invalid EWF signature".to_owned(),
            EwfError::BufferTooShort { expected, got } => {
                let mut m: String = "buffer too short: expected ".to_owned();
                push_decimal(&mut m, *expected as u64);
                m.append(", got ");
                push_decimal(&mut m, *got as u64);
                m
            },
            EwfError::InvalidChunkSize(n) => {
                let mut m: String = "invalid chunk size: ".to_owned();
                push_decimal(&mut m, *n as u64);
                m
            },
            EwfError::MissingVolume => "missing volume section".to_owned(),
            EwfError::Decompression(text) => {
                let mut m: String = "decompression error: ".to_owned();
                m.append(text.as_str());
                m
            },
            EwfError::SegmentGap { expected, got } => {
                let mut m: String = "segment gap: expected segment ".to_owned();
                push_decimal(&mut m, *expected as u64);
                m.append(", got ");
                push_decimal(&mut m, *got as u64);
                m
            },
            EwfError::NoSegments(text) => {
                let mut m: String = "no segment files found matching: ".to_owned();
                m.append(text.as_str());
                m
            },
            EwfError::Parse(text) => {
                let mut m: String = "parse error: ".to_owned();
                m.append(text.as_str());
                m
            },
            EwfError::EncryptedNotSupported => "encrypted EWF2 images are not supported".to_owned(),
        }
    }
}

/// A result with its value and its error taken by their views.
pub open spec fn viewed<T: View>(r: Result<T, EwfError>) -> Result<T::V, EwfErrorView> {
    match r {
        Ok(v) => Ok(v@),
        Err(e) => Err(e@),
    }
}

/// A count or an I/O error, with the error taken by its view.
pub open spec fn io_viewed(r: Result<usize, IoError>) -> Result<usize, IoErrorView> {
    match r {
        Ok(n) => Ok(n),
        Err(e) => Err(e@),
    }
}

/// A read that stopped short of what it was asked for.
pub open spec fn short_read() -> EwfErrorView {
    EwfErrorView::Io(
        IoErrorView { kind: IoErrorKind::UnexpectedEof, message: "failed to fill whole buffer"@ },
    )
}

/// Builds the error of a read that stopped short.
pub fn short_read_error() -> (r: EwfError)
    ensures
        r@ == short_read(),
{
    EwfError::Io(
        IoError {
            kind: IoErrorKind::UnexpectedEof,
            message: "failed to fill whole buffer".to_owned(),
        },
    )
}

} // verus!
