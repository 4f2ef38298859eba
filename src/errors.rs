//! The error of the GIF decoder, and how the block errors map into it.

use vstd::prelude::*;
use crate::blocks::{
    ApplicationExtensionParseError, ColorTableParseError, CommentExtensionParseError,
    GraphicControlExtensionParseError, HeaderParseError, LogicalScreenDescriptorParseError,
    PlainTextExtensionParseError, TableBasedImageParseError,
};
use crate::lzw::LZWDecodeError;
use crate::stream::IoError;

verus! {

/// Why a GIF stream could not be decoded.
#[derive(Debug)]
pub enum GIFParseError {
    /// The stream ended early; `reason` says where.
    Io { reason: String, cause: IoError },
    /// The header does not start with `GIF`; holds what was found.
    UnknownSignature(String),
    /// The header names neither `87a` nor `89a`; holds what was found.
    UnknownVersion(String),
    /// A block opens with a byte that is no separator, or that the grammar forbids here.
    UnexpectedBlockDiscriminant(u8),
    /// An extension label that the grammar forbids here.
    UnexpectedExtensionLabel(u8),
    /// A fixed-size block with the wrong size byte.
    UnexpectedBlockSize { got: u8, expected: u8 },
    /// A required zero terminator is not zero.
    InvalidBlockTerminator,
    /// A colour table that is too large or cut short.
    InvalidColorTable(String),
    /// The image data is no valid LZW stream.
    InvalidLZWCode(LZWDecodeError),
    /// An image has fewer palette indices than its rectangle has pixels.
    ImageDataError,
    /// Text of an extension that is not UTF-8 (or, when asked for, not ASCII).
    InvalidText,
}

/// An I/O error with the place where it happened.
fn io_error(reason: &str, cause: IoError) -> (r: GIFParseError)
    ensures
        r is Io,
{
    GIFParseError::Io { reason: reason.to_owned(), cause }
}

impl GIFParseError {
    pub fn from_header(value: HeaderParseError) -> (r: GIFParseError)
        ensures
            value is Signature ==> r is UnknownSignature && r->UnknownSignature_0@
                == value->Signature_0@,
            value is Version ==> r is UnknownVersion && r->UnknownVersion_0@ == value->Version_0@,
            value is Io ==> r is Io,
    {
        match value {
            HeaderParseError::Signature(found) => GIFParseError::UnknownSignature(found),
            HeaderParseError::Version(found) => GIFParseError::UnknownVersion(found),
            HeaderParseError::Io(e) => io_error("io error during header decode", e),
        }
    }

    pub fn from_screen_descriptor(value: LogicalScreenDescriptorParseError) -> (r: GIFParseError)
        ensures
            r is Io,
    {
        match value {
            LogicalScreenDescriptorParseError::Io(e) => io_error(
                "io error during logical screen descriptor decode",
                e,
            ),
        }
    }

    pub fn from_color_table(value: ColorTableParseError) -> (r: GIFParseError)
        ensures
            r is InvalidColorTable,
    {
        match value {
            ColorTableParseError::TooLarge => GIFParseError::InvalidColorTable(
                "color table too large".to_owned(),
            ),
            ColorTableParseError::NotEnoughData => GIFParseError::InvalidColorTable(
                "color table cut short".to_owned(),
            ),
        }
    }

    pub fn from_table_based_image(value: TableBasedImageParseError) -> (r: GIFParseError)
        ensures
            value is Io ==> r is Io,
            value is InvalidColorTable ==> r is InvalidColorTable,
            value is InvalidLZWCode ==> r == GIFParseError::InvalidLZWCode(value->InvalidLZWCode_0),
    {
        match value {
            TableBasedImageParseError::Io(e) => io_error("io error during image data block read", e),
            TableBasedImageParseError::InvalidColorTable(_) => GIFParseError::InvalidColorTable(
                "invalid local color table".to_owned(),
            ),
            TableBasedImageParseError::InvalidLZWCode(e) => GIFParseError::InvalidLZWCode(e),
        }
    }

    pub fn from_graphic_control(value: GraphicControlExtensionParseError) -> (r: GIFParseError)
        ensures
            value is Io ==> r is Io,
            value is InvalidBlockSize ==> r == (GIFParseError::UnexpectedBlockSize {
                got: value->InvalidBlockSize_0,
                expected: 4,
            }),
            value is InvalidBlockTerminator ==> r == GIFParseError::InvalidBlockTerminator,
    {
        match value {
            GraphicControlExtensionParseError::Io(e) => io_error(
                "io error during graphic control extension read",
                e,
            ),
            GraphicControlExtensionParseError::InvalidBlockSize(got) => {
                GIFParseError::UnexpectedBlockSize { got, expected: 4 }
            },
            GraphicControlExtensionParseError::InvalidBlockTerminator => {
                GIFParseError::InvalidBlockTerminator
            },
        }
    }

    pub fn from_plain_text(value: PlainTextExtensionParseError) -> (r: GIFParseError)
        ensures
            value is Io ==> r is Io,
            value is InvalidBlockSize ==> r is UnexpectedBlockSize,
            value is InvalidASCII ==> r == GIFParseError::InvalidText,
    {
        match value {
            PlainTextExtensionParseError::Io(e) => io_error(
                "io error during plain text extension read",
                e,
            ),
            PlainTextExtensionParseError::InvalidBlockSize { expected: _, found } => {
                GIFParseError::UnexpectedBlockSize {
                    got: if found > 255 {
                        255
                    } else {
                        found as u8
                    },
                    expected: 12,
                }
            },
            PlainTextExtensionParseError::InvalidASCII => GIFParseError::InvalidText,
        }
    }

    pub fn from_comment(value: CommentExtensionParseError) -> (r: GIFParseError)
        ensures
            value is Io ==> r is Io,
            value is InvalidASCII ==> r == GIFParseError::InvalidText,
    {
        match value {
            CommentExtensionParseError::Io(e) => io_error("io error during comment extension read", e),
            CommentExtensionParseError::InvalidASCII => GIFParseError::InvalidText,
        }
    }

    pub fn from_application(value: ApplicationExtensionParseError) -> (r: GIFParseError)
        ensures
            value is Io ==> r is Io,
            value is InvalidBlockSize ==> r == (GIFParseError::UnexpectedBlockSize {
                got: value->InvalidBlockSize_0,
                expected: 11,
            }),
    {
        match value {
            ApplicationExtensionParseError::Io(e) => io_error(
                "io error during application extension read",
                e,
            ),
            ApplicationExtensionParseError::InvalidBlockSize(got) => {
                GIFParseError::UnexpectedBlockSize { got, expected: 11 }
            },
        }
    }
}

/// The error of image operations in general.
#[derive(Debug, Clone, Copy, PartialEq, Eq, Structural)]
pub enum ImageError {
    /// The input does not follow the format.
    Decoding,
    /// The image cannot be written in the format.
    Encoding,
    /// An argument is out of range.
    Parameter,
    /// The operation would take more resources than allowed.
    Limits,
    /// The operation is not supported.
    Unsupported,
    /// Reading or writing failed.
    IoError(IoError),
}

/// Errors of decoding frame by frame.
#[derive(Debug)]
pub enum GIFDecodeError {
    Io { reason: String, cause: Option<IoError> },
    UnkownSignature(String),
    UnkownVersion(String),
    UnknownBlockType(u8),
    InvalidBlockSize { expected: u8, size: u8 },
    UnexpectedBlockType { reason: String },
    ImageParse { reason: String, cause: ImageParseError },
    Animation { reason: String },
}

/// What can go wrong when drawing an image.
#[derive(Debug)]
pub enum ImageParseError {
    LZWError { reason: String },
    ColorOutOfBounds(u8),
    DataOutOfBounds(u16, u16),
}

} // verus!
