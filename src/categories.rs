//! Block separators, extension labels and their categories.

use vstd::prelude::*;
use crate::gif::Version;

verus! {

/// A block of the GIF grammar.
pub trait Block {
    /// Size of the block's fixed part in bytes.
    fn block_size() -> usize;

    /// The first GIF version that has the block.
    fn version() -> Version;
}

/// A block introduced by a label byte.
pub trait LabeledBlock: Block {
    spec fn spec_label() -> BlockLabel;

    fn label() -> (r: BlockLabel)
        ensures
            r == Self::spec_label(),
    ;

    /// The category of the block's label.
    fn block_label_type() -> (r: BlockLabelType)
        ensures
            r == label_category(Self::spec_label()),
    {
        BlockLabelType::of_label(Self::label())
    }
}

/// The byte that opens each block after the header.
#[derive(Debug, Clone, Copy, PartialEq, Eq, Structural)]
pub enum BlockSeparator {
    /// `0x2C`: an image descriptor.
    Image,
    /// `0x3B`: the end of the stream.
    Trailer,
    /// `0x21`: an extension.
    Extension,
}

/// The separator that the byte `value` stands for.
pub open spec fn separator_of(value: u8) -> Option<BlockSeparator> {
    if value == 0x2C {
        Some(BlockSeparator::Image)
    } else if value == 0x3B {
        Some(BlockSeparator::Trailer)
    } else if value == 0x21 {
        Some(BlockSeparator::Extension)
    } else {
        None
    }
}

/// Whether a block that opens with `sep` may be of category `check`.
pub open spec fn separator_allows(sep: BlockSeparator, check: BlockLabelType) -> bool {
    match sep {
        BlockSeparator::Image => check == BlockLabelType::Graphic,
        BlockSeparator::Trailer => check == BlockLabelType::Trailer,
        BlockSeparator::Extension => check != BlockLabelType::Trailer,
    }
}

impl BlockSeparator {
    pub fn try_from_u8(value: u8) -> (r: Option<BlockSeparator>)
        ensures
            r == separator_of(value),
    {
        match value {
            0x2C => Some(BlockSeparator::Image),
            0x3B => Some(BlockSeparator::Trailer),
            0x21 => Some(BlockSeparator::Extension),
            _ => None,
        }
    }

    /// Whether a block opened by this separator can be of category `check`:
    /// an image is a graphic block, the trailer is the trailer, and an
    /// extension can be anything but the trailer.
    pub fn can_be_type(&self, check: BlockLabelType) -> (r: bool)
        ensures
            r == separator_allows(*self, check),
    {
        match self {
            BlockSeparator::Image => check == BlockLabelType::Graphic,
            BlockSeparator::Trailer => check == BlockLabelType::Trailer,
            BlockSeparator::Extension => check != BlockLabelType::Trailer,
        }
    }
}

/// The separator of a labelled block.
pub open spec fn separator_of_label(value: BlockLabel) -> BlockSeparator {
    match value {
        BlockLabel::ImageDescriptor => BlockSeparator::Image,
        BlockLabel::Trailer => BlockSeparator::Trailer,
        _ => BlockSeparator::Extension,
    }
}

impl From<BlockLabel> for BlockSeparator {
    fn from(value: BlockLabel) -> (r: BlockSeparator) {
        match value {
            BlockLabel::ImageDescriptor => BlockSeparator::Image,
            BlockLabel::Trailer => BlockSeparator::Trailer,
            _ => BlockSeparator::Extension,
        }
    }
}

impl vstd::std_specs::convert::FromSpecImpl<BlockLabel> for BlockSeparator {
    open spec fn obeys_from_spec() -> bool {
        true
    }

    open spec fn from_spec(v: BlockLabel) -> BlockSeparator {
        separator_of_label(v)
    }
}

/// The categories of blocks.
#[derive(Debug, Clone, Copy, PartialEq, Eq, Structural)]
pub enum BlockLabelType {
    /// Blocks that draw: images and labels `0x00..=0x7F`.
    Graphic,
    /// The trailer `0x3B`.
    Trailer,
    /// Blocks that control drawing: labels `0x80..=0xF9`.
    Control,
    /// Blocks for other purposes: labels `0xFA..=0xFF`.
    SpecialPurpose,
}

/// The category of the label byte `value`.
pub open spec fn category_of(value: u8) -> BlockLabelType {
    if value == 0x3B {
        BlockLabelType::Trailer
    } else if value <= 0x7F {
        BlockLabelType::Graphic
    } else if value <= 0xF9 {
        BlockLabelType::Control
    } else {
        BlockLabelType::SpecialPurpose
    }
}

/// The category of a known label.
pub open spec fn label_category(value: BlockLabel) -> BlockLabelType {
    match value {
        BlockLabel::ImageDescriptor => BlockLabelType::Graphic,
        BlockLabel::PlainTextExtension => BlockLabelType::Graphic,
        BlockLabel::GraphicControlExtension => BlockLabelType::Control,
        BlockLabel::Trailer => BlockLabelType::Trailer,
        BlockLabel::CommentExtension => BlockLabelType::SpecialPurpose,
        BlockLabel::ApplicationExtension => BlockLabelType::SpecialPurpose,
    }
}

impl From<u8> for BlockLabelType {
    fn from(value: u8) -> (r: BlockLabelType) {
        match value {
            0x3B => BlockLabelType::Trailer,
            0x00..=0x7F => BlockLabelType::Graphic,
            0x80..=0xF9 => BlockLabelType::Control,
            0xFA..=0xFF => BlockLabelType::SpecialPurpose,
        }
    }
}

impl vstd::std_specs::convert::FromSpecImpl<u8> for BlockLabelType {
    open spec fn obeys_from_spec() -> bool {
        true
    }

    open spec fn from_spec(v: u8) -> BlockLabelType {
        category_of(v)
    }
}

impl BlockLabelType {
    /// The category of a known label.
    pub fn of_label(value: BlockLabel) -> (r: BlockLabelType)
        ensures
            r == label_category(value),
    {
        match value {
            BlockLabel::ImageDescriptor => BlockLabelType::Graphic,
            BlockLabel::PlainTextExtension => BlockLabelType::Graphic,
            BlockLabel::GraphicControlExtension => BlockLabelType::Control,
            BlockLabel::Trailer => BlockLabelType::Trailer,
            BlockLabel::CommentExtension => BlockLabelType::SpecialPurpose,
            BlockLabel::ApplicationExtension => BlockLabelType::SpecialPurpose,
        }
    }
}

/// The labels the decoder knows.
#[derive(Debug, Clone, Copy, PartialEq, Eq, Structural)]
#[non_exhaustive]
pub enum BlockLabel {
    /// `0x2C`
    ImageDescriptor,
    /// `0x01`
    PlainTextExtension,
    /// `0xF9`
    GraphicControlExtension,
    /// `0x3B`
    Trailer,
    /// `0xFE`
    CommentExtension,
    /// `0xFF`
    ApplicationExtension,
}

/// The known label that the byte `value` stands for.
pub open spec fn label_of(value: u8) -> Option<BlockLabel> {
    if value == 0x2C {
        Some(BlockLabel::ImageDescriptor)
    } else if value == 0x01 {
        Some(BlockLabel::PlainTextExtension)
    } else if value == 0xF9 {
        Some(BlockLabel::GraphicControlExtension)
    } else if value == 0x3B {
        Some(BlockLabel::Trailer)
    } else if value == 0xFE {
        Some(BlockLabel::CommentExtension)
    } else if value == 0xFF {
        Some(BlockLabel::ApplicationExtension)
    } else {
        None
    }
}

impl BlockLabel {
    pub fn try_from_u8(value: u8) -> (r: Option<BlockLabel>)
        ensures
            r == label_of(value),
    {
        match value {
            0x2C => Some(BlockLabel::ImageDescriptor),
            0x01 => Some(BlockLabel::PlainTextExtension),
            0xF9 => Some(BlockLabel::GraphicControlExtension),
            0x3B => Some(BlockLabel::Trailer),
            0xFE => Some(BlockLabel::CommentExtension),
            0xFF => Some(BlockLabel::ApplicationExtension),
            _ => None,
        }
    }

    /// Whether the label introduces an extension.
    pub fn is_extension(&self) -> (r: bool)
        ensures
            r == (separator_of_label(*self) == BlockSeparator::Extension),
    {
        match self {
            BlockLabel::PlainTextExtension
            | BlockLabel::GraphicControlExtension
            | BlockLabel::CommentExtension
            | BlockLabel::ApplicationExtension => true,
            _ => false,
        }
    }

    pub fn is_of_type(&self, label_type: BlockLabelType) -> (r: bool)
        ensures
            r == (label_category(*self) == label_type),
    {
        BlockLabelType::of_label(*self) == label_type
    }

    pub fn is_of_seperator_type(&self, descriminant: BlockSeparator) -> (r: bool)
        ensures
            r == (separator_of_label(*self) == descriminant),
    {
        BlockSeparator::from(*self) == descriminant
    }
}

/// The control blocks.
#[derive(Debug, Copy, Clone, PartialEq, Eq, Structural)]
pub enum ControlBlocks {
    GraphicsControlExtension,
    UnknownBlock,
}

/// The control block of a label, when the label is a control one.
pub open spec fn control_block_of(value: BlockLabel) -> Option<ControlBlocks> {
    if label_category(value) != BlockLabelType::Control {
        None
    } else if value == BlockLabel::GraphicControlExtension {
        Some(ControlBlocks::GraphicsControlExtension)
    } else {
        Some(ControlBlocks::UnknownBlock)
    }
}

impl ControlBlocks {
    pub fn try_from_label(value: BlockLabel) -> (r: Option<ControlBlocks>)
        ensures
            r == control_block_of(value),
    {
        if BlockLabelType::of_label(value) != BlockLabelType::Control {
            return None;
        }
        match value {
            BlockLabel::GraphicControlExtension => Some(ControlBlocks::GraphicsControlExtension),
            _ => Some(ControlBlocks::UnknownBlock),
        }
    }
}

/// The graphic rendering blocks.
#[derive(Debug, Copy, Clone, PartialEq, Eq, Structural)]
pub enum GraphicRenderingBlocks {
    TableBasedImage,
    PlainTextExtension,
    UnknownBlock,
}

/// The graphic block of a label, when the label is a graphic one.
pub open spec fn graphic_block_of(value: BlockLabel) -> Option<GraphicRenderingBlocks> {
    if label_category(value) != BlockLabelType::Graphic {
        None
    } else if value == BlockLabel::ImageDescriptor {
        Some(GraphicRenderingBlocks::TableBasedImage)
    } else if value == BlockLabel::PlainTextExtension {
        Some(GraphicRenderingBlocks::PlainTextExtension)
    } else {
        Some(GraphicRenderingBlocks::UnknownBlock)
    }
}

impl GraphicRenderingBlocks {
    /// Whether the block is introduced as an extension (`0x21`): all but the image.
    pub fn is_extension(self) -> (r: bool)
        ensures
            r == (self != GraphicRenderingBlocks::TableBasedImage),
    {
        self != GraphicRenderingBlocks::TableBasedImage
    }

    pub fn try_from_label(value: BlockLabel) -> (r: Option<GraphicRenderingBlocks>)
        ensures
            r == graphic_block_of(value),
    {
        if BlockLabelType::of_label(value) != BlockLabelType::Graphic {
            return None;
        }
        Some(
            match value {
                BlockLabel::ImageDescriptor => GraphicRenderingBlocks::TableBasedImage,
                BlockLabel::PlainTextExtension => GraphicRenderingBlocks::PlainTextExtension,
                _ => GraphicRenderingBlocks::UnknownBlock,
            },
        )
    }
}

/// The special purpose blocks.
#[derive(Debug, Copy, Clone, PartialEq, Eq, Structural)]
pub enum SpecialPurposeBlocks {
    UnknownBlock,
    CommentExtension,
    ApplicationExtension,
}

/// The special purpose block of a label, when the label is such a one.
pub open spec fn special_block_of(value: BlockLabel) -> Option<SpecialPurposeBlocks> {
    if label_category(value) != BlockLabelType::SpecialPurpose {
        None
    } else if value == BlockLabel::CommentExtension {
        Some(SpecialPurposeBlocks::CommentExtension)
    } else if value == BlockLabel::ApplicationExtension {
        Some(SpecialPurposeBlocks::ApplicationExtension)
    } else {
        Some(SpecialPurposeBlocks::UnknownBlock)
    }
}

impl SpecialPurposeBlocks {
    /// Special purpose blocks are all introduced as extensions (`0x21`).
    pub fn is_extension(self) -> (r: bool)
        ensures
            r,
    {
        true
    }

    pub fn try_from_label(value: BlockLabel) -> (r: Option<SpecialPurposeBlocks>)
        ensures
            r == special_block_of(value),
    {
        if BlockLabelType::of_label(value) != BlockLabelType::SpecialPurpose {
            return None;
        }
        Some(
            match value {
                BlockLabel::CommentExtension => SpecialPurposeBlocks::CommentExtension,
                BlockLabel::ApplicationExtension => SpecialPurposeBlocks::ApplicationExtension,
                _ => SpecialPurposeBlocks::UnknownBlock,
            },
        )
    }
}

/// The extensions of GIF89a.
#[derive(Debug, Copy, Clone, PartialEq, Eq, Structural)]
pub enum ExtensionType {
    GraphicControlExtension,
    ApplicationExtension,
    CommentExtension,
    PlainTextExtension,
}

/// The extension that the label byte `x` stands for.
pub open spec fn extension_of(x: u8) -> Option<ExtensionType> {
    if x == 0xFF {
        Some(ExtensionType::ApplicationExtension)
    } else if x == 0xFE {
        Some(ExtensionType::CommentExtension)
    } else if x == 0xF9 {
        Some(ExtensionType::GraphicControlExtension)
    } else if x == 0x01 {
        Some(ExtensionType::PlainTextExtension)
    } else {
        None
    }
}

impl ExtensionType {
    pub fn from_u8(x: u8) -> (r: Option<ExtensionType>)
        ensures
            r == extension_of(x),
    {
        match x {
            0xFF => Some(ExtensionType::ApplicationExtension),
            0xFE => Some(ExtensionType::CommentExtension),
            0xF9 => Some(ExtensionType::GraphicControlExtension),
            0x01 => Some(ExtensionType::PlainTextExtension),
            _ => None,
        }
    }
}

} // verus!
