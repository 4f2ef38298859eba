//! The GIF89a grammar driver: a state machine that reads one block per
//! state and composes the images onto one canvas.

use vstd::prelude::*;
use vstd::utf8::{valid_utf8, decode_utf8, is_ascii_chars};
use crate::blocks::{
    ApplicationExtension, ColorTable, ColorTableLookup, CommentExtension, GraphicControlExtension,
    Header, LogicalScreenDescriptor, PlainTextExtension, TableBasedImage, descriptor_of, flag_set,
    image_data_start, signature_bytes, utf8_text, table_at, stream_color, table_entries, table_from_stream, version_of,
};
use crate::lzw::lzw_decode_spec;
use crate::categories::{
    BlockLabel, BlockLabelType, BlockSeparator, ControlBlocks, GraphicRenderingBlocks,
    SpecialPurposeBlocks, category_of, control_block_of, graphic_block_of, label_of,
    separator_allows, separator_of, special_block_of,
};
use crate::colors::RGB;
use crate::errors::GIFParseError;
use crate::generic_image::{GenericImage, GenericImageMut, in_rect};
use crate::gif::{GIFImage, Version};
use crate::image_buffer::ImageBuffer;
use crate::pixel::Pixel;
use crate::ringbuf::RingBuffer;
use crate::stream::{ByteReader, le16, skip_subblock, lemma_subblock_chain_advances, subblock_chain};

verus! {

/// Where the decoder stands in the GIF grammar: what it reads next.
#[derive(Debug, Copy, Clone, PartialEq, Eq, Structural)]
pub enum ReadNext {
    /// The six header bytes.
    Header,
    /// The logical screen descriptor.
    LogicalScreenDescriptor,
    /// The global colour table, with its size flag and sort flag.
    GlobalColorTable(u8, bool),
    /// The byte that opens the next block; `Some(category)` when only blocks
    /// of that category may follow.
    BlockType(Option<BlockLabelType>),
    /// The label of an extension, under the same restriction.
    ExtensionType(Option<BlockLabelType>),
    /// A control block.
    ControlBlock(ControlBlocks),
    /// A graphic rendering block.
    GraphicsBlock(GraphicRenderingBlocks),
    /// A special purpose block.
    SpecialPurposeBlock(SpecialPurposeBlocks),
    /// The trailer was read.
    End,
}

/// How many states at most lie between `state` and the next byte read.
pub open spec fn state_rank(state: ReadNext) -> int {
    match state {
        ReadNext::Header => 9,
        ReadNext::LogicalScreenDescriptor => 8,
        ReadNext::GlobalColorTable(_, _) => 7,
        ReadNext::BlockType(_) => 3,
        ReadNext::ExtensionType(_) => 2,
        ReadNext::End => 0,
        _ => 1,
    }
}

/// The state after an extension label `b` under restriction `restriction`,
/// or `None` when the label is not allowed there.
pub open spec fn extension_transition(b: u8, restriction: Option<BlockLabelType>) -> Option<ReadNext> {
    let t = category_of(b);
    if restriction matches Some(x) && t != x {
        None
    } else {
        match t {
            // the image separator is no extension label: such a label is an
            // unknown graphic extension
            BlockLabelType::Graphic => Some(
                ReadNext::GraphicsBlock(
                    if b == 0x01 {
                        GraphicRenderingBlocks::PlainTextExtension
                    } else {
                        GraphicRenderingBlocks::UnknownBlock
                    },
                ),
            ),
            BlockLabelType::Control => Some(
                ReadNext::ControlBlock(
                    match label_of(b) {
                        Some(l) => control_block_of(l)->Some_0,
                        None => ControlBlocks::UnknownBlock,
                    },
                ),
            ),
            BlockLabelType::SpecialPurpose => Some(
                ReadNext::SpecialPurposeBlock(
                    match label_of(b) {
                        Some(l) => special_block_of(l)->Some_0,
                        None => SpecialPurposeBlocks::UnknownBlock,
                    },
                ),
            ),
            BlockLabelType::Trailer => None,
        }
    }
}

/// The state after a block separator `b` under restriction `restriction`,
/// or `None` when the separator is unknown or not allowed there.
pub open spec fn block_transition(b: u8, restriction: Option<BlockLabelType>) -> Option<ReadNext> {
    match separator_of(b) {
        None => None,
        Some(sep) => {
            if restriction matches Some(x) && (!separator_allows(sep, x) || sep
                == BlockSeparator::Trailer) {
                None
            } else {
                Some(
                    match sep {
                        BlockSeparator::Image => ReadNext::GraphicsBlock(
                            GraphicRenderingBlocks::TableBasedImage,
                        ),
                        BlockSeparator::Extension => ReadNext::ExtensionType(restriction),
                        BlockSeparator::Trailer => ReadNext::End,
                    },
                )
            }
        },
    }
}

/// The colour of palette index `i` in `table`, black past its end.
pub open spec fn table_color(table: ColorTable, i: u8) -> Seq<u8> {
    if i < table.spec_size() {
        table.spec_entry(i as int)
    } else {
        seq![0u8, 0u8, 0u8]
    }
}


/// Whether a canvas of `w` x `h` RGB pixels can be addressed on this machine.
pub open spec fn canvas_fits(w: u16, h: u16) -> bool {
    w * h * 3 <= usize::MAX
}

/// The logical screen's width and height, from the descriptor after the header.
pub open spec fn screen_of(s: Seq<u8>) -> (u16, u16) {
    (le16(s[6], s[7]), le16(s[8], s[9]))
}

/// Where reading and drawing the table-based image at `pos` ends, or `None`
/// when it fails: the stream ends, the LZW data is invalid, it holds fewer
/// indices than the image has pixels, or the canvas cannot be addressed.
pub open spec fn image_step(s: Seq<u8>, pos: nat) -> Option<nat> {
    let d = descriptor_of(s.subrange(pos as int, (pos + 9) as int));
    let start = image_data_start(s, pos);
    if pos + 9 > s.len() || start >= s.len() || subblock_chain(s, start + 1) is None {
        None
    } else {
        let (data, end) = subblock_chain(s, start + 1)->Some_0;
        match lzw_decode_spec(data, s[start as int] as nat) {
            Err(_) => None,
            Ok(indices) => {
                if indices.len() >= d.image_width * d.image_height && canvas_fits(
                    screen_of(s).0,
                    screen_of(s).1,
                ) {
                    Some(end)
                } else {
                    None
                }
            },
        }
    }
}

/// Whether the plain text extension at `pos` reads (as ASCII when `strict`).
pub open spec fn plain_text_ok(s: Seq<u8>, pos: nat, strict: bool) -> bool {
    &&& pos + 13 <= s.len()
    &&& s[pos as int] == 12
    &&& subblock_chain(s, pos + 13) is Some
    &&& valid_utf8(subblock_chain(s, pos + 13)->Some_0.0)
    &&& strict ==> is_ascii_chars(decode_utf8(subblock_chain(s, pos + 13)->Some_0.0))
}

/// One step of the GIF grammar: the state after the block that state `g`
/// reads at `pos`, and the position after it; `None` when the block is not
/// there or not allowed.
pub open spec fn gif_step(s: Seq<u8>, g: ReadNext, pos: nat, strict: bool) -> Option<(ReadNext, nat)> {
    match g {
        ReadNext::Header => {
            if pos + 6 <= s.len() && s.subrange(pos as int, (pos + 3) as int) == signature_bytes() && version_of(
                s.subrange((pos + 3) as int, (pos + 6) as int),
            ) is Some {
                Some((ReadNext::LogicalScreenDescriptor, pos + 6))
            } else {
                None
            }
        },
        ReadNext::LogicalScreenDescriptor => {
            if pos + 7 <= s.len() {
                let f = s[(pos + 4) as int];
                Some(
                    (
                        if flag_set(f, 128) {
                            ReadNext::GlobalColorTable(f % 8, flag_set(f, 8))
                        } else {
                            ReadNext::BlockType(None)
                        },
                        pos + 7,
                    ),
                )
            } else {
                None
            }
        },
        ReadNext::GlobalColorTable(size, _) => {
            if size <= 7 && pos + 3 * table_entries(size as nat) <= s.len() {
                Some((ReadNext::BlockType(None), pos + 3 * table_entries(size as nat)))
            } else {
                None
            }
        },
        ReadNext::BlockType(restriction) => {
            if pos < s.len() {
                match block_transition(s[pos as int], restriction) {
                    Some(next) => Some((next, pos + 1)),
                    None => None,
                }
            } else {
                None
            }
        },
        ReadNext::ExtensionType(restriction) => {
            if pos < s.len() {
                match extension_transition(s[pos as int], restriction) {
                    Some(next) => Some((next, pos + 1)),
                    None => None,
                }
            } else {
                None
            }
        },
        ReadNext::ControlBlock(ControlBlocks::GraphicsControlExtension) => {
            if pos + 6 <= s.len() && s[pos as int] == 4 && s[(pos + 5) as int] == 0 {
                Some((ReadNext::BlockType(Some(BlockLabelType::Graphic)), pos + 6))
            } else {
                None
            }
        },
        ReadNext::ControlBlock(ControlBlocks::UnknownBlock)
        | ReadNext::GraphicsBlock(GraphicRenderingBlocks::UnknownBlock)
        | ReadNext::SpecialPurposeBlock(SpecialPurposeBlocks::UnknownBlock) => {
            match subblock_chain(s, pos) {
                Some((_, e)) => Some((ReadNext::BlockType(None), e)),
                None => None,
            }
        },
        ReadNext::GraphicsBlock(GraphicRenderingBlocks::TableBasedImage) => {
            match image_step(s, pos) {
                Some(e) => Some((ReadNext::BlockType(None), e)),
                None => None,
            }
        },
        ReadNext::GraphicsBlock(GraphicRenderingBlocks::PlainTextExtension) => {
            if plain_text_ok(s, pos, strict) {
                Some((ReadNext::BlockType(None), subblock_chain(s, pos + 13)->Some_0.1))
            } else {
                None
            }
        },
        ReadNext::SpecialPurposeBlock(SpecialPurposeBlocks::CommentExtension) => {
            match subblock_chain(s, pos) {
                Some((t, e)) => if valid_utf8(t) {
                    Some((ReadNext::BlockType(None), e))
                } else {
                    None
                },
                None => None,
            }
        },
        ReadNext::SpecialPurposeBlock(SpecialPurposeBlocks::ApplicationExtension) => {
            if pos + 12 <= s.len() && s[pos as int] == 11 && subblock_chain(s, pos + 12) is Some {
                Some((ReadNext::BlockType(None), subblock_chain(s, pos + 12)->Some_0.1))
            } else {
                None
            }
        },
        ReadNext::End => None,
    }
}

/// Whether the grammar, from state `g` at `pos`, reaches the trailer within
/// `fuel` steps, with a canvas of the logical screen's size addressable.
pub open spec fn gif_run(s: Seq<u8>, g: ReadNext, pos: nat, strict: bool, fuel: nat) -> bool
    decreases fuel,
{
    if g == ReadNext::End {
        canvas_fits(screen_of(s).0, screen_of(s).1)
    } else if fuel == 0 {
        false
    } else {
        match gif_step(s, g, pos, strict) {
            None => false,
            Some((next, at)) => gif_run(s, next, at, strict, (fuel - 1) as nat),
        }
    }
}

/// Whether the stream, from state `g` at `pos`, is read to its trailer.
pub open spec fn gif_accepts_from(s: Seq<u8>, g: ReadNext, pos: nat, strict: bool) -> bool {
    exists|fuel: nat| gif_run(s, g, pos, strict, fuel)
}

/// Whether `s` is a GIF stream that decodes.
pub open spec fn gif_accepts(s: Seq<u8>, strict: bool) -> bool {
    gif_accepts_from(s, ReadNext::Header, 0, strict)
}

/// A successful step leaves the outcome unchanged.
pub proof fn lemma_accepts_step(s: Seq<u8>, g: ReadNext, pos: nat, strict: bool)
    requires
        g != ReadNext::End,
        gif_step(s, g, pos, strict) is Some,
    ensures
        gif_accepts_from(s, g, pos, strict) == gif_accepts_from(
            s,
            gif_step(s, g, pos, strict)->Some_0.0,
            gif_step(s, g, pos, strict)->Some_0.1,
            strict,
        ),
{
    let (next, at) = gif_step(s, g, pos, strict)->Some_0;
    if gif_accepts_from(s, g, pos, strict) {
        let fuel = choose|fuel: nat| gif_run(s, g, pos, strict, fuel);
        assert(gif_run(s, next, at, strict, (fuel - 1) as nat));
    }
    if gif_accepts_from(s, next, at, strict) {
        let fuel = choose|fuel: nat| gif_run(s, next, at, strict, fuel);
        assert(gif_run(s, g, pos, strict, fuel + 1));
    }
}

/// A failing step rejects the stream.
pub proof fn lemma_rejects_step(s: Seq<u8>, g: ReadNext, pos: nat, strict: bool)
    requires
        g != ReadNext::End,
        gif_step(s, g, pos, strict) is None,
    ensures
        !gif_accepts_from(s, g, pos, strict),
{
    assert forall|fuel: nat| !gif_run(s, g, pos, strict, fuel) by {}
}

/// The error of the table-based image at `pos` when it cannot be read or
/// drawn.
pub open spec fn image_error(s: Seq<u8>, pos: nat, e: GIFParseError) -> bool {
    let d = descriptor_of(s.subrange(pos as int, (pos + 9) as int));
    let start = image_data_start(s, pos);
    if pos + 9 > s.len() {
        e is Io
    } else if flag_set(d.flags, 128) && s.len() < start {
        e is InvalidColorTable
    } else if start >= s.len() || subblock_chain(s, start + 1) is None {
        e is Io
    } else {
        match lzw_decode_spec(subblock_chain(s, start + 1)->Some_0.0, s[start as int] as nat) {
            Err(x) => e == GIFParseError::InvalidLZWCode(x),
            Ok(_) => e == GIFParseError::ImageDataError,
        }
    }
}

/// The error of the plain text extension at `pos` when it cannot be read.
pub open spec fn plain_text_error(s: Seq<u8>, pos: nat, e: GIFParseError) -> bool {
    if pos + 13 > s.len() {
        e is Io
    } else if s[pos as int] != 12 {
        e is UnexpectedBlockSize
    } else if subblock_chain(s, pos + 13) is None {
        e is Io
    } else {
        e == GIFParseError::InvalidText
    }
}

/// The error that state `g` gives at `pos` when its block cannot be read
/// or is not allowed there.
pub open spec fn step_error(s: Seq<u8>, g: ReadNext, pos: nat, e: GIFParseError) -> bool {
    match g {
        ReadNext::Header => {
            if pos + 6 > s.len() {
                e is Io
            } else if s.subrange(pos as int, (pos + 3) as int) != signature_bytes() {
                e is UnknownSignature && e->UnknownSignature_0@ == utf8_text(
                    s.subrange(pos as int, (pos + 3) as int),
                )
            } else {
                e is UnknownVersion && e->UnknownVersion_0@ == utf8_text(
                    s.subrange((pos + 3) as int, (pos + 6) as int),
                )
            }
        },
        ReadNext::LogicalScreenDescriptor => e is Io,
        ReadNext::GlobalColorTable(_, _) => e is InvalidColorTable,
        ReadNext::BlockType(_) => {
            if pos >= s.len() {
                e is Io
            } else {
                e == GIFParseError::UnexpectedBlockDiscriminant(s[pos as int])
            }
        },
        ReadNext::ExtensionType(_) => {
            if pos >= s.len() {
                e is Io
            } else {
                e == GIFParseError::UnexpectedExtensionLabel(s[pos as int])
            }
        },
        ReadNext::ControlBlock(ControlBlocks::GraphicsControlExtension) => {
            if pos + 6 > s.len() {
                e is Io
            } else if s[pos as int] != 4 {
                e == (GIFParseError::UnexpectedBlockSize { got: s[pos as int], expected: 4 })
            } else {
                e == GIFParseError::InvalidBlockTerminator
            }
        },
        ReadNext::GraphicsBlock(GraphicRenderingBlocks::TableBasedImage) => image_error(s, pos, e),
        ReadNext::GraphicsBlock(GraphicRenderingBlocks::PlainTextExtension) => plain_text_error(
            s,
            pos,
            e,
        ),
        ReadNext::SpecialPurposeBlock(SpecialPurposeBlocks::CommentExtension) => {
            if subblock_chain(s, pos) is None {
                e is Io
            } else {
                e == GIFParseError::InvalidText
            }
        },
        ReadNext::SpecialPurposeBlock(SpecialPurposeBlocks::ApplicationExtension) => {
            if pos + 12 > s.len() || (s[pos as int] == 11 && subblock_chain(s, pos + 12) is None) {
                e is Io
            } else {
                e == (GIFParseError::UnexpectedBlockSize { got: s[pos as int], expected: 11 })
            }
        },
        ReadNext::End => e == GIFParseError::ImageDataError,
        // the unknown blocks, whose sub-blocks are skipped
        _ => e is Io,
    }
}

/// Whether the grammar, from state `g` at `pos`, fails within `fuel` steps
/// with the error `e`: the error of the first block that cannot be read, or
/// of a canvas that cannot be addressed at the trailer.
pub open spec fn gif_fail(s: Seq<u8>, g: ReadNext, pos: nat, strict: bool, fuel: nat, e: GIFParseError) -> bool
    decreases fuel,
{
    if g == ReadNext::End {
        !canvas_fits(screen_of(s).0, screen_of(s).1) && step_error(s, g, pos, e)
    } else if fuel == 0 {
        false
    } else {
        match gif_step(s, g, pos, strict) {
            None => step_error(s, g, pos, e),
            Some((next, at)) => gif_fail(s, next, at, strict, (fuel - 1) as nat, e),
        }
    }
}

/// Whether decoding `s` fails with the error `e`.
pub open spec fn gif_rejects_with(s: Seq<u8>, strict: bool, e: GIFParseError) -> bool {
    exists|fuel: nat| gif_fail(s, ReadNext::Header, 0, strict, fuel, e)
}

/// A canvas as the colour of each pixel.
pub type Canvas = spec_fn(int, int) -> Seq<u8>;

/// The colour of pixel `(i, j)` of `canvas`.
pub open spec fn canvas_pixel(canvas: Canvas, i: int, j: int) -> Seq<u8> {
    canvas(i, j)
}

/// The canvas with every pixel black.
pub open spec fn black_canvas() -> Canvas {
    |i: int, j: int| seq![0u8, 0u8, 0u8]
}

/// Colour `i` of the table of `2^(flag + 1)` entries stored in `s` from
/// `start` on, black past its end.
pub open spec fn stream_table_color(s: Seq<u8>, start: int, flag: nat, i: u8) -> Seq<u8> {
    if i < table_entries(flag) {
        s.subrange(start + 3 * i, start + 3 * i + 3)
    } else {
        seq![0u8, 0u8, 0u8]
    }
}

/// The colour of palette index `i` in the image at `pos`: through its local
/// table, else the global table after the logical screen descriptor, else
/// the default table; black when there is none.
pub open spec fn image_color(s: Seq<u8>, pos: nat, default: Option<ColorTable>, i: u8) -> Seq<u8> {
    let d = descriptor_of(s.subrange(pos as int, (pos + 9) as int));
    if flag_set(d.flags, 128) {
        stream_table_color(s, (pos + 9) as int, (d.flags % 8) as nat, i)
    } else if flag_set(s[10], 128) {
        stream_table_color(s, 13, (s[10] % 8) as nat, i)
    } else {
        match default {
            Some(t) => table_color(t, i),
            None => seq![0u8, 0u8, 0u8],
        }
    }
}

/// `canvas` after the image at `pos` was drawn onto it, row by row.
pub open spec fn draw_image(s: Seq<u8>, pos: nat, default: Option<ColorTable>, canvas: Canvas) -> Canvas {
    let d = descriptor_of(s.subrange(pos as int, (pos + 9) as int));
    let start = image_data_start(s, pos);
    let indices = lzw_decode_spec(subblock_chain(s, start + 1)->Some_0.0, s[start as int] as nat)->Ok_0;
    |i: int, j: int|
        if in_rect(
            i,
            j,
            d.image_left_position as int,
            d.image_top_position as int,
            d.image_width as int,
            d.image_height as int,
        ) {
            image_color(
                s,
                pos,
                default,
                indices[(j - d.image_top_position) * d.image_width + (i - d.image_left_position)],
            )
        } else {
            canvas(i, j)
        }
}

/// The canvas after the grammar ran from state `g` at `pos` for at most
/// `fuel` steps, starting from `canvas`: each image drawn in turn.
pub open spec fn gif_canvas_run(
    s: Seq<u8>,
    g: ReadNext,
    pos: nat,
    strict: bool,
    default: Option<ColorTable>,
    fuel: nat,
    canvas: Canvas,
) -> Canvas
    decreases fuel,
{
    if g == ReadNext::End || fuel == 0 {
        canvas
    } else {
        match gif_step(s, g, pos, strict) {
            None => canvas,
            Some((next, at)) => gif_canvas_run(
                s,
                next,
                at,
                strict,
                default,
                (fuel - 1) as nat,
                if g == ReadNext::GraphicsBlock(GraphicRenderingBlocks::TableBasedImage) {
                    draw_image(s, pos, default, canvas)
                } else {
                    canvas
                },
            ),
        }
    }
}

/// The canvas that decoding `s` gives: a black canvas with every image of
/// the stream drawn onto it.
pub open spec fn gif_canvas(s: Seq<u8>, strict: bool, default: Option<ColorTable>) -> Canvas {
    let fuel = choose|fuel: nat| gif_run(s, ReadNext::Header, 0, strict, fuel);
    gif_canvas_run(s, ReadNext::Header, 0, strict, default, fuel, black_canvas())
}

/// Two runs that both reach the trailer draw the same canvas, and canvases
/// that agree on the screen stay in agreement.
proof fn lemma_canvas_run_agrees(
    s: Seq<u8>,
    g: ReadNext,
    pos: nat,
    strict: bool,
    default: Option<ColorTable>,
    f1: nat,
    f2: nat,
    c1: Canvas,
    c2: Canvas,
    w: int,
    h: int,
)
    requires
        gif_run(s, g, pos, strict, f1),
        gif_run(s, g, pos, strict, f2),
        forall|i: int, j: int|
            0 <= i < w && 0 <= j < h ==> #[trigger] canvas_pixel(c1, i, j) == canvas_pixel(c2, i, j),
    ensures
        forall|i: int, j: int|
            0 <= i < w && 0 <= j < h ==> #[trigger] canvas_pixel(
                gif_canvas_run(s, g, pos, strict, default, f1, c1),
                i,
                j,
            ) == canvas_pixel(gif_canvas_run(s, g, pos, strict, default, f2, c2), i, j),
    decreases f1,
{
    if g != ReadNext::End {
        let (next, at) = gif_step(s, g, pos, strict)->Some_0;
        let is_image = g == ReadNext::GraphicsBlock(GraphicRenderingBlocks::TableBasedImage);
        let d1 = if is_image {
            draw_image(s, pos, default, c1)
        } else {
            c1
        };
        let d2 = if is_image {
            draw_image(s, pos, default, c2)
        } else {
            c2
        };
        assert forall|i: int, j: int| 0 <= i < w && 0 <= j < h implies #[trigger] canvas_pixel(d1, i, j)
            == canvas_pixel(d2, i, j) by {
            assert(canvas_pixel(c1, i, j) == canvas_pixel(c2, i, j));
        }
        assert(gif_canvas_run(s, g, pos, strict, default, f1, c1) == gif_canvas_run(
            s,
            next,
            at,
            strict,
            default,
            (f1 - 1) as nat,
            d1,
        ));
        assert(gif_canvas_run(s, g, pos, strict, default, f2, c2) == gif_canvas_run(
            s,
            next,
            at,
            strict,
            default,
            (f2 - 1) as nat,
            d2,
        ));
        lemma_canvas_run_agrees(
            s,
            next,
            at,
            strict,
            default,
            (f1 - 1) as nat,
            (f2 - 1) as nat,
            d1,
            d2,
            w,
            h,
        );
    }
}

/// A table read from the stream gives the colours stored there.
proof fn lemma_table_at_color(t: ColorTable, s: Seq<u8>, start: int, flag: nat, i: u8)
    requires
        flag < 8,
        table_at(t, s, start, flag),
    ensures
        table_color(t, i) == stream_table_color(s, start, flag, i),
{
    vstd::arithmetic::power2::lemma2_to64();
    if flag < 7 {
        vstd::arithmetic::power2::lemma_pow2_strictly_increases(flag + 1, 8);
    }
    if i < table_entries(flag) {
        assert(t.data@[i as int].0@ == s.subrange(start + 3 * i, start + 3 * i + 3));
    }
}

/// The tables that the decoder holds give the colours that the stream stores.
proof fn lemma_palette_image_color(
    s: Seq<u8>,
    pos: nat,
    local: Option<ColorTable>,
    global: Option<ColorTable>,
    default: Option<ColorTable>,
    i: u8,
)
    requires
        s.len() >= 13,
        (local is Some <==> flag_set(descriptor_of(s.subrange(pos as int, (pos + 9) as int)).flags, 128)),
        local matches Some(t) ==> table_at(
            t,
            s,
            (pos + 9) as int,
            (descriptor_of(s.subrange(pos as int, (pos + 9) as int)).flags % 8) as nat,
        ),
        (global is Some <==> flag_set(s[10], 128)),
        global matches Some(t) ==> table_at(t, s, 13, (s[10] % 8) as nat),
    ensures
        palette_color(local, global, default, i) == image_color(s, pos, default, i),
{
    let d = descriptor_of(s.subrange(pos as int, (pos + 9) as int));
    match local {
        Some(t) => lemma_table_at_color(t, s, (pos + 9) as int, (d.flags % 8) as nat, i),
        None => match global {
            Some(t) => lemma_table_at_color(t, s, 13, (s[10] % 8) as nat, i),
            None => {},
        },
    }
}

/// Every run from state `g` at `pos` that reaches the trailer turns `canvas`
/// into the canvas that decoding gives, on the logical screen.
pub open spec fn canvas_matches(
    s: Seq<u8>,
    g: ReadNext,
    pos: nat,
    strict: bool,
    default: Option<ColorTable>,
    canvas: Canvas,
) -> bool {
    forall|fuel: nat|
        #[trigger] gif_run(s, g, pos, strict, fuel) ==> forall|i: int, j: int|
            0 <= i < screen_of(s).0 && 0 <= j < screen_of(s).1 ==> #[trigger] canvas_pixel(
                gif_canvas_run(s, g, pos, strict, default, fuel, canvas),
                i,
                j,
            ) == canvas_pixel(gif_canvas(s, strict, default), i, j)
}

/// A black canvas before the header turns into the decoded canvas.
proof fn lemma_canvas_start(s: Seq<u8>, strict: bool, default: Option<ColorTable>)
    ensures
        canvas_matches(s, ReadNext::Header, 0, strict, default, black_canvas()),
{
    assert forall|fuel: nat| #[trigger] gif_run(s, ReadNext::Header, 0, strict, fuel) implies forall|
        i: int,
        j: int,
    |
        0 <= i < screen_of(s).0 && 0 <= j < screen_of(s).1 ==> #[trigger] canvas_pixel(
            gif_canvas_run(s, ReadNext::Header, 0, strict, default, fuel, black_canvas()),
            i,
            j,
        ) == canvas_pixel(gif_canvas(s, strict, default), i, j) by {
        let big = choose|f: nat| gif_run(s, ReadNext::Header, 0, strict, f);
        lemma_canvas_run_agrees(
            s,
            ReadNext::Header,
            0,
            strict,
            default,
            fuel,
            big,
            black_canvas(),
            black_canvas(),
            screen_of(s).0 as int,
            screen_of(s).1 as int,
        );
    }
}

/// A step of the grammar keeps the canvas on course: the new canvas is the
/// old one, with the image drawn when the step read one.
proof fn lemma_canvas_step(
    s: Seq<u8>,
    g: ReadNext,
    pos: nat,
    strict: bool,
    default: Option<ColorTable>,
    c0: Canvas,
    c1: Canvas,
)
    requires
        g != ReadNext::End,
        gif_step(s, g, pos, strict) is Some,
        canvas_matches(s, g, pos, strict, default, c0),
        forall|i: int, j: int|
            0 <= i < screen_of(s).0 && 0 <= j < screen_of(s).1 ==> #[trigger] canvas_pixel(c1, i, j)
                == canvas_pixel(
                if g == ReadNext::GraphicsBlock(GraphicRenderingBlocks::TableBasedImage) {
                    draw_image(s, pos, default, c0)
                } else {
                    c0
                },
                i,
                j,
            ),
    ensures
        canvas_matches(
            s,
            gif_step(s, g, pos, strict)->Some_0.0,
            gif_step(s, g, pos, strict)->Some_0.1,
            strict,
            default,
            c1,
        ),
{
    let (next, at) = gif_step(s, g, pos, strict)->Some_0;
    let drawn = if g == ReadNext::GraphicsBlock(GraphicRenderingBlocks::TableBasedImage) {
        draw_image(s, pos, default, c0)
    } else {
        c0
    };
    assert forall|fuel: nat| #[trigger] gif_run(s, next, at, strict, fuel) implies forall|i: int, j: int|
        0 <= i < screen_of(s).0 && 0 <= j < screen_of(s).1 ==> #[trigger] canvas_pixel(
            gif_canvas_run(s, next, at, strict, default, fuel, c1),
            i,
            j,
        ) == canvas_pixel(gif_canvas(s, strict, default), i, j) by {
        assert(gif_run(s, g, pos, strict, fuel + 1));
        assert(gif_canvas_run(s, g, pos, strict, default, fuel + 1, c0) == gif_canvas_run(
            s,
            next,
            at,
            strict,
            default,
            fuel,
            drawn,
        ));
        lemma_canvas_run_agrees(
            s,
            next,
            at,
            strict,
            default,
            fuel,
            fuel,
            c1,
            drawn,
            screen_of(s).0 as int,
            screen_of(s).1 as int,
        );
    }
}

/// What the decoder keeps between states.
#[derive(Debug)]
struct GIFDecoderState {
    /// The global colour table, if the stream has one.
    global_color_table: Option<ColorTable>,
    version: Version,
    logical_dim: (u16, u16),
    color_resolution: u8,
    pixel_aspect_ratio: u8,
    background_color_index: u8,
    /// Where the decoder stands in the grammar.
    grammar_state: ReadNext,
    /// The last and the current graphic control extension.
    graphic_controls: RingBuffer<GraphicControlExtension, 2>,
}

/// Decodes a GIF stream into one canvas of the logical screen's size.
pub struct GIFDecoder {
    state: GIFDecoderState,
    /// The colour table used when an image has neither a local nor a global one.
    default_color_table: Option<ColorTable>,
    /// Whether plain text must be ASCII.
    strict_ascii: bool,
    current_image: Option<ImageBuffer<RGB>>,
    is_animation: bool,
    reader: ByteReader,
}

/// Decoding a GIF stream.
pub trait GIFDecode: Sized {
    spec fn spec_stream(&self) -> Seq<u8>;

    /// The colour table used when an image has neither a local nor a global one.
    spec fn fallback_table(&self) -> Option<ColorTable>;

    /// Whether plain text must be ASCII.
    spec fn ascii_only(&self) -> bool;

    spec fn ready(&self) -> bool;

    /// Decodes the whole stream: it succeeds exactly when the stream follows
    /// the GIF grammar to its trailer, and then gives one image of the size
    /// that the logical screen descriptor gives, each of whose pixels is black
    /// or a colour of one of the colour tables.
    fn decode(self) -> (r: Result<GIFImage, GIFParseError>)
        requires
            self.ready(),
        ensures
            r is Ok <==> gif_accepts(self.spec_stream(), self.ascii_only()),
            r is Err ==> gif_rejects_with(self.spec_stream(), self.ascii_only(), r->Err_0),
            r is Ok ==> {
                let s = self.spec_stream();
                &&& s.len() >= 13
                &&& r->Ok_0 is Single
                &&& r->Ok_0->Single_0.wf()
                &&& r->Ok_0->Single_0.img_width() == le16(s[6], s[7])
                &&& r->Ok_0->Single_0.img_height() == le16(s[8], s[9])
                &&& r->Ok_0->Single_0.spec_data().len() == le16(s[6], s[7]) * le16(s[8], s[9]) * 3
                &&& forall|i: int, j: int|
                    0 <= i < r->Ok_0->Single_0.img_width() && 0 <= j < r->Ok_0->Single_0.img_height()
                        ==> #[trigger] r->Ok_0->Single_0.pixel_at(i, j) == canvas_pixel(
                        gif_canvas(s, self.ascii_only(), self.fallback_table()),
                        i,
                        j,
                    )
                &&& forall|i: int, j: int|
                    0 <= i < r->Ok_0->Single_0.img_width() && 0 <= j < r->Ok_0->Single_0.img_height()
                        ==> palette_or_black(
                        s,
                        self.fallback_table(),
                        #[trigger] r->Ok_0->Single_0.pixel_at(i, j),
                    )
            },
    ;
}

impl GIFDecoder {
    /// A decoder of `reader` at its start.
    pub fn new(reader: Vec<u8>) -> (r: GIFDecoder)
        ensures
            r.ready(),
            r.spec_stream() == reader@,
            r.fallback_table() is None,
            !r.ascii_only(),
    {
        GIFDecoder::with_options(reader, None, false)
    }

    /// A decoder of `reader` with a fallback colour table and the choice of
    /// accepting only ASCII plain text.
    pub fn with_options(reader: Vec<u8>, default_color_table: Option<ColorTable>, strict_ascii: bool) -> (r: GIFDecoder)
        ensures
            r.ready(),
            r.spec_stream() == reader@,
            r.fallback_table() == default_color_table,
            r.ascii_only() == strict_ascii,
    {
        GIFDecoder {
            state: GIFDecoderState {
                global_color_table: None,
                version: Version::Version89a,
                logical_dim: (0, 0),
                color_resolution: 0,
                pixel_aspect_ratio: 0,
                background_color_index: 0,
                grammar_state: ReadNext::Header,
                graphic_controls: RingBuffer::new(),
            },
            default_color_table,
            strict_ascii,
            current_image: None,
            is_animation: false,
            reader: ByteReader::new(reader),
        }
    }

    /// The byte stream being decoded.
    pub closed spec fn spec_reader(&self) -> ByteReader {
        self.reader
    }

    /// Where the decoder stands in the grammar.
    pub closed spec fn spec_state(&self) -> ReadNext {
        self.state.grammar_state
    }

    /// The canvas drawn so far, black before the first image.
    pub closed spec fn canvas(&self) -> Canvas {
        match self.current_image {
            Some(img) => |i: int, j: int| img.pixel_at(i, j),
            None => black_canvas(),
        }
    }

    /// Whether plain text must be ASCII.
    pub closed spec fn spec_strict(&self) -> bool {
        self.strict_ascii
    }

    /// The colour table used when an image has neither a local nor a global one.
    pub closed spec fn spec_default(&self) -> Option<ColorTable> {
        self.default_color_table
    }

    /// The decoder's invariant: the reader is well formed, and once the
    /// logical screen was read its size is known and the canvas, if any, has it.
    pub closed spec fn inv(&self) -> bool {
        self.inv_at(self.state.grammar_state)
    }

    /// The invariant for the decoder standing at `g`.
    pub closed spec fn inv_at(&self, g: ReadNext) -> bool {
        let s = self.reader.stream();
        &&& self.reader.wf()
        &&& self.state.graphic_controls.wf()
        &&& g == ReadNext::Header ==> self.reader.position() == 0 && self.current_image is None
        &&& g == ReadNext::LogicalScreenDescriptor ==> self.reader.position() == 6
            && self.current_image is None
        &&& g != ReadNext::Header && g != ReadNext::LogicalScreenDescriptor ==> {
            &&& s.len() >= 13
            &&& self.state.logical_dim.0 == le16(s[6], s[7])
            &&& self.state.logical_dim.1 == le16(s[8], s[9])
        }
        &&& self.state.global_color_table matches Some(t) ==> table_from_stream(t, s)
        &&& (g == ReadNext::Header || g == ReadNext::LogicalScreenDescriptor || g is GlobalColorTable)
            ==> self.state.global_color_table is None
        &&& g is GlobalColorTable ==> {
            &&& self.reader.position() == 13
            &&& g->GlobalColorTable_0 == s[10] % 8
            &&& flag_set(s[10], 128)
        }
        &&& g != ReadNext::Header && g != ReadNext::LogicalScreenDescriptor && !(g is GlobalColorTable)
            ==> (self.state.global_color_table is Some <==> flag_set(s[10], 128))
        &&& self.state.global_color_table matches Some(t) ==> table_at(t, s, 13, (s[10] % 8) as nat)
        &&& self.current_image matches Some(img) ==> {
            &&& forall|i: int, j: int|
                0 <= i < img.img_width() && 0 <= j < img.img_height() ==> palette_or_black(
                    s,
                    self.default_color_table,
                    #[trigger] img.pixel_at(i, j),
                )
            &&& canvas_fits(self.state.logical_dim.0, self.state.logical_dim.1)
            &&& img.wf()
            &&& img.img_width() == self.state.logical_dim.0
            &&& img.img_height() == self.state.logical_dim.1
        }
    }

    /// 10 for each byte left, plus the state's rank: every step lowers it.
    pub closed spec fn measure(&self, state: ReadNext) -> int {
        10 * self.reader.remaining() + state_rank(state)
    }

    /// Reads the block of the current state and returns the next state; the
    /// transitions follow the GIF89a grammar, and a block that the grammar
    /// does not allow at this point is an error.
    #[verifier::rlimit(40)]
    pub fn next_state(&mut self) -> (r: Result<ReadNext, GIFParseError>)
        requires
            old(self).inv(),
            old(self).spec_state() != ReadNext::End,
        ensures
            final(self).spec_reader().stream() == old(self).spec_reader().stream(),
            final(self).spec_state() == old(self).spec_state(),
            final(self).spec_strict() == old(self).spec_strict(),
            final(self).spec_default() == old(self).spec_default(),
            r is Ok && old(self).spec_state() != ReadNext::GraphicsBlock(
                GraphicRenderingBlocks::TableBasedImage,
            ) ==> final(self).canvas() == old(self).canvas(),
            r is Ok && old(self).spec_state() == ReadNext::GraphicsBlock(
                GraphicRenderingBlocks::TableBasedImage,
            ) ==> forall|i: int, j: int|
                0 <= i < screen_of(old(self).spec_reader().stream()).0 && 0 <= j < screen_of(
                    old(self).spec_reader().stream(),
                ).1 ==> #[trigger] canvas_pixel(final(self).canvas(), i, j) == canvas_pixel(
                    draw_image(
                        old(self).spec_reader().stream(),
                        old(self).spec_reader().position(),
                        old(self).spec_default(),
                        old(self).canvas(),
                    ),
                    i,
                    j,
                ),
            r is Ok ==> final(self).inv_at(r->Ok_0),
            r is Ok ==> final(self).measure(r->Ok_0) < old(self).measure(
                old(self).spec_state(),
            ),
            ({
                let rd = old(self).spec_reader();
                match gif_step(rd.stream(), old(self).spec_state(), rd.position(), old(self).spec_strict()) {
                    None => r is Err && step_error(
                        rd.stream(),
                        old(self).spec_state(),
                        rd.position(),
                        r->Err_0,
                    ),
                    Some((next, at)) => r == Ok::<ReadNext, GIFParseError>(next)
                        && final(self).spec_reader().position() == at,
                }
            }),
            ({
                let rd = old(self).spec_reader();
                match old(self).spec_state() {
                    ReadNext::Header => {
                        &&& rd.remaining() < 6 ==> r is Err && r->Err_0 is Io
                        &&& rd.remaining() >= 6 && rd.ahead(6).subrange(0, 3) != signature_bytes()
                            ==> r is Err && r->Err_0 is UnknownSignature
                        &&& rd.remaining() >= 6 && rd.ahead(6).subrange(0, 3) == signature_bytes()
                            && version_of(rd.ahead(6).subrange(3, 6)) is None ==> r is Err
                            && r->Err_0 is UnknownVersion
                    },
                    ReadNext::BlockType(restriction) => {
                        &&& rd.remaining() < 1 ==> r is Err && r->Err_0 is Io
                        &&& rd.remaining() >= 1 && block_transition(rd.peek(0), restriction) is None
                            ==> r is Err && r->Err_0 == GIFParseError::UnexpectedBlockDiscriminant(
                            rd.peek(0),
                        )
                    },
                    ReadNext::ExtensionType(restriction) => {
                        &&& rd.remaining() < 1 ==> r is Err && r->Err_0 is Io
                        &&& rd.remaining() >= 1 && extension_transition(rd.peek(0), restriction)
                            is None ==> r is Err && r->Err_0 == GIFParseError::UnexpectedExtensionLabel(
                            rd.peek(0),
                        )
                    },
                    _ => true,
                }
            }),
    {
        let ghost s = self.reader.stream();
        proof {
            self.reader.lemma_wf();
        }
        match self.state.grammar_state {
            ReadNext::Header => {
                proof {
                    let p = self.reader.position();
                    if self.reader.remaining() >= 6 {
                        assert(self.reader.ahead(6).subrange(0, 3) =~= s.subrange(p as int, (p + 3) as int));
                        assert(self.reader.ahead(6).subrange(3, 6) =~= s.subrange((p + 3) as int, (p + 6) as int));
                    }
                }
                let header = match Header::parse(&mut self.reader) {
                    Ok(h) => h,
                    Err(e) => {
                        return Err(GIFParseError::from_header(e));
                    },
                };
                self.state.version = header.version;
                Ok(ReadNext::LogicalScreenDescriptor)
            },
            ReadNext::LogicalScreenDescriptor => {
                proof {
                    let p = self.reader.position();
                    if self.reader.remaining() >= 7 {
                        assert(self.reader.ahead(7)[4] == s[(p + 4) as int]);
                    }
                }
                let descriptor = match LogicalScreenDescriptor::parse(&mut self.reader) {
                    Ok(d) => d,
                    Err(e) => {
                        return Err(GIFParseError::from_screen_descriptor(e));
                    },
                };
                self.state.pixel_aspect_ratio = descriptor.pixel_aspect_ratio;
                self.state.background_color_index = descriptor.background_color_index;
                self.state.logical_dim = (
                    descriptor.logical_screen_width,
                    descriptor.logical_screen_height,
                );
                self.state.color_resolution = descriptor.color_resolution();
                if descriptor.global_color_table_flag() {
                    Ok(
                        ReadNext::GlobalColorTable(
                            descriptor.global_color_table_size(),
                            descriptor.sort_flag(),
                        ),
                    )
                } else {
                    Ok(ReadNext::BlockType(None))
                }
            },
            ReadNext::GlobalColorTable(size, sorted) => {
                let table = match ColorTable::try_from_reader(&mut self.reader, size, sorted) {
                    Ok(t) => t,
                    Err(e) => {
                        return Err(GIFParseError::from_color_table(e));
                    },
                };
                proof {
                    vstd::arithmetic::power2::lemma_pow2_pos(size as nat + 1);
                }
                self.state.global_color_table = Some(table);
                Ok(ReadNext::BlockType(None))
            },
            ReadNext::BlockType(restriction) => self.read_block_type(restriction),
            ReadNext::ExtensionType(restriction) => self.read_extension_label(restriction),
            ReadNext::ControlBlock(block_type) => {
                match block_type {
                    ControlBlocks::GraphicsControlExtension => {
                        self.process_graphic_control_extension()?;
                        // a graphic control extension must be followed by a graphic block
                        Ok(ReadNext::BlockType(Some(BlockLabelType::Graphic)))
                    },
                    ControlBlocks::UnknownBlock => {
                        self.skip_unknown_block()?;
                        Ok(ReadNext::BlockType(None))
                    },
                }
            },
            ReadNext::GraphicsBlock(block_type) => {
                match block_type {
                    GraphicRenderingBlocks::TableBasedImage => {
                        self.process_table_based_image()?;
                    },
                    GraphicRenderingBlocks::PlainTextExtension => {
                        self.process_plain_text_extension()?
                    },
                    GraphicRenderingBlocks::UnknownBlock => self.skip_unknown_block()?,
                }
                Ok(ReadNext::BlockType(None))
            },
            ReadNext::SpecialPurposeBlock(block_type) => {
                match block_type {
                    SpecialPurposeBlocks::CommentExtension => self.process_comment_extension()?,
                    SpecialPurposeBlocks::ApplicationExtension => {
                        self.process_application_extension()?
                    },
                    SpecialPurposeBlocks::UnknownBlock => self.skip_unknown_block()?,
                }
                Ok(ReadNext::BlockType(None))
            },
            ReadNext::End => Ok(ReadNext::End),
        }
    }

    /// Skips the sub-blocks of a block the decoder does not know.
    fn skip_unknown_block(&mut self) -> (r: Result<(), GIFParseError>)
        requires
            old(self).inv(),
            old(self).state.grammar_state != ReadNext::Header,
            old(self).state.grammar_state != ReadNext::LogicalScreenDescriptor,
            !(old(self).state.grammar_state is GlobalColorTable),
        ensures
            final(self).current_image == old(self).current_image,
            r is Err ==> r->Err_0 is Io,
            final(self).strict_ascii == old(self).strict_ascii,
            final(self).default_color_table == old(self).default_color_table,
            final(self).inv(),
            final(self).state == old(self).state,
            final(self).reader.stream() == old(self).reader.stream(),
            r is Ok <==> subblock_chain(old(self).reader.stream(), old(self).reader.position()) is Some,
            r is Ok ==> final(self).reader.position() > old(self).reader.position(),
            r is Ok ==> final(self).reader.position() == subblock_chain(
                old(self).reader.stream(),
                old(self).reader.position(),
            )->Some_0.1,
    {
        let ghost s = self.reader.stream();
        let ghost p = self.reader.position();
        match skip_subblock(&mut self.reader) {
            Ok(()) => {
                proof {
                    lemma_subblock_chain_advances(s, p);
                }
                Ok(())
            },
            Err(e) => Err(
                GIFParseError::Io { reason: "io error while skipping an unknown block".to_owned(), cause: e },
            ),
        }
    }
}

impl GIFDecoder {
    /// Reads the byte that opens the next block; under a restriction only a
    /// separator of that category is allowed.
    fn read_block_type(&mut self, restriction: Option<BlockLabelType>) -> (r: Result<ReadNext, GIFParseError>)
        requires
            old(self).reader.wf(),
        ensures
            final(self).reader.wf(),
            final(self).reader.stream() == old(self).reader.stream(),
            final(self).state == old(self).state,
            final(self).current_image == old(self).current_image,
            final(self).strict_ascii == old(self).strict_ascii,
            final(self).default_color_table == old(self).default_color_table,
            old(self).reader.remaining() < 1 ==> r is Err && r->Err_0 is Io,
            old(self).reader.remaining() >= 1 ==> match block_transition(old(self).reader.peek(0), restriction) {
                Some(next) => r == Ok::<ReadNext, GIFParseError>(next) && final(self).reader.position()
                    == old(self).reader.position() + 1,
                None => r is Err && r->Err_0 == GIFParseError::UnexpectedBlockDiscriminant(
                    old(self).reader.peek(0),
                ),
            },
    {
        let b = match self.reader.read_byte() {
            Ok(b) => b,
            Err(e) => {
                return Err(
                    GIFParseError::Io {
                        reason: "io error (likely EOF) during block type label reading".to_owned(),
                        cause: e,
                    },
                );
            },
        };
        let separator = match BlockSeparator::try_from_u8(b) {
            Some(sep) => sep,
            None => {
                return Err(GIFParseError::UnexpectedBlockDiscriminant(b));
            },
        };
        // a restricted position only admits blocks of that category, and never the trailer
        match restriction {
            Some(restriction_type) => {
                if !separator.can_be_type(restriction_type) || separator == BlockSeparator::Trailer {
                    return Err(GIFParseError::UnexpectedBlockDiscriminant(b));
                }
            },
            None => {},
        }
        match separator {
            BlockSeparator::Image => Ok(
                ReadNext::GraphicsBlock(GraphicRenderingBlocks::TableBasedImage),
            ),
            BlockSeparator::Extension => Ok(ReadNext::ExtensionType(restriction)),
            BlockSeparator::Trailer => Ok(ReadNext::End),
        }
    }

    /// Reads the label of an extension; under a restriction only a label of
    /// that category is allowed, and the trailer is never one.
    fn read_extension_label(&mut self, restriction: Option<BlockLabelType>) -> (r: Result<ReadNext, GIFParseError>)
        requires
            old(self).reader.wf(),
        ensures
            final(self).reader.wf(),
            final(self).reader.stream() == old(self).reader.stream(),
            final(self).state == old(self).state,
            final(self).current_image == old(self).current_image,
            final(self).strict_ascii == old(self).strict_ascii,
            final(self).default_color_table == old(self).default_color_table,
            old(self).reader.remaining() < 1 ==> r is Err && r->Err_0 is Io,
            old(self).reader.remaining() >= 1 ==> match extension_transition(old(self).reader.peek(0), restriction) {
                Some(next) => r == Ok::<ReadNext, GIFParseError>(next) && final(self).reader.position()
                    == old(self).reader.position() + 1,
                None => r is Err && r->Err_0 == GIFParseError::UnexpectedExtensionLabel(
                    old(self).reader.peek(0),
                ),
            },
    {
        let b = match self.reader.read_byte() {
            Ok(b) => b,
            Err(e) => {
                return Err(
                    GIFParseError::Io {
                        reason: "io error during extension label read".to_owned(),
                        cause: e,
                    },
                );
            },
        };
        let label_type = BlockLabelType::from(b);
        match restriction {
            Some(restriction_type) => {
                if label_type != restriction_type {
                    return Err(GIFParseError::UnexpectedExtensionLabel(b));
                }
            },
            None => {},
        }
        let label = BlockLabel::try_from_u8(b);
        match label_type {
            BlockLabelType::Graphic => {
                // the image separator is no extension label
                let graphic_label = match label {
                    Some(BlockLabel::PlainTextExtension) => GraphicRenderingBlocks::PlainTextExtension,
                    _ => GraphicRenderingBlocks::UnknownBlock,
                };
                Ok(ReadNext::GraphicsBlock(graphic_label))
            },
            BlockLabelType::Control => {
                let control_label = match label {
                    Some(block) => match ControlBlocks::try_from_label(block) {
                        Some(c) => c,
                        None => ControlBlocks::UnknownBlock,
                    },
                    None => ControlBlocks::UnknownBlock,
                };
                Ok(ReadNext::ControlBlock(control_label))
            },
            BlockLabelType::SpecialPurpose => {
                let special_purpose_label = match label {
                    Some(block) => match SpecialPurposeBlocks::try_from_label(block) {
                        Some(p) => p,
                        None => SpecialPurposeBlocks::UnknownBlock,
                    },
                    None => SpecialPurposeBlocks::UnknownBlock,
                };
                Ok(ReadNext::SpecialPurposeBlock(special_purpose_label))
            },
            BlockLabelType::Trailer => Err(GIFParseError::UnexpectedExtensionLabel(b)),
        }
    }
}

/// `c` is black, a colour stored in the stream `s`, or an entry of the
/// default table.
pub open spec fn palette_or_black(s: Seq<u8>, default: Option<ColorTable>, c: Seq<u8>) -> bool {
    ||| c == seq![0u8, 0u8, 0u8]
    ||| stream_color(s, c)
    ||| (default matches Some(t) && exists|i: int| 0 <= i < 256 && c == #[trigger] t.data@[i].0@)
}

/// Every colour that a table read from `s` gives is black or stored in `s`.
proof fn lemma_table_color(s: Seq<u8>, default: Option<ColorTable>, t: ColorTable, i: u8)
    requires
        table_from_stream(t, s),
    ensures
        palette_or_black(s, default, table_color(t, i)),
{
    if i < t.spec_size() {
        assert(t.data@[i as int].0@ == seq![0u8, 0u8, 0u8] || stream_color(s, t.data@[i as int].0@));
    }
}

/// The colour of palette index `i` under the first table present among the
/// local, the global and the default one; black when there is none.
pub open spec fn palette_color(
    local: Option<ColorTable>,
    global: Option<ColorTable>,
    default: Option<ColorTable>,
    i: u8,
) -> Seq<u8> {
    match local {
        Some(t) => table_color(t, i),
        None => match global {
            Some(t) => table_color(t, i),
            None => match default {
                Some(t) => table_color(t, i),
                None => seq![0u8, 0u8, 0u8],
            },
        },
    }
}

/// The colours that the tables give are black, stored in the stream, or
/// entries of the default table.
proof fn lemma_palette_color(
    s: Seq<u8>,
    local: Option<ColorTable>,
    global: Option<ColorTable>,
    default: Option<ColorTable>,
    i: u8,
)
    requires
        local matches Some(t) ==> table_from_stream(t, s),
        global matches Some(t) ==> table_from_stream(t, s),
    ensures
        palette_or_black(s, default, palette_color(local, global, default, i)),
{
    match local {
        Some(t) => lemma_table_color(s, default, t, i),
        None => match global {
            Some(t) => lemma_table_color(s, default, t, i),
            None => match default {
                Some(t) => {
                    if i < t.spec_size() {
                        assert(t.data@[i as int].0@ == table_color(t, i));
                    }
                },
                None => {},
            },
        },
    }
}

impl GIFDecoder {
    /// A black canvas of the logical screen's size.
    fn blank_canvas(&self) -> (r: Result<ImageBuffer<RGB>, GIFParseError>)
        ensures
            r is Ok ==> {
                &&& r->Ok_0.wf()
                &&& r->Ok_0.img_width() == self.state.logical_dim.0
                &&& r->Ok_0.img_height() == self.state.logical_dim.1
                &&& forall|i: int, j: int|
                    0 <= i < r->Ok_0.img_width() && 0 <= j < r->Ok_0.img_height()
                        ==> #[trigger] r->Ok_0.pixel_at(i, j) == seq![0u8, 0u8, 0u8]
            },
            r is Ok <==> canvas_fits(self.state.logical_dim.0, self.state.logical_dim.1),
            r is Err ==> r->Err_0 == GIFParseError::ImageDataError,
    {
        let (w, h) = self.state.logical_dim;
        proof {
            assert(w as u64 * h as u64 * 3 <= 0xffff_ffff_ffff_ffff) by (nonlinear_arith)
                requires
                    w < 0x1_0000,
                    h < 0x1_0000,
            ;
        }
        if w as u64 * h as u64 * 3 > usize::MAX as u64 {
            // the canvas cannot be addressed on this machine
            return Err(GIFParseError::ImageDataError);
        }
        let image: ImageBuffer<RGB> = ImageBuffer::new(w as u32, h as u32);
        proof {
            assert forall|i: int, j: int|
                0 <= i < image.img_width() && 0 <= j < image.img_height() implies #[trigger] image.pixel_at(i, j)
                == seq![0u8, 0u8, 0u8] by {
                image.lemma_pixel_in_data(i, j);
                assert(image.pixel_at(i, j) =~= seq![0u8, 0u8, 0u8]);
            }
        }
        Ok(image)
    }

    /// Reads an image descriptor, its colour table and data, and draws the
    /// image onto the canvas through the local, global or default colour
    /// table; the canvas is made on the first image.
    fn process_table_based_image(&mut self) -> (r: Result<TableBasedImage, GIFParseError>)
        requires
            old(self).inv(),
            old(self).state.grammar_state != ReadNext::Header,
            old(self).state.grammar_state != ReadNext::LogicalScreenDescriptor,
            !(old(self).state.grammar_state is GlobalColorTable),
        ensures
            r is Err ==> image_error(old(self).reader.stream(), old(self).reader.position(), r->Err_0),
            final(self).strict_ascii == old(self).strict_ascii,
            final(self).default_color_table == old(self).default_color_table,
            final(self).inv(),
            final(self).state == old(self).state,
            final(self).reader.stream() == old(self).reader.stream(),
            r is Ok ==> final(self).reader.position() > old(self).reader.position(),
            r is Ok <==> image_step(old(self).reader.stream(), old(self).reader.position()) is Some,
            r is Ok ==> final(self).reader.position() == image_step(
                old(self).reader.stream(),
                old(self).reader.position(),
            )->Some_0,
            r is Ok ==> forall|i: int, j: int|
                0 <= i < old(self).state.logical_dim.0 && 0 <= j < old(self).state.logical_dim.1
                    ==> #[trigger] canvas_pixel(final(self).canvas(), i, j) == canvas_pixel(
                    draw_image(
                        old(self).reader.stream(),
                        old(self).reader.position(),
                        old(self).default_color_table,
                        old(self).canvas(),
                    ),
                    i,
                    j,
                ),
            r is Ok ==> {
                let img = r->Ok_0;
                let d = img.spec_descriptor();
                let canvas = final(self).current_image->Some_0;
                &&& final(self).current_image is Some
                &&& forall|i: int, j: int|
                    0 <= i < canvas.img_width() && 0 <= j < canvas.img_height()
                        ==> #[trigger] canvas.pixel_at(i, j) == if in_rect(
                        i,
                        j,
                        d.image_left_position as int,
                        d.image_top_position as int,
                        d.image_width as int,
                        d.image_height as int,
                    ) {
                        palette_color(
                            img.spec_color_table(),
                            old(self).state.global_color_table,
                            old(self).default_color_table,
                            img.spec_data()[(j - d.image_top_position) * d.image_width + (i
                                - d.image_left_position)],
                        )
                    } else {
                        match old(self).current_image {
                            Some(before) => before.pixel_at(i, j),
                            None => seq![0u8, 0u8, 0u8],
                        }
                    }
            },
    {
        let ghost s = self.reader.stream();
        let ghost p = self.reader.position();
        let table_based_image = match TableBasedImage::parse(&mut self.reader) {
            Ok(t) => t,
            Err(e) => {
                return Err(GIFParseError::from_table_based_image(e));
            },
        };
        proof {
            let start = crate::blocks::image_data_start(s, p);
            lemma_subblock_chain_advances(s, start + 1);
        }
        // colour table: local, then global, then the caller's default
        let color_table = match table_based_image.local_color_table() {
            Some(t) => t,
            None => match self.state.global_color_table {
                Some(t) => t,
                None => match self.default_color_table {
                    Some(t) => t,
                    None => ColorTable::default(),
                },
            },
        };
        let ghost local = table_based_image.spec_color_table();
        let data = table_based_image.data();
        let mut pixels: Vec<RGB> = Vec::new();
        let mut k: usize = 0;
        while k < data.len()
            invariant
                k <= data@.len(),
                pixels@.len() == k,
                color_table == match local {
                    Some(t) => t,
                    None => match self.state.global_color_table {
                        Some(t) => t,
                        None => match self.default_color_table {
                            Some(t) => t,
                            None => color_table,
                        },
                    },
                },
                local is None && self.state.global_color_table is None
                    && self.default_color_table is None ==> color_table.size == 256 && forall|
                    m: int,
                | 0 <= m < 256 ==> #[trigger] color_table.data@[m].0@ == seq![0u8, 0u8, 0u8],
                forall|m: int|
                    0 <= m < k ==> #[trigger] pixels@[m].0@ == palette_color(
                        local,
                        self.state.global_color_table,
                        self.default_color_table,
                        data@[m],
                    ),
            decreases data@.len() - k,
        {
            let color = color_table.lookup_fallback(data[k]);
            pixels.push(color);
            k = k + 1;
        }
        let mut image = match self.current_image.take() {
            Some(img) => img,
            None => self.blank_canvas()?,
        };
        let ghost before = image;
        let descriptor = table_based_image.descriptor();
        let position = descriptor.image_position();
        let (width, height) = descriptor.image_dim();
        // interlaced images are drawn in their stored row order
        match image.put_rect(
            position.left as u32,
            position.top as u32,
            width as u32,
            height as u32,
            pixels.as_slice(),
        ) {
            Ok(()) => {},
            Err(()) => {
                return Err(GIFParseError::ImageDataError);
            },
        }
        proof {
            let d = table_based_image.spec_descriptor();
            assert forall|i: int, j: int|
                0 <= i < image.img_width() && 0 <= j < image.img_height() implies #[trigger] image.pixel_at(i, j)
                == if in_rect(
                i,
                j,
                d.image_left_position as int,
                d.image_top_position as int,
                d.image_width as int,
                d.image_height as int,
            ) {
                palette_color(
                    local,
                    self.state.global_color_table,
                    self.default_color_table,
                    table_based_image.spec_data()[(j - d.image_top_position) * d.image_width + (i
                        - d.image_left_position)],
                )
            } else {
                before.pixel_at(i, j)
            } by {
                if in_rect(
                    i,
                    j,
                    d.image_left_position as int,
                    d.image_top_position as int,
                    d.image_width as int,
                    d.image_height as int,
                ) {
                    let dy = j - d.image_top_position;
                    let dx = i - d.image_left_position;
                    let w = d.image_width as int;
                    let h = d.image_height as int;
                    assert(0 <= dy * w + dx < w * h) by (nonlinear_arith)
                        requires
                            0 <= dy < h,
                            0 <= dx < w,
                    ;
                    let m = dy * w + dx;
                    assert(pixels@[m].0@ == palette_color(
                        local,
                        self.state.global_color_table,
                        self.default_color_table,
                        data@[m],
                    ));
                }
            }
        }
        proof {
            let d = table_based_image.spec_descriptor();
            assert forall|i: int, j: int|
                0 <= i < image.img_width() && 0 <= j < image.img_height() implies palette_or_black(
                s,
                self.default_color_table,
                #[trigger] image.pixel_at(i, j),
            ) by {
                if in_rect(
                    i,
                    j,
                    d.image_left_position as int,
                    d.image_top_position as int,
                    d.image_width as int,
                    d.image_height as int,
                ) {
                    lemma_palette_color(
                        s,
                        local,
                        self.state.global_color_table,
                        self.default_color_table,
                        table_based_image.spec_data()[(j - d.image_top_position) * d.image_width + (i
                            - d.image_left_position)],
                    );
                } else {
                    assert(before.pixel_at(i, j) == image.pixel_at(i, j));
                }
            }
        }
        self.current_image = Some(image);
        proof {
            let d = table_based_image.spec_descriptor();
            let g = self.state.global_color_table;
            let dflt = self.default_color_table;
            assert forall|i: int, j: int|
                0 <= i < self.state.logical_dim.0 && 0 <= j < self.state.logical_dim.1 implies #[trigger] canvas_pixel(
                self.canvas(),
                i,
                j,
            ) == canvas_pixel(draw_image(s, p, dflt, old(self).canvas()), i, j) by {
                if in_rect(
                    i,
                    j,
                    d.image_left_position as int,
                    d.image_top_position as int,
                    d.image_width as int,
                    d.image_height as int,
                ) {
                    lemma_palette_image_color(
                        s,
                        p,
                        local,
                        g,
                        dflt,
                        table_based_image.spec_data()[(j - d.image_top_position) * d.image_width + (i
                            - d.image_left_position)],
                    );
                }
            }
        }
        Ok(table_based_image)
    }

    /// Reads a graphic control extension and keeps it as the current one.
    fn process_graphic_control_extension(&mut self) -> (r: Result<(), GIFParseError>)
        requires
            old(self).inv(),
            old(self).state.grammar_state != ReadNext::Header,
            old(self).state.grammar_state != ReadNext::LogicalScreenDescriptor,
            !(old(self).state.grammar_state is GlobalColorTable),
        ensures
            r is Err ==> step_error(
                old(self).reader.stream(),
                ReadNext::ControlBlock(ControlBlocks::GraphicsControlExtension),
                old(self).reader.position(),
                r->Err_0,
            ),
            final(self).strict_ascii == old(self).strict_ascii,
            final(self).default_color_table == old(self).default_color_table,
            final(self).inv(),
            final(self).state.grammar_state == old(self).state.grammar_state,
            final(self).state.logical_dim == old(self).state.logical_dim,
            final(self).current_image == old(self).current_image,
            final(self).reader.stream() == old(self).reader.stream(),
            r is Ok <==> old(self).reader.remaining() >= 6 && old(self).reader.peek(0) == 4
                && old(self).reader.peek(5) == 0,
            r is Ok ==> final(self).reader.position() == old(self).reader.position() + 6,
    {
        let block = match GraphicControlExtension::parse(&mut self.reader) {
            Ok(b) => b,
            Err(e) => {
                return Err(GIFParseError::from_graphic_control(e));
            },
        };
        self.state.graphic_controls.next();
        *self.state.graphic_controls.current_mut() = block;
        Ok(())
    }

    /// Reads a plain text extension; its text is not rendered.
    fn process_plain_text_extension(&mut self) -> (r: Result<(), GIFParseError>)
        requires
            old(self).inv(),
            old(self).state.grammar_state != ReadNext::Header,
            old(self).state.grammar_state != ReadNext::LogicalScreenDescriptor,
            !(old(self).state.grammar_state is GlobalColorTable),
        ensures
            r is Err ==> plain_text_error(old(self).reader.stream(), old(self).reader.position(), r->Err_0),
            final(self).strict_ascii == old(self).strict_ascii,
            final(self).default_color_table == old(self).default_color_table,
            final(self).inv(),
            final(self).state == old(self).state,
            final(self).current_image == old(self).current_image,
            final(self).reader.stream() == old(self).reader.stream(),
            r is Ok ==> final(self).reader.position() > old(self).reader.position(),
            r is Ok <==> plain_text_ok(
                old(self).reader.stream(),
                old(self).reader.position(),
                old(self).strict_ascii,
            ),
            r is Ok ==> final(self).reader.position() == subblock_chain(
                old(self).reader.stream(),
                old(self).reader.position() + 13,
            )->Some_0.1,
    {
        let ghost s = self.reader.stream();
        let ghost p = self.reader.position();
        let parsed = if self.strict_ascii {
            PlainTextExtension::parse_strict(&mut self.reader)
        } else {
            PlainTextExtension::parse(&mut self.reader)
        };
        match parsed {
            Ok(_) => {
                proof {
                    lemma_subblock_chain_advances(s, p + 13);
                }
                Ok(())
            },
            Err(e) => Err(GIFParseError::from_plain_text(e)),
        }
    }

    /// Reads a comment extension; the comment is not kept.
    fn process_comment_extension(&mut self) -> (r: Result<(), GIFParseError>)
        requires
            old(self).inv(),
            old(self).state.grammar_state != ReadNext::Header,
            old(self).state.grammar_state != ReadNext::LogicalScreenDescriptor,
            !(old(self).state.grammar_state is GlobalColorTable),
        ensures
            r is Err ==> step_error(
                old(self).reader.stream(),
                ReadNext::SpecialPurposeBlock(SpecialPurposeBlocks::CommentExtension),
                old(self).reader.position(),
                r->Err_0,
            ),
            final(self).strict_ascii == old(self).strict_ascii,
            final(self).default_color_table == old(self).default_color_table,
            final(self).inv(),
            final(self).state == old(self).state,
            final(self).current_image == old(self).current_image,
            final(self).reader.stream() == old(self).reader.stream(),
            r is Ok ==> final(self).reader.position() > old(self).reader.position(),
            r is Ok <==> (subblock_chain(old(self).reader.stream(), old(self).reader.position())
                matches Some((t, _)) && valid_utf8(t)),
            r is Ok ==> final(self).reader.position() == subblock_chain(
                old(self).reader.stream(),
                old(self).reader.position(),
            )->Some_0.1,
    {
        let ghost s = self.reader.stream();
        let ghost p = self.reader.position();
        match CommentExtension::parse(&mut self.reader) {
            Ok(_) => {
                proof {
                    lemma_subblock_chain_advances(s, p);
                }
                Ok(())
            },
            Err(e) => Err(GIFParseError::from_comment(e)),
        }
    }

    /// Reads an application extension; its data is not interpreted.
    fn process_application_extension(&mut self) -> (r: Result<(), GIFParseError>)
        requires
            old(self).inv(),
            old(self).state.grammar_state != ReadNext::Header,
            old(self).state.grammar_state != ReadNext::LogicalScreenDescriptor,
            !(old(self).state.grammar_state is GlobalColorTable),
        ensures
            r is Err ==> step_error(
                old(self).reader.stream(),
                ReadNext::SpecialPurposeBlock(SpecialPurposeBlocks::ApplicationExtension),
                old(self).reader.position(),
                r->Err_0,
            ),
            final(self).strict_ascii == old(self).strict_ascii,
            final(self).default_color_table == old(self).default_color_table,
            final(self).inv(),
            final(self).state == old(self).state,
            final(self).current_image == old(self).current_image,
            final(self).reader.stream() == old(self).reader.stream(),
            r is Ok ==> final(self).reader.position() > old(self).reader.position(),
            r is Ok <==> old(self).reader.remaining() >= 12 && old(self).reader.peek(0) == 11
                && subblock_chain(old(self).reader.stream(), old(self).reader.position() + 12) is Some,
            r is Ok ==> final(self).reader.position() == subblock_chain(
                old(self).reader.stream(),
                old(self).reader.position() + 12,
            )->Some_0.1,
    {
        let ghost s = self.reader.stream();
        let ghost p = self.reader.position();
        match ApplicationExtension::parse(&mut self.reader) {
            Ok(_) => {
                proof {
                    lemma_subblock_chain_advances(s, p + 12);
                }
                Ok(())
            },
            Err(e) => Err(GIFParseError::from_application(e)),
        }
    }
}

impl GIFDecode for GIFDecoder {
    closed spec fn spec_stream(&self) -> Seq<u8> {
        self.reader.stream()
    }

    closed spec fn fallback_table(&self) -> Option<ColorTable> {
        self.default_color_table
    }

    closed spec fn ascii_only(&self) -> bool {
        self.strict_ascii
    }

    closed spec fn ready(&self) -> bool {
        &&& self.inv()
        &&& self.state.grammar_state == ReadNext::Header
    }

    fn decode(self) -> (r: Result<GIFImage, GIFParseError>) {
        let mut decoder = self;
        let ghost s = decoder.reader.stream();
        let ghost strict = decoder.strict_ascii;
        let ghost dflt = decoder.default_color_table;
        proof {
            lemma_canvas_start(s, strict, dflt);
            assert(decoder.canvas() == black_canvas());
        }
        while decoder.state.grammar_state != ReadNext::End
            invariant
                decoder.inv(),
                decoder.reader.stream() == s,
                decoder.strict_ascii == strict,
                s == self.spec_stream(),
                strict == self.ascii_only(),
                decoder.default_color_table == self.fallback_table(),
                dflt == decoder.default_color_table,
                forall|fuel: nat, e: GIFParseError|
                    #[trigger] gif_fail(s, decoder.state.grammar_state, decoder.reader.position(), strict, fuel, e)
                        ==> gif_rejects_with(s, strict, e),
                canvas_matches(
                    s,
                    decoder.state.grammar_state,
                    decoder.reader.position(),
                    strict,
                    dflt,
                    decoder.canvas(),
                ),
                gif_accepts(s, strict) == gif_accepts_from(
                    s,
                    decoder.state.grammar_state,
                    decoder.reader.position(),
                    strict,
                ),
            decreases decoder.measure(decoder.state.grammar_state),
        {
            proof {
                decoder.reader.lemma_wf();
            }
            let ghost g = decoder.state.grammar_state;
            let ghost p = decoder.reader.position();
            let ghost c0 = decoder.canvas();
            let next = match decoder.next_state() {
                Ok(n) => n,
                Err(e) => {
                    proof {
                        lemma_rejects_step(s, g, p, strict);
                        assert(gif_fail(s, g, p, strict, 1, e));
                    }
                    return Err(e);
                },
            };
            proof {
                lemma_accepts_step(s, g, p, strict);
                assert forall|fuel: nat, e: GIFParseError|
                    #[trigger] gif_fail(s, next, decoder.reader.position(), strict, fuel, e)
                        implies gif_rejects_with(s, strict, e) by {
                    assert(gif_fail(s, g, p, strict, fuel + 1, e));
                }
                lemma_canvas_step(s, g, p, strict, dflt, c0, decoder.canvas());
            }
            decoder.state.grammar_state = next;
            proof {
                decoder.reader.lemma_wf();
            }
        }
        proof {
            assert(gif_run(s, ReadNext::End, decoder.reader.position(), strict, 0)
                == canvas_fits(screen_of(s).0, screen_of(s).1));
        }
        // a stream without images still gives the logical screen's canvas
        let ghost c_end = decoder.canvas();
        let image = match decoder.current_image.take() {
            Some(img) => img,
            None => match decoder.blank_canvas() {
                Ok(img) => img,
                Err(e) => {
                    proof {
                        assert(gif_fail(s, ReadNext::End, decoder.reader.position(), strict, 0, e));
                    }
                    return Err(e);
                },
            },
        };
        proof {
            image.lemma_data_len();
            assert(gif_run(s, ReadNext::End, decoder.reader.position(), strict, 0));
            assert forall|i: int, j: int|
                0 <= i < image.img_width() && 0 <= j < image.img_height() implies #[trigger] image.pixel_at(
                i,
                j,
            ) == canvas_pixel(gif_canvas(s, strict, dflt), i, j) by {
                assert(canvas_pixel(
                    gif_canvas_run(s, ReadNext::End, decoder.reader.position(), strict, dflt, 0, c_end),
                    i,
                    j,
                ) == canvas_pixel(gif_canvas(s, strict, dflt), i, j));
            }
        }
        Ok(GIFImage::Single(image))
    }
}

} // verus!
