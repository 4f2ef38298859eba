//! Parsers of the GIF blocks: header, logical screen descriptor, colour
//! tables, image descriptor, table-based image and the extensions.

use vstd::prelude::*;
use vstd::utf8::{valid_utf8, decode_utf8};
use vstd::arithmetic::power2::*;
use crate::categories::{Block, BlockLabel, LabeledBlock};
use crate::colors::RGB;
use crate::gif::{DisposalMethod, Version, disposal_of};
use crate::lzw::{LZW, LZWDecodeError, LZWDecoder, lzw_decode_spec};
use crate::pixel::Pixel;
use crate::stream::{ByteReader, IoError, le16, read_n_byte, read_subblock, read_lzw_subblock, subblock_chain, u16_from_le};

verus! {

broadcast use vstd::array::axiom_spec_array_fill_for_copy_type;

/// Whether the bit of `x` with value `unit` is set.
pub open spec fn flag_set(x: u8, unit: u8) -> bool {
    (x / unit) % 2 == 1
}

/// The bit fields of the packed bytes as arithmetic.
proof fn lemma_packed_fields(x: u8)
    by (bit_vector)
    ensures
        (x & 0x80u8 != 0) == ((x / 128u8) % 2u8 == 1u8),
        (x & 0x40u8 != 0) == ((x / 64u8) % 2u8 == 1u8),
        (x & 0x20u8 != 0) == ((x / 32u8) % 2u8 == 1u8),
        (x & 0x08u8 != 0) == ((x / 8u8) % 2u8 == 1u8),
        (x & 0x02u8 != 0) == ((x / 2u8) % 2u8 == 1u8),
        (x & 0x01u8 != 0) == ((x / 1u8) % 2u8 == 1u8),
        (x & 0x70u8) >> 4u8 == (x / 16u8) % 8u8,
        (x & 0x1Cu8) >> 2u8 == (x / 4u8) % 8u8,
        x & 0x07u8 == x % 8u8,
{
}

/// The text that `b` encodes in UTF-8, or no text when `b` is not UTF-8.
pub open spec fn utf8_text(b: Seq<u8>) -> Seq<char> {
    if valid_utf8(b) {
        decode_utf8(b)
    } else {
        Seq::empty()
    }
}

/// Relies on `String::from_utf8`: it succeeds exactly on valid UTF-8, with
/// the string that the bytes encode.
#[verifier::external_body]
fn string_from_utf8(bytes: Vec<u8>) -> (r: Option<String>)
    ensures
        r is Some <==> valid_utf8(bytes@),
        r is Some ==> r->Some_0@ == decode_utf8(bytes@),
{
    String::from_utf8(bytes).ok()
}

/// The text of `bytes`, or an empty string when they are not UTF-8.
fn text_or_empty(bytes: Vec<u8>) -> (r: String)
    ensures
        r@ == utf8_text(bytes@),
{
    match string_from_utf8(bytes) {
        Some(t) => t,
        None => String::new(),
    }
}

/// Copies a slice into a vector.
fn bytes_of(b: &[u8]) -> (r: Vec<u8>)
    ensures
        r@ == b@,
{
    let mut out: Vec<u8> = Vec::new();
    let mut i: usize = 0;
    while i < b.len()
        invariant
            i <= b@.len(),
            out@ == b@.subrange(0, i as int),
        decreases b@.len() - i,
    {
        out.push(b[i]);
        i = i + 1;
        assert(out@ =~= b@.subrange(0, i as int));
    }
    assert(b@.subrange(0, b@.len() as int) =~= b@);
    out
}

/// A fixed-size block whose size byte is wrong.
pub enum FixedSizeBlockParseError {
    InvalidSize { expected: usize, found: usize },
}

// ----- Header -----

/// `GIF`
pub open spec fn signature_bytes() -> Seq<u8> {
    seq![71u8, 73u8, 70u8]
}

/// The version that the three bytes `b` name.
pub open spec fn version_of(b: Seq<u8>) -> Option<Version> {
    if b == Version::Version87a.spec_bytes() {
        Some(Version::Version87a)
    } else if b == Version::Version89a.spec_bytes() {
        Some(Version::Version89a)
    } else {
        None
    }
}

/// Why the six header bytes are no GIF header.
#[derive(Debug)]
pub enum HeaderDecodeError {
    /// The signature is not `GIF`; holds what was found.
    Signature(String),
    /// The version is neither `87a` nor `89a`; holds what was found.
    Version(String),
}

/// Why no header could be read.
#[derive(Debug)]
pub enum HeaderParseError {
    Signature(String),
    Version(String),
    Io(IoError),
}

/// The header: signature and version.
#[derive(Debug, Clone, Copy)]
pub struct Header {
    pub version: Version,
}

impl Block for Header {
    fn block_size() -> usize {
        6
    }

    fn version() -> Version {
        Version::Version87a
    }
}

impl Header {
    /// The header of the six bytes `value`.
    pub fn try_from_bytes(value: &[u8; 6]) -> (r: Result<Header, HeaderDecodeError>)
        ensures
            value@.subrange(0, 3) != signature_bytes() ==> r is Err && r->Err_0 is Signature
                && r->Err_0->Signature_0@ == utf8_text(value@.subrange(0, 3)),
            value@.subrange(0, 3) == signature_bytes() ==> match version_of(value@.subrange(3, 6)) {
                Some(v) => r is Ok && r->Ok_0.version == v,
                None => r is Err && r->Err_0 is Version && r->Err_0->Version_0@ == utf8_text(
                    value@.subrange(3, 6),
                ),
            },
    {
        let bytes = bytes_of(value.as_slice());
        let signature: Vec<u8> = vec![bytes[0], bytes[1], bytes[2]];
        let version: Vec<u8> = vec![bytes[3], bytes[4], bytes[5]];
        assert(signature@ =~= value@.subrange(0, 3));
        assert(version@ =~= value@.subrange(3, 6));
        if !(signature[0] == 71 && signature[1] == 73 && signature[2] == 70) {
            assert(signature@ != signature_bytes()) by {
                if signature@ == signature_bytes() {
                    assert(signature@[0] == 71 && signature@[1] == 73 && signature@[2] == 70);
                }
            }
            return Err(HeaderDecodeError::Signature(text_or_empty(signature)));
        }
        assert(signature@ =~= signature_bytes());
        if version[0] == 56 && version[1] == 55 && version[2] == 97 {
            assert(version@ =~= Version::Version87a.spec_bytes());
            Ok(Header { version: Version::Version87a })
        } else if version[0] == 56 && version[1] == 57 && version[2] == 97 {
            assert(version@ =~= Version::Version89a.spec_bytes());
            Ok(Header { version: Version::Version89a })
        } else {
            assert(version@ != Version::Version87a.spec_bytes() && version@
                != Version::Version89a.spec_bytes()) by {
                if version@ == Version::Version87a.spec_bytes() {
                    assert(version@[1] == 55);
                }
                if version@ == Version::Version89a.spec_bytes() {
                    assert(version@[1] == 57);
                }
            }
            Err(HeaderDecodeError::Version(text_or_empty(version)))
        }
    }

    /// Reads the six header bytes.
    pub fn parse(reader: &mut ByteReader) -> (r: Result<Header, HeaderParseError>)
        requires
            old(reader).wf(),
        ensures
            final(reader).wf(),
            final(reader).stream() == old(reader).stream(),
            old(reader).remaining() < 6 ==> r is Err && r->Err_0 == HeaderParseError::Io(
                IoError::UnexpectedEof,
            ),
            old(reader).remaining() >= 6 ==> {
                let b = old(reader).ahead(6);
                &&& final(reader).position() == old(reader).position() + 6
                &&& b.subrange(0, 3) != signature_bytes() ==> r is Err && r->Err_0 is Signature
                    && r->Err_0->Signature_0@ == utf8_text(b.subrange(0, 3))
                &&& b.subrange(0, 3) == signature_bytes() ==> match version_of(b.subrange(3, 6)) {
                    Some(v) => r is Ok && r->Ok_0.version == v,
                    None => r is Err && r->Err_0 is Version && r->Err_0->Version_0@ == utf8_text(
                        b.subrange(3, 6),
                    ),
                }
            },
    {
        let buf: [u8; 6] = match read_n_byte::<6>(reader) {
            Ok(b) => b,
            Err(e) => {
                return Err(HeaderParseError::Io(e));
            },
        };
        match Header::try_from_bytes(&buf) {
            Ok(h) => Ok(h),
            Err(HeaderDecodeError::Signature(t)) => Err(HeaderParseError::Signature(t)),
            Err(HeaderDecodeError::Version(t)) => Err(HeaderParseError::Version(t)),
        }
    }
}

// ----- Logical screen descriptor -----

/// The logical screen: its size, the global colour table's flags, and the
/// background and aspect bytes.
#[derive(Debug, Copy, Clone)]
pub struct LogicalScreenDescriptor {
    /// Width of the logical screen in pixels.
    pub logical_screen_width: u16,
    /// Height of the logical screen in pixels.
    pub logical_screen_height: u16,
    /// Global colour table flag (bit 7), colour resolution (bits 4..6),
    /// sort flag (bit 3) and global colour table size (bits 0..2).
    pub flags: u8,
    /// Index of the background colour in the global colour table.
    pub background_color_index: u8,
    /// Pixel aspect ratio byte.
    pub pixel_aspect_ratio: u8,
}

/// Why no logical screen descriptor could be read.
#[derive(Debug)]
pub enum LogicalScreenDescriptorParseError {
    Io(IoError),
}

impl Block for LogicalScreenDescriptor {
    fn block_size() -> usize {
        7
    }

    fn version() -> Version {
        Version::Version87a
    }
}

impl LogicalScreenDescriptor {
    pub fn global_color_table_flag(&self) -> (r: bool)
        ensures
            r == flag_set(self.flags, 128),
    {
        proof {
            lemma_packed_fields(self.flags);
        }
        self.flags & 0x80 != 0
    }

    pub fn color_resolution(&self) -> (r: u8)
        ensures
            r == (self.flags / 16) % 8,
    {
        proof {
            lemma_packed_fields(self.flags);
        }
        (self.flags & 0x70) >> 4
    }

    pub fn sort_flag(&self) -> (r: bool)
        ensures
            r == flag_set(self.flags, 8),
    {
        proof {
            lemma_packed_fields(self.flags);
        }
        self.flags & 0x08 != 0
    }

    /// The size flag of the global colour table: it has `2^(flag + 1)` entries.
    pub fn global_color_table_size(&self) -> (r: u8)
        ensures
            r == self.flags % 8,
    {
        proof {
            lemma_packed_fields(self.flags);
        }
        self.flags & 0x07
    }

    /// The descriptor of the seven bytes `value`.
    pub fn from_bytes(value: &[u8; 7]) -> (r: LogicalScreenDescriptor)
        ensures
            r.logical_screen_width == le16(value@[0], value@[1]),
            r.logical_screen_height == le16(value@[2], value@[3]),
            r.flags == value@[4],
            r.background_color_index == value@[5],
            r.pixel_aspect_ratio == value@[6],
    {
        LogicalScreenDescriptor {
            logical_screen_width: u16_from_le(value[0], value[1]),
            logical_screen_height: u16_from_le(value[2], value[3]),
            flags: value[4],
            background_color_index: value[5],
            pixel_aspect_ratio: value[6],
        }
    }

    /// Reads the seven descriptor bytes.
    pub fn parse(reader: &mut ByteReader) -> (r: Result<
        LogicalScreenDescriptor,
        LogicalScreenDescriptorParseError,
    >)
        requires
            old(reader).wf(),
        ensures
            final(reader).wf(),
            final(reader).stream() == old(reader).stream(),
            r is Ok <==> old(reader).remaining() >= 7,
            r is Ok ==> {
                let b = old(reader).ahead(7);
                &&& final(reader).position() == old(reader).position() + 7
                &&& r->Ok_0.logical_screen_width == le16(b[0], b[1])
                &&& r->Ok_0.logical_screen_height == le16(b[2], b[3])
                &&& r->Ok_0.flags == b[4]
                &&& r->Ok_0.background_color_index == b[5]
                &&& r->Ok_0.pixel_aspect_ratio == b[6]
            },
    {
        match read_n_byte::<7>(reader) {
            Ok(buf) => Ok(LogicalScreenDescriptor::from_bytes(&buf)),
            Err(e) => Err(LogicalScreenDescriptorParseError::Io(e)),
        }
    }
}

// ----- Colour table -----

/// Number of entries of the largest colour table.
pub const MAX_COLOR_TABLE_SIZE: usize = 256;

/// Number of entries of a colour table with size flag `flag`.
pub open spec fn table_entries(flag: nat) -> nat {
    pow2(flag + 1)
}

/// The colour of entry `i` of a table read from `b`.
pub open spec fn entry_of(b: Seq<u8>, i: int) -> Seq<u8> {
    b.subrange(3 * i, 3 * i + 3)
}

/// `c` is three consecutive bytes of `s`, as a colour table stores a colour.
pub open spec fn stream_color(s: Seq<u8>, c: Seq<u8>) -> bool {
    exists|k: int| 0 <= k && k + 3 <= s.len() && c == #[trigger] s.subrange(k, k + 3)
}

/// `t` is the table of `2^(flag + 1)` entries stored in `s` from `start` on,
/// black past them.
pub open spec fn table_at(t: ColorTable, s: Seq<u8>, start: int, flag: nat) -> bool {
    &&& t.size == table_entries(flag)
    &&& forall|i: int|
        0 <= i < table_entries(flag) ==> #[trigger] t.data@[i].0@ == s.subrange(
            start + 3 * i,
            start + 3 * i + 3,
        )
    &&& forall|i: int| table_entries(flag) <= i < 256 ==> #[trigger] t.data@[i].0@ == seq![0u8, 0u8, 0u8]
}

/// Every entry of `t` is black or a colour stored in `s`.
pub open spec fn table_from_stream(t: ColorTable, s: Seq<u8>) -> bool {
    forall|i: int|
        0 <= i < 256 ==> #[trigger] t.data@[i].0@ == seq![0u8, 0u8, 0u8] || stream_color(
            s,
            t.data@[i].0@,
        )
}

/// Entries of a colour table: `2^(size_flag + 1)` RGB colours, the rest black.
#[derive(Debug, Clone, Copy)]
pub struct ColorTable {
    pub data: [RGB; 256],
    pub size: usize,
    pub sorted: bool,
}

/// Why no colour table could be read.
#[derive(Debug, Clone, Copy, PartialEq, Eq, Structural)]
pub enum ColorTableParseError {
    /// The size flag asks for more than 256 entries.
    TooLarge,
    /// The stream ends inside the table.
    NotEnoughData,
}

/// Looking colours up in a table.
pub trait ColorTableLookup {
    spec fn spec_size(&self) -> nat;

    spec fn spec_entry(&self, i: int) -> Seq<u8>;

    /// The colour of entry `color_index`, or `None` past the table.
    fn lookup(&self, color_index: u8) -> (r: Option<RGB>)
        ensures
            r is Some <==> color_index < self.spec_size(),
            r is Some ==> r->Some_0.0@ == self.spec_entry(color_index as int),
    ;

    /// The colour of entry `color_index`, or black past the table.
    fn lookup_fallback(&self, color_index: u8) -> (r: RGB)
        ensures
            color_index < self.spec_size() ==> r.0@ == self.spec_entry(color_index as int),
            color_index >= self.spec_size() ==> r.0@ == seq![0u8, 0u8, 0u8],
    ;

    /// The colour of entry `color_index`, or `fallback` past the table.
    fn lookup_or(&self, color_index: u8, fallback: RGB) -> (r: RGB)
        ensures
            color_index < self.spec_size() ==> r.0@ == self.spec_entry(color_index as int),
            color_index >= self.spec_size() ==> r == fallback,
    ;
}

impl ColorTableLookup for ColorTable {
    open spec fn spec_size(&self) -> nat {
        if self.size <= 256 {
            self.size as nat
        } else {
            256
        }
    }

    open spec fn spec_entry(&self, i: int) -> Seq<u8> {
        self.data@[i].0@
    }

    fn lookup(&self, color_index: u8) -> (r: Option<RGB>) {
        if color_index as usize >= self.size {
            return None;
        }
        Some(self.data[color_index as usize])
    }

    fn lookup_fallback(&self, color_index: u8) -> (r: RGB) {
        self.lookup_or(color_index, RGB::black())
    }

    fn lookup_or(&self, color_index: u8, fallback: RGB) -> (r: RGB) {
        if color_index as usize >= self.size {
            return fallback;
        }
        self.data[color_index as usize]
    }
}

impl ColorTable {
    /// Length in bytes of a table with size flag `size_flag`: three bytes
    /// for each of its `2^(size_flag + 1)` entries.
    pub fn calculate_size(size_flag: u8) -> (r: usize)
        requires
            size_flag <= 7,
        ensures
            r == 3 * table_entries(size_flag as nat),
            table_entries(size_flag as nat) <= MAX_COLOR_TABLE_SIZE,
    {
        proof {
            lemma2_to64();
            vstd::bits::lemma_usize_shl_is_mul(2, size_flag as usize);
            lemma_pow2_unfold(size_flag as nat + 1);
            if size_flag < 7 {
                lemma_pow2_strictly_increases(size_flag as nat, 7);
            }
        }
        3 * (2usize << size_flag)
    }

    /// Reads a colour table of `2^(size_flag + 1)` entries, three bytes each.
    pub fn try_from_reader(reader: &mut ByteReader, size_flag: u8, sorted: bool) -> (r: Result<
        ColorTable,
        ColorTableParseError,
    >)
        requires
            old(reader).wf(),
        ensures
            final(reader).wf(),
            final(reader).stream() == old(reader).stream(),
            size_flag > 7 ==> r == Err::<ColorTable, ColorTableParseError>(
                ColorTableParseError::TooLarge,
            ),
            size_flag <= 7 ==> {
                let n = table_entries(size_flag as nat);
                &&& old(reader).remaining() < 3 * n ==> r == Err::<ColorTable, ColorTableParseError>(
                    ColorTableParseError::NotEnoughData,
                )
                &&& old(reader).remaining() >= 3 * n ==> r is Ok
            },
            r is Err ==> final(reader).position() == old(reader).position(),
            r is Ok ==> {
                let n = table_entries(size_flag as nat);
                let t = r->Ok_0;
                &&& final(reader).position() == old(reader).position() + 3 * n
                &&& t.size == n
                &&& t.sorted == sorted
                &&& forall|i: int|
                    0 <= i < n ==> #[trigger] t.data@[i].0@ == entry_of(
                        old(reader).ahead(3 * n),
                        i,
                    )
                &&& forall|i: int| n <= i < 256 ==> #[trigger] t.data@[i].0@ == seq![0u8, 0u8, 0u8]
                &&& table_from_stream(t, old(reader).stream())
                &&& table_at(t, old(reader).stream(), old(reader).position() as int, size_flag as nat)
            },
    {
        let ghost s = reader.stream();
        let ghost pos = reader.position();
        if size_flag > 7 {
            return Err(ColorTableParseError::TooLarge);
        }
        let byte_len = ColorTable::calculate_size(size_flag);
        let size = byte_len / 3;
        let bytes = match reader.read_exact(byte_len) {
            Ok(b) => b,
            Err(_) => {
                return Err(ColorTableParseError::NotEnoughData);
            },
        };
        let mut table = ColorTable {
            data: vstd::array::array_fill_for_copy_types(RGB::black()),
            size,
            sorted,
        };
        let mut index: usize = 0;
        while index < size
            invariant
                size <= 256,
                bytes@.len() == 3 * size,
                index <= size,
                table.size == size,
                table.sorted == sorted,
                forall|i: int| 0 <= i < index ==> #[trigger] table.data@[i].0@ == entry_of(bytes@, i),
                forall|i: int| index <= i < 256 ==> #[trigger] table.data@[i].0@ == seq![0u8, 0u8, 0u8],
            decreases size - index,
        {
            let color = RGB::new(bytes[3 * index], bytes[3 * index + 1], bytes[3 * index + 2]);
            assert(color.0@ =~= entry_of(bytes@, index as int));
            table.data[index] = color;
            index = index + 1;
        }
        proof {
            assert forall|i: int| 0 <= i < 256 implies #[trigger] table.data@[i].0@ == seq![0u8, 0u8, 0u8]
                || stream_color(s, table.data@[i].0@) by {
                if i < size {
                    let k = pos + 3 * i;
                    assert(entry_of(bytes@, i) =~= s.subrange(k, k + 3));
                }
            }
            assert forall|i: int| 0 <= i < size implies #[trigger] table.data@[i].0@ == s.subrange(
                pos + 3 * i,
                pos + 3 * i + 3,
            ) by {
                assert(entry_of(bytes@, i) =~= s.subrange(pos + 3 * i, pos + 3 * i + 3));
            }
        }
        Ok(table)
    }
}

impl Default for ColorTable {
    fn default() -> (r: ColorTable)
        ensures
            r.size == MAX_COLOR_TABLE_SIZE,
            !r.sorted,
            forall|i: int| 0 <= i < 256 ==> #[trigger] r.data@[i].0@ == seq![0u8, 0u8, 0u8],
    {
        let black = RGB::black();
        let data: [RGB; 256] = vstd::array::array_fill_for_copy_types(black);
        assert(forall|i: int| 0 <= i < 256 ==> data@[i] == black);
        ColorTable { data, size: MAX_COLOR_TABLE_SIZE, sorted: false }
    }
}

// ----- Graphic control extension -----

/// Presentation of the next graphic block: disposal, delay and transparency.
#[derive(Debug, Copy, Clone)]
pub struct GraphicControlExtension {
    /// Disposal method (bits 2..4), user input flag (bit 1), transparent colour flag (bit 0).
    pub flags: u8,
    /// Delay in hundredths of a second.
    pub delay_time: u16,
    pub transparent_color_index: u8,
}

/// Why no graphic control extension could be read.
#[derive(Debug, Clone, Copy, PartialEq, Eq, Structural)]
pub enum GraphicControlExtensionParseError {
    Io(IoError),
    /// The size byte is not 4; holds what was found.
    InvalidBlockSize(u8),
    /// The byte after the block is not 0.
    InvalidBlockTerminator,
}

impl Block for GraphicControlExtension {
    fn block_size() -> usize {
        4
    }

    fn version() -> Version {
        Version::Version89a
    }
}

impl LabeledBlock for GraphicControlExtension {
    open spec fn spec_label() -> BlockLabel {
        BlockLabel::GraphicControlExtension
    }

    fn label() -> (r: BlockLabel) {
        BlockLabel::GraphicControlExtension
    }
}

impl Default for GraphicControlExtension {
    /// No delay, no transparency, frames left in place.
    fn default() -> (r: GraphicControlExtension)
        ensures
            r.delay_time == 0,
            r.flags == 4,
            r.transparent_color_index == 0,
    {
        // disposal method 1 (leave in place) in bits 2..4, both flags clear
        GraphicControlExtension { delay_time: 0, flags: 0b0000_0100, transparent_color_index: 0 }
    }
}

impl GraphicControlExtension {
    /// Reads the block after its label: size byte 4, packed byte, delay,
    /// transparent index and the zero terminator.
    pub fn parse(reader: &mut ByteReader) -> (r: Result<
        GraphicControlExtension,
        GraphicControlExtensionParseError,
    >)
        requires
            old(reader).wf(),
        ensures
            final(reader).wf(),
            final(reader).stream() == old(reader).stream(),
            old(reader).remaining() < 6 ==> r == Err::<
                GraphicControlExtension,
                GraphicControlExtensionParseError,
            >(GraphicControlExtensionParseError::Io(IoError::UnexpectedEof)),
            old(reader).remaining() >= 6 ==> {
                let b = old(reader).ahead(6);
                &&& final(reader).position() == old(reader).position() + 6
                &&& b[0] != 4 ==> r == Err::<
                    GraphicControlExtension,
                    GraphicControlExtensionParseError,
                >(GraphicControlExtensionParseError::InvalidBlockSize(b[0]))
                &&& b[0] == 4 && b[5] != 0 ==> r == Err::<
                    GraphicControlExtension,
                    GraphicControlExtensionParseError,
                >(GraphicControlExtensionParseError::InvalidBlockTerminator)
                &&& b[0] == 4 && b[5] == 0 ==> r is Ok && r->Ok_0.flags == b[1]
                    && r->Ok_0.delay_time == le16(b[2], b[3]) && r->Ok_0.transparent_color_index
                    == b[4]
            },
    {
        let buf: [u8; 6] = match read_n_byte::<6>(reader) {
            Ok(b) => b,
            Err(e) => {
                return Err(GraphicControlExtensionParseError::Io(e));
            },
        };
        if buf[0] != 4 {
            return Err(GraphicControlExtensionParseError::InvalidBlockSize(buf[0]));
        }
        if buf[5] != 0u8 {
            return Err(GraphicControlExtensionParseError::InvalidBlockTerminator);
        }
        Ok(
            GraphicControlExtension {
                flags: buf[1],
                delay_time: u16_from_le(buf[2], buf[3]),
                transparent_color_index: buf[4],
            },
        )
    }

    /// The transparent colour index, when the transparency flag is set.
    pub fn transparent_color_index(&self) -> (r: Option<u8>)
        ensures
            r is Some <==> flag_set(self.flags, 1),
            r is Some ==> r->Some_0 == self.transparent_color_index,
    {
        if !self.has_transparent_color() {
            return None;
        }
        Some(self.transparent_color_index)
    }

    pub fn delay_time(&self) -> (r: u16)
        ensures
            r == self.delay_time,
    {
        self.delay_time
    }

    pub fn disposal_method(&self) -> (r: DisposalMethod)
        ensures
            r == disposal_of((self.flags / 4) % 8),
    {
        proof {
            lemma_packed_fields(self.flags);
        }
        DisposalMethod::from((self.flags & 0x1C) >> 2)
    }

    pub fn user_input_flag(&self) -> (r: bool)
        ensures
            r == flag_set(self.flags, 2),
    {
        proof {
            lemma_packed_fields(self.flags);
        }
        (self.flags & 0x02) != 0
    }

    pub fn has_transparent_color(&self) -> (r: bool)
        ensures
            r == flag_set(self.flags, 1),
    {
        proof {
            lemma_packed_fields(self.flags);
        }
        (self.flags & 0x01) != 0
    }
}

// ----- Image descriptor and table-based image -----

/// Where an image lies on the logical screen.
#[derive(Debug, Copy, Clone)]
pub struct ImagePosition {
    pub left: u16,
    pub top: u16,
}

/// Position, size and flags of one image.
#[derive(Debug, Copy, Clone)]
pub struct ImageDescriptor {
    pub image_left_position: u16,
    pub image_top_position: u16,
    pub image_width: u16,
    pub image_height: u16,
    /// Local colour table flag (bit 7), interlace flag (bit 6), sort flag
    /// (bit 5) and local colour table size (bits 0..2).
    pub flags: u8,
}

impl ImageDescriptor {
    pub fn local_color_table_flag(&self) -> (r: bool)
        ensures
            r == flag_set(self.flags, 128),
    {
        proof {
            lemma_packed_fields(self.flags);
        }
        self.flags & 0x80 != 0
    }

    pub fn interlace_flag(&self) -> (r: bool)
        ensures
            r == flag_set(self.flags, 64),
    {
        proof {
            lemma_packed_fields(self.flags);
        }
        self.flags & 0x40 != 0
    }

    pub fn sort_flag(&self) -> (r: bool)
        ensures
            r == flag_set(self.flags, 32),
    {
        proof {
            lemma_packed_fields(self.flags);
        }
        self.flags & 0x20 != 0
    }

    /// The size flag of the local colour table.
    pub fn local_color_table_size_flag(&self) -> (r: u8)
        ensures
            r == self.flags % 8,
    {
        proof {
            lemma_packed_fields(self.flags);
        }
        self.flags & 0x07
    }

    pub fn image_position(&self) -> (r: ImagePosition)
        ensures
            r.left == self.image_left_position,
            r.top == self.image_top_position,
    {
        ImagePosition { left: self.image_left_position, top: self.image_top_position }
    }

    pub fn image_dim(&self) -> (r: (u16, u16))
        ensures
            r == (self.image_width, self.image_height),
    {
        (self.image_width, self.image_height)
    }

    /// The descriptor of the nine bytes `value`.
    pub fn from_bytes(value: &[u8; 9]) -> (r: ImageDescriptor)
        ensures
            r == descriptor_of(value@),
    {
        ImageDescriptor {
            image_left_position: u16_from_le(value[0], value[1]),
            image_top_position: u16_from_le(value[2], value[3]),
            image_width: u16_from_le(value[4], value[5]),
            image_height: u16_from_le(value[6], value[7]),
            flags: value[8],
        }
    }
}

/// The descriptor that the nine bytes `b` hold.
pub open spec fn descriptor_of(b: Seq<u8>) -> ImageDescriptor {
    ImageDescriptor {
        image_left_position: le16(b[0], b[1]),
        image_top_position: le16(b[2], b[3]),
        image_width: le16(b[4], b[5]),
        image_height: le16(b[6], b[7]),
        flags: b[8],
    }
}

/// An image descriptor, its local colour table if any, and its decoded
/// palette indices.
#[derive(Debug, Clone)]
pub struct TableBasedImage {
    descriptor: ImageDescriptor,
    color_table: Option<ColorTable>,
    image_data: Vec<u8>,
}

/// Why no table-based image could be read.
#[derive(Debug, Clone, Copy, PartialEq, Eq)]
pub enum TableBasedImageParseError {
    Io(IoError),
    InvalidColorTable(ColorTableParseError),
    InvalidLZWCode(LZWDecodeError),
}

impl Block for TableBasedImage {
    fn block_size() -> usize {
        9
    }

    fn version() -> Version {
        Version::Version87a
    }
}

impl LabeledBlock for TableBasedImage {
    open spec fn spec_label() -> BlockLabel {
        BlockLabel::ImageDescriptor
    }

    fn label() -> (r: BlockLabel) {
        BlockLabel::ImageDescriptor
    }
}

/// Where the image data of a table-based image at `pos` starts: after the
/// descriptor and the local colour table, if there is one.
pub open spec fn image_data_start(s: Seq<u8>, pos: nat) -> nat {
    let d = descriptor_of(s.subrange(pos as int, (pos + 9) as int));
    if flag_set(d.flags, 128) {
        pos + 9 + 3 * table_entries((d.flags % 8) as nat)
    } else {
        pos + 9
    }
}

impl TableBasedImage {
    pub closed spec fn spec_descriptor(&self) -> ImageDescriptor {
        self.descriptor
    }

    pub closed spec fn spec_color_table(&self) -> Option<ColorTable> {
        self.color_table
    }

    pub closed spec fn spec_data(&self) -> Seq<u8> {
        self.image_data@
    }

    pub fn local_color_table(&self) -> (r: Option<ColorTable>)
        ensures
            r == self.spec_color_table(),
    {
        self.color_table
    }

    pub fn local_color_table_ref(&self) -> (r: Option<&ColorTable>)
        ensures
            r is Some <==> self.spec_color_table() is Some,
            r is Some ==> *r->Some_0 == self.spec_color_table()->Some_0,
    {
        match &self.color_table {
            Some(t) => Some(t),
            None => None,
        }
    }

    pub fn descriptor(&self) -> (r: ImageDescriptor)
        ensures
            r == self.spec_descriptor(),
    {
        self.descriptor
    }

    /// The decoded palette indices.
    pub fn data(&self) -> (r: &Vec<u8>)
        ensures
            r@ == self.spec_data(),
    {
        &self.image_data
    }

    /// Reads an image descriptor, its local colour table when its flag is
    /// set, the LZW minimum code size and the data sub-blocks, and decodes
    /// the data.
    pub fn parse(reader: &mut ByteReader) -> (r: Result<TableBasedImage, TableBasedImageParseError>)
        requires
            old(reader).wf(),
        ensures
            final(reader).wf(),
            final(reader).stream() == old(reader).stream(),
            ({
                let s = old(reader).stream();
                let pos = old(reader).position();
                let d = descriptor_of(old(reader).ahead(9));
                let start = image_data_start(s, pos);
                if old(reader).remaining() < 9 {
                    r == Err::<TableBasedImage, TableBasedImageParseError>(
                        TableBasedImageParseError::Io(IoError::UnexpectedEof),
                    )
                } else if flag_set(d.flags, 128) && s.len() < start {
                    r == Err::<TableBasedImage, TableBasedImageParseError>(
                        TableBasedImageParseError::InvalidColorTable(
                            ColorTableParseError::NotEnoughData,
                        ),
                    )
                } else if s.len() <= start || subblock_chain(s, start + 1) is None {
                    r == Err::<TableBasedImage, TableBasedImageParseError>(
                        TableBasedImageParseError::Io(IoError::UnexpectedEof),
                    )
                } else {
                    let (data, end) = subblock_chain(s, start + 1)->Some_0;
                    match lzw_decode_spec(data, s[start as int] as nat) {
                        Err(e) => r == Err::<TableBasedImage, TableBasedImageParseError>(
                            TableBasedImageParseError::InvalidLZWCode(e),
                        ),
                        Ok(indices) => {
                            &&& r is Ok
                            &&& (r->Ok_0.spec_color_table() matches Some(t) ==> table_from_stream(t, s))
                            &&& (r->Ok_0.spec_color_table() matches Some(t) ==> table_at(
                                t,
                                s,
                                (pos + 9) as int,
                                (d.flags % 8) as nat,
                            ) && t.sorted == flag_set(d.flags, 32))
                            &&& r->Ok_0.spec_descriptor() == d
                            &&& r->Ok_0.spec_data() == indices
                            &&& (r->Ok_0.spec_color_table() is Some <==> flag_set(d.flags, 128))
                            &&& final(reader).position() == end
                        },
                    }
                }
            }),
    {
        let ghost s = reader.stream();
        let ghost pos = reader.position();
        let buf: [u8; 9] = match read_n_byte::<9>(reader) {
            Ok(b) => b,
            Err(e) => {
                return Err(TableBasedImageParseError::Io(e));
            },
        };
        let descriptor = ImageDescriptor::from_bytes(&buf);
        let mut color_table_opt: Option<ColorTable> = None;
        if descriptor.local_color_table_flag() {
            let size_flag = descriptor.local_color_table_size_flag();
            match ColorTable::try_from_reader(reader, size_flag, descriptor.sort_flag()) {
                Ok(t) => {
                    color_table_opt = Some(t);
                },
                Err(e) => {
                    return Err(TableBasedImageParseError::InvalidColorTable(e));
                },
            }
        }
        proof {
            assert(reader.position() == image_data_start(s, pos));
        }
        let (minimum_code_size, data) = match read_lzw_subblock(reader) {
            Ok(x) => x,
            Err(e) => {
                return Err(TableBasedImageParseError::Io(e));
            },
        };
        let image_data = match LZWDecoder::decode(data, minimum_code_size) {
            Ok(d) => d,
            Err(e) => {
                return Err(TableBasedImageParseError::InvalidLZWCode(e));
            },
        };
        Ok(TableBasedImage { descriptor, color_table: color_table_opt, image_data })
    }
}

// ----- Extensions -----

/// The plain text extension: a text grid drawn with the given cells and colours.
#[derive(Debug, Clone)]
pub struct PlainTextExtension {
    pub text_grid_left_position: u16,
    pub text_grid_top_position: u16,
    pub text_grid_width: u16,
    pub text_grid_height: u16,
    pub char_cell_width: u8,
    pub char_cell_height: u8,
    pub text_foreground_color_index: u8,
    pub text_background_color_index: u8,
    pub plain_text_data: String,
}

/// Why no plain text extension could be read.
#[derive(Debug, Clone, Copy, PartialEq, Eq, Structural)]
pub enum PlainTextExtensionParseError {
    Io(IoError),
    InvalidBlockSize { expected: usize, found: usize },
    InvalidASCII,
}

impl Block for PlainTextExtension {
    fn block_size() -> usize {
        12
    }

    fn version() -> Version {
        Version::Version89a
    }
}

impl LabeledBlock for PlainTextExtension {
    open spec fn spec_label() -> BlockLabel {
        BlockLabel::PlainTextExtension
    }

    fn label() -> (r: BlockLabel) {
        BlockLabel::PlainTextExtension
    }
}

/// Whether a plain text extension can be read at the reader's position:
/// thirteen bytes opening with the size byte 12, a sub-block chain, and
/// text that is UTF-8.
pub open spec fn plain_text_readable(reader: ByteReader) -> bool {
    &&& reader.remaining() >= 13
    &&& reader.peek(0) == 12
    &&& subblock_chain(reader.stream(), reader.position() + 13) is Some
    &&& valid_utf8(subblock_chain(reader.stream(), reader.position() + 13)->Some_0.0)
}

impl PlainTextExtension {
    /// Reads the extension after its label, accepting any UTF-8 text.
    pub fn parse(reader: &mut ByteReader) -> (r: Result<
        PlainTextExtension,
        PlainTextExtensionParseError,
    >)
        requires
            old(reader).wf(),
        ensures
            final(reader).wf(),
            final(reader).stream() == old(reader).stream(),
            r is Ok <==> plain_text_readable(*old(reader)),
            old(reader).remaining() < 13 ==> r == Err::<
                PlainTextExtension,
                PlainTextExtensionParseError,
            >(PlainTextExtensionParseError::Io(IoError::UnexpectedEof)),
            old(reader).remaining() >= 13 && old(reader).peek(0) != 12 ==> r == Err::<
                PlainTextExtension,
                PlainTextExtensionParseError,
            >(
                PlainTextExtensionParseError::InvalidBlockSize {
                    expected: 12,
                    found: old(reader).peek(0) as usize,
                },
            ),
            old(reader).remaining() >= 13 && old(reader).peek(0) == 12 && subblock_chain(
                old(reader).stream(),
                old(reader).position() + 13,
            ) is None ==> r == Err::<PlainTextExtension, PlainTextExtensionParseError>(
                PlainTextExtensionParseError::Io(IoError::UnexpectedEof),
            ),
            old(reader).remaining() >= 13 && old(reader).peek(0) == 12 && subblock_chain(
                old(reader).stream(),
                old(reader).position() + 13,
            ) is Some && !valid_utf8(
                subblock_chain(old(reader).stream(), old(reader).position() + 13)->Some_0.0,
            ) ==> r == Err::<PlainTextExtension, PlainTextExtensionParseError>(
                PlainTextExtensionParseError::InvalidASCII,
            ),
            r is Ok ==> {
                let b = old(reader).ahead(13);
                let (text, end) = subblock_chain(
                    old(reader).stream(),
                    old(reader).position() + 13,
                )->Some_0;
                &&& r->Ok_0.text_grid_left_position == le16(b[1], b[2])
                &&& r->Ok_0.text_grid_top_position == le16(b[3], b[4])
                &&& r->Ok_0.text_grid_width == le16(b[5], b[6])
                &&& r->Ok_0.text_grid_height == le16(b[7], b[8])
                &&& r->Ok_0.char_cell_width == b[9]
                &&& r->Ok_0.char_cell_height == b[10]
                &&& r->Ok_0.text_foreground_color_index == b[11]
                &&& r->Ok_0.text_background_color_index == b[12]
                &&& r->Ok_0.plain_text_data@ == decode_utf8(text)
                &&& final(reader).position() == end
            },
    {
        let parameters: [u8; 13] = match read_n_byte::<13>(reader) {
            Ok(b) => b,
            Err(e) => {
                return Err(PlainTextExtensionParseError::Io(e));
            },
        };
        if parameters[0] != 12 {
            return Err(
                PlainTextExtensionParseError::InvalidBlockSize {
                    expected: 12,
                    found: parameters[0] as usize,
                },
            );
        }
        let plain_text_data_bytes = match read_subblock(reader) {
            Ok(b) => b,
            Err(e) => {
                return Err(PlainTextExtensionParseError::Io(e));
            },
        };
        // any UTF-8 text is accepted here
        let plain_text_data = match string_from_utf8(plain_text_data_bytes) {
            Some(t) => t,
            None => {
                return Err(PlainTextExtensionParseError::InvalidASCII);
            },
        };
        Ok(
            PlainTextExtension {
                text_grid_left_position: u16_from_le(parameters[1], parameters[2]),
                text_grid_top_position: u16_from_le(parameters[3], parameters[4]),
                text_grid_width: u16_from_le(parameters[5], parameters[6]),
                text_grid_height: u16_from_le(parameters[7], parameters[8]),
                char_cell_width: parameters[9],
                char_cell_height: parameters[10],
                text_foreground_color_index: parameters[11],
                text_background_color_index: parameters[12],
                plain_text_data,
            },
        )
    }

    /// Reads the extension after its label, accepting only ASCII text.
    pub fn parse_strict(reader: &mut ByteReader) -> (r: Result<
        PlainTextExtension,
        PlainTextExtensionParseError,
    >)
        requires
            old(reader).wf(),
        ensures
            final(reader).wf(),
            final(reader).stream() == old(reader).stream(),
            r is Ok <==> plain_text_readable(*old(reader)) && vstd::utf8::is_ascii_chars(
                decode_utf8(subblock_chain(old(reader).stream(), old(reader).position() + 13)->Some_0.0),
            ),
            r is Ok ==> r->Ok_0.plain_text_data@ == decode_utf8(
                subblock_chain(old(reader).stream(), old(reader).position() + 13)->Some_0.0,
            ),
            r is Ok ==> final(reader).position() == subblock_chain(
                old(reader).stream(),
                old(reader).position() + 13,
            )->Some_0.1,
            old(reader).remaining() < 13 ==> r == Err::<
                PlainTextExtension,
                PlainTextExtensionParseError,
            >(PlainTextExtensionParseError::Io(IoError::UnexpectedEof)),
            old(reader).remaining() >= 13 && old(reader).peek(0) != 12 ==> r == Err::<
                PlainTextExtension,
                PlainTextExtensionParseError,
            >(
                PlainTextExtensionParseError::InvalidBlockSize {
                    expected: 12,
                    found: old(reader).peek(0) as usize,
                },
            ),
            old(reader).remaining() >= 13 && old(reader).peek(0) == 12 && subblock_chain(
                old(reader).stream(),
                old(reader).position() + 13,
            ) is None ==> r == Err::<PlainTextExtension, PlainTextExtensionParseError>(
                PlainTextExtensionParseError::Io(IoError::UnexpectedEof),
            ),
            plain_text_readable(*old(reader)) && !vstd::utf8::is_ascii_chars(
                decode_utf8(subblock_chain(old(reader).stream(), old(reader).position() + 13)->Some_0.0),
            ) ==> r == Err::<PlainTextExtension, PlainTextExtensionParseError>(
                PlainTextExtensionParseError::InvalidASCII,
            ),
            old(reader).remaining() >= 13 && old(reader).peek(0) == 12 && subblock_chain(
                old(reader).stream(),
                old(reader).position() + 13,
            ) is Some && !valid_utf8(
                subblock_chain(old(reader).stream(), old(reader).position() + 13)->Some_0.0,
            ) ==> r == Err::<PlainTextExtension, PlainTextExtensionParseError>(
                PlainTextExtensionParseError::InvalidASCII,
            ),
    {
        let res = PlainTextExtension::parse(reader)?;
        if !res.plain_text_data.is_ascii() {
            return Err(PlainTextExtensionParseError::InvalidASCII);
        }
        Ok(res)
    }
}

/// The application extension: an identifier, an authentication code and
/// application data.
#[derive(Debug, Clone)]
pub struct ApplicationExtension {
    pub application_identifier: [u8; 8],
    pub application_code: [u8; 3],
    pub application_data: Vec<u8>,
}

/// Why no application extension could be read.
#[derive(Debug, Clone, Copy, PartialEq, Eq, Structural)]
pub enum ApplicationExtensionParseError {
    Io(IoError),
    /// The size byte is not 11; holds what was found.
    InvalidBlockSize(u8),
}

impl Block for ApplicationExtension {
    fn block_size() -> usize {
        11
    }

    fn version() -> Version {
        Version::Version89a
    }
}

impl LabeledBlock for ApplicationExtension {
    open spec fn spec_label() -> BlockLabel {
        BlockLabel::ApplicationExtension
    }

    fn label() -> (r: BlockLabel) {
        BlockLabel::ApplicationExtension
    }
}

impl ApplicationExtension {
    /// Reads the extension after its label: size byte 11, eight identifier
    /// bytes, three code bytes, then the data sub-blocks.
    pub fn parse(reader: &mut ByteReader) -> (r: Result<
        ApplicationExtension,
        ApplicationExtensionParseError,
    >)
        requires
            old(reader).wf(),
        ensures
            final(reader).wf(),
            final(reader).stream() == old(reader).stream(),
            r is Ok <==> old(reader).remaining() >= 12 && old(reader).peek(0) == 11
                && subblock_chain(old(reader).stream(), old(reader).position() + 12) is Some,
            old(reader).remaining() < 12 ==> r == Err::<
                ApplicationExtension,
                ApplicationExtensionParseError,
            >(ApplicationExtensionParseError::Io(IoError::UnexpectedEof)),
            old(reader).remaining() >= 12 && old(reader).peek(0) == 11 && subblock_chain(
                old(reader).stream(),
                old(reader).position() + 12,
            ) is None ==> r == Err::<ApplicationExtension, ApplicationExtensionParseError>(
                ApplicationExtensionParseError::Io(IoError::UnexpectedEof),
            ),
            old(reader).remaining() >= 12 && old(reader).peek(0) != 11 ==> r == Err::<
                ApplicationExtension,
                ApplicationExtensionParseError,
            >(ApplicationExtensionParseError::InvalidBlockSize(old(reader).peek(0))),
            r is Ok ==> {
                let b = old(reader).ahead(12);
                let (data, end) = subblock_chain(
                    old(reader).stream(),
                    old(reader).position() + 12,
                )->Some_0;
                &&& r->Ok_0.application_identifier@ == b.subrange(1, 9)
                &&& r->Ok_0.application_code@ == b.subrange(9, 12)
                &&& r->Ok_0.application_data@ == data
                &&& final(reader).position() == end
            },
    {
        let buf: [u8; 12] = match read_n_byte::<12>(reader) {
            Ok(b) => b,
            Err(e) => {
                return Err(ApplicationExtensionParseError::Io(e));
            },
        };
        if buf[0] != 11 {
            return Err(ApplicationExtensionParseError::InvalidBlockSize(buf[0]));
        }
        let application_data = match read_subblock(reader) {
            Ok(d) => d,
            Err(e) => {
                return Err(ApplicationExtensionParseError::Io(e));
            },
        };
        let application_identifier: [u8; 8] = [
            buf[1],
            buf[2],
            buf[3],
            buf[4],
            buf[5],
            buf[6],
            buf[7],
            buf[8],
        ];
        let application_code: [u8; 3] = [buf[9], buf[10], buf[11]];
        assert(application_identifier@ =~= buf@.subrange(1, 9));
        assert(application_code@ =~= buf@.subrange(9, 12));
        Ok(ApplicationExtension { application_identifier, application_code, application_data })
    }
}

/// The comment extension: free text.
#[derive(Debug, Clone)]
pub struct CommentExtension {
    pub comment_data: String,
}

/// Why no comment extension could be read.
#[derive(Debug, Clone, Copy, PartialEq, Eq, Structural)]
pub enum CommentExtensionParseError {
    Io(IoError),
    InvalidASCII,
}

impl Block for CommentExtension {
    fn block_size() -> usize {
        0
    }

    fn version() -> Version {
        Version::Version89a
    }
}

impl LabeledBlock for CommentExtension {
    open spec fn spec_label() -> BlockLabel {
        BlockLabel::CommentExtension
    }

    fn label() -> (r: BlockLabel) {
        BlockLabel::CommentExtension
    }
}

impl CommentExtension {
    /// Reads the comment sub-blocks after the label; the text must be UTF-8.
    pub fn parse(reader: &mut ByteReader) -> (r: Result<CommentExtension, CommentExtensionParseError>)
        requires
            old(reader).wf(),
        ensures
            final(reader).wf(),
            final(reader).stream() == old(reader).stream(),
            subblock_chain(old(reader).stream(), old(reader).position()) is None ==> r == Err::<
                CommentExtension,
                CommentExtensionParseError,
            >(CommentExtensionParseError::Io(IoError::UnexpectedEof)),
            subblock_chain(old(reader).stream(), old(reader).position()) matches Some((text, end))
                ==> {
                &&& !valid_utf8(text) ==> r == Err::<CommentExtension, CommentExtensionParseError>(
                    CommentExtensionParseError::InvalidASCII,
                )
                &&& valid_utf8(text) ==> r is Ok && r->Ok_0.comment_data@ == decode_utf8(text)
                    && final(reader).position() == end
            },
    {
        let comment_data_bytes = match read_subblock(reader) {
            Ok(b) => b,
            Err(e) => {
                return Err(CommentExtensionParseError::Io(e));
            },
        };
        match string_from_utf8(comment_data_bytes) {
            Some(comment_data) => Ok(CommentExtension { comment_data }),
            None => Err(CommentExtensionParseError::InvalidASCII),
        }
    }
}

} // verus!
