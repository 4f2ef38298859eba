//! GIF-flavoured variable-width LZW decompression.
//!
//! The codebook keeps each learned word as a back reference `(offset, length)`
//! into the output already produced, plus the word's last byte, so no word is
//! ever allocated on its own.

use vstd::prelude::*;
use vstd::arithmetic::power2::*;
use crate::bits::{BitReader, LittleEndianReader, bits_le, lemma_bits_le_bound};

verus! {

/// Number of entries of the codebook.
pub const MAX_TABLE_SIZE: usize = 4096;

/// Largest code of the 12-bit code space; the codebook is full once the next
/// free index reaches it.
pub const MAX_CODE_VALUE: u16 = 0xFFF;

/// Why an LZW stream could not be decoded.
#[derive(Debug, Clone, Copy, PartialEq, Eq)]
pub enum LZWDecodeError {
    /// The bits ended before the end-of-information code.
    UnexpectedEOF,
    /// The minimum code size is outside `2..=10`.
    InvalidMinimumCodeSize,
    /// A code that the codebook does not hold yet.
    TooLargeCode { found: u16, table_size: u16 },
    /// The codebook has no word to extend.
    PrefixMismatch { reason: &'static str },
}

/// The clear code for a minimum code size.
pub open spec fn clear_code_of(mcs: nat) -> nat {
    pow2(mcs)
}

/// The codebook right after a reset: one single-byte word for each code below
/// the clear code, and empty words for the clear and end codes.
pub open spec fn initial_dict(mcs: nat) -> Seq<Seq<u8>> {
    Seq::new(
        (pow2(mcs) + 2) as nat,
        |c: int|
            if c < pow2(mcs) {
                seq![c as u8]
            } else {
                Seq::<u8>::empty()
            },
    )
}

/// Width in bits of the next code, after it grew `grow` times since the last reset.
pub open spec fn code_width(mcs: nat, grow: nat) -> nat {
    mcs + 1 + grow
}

/// How often the code width has grown once the next free index is `n1`:
/// codes get one bit wider when the index reaches the next power of two, up to 12 bits.
pub open spec fn step_grow(mcs: nat, grow: nat, n1: nat) -> nat {
    let width = code_width(mcs, grow);
    if n1 == pow2(width) && width < 12 {
        grow + 1
    } else {
        grow
    }
}

/// Decoding from bit `pos` on, with the codebook `dict` (one word per code
/// below the next free index `next`; `None` right after a reset), `prev` the
/// word decoded last and `out` the output so far.
pub open spec fn lzw_from(
    s: Seq<u8>,
    mcs: nat,
    pos: nat,
    grow: nat,
    next: Option<nat>,
    dict: Seq<Seq<u8>>,
    prev: Seq<u8>,
    out: Seq<u8>,
) -> Result<Seq<u8>, LZWDecodeError>
    decreases 8 * s.len() - pos,
{
    let width = code_width(mcs, grow);
    if pos + width > 8 * s.len() {
        Err(LZWDecodeError::UnexpectedEOF)
    } else {
        let code = bits_le(s, pos, width);
        let clear = clear_code_of(mcs);
        let at = pos + width;
        if code == clear + 1 {
            Ok(out)
        } else if code == clear {
            lzw_from(s, mcs, at, 0, None, initial_dict(mcs), prev, out)
        } else {
            match next {
                None => {
                    if code >= clear {
                        Err(LZWDecodeError::TooLargeCode { found: code as u16, table_size: 0 })
                    } else {
                        let w = seq![code as u8];
                        lzw_from(s, mcs, at, grow, Some(clear + 2), dict, w, out + w)
                    }
                },
                Some(n) => {
                    if n >= MAX_CODE_VALUE {
                        // full: only codes already in the codebook
                        if code >= n {
                            Err(
                                LZWDecodeError::TooLargeCode {
                                    found: code as u16,
                                    table_size: n as u16,
                                },
                            )
                        } else {
                            lzw_from(s, mcs, at, grow, next, dict, prev, out + dict[code as int])
                        }
                    } else if code > n {
                        Err(LZWDecodeError::TooLargeCode { found: code as u16, table_size: n as u16 })
                    } else {
                        // `code == n` is the word being defined: the last word plus its first byte
                        let w = if code < n {
                            dict[code as int]
                        } else {
                            prev.push(prev[0])
                        };
                        lzw_from(
                            s,
                            mcs,
                            at,
                            step_grow(mcs, grow, n + 1),
                            Some(n + 1),
                            dict.push(prev.push(w[0])),
                            w,
                            out + w,
                        )
                    }
                },
            }
        }
    }
}

/// What decoding the LZW bit stream `s` with minimum code size `mcs` yields.
pub open spec fn lzw_decode_spec(s: Seq<u8>, mcs: nat) -> Result<Seq<u8>, LZWDecodeError> {
    if mcs <= 1 || mcs >= 11 {
        Err(LZWDecodeError::InvalidMinimumCodeSize)
    } else {
        lzw_from(s, mcs, 0, 0, None, initial_dict(mcs), Seq::empty(), Seq::empty())
    }
}

/// `r` is the executable form of the outcome `e`.
pub open spec fn decoded_as(r: Result<Vec<u8>, LZWDecodeError>, e: Result<Seq<u8>, LZWDecodeError>) -> bool {
    match e {
        Ok(o) => r is Ok && r->Ok_0@ == o,
        Err(err) => r == Err::<Vec<u8>, LZWDecodeError>(err),
    }
}

/// Appends `out[offset .. offset + length]` to `out`.
fn append_back_reference(out: &mut Vec<u8>, offset: usize, length: usize)
    requires
        offset + length <= old(out).len(),
    ensures
        final(out)@ == old(out)@ + old(out)@.subrange(offset as int, offset + length),
{
    let ghost start = out@;
    assert(start.len() == old(out).len());
    let mut i: usize = 0;
    while i < length
        invariant
            offset + length <= start.len(),
            start.len() <= usize::MAX,
            i <= length,
            out@ == start + start.subrange(offset as int, offset + i),
        decreases length - i,
    {
        let b = out[offset + i];
        out.push(b);
        i = i + 1;
        assert(out@ =~= start + start.subrange(offset as int, offset + i));
    }
}

/// `p` refers to a non-empty stretch of `out`.
spec fn ref_ok(p: Option<(usize, usize)>, out: Seq<u8>) -> bool {
    match p {
        Some((o, l)) => 1 <= l && o + l <= out.len(),
        None => false,
    }
}

/// The stretch of `out` that `p` refers to.
spec fn deref(p: Option<(usize, usize)>, out: Seq<u8>) -> Seq<u8> {
    match p {
        Some((o, l)) => out.subrange(o as int, o + l),
        None => Seq::empty(),
    }
}

proof fn lemma_deref_extend(p: Option<(usize, usize)>, out: Seq<u8>, w: Seq<u8>)
    requires
        ref_ok(p, out),
    ensures
        ref_ok(p, out + w),
        deref(p, out + w) == deref(p, out),
{
    let (o, l) = p->Some_0;
    assert((out + w).subrange(o as int, o + l) =~= out.subrange(o as int, o + l));
}

/// The codebook of one LZW stream.
pub struct CodeBook {
    /// Back reference into the output for the word of each code without its last byte.
    prefix: Vec<Option<(usize, usize)>>,
    /// Last byte of the word of each code.
    suffix: Vec<u8>,
    /// The incomplete code being defined; `None` right after a reset.
    next_index: Option<usize>,
    clear_code: u16,
    end_of_information_code: u16,
}

impl CodeBook {
    /// The next free index as a specification value.
    pub closed spec fn spec_next(&self) -> Option<nat> {
        match self.next_index {
            None => None,
            Some(n) => Some(n as nat),
        }
    }

    pub closed spec fn spec_clear_code(&self) -> nat {
        self.clear_code as nat
    }

    pub closed spec fn spec_end_code(&self) -> nat {
        self.end_of_information_code as nat
    }

    /// The back reference of each code's word without its last byte.
    pub closed spec fn spec_prefix(&self) -> Seq<Option<(usize, usize)>> {
        self.prefix@
    }

    /// The last byte of each code's word.
    pub closed spec fn spec_suffix(&self) -> Seq<u8> {
        self.suffix@
    }

    /// The codebook for minimum code size `minimum_code_size`, holding its
    /// predefined single-byte words.
    pub fn new(minimum_code_size: u16) -> (r: CodeBook)
        requires
            2 <= minimum_code_size <= 10,
        ensures
            r.spec_next() is None,
            r.spec_clear_code() == pow2(minimum_code_size as nat),
            r.spec_end_code() == r.spec_clear_code() + 1,
            r.spec_prefix().len() == MAX_TABLE_SIZE,
            r.spec_suffix().len() == MAX_TABLE_SIZE,
            forall|c: int|
                0 <= c < r.spec_clear_code() ==> #[trigger] r.spec_suffix()[c] == c as u8
                    && r.spec_prefix()[c] == None::<(usize, usize)>,
            r.predefined(),
    {
        proof {
            lemma2_to64();
            if minimum_code_size < 10 {
                lemma_pow2_strictly_increases(minimum_code_size as nat, 10);
            }
            vstd::bits::lemma_u16_shl_is_mul(1, minimum_code_size);
        }
        let clear_code: u16 = 1u16 << minimum_code_size;
        let mut res = CodeBook {
            prefix: vec![None; MAX_TABLE_SIZE],
            suffix: vec![0u8; MAX_TABLE_SIZE],
            clear_code,
            end_of_information_code: clear_code + 1,
            next_index: None,
        };
        res.init();
        res
    }

    /// The prefix and suffix arrays are allocated and the predefined codes hold their byte.
    pub closed spec fn predefined(&self) -> bool {
        &&& self.prefix.len() == MAX_TABLE_SIZE
        &&& self.suffix.len() == MAX_TABLE_SIZE
        &&& self.clear_code <= 1024
        &&& forall|c: int|
            0 <= c < self.clear_code ==> self.prefix@[c] == None::<(usize, usize)> && self.suffix@[c] == c as u8
    }

    fn init(&mut self)
        requires
            old(self).prefix.len() == MAX_TABLE_SIZE,
            old(self).suffix.len() == MAX_TABLE_SIZE,
            old(self).clear_code <= 1024,
        ensures
            final(self).predefined(),
            final(self).next_index == old(self).next_index,
            final(self).clear_code == old(self).clear_code,
            final(self).end_of_information_code == old(self).end_of_information_code,
    {
        let mut code: u16 = 0;
        while code < self.clear_code
            invariant
                self.prefix.len() == MAX_TABLE_SIZE,
                self.suffix.len() == MAX_TABLE_SIZE,
                self.clear_code <= 1024,
                code <= self.clear_code,
                self.next_index == old(self).next_index,
                self.clear_code == old(self).clear_code,
                self.end_of_information_code == old(self).end_of_information_code,
                forall|c: int| 0 <= c < code ==> self.prefix@[c] == None::<(usize, usize)> && self.suffix@[c] == c as u8,
            decreases self.clear_code - code,
        {
            self.suffix.set(code as usize, code as u8);
            self.prefix.set(code as usize, None);
            code = code + 1;
            assert forall|c: int| 0 <= c < code implies self.prefix@[c] == None::<(usize, usize)> && self.suffix@[c] == c as u8 by {
                if c == code - 1 {
                    assert(self.suffix@[c] == (code - 1) as u16 as u8);
                }
            }
        }
    }

    /// Moves to the next free index.
    fn increment_next_index(&mut self)
        requires
            old(self).clear_code <= 1024,
            old(self).next_index matches Some(n) ==> n < MAX_CODE_VALUE,
        ensures
            final(self).prefix == old(self).prefix,
            final(self).suffix == old(self).suffix,
            final(self).clear_code == old(self).clear_code,
            final(self).end_of_information_code == old(self).end_of_information_code,
            final(self).next_index == match old(self).next_index {
                None => Some((old(self).clear_code + 2) as usize),
                Some(n) => Some((n + 1) as usize),
            },
    {
        match self.next_index {
            None => {
                self.next_index = Some(self.clear_code as usize + 2);
            },
            Some(x) => {
                self.next_index = Some(x + 1);
            },
        }
    }

    /// Whether no further code can be defined.
    fn is_full(&self) -> (r: bool)
        ensures
            r == (self.next_index matches Some(n) && n >= MAX_CODE_VALUE),
    {
        match self.next_index {
            Some(x) => x >= MAX_CODE_VALUE as usize,
            None => false,
        }
    }

    /// Forgets every learned code.
    fn clear(&mut self)
        requires
            old(self).predefined(),
        ensures
            final(self).predefined(),
            final(self).next_index is None,
            final(self).clear_code == old(self).clear_code,
            final(self).end_of_information_code == old(self).end_of_information_code,
    {
        self.next_index = None;
        let mut i: usize = self.clear_code as usize + 2;
        while i < MAX_TABLE_SIZE
            invariant
                self.predefined(),
                self.clear_code == old(self).clear_code,
                self.end_of_information_code == old(self).end_of_information_code,
                self.next_index is None,
                self.clear_code + 2 <= i <= MAX_TABLE_SIZE,
            decreases MAX_TABLE_SIZE - i,
        {
            self.prefix.set(i, None);
            i = i + 1;
        }
    }

    /// The number of codes in use.
    fn size(&self) -> (r: u16)
        requires
            self.next_index matches Some(n) ==> n <= MAX_CODE_VALUE,
        ensures
            r == match self.next_index {
                None => 0,
                Some(n) => n as u16,
            },
    {
        match self.next_index {
            None => 0,
            Some(n) => n as u16,
        }
    }

    /// The codebook holds the words of `dict`, and the incomplete code refers
    /// to `prev`, all as back references into `out`.
    closed spec fn holds(&self, mcs: nat, dict: Seq<Seq<u8>>, prev: Seq<u8>, out: Seq<u8>) -> bool {
        &&& self.predefined()
        &&& self.clear_code == pow2(mcs)
        &&& self.end_of_information_code == self.clear_code + 1
        &&& match self.next_index {
            None => dict == initial_dict(mcs),
            Some(n) => {
                &&& self.clear_code + 2 <= n <= MAX_CODE_VALUE
                &&& dict.len() == n
                &&& forall|c: int| 0 <= c < self.clear_code ==> dict[c] == seq![c as u8]
                &&& forall|c: int|
                    #![trigger dict[c]]
                    #![trigger self.prefix@[c]]
                    self.clear_code + 2 <= c < n ==> {
                        &&& ref_ok(self.prefix@[c], out)
                        &&& dict[c] == deref(self.prefix@[c], out).push(self.suffix@[c])
                    }
                &&& n < MAX_CODE_VALUE ==> {
                    &&& ref_ok(self.prefix@[n as int], out)
                    &&& prev == deref(self.prefix@[n as int], out)
                }
            },
        }
    }
}

impl CodeBook {
    /// Output growing keeps every back reference valid.
    proof fn lemma_holds_extend(&self, mcs: nat, dict: Seq<Seq<u8>>, prev: Seq<u8>, out: Seq<u8>, w: Seq<u8>)
        requires
            self.holds(mcs, dict, prev, out),
        ensures
            self.holds(mcs, dict, prev, out + w),
    {
        if let Some(n) = self.next_index {
            assert forall|c: int|
                #![trigger dict[c]]
                self.clear_code + 2 <= c < n implies {
                    &&& ref_ok(self.prefix@[c], out + w)
                    &&& dict[c] == deref(self.prefix@[c], out + w).push(self.suffix@[c])
                } by {
                lemma_deref_extend(self.prefix@[c], out, w);
            }
            if n < MAX_CODE_VALUE {
                lemma_deref_extend(self.prefix@[n as int], out, w);
            }
        }
    }
}

/// One decoding step that defines a code: the word `w` is emitted and the
/// codebook learns the next word.
proof fn lemma_lzw_define_step(
    s: Seq<u8>,
    mcs: nat,
    pos: nat,
    grow: nat,
    next: Option<nat>,
    dict: Seq<Seq<u8>>,
    prev: Seq<u8>,
    out: Seq<u8>,
    w: Seq<u8>,
)
    requires
        2 <= mcs <= 10,
        pos + code_width(mcs, grow) <= 8 * s.len(),
        bits_le(s, pos, code_width(mcs, grow)) != clear_code_of(mcs),
        bits_le(s, pos, code_width(mcs, grow)) != clear_code_of(mcs) + 1,
        next is None ==> {
            &&& bits_le(s, pos, code_width(mcs, grow)) < clear_code_of(mcs)
            &&& w == seq![bits_le(s, pos, code_width(mcs, grow)) as u8]
            &&& step_grow(mcs, grow, clear_code_of(mcs) + 2) == grow
        },
        next matches Some(n) ==> {
            let code = bits_le(s, pos, code_width(mcs, grow));
            &&& n < MAX_CODE_VALUE
            &&& code <= n
            &&& w == if code < n {
                dict[code as int]
            } else {
                prev.push(prev[0])
            }
        },
    ensures
        lzw_from(s, mcs, pos, grow, next, dict, prev, out) == match next {
            None => lzw_from(
                s,
                mcs,
                pos + code_width(mcs, grow),
                grow,
                Some(clear_code_of(mcs) + 2),
                dict,
                w,
                out + w,
            ),
            Some(n) => lzw_from(
                s,
                mcs,
                pos + code_width(mcs, grow),
                step_grow(mcs, grow, n + 1),
                Some(n + 1),
                dict.push(prev.push(w[0])),
                w,
                out + w,
            ),
        },
{
}

impl CodeBook {
    /// After a code was defined the codebook holds the grown dictionary.
    proof fn lemma_holds_define(
        &self,
        before: CodeBook,
        mcs: nat,
        dict: Seq<Seq<u8>>,
        prev: Seq<u8>,
        out: Seq<u8>,
        w: Seq<u8>,
    )
        requires
            before.holds(mcs, dict, prev, out),
            self.predefined(),
            self.clear_code == before.clear_code,
            self.end_of_information_code == before.end_of_information_code,
            w.len() >= 1,
            out.len() + w.len() <= usize::MAX,
            match before.next_index {
                None => {
                    &&& self.next_index == Some((before.clear_code + 2) as usize)
                    &&& self.suffix@ == before.suffix@
                },
                Some(n) => {
                    &&& n < MAX_CODE_VALUE
                    &&& self.next_index == Some((n + 1) as usize)
                    &&& self.suffix@ == before.suffix@.update(n as int, w[0])
                },
            },
            match self.next_index {
                Some(n1) => if n1 < MAX_CODE_VALUE {
                    self.prefix@ == before.prefix@.update(
                        n1 as int,
                        Some((out.len() as usize, w.len() as usize)),
                    )
                } else {
                    self.prefix@ == before.prefix@
                },
                None => false,
            },
        ensures
            self.holds(
                mcs,
                if before.next_index is Some {
                    dict.push(prev.push(w[0]))
                } else {
                    dict
                },
                w,
                out + w,
            ),
    {
        let out1 = out + w;
        let d1 = if before.next_index is Some {
            dict.push(prev.push(w[0]))
        } else {
            dict
        };
        let n1 = self.next_index->Some_0;
        if n1 < MAX_CODE_VALUE {
            assert(deref(self.prefix@[n1 as int], out1) =~= w);
        }
        assert forall|c: int|
            #![trigger d1[c]]
            #![trigger self.prefix@[c]]
            self.clear_code + 2 <= c < n1 implies {
                &&& ref_ok(self.prefix@[c], out1)
                &&& d1[c] == deref(self.prefix@[c], out1).push(self.suffix@[c])
            } by {
            assert(self.prefix@[c] == before.prefix@[c]);
            if before.next_index matches Some(n) && c == n {
                lemma_deref_extend(before.prefix@[c], out, w);
            } else {
                assert(before.next_index is Some);
                lemma_deref_extend(before.prefix@[c], out, w);
            }
        }
        if before.next_index is None {
            assert forall|c: int| 0 <= c < self.clear_code implies d1[c] == seq![c as u8] by {}
        }
    }
}

/// Decodes GIF LZW streams.
pub struct LZWDecoder {}

/// GIF-flavoured LZW decompression.
pub trait LZW {
    /// Decodes the LZW bit stream `data`, whose codes start at
    /// `minimum_code_size + 1` bits, up to its end-of-information code.
    fn decode(data: Vec<u8>, minimum_code_size: u8) -> (r: Result<Vec<u8>, LZWDecodeError>)
        ensures
            decoded_as(r, lzw_decode_spec(data@, minimum_code_size as nat)),
    ;
}

impl LZWDecoder {
    pub fn new() -> (r: LZWDecoder) {
        LZWDecoder {  }
    }
}

impl LZW for LZWDecoder {
    fn decode(data: Vec<u8>, minimum_code_size: u8) -> (r: Result<Vec<u8>, LZWDecodeError>) {
        if minimum_code_size <= 1 || minimum_code_size >= 11 {
            return Err(LZWDecodeError::InvalidMinimumCodeSize);
        }
        let ghost s = data@;
        let ghost mcs = minimum_code_size as nat;
        let mut codebook = CodeBook::new(minimum_code_size as u16);
        let mut output: Vec<u8> = Vec::new();
        let mut bit_reader = LittleEndianReader::new(data);

        // codes start one bit wider than the minimum code size (room for the
        // clear and end codes) and grow up to 12 bits
        let mut current_code_bits: u8 = minimum_code_size + 1;
        let ghost mut grow: nat = 0;
        let ghost mut dict: Seq<Seq<u8>> = initial_dict(mcs);
        let ghost mut prev: Seq<u8> = Seq::empty();
        proof {
            lemma2_to64();
            if mcs < 10 {
                lemma_pow2_strictly_increases(mcs, 10);
            }
            lemma_pow2_strictly_increases(1, mcs);
            assert(dict.len() == pow2(mcs) + 2);
        }

        loop
            invariant
                2 <= mcs <= 10,
                mcs == minimum_code_size,
                s == data@,
                4 <= pow2(mcs) <= 1024,
                bit_reader.wf(),
                bit_reader.stream() == s,
                bit_reader.cursor() <= 8 * s.len(),
                current_code_bits as nat == code_width(mcs, grow),
                current_code_bits <= 12,
                codebook.spec_next() is None ==> grow == 0,
                codebook.holds(mcs, dict, prev, output@),
                lzw_from(s, mcs, bit_reader.cursor(), grow, codebook.spec_next(), dict, prev, output@)
                    == lzw_decode_spec(s, mcs),
            decreases 8 * s.len() - bit_reader.cursor(),
        {
            let ghost c0 = bit_reader.cursor();
            let ghost out0 = output@;
            let code: u16 = match bit_reader.read_n::<u16>(current_code_bits) {
                Ok(x) => x,
                Err(_) => {
                    proof {
                        assert(c0 + code_width(mcs, grow) > 8 * s.len());
                        assert(lzw_from(s, mcs, c0, grow, codebook.spec_next(), dict, prev, out0)
                            == Err::<Seq<u8>, LZWDecodeError>(LZWDecodeError::UnexpectedEOF));
                    }
                    return Err(LZWDecodeError::UnexpectedEOF);
                },
            };
            proof {
                lemma_bits_le_bound(s, c0, current_code_bits as nat);
                vstd::arithmetic::power2::lemma_pow2_strictly_increases(
                    current_code_bits as nat,
                    13,
                );
                if current_code_bits < 12 {
                    lemma_pow2_strictly_increases(current_code_bits as nat, 12);
                }
            }
            let code_index = code as usize;
            let ghost cbh = codebook;
            let ghost grow0 = grow;
            proof {
                assert(code as nat == bits_le(s, c0, current_code_bits as nat));
            }

            // control codes
            if code == codebook.end_of_information_code {
                return Ok(output);
            }
            if code == codebook.clear_code {
                current_code_bits = minimum_code_size + 1;
                codebook.clear();
                proof {
                    grow = 0;
                    dict = initial_dict(mcs);
                }
                continue;
            }

            if codebook.is_full() {
                // no code can be defined any more: only known codes
                let n = codebook.next_index.unwrap();
                if code_index >= n {
                    return Err(
                        LZWDecodeError::TooLargeCode { found: code, table_size: codebook.size() },
                    );
                }
                let last_char = codebook.suffix[code_index];
                match codebook.prefix[code_index] {
                    Some((offset, length)) => {
                        append_back_reference(&mut output, offset, length);
                    },
                    None => {},
                }
                output.push(last_char);
                proof {
                    assert(output@ =~= out0 + dict[code as int]);
                    codebook.lemma_holds_extend(mcs, dict, prev, out0, dict[code as int]);
                }
                continue;
            }

            // the codebook is not full: every code read defines a new one
            let mut current_decoded_length: usize = 1;
            let ghost w: Seq<u8>;
            match codebook.next_index {
                None => {
                    // first code after a reset: a predefined one
                    if code >= codebook.clear_code {
                        return Err(
                            LZWDecodeError::TooLargeCode { found: code, table_size: codebook.size() },
                        );
                    }
                    output.push(codebook.suffix[code_index]);
                    proof {
                        w = seq![code as u8];
                        assert(output@ =~= out0 + w);
                    }
                },
                Some(current_incomplete_code) => {
                    if code_index < current_incomplete_code {
                        // a known code: copy its word
                        let last_char = codebook.suffix[code_index];
                        let mut first_char = last_char;
                        match codebook.prefix[code_index] {
                            Some((offset, length)) => {
                                first_char = output[offset];
                                append_back_reference(&mut output, offset, length);
                                let total = output.len();
                                proof {
                                    assert(total == out0.len() + length);
                                    assert(out0.len() >= 1);
                                }
                                current_decoded_length = length + 1;
                            },
                            None => {},
                        }
                        output.push(last_char);
                        // complete the code begun in the last round
                        codebook.suffix.set(current_incomplete_code, first_char);
                        proof {
                            w = dict[code as int];
                            assert(output@ =~= out0 + w);
                            assert(first_char == w[0]);
                        }
                    } else if code_index == current_incomplete_code {
                        // the code being defined: last word plus its own first byte
                        match codebook.prefix[current_incomplete_code] {
                            None => {
                                return Err(
                                    LZWDecodeError::PrefixMismatch {
                                        reason: "no prefix from last code",
                                    },
                                );
                            },
                            Some((offset, length)) => {
                                if length == 0 {
                                    return Err(
                                        LZWDecodeError::PrefixMismatch {
                                            reason: "zero length prefix from last code",
                                        },
                                    );
                                }
                                let first_char = output[offset];
                                codebook.suffix.set(current_incomplete_code, first_char);
                                append_back_reference(&mut output, offset, length);
                                let total = output.len();
                                proof {
                                    assert(total == out0.len() + length);
                                    assert(out0.len() >= 1);
                                }
                                current_decoded_length = length + 1;
                                output.push(first_char);
                                proof {
                                    w = prev.push(prev[0]);
                                    assert(output@ =~= out0 + w);
                                }
                            },
                        }
                    } else {
                        return Err(
                            LZWDecodeError::TooLargeCode { found: code, table_size: codebook.size() },
                        );
                    }
                },
            }
            let ghost defined = codebook.next_index is Some;

            // move on to the next code, widening codes when they need another bit
            codebook.increment_next_index();
            let next = codebook.next_index.unwrap();
            proof {
                lemma2_to64();
                if current_code_bits < 12 {
                    lemma_pow2_strictly_increases(current_code_bits as nat, 12);
                }
                vstd::bits::lemma_usize_shl_is_mul(1, current_code_bits as usize);
            }
            if next == (1usize << current_code_bits) && current_code_bits < 12 {
                current_code_bits = current_code_bits + 1;
                proof {
                    grow = grow + 1;
                }
            }
            proof {
                if !defined {
                    lemma_pow2_unfold(mcs + 1);
                }
            }

            // begin the next code with the word just decoded as its prefix
            if !codebook.is_full() {
                codebook.prefix.set(
                    next,
                    Some((output.len() - current_decoded_length, current_decoded_length)),
                );
            }
            let total = output.len();
            proof {
                assert(output@ == out0 + w);
                assert(total == out0.len() + w.len());
                assert(current_decoded_length == w.len());
                lemma_lzw_define_step(s, mcs, c0, grow0, cbh.spec_next(), dict, prev, out0, w);
                codebook.lemma_holds_define(cbh, mcs, dict, prev, out0, w);
                if defined {
                    dict = dict.push(prev.push(w[0]));
                }
                prev = w;
            }
        }
    }
}

} // verus!
