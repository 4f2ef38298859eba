//! An in-memory byte stream and the GIF sub-block chains read from it.

use vstd::prelude::*;

verus! {

/// Why bytes could not be read.
#[derive(Debug, Clone, Copy, PartialEq, Eq, Structural)]
pub enum IoError {
    /// The stream ended before the bytes asked for.
    UnexpectedEof,
}

/// A byte stream held in memory, read front to back.
pub struct ByteReader {
    data: Vec<u8>,
    pos: usize,
}

impl ByteReader {
    /// The whole stream.
    pub closed spec fn stream(&self) -> Seq<u8> {
        self.data@
    }

    /// How many bytes have been read.
    pub closed spec fn position(&self) -> nat {
        self.pos as nat
    }

    pub closed spec fn wf(&self) -> bool {
        self.pos <= self.data@.len()
    }

    /// How many bytes are left.
    pub open spec fn remaining(&self) -> int {
        self.stream().len() - self.position()
    }

    /// The `n` bytes after the read ones.
    pub open spec fn ahead(&self, n: nat) -> Seq<u8> {
        self.stream().subrange(self.position() as int, (self.position() + n) as int)
    }

    /// The byte `k` places after the read ones.
    pub open spec fn peek(&self, k: nat) -> u8 {
        self.stream()[(self.position() + k) as int]
    }

    /// A reader at the start of `data`.
    pub fn new(data: Vec<u8>) -> (r: ByteReader)
        ensures
            r.wf(),
            r.stream() == data@,
            r.position() == 0,
    {
        ByteReader { data, pos: 0 }
    }

    /// The position is never past the end.
    pub proof fn lemma_wf(&self)
        requires
            self.wf(),
        ensures
            self.position() <= self.stream().len(),
    {
    }

    /// Reads one byte.
    pub fn read_byte(&mut self) -> (r: Result<u8, IoError>)
        requires
            old(self).wf(),
        ensures
            final(self).wf(),
            final(self).stream() == old(self).stream(),
            r is Ok <==> old(self).remaining() >= 1,
            r is Ok ==> r->Ok_0 == old(self).peek(0) && final(self).position() == old(self).position()
                + 1,
            r is Err ==> r == Err::<u8, IoError>(IoError::UnexpectedEof) && final(self).position()
                == old(self).position(),
    {
        if self.pos < self.data.len() {
            let b = self.data[self.pos];
            self.pos = self.pos + 1;
            Ok(b)
        } else {
            Err(IoError::UnexpectedEof)
        }
    }

    /// Reads exactly `n` bytes, or none when fewer are left.
    pub fn read_exact(&mut self, n: usize) -> (r: Result<Vec<u8>, IoError>)
        requires
            old(self).wf(),
        ensures
            final(self).wf(),
            final(self).stream() == old(self).stream(),
            r is Ok <==> old(self).remaining() >= n,
            r is Ok ==> r->Ok_0@ == old(self).ahead(n as nat) && final(self).position()
                == old(self).position() + n,
            r is Err ==> r == Err::<Vec<u8>, IoError>(IoError::UnexpectedEof) && final(self).position()
                == old(self).position(),
    {
        if self.data.len() - self.pos < n {
            return Err(IoError::UnexpectedEof);
        }
        let mut out: Vec<u8> = Vec::new();
        let mut i: usize = 0;
        while i < n
            invariant
                self.pos + n <= self.data@.len(),
                self.data@.len() <= usize::MAX,
                i <= n,
                out@ == self.data@.subrange(self.pos as int, self.pos + i),
            decreases n - i,
        {
            out.push(self.data[self.pos + i]);
            i = i + 1;
            assert(out@ =~= self.data@.subrange(self.pos as int, self.pos + i));
        }
        self.pos = self.pos + n;
        Ok(out)
    }

    /// Skips exactly `n` bytes, or none when fewer are left.
    pub fn skip(&mut self, n: usize) -> (r: Result<(), IoError>)
        requires
            old(self).wf(),
        ensures
            final(self).wf(),
            final(self).stream() == old(self).stream(),
            r is Ok <==> old(self).remaining() >= n,
            r is Ok ==> final(self).position() == old(self).position() + n,
            r is Err ==> r == Err::<(), IoError>(IoError::UnexpectedEof) && final(self).position()
                == old(self).position(),
    {
        if self.data.len() - self.pos < n {
            return Err(IoError::UnexpectedEof);
        }
        self.pos = self.pos + n;
        Ok(())
    }
}

/// The value of the little-endian 16-bit integer `lo, hi`.
pub open spec fn le16(lo: u8, hi: u8) -> u16 {
    (lo as nat + 256 * hi as nat) as u16
}

/// Assembles a little-endian 16-bit integer.
pub fn u16_from_le(lo: u8, hi: u8) -> (r: u16)
    ensures
        r == le16(lo, hi),
        r as nat == lo as nat + 256 * hi as nat,
{
    lo as u16 + 256 * (hi as u16)
}

/// The sub-block chain that starts at `pos`: its bytes without the length
/// prefixes, and the position after its zero terminator; `None` when the
/// stream ends inside it.
pub open spec fn subblock_chain(s: Seq<u8>, pos: nat) -> Option<(Seq<u8>, nat)>
    decreases s.len() - pos,
{
    if pos >= s.len() {
        None
    } else {
        let l = s[pos as int] as nat;
        if l == 0 {
            Some((Seq::empty(), pos + 1))
        } else if pos + 1 + l > s.len() {
            None
        } else {
            match subblock_chain(s, pos + 1 + l) {
                Some((d, e)) => Some((s.subrange((pos + 1) as int, (pos + 1 + l) as int) + d, e)),
                None => None,
            }
        }
    }
}

/// A chain's end lies past its start.
pub proof fn lemma_subblock_chain_advances(s: Seq<u8>, pos: nat)
    requires
        subblock_chain(s, pos) is Some,
    ensures
        pos < subblock_chain(s, pos)->Some_0.1 <= s.len(),
    decreases s.len() - pos,
{
    let l = s[pos as int] as nat;
    if l != 0 {
        lemma_subblock_chain_advances(s, pos + 1 + l);
    }
}

/// Reads `N` bytes into an array.
pub fn read_n_byte<const N: usize>(reader: &mut ByteReader) -> (r: Result<[u8; N], IoError>)
    requires
        old(reader).wf(),
    ensures
        final(reader).wf(),
        final(reader).stream() == old(reader).stream(),
        r is Ok <==> old(reader).remaining() >= N,
        r is Ok ==> r->Ok_0@ == old(reader).ahead(N as nat) && final(reader).position()
            == old(reader).position() + N,
        r is Err ==> r == Err::<[u8; N], IoError>(IoError::UnexpectedEof),
{
    let bytes = reader.read_exact(N)?;
    let mut buf: [u8; N] = [0u8; N];
    let mut i: usize = 0;
    while i < N
        invariant
            bytes@.len() == N,
            i <= N,
            buf@.len() == N,
            forall|k: int| 0 <= k < i ==> buf@[k] == bytes@[k],
        decreases N - i,
    {
        buf[i] = bytes[i];
        i = i + 1;
    }
    assert(buf@ =~= bytes@);
    Ok(buf)
}

/// Reads a sub-block chain: length-prefixed blocks up to a zero-length one,
/// and returns their bytes without the prefixes.
pub fn read_subblock(reader: &mut ByteReader) -> (r: Result<Vec<u8>, IoError>)
    requires
        old(reader).wf(),
    ensures
        final(reader).wf(),
        final(reader).stream() == old(reader).stream(),
        r is Ok <==> subblock_chain(old(reader).stream(), old(reader).position()) is Some,
        r is Ok ==> {
            let (d, e) = subblock_chain(old(reader).stream(), old(reader).position())->Some_0;
            &&& r->Ok_0@ == d
            &&& final(reader).position() == e
        },
        r is Err ==> r == Err::<Vec<u8>, IoError>(IoError::UnexpectedEof),
{
    let ghost s = reader.stream();
    let ghost p0 = reader.position();
    let mut buf: Vec<u8> = Vec::new();
    loop
        invariant
            reader.wf(),
            reader.stream() == s,
            s == old(reader).stream(),
            p0 == old(reader).position(),
            subblock_chain(s, p0) == match subblock_chain(s, reader.position()) {
                Some((d, e)) => Some((buf@ + d, e)),
                None => None,
            },
        decreases s.len() - reader.position(),
    {
        let ghost p = reader.position();
        let size = reader.read_byte()?;
        if size == 0 {
            // the zero-length block ends the chain
            assert(buf@ + Seq::<u8>::empty() =~= buf@);
            return Ok(buf);
        }
        let block = reader.read_exact(size as usize)?;
        proof {
            match subblock_chain(s, reader.position()) {
                Some((d, e)) => {
                    assert(buf@ + (block@ + d) =~= (buf@ + block@) + d);
                },
                None => {},
            }
        }
        let mut i: usize = 0;
        let ghost b0 = buf@;
        while i < block.len()
            invariant
                i <= block@.len(),
                buf@ == b0 + block@.subrange(0, i as int),
            decreases block@.len() - i,
        {
            buf.push(block[i]);
            i = i + 1;
            assert(buf@ =~= b0 + block@.subrange(0, i as int));
        }
        assert(block@.subrange(0, block@.len() as int) =~= block@);
    }
}

/// Skips a sub-block chain.
pub fn skip_subblock(reader: &mut ByteReader) -> (r: Result<(), IoError>)
    requires
        old(reader).wf(),
    ensures
        final(reader).wf(),
        final(reader).stream() == old(reader).stream(),
        r is Ok <==> subblock_chain(old(reader).stream(), old(reader).position()) is Some,
        r is Ok ==> final(reader).position() == subblock_chain(
            old(reader).stream(),
            old(reader).position(),
        )->Some_0.1,
        r is Err ==> r == Err::<(), IoError>(IoError::UnexpectedEof),
{
    let ghost s = reader.stream();
    let ghost p0 = reader.position();
    loop
        invariant
            reader.wf(),
            reader.stream() == s,
            s == old(reader).stream(),
            p0 == old(reader).position(),
            (subblock_chain(s, p0) is Some <==> subblock_chain(s, reader.position()) is Some),
            subblock_chain(s, p0) is Some ==> subblock_chain(s, p0)->Some_0.1 == subblock_chain(
                s,
                reader.position(),
            )->Some_0.1,
        decreases s.len() - reader.position(),
    {
        let size = reader.read_byte()?;
        if size == 0 {
            return Ok(());
        }
        reader.skip(size as usize)?;
    }
}

/// Reads the image data of a table-based image: the LZW minimum code size,
/// then the sub-block chain of codes.
pub fn read_lzw_subblock(reader: &mut ByteReader) -> (r: Result<(u8, Vec<u8>), IoError>)
    requires
        old(reader).wf(),
    ensures
        final(reader).wf(),
        final(reader).stream() == old(reader).stream(),
        r is Ok <==> old(reader).remaining() >= 1 && subblock_chain(
            old(reader).stream(),
            old(reader).position() + 1,
        ) is Some,
        r is Ok ==> {
            let (d, e) = subblock_chain(old(reader).stream(), old(reader).position() + 1)->Some_0;
            &&& r->Ok_0.0 == old(reader).peek(0)
            &&& r->Ok_0.1@ == d
            &&& final(reader).position() == e
        },
        r is Err ==> r == Err::<(u8, Vec<u8>), IoError>(IoError::UnexpectedEof),
{
    let minimum_code_size = reader.read_byte()?;
    let data = read_subblock(reader)?;
    Ok((minimum_code_size, data))
}

} // verus!
