use vstd::prelude::*;

use crate::error::{Error, Result};

verus! {

/// Byte order of a multi-byte integer on the wire.
#[derive(Clone, Copy, Debug, PartialEq, Eq, Structural)]
pub enum Endian {
    Big,
    Little,
}

/// The 16 bit value of two bytes in the given order.
pub open spec fn u16_of(e: Endian, b0: u8, b1: u8) -> u16 {
    match e {
        Endian::Big => (b0 as int * 0x100 + b1 as int) as u16,
        Endian::Little => (b1 as int * 0x100 + b0 as int) as u16,
    }
}

/// The 16 bit value stored at index `i` of `d`.
pub open spec fn u16_at(e: Endian, d: Seq<u8>, i: int) -> u16 {
    u16_of(e, d[i], d[i + 1])
}

/// The 24 bit value stored at index `i` of `d`.
pub open spec fn u24_at(e: Endian, d: Seq<u8>, i: int) -> u32 {
    match e {
        Endian::Big => (d[i] as int * 0x10000 + u16_at(e, d, i + 1) as int) as u32,
        Endian::Little => (u16_at(e, d, i) as int + d[i + 2] as int * 0x10000) as u32,
    }
}

/// The 32 bit value stored at index `i` of `d`.
pub open spec fn u32_at(e: Endian, d: Seq<u8>, i: int) -> u32 {
    match e {
        Endian::Big => (u16_at(e, d, i) as int * 0x10000 + u16_at(e, d, i + 2) as int) as u32,
        Endian::Little => (u16_at(e, d, i) as int + u16_at(e, d, i + 2) as int * 0x10000) as u32,
    }
}

/// The 64 bit value stored at index `i` of `d`.
pub open spec fn u64_at(e: Endian, d: Seq<u8>, i: int) -> u64 {
    match e {
        Endian::Big => (u32_at(e, d, i) as int * 0x1_0000_0000 + u32_at(e, d, i + 4) as int) as u64,
        Endian::Little => (u32_at(e, d, i) as int + u32_at(e, d, i + 4) as int
            * 0x1_0000_0000) as u64,
    }
}

/// The two bytes that encode `v`.
pub open spec fn u16_bytes(e: Endian, v: u16) -> Seq<u8> {
    match e {
        Endian::Big => seq![(v / 0x100) as u8, (v % 0x100) as u8],
        Endian::Little => seq![(v % 0x100) as u8, (v / 0x100) as u8],
    }
}

/// The three bytes that encode `v`, for `v < 2^24`.
pub open spec fn u24_bytes(e: Endian, v: u32) -> Seq<u8> {
    match e {
        Endian::Big => seq![(v / 0x10000) as u8] + u16_bytes(e, (v % 0x10000) as u16),
        Endian::Little => u16_bytes(e, (v % 0x10000) as u16) + seq![(v / 0x10000) as u8],
    }
}

/// The four bytes that encode `v`.
pub open spec fn u32_bytes(e: Endian, v: u32) -> Seq<u8> {
    match e {
        Endian::Big => u16_bytes(e, (v / 0x10000) as u16) + u16_bytes(e, (v % 0x10000) as u16),
        Endian::Little => u16_bytes(e, (v % 0x10000) as u16) + u16_bytes(e, (v / 0x10000) as u16),
    }
}

/// The eight bytes that encode `v`.
pub open spec fn u64_bytes(e: Endian, v: u64) -> Seq<u8> {
    match e {
        Endian::Big => u32_bytes(e, (v / 0x1_0000_0000) as u32) + u32_bytes(
            e,
            (v % 0x1_0000_0000) as u32,
        ),
        Endian::Little => u32_bytes(e, (v % 0x1_0000_0000) as u32) + u32_bytes(
            e,
            (v / 0x1_0000_0000) as u32,
        ),
    }
}

/// `n` zero bytes.
pub open spec fn zeros(n: nat) -> Seq<u8> {
    Seq::new(n, |_i: int| 0u8)
}

/// `d` with the bytes from index `p` on replaced by `b`.
pub open spec fn splice(d: Seq<u8>, p: int, b: Seq<u8>) -> Seq<u8> {
    d.take(p) + b + d.skip(p + b.len())
}

/// Two splices at adjacent positions are one splice of the joined bytes.
pub broadcast proof fn lemma_splice_concat(d: Seq<u8>, p: int, a: Seq<u8>, b: Seq<u8>)
    requires
        0 <= p,
        p + a.len() + b.len() <= d.len(),
    ensures
        #[trigger] splice(splice(d, p, a), p + a.len(), b) == splice(d, p, a + b),
{
    assert(splice(splice(d, p, a), p + a.len(), b) =~= splice(d, p, a + b));
}

/// Bytes that hold `a + b` hold `a`, then `b`.
pub proof fn lemma_split(d: Seq<u8>, p: int, a: Seq<u8>, b: Seq<u8>)
    requires
        0 <= p,
        p + a.len() + b.len() <= d.len(),
        d.subrange(p, p + a.len() + b.len()) == a + b,
    ensures
        d.subrange(p, p + a.len()) == a,
        d.subrange(p + a.len(), p + a.len() + b.len()) == b,
{
    assert(d.subrange(p, p + a.len()) =~= (a + b).subrange(0, a.len() as int));
    assert((a + b).subrange(0, a.len() as int) =~= a);
    assert(d.subrange(p + a.len(), p + a.len() + b.len()) =~= (a + b).subrange(
        a.len() as int,
        (a.len() + b.len()) as int,
    ));
    assert((a + b).subrange(a.len() as int, (a.len() + b.len()) as int) =~= b);
}

/// Reading back the two bytes of `v`, as a range of `d`, gives `v`.
pub proof fn lemma_u16_at(e: Endian, v: u16, d: Seq<u8>, i: int)
    requires
        0 <= i,
        i + 2 <= d.len(),
        d.subrange(i, i + 2) == u16_bytes(e, v),
    ensures
        u16_at(e, d, i) == v,
{
    assert(d.subrange(i, i + 2)[0] == d[i]);
    assert(d.subrange(i, i + 2)[1] == d[i + 1]);
    lemma_u16_round_trip(e, v, d, i);
}

/// Reading back the two bytes of `v` gives `v`.
pub proof fn lemma_u16_round_trip(e: Endian, v: u16, d: Seq<u8>, i: int)
    requires
        0 <= i,
        i + 2 <= d.len(),
        d[i] == u16_bytes(e, v)[0],
        d[i + 1] == u16_bytes(e, v)[1],
    ensures
        u16_at(e, d, i) == v,
{
}

/// Reading back the four bytes of `v` gives `v`.
pub proof fn lemma_u32_round_trip(e: Endian, v: u32, d: Seq<u8>, i: int)
    requires
        0 <= i,
        i + 4 <= d.len(),
        d.subrange(i, i + 4) == u32_bytes(e, v),
    ensures
        u32_at(e, d, i) == v,
{
    let b = u32_bytes(e, v);
    assert(d[i] == b[0] && d[i + 1] == b[1] && d[i + 2] == b[2] && d[i + 3] == b[3]) by {
        assert(d.subrange(i, i + 4)[0] == d[i]);
        assert(d.subrange(i, i + 4)[1] == d[i + 1]);
        assert(d.subrange(i, i + 4)[2] == d[i + 2]);
        assert(d.subrange(i, i + 4)[3] == d[i + 3]);
    }
    match e {
        Endian::Big => {
            lemma_u16_round_trip(e, (v / 0x10000) as u16, d, i);
            lemma_u16_round_trip(e, (v % 0x10000) as u16, d, i + 2);
        },
        Endian::Little => {
            lemma_u16_round_trip(e, (v % 0x10000) as u16, d, i);
            lemma_u16_round_trip(e, (v / 0x10000) as u16, d, i + 2);
        },
    }
}

/// Reading back the three bytes of `v < 2^24` gives `v`.
pub proof fn lemma_u24_round_trip(e: Endian, v: u32, d: Seq<u8>, i: int)
    requires
        v < 0x100_0000,
        0 <= i,
        i + 3 <= d.len(),
        d.subrange(i, i + 3) == u24_bytes(e, v),
    ensures
        u24_at(e, d, i) == v,
{
    let b = u24_bytes(e, v);
    assert(d[i] == b[0] && d[i + 1] == b[1] && d[i + 2] == b[2]) by {
        assert(d.subrange(i, i + 3)[0] == d[i]);
        assert(d.subrange(i, i + 3)[1] == d[i + 1]);
        assert(d.subrange(i, i + 3)[2] == d[i + 2]);
    }
    match e {
        Endian::Big => lemma_u16_round_trip(e, (v % 0x10000) as u16, d, i + 1),
        Endian::Little => lemma_u16_round_trip(e, (v % 0x10000) as u16, d, i),
    }
}

/// Reading back the eight bytes of `v` gives `v`.
pub proof fn lemma_u64_round_trip(e: Endian, v: u64, d: Seq<u8>, i: int)
    requires
        0 <= i,
        i + 8 <= d.len(),
        d.subrange(i, i + 8) == u64_bytes(e, v),
    ensures
        u64_at(e, d, i) == v,
{
    let hi = (v / 0x1_0000_0000) as u32;
    let lo = (v % 0x1_0000_0000) as u32;
    let (first, second) = match e {
        Endian::Big => (hi, lo),
        Endian::Little => (lo, hi),
    };
    assert(d.subrange(i, i + 4) =~= d.subrange(i, i + 8).subrange(0, 4));
    assert(d.subrange(i + 4, i + 8) =~= d.subrange(i, i + 8).subrange(4, 8));
    assert(u64_bytes(e, v).subrange(0, 4) =~= u32_bytes(e, first));
    assert(u64_bytes(e, v).subrange(4, 8) =~= u32_bytes(e, second));
    lemma_u32_round_trip(e, first, d, i);
    lemma_u32_round_trip(e, second, d, i + 4);
}

/// The error for a buffer `d` in which fewer than `n` bytes follow index `p`.
pub open spec fn too_small(d: Seq<u8>, p: int, n: int) -> Error {
    Error::BufferTooSmall {
        size: d.len() as usize,
        expected: if p + n > usize::MAX {
            usize::MAX
        } else {
            (p + n) as usize
        },
    }
}

/// A std::io::Cursor like buffer interface with explicit byte order.
/// Reads and writes trust a prior `check_remaining` and require the bytes
/// they touch to lie inside the buffer.
#[derive(Debug)]
pub struct Cursor {
    buffer: Vec<u8>,
    pos: usize,
}

impl Cursor {
    /// The bytes of the underlying buffer.
    pub closed spec fn data(&self) -> Seq<u8> {
        self.buffer@
    }

    /// The cursor position.
    pub closed spec fn pos(&self) -> int {
        self.pos as int
    }

    /// The position lies inside the buffer or right at its end.
    pub open spec fn wf(&self) -> bool {
        0 <= self.pos() <= self.data().len() <= usize::MAX
    }

    /// The bytes from the position to the end of the buffer.
    pub open spec fn rest(&self) -> Seq<u8> {
        self.data().subrange(self.pos(), self.data().len() as int)
    }

    /// The error that `check_remaining(n)` gives on a too short buffer.
    pub open spec fn too_small(&self, n: int) -> Error {
        too_small(self.data(), self.pos(), n)
    }

    /// Constructs a new cursor at position zero on top of a buffer.
    pub fn new(buffer: Vec<u8>) -> (r: Cursor)
        ensures
            r.data() == buffer@,
            r.pos() == 0,
            r.wf(),
    {
        assert(buffer.len() == buffer@.len());
        Cursor { buffer, pos: 0 }
    }

    /// Returns the length of the underlying buffer.
    #[allow(clippy::len_without_is_empty)]
    pub fn len(&self) -> (r: usize)
        ensures
            r == self.data().len(),
    {
        self.buffer.len()
    }

    /// Returns the remaining length in bytes of the underlying buffer.
    pub fn remaining(&self) -> (r: usize)
        requires
            self.wf(),
        ensures
            r == self.data().len() - self.pos(),
    {
        self.buffer.len() - self.pos
    }

    /// Checks if the underlying buffer has the expected amount of space left.
    pub fn check_remaining(&self, expected: usize) -> (r: Result<()>)
        requires
            self.wf(),
        ensures
            r is Ok <==> self.pos() + expected <= self.data().len(),
            r is Err ==> r == Err::<(), Error>(self.too_small(expected as int)),
    {
        if self.buffer.len() - self.pos < expected {
            return Err(
                Error::BufferTooSmall {
                    size: self.buffer.len(),
                    expected: self.pos.saturating_add(expected),
                },
            );
        }
        Ok(())
    }

    /// Returns the cursor position in the underlying buffer.
    pub fn position(&self) -> (r: usize)
        ensures
            r == self.pos(),
    {
        self.pos
    }

    /// Sets the cursor position in the underlying buffer.
    pub fn set_position(&mut self, position: usize)
        requires
            old(self).wf(),
            position <= old(self).data().len(),
        ensures
            final(self).data() == old(self).data(),
            final(self).pos() == position,
    {
        self.pos = position;
    }

    /// Advances the cursor position by the given amount of bytes.
    pub fn skip(&mut self, count: usize)
        requires
            old(self).wf(),
            old(self).pos() + count <= old(self).data().len(),
        ensures
            final(self).data() == old(self).data(),
            final(self).pos() == old(self).pos() + count,
    {
        self.pos = self.pos + count;
    }

    /// Returns a shared reference to the underlying buffer.
    pub fn get_ref(&self) -> (r: &Vec<u8>)
        ensures
            r@ == self.data(),
    {
        &self.buffer
    }

    /// Consumes the cursor and returns the underlying buffer.
    pub fn into_inner(self) -> (r: Vec<u8>)
        ensures
            r@ == self.data(),
    {
        self.buffer
    }

    /// Reads `count` bytes and advances the cursor position.
    pub fn read_bytes(&mut self, count: usize) -> (r: Vec<u8>)
        requires
            old(self).wf(),
            old(self).pos() + count <= old(self).data().len(),
        ensures
            final(self).data() == old(self).data(),
            final(self).pos() == old(self).pos() + count,
            r@ == old(self).data().subrange(old(self).pos(), old(self).pos() + count),
    {
        let start = self.pos;
        let mut out: Vec<u8> = Vec::with_capacity(count);
        let mut i: usize = 0;
        while i < count
            invariant
                i <= count,
                start + count <= self.buffer@.len() <= usize::MAX,
                out@ == self.buffer@.subrange(start as int, start + i),
            decreases count - i,
        {
            out.push(self.buffer[start + i]);
            i = i + 1;
            assert(out@ =~= self.buffer@.subrange(start as int, start + i));
        }
        self.pos = start + count;
        out
    }

    /// Reads `N` bytes into an array and advances the cursor position.
    pub fn read_array<const N: usize>(&mut self) -> (r: [u8; N])
        requires
            old(self).wf(),
            old(self).pos() + N <= old(self).data().len(),
        ensures
            final(self).data() == old(self).data(),
            final(self).pos() == old(self).pos() + N,
            r@ == old(self).data().subrange(old(self).pos(), old(self).pos() + N),
    {
        let start = self.pos;
        let mut out = [0u8; N];
        let mut i: usize = 0;
        while i < N
            invariant
                i <= N,
                start + N <= self.buffer@.len() <= usize::MAX,
                out@.len() == N,
                forall|j: int| 0 <= j < i ==> out@[j] == self.buffer@[start + j],
            decreases N - i,
        {
            out[i] = self.buffer[start + i];
            i = i + 1;
        }
        self.pos = start + N;
        assert(out@ =~= self.buffer@.subrange(start as int, start + N));
        out
    }

    /// Reads an 8 bit integer value and advances the cursor position.
    pub fn read_u8(&mut self) -> (r: u8)
        requires
            old(self).wf(),
            old(self).pos() + 1 <= old(self).data().len(),
        ensures
            final(self).data() == old(self).data(),
            final(self).pos() == old(self).pos() + 1,
            r == old(self).data()[old(self).pos()],
    {
        let val = self.buffer[self.pos];
        self.pos = self.pos + 1;
        val
    }

    /// Reads a 16 bit integer value and advances the cursor position.
    pub fn read_u16(&mut self, e: Endian) -> (r: u16)
        requires
            old(self).wf(),
            old(self).pos() + 2 <= old(self).data().len(),
        ensures
            final(self).data() == old(self).data(),
            final(self).pos() == old(self).pos() + 2,
            r == u16_at(e, old(self).data(), old(self).pos()),
    {
        let val = self.peek_u16(e, 0);
        self.pos = self.pos + 2;
        val
    }

    /// Reads a 24 bit integer value and advances the cursor position.
    pub fn read_u24(&mut self, e: Endian) -> (r: u32)
        requires
            old(self).wf(),
            old(self).pos() + 3 <= old(self).data().len(),
        ensures
            final(self).data() == old(self).data(),
            final(self).pos() == old(self).pos() + 3,
            r == u24_at(e, old(self).data(), old(self).pos()),
    {
        let val = self.peek_u24(e, 0);
        self.pos = self.pos + 3;
        val
    }

    /// Reads a 32 bit integer value and advances the cursor position.
    pub fn read_u32(&mut self, e: Endian) -> (r: u32)
        requires
            old(self).wf(),
            old(self).pos() + 4 <= old(self).data().len(),
        ensures
            final(self).data() == old(self).data(),
            final(self).pos() == old(self).pos() + 4,
            r == u32_at(e, old(self).data(), old(self).pos()),
    {
        let val = self.peek_u32(e, 0);
        self.pos = self.pos + 4;
        val
    }

    /// Reads a 64 bit integer value and advances the cursor position.
    pub fn read_u64(&mut self, e: Endian) -> (r: u64)
        requires
            old(self).wf(),
            old(self).pos() + 8 <= old(self).data().len(),
        ensures
            final(self).data() == old(self).data(),
            final(self).pos() == old(self).pos() + 8,
            r == u64_at(e, old(self).data(), old(self).pos()),
    {
        let a = self.peek_u32(e, 0) as u64;
        let b = self.peek_u32(e, 4) as u64;
        self.pos = self.pos + 8;
        match e {
            Endian::Big => a * 0x1_0000_0000 + b,
            Endian::Little => b * 0x1_0000_0000 + a,
        }
    }

    /// Reads a 16 bit integer value at an offset from the cursor position
    /// without advancing the position.
    pub fn peek_u16(&self, e: Endian, offset: usize) -> (r: u16)
        requires
            self.wf(),
            self.pos() + offset + 2 <= self.data().len(),
        ensures
            r == u16_at(e, self.data(), self.pos() + offset),
    {
        let i = self.pos + offset;
        let b0 = self.buffer[i] as u16;
        let b1 = self.buffer[i + 1] as u16;
        match e {
            Endian::Big => b0 * 0x100 + b1,
            Endian::Little => b1 * 0x100 + b0,
        }
    }

    /// Reads a 24 bit integer value at an offset from the cursor position
    /// without advancing the position.
    pub fn peek_u24(&self, e: Endian, offset: usize) -> (r: u32)
        requires
            self.wf(),
            self.pos() + offset + 3 <= self.data().len(),
        ensures
            r == u24_at(e, self.data(), self.pos() + offset),
    {
        match e {
            Endian::Big => {
                let hi = self.buffer[self.pos + offset] as u32;
                let lo = self.peek_u16(e, offset + 1) as u32;
                hi * 0x10000 + lo
            },
            Endian::Little => {
                let lo = self.peek_u16(e, offset) as u32;
                let hi = self.buffer[self.pos + offset + 2] as u32;
                hi * 0x10000 + lo
            },
        }
    }

    /// Reads a 32 bit integer value at an offset from the cursor position
    /// without advancing the position.
    pub fn peek_u32(&self, e: Endian, offset: usize) -> (r: u32)
        requires
            self.wf(),
            self.pos() + offset + 4 <= self.data().len(),
        ensures
            r == u32_at(e, self.data(), self.pos() + offset),
    {
        let a = self.peek_u16(e, offset) as u32;
        let b = self.peek_u16(e, offset + 2) as u32;
        match e {
            Endian::Big => a * 0x10000 + b,
            Endian::Little => b * 0x10000 + a,
        }
    }

    /// Writes the given bytes and advances the cursor position.
    pub fn write_bytes(&mut self, src: &[u8])
        requires
            old(self).wf(),
            old(self).pos() + src@.len() <= old(self).data().len(),
        ensures
            final(self).data() == splice(old(self).data(), old(self).pos(), src@),
            final(self).pos() == old(self).pos() + src@.len(),
    {
        let start = self.pos;
        let ghost d0 = self.buffer@;
        let mut i: usize = 0;
        while i < src.len()
            invariant
                i <= src@.len(),
                start + src@.len() <= d0.len() <= usize::MAX,
                self.pos == start,
                self.buffer@ == splice(d0, start as int, src@.subrange(0, i as int)),
            decreases src@.len() - i,
        {
            self.buffer.set(start + i, src[i]);
            i = i + 1;
            assert(self.buffer@ =~= splice(d0, start as int, src@.subrange(0, i as int)));
        }
        assert(src@.subrange(0, src@.len() as int) =~= src@);
        self.pos = start + src.len();
    }

    /// Writes an 8 bit integer value and advances the cursor position.
    pub fn write_u8(&mut self, val: u8)
        requires
            old(self).wf(),
            old(self).pos() + 1 <= old(self).data().len(),
        ensures
            final(self).data() == splice(old(self).data(), old(self).pos(), seq![val]),
            final(self).pos() == old(self).pos() + 1,
    {
        let ghost d0 = self.buffer@;
        self.buffer.set(self.pos, val);
        assert(self.buffer@ =~= splice(d0, self.pos as int, seq![val]));
        self.pos = self.pos + 1;
    }

    /// Writes a 16 bit integer value and advances the cursor position.
    pub fn write_u16(&mut self, e: Endian, val: u16)
        requires
            old(self).wf(),
            old(self).pos() + 2 <= old(self).data().len(),
        ensures
            final(self).data() == splice(old(self).data(), old(self).pos(), u16_bytes(e, val)),
            final(self).pos() == old(self).pos() + 2,
    {
        let ghost d0 = self.buffer@;
        let hi = (val / 0x100) as u8;
        let lo = (val % 0x100) as u8;
        let (b0, b1) = match e {
            Endian::Big => (hi, lo),
            Endian::Little => (lo, hi),
        };
        self.buffer.set(self.pos, b0);
        self.buffer.set(self.pos + 1, b1);
        assert(self.buffer@ =~= splice(d0, self.pos as int, u16_bytes(e, val)));
        self.pos = self.pos + 2;
    }

    /// Writes a 24 bit integer value and advances the cursor position.
    pub fn write_u24(&mut self, e: Endian, val: u32)
        requires
            old(self).wf(),
            old(self).pos() + 3 <= old(self).data().len(),
            val < 0x100_0000,
        ensures
            final(self).data() == splice(old(self).data(), old(self).pos(), u24_bytes(e, val)),
            final(self).pos() == old(self).pos() + 3,
    {
        let ghost d0 = self.buffer@;
        let ghost pos0 = self.pos as int;
        let hi = (val / 0x10000) as u8;
        let lo = (val % 0x10000) as u16;
        match e {
            Endian::Big => {
                self.write_u8(hi);
                self.write_u16(e, lo);
                proof {
                    lemma_splice_concat(d0, pos0, seq![hi], u16_bytes(e, lo));
                }
            },
            Endian::Little => {
                self.write_u16(e, lo);
                self.write_u8(hi);
                proof {
                    lemma_splice_concat(d0, pos0, u16_bytes(e, lo), seq![hi]);
                }
            },
        }
    }

    /// Writes a 32 bit integer value and advances the cursor position.
    pub fn write_u32(&mut self, e: Endian, val: u32)
        requires
            old(self).wf(),
            old(self).pos() + 4 <= old(self).data().len(),
        ensures
            final(self).data() == splice(old(self).data(), old(self).pos(), u32_bytes(e, val)),
            final(self).pos() == old(self).pos() + 4,
    {
        let ghost d0 = self.buffer@;
        let ghost pos0 = self.pos as int;
        let hi = (val / 0x10000) as u16;
        let lo = (val % 0x10000) as u16;
        let (a, b) = match e {
            Endian::Big => (hi, lo),
            Endian::Little => (lo, hi),
        };
        self.write_u16(e, a);
        self.write_u16(e, b);
        proof {
            lemma_splice_concat(d0, pos0, u16_bytes(e, a), u16_bytes(e, b));
        }
    }

    /// Writes a 64 bit integer value and advances the cursor position.
    pub fn write_u64(&mut self, e: Endian, val: u64)
        requires
            old(self).wf(),
            old(self).pos() + 8 <= old(self).data().len(),
        ensures
            final(self).data() == splice(old(self).data(), old(self).pos(), u64_bytes(e, val)),
            final(self).pos() == old(self).pos() + 8,
    {
        let ghost d0 = self.buffer@;
        let ghost pos0 = self.pos as int;
        let hi = (val / 0x1_0000_0000) as u32;
        let lo = (val % 0x1_0000_0000) as u32;
        let (a, b) = match e {
            Endian::Big => (hi, lo),
            Endian::Little => (lo, hi),
        };
        self.write_u32(e, a);
        self.write_u32(e, b);
        proof {
            lemma_splice_concat(d0, pos0, u32_bytes(e, a), u32_bytes(e, b));
        }
    }
}

} // verus!
