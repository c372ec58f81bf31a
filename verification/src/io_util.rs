//! Byte-level primitives: big-endian 24-bit and 16-bit integer codecs, a
//! bounds-checked byte source for parsing, and a seekable in-memory target
//! for applying patches.

use vstd::prelude::*;

use crate::err::Error;
use crate::err::ErrorKind;

verus! {

/// The three big-endian bytes that encode `v`, most significant byte first.
/// Values above 24 bits are silently truncated, matching the wire format.
pub open spec fn u24_bytes_of(v: u32) -> Seq<u8> {
    seq![
        (v / 0x10000 % 0x100) as u8,
        (v / 0x100 % 0x100) as u8,
        (v % 0x100) as u8,
    ]
}

/// The value of three big-endian bytes, most significant byte first.
pub open spec fn u24_value_of(b0: u8, b1: u8, b2: u8) -> u32 {
    (b0 * 0x10000 + b1 * 0x100 + b2) as u32
}

/// The two big-endian bytes that encode `v`.
pub open spec fn u16_bytes_of(v: u16) -> Seq<u8> {
    seq![(v / 0x100) as u8, (v % 0x100) as u8]
}

/// The value of two big-endian bytes.
pub open spec fn u16_value_of(b0: u8, b1: u8) -> u16 {
    (b0 * 0x100 + b1) as u16
}

/// Decoding the three bytes that encode `v` gives back `v` exactly when `v`
/// fits in 24 bits.
pub proof fn lemma_u24_round_trip(v: u32)
    requires
        v < 0x1000000,
    ensures
        u24_value_of(
            u24_bytes_of(v)[0],
            u24_bytes_of(v)[1],
            u24_bytes_of(v)[2],
        ) == v,
{
    assert(v / 0x10000 % 0x100 * 0x10000 + v / 0x100 % 0x100 * 0x100 + v % 0x100 == v)
        by (bit_vector)
        requires
            v < 0x1000000,
    ;
}

/// Decoding the two bytes that encode `v` gives back `v`.
pub proof fn lemma_u16_round_trip(v: u16)
    ensures
        u16_value_of(u16_bytes_of(v)[0], u16_bytes_of(v)[1]) == v,
{
    assert(v / 0x100 * 0x100 + v % 0x100 == v) by (bit_vector);
}

/// Encodes `v` as three big-endian bytes; values above 24 bits are silently
/// truncated.
pub fn to_u24_be_bytes(v: u32) -> (r: [u8; 3])
    ensures
        r@ == u24_bytes_of(v),
{
    let r = [(v / 0x10000 % 0x100) as u8, (v / 0x100 % 0x100) as u8, (v % 0x100) as u8];
    assert(r@ =~= u24_bytes_of(v));
    r
}

/// Decodes three big-endian bytes into their 24-bit value.
pub fn from_u24_be_bytes(bytes: &[u8]) -> (r: u32)
    requires
        bytes@.len() == 3,
    ensures
        r == u24_value_of(bytes@[0], bytes@[1], bytes@[2]),
{
    (bytes[0] as u32) * 0x10000 + (bytes[1] as u32) * 0x100 + (bytes[2] as u32)
}

/// Holds when `e` is a parsing error whose description reads `msg`.
pub open spec fn parsing_error_with(e: Error, msg: Seq<char>) -> bool {
    &&& e.kind is ParsingError
    &&& e.description matches Some(d) && d@ == msg
}

/// A sequential byte source: a buffer and a read position. Every read
/// consumes exactly the requested number of bytes or fails without
/// consuming any.
pub struct ByteReader {
    /// The bytes the reader walks over.
    pub data: Vec<u8>,
    /// The position of the next unread byte.
    pub pos: usize,
}

impl ByteReader {
    /// The read position never passes the end of the buffer.
    pub open spec fn wf(self) -> bool {
        self.pos <= self.data@.len()
    }

    /// A reader over `data`, positioned at its first byte.
    pub fn new(data: Vec<u8>) -> (r: ByteReader)
        ensures
            r.data@ == data@,
            r.pos == 0,
            r.wf(),
    {
        ByteReader { data, pos: 0 }
    }

    /// Reads exactly `n` bytes, or fails with a parsing error that reads
    /// `err_message` and consumes nothing.
    pub fn read_exact(&mut self, n: usize, err_message: String) -> (r: Result<Vec<u8>, Error>)
        requires
            old(self).wf(),
        ensures
            final(self).wf(),
            final(self).data@ == old(self).data@,
            old(self).pos + n <= old(self).data@.len() ==> {
                &&& r matches Ok(v) && v@ == old(self).data@.subrange(
                    old(self).pos as int,
                    old(self).pos + n,
                )
                &&& final(self).pos == old(self).pos + n
            },
            old(self).pos + n > old(self).data@.len() ==> {
                &&& r matches Err(e) && parsing_error_with(e, err_message@)
                &&& final(self).pos == old(self).pos
            },
    {
        if self.data.len() - self.pos < n {
            return Err(Error::new(ErrorKind::ParsingError).with_description(err_message));
        }
        let mut v: Vec<u8> = Vec::new();
        let mut i: usize = 0;
        while i < n
            invariant
                self.wf(),
                self.pos + n <= self.data@.len(),
                self.pos + n <= usize::MAX,
                i <= n,
                v@ == self.data@.subrange(self.pos as int, self.pos + i),
            decreases n - i,
        {
            v.push(self.data[self.pos + i]);
            assert(v@ =~= self.data@.subrange(self.pos as int, self.pos + i + 1));
            i = i + 1;
        }
        self.pos = self.pos + n;
        Ok(v)
    }

    /// Reads a 24-bit big-endian integer, or fails with a parsing error that
    /// reads `err_message`.
    pub fn read_u24_be(&mut self, err_message: String) -> (r: Result<u32, Error>)
        requires
            old(self).wf(),
        ensures
            final(self).wf(),
            final(self).data@ == old(self).data@,
            old(self).pos + 3 <= old(self).data@.len() ==> {
                &&& r matches Ok(v) && v == u24_value_of(
                    old(self).data@[old(self).pos as int],
                    old(self).data@[old(self).pos + 1],
                    old(self).data@[old(self).pos + 2],
                )
                &&& final(self).pos == old(self).pos + 3
            },
            old(self).pos + 3 > old(self).data@.len() ==> {
                &&& r matches Err(e) && parsing_error_with(e, err_message@)
                &&& final(self).pos == old(self).pos
            },
    {
        let buf = self.read_exact(3, err_message)?;
        Ok(from_u24_be_bytes(buf.as_slice()))
    }

    /// Reads a 16-bit big-endian integer, or fails with a parsing error that
    /// reads `err_message`.
    pub fn read_u16_be(&mut self, err_message: String) -> (r: Result<u16, Error>)
        requires
            old(self).wf(),
        ensures
            final(self).wf(),
            final(self).data@ == old(self).data@,
            old(self).pos + 2 <= old(self).data@.len() ==> {
                &&& r matches Ok(v) && v == u16_value_of(
                    old(self).data@[old(self).pos as int],
                    old(self).data@[old(self).pos + 1],
                )
                &&& final(self).pos == old(self).pos + 2
            },
            old(self).pos + 2 > old(self).data@.len() ==> {
                &&& r matches Err(e) && parsing_error_with(e, err_message@)
                &&& final(self).pos == old(self).pos
            },
    {
        let buf = self.read_exact(2, err_message)?;
        Ok((buf[0] as u16) * 0x100 + (buf[1] as u16))
    }

    /// Reads a single byte, or fails with a parsing error that reads
    /// `err_message`.
    pub fn read_u8(&mut self, err_message: String) -> (r: Result<u8, Error>)
        requires
            old(self).wf(),
        ensures
            final(self).wf(),
            final(self).data@ == old(self).data@,
            old(self).pos + 1 <= old(self).data@.len() ==> {
                &&& r matches Ok(v) && v == old(self).data@[old(self).pos as int]
                &&& final(self).pos == old(self).pos + 1
            },
            old(self).pos + 1 > old(self).data@.len() ==> {
                &&& r matches Err(e) && parsing_error_with(e, err_message@)
                &&& final(self).pos == old(self).pos
            },
    {
        let buf = self.read_exact(1, err_message)?;
        Ok(buf[0])
    }

    /// Reads as many bytes as `expected` holds and compares them against it.
    /// A short read fails with `read_error_message`; a mismatch fails with
    /// `parse_error_message`.
    pub fn assert_read(
        &mut self,
        expected: &[u8],
        read_error_message: String,
        parse_error_message: String,
    ) -> (r: Result<(), Error>)
        requires
            old(self).wf(),
        ensures
            final(self).wf(),
            final(self).data@ == old(self).data@,
            old(self).pos + expected@.len() > old(self).data@.len() ==> {
                &&& r matches Err(e) && parsing_error_with(e, read_error_message@)
                &&& final(self).pos == old(self).pos
            },
            old(self).pos + expected@.len() <= old(self).data@.len() ==> {
                &&& final(self).pos == old(self).pos + expected@.len()
                &&& old(self).data@.subrange(
                    old(self).pos as int,
                    old(self).pos + expected@.len(),
                ) == expected@ ==> (r matches Ok(v) && v == ())
                &&& old(self).data@.subrange(
                    old(self).pos as int,
                    old(self).pos + expected@.len(),
                ) != expected@ ==> (r matches Err(e) && parsing_error_with(
                    e,
                    parse_error_message@,
                ))
            },
    {
        let buf = self.read_exact(expected.len(), read_error_message)?;
        let n = expected.len();
        let mut i: usize = 0;
        let mut same: bool = true;
        while i < n
            invariant
                n == expected@.len(),
                buf@.len() == n,
                i <= n,
                same <==> (forall|j: int| 0 <= j < i ==> buf@[j] == expected@[j]),
            decreases n - i,
        {
            if buf[i] != expected[i] {
                same = false;
            }
            i = i + 1;
        }
        proof {
            let sub = old(self).data@.subrange(
                old(self).pos as int,
                old(self).pos + expected@.len(),
            );
            if same {
                assert(sub =~= expected@);
            } else {
                let j = choose|j: int| 0 <= j < n && buf@[j] != expected@[j];
                assert(sub[j] != expected@[j]);
            }
        }
        if !same {
            return Err(Error::new(ErrorKind::ParsingError).with_description(
                parse_error_message,
            ));
        }
        Ok(())
    }
}

/// How writing `p` at offset `off` transforms the bytes `t` of a target:
/// bytes inside the written range come from `p`, bytes before it and after
/// it keep their old values, and any gap between the old end of the target
/// and `off` is filled with zeroes. Writing nothing changes nothing, even
/// past the end of the target.
pub open spec fn spec_write_at(t: Seq<u8>, off: int, p: Seq<u8>) -> Seq<u8>
    recommends
        off >= 0,
{
    if p.len() == 0 {
        t
    } else {
        Seq::new(
            vstd::math::max(t.len() as int, off + p.len()) as nat,
            |i: int|
                if off <= i < off + p.len() {
                    p[i - off]
                } else if i < t.len() {
                    t[i]
                } else {
                    0u8
                },
        )
    }
}

/// Clamping the bytes `t` to at most `n`: bytes past `n` are dropped, and a
/// target already at or under `n` bytes is left as it is. Truncation never
/// grows a target.
pub open spec fn spec_truncate_to(t: Seq<u8>, n: u32) -> Seq<u8> {
    if n < t.len() {
        t.take(n as int)
    } else {
        t
    }
}

/// A writable, seekable, truncatable in-memory target: a byte buffer and a
/// write position. Writes past the current end extend the buffer, filling
/// any gap with zeroes.
pub struct Target {
    /// The bytes of the target.
    pub data: Vec<u8>,
    /// The position of the next write.
    pub pos: usize,
}

impl Target {
    /// A target over `data`, positioned at its first byte.
    pub fn new(data: Vec<u8>) -> (r: Target)
        ensures
            r.data@ == data@,
            r.pos == 0,
    {
        Target { data, pos: 0 }
    }

    /// Moves the write position to `offset`, counted from the start.
    pub fn seek(&mut self, offset: u32)
        ensures
            final(self).data@ == old(self).data@,
            final(self).pos == offset,
    {
        self.pos = offset as usize;
    }

    /// Writes every byte of `buf` at the current position and advances the
    /// position past them. Writing past the current end extends the target,
    /// filling any gap with zeroes; writing nothing is a no-op.
    pub fn write_all(&mut self, buf: &[u8])
        requires
            old(self).pos + buf@.len() <= usize::MAX,
        ensures
            final(self).data@ == spec_write_at(old(self).data@, old(self).pos as int, buf@),
            final(self).pos == old(self).pos + buf@.len(),
    {
        let ghost g: Seq<u8> = self.data@;
        let ghost p: int = self.pos as int;
        if buf.len() == 0 {
            return ;
        }
        while self.data.len() < self.pos
            invariant
                self.pos == p,
                g.len() <= self.data@.len(),
                self.data@.len() <= vstd::math::max(g.len() as int, p),
                forall|j: int| 0 <= j < self.data@.len() ==> self.data@[j] == (if j < g.len() {
                    g[j]
                } else {
                    0u8
                }),
            decreases self.pos - self.data@.len(),
        {
            self.data.push(0u8);
        }
        assert(self.data@.len() == vstd::math::max(g.len() as int, p));
        let n = buf.len();
        let mut i: usize = 0;
        while i < n
            invariant
                self.pos == p,
                0 < n == buf@.len(),
                p + n <= usize::MAX,
                i <= n,
                self.data@.len() == vstd::math::max(g.len() as int, p + i),
                forall|j: int| 0 <= j < self.data@.len() ==> self.data@[j] == (if p <= j < p
                    + i {
                    buf@[j - p]
                } else if j < g.len() {
                    g[j]
                } else {
                    0u8
                }),
            decreases n - i,
        {
            if self.pos + i < self.data.len() {
                self.data.set(self.pos + i, buf[i]);
            } else {
                self.data.push(buf[i]);
            }
            i = i + 1;
        }
        assert(self.data@ =~= spec_write_at(g, p, buf@));
        self.pos = self.pos + n;
    }

    /// Clamps the target to at most `amount` bytes. A target already at or
    /// under `amount` bytes is left as it is; truncation never grows the
    /// target. The write position is not moved.
    pub fn truncate(&mut self, amount: u32) -> (r: Result<(), Error>)
        ensures
            r matches Ok(v) && v == (),
            final(self).data@ == spec_truncate_to(old(self).data@, amount),
            final(self).pos == old(self).pos,
    {
        if (amount as usize) < self.data.len() {
            self.data.truncate(amount as usize);
            assert(self.data@ =~= spec_truncate_to(old(self).data@, amount));
        }
        Ok(())
    }
}

} // verus!
