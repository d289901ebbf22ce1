//! Big-endian integer encoding, and a seekable reader over an in-memory byte
//! buffer.
use vstd::prelude::*;

verus! {

/// The value of two big-endian bytes.
pub open spec fn be_u16_value(s: Seq<u8>) -> int {
    s[0] * 256 + s[1]
}

/// The value of four big-endian bytes.
pub open spec fn be_u32_value(s: Seq<u8>) -> int {
    s[0] * 16777216 + s[1] * 65536 + s[2] * 256 + s[3]
}

/// The big-endian encoding of a 16-bit value.
pub open spec fn be_u16_bytes(v: u16) -> Seq<u8> {
    seq![(v / 256) as u8, (v % 256) as u8]
}

/// The big-endian encoding of a 32-bit value.
pub open spec fn be_u32_bytes(v: u32) -> Seq<u8> {
    seq![
        (v / 16777216) as u8,
        ((v / 65536) % 256) as u8,
        ((v / 256) % 256) as u8,
        (v % 256) as u8,
    ]
}

/// Decoding an encoded value gives the value back.
pub proof fn lemma_be_u32_roundtrip(v: u32)
    ensures
        be_u32_bytes(v).len() == 4,
        be_u32_value(be_u32_bytes(v)) == v,
{
    let b = be_u32_bytes(v);
    assert(b[0] == v / 16777216);
    assert(b[1] == (v / 65536) % 256);
    assert(b[2] == (v / 256) % 256);
    assert(b[3] == v % 256);
    assert((v / 16777216) * 16777216 + ((v / 65536) % 256) * 65536 + ((v / 256) % 256) * 256 + v
        % 256 == v) by (nonlinear_arith);
}

/// Decoding an encoded value gives the value back.
pub proof fn lemma_be_u16_roundtrip(v: u16)
    ensures
        be_u16_bytes(v).len() == 2,
        be_u16_value(be_u16_bytes(v)) == v,
{
}

/// Encode a 32-bit value as four big-endian bytes.
pub fn u32_to_be(v: u32) -> (r: [u8; 4])
    ensures
        r@ == be_u32_bytes(v),
{
    [(v / 16777216) as u8, ((v / 65536) % 256) as u8, ((v / 256) % 256) as u8, (v % 256) as u8]
}

/// Encode a 16-bit value as two big-endian bytes.
pub fn u16_to_be(v: u16) -> (r: [u8; 2])
    ensures
        r@ == be_u16_bytes(v),
{
    [(v / 256) as u8, (v % 256) as u8]
}

/// Decode four big-endian bytes.
pub fn u32_from_be(b0: u8, b1: u8, b2: u8, b3: u8) -> (r: u32)
    ensures
        r == be_u32_value(seq![b0, b1, b2, b3]),
{
    (b0 as u32) * 16777216 + (b1 as u32) * 65536 + (b2 as u32) * 256 + (b3 as u32)
}

/// Decode two big-endian bytes.
pub fn u16_from_be(b0: u8, b1: u8) -> (r: u16)
    ensures
        r == be_u16_value(seq![b0, b1]),
{
    (b0 as u16) * 256 + (b1 as u16)
}

/// The reason a read failed.
#[derive(Debug, Clone, Copy, PartialEq, Eq)]
pub enum ReadError {
    UnexpectedEof,
}

/// Write big-endian integers to the end of a byte buffer.
pub trait WriteBE {
    fn write_u8(&mut self, val: u8);
    fn write_be_u16(&mut self, val: u16);
    fn write_be_u32(&mut self, val: u32);
}

impl WriteBE for Vec<u8> {
    fn write_u8(&mut self, val: u8)
        ensures
            final(self)@ == old(self)@.push(val),
    {
        self.push(val);
    }

    fn write_be_u16(&mut self, val: u16)
        ensures
            final(self)@ == old(self)@ + be_u16_bytes(val),
    {
        let b = u16_to_be(val);
        self.push(b[0]);
        self.push(b[1]);
        assert(self@ =~= old(self)@ + be_u16_bytes(val));
    }

    fn write_be_u32(&mut self, val: u32)
        ensures
            final(self)@ == old(self)@ + be_u32_bytes(val),
    {
        let b = u32_to_be(val);
        self.push(b[0]);
        self.push(b[1]);
        self.push(b[2]);
        self.push(b[3]);
        assert(self@ =~= old(self)@ + be_u32_bytes(val));
    }
}

/// Append all of `src` to `dst`.
pub fn extend_bytes(dst: &mut Vec<u8>, src: &[u8])
    ensures
        final(dst)@ == old(dst)@ + src@,
{
    let mut i: usize = 0;
    while i < src.len()
        invariant
            i <= src@.len(),
            dst@ == old(dst)@ + src@.subrange(0, i as int),
        decreases src@.len() - i,
    {
        dst.push(src[i]);
        i = i + 1;
        assert(dst@ =~= old(dst)@ + src@.subrange(0, i as int));
    }
    assert(src@.subrange(0, src@.len() as int) =~= src@);
}

/// A seekable reader over an in-memory buffer. Seeking past the end is
/// allowed; reading there fails.
pub struct ByteReader {
    data: Vec<u8>,
    pos: u64,
}

impl ByteReader {
    /// The bytes being read.
    pub closed spec fn data_view(&self) -> Seq<u8> {
        self.data@
    }

    /// The current read position.
    pub closed spec fn pos_view(&self) -> int {
        self.pos as int
    }

    /// A reader positioned at the start of `data`.
    pub fn new(data: Vec<u8>) -> (r: Self)
        ensures
            r.data_view() == data@,
            r.pos_view() == 0,
    {
        ByteReader { data, pos: 0 }
    }

    /// The length of the underlying buffer.
    pub fn len(&self) -> (r: usize)
        ensures
            r == self.data_view().len(),
    {
        self.data.len()
    }

    /// The current read position.
    pub fn position(&self) -> (r: u64)
        ensures
            r == self.pos_view(),
    {
        self.pos
    }

    /// Move to an absolute position.
    pub fn seek(&mut self, pos: u64)
        ensures
            final(self).data_view() == old(self).data_view(),
            final(self).pos_view() == pos,
    {
        self.pos = pos;
    }

    /// Move forward by `n` bytes.
    pub fn skip(&mut self, n: u64)
        requires
            old(self).pos_view() + n <= u64::MAX,
        ensures
            final(self).data_view() == old(self).data_view(),
            final(self).pos_view() == old(self).pos_view() + n,
    {
        self.pos = self.pos + n;
    }

    /// Read exactly `n` bytes, or fail if fewer remain.
    pub fn read_exact(&mut self, n: usize) -> (r: Result<Vec<u8>, ReadError>)
        ensures
            final(self).data_view() == old(self).data_view(),
            match r {
                Ok(v) => {
                    &&& old(self).pos_view() + n <= old(self).data_view().len()
                    &&& v@ == old(self).data_view().subrange(
                        old(self).pos_view(),
                        old(self).pos_view() + n,
                    )
                    &&& final(self).pos_view() == old(self).pos_view() + n
                },
                Err(e) => {
                    &&& e == ReadError::UnexpectedEof
                    &&& old(self).pos_view() + n > old(self).data_view().len()
                },
            },
    {
        let len = self.data.len();
        if self.pos > len as u64 || n as u64 > len as u64 - self.pos {
            return Err(ReadError::UnexpectedEof);
        }
        let start = self.pos as usize;
        let mut v: Vec<u8> = Vec::with_capacity(n);
        let mut i: usize = 0;
        while i < n
            invariant
                i <= n,
                start == self.pos,
                start + n <= self.data.len(),
                v@ == self.data@.subrange(start as int, start + i),
            decreases n - i,
        {
            v.push(self.data[start + i]);
            i = i + 1;
            assert(v@ =~= self.data@.subrange(start as int, start + i));
        }
        self.pos = self.pos + n as u64;
        Ok(v)
    }
}

/// Read big-endian integers from a stream.
pub trait ReadBE {
    fn read_u8(&mut self) -> Result<u8, ReadError>;
    fn read_be_u16(&mut self) -> Result<u16, ReadError>;
    fn read_be_u32(&mut self) -> Result<u32, ReadError>;
}

impl ReadBE for ByteReader {
    fn read_u8(&mut self) -> (r: Result<u8, ReadError>)
        ensures
            final(self).data_view() == old(self).data_view(),
            match r {
                Ok(v) => {
                    &&& old(self).pos_view() + 1 <= old(self).data_view().len()
                    &&& v == old(self).data_view()[old(self).pos_view()]
                    &&& final(self).pos_view() == old(self).pos_view() + 1
                },
                Err(e) => old(self).pos_view() + 1 > old(self).data_view().len(),
            },
    {
        if self.pos >= self.data.len() as u64 {
            return Err(ReadError::UnexpectedEof);
        }
        let v = self.data[self.pos as usize];
        self.pos = self.pos + 1;
        Ok(v)
    }

    fn read_be_u16(&mut self) -> (r: Result<u16, ReadError>)
        ensures
            final(self).data_view() == old(self).data_view(),
            match r {
                Ok(v) => {
                    &&& old(self).pos_view() + 2 <= old(self).data_view().len()
                    &&& v == be_u16_value(
                        old(self).data_view().subrange(
                            old(self).pos_view(),
                            old(self).pos_view() + 2,
                        ),
                    )
                    &&& final(self).pos_view() == old(self).pos_view() + 2
                },
                Err(e) => old(self).pos_view() + 2 > old(self).data_view().len(),
            },
    {
        let len = self.data.len() as u64;
        if self.pos > len || 2 > len - self.pos {
            return Err(ReadError::UnexpectedEof);
        }
        let p = self.pos as usize;
        let v = u16_from_be(self.data[p], self.data[p + 1]);
        self.pos = self.pos + 2;
        Ok(v)
    }

    fn read_be_u32(&mut self) -> (r: Result<u32, ReadError>)
        ensures
            final(self).data_view() == old(self).data_view(),
            match r {
                Ok(v) => {
                    &&& old(self).pos_view() + 4 <= old(self).data_view().len()
                    &&& v == be_u32_value(
                        old(self).data_view().subrange(
                            old(self).pos_view(),
                            old(self).pos_view() + 4,
                        ),
                    )
                    &&& final(self).pos_view() == old(self).pos_view() + 4
                },
                Err(e) => old(self).pos_view() + 4 > old(self).data_view().len(),
            },
    {
        let len = self.data.len() as u64;
        if self.pos > len || 4 > len - self.pos {
            return Err(ReadError::UnexpectedEof);
        }
        let p = self.pos as usize;
        let v = u32_from_be(self.data[p], self.data[p + 1], self.data[p + 2], self.data[p + 3]);
        self.pos = self.pos + 4;
        Ok(v)
    }
}

} // verus!

verus! {

/// Whether two byte sequences are equal.
pub fn bytes_eq(a: &[u8], b: &[u8]) -> (r: bool)
    ensures
        r == (a@ == b@),
{
    if a.len() != b.len() {
        return false;
    }
    let mut i: usize = 0;
    while i < a.len()
        invariant
            i <= a@.len(),
            a@.len() == b@.len(),
            forall|j: int| 0 <= j < i ==> a@[j] == b@[j],
        decreases a@.len() - i,
    {
        if a[i] != b[i] {
            return false;
        }
        i = i + 1;
    }
    assert(a@ =~= b@);
    true
}

/// Copy a byte slice into a new vector.
pub fn copy_bytes(a: &[u8]) -> (r: Vec<u8>)
    ensures
        r@ == a@,
{
    let mut r: Vec<u8> = Vec::new();
    extend_bytes(&mut r, a);
    r
}

} // verus!
