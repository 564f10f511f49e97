//! Verified binary stream primitives.
//!
//! A [`ByteReader`] walks an in-memory byte buffer under a chosen byte order;
//! a [`ByteWriter`] grows one.  Multi-byte integers are specified by explicit
//! arithmetic over the individual bytes, so that loading and saving can be
//! proved to be exact inverses.  32-bit floating-point fields are carried as
//! their raw bit patterns (`u32`); this module never interprets them.

use vstd::prelude::*;

use crate::system::IOEndian;

verus! {

/// An error raised while walking a binary stream.
#[derive(Clone, Copy, Debug, PartialEq, Eq, Structural)]
pub enum StreamError {
    /// Fewer bytes remained than the field required; `offset` is where the
    /// read began and `needed` how many bytes the field takes.
    ShortRead { offset: usize, needed: usize },
    /// A length-prefixed name held a byte outside the ASCII range.
    NonAsciiString { offset: usize },
}

/// The `u16` denoted by two bytes under the given byte order.
pub open spec fn spec_u16_of(big: bool, b0: u8, b1: u8) -> u16 {
    if big {
        ((b0 as u16) * 0x100 + (b1 as u16)) as u16
    } else {
        ((b1 as u16) * 0x100 + (b0 as u16)) as u16
    }
}

/// The `u32` denoted by four bytes under the given byte order.
pub open spec fn spec_u32_of(big: bool, b0: u8, b1: u8, b2: u8, b3: u8) -> u32 {
    if big {
        ((b0 as u32) * 0x1000000 + (b1 as u32) * 0x10000 + (b2 as u32) * 0x100 + (b3 as u32)) as u32
    } else {
        ((b3 as u32) * 0x1000000 + (b2 as u32) * 0x10000 + (b1 as u32) * 0x100 + (b0 as u32)) as u32
    }
}

/// The two bytes that encode a `u16` under the given byte order.
pub open spec fn spec_u16_bytes(big: bool, v: u16) -> Seq<u8> {
    let hi = (v / 0x100) as u8;
    let lo = (v % 0x100) as u8;
    if big {
        seq![hi, lo]
    } else {
        seq![lo, hi]
    }
}

/// The four bytes that encode a `u32` under the given byte order.
pub open spec fn spec_u32_bytes(big: bool, v: u32) -> Seq<u8> {
    let b0 = ((v / 0x1000000) % 0x100) as u8;
    let b1 = ((v / 0x10000) % 0x100) as u8;
    let b2 = ((v / 0x100) % 0x100) as u8;
    let b3 = (v % 0x100) as u8;
    if big {
        seq![b0, b1, b2, b3]
    } else {
        seq![b3, b2, b1, b0]
    }
}

/// Encoding then decoding a `u16` recovers it.
pub proof fn lemma_u16_round_trip(big: bool, v: u16)
    ensures
        spec_u16_of(big, spec_u16_bytes(big, v)[0], spec_u16_bytes(big, v)[1]) == v,
{
}

/// Decoding then encoding two bytes recovers them.
pub proof fn lemma_u16_bytes_of(big: bool, b0: u8, b1: u8)
    ensures
        spec_u16_bytes(big, spec_u16_of(big, b0, b1)) =~= seq![b0, b1],
{
}

/// Encoding then decoding a `u32` recovers it.
pub proof fn lemma_u32_round_trip(big: bool, v: u32)
    ensures
        spec_u32_of(
            big,
            spec_u32_bytes(big, v)[0],
            spec_u32_bytes(big, v)[1],
            spec_u32_bytes(big, v)[2],
            spec_u32_bytes(big, v)[3],
        ) == v,
{
}

/// Decoding then encoding four bytes recovers them.
pub proof fn lemma_u32_bytes_of(big: bool, b0: u8, b1: u8, b2: u8, b3: u8)
    ensures
        spec_u32_bytes(big, spec_u32_of(big, b0, b1, b2, b3)) =~= seq![b0, b1, b2, b3],
{
    if big {
        lemma_u32_digits(b0, b1, b2, b3);
    } else {
        lemma_u32_digits(b3, b2, b1, b0);
    }
}

/// The base-256 digits of `b0*2^24 + b1*2^16 + b2*2^8 + b3` are the bytes
/// themselves.
proof fn lemma_u32_digits(b0: u8, b1: u8, b2: u8, b3: u8)
    ensures
        ((b0 as int) * 0x1000000 + (b1 as int) * 0x10000 + (b2 as int) * 0x100 + (b3 as int))
            / 0x1000000 % 0x100 == b0,
        ((b0 as int) * 0x1000000 + (b1 as int) * 0x10000 + (b2 as int) * 0x100 + (b3 as int))
            / 0x10000 % 0x100 == b1,
        ((b0 as int) * 0x1000000 + (b1 as int) * 0x10000 + (b2 as int) * 0x100 + (b3 as int))
            / 0x100 % 0x100 == b2,
        ((b0 as int) * 0x1000000 + (b1 as int) * 0x10000 + (b2 as int) * 0x100 + (b3 as int))
            % 0x100 == b3,
{
    let x = (b0 as int) * 0x1000000 + (b1 as int) * 0x10000 + (b2 as int) * 0x100 + (b3 as int);
    vstd::arithmetic::div_mod::lemma_fundamental_div_mod_converse(
        x,
        0x1000000,
        b0 as int,
        (b1 as int) * 0x10000 + (b2 as int) * 0x100 + (b3 as int),
    );
    vstd::arithmetic::div_mod::lemma_small_mod(b0 as nat, 0x100);
    vstd::arithmetic::div_mod::lemma_fundamental_div_mod_converse(
        x,
        0x10000,
        (b0 as int) * 0x100 + (b1 as int),
        (b2 as int) * 0x100 + (b3 as int),
    );
    vstd::arithmetic::div_mod::lemma_fundamental_div_mod_converse(
        (b0 as int) * 0x100 + (b1 as int),
        0x100,
        b0 as int,
        b1 as int,
    );
    vstd::arithmetic::div_mod::lemma_fundamental_div_mod_converse(
        x,
        0x100,
        (b0 as int) * 0x10000 + (b1 as int) * 0x100 + (b2 as int),
        b3 as int,
    );
    vstd::arithmetic::div_mod::lemma_fundamental_div_mod_converse(
        (b0 as int) * 0x10000 + (b1 as int) * 0x100 + (b2 as int),
        0x100,
        (b0 as int) * 0x100 + (b1 as int),
        b2 as int,
    );
}

/// Rounds `n` up to the next multiple of four.
pub open spec fn spec_align4(n: int) -> int {
    ((n + 3) / 4) * 4
}

/// Rounds a byte size up to the next multiple of four.
pub fn align_to_multiple_of_four(n: usize) -> (r: usize)
    requires
        n + 3 <= usize::MAX,
    ensures
        r == spec_align4(n as int),
        n <= r < n + 4,
        r % 4 == 0,
{
    ((n + 3) / 4) * 4
}

/// Reads typed fields out of an in-memory byte buffer.
pub struct ByteReader {
    pub data: Vec<u8>,
    pub pos: usize,
    pub endian: IOEndian,
}

impl ByteReader {
    /// True when multi-byte fields are big-endian.
    pub open spec fn spec_big(&self) -> bool {
        self.endian is Big
    }

    /// The reader is consistent: the cursor sits inside (or at the end of)
    /// the buffer.
    pub open spec fn wf(&self) -> bool {
        self.pos <= self.data.len()
    }

    /// The reader still holds the same buffer and byte order as `old`.
    pub open spec fn same_stream(&self, old: &ByteReader) -> bool {
        self.data@ == old.data@ && self.endian == old.endian
    }

    pub fn new(data: Vec<u8>, endian: IOEndian) -> (r: ByteReader)
        ensures
            r.data@ == data@,
            r.pos == 0,
            r.endian == endian,
            r.wf(),
    {
        ByteReader { data, pos: 0, endian }
    }

    /// How many bytes remain past the cursor.
    pub fn remaining(&self) -> (r: usize)
        requires
            self.wf(),
        ensures
            r == self.data.len() - self.pos,
    {
        self.data.len() - self.pos
    }

    pub fn read_u8(&mut self) -> (r: Result<u8, StreamError>)
        requires
            old(self).wf(),
        ensures
            final(self).same_stream(old(self)),
            final(self).wf(),
            match r {
                Ok(v) => old(self).pos + 1 <= old(self).data.len() && v == old(self).data@[old(self).pos as int]
                    && final(self).pos == old(self).pos + 1,
                Err(e) => old(self).pos + 1 > old(self).data.len() && final(self).pos == old(
                    self,
                ).pos && e == (StreamError::ShortRead { offset: old(self).pos, needed: 1 }),
            },
    {
        if self.pos < self.data.len() {
            let v = self.data[self.pos];
            self.pos = self.pos + 1;
            Ok(v)
        } else {
            Err(StreamError::ShortRead { offset: self.pos, needed: 1 })
        }
    }

    pub fn read_u16(&mut self) -> (r: Result<u16, StreamError>)
        requires
            old(self).wf(),
        ensures
            final(self).same_stream(old(self)),
            final(self).wf(),
            match r {
                Ok(v) => old(self).pos + 2 <= old(self).data.len() && v == spec_u16_of(
                    old(self).spec_big(),
                    old(self).data@[old(self).pos as int],
                    old(self).data@[old(self).pos + 1],
                ) && final(self).pos == old(self).pos + 2,
                Err(e) => old(self).pos + 2 > old(self).data.len() && final(self).pos == old(
                    self,
                ).pos && e == (StreamError::ShortRead { offset: old(self).pos, needed: 2 }),
            },
    {
        if 2 <= self.data.len() - self.pos {
            let b0 = self.data[self.pos];
            let b1 = self.data[self.pos + 1];
            self.pos = self.pos + 2;
            if matches!(self.endian, IOEndian::Big) {
                Ok((b0 as u16) * 0x100 + (b1 as u16))
            } else {
                Ok((b1 as u16) * 0x100 + (b0 as u16))
            }
        } else {
            Err(StreamError::ShortRead { offset: self.pos, needed: 2 })
        }
    }

    /// Reads a packed 16-bit signed integer (two's complement).
    pub fn read_i16(&mut self) -> (r: Result<i16, StreamError>)
        requires
            old(self).wf(),
        ensures
            final(self).same_stream(old(self)),
            final(self).wf(),
            match r {
                Ok(v) => old(self).pos + 2 <= old(self).data.len() && v == spec_u16_of(
                    old(self).spec_big(),
                    old(self).data@[old(self).pos as int],
                    old(self).data@[old(self).pos + 1],
                ) as i16 && final(self).pos == old(self).pos + 2,
                Err(e) => old(self).pos + 2 > old(self).data.len() && final(self).pos == old(
                    self,
                ).pos && e == (StreamError::ShortRead { offset: old(self).pos, needed: 2 }),
            },
    {
        match self.read_u16() {
            Ok(v) => Ok(v as i16),
            Err(e) => Err(e),
        }
    }

    pub fn read_u32(&mut self) -> (r: Result<u32, StreamError>)
        requires
            old(self).wf(),
        ensures
            final(self).same_stream(old(self)),
            final(self).wf(),
            match r {
                Ok(v) => old(self).pos + 4 <= old(self).data.len() && v == spec_u32_of(
                    old(self).spec_big(),
                    old(self).data@[old(self).pos as int],
                    old(self).data@[old(self).pos + 1],
                    old(self).data@[old(self).pos + 2],
                    old(self).data@[old(self).pos + 3],
                ) && final(self).pos == old(self).pos + 4,
                Err(e) => old(self).pos + 4 > old(self).data.len() && final(self).pos == old(
                    self,
                ).pos && e == (StreamError::ShortRead { offset: old(self).pos, needed: 4 }),
            },
    {
        if 4 <= self.data.len() - self.pos {
            let b0 = self.data[self.pos];
            let b1 = self.data[self.pos + 1];
            let b2 = self.data[self.pos + 2];
            let b3 = self.data[self.pos + 3];
            self.pos = self.pos + 4;
            if matches!(self.endian, IOEndian::Big) {
                Ok((b0 as u32) * 0x1000000 + (b1 as u32) * 0x10000 + (b2 as u32) * 0x100 + (
                b3 as u32))
            } else {
                Ok((b3 as u32) * 0x1000000 + (b2 as u32) * 0x10000 + (b1 as u32) * 0x100 + (
                b0 as u32))
            }
        } else {
            Err(StreamError::ShortRead { offset: self.pos, needed: 4 })
        }
    }

    /// Reads the raw bit pattern of a 32-bit float.
    pub fn read_f32_bits(&mut self) -> (r: Result<u32, StreamError>)
        requires
            old(self).wf(),
        ensures
            final(self).same_stream(old(self)),
            final(self).wf(),
            match r {
                Ok(v) => old(self).pos + 4 <= old(self).data.len() && v == spec_u32_of(
                    old(self).spec_big(),
                    old(self).data@[old(self).pos as int],
                    old(self).data@[old(self).pos + 1],
                    old(self).data@[old(self).pos + 2],
                    old(self).data@[old(self).pos + 3],
                ) && final(self).pos == old(self).pos + 4,
                Err(e) => old(self).pos + 4 > old(self).data.len() && final(self).pos == old(
                    self,
                ).pos && e == (StreamError::ShortRead { offset: old(self).pos, needed: 4 }),
            },
    {
        self.read_u32()
    }

    /// Reads one byte as a boolean; any non-zero value is `true`.
    pub fn read_bool(&mut self) -> (r: Result<bool, StreamError>)
        requires
            old(self).wf(),
        ensures
            final(self).same_stream(old(self)),
            final(self).wf(),
            match r {
                Ok(v) => old(self).pos + 1 <= old(self).data.len() && v == (old(self).data@[old(self).pos as int] != 0)
                    && final(self).pos == old(self).pos + 1,
                Err(e) => old(self).pos + 1 > old(self).data.len() && final(self).pos == old(
                    self,
                ).pos && e == (StreamError::ShortRead { offset: old(self).pos, needed: 1 }),
            },
    {
        match self.read_u8() {
            Ok(v) => Ok(v != 0),
            Err(e) => Err(e),
        }
    }

    /// Reads `n` raw bytes.
    pub fn read_bytes(&mut self, n: usize) -> (r: Result<Vec<u8>, StreamError>)
        requires
            old(self).wf(),
        ensures
            final(self).same_stream(old(self)),
            final(self).wf(),
            match r {
                Ok(v) => old(self).pos + n <= old(self).data.len() && v@ == old(
                    self,
                ).data@.subrange(old(self).pos as int, old(self).pos + n) && final(self).pos == old(
                    self,
                ).pos + n,
                Err(e) => old(self).pos + n > old(self).data.len() && final(self).pos == old(
                    self,
                ).pos && e == (StreamError::ShortRead { offset: old(self).pos, needed: n }),
            },
    {
        if n <= self.data.len() - self.pos {
            let mut out: Vec<u8> = Vec::new();
            let mut i: usize = 0;
            while i < n
                invariant
                    i <= n,
                    self.pos == old(self).pos,
                    self.data@ == old(self).data@,
                    self.endian == old(self).endian,
                    self.pos + n <= self.data.len(),
                    out@ == self.data@.subrange(self.pos as int, self.pos + i),
                decreases n - i,
            {
                out.push(self.data[self.pos + i]);
                i = i + 1;
                proof {
                    assert(out@ =~= self.data@.subrange(self.pos as int, self.pos + i));
                }
            }
            self.pos = self.pos + n;
            Ok(out)
        } else {
            Err(StreamError::ShortRead { offset: self.pos, needed: n })
        }
    }
}

/// Relies on `String::from_utf8`: a buffer of ASCII bytes is valid UTF-8 and
/// decodes to exactly the characters with the same code points.
#[verifier::external_body]
fn string_from_ascii(bytes: Vec<u8>) -> (r: String)
    requires
        forall|i: int| 0 <= i < bytes@.len() ==> bytes@[i] < 0x80,
    ensures
        r@.len() == bytes@.len(),
        forall|i: int| 0 <= i < bytes@.len() ==> r@[i] == bytes@[i] as char,
        forall|i: int| 0 <= i < bytes@.len() ==> r@[i] as u8 == bytes@[i],
        r@ == bytes@.map_values(|b: u8| b as char),
{
    match String::from_utf8(bytes) {
        Ok(s) => s,
        Err(_) => String::new(),
    }
}

impl ByteReader {
    /// Reads a 32-bit-length-prefixed ASCII name.
    pub fn read_prefixed_string(&mut self) -> (r: Result<String, StreamError>)
        requires
            old(self).wf(),
        ensures
            final(self).same_stream(old(self)),
            final(self).wf(),
            match r {
                Ok(s) => {
                    let len = spec_u32_of(
                        old(self).spec_big(),
                        old(self).data@[old(self).pos as int],
                        old(self).data@[old(self).pos + 1],
                        old(self).data@[old(self).pos + 2],
                        old(self).data@[old(self).pos + 3],
                    );
                    &&& old(self).pos + 4 + len <= old(self).data.len()
                    &&& s@ == old(self).data@.subrange(
                        old(self).pos + 4,
                        old(self).pos + 4 + len,
                    ).map_values(|b: u8| b as char)
                    &&& forall|i: int|
                        0 <= i < s@.len() ==> (s@[i] as u8) < 0x80 && s@[i] as u8 == old(
                            self,
                        ).data@[old(self).pos + 4 + i]
                    &&& final(self).pos == old(self).pos + 4 + len
                },
                Err(_) => {
                    let len = spec_u32_of(
                        old(self).spec_big(),
                        old(self).data@[old(self).pos as int],
                        old(self).data@[old(self).pos + 1],
                        old(self).data@[old(self).pos + 2],
                        old(self).data@[old(self).pos + 3],
                    );
                    &&& final(self).pos == old(self).pos
                    &&& (old(self).pos + 4 > old(self).data.len() || old(self).pos + 4 + len > old(
                        self,
                    ).data.len() || exists|i: int|
                        0 <= i < len && #[trigger] old(self).data@[old(self).pos + 4 + i] >= 0x80)
                },
            },
    {
        let start = self.pos;
        let len = match self.read_u32() {
            Ok(v) => v,
            Err(e) => {
                return Err(e);
            },
        };
        if len as usize > self.data.len() - self.pos {
            self.pos = start;
            return Err(StreamError::ShortRead { offset: start, needed: len as usize });
        }
        let bytes = match self.read_bytes(len as usize) {
            Ok(v) => v,
            Err(e) => {
                self.pos = start;
                return Err(e);
            },
        };
        let mut i: usize = 0;
        while i < bytes.len()
            invariant
                i <= bytes@.len(),
                forall|j: int| 0 <= j < i ==> bytes@[j] < 0x80,
                self.data@ == old(self).data@,
                self.endian == old(self).endian,
                self.wf(),
                start == old(self).pos,
                self.pos == old(self).pos + 4 + bytes@.len(),
                old(self).pos + 4 + bytes@.len() <= old(self).data.len(),
                bytes@.len() == spec_u32_of(
                    old(self).spec_big(),
                    old(self).data@[old(self).pos as int],
                    old(self).data@[old(self).pos + 1],
                    old(self).data@[old(self).pos + 2],
                    old(self).data@[old(self).pos + 3],
                ),
                bytes@ == old(self).data@.subrange(
                    old(self).pos + 4,
                    old(self).pos + 4 + bytes@.len(),
                ),
            decreases bytes@.len() - i,
        {
            if bytes[i] >= 0x80 {
                self.pos = start;
                proof {
                    assert(bytes@[i as int] == old(self).data@[old(self).pos + 4 + i]);
                }
                return Err(StreamError::NonAsciiString { offset: start });
            }
            i = i + 1;
        }
        Ok(string_from_ascii(bytes))
    }
}

/// Appends typed fields to a growing byte buffer.
pub struct ByteWriter {
    pub data: Vec<u8>,
    pub endian: IOEndian,
}

impl ByteWriter {
    /// True when multi-byte fields are big-endian.
    pub open spec fn spec_big(&self) -> bool {
        self.endian is Big
    }

    pub fn new(endian: IOEndian) -> (r: ByteWriter)
        ensures
            r.data@ == Seq::<u8>::empty(),
            r.endian == endian,
    {
        ByteWriter { data: Vec::new(), endian }
    }

    /// Hands the accumulated bytes out.
    pub fn into_vec(self) -> (r: Vec<u8>)
        ensures
            r@ == self.data@,
    {
        self.data
    }

    pub fn write_u8(&mut self, v: u8)
        ensures
            final(self).endian == old(self).endian,
            final(self).data@ == old(self).data@.push(v),
    {
        self.data.push(v);
    }

    pub fn write_u16(&mut self, v: u16)
        ensures
            final(self).endian == old(self).endian,
            final(self).data@ == old(self).data@ + spec_u16_bytes(old(self).spec_big(), v),
    {
        let hi = (v / 0x100) as u8;
        let lo = (v % 0x100) as u8;
        if matches!(self.endian, IOEndian::Big) {
            self.data.push(hi);
            self.data.push(lo);
        } else {
            self.data.push(lo);
            self.data.push(hi);
        }
        proof {
            assert(self.data@ =~= old(self).data@ + spec_u16_bytes(old(self).spec_big(), v));
        }
    }

    /// Writes a packed 16-bit signed integer (two's complement).
    pub fn write_i16(&mut self, v: i16)
        ensures
            final(self).endian == old(self).endian,
            final(self).data@ == old(self).data@ + spec_u16_bytes(old(self).spec_big(), v as u16),
    {
        self.write_u16(v as u16);
    }

    pub fn write_u32(&mut self, v: u32)
        ensures
            final(self).endian == old(self).endian,
            final(self).data@ == old(self).data@ + spec_u32_bytes(old(self).spec_big(), v),
    {
        let b0 = ((v / 0x1000000) % 0x100) as u8;
        let b1 = ((v / 0x10000) % 0x100) as u8;
        let b2 = ((v / 0x100) % 0x100) as u8;
        let b3 = (v % 0x100) as u8;
        if matches!(self.endian, IOEndian::Big) {
            self.data.push(b0);
            self.data.push(b1);
            self.data.push(b2);
            self.data.push(b3);
        } else {
            self.data.push(b3);
            self.data.push(b2);
            self.data.push(b1);
            self.data.push(b0);
        }
        proof {
            assert(self.data@ =~= old(self).data@ + spec_u32_bytes(old(self).spec_big(), v));
        }
    }

    /// Writes the raw bit pattern of a 32-bit float.
    pub fn write_f32_bits(&mut self, v: u32)
        ensures
            final(self).endian == old(self).endian,
            final(self).data@ == old(self).data@ + spec_u32_bytes(old(self).spec_big(), v),
    {
        self.write_u32(v);
    }

    /// Writes a boolean as one byte, `true` as 1.
    pub fn write_bool(&mut self, v: bool)
        ensures
            final(self).endian == old(self).endian,
            final(self).data@ == old(self).data@.push(if v { 1u8 } else { 0u8 }),
    {
        self.write_u8(if v { 1 } else { 0 });
    }

    /// Appends raw bytes verbatim.
    pub fn write_bytes(&mut self, bytes: &Vec<u8>)
        ensures
            final(self).endian == old(self).endian,
            final(self).data@ == old(self).data@ + bytes@,
    {
        let mut i: usize = 0;
        while i < bytes.len()
            invariant
                i <= bytes@.len(),
                self.endian == old(self).endian,
                self.data@ == old(self).data@ + bytes@.subrange(0, i as int),
            decreases bytes@.len() - i,
        {
            self.data.push(bytes[i]);
            i = i + 1;
            proof {
                assert(self.data@ =~= old(self).data@ + bytes@.subrange(0, i as int));
            }
        }
        proof {
            assert(self.data@ =~= old(self).data@ + bytes@);
        }
    }

    /// Writes a 32-bit-length-prefixed ASCII name.
    pub fn write_prefixed_string(&mut self, s: &String)
        requires
            s.is_ascii(),
            s@.len() <= u32::MAX,
        ensures
            final(self).endian == old(self).endian,
            final(self).data@ == old(self).data@ + spec_u32_bytes(
                old(self).spec_big(),
                s@.len() as u32,
            ) + s@.map_values(|c: char| c as u8),
    {
        let st = s.as_str();
        let bytes = st.as_bytes();
        proof {
            broadcast use vstd::string::is_ascii_spec_bytes;

            assert(vstd::string::is_ascii(st));
            assert(bytes@ =~= s@.map_values(|c: char| c as u8));
        }
        self.write_u32(bytes.len() as u32);
        let mut i: usize = 0;
        while i < bytes.len()
            invariant
                i <= bytes@.len(),
                bytes@ == s@.map_values(|c: char| c as u8),
                self.endian == old(self).endian,
                self.data@ == old(self).data@ + spec_u32_bytes(
                    old(self).spec_big(),
                    s@.len() as u32,
                ) + bytes@.subrange(0, i as int),
            decreases bytes@.len() - i,
        {
            let b = bytes[i];
            self.data.push(b);
            i = i + 1;
            proof {
                assert(self.data@ =~= old(self).data@ + spec_u32_bytes(
                    old(self).spec_big(),
                    s@.len() as u32,
                ) + bytes@.subrange(0, i as int));
            }
        }
        proof {
            assert(self.data@ =~= old(self).data@ + spec_u32_bytes(
                old(self).spec_big(),
                s@.len() as u32,
            ) + s@.map_values(|c: char| c as u8));
        }
    }
}

} // verus!
