use crate::wire::{group_sum, lemma_group_sum_push, lemma_varint_end_bounds, place, tag_modulus, varint_end};
use vstd::prelude::*;
use vstd::utf8::{decode_utf8, valid_utf8};

verus! {

broadcast use {vstd::std_specs::vec::group_vec_axioms, vstd::seq::group_seq_axioms};

/// Errors of reading the client's binary files.
#[derive(Debug, Clone, Copy, PartialEq, Eq, Structural)]
pub enum ReadError {
    /// The data ended before the value being read did.
    UnexpectedEof,
    /// A 32-bit varint ran past its fifth byte.
    VarintTooLong,
}

/// The text that `String::from_utf8_lossy` makes of a byte sequence.
pub uninterp spec fn lossy_text(b: Seq<u8>) -> Seq<char>;

/// Relies on `String::from_utf8_lossy`: the result depends on the bytes
/// alone, and bytes that are valid UTF-8 give the text they encode.
#[verifier::external_body]
fn lossy_string(b: &Vec<u8>) -> (r: String)
    ensures
        r@ == lossy_text(b@),
        valid_utf8(b@) ==> r@ == decode_utf8(b@),
{
    String::from_utf8_lossy(b).to_string()
}

/// The 32-bit varint at `p`: its value in 32 bits and the position after
/// it, where it ends within five bytes.
pub open spec fn u32_varint_at(data: Seq<u8>, p: int) -> Option<(u32, int)> {
    match varint_end(data, p) {
        Some(e) => if e - p <= 5 {
            Some(((group_sum(data, p, e) % tag_modulus()) as u32, e))
        } else {
            None
        },
        None => None,
    }
}

/// The error of reading a 32-bit varint at `p` where `u32_varint_at` has none.
pub open spec fn u32_varint_error(data: Seq<u8>, p: int) -> ReadError {
    match varint_end(data, p) {
        Some(_) => ReadError::VarintTooLong,
        None => if data.len() - p > 5 {
            ReadError::VarintTooLong
        } else {
            ReadError::UnexpectedEof
        },
    }
}

/// The big-endian 32-bit integer in `data[p..p + 4]`.
pub open spec fn u32_be_at(data: Seq<u8>, p: int) -> u32 {
    (data[p] * 0x100_0000 + data[p + 1] * 0x1_0000 + data[p + 2] * 0x100 + data[p + 3]) as u32
}

/// The text that the bytes of a stored string read as: their UTF-8 text
/// where they are valid UTF-8, else the lossy text.
pub open spec fn stored_text(b: Seq<u8>) -> Seq<char> {
    if valid_utf8(b) {
        decode_utf8(b)
    } else {
        lossy_text(b)
    }
}

/// A string as the client files store it at `p`: a flag byte, a 32-bit
/// varint length, then that many bytes of text. Gives the text and the
/// position after it.
pub open spec fn string_at(data: Seq<u8>, p: int) -> Option<(Seq<char>, int)> {
    if p < data.len() {
        match u32_varint_at(data, p + 1) {
            Some((n, q)) => if q + n <= data.len() {
                Some((stored_text(data.subrange(q, q + n)), q + n))
            } else {
                None
            },
            None => None,
        }
    } else {
        None
    }
}

/// Reading the values that the client's binary files hold.
pub trait CursorExt: Sized {
    type Error;

    /// The bytes being read.
    spec fn buffer(&self) -> Seq<u8>;

    /// The position of the next unread byte.
    spec fn position(&self) -> int;

    /// Reads a string: a flag byte, a varint length, then the text, decoded
    /// as UTF-8 with invalid sequences replaced.
    fn read_string(&mut self) -> (r: Result<String, Self::Error>)
        ensures
            final(self).buffer() == old(self).buffer(),
            match string_at(old(self).buffer(), old(self).position()) {
                Some((t, e)) => r is Ok && r->Ok_0@ == t && final(self).position() == e,
                None => r is Err,
            },
    ;

    /// Reads one byte as a flag: set unless it is zero.
    fn read_bool(&mut self) -> (r: Result<bool, Self::Error>)
        ensures
            final(self).buffer() == old(self).buffer(),
            0 <= old(self).position() < old(self).buffer().len() ==> r == Ok::<bool, Self::Error>(
                old(self).buffer()[old(self).position()] != 0,
            ) && final(self).position() == old(self).position() + 1,
            !(0 <= old(self).position() < old(self).buffer().len()) ==> r is Err,
    ;

    /// Reads a big-endian 32-bit integer.
    fn read_u32_be(&mut self) -> (r: Result<u32, Self::Error>)
        ensures
            final(self).buffer() == old(self).buffer(),
            0 <= old(self).position() && old(self).position() + 4 <= old(self).buffer().len() ==> r
                == Ok::<u32, Self::Error>(u32_be_at(old(self).buffer(), old(self).position()))
                && final(self).position() == old(self).position() + 4,
            !(0 <= old(self).position() && old(self).position() + 4 <= old(self).buffer().len())
                ==> r is Err,
    ;

    /// Reads `len` bytes.
    fn read_bytes(&mut self, len: usize) -> (r: Result<Vec<u8>, Self::Error>)
        ensures
            final(self).buffer() == old(self).buffer(),
            0 <= old(self).position() && old(self).position() + len <= old(self).buffer().len()
                ==> r is Ok && r->Ok_0@ == old(self).buffer().subrange(
                old(self).position(),
                old(self).position() + len,
            ) && final(self).position() == old(self).position() + len,
            !(0 <= old(self).position() && old(self).position() + len <= old(
                self,
            ).buffer().len()) ==> r is Err,
    ;
}

/// A read position over an owned buffer.
#[derive(Debug)]
pub struct ByteCursor {
    data: Vec<u8>,
    pos: usize,
}

impl ByteCursor {
    /// The bytes being read.
    pub closed spec fn bytes(&self) -> Seq<u8> {
        self.data@
    }

    /// The position of the next unread byte.
    pub closed spec fn index(&self) -> int {
        self.pos as int
    }

    /// A cursor at the start of `data`.
    pub fn new(data: Vec<u8>) -> (r: Self)
        ensures
            r.buffer() == data@,
            r.position() == 0,
    {
        ByteCursor { data, pos: 0 }
    }

    /// Reads a 32-bit varint of at most five bytes.
    pub fn read_u32_varint(&mut self) -> (r: Result<u32, ReadError>)
        ensures
            final(self).buffer() == old(self).buffer(),
            match u32_varint_at(old(self).buffer(), old(self).position()) {
                Some((v, e)) => r == Ok::<u32, ReadError>(v) && final(self).position() == e,
                None => r == Err::<u32, ReadError>(
                    u32_varint_error(old(self).buffer(), old(self).position()),
                ),
            },
    {
        let ghost data = self.data@;
        let start = self.pos;
        if start > self.data.len() {
            return Err(ReadError::UnexpectedEof);
        }
        let mut value: u64 = 0;
        let mut mult: u64 = 1;
        let mut i: usize = start;
        while i - start < 5
            invariant
                self.data@ == data,
                data == old(self).data@,
                start == old(self).pos,
                self.pos == start,
                start <= i <= start + 5,
                start <= data.len(),
                varint_end(data, start as int) == varint_end(data, i as int),
                value == group_sum(data, start as int, i as int),
                mult == place((i - start) as nat),
                value < mult,
                mult <= 0x8_0000_0000,
            decreases start + 5 - i,
        {
            if i >= self.data.len() {
                return Err(ReadError::UnexpectedEof);
            }
            let byte = self.data[i];
            proof {
                lemma_group_sum_push(data, start as int, i as int);
                assert(place(0) == 1);
                assert(place(1) == 0x80);
                assert(place(2) == 0x4000);
                assert(place(3) == 0x20_0000);
                assert(place(4) == 0x1000_0000);
            }
            assert((byte % 128) as u64 * mult <= 127 * 0x1000_0000) by (nonlinear_arith)
                requires
                    byte % 128 <= 127,
                    mult <= 0x1000_0000,
            ;
            assert(value + (byte % 128) as u64 * mult < mult * 128) by (nonlinear_arith)
                requires
                    value < mult,
                    byte % 128 <= 127,
            ;
            value = value + (byte % 128) as u64 * mult;
            i = i + 1;
            if byte < 128 {
                self.pos = i;
                return Ok((value % 0x1_0000_0000) as u32);
            }
            mult = mult * 128;
        }
        proof {
            lemma_varint_end_bounds(data, i as int);
        }
        if i >= self.data.len() {
            Err(ReadError::UnexpectedEof)
        } else {
            Err(ReadError::VarintTooLong)
        }
    }
}

impl CursorExt for ByteCursor {
    type Error = ReadError;

    open spec fn buffer(&self) -> Seq<u8> {
        self.bytes()
    }

    open spec fn position(&self) -> int {
        self.index()
    }

    fn read_string(&mut self) -> (r: Result<String, ReadError>) {
        match self.read_bool() {
            Ok(_) => {},
            Err(err) => {
                return Err(err);
            },
        }
        let length = match self.read_u32_varint() {
            Ok(n) => n,
            Err(err) => {
                return Err(err);
            },
        };
        let bytes = match self.read_bytes(length as usize) {
            Ok(b) => b,
            Err(err) => {
                return Err(err);
            },
        };
        Ok(lossy_string(&bytes))
    }

    fn read_bool(&mut self) -> (r: Result<bool, ReadError>) {
        if self.pos < self.data.len() {
            let byte = self.data[self.pos];
            self.pos = self.pos + 1;
            Ok(byte != 0)
        } else {
            Err(ReadError::UnexpectedEof)
        }
    }

    fn read_u32_be(&mut self) -> (r: Result<u32, ReadError>) {
        if self.pos <= self.data.len() && self.data.len() - self.pos >= 4 {
            let p = self.pos;
            let v = (self.data[p] as u32) * 0x100_0000 + (self.data[p + 1] as u32) * 0x1_0000
                + (self.data[p + 2] as u32) * 0x100 + (self.data[p + 3] as u32);
            self.pos = p + 4;
            Ok(v)
        } else {
            Err(ReadError::UnexpectedEof)
        }
    }

    fn read_bytes(&mut self, len: usize) -> (r: Result<Vec<u8>, ReadError>) {
        if self.pos > self.data.len() || len > self.data.len() - self.pos {
            return Err(ReadError::UnexpectedEof);
        }
        let end = self.pos + len;
        let mut out: Vec<u8> = Vec::new();
        let mut i: usize = self.pos;
        while i < end
            invariant
                self.pos <= i <= end <= self.data@.len(),
                out@ == self.data@.subrange(self.pos as int, i as int),
            decreases end - i,
        {
            out.push(self.data[i]);
            i = i + 1;
        }
        self.pos = end;
        Ok(out)
    }
}

} // verus!
