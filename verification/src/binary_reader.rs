//! A little-endian cursor over a byte buffer.
//!
//! Each `read_*` method is specified by a spec parser `sp_*` that takes the
//! buffer and a byte offset and gives either the value read and the offset
//! after it, or the error.

use vstd::prelude::*;
use vstd::utf8::{decode_utf8, valid_utf8};
use vstd::slice::{slice_subrange, slice_to_vec};
use crate::error::Error;
use crate::text::string_from_utf8;

verus! {

/// The error for a read of `n` bytes at offset `pos` that runs past the end.
pub open spec fn short(pos: int, n: int) -> Error {
    Error::UnexpectedEnd { position: pos as usize, length: n as usize }
}

/// The little-endian value of the 2 bytes of `b` at offset `i`.
pub open spec fn le16(b: Seq<u8>, i: int) -> int {
    b[i] + 256 * b[i + 1]
}

/// The little-endian value of the 4 bytes of `b` at offset `i`.
pub open spec fn le32(b: Seq<u8>, i: int) -> int {
    le16(b, i) + 65536 * le16(b, i + 2)
}

/// The little-endian value of the 8 bytes of `b` at offset `i`.
pub open spec fn le64(b: Seq<u8>, i: int) -> int {
    le32(b, i) + 4294967296 * le32(b, i + 4)
}

/// The two's complement reading of an unsigned value `v` whose top bit has
/// the value `half`.
pub open spec fn twos(v: int, half: int) -> int {
    if v < half {
        v
    } else {
        v - 2 * half
    }
}

/// `res` is what the spec parser's result `s` gives, with `pos` the offset
/// after the value.
pub open spec fn agrees<T>(res: Result<T, Error>, s: Result<(T, int), Error>, pos: usize) -> bool {
    match res {
        Ok(v) => s == Ok::<(T, int), Error>((v, pos as int)),
        Err(e) => s == Err::<(T, int), Error>(e),
    }
}

/// Reads `n` raw bytes.
pub open spec fn sp_bytes(buf: Seq<u8>, pos: int, n: int) -> Result<(Seq<u8>, int), Error> {
    if pos + n <= buf.len() {
        Ok((buf.subrange(pos, pos + n), pos + n))
    } else {
        Err(short(pos, n))
    }
}

/// Reads one byte.
pub open spec fn sp_u8(buf: Seq<u8>, pos: int) -> Result<(u8, int), Error> {
    if pos + 1 <= buf.len() {
        Ok((buf[pos], pos + 1))
    } else {
        Err(short(pos, 1))
    }
}

pub open spec fn sp_i8(buf: Seq<u8>, pos: int) -> Result<(i8, int), Error> {
    if pos + 1 <= buf.len() {
        Ok((twos(buf[pos] as int, 0x80) as i8, pos + 1))
    } else {
        Err(short(pos, 1))
    }
}

pub open spec fn sp_u16(buf: Seq<u8>, pos: int) -> Result<(u16, int), Error> {
    if pos + 2 <= buf.len() {
        Ok((le16(buf, pos) as u16, pos + 2))
    } else {
        Err(short(pos, 2))
    }
}

pub open spec fn sp_i16(buf: Seq<u8>, pos: int) -> Result<(i16, int), Error> {
    if pos + 2 <= buf.len() {
        Ok((twos(le16(buf, pos), 0x8000) as i16, pos + 2))
    } else {
        Err(short(pos, 2))
    }
}

pub open spec fn sp_u32(buf: Seq<u8>, pos: int) -> Result<(u32, int), Error> {
    if pos + 4 <= buf.len() {
        Ok((le32(buf, pos) as u32, pos + 4))
    } else {
        Err(short(pos, 4))
    }
}

pub open spec fn sp_i32(buf: Seq<u8>, pos: int) -> Result<(i32, int), Error> {
    if pos + 4 <= buf.len() {
        Ok((twos(le32(buf, pos), 0x8000_0000) as i32, pos + 4))
    } else {
        Err(short(pos, 4))
    }
}

pub open spec fn sp_u64(buf: Seq<u8>, pos: int) -> Result<(u64, int), Error> {
    if pos + 8 <= buf.len() {
        Ok((le64(buf, pos) as u64, pos + 8))
    } else {
        Err(short(pos, 8))
    }
}

pub open spec fn sp_i64(buf: Seq<u8>, pos: int) -> Result<(i64, int), Error> {
    if pos + 8 <= buf.len() {
        Ok((twos(le64(buf, pos), 0x8000_0000_0000_0000) as i64, pos + 8))
    } else {
        Err(short(pos, 8))
    }
}

/// A boolean is one byte; only the byte 1 reads as `true`.
pub open spec fn sp_bool(buf: Seq<u8>, pos: int) -> Result<(bool, int), Error> {
    match sp_u8(buf, pos) {
        Ok((b, p)) => Ok((b == 1, p)),
        Err(e) => Err(e),
    }
}

/// The length of a string: its `u64` prefix, as a `usize`.
pub open spec fn string_len(n: u64) -> int {
    (n as usize) as int
}

/// A string is a `u64` byte length followed by that many bytes of UTF-8.
pub open spec fn sp_string(buf: Seq<u8>, pos: int) -> Result<(Seq<char>, int), Error> {
    match sp_u64(buf, pos) {
        Err(e) => Err(e),
        Ok((n, p)) => match sp_bytes(buf, p, string_len(n)) {
            Err(e) => Err(e),
            Ok((bytes, q)) => if valid_utf8(bytes) {
                Ok((decode_utf8(bytes), q))
            } else {
                Err(Error::InvalidUtf8)
            },
        },
    }
}

/// Where the cursor stands after a failed string read: at the start when
/// the length could not be read, after the length when the bytes could not
/// be read, after the bytes when they are not UTF-8.
pub open spec fn string_error_position(buf: Seq<u8>, pos: int) -> int {
    match sp_u64(buf, pos) {
        Err(_) => pos,
        Ok((n, p)) => if p + string_len(n) <= buf.len() {
            p + string_len(n)
        } else {
            p
        },
    }
}

/// A cursor over a byte buffer.
pub struct BReader {
    pub buffer: Vec<u8>,
    pub position: usize,
}

impl BReader {
    /// A cursor at the start of `buffer`.
    pub fn new(buffer: Vec<u8>) -> (r: Self)
        ensures
            r.buffer@ == buffer@,
            r.position == 0,
    {
        Self { buffer, position: 0 }
    }

    /// Moves the cursor over `n` bytes when they are all in the buffer and
    /// returns the offset where they start.
    fn claim(&mut self, n: usize) -> (res: Result<usize, Error>)
        ensures
            final(self).buffer@ == old(self).buffer@,
            match res {
                Ok(start) => start == old(self).position && old(self).position + n <= old(
                    self,
                ).buffer.len() && final(self).position == old(self).position + n,
                Err(e) => old(self).position + n > old(self).buffer.len() && e == short(
                    old(self).position as int,
                    n as int,
                ) && final(self).position == old(self).position,
            },
    {
        match self.position.checked_add(n) {
            Some(end) => {
                if end <= self.buffer.len() {
                    let start = self.position;
                    self.position = end;
                    Ok(start)
                } else {
                    Err(Error::UnexpectedEnd { position: self.position, length: n })
                }
            },
            None => Err(Error::UnexpectedEnd { position: self.position, length: n }),
        }
    }

    /// Reads a byte.
    pub fn read_u8(&mut self) -> (res: Result<u8, Error>)
        ensures
            final(self).buffer@ == old(self).buffer@,
            agrees(res, sp_u8(old(self).buffer@, old(self).position as int), final(self).position),
            res is Err ==> final(self).position == old(self).position,
    {
        let p = self.claim(1)?;
        Ok(self.buffer[p])
    }

    /// Reads a signed byte.
    pub fn read_i8(&mut self) -> (res: Result<i8, Error>)
        ensures
            final(self).buffer@ == old(self).buffer@,
            agrees(res, sp_i8(old(self).buffer@, old(self).position as int), final(self).position),
            res is Err ==> final(self).position == old(self).position,
    {
        let p = self.claim(1)?;
        let b = self.buffer[p];
        if b < 0x80 {
            Ok(b as i8)
        } else {
            Ok((b as i16 - 0x100) as i8)
        }
    }

    /// Reads a little-endian `u16`.
    pub fn read_u16(&mut self) -> (res: Result<u16, Error>)
        ensures
            final(self).buffer@ == old(self).buffer@,
            agrees(res, sp_u16(old(self).buffer@, old(self).position as int), final(self).position),
            res is Err ==> final(self).position == old(self).position,
    {
        let p = self.claim(2)?;
        Ok(self.buffer[p] as u16 + self.buffer[p + 1] as u16 * 256)
    }

    /// Reads a little-endian `i16`.
    pub fn read_i16(&mut self) -> (res: Result<i16, Error>)
        ensures
            final(self).buffer@ == old(self).buffer@,
            agrees(res, sp_i16(old(self).buffer@, old(self).position as int), final(self).position),
            res is Err ==> final(self).position == old(self).position,
    {
        let p = self.claim(2)?;
        let v: u16 = self.buffer[p] as u16 + self.buffer[p + 1] as u16 * 256;
        if v < 0x8000 {
            Ok(v as i16)
        } else {
            Ok((v as i32 - 0x10000) as i16)
        }
    }

    /// The little-endian `u32` at `p`.
    fn u32_at(&self, p: usize) -> (v: u32)
        requires
            p + 4 <= self.buffer.len(),
        ensures
            v == le32(self.buffer@, p as int),
    {
        let lo: u32 = self.buffer[p] as u32 + self.buffer[p + 1] as u32 * 256;
        let hi: u32 = self.buffer[p + 2] as u32 + self.buffer[p + 3] as u32 * 256;
        lo + hi * 65536
    }

    /// Reads a little-endian `u32`.
    pub fn read_u32(&mut self) -> (res: Result<u32, Error>)
        ensures
            final(self).buffer@ == old(self).buffer@,
            agrees(res, sp_u32(old(self).buffer@, old(self).position as int), final(self).position),
            res is Err ==> final(self).position == old(self).position,
    {
        let p = self.claim(4)?;
        Ok(self.u32_at(p))
    }

    /// Reads a little-endian `i32`.
    pub fn read_i32(&mut self) -> (res: Result<i32, Error>)
        ensures
            final(self).buffer@ == old(self).buffer@,
            agrees(res, sp_i32(old(self).buffer@, old(self).position as int), final(self).position),
            res is Err ==> final(self).position == old(self).position,
    {
        let p = self.claim(4)?;
        let v = self.u32_at(p);
        if v < 0x8000_0000 {
            Ok(v as i32)
        } else {
            Ok((v as i64 - 0x1_0000_0000) as i32)
        }
    }

    /// Reads the 4 bytes of a little-endian IEEE 754 `f32` and returns its
    /// bit pattern.
    pub fn read_f32(&mut self) -> (res: Result<u32, Error>)
        ensures
            final(self).buffer@ == old(self).buffer@,
            agrees(res, sp_u32(old(self).buffer@, old(self).position as int), final(self).position),
            res is Err ==> final(self).position == old(self).position,
    {
        self.read_u32()
    }

    /// The little-endian `u64` at `p`.
    fn u64_at(&self, p: usize) -> (v: u64)
        requires
            p + 8 <= self.buffer.len(),
        ensures
            v == le64(self.buffer@, p as int),
    {
        let lo = self.u32_at(p) as u64;
        let hi = self.u32_at(p + 4) as u64;
        lo + hi * 4294967296
    }

    /// Reads a little-endian `u64`.
    pub fn read_u64(&mut self) -> (res: Result<u64, Error>)
        ensures
            final(self).buffer@ == old(self).buffer@,
            agrees(res, sp_u64(old(self).buffer@, old(self).position as int), final(self).position),
            res is Err ==> final(self).position == old(self).position,
    {
        let p = self.claim(8)?;
        Ok(self.u64_at(p))
    }

    /// Reads a little-endian `i64`.
    pub fn read_i64(&mut self) -> (res: Result<i64, Error>)
        ensures
            final(self).buffer@ == old(self).buffer@,
            agrees(res, sp_i64(old(self).buffer@, old(self).position as int), final(self).position),
            res is Err ==> final(self).position == old(self).position,
    {
        let p = self.claim(8)?;
        let v = self.u64_at(p);
        if v < 0x8000_0000_0000_0000 {
            Ok(v as i64)
        } else {
            let m: u64 = v - 0x8000_0000_0000_0000;
            Ok((m as i64) - 0x7fff_ffff_ffff_ffff - 1)
        }
    }

    /// Reads the 8 bytes of a little-endian IEEE 754 `f64` and returns its
    /// bit pattern.
    pub fn read_f64(&mut self) -> (res: Result<u64, Error>)
        ensures
            final(self).buffer@ == old(self).buffer@,
            agrees(res, sp_u64(old(self).buffer@, old(self).position as int), final(self).position),
            res is Err ==> final(self).position == old(self).position,
    {
        self.read_u64()
    }

    /// Reads a boolean byte.
    pub fn read_boolean(&mut self) -> (res: Result<bool, Error>)
        ensures
            final(self).buffer@ == old(self).buffer@,
            agrees(res, sp_bool(old(self).buffer@, old(self).position as int), final(self).position),
            res is Err ==> final(self).position == old(self).position,
    {
        Ok(self.read_u8()? == 1)
    }

    /// Reads a `u64` length and then that many bytes of UTF-8.
    pub fn read_string(&mut self) -> (res: Result<String, Error>)
        ensures
            final(self).buffer@ == old(self).buffer@,
            match res {
                Ok(s) => sp_string(old(self).buffer@, old(self).position as int) == Ok::<
                    (Seq<char>, int),
                    Error,
                >((s@, final(self).position as int)),
                Err(e) => sp_string(old(self).buffer@, old(self).position as int) == Err::<
                    (Seq<char>, int),
                    Error,
                >(e) && final(self).position == string_error_position(
                    old(self).buffer@,
                    old(self).position as int,
                ),
            },
    {
        let length = self.read_u64()? as usize;
        let bytes = self.read_bytes(length)?;
        match string_from_utf8(bytes) {
            Some(s) => Ok(s),
            None => Err(Error::InvalidUtf8),
        }
    }

    /// Reads `bytes_count` raw bytes.
    pub fn read_bytes(&mut self, bytes_count: usize) -> (res: Result<Vec<u8>, Error>)
        ensures
            final(self).buffer@ == old(self).buffer@,
            match res {
                Ok(v) => sp_bytes(old(self).buffer@, old(self).position as int, bytes_count as int)
                    == Ok::<(Seq<u8>, int), Error>((v@, final(self).position as int)),
                Err(e) => sp_bytes(old(self).buffer@, old(self).position as int, bytes_count as int)
                    == Err::<(Seq<u8>, int), Error>(e),
            },
            res is Err ==> final(self).position == old(self).position,
    {
        let p = self.claim(bytes_count)?;
        Ok(slice_to_vec(slice_subrange(self.buffer.as_slice(), p, p + bytes_count)))
    }
}

} // verus!
