//! A forward-only cursor over an in-memory byte buffer, with big-endian reads.
use vstd::prelude::*;

verus! {

/// Why decoding stopped. A read fails only with `UnexpectedEndOfInput`:
/// fewer bytes remain than were asked for.
#[derive(Clone, Copy, Debug, PartialEq, Eq, Structural)]
pub enum DecodeError {
    UnexpectedEndOfInput,
    UnsupportedConstantKind { tag: u8 },
    InterfacesNotSupported { count: u16 },
    FieldsNotSupported { count: u16 },
}

/// What a spec-level decoder returns: a value and the position after it.
pub type Parsed<T> = Result<(T, int), DecodeError>;

pub open spec fn be16(s: Seq<u8>, p: int) -> u16 {
    (s[p] as int * 0x100 + s[p + 1] as int) as u16
}

pub open spec fn be32(s: Seq<u8>, p: int) -> u32 {
    (s[p] as int * 0x100_0000 + s[p + 1] as int * 0x1_0000 + s[p + 2] as int * 0x100
        + s[p + 3] as int) as u32
}

pub open spec fn be64(s: Seq<u8>, p: int) -> u64 {
    (be32(s, p) as int * 0x1_0000_0000 + be32(s, p + 4) as int) as u64
}

/// Whether `n` bytes remain in `s` from position `p`.
pub open spec fn available(s: Seq<u8>, p: int, n: int) -> bool {
    0 <= p && p + n <= s.len()
}

pub open spec fn take_u8(s: Seq<u8>, p: int) -> Parsed<u8> {
    if available(s, p, 1) {
        Ok((s[p], p + 1))
    } else {
        Err(DecodeError::UnexpectedEndOfInput)
    }
}

pub open spec fn take_u16(s: Seq<u8>, p: int) -> Parsed<u16> {
    if available(s, p, 2) {
        Ok((be16(s, p), p + 2))
    } else {
        Err(DecodeError::UnexpectedEndOfInput)
    }
}

pub open spec fn take_u32(s: Seq<u8>, p: int) -> Parsed<u32> {
    if available(s, p, 4) {
        Ok((be32(s, p), p + 4))
    } else {
        Err(DecodeError::UnexpectedEndOfInput)
    }
}

pub open spec fn take_u64(s: Seq<u8>, p: int) -> Parsed<u64> {
    if available(s, p, 8) {
        Ok((be64(s, p), p + 8))
    } else {
        Err(DecodeError::UnexpectedEndOfInput)
    }
}

pub open spec fn take_bytes(s: Seq<u8>, p: int, n: int) -> Parsed<Seq<u8>> {
    if n >= 0 && available(s, p, n) {
        Ok((s.subrange(p, p + n), p + n))
    } else {
        Err(DecodeError::UnexpectedEndOfInput)
    }
}

/// The characters of `b` read as UTF-8: decoded as they stand where `b` is
/// valid, with invalid sequences replaced otherwise.
pub open spec fn text_of(b: Seq<u8>) -> Seq<char> {
    if vstd::utf8::valid_utf8(b) {
        vstd::utf8::decode_utf8(b)
    } else {
        lossy_utf8(b)
    }
}

/// Text decoded from `n` bytes at `p`.
pub open spec fn take_text(s: Seq<u8>, p: int, n: int) -> Parsed<Seq<char>> {
    match take_bytes(s, p, n) {
        Ok((b, q)) => Ok((text_of(b), q)),
        Err(e) => Err(e),
    }
}

/// An executable result paired with the position reached, in the shape of `Parsed`.
pub open spec fn outcome<T>(r: Result<T, DecodeError>, at: int) -> Parsed<T> {
    match r {
        Ok(v) => Ok((v, at)),
        Err(e) => Err(e),
    }
}

/// The characters that lossy UTF-8 decoding makes of a byte sequence.
pub uninterp spec fn lossy_utf8(b: Seq<u8>) -> Seq<char>;

/// Relies on `String::from_utf8_lossy`: valid UTF-8 is decoded as it stands,
/// and each invalid sequence becomes U+FFFD; it never fails.
#[verifier::external_body]
fn text_from_bytes(b: &Vec<u8>) -> (r: String)
    ensures
        r@ == lossy_utf8(b@),
        vstd::utf8::valid_utf8(b@) ==> r@ == vstd::utf8::decode_utf8(b@),
{
    String::from_utf8_lossy(b.as_slice()).into_owned()
}

/// A read position over a byte buffer. Reads only move forward, and a read
/// that cannot be served whole leaves the position where it was.
pub struct Cursor {
    buf: Vec<u8>,
    pos: usize,
}

impl Cursor {
    /// The bytes being read.
    pub closed spec fn data(&self) -> Seq<u8> {
        self.buf@
    }

    /// The offset of the next byte to read.
    pub closed spec fn offset(&self) -> int {
        self.pos as int
    }

    pub fn new(buf: Vec<u8>) -> (r: Cursor)
        ensures
            r.data() == buf@,
            r.offset() == 0,
    {
        Cursor { buf, pos: 0 }
    }

    /// Moves the read position to `pos`.
    pub fn set_position(&mut self, pos: usize)
        ensures
            final(self).data() == old(self).data(),
            final(self).offset() == pos,
    {
        self.pos = pos;
    }

    /// The read position is never negative.
    pub proof fn offset_is_nonnegative(&self)
        ensures
            0 <= self.offset(),
    {
    }

    pub fn position(&self) -> (r: usize)
        ensures
            r == self.offset(),
    {
        self.pos
    }

    pub fn len(&self) -> (r: usize)
        ensures
            r == self.data().len(),
    {
        self.buf.len()
    }

    /// Whether `n` more bytes can be read.
    fn has(&self, n: usize) -> (r: bool)
        ensures
            r == available(self.data(), self.offset(), n as int),
            r ==> self.pos + n <= self.buf.len(),
    {
        self.pos <= self.buf.len() && self.buf.len() - self.pos >= n
    }

    pub fn read_u8(&mut self) -> (r: Result<u8, DecodeError>)
        ensures
            final(self).data() == old(self).data(),
            outcome(r, final(self).offset()) == take_u8(old(self).data(), old(self).offset()),
            r is Err ==> final(self).offset() == old(self).offset(),
    {
        if !self.has(1) {
            return Err(DecodeError::UnexpectedEndOfInput);
        }
        let b = self.buf[self.pos];
        self.pos = self.pos + 1;
        Ok(b)
    }

    pub fn read_u16(&mut self) -> (r: Result<u16, DecodeError>)
        ensures
            final(self).data() == old(self).data(),
            outcome(r, final(self).offset()) == take_u16(old(self).data(), old(self).offset()),
            r is Err ==> final(self).offset() == old(self).offset(),
    {
        if !self.has(2) {
            return Err(DecodeError::UnexpectedEndOfInput);
        }
        let p = self.pos;
        let v: u16 = self.buf[p] as u16 * 0x100 + self.buf[p + 1] as u16;
        self.pos = p + 2;
        Ok(v)
    }

    pub fn read_u32(&mut self) -> (r: Result<u32, DecodeError>)
        ensures
            final(self).data() == old(self).data(),
            outcome(r, final(self).offset()) == take_u32(old(self).data(), old(self).offset()),
            r is Err ==> final(self).offset() == old(self).offset(),
    {
        if !self.has(4) {
            return Err(DecodeError::UnexpectedEndOfInput);
        }
        let p = self.pos;
        let v: u32 = self.buf[p] as u32 * 0x100_0000 + self.buf[p + 1] as u32 * 0x1_0000
            + self.buf[p + 2] as u32 * 0x100 + self.buf[p + 3] as u32;
        self.pos = p + 4;
        Ok(v)
    }

    pub fn read_u64(&mut self) -> (r: Result<u64, DecodeError>)
        ensures
            final(self).data() == old(self).data(),
            outcome(r, final(self).offset()) == take_u64(old(self).data(), old(self).offset()),
            r is Err ==> final(self).offset() == old(self).offset(),
    {
        if !self.has(8) {
            return Err(DecodeError::UnexpectedEndOfInput);
        }
        let high = self.read_u32();
        let low = self.read_u32();
        match (high, low) {
            (Ok(h), Ok(l)) => Ok(h as u64 * 0x1_0000_0000 + l as u64),
            _ => Err(DecodeError::UnexpectedEndOfInput),
        }
    }

    pub fn read_bytes(&mut self, count: usize) -> (r: Result<Vec<u8>, DecodeError>)
        ensures
            final(self).data() == old(self).data(),
            match r {
                Ok(v) => take_bytes(old(self).data(), old(self).offset(), count as int)
                    == Ok::<(Seq<u8>, int), DecodeError>((v@, final(self).offset())),
                Err(e) => take_bytes(old(self).data(), old(self).offset(), count as int)
                    == Err::<(Seq<u8>, int), DecodeError>(e)
                    && final(self).offset() == old(self).offset(),
            },
    {
        if !self.has(count) {
            return Err(DecodeError::UnexpectedEndOfInput);
        }
        let start = self.pos;
        let mut out: Vec<u8> = Vec::with_capacity(count);
        let mut i: usize = 0;
        while i < count
            invariant
                start + count <= self.buf.len(),
                i <= count,
                out@ == self.buf@.subrange(start as int, start + i),
            decreases count - i,
        {
            out.push(self.buf[start + i]);
            i = i + 1;
            assert(out@ =~= self.buf@.subrange(start as int, start + i));
        }
        self.pos = start + count;
        Ok(out)
    }

    /// Reads `length` bytes and decodes them as text; malformed sequences
    /// are replaced, never rejected.
    pub fn read_string(&mut self, length: usize) -> (r: Result<String, DecodeError>)
        ensures
            final(self).data() == old(self).data(),
            match r {
                Ok(t) => take_text(old(self).data(), old(self).offset(), length as int)
                    == Ok::<(Seq<char>, int), DecodeError>((t@, final(self).offset())),
                Err(e) => take_text(old(self).data(), old(self).offset(), length as int)
                    == Err::<(Seq<char>, int), DecodeError>(e)
                    && final(self).offset() == old(self).offset(),
            },
    {
        let bytes = self.read_bytes(length)?;
        Ok(text_from_bytes(&bytes))
    }
}

} // verus!
