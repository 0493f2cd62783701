//! Byte-level encode/decode primitives for the Soulseek wire format.
//!
//! All integers are little-endian. Strings are length-prefixed with a uint32.
use vstd::prelude::*;
use vstd::slice::{slice_subrange, slice_to_vec};
use vstd::utf8::*;
use crate::error::{decimal, message_with_number, Error, IoErrorKind, Result};
use crate::wire::{lemma_list_err, p_list, step_matches_list, string_item, u32_item, views, Step, bool_byte, bytes_field, frame_u32, frame_u8, i32_bits, i32_le, le32, string_field, u16_le, u32_le, u64_le, p_frame_u32, p_frame_u8, p_bool, p_bytes, p_i32, p_raw, p_string, p_u16, p_u32, p_u64, p_u8, step_matches};

verus! {

// ── Reader ───────────────────────────────────────────────────────────────────

/// A read position in a byte slice.
///
/// A read that needs more bytes than remain fails with an unexpected-end
/// error and leaves the position at the end of the input.
pub struct ByteReader<'a> {
    data: &'a [u8],
    pos: usize,
}

impl<'a> ByteReader<'a> {
    #[verifier::type_invariant]
    spec fn inv(self) -> bool {
        self.pos <= self.data@.len()
    }

    /// All bytes of the input.
    pub closed spec fn bytes(self) -> Seq<u8> {
        self.data@
    }

    /// The current read position.
    pub closed spec fn pos(self) -> int {
        self.pos as int
    }

    /// A reader at the start of `data`.
    pub fn new(data: &'a [u8]) -> (r: Self)
        ensures
            r.bytes() == data@,
            r.pos() == 0,
    {
        ByteReader { data, pos: 0 }
    }

    /// The current read position.
    pub fn position(&self) -> (p: usize)
        ensures
            p == self.pos(),
            p <= self.bytes().len(),
    {
        proof {
            use_type_invariant(self);
        }
        self.pos
    }

    /// The next `n` bytes, or an unexpected-end error.
    fn take(&mut self, n: usize) -> (res: Result<&'a [u8]>)
        ensures
            final(self).bytes() == old(self).bytes(),
            step_matches(res, final(self).pos(), p_raw(old(self).bytes(), old(self).pos(), n as int)),
    {
        proof {
            use_type_invariant(&*self);
        }
        if n <= self.data.len() - self.pos {
            let s = slice_subrange(self.data, self.pos, self.pos + n);
            self.pos = self.pos + n;
            Ok(s)
        } else {
            self.pos = self.data.len();
            Err(Error::Io(IoErrorKind::UnexpectedEof))
        }
    }
}

/// Decodes UTF-8 bytes into a `String`.
///
/// Trusted: calls `String::from_utf8`, which fails exactly when the bytes are
/// not UTF-8 and otherwise yields the string made of those bytes. The error
/// message (from `FromUtf8Error`'s `Display`) is not stated.
#[verifier::external_body]
pub(crate) fn string_from_utf8(bytes: &[u8]) -> (res: std::result::Result<String, String>)
    ensures
        res is Ok <==> valid_utf8(bytes@),
        res matches Ok(s) ==> encode_utf8(s@) == bytes@,
{
    match String::from_utf8(bytes.to_vec()) {
        Ok(s) => Ok(s),
        Err(e) => Err(e.to_string()),
    }
}

// ── Read helpers ─────────────────────────────────────────────────────────────

pub fn read_u8(r: &mut ByteReader) -> (res: Result<u8>)
    ensures
        final(r).bytes() == old(r).bytes(),
        step_matches(res, final(r).pos(), p_u8(old(r).bytes(), old(r).pos())),
{
    let s = r.take(1)?;
    Ok(s[0])
}

pub fn read_u16_le(r: &mut ByteReader) -> (res: Result<u16>)
    ensures
        final(r).bytes() == old(r).bytes(),
        step_matches(res, final(r).pos(), p_u16(old(r).bytes(), old(r).pos())),
{
    let s = r.take(2)?;
    Ok(s[0] as u16 + 256 * (s[1] as u16))
}

pub fn read_u32_le(r: &mut ByteReader) -> (res: Result<u32>)
    ensures
        final(r).bytes() == old(r).bytes(),
        step_matches(res, final(r).pos(), p_u32(old(r).bytes(), old(r).pos())),
{
    let s = r.take(4)?;
    Ok(s[0] as u32 + 0x100 * (s[1] as u32) + 0x1_0000 * (s[2] as u32) + 0x100_0000 * (s[3] as u32))
}

pub fn read_i32_le(r: &mut ByteReader) -> (res: Result<i32>)
    ensures
        final(r).bytes() == old(r).bytes(),
        step_matches(res, final(r).pos(), p_i32(old(r).bytes(), old(r).pos())),
{
    let u = read_u32_le(r)?;
    if u < 0x8000_0000 {
        Ok(u as i32)
    } else {
        Ok((u - 0x8000_0000) as i32 - 0x4000_0000 - 0x4000_0000)
    }
}

pub fn read_u64_le(r: &mut ByteReader) -> (res: Result<u64>)
    ensures
        final(r).bytes() == old(r).bytes(),
        step_matches(res, final(r).pos(), p_u64(old(r).bytes(), old(r).pos())),
{
    let s = r.take(8)?;
    Ok(s[0] as u64 + 0x100 * (s[1] as u64) + 0x1_0000 * (s[2] as u64) + 0x100_0000 * (s[3] as u64)
        + 0x1_0000_0000 * (s[4] as u64) + 0x100_0000_0000 * (s[5] as u64)
        + 0x1_0000_0000_0000 * (s[6] as u64) + 0x100_0000_0000_0000 * (s[7] as u64))
}

pub fn read_bool(r: &mut ByteReader) -> (res: Result<bool>)
    ensures
        final(r).bytes() == old(r).bytes(),
        step_matches(res, final(r).pos(), p_bool(old(r).bytes(), old(r).pos())),
{
    Ok(read_u8(r)? != 0)
}

pub fn read_string(r: &mut ByteReader) -> (res: Result<String>)
    ensures
        final(r).bytes() == old(r).bytes(),
        step_matches(res, final(r).pos(), p_string(old(r).bytes(), old(r).pos())),
{
    let len = read_u32_le(r)?;
    let buf = r.take(len as usize)?;
    match string_from_utf8(buf) {
        Ok(s) => {
            proof {
                encode_utf8_decode_utf8(s@);
            }
            Ok(s)
        },
        Err(msg) => Err(Error::Encoding(msg)),
    }
}

pub fn read_bytes(r: &mut ByteReader) -> (res: Result<Vec<u8>>)
    ensures
        final(r).bytes() == old(r).bytes(),
        step_matches(res, final(r).pos(), p_bytes(old(r).bytes(), old(r).pos())),
{
    let len = read_u32_le(r)?;
    let buf = r.take(len as usize)?;
    Ok(slice_to_vec(buf))
}

pub fn read_raw_bytes(r: &mut ByteReader, len: usize) -> (res: Result<Vec<u8>>)
    ensures
        final(r).bytes() == old(r).bytes(),
        step_matches(res, final(r).pos(), p_raw(old(r).bytes(), old(r).pos(), len as int)),
{
    let buf = r.take(len)?;
    Ok(slice_to_vec(buf))
}


/// `n` strings, one after another.
pub fn read_string_list(r: &mut ByteReader, n: u32) -> (res: Result<Vec<String>>)
    ensures
        final(r).bytes() == old(r).bytes(),
        step_matches_list(res, final(r).pos(), p_list(old(r).bytes(), old(r).pos(), n as nat, string_item())),
{
    let ghost d = r.bytes();
    let ghost p0 = r.pos();
    let mut out: Vec<String> = Vec::new();
    let mut i: u32 = 0;
    assert(views(out@) =~= Seq::empty());
    while i < n
        invariant
            d == old(r).bytes(),
            p0 == old(r).pos(),
            r.bytes() == d,
            i <= n,
            p_list(d, p0, i as nat, string_item()) == Step::Ok((views(out@), r.pos())),
        decreases n - i,
    {
        let ghost before = out@;
        match read_string(r) {
            Ok(x) => {
                out.push(x);
                i = i + 1;
                assert(views(out@) =~= views(before).push(x@));
            },
            Err(e) => {
                proof {
                    lemma_list_err(d, p0, (i + 1) as nat, n as nat, string_item());
                }
                return Err(e);
            },
        }
    }
    Ok(out)
}

/// `n` little-endian `u32`s, one after another.
pub fn read_u32_list(r: &mut ByteReader, n: u32) -> (res: Result<Vec<u32>>)
    ensures
        final(r).bytes() == old(r).bytes(),
        step_matches_list(res, final(r).pos(), p_list(old(r).bytes(), old(r).pos(), n as nat, u32_item())),
{
    let ghost d = r.bytes();
    let ghost p0 = r.pos();
    let mut out: Vec<u32> = Vec::new();
    let mut i: u32 = 0;
    assert(views(out@) =~= Seq::empty());
    while i < n
        invariant
            d == old(r).bytes(),
            p0 == old(r).pos(),
            r.bytes() == d,
            i <= n,
            p_list(d, p0, i as nat, u32_item()) == Step::Ok((views(out@), r.pos())),
        decreases n - i,
    {
        let ghost before = out@;
        match read_u32_le(r) {
            Ok(x) => {
                out.push(x);
                i = i + 1;
                assert(views(out@) =~= views(before).push(x));
            },
            Err(e) => {
                proof {
                    lemma_list_err(d, p0, (i + 1) as nat, n as nat, u32_item());
                }
                return Err(e);
            },
        }
    }
    Ok(out)
}

// ── Write helpers ────────────────────────────────────────────────────────────

pub fn write_u8(w: &mut Vec<u8>, v: u8) -> (res: Result<()>)
    ensures
        res is Ok,
        final(w)@ == old(w)@ + seq![v],
{
    w.push(v);
    Ok(())
}

pub fn write_u16_le(w: &mut Vec<u8>, v: u16) -> (res: Result<()>)
    ensures
        res is Ok,
        final(w)@ == old(w)@ + u16_le(v),
{
    w.push((v % 256) as u8);
    w.push((v / 256) as u8);
    Ok(())
}

pub fn write_u32_le(w: &mut Vec<u8>, v: u32) -> (res: Result<()>)
    ensures
        res is Ok,
        final(w)@ == old(w)@ + u32_le(v),
{
    w.push((v % 0x100) as u8);
    w.push(((v / 0x100) % 0x100) as u8);
    w.push(((v / 0x1_0000) % 0x100) as u8);
    w.push((v / 0x100_0000) as u8);
    Ok(())
}

pub fn write_i32_le(w: &mut Vec<u8>, v: i32) -> (res: Result<()>)
    ensures
        res is Ok,
        final(w)@ == old(w)@ + i32_le(v),
{
    let bits: u32 = if v < 0 {
        ((v + 0x4000_0000 + 0x4000_0000) as u32) + 0x8000_0000
    } else {
        v as u32
    };
    assert(bits == i32_bits(v));
    write_u32_le(w, bits)
}

pub fn write_u64_le(w: &mut Vec<u8>, v: u64) -> (res: Result<()>)
    ensures
        res is Ok,
        final(w)@ == old(w)@ + u64_le(v),
{
    w.push((v % 0x100) as u8);
    w.push(((v / 0x100) % 0x100) as u8);
    w.push(((v / 0x1_0000) % 0x100) as u8);
    w.push(((v / 0x100_0000) % 0x100) as u8);
    w.push(((v / 0x1_0000_0000) % 0x100) as u8);
    w.push(((v / 0x100_0000_0000) % 0x100) as u8);
    w.push(((v / 0x1_0000_0000_0000) % 0x100) as u8);
    w.push((v / 0x100_0000_0000_0000) as u8);
    Ok(())
}

pub fn write_bool(w: &mut Vec<u8>, v: bool) -> (res: Result<()>)
    ensures
        res is Ok,
        final(w)@ == old(w)@ + bool_byte(v),
{
    write_u8(w, if v { 1 } else { 0 })
}

/// Appends the bytes of `data` to `w`.
pub(crate) fn append_bytes(w: &mut Vec<u8>, data: &[u8])
    ensures
        final(w)@ == old(w)@ + data@,
{
    let ghost w0 = w@;
    let mut i: usize = 0;
    while i < data.len()
        invariant
            i <= data@.len(),
            w@ == w0 + data@.subrange(0, i as int),
        decreases data@.len() - i,
    {
        w.push(data[i]);
        i = i + 1;
        assert(data@.subrange(0, i as int) == data@.subrange(0, i - 1) + seq![data@[i - 1]]);
    }
    assert(data@.subrange(0, data@.len() as int) == data@);
}

pub fn write_string(w: &mut Vec<u8>, s: &str) -> (res: Result<()>)
    ensures
        res is Ok,
        final(w)@ == old(w)@ + string_field(s@),
{
    let bytes = s.as_bytes();
    write_u32_le(w, bytes.len() as u32)?;
    append_bytes(w, bytes);
    Ok(())
}

pub fn write_bytes(w: &mut Vec<u8>, data: &[u8]) -> (res: Result<()>)
    ensures
        res is Ok,
        final(w)@ == old(w)@ + bytes_field(data@),
{
    write_u32_le(w, data.len() as u32)?;
    append_bytes(w, data);
    Ok(())
}

// ── Framing ──────────────────────────────────────────────────────────────────

/// Wrap an already-encoded payload into the standard `[length][code][body]` frame.
/// Used for server and peer (P) messages (uint32 code).
pub fn frame_message_u32(code: u32, body: &[u8]) -> (out: Vec<u8>)
    ensures
        out@ == frame_u32(code, body@),
{
    let mut rest: Vec<u8> = Vec::new();
    write_u32_le(&mut rest, code);
    append_bytes(&mut rest, body);
    // the length field counts the code and the body
    let total = rest.len() as u32;
    let mut out: Vec<u8> = Vec::new();
    write_u32_le(&mut out, total);
    append_bytes(&mut out, rest.as_slice());
    out
}

/// Wrap a payload for peer-init and distributed messages (uint8 code).
pub fn frame_message_u8(code: u8, body: &[u8]) -> (out: Vec<u8>)
    ensures
        out@ == frame_u8(code, body@),
{
    let mut rest: Vec<u8> = Vec::new();
    rest.push(code);
    append_bytes(&mut rest, body);
    let total = rest.len() as u32;
    let mut out: Vec<u8> = Vec::new();
    write_u32_le(&mut out, total);
    append_bytes(&mut out, rest.as_slice());
    out
}

/// Read one framed message: returns `(code_byte, body)`.
/// Used for peer-init and distributed connections.
pub fn read_frame_u8(r: &mut ByteReader) -> (res: Result<(u8, Vec<u8>)>)
    ensures
        final(r).bytes() == old(r).bytes(),
        step_matches(res, final(r).pos(), p_frame_u8(old(r).bytes(), old(r).pos())),
        p_u32(old(r).bytes(), old(r).pos()) matches Ok((t, _)) ==> t == 0 ==> (res matches Err(Error::Protocol(m))
            && m@ == "empty frame"@),
{
    let total = read_u32_le(r)?;
    if total == 0 {
        return Err(Error::Protocol(String::from_str("empty frame")));
    }
    let buf = r.take(total as usize)?;
    let code = buf[0];
    let body = slice_to_vec(slice_subrange(buf, 1, buf.len()));
    Ok((code, body))
}

/// Read one framed message: returns `(code_u32, body)`.
/// Used for server and peer (P) connections.
pub fn read_frame_u32(r: &mut ByteReader) -> (res: Result<(u32, Vec<u8>)>)
    ensures
        final(r).bytes() == old(r).bytes(),
        step_matches(res, final(r).pos(), p_frame_u32(old(r).bytes(), old(r).pos())),
        p_u32(old(r).bytes(), old(r).pos()) matches Ok((t, _)) ==> t < 4 ==> (res matches Err(Error::Protocol(m))
            && m@ == "frame too short:"@ + seq![' '] + decimal(t as nat)),
{
    let total = read_u32_le(r)?;
    if total < 4 {
        return Err(Error::Protocol(message_with_number("frame too short:", total)));
    }
    let buf = r.take(total as usize)?;
    let code = buf[0] as u32 + 0x100 * (buf[1] as u32) + 0x1_0000 * (buf[2] as u32) + 0x100_0000 * (buf[3] as u32);
    let body = slice_to_vec(slice_subrange(buf, 4, buf.len()));
    Ok((code, body))
}

/// The length of a frame with a `u32` code, as a connection of the named
/// kind announced it: it must cover the code.
pub fn checked_frame_len_u32(total: u32, kind: &str) -> (res: Result<usize>)
    ensures
        total >= 4 ==> (res matches Ok(n) && n == total),
        total < 4 ==> (res matches Err(Error::Protocol(m)) && m@ == kind@ + " frame too short: "@ + decimal(
            total as nat,
        )),
{
    if total < 4 {
        let mut m = String::from_str(kind);
        m.append(" frame too short: ");
        let digits = crate::error::decimal_string(total as u64);
        m.append(digits.as_str());
        return Err(Error::Protocol(m));
    }
    Ok(total as usize)
}

/// The length of a frame with a `u8` code, as a connection of the named
/// kind announced it: it must not be empty.
pub fn checked_frame_len_u8(total: u32, kind: &str) -> (res: Result<usize>)
    ensures
        total > 0 ==> (res matches Ok(n) && n == total),
        total == 0 ==> (res matches Err(Error::Protocol(m)) && m@ == "empty "@ + kind@ + " frame"@),
{
    if total == 0 {
        let mut m = String::from_str("empty ");
        m.append(kind);
        m.append(" frame");
        return Err(Error::Protocol(m));
    }
    Ok(total as usize)
}

/// The code and body of a frame's content (what follows the length) with a
/// `u32` code.
pub fn split_frame_u32(buf: &[u8]) -> (r: (u32, Vec<u8>))
    requires
        buf@.len() >= 4,
    ensures
        r.0 == le32(buf@, 0),
        r.1@ == buf@.subrange(4, buf@.len() as int),
{
    let code = buf[0] as u32 + 0x100 * (buf[1] as u32) + 0x1_0000 * (buf[2] as u32) + 0x100_0000 * (buf[3] as u32);
    (code, slice_to_vec(slice_subrange(buf, 4, buf.len())))
}

/// The code and body of a frame's content (what follows the length) with a
/// `u8` code.
pub fn split_frame_u8(buf: &[u8]) -> (r: (u8, Vec<u8>))
    requires
        buf@.len() >= 1,
    ensures
        r.0 == buf@[0],
        r.1@ == buf@.subrange(1, buf@.len() as int),
{
    (buf[0], slice_to_vec(slice_subrange(buf, 1, buf.len())))
}

} // verus!
