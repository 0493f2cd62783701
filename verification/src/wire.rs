//! The wire format, stated as spec functions over byte sequences.
//!
//! All integers are little-endian; strings and byte blobs are preceded by
//! their byte length as a `u32`. A parser reads from a position in a byte
//! sequence and either yields a value and the position after it, or fails
//! with a [`Fail`] class and the position at which the reader is left.
use vstd::prelude::*;
use vstd::utf8::*;
use crate::error::{Error, IoErrorKind};

verus! {

// ── Encodings ────────────────────────────────────────────────────────────────

/// Little-endian bytes of a `u16`.
pub open spec fn u16_le(v: u16) -> Seq<u8> {
    seq![(v % 256) as u8, (v / 256) as u8]
}

/// Little-endian bytes of a `u32`.
pub open spec fn u32_le(v: u32) -> Seq<u8> {
    seq![(v % 256) as u8, ((v / 256) % 256) as u8, ((v / 65536) % 256) as u8, (v / 16777216) as u8]
}

/// The two's-complement bit pattern of an `i32`, as a `u32`.
pub open spec fn i32_bits(v: i32) -> u32 {
    if v < 0 { (v + 0x1_0000_0000) as u32 } else { v as u32 }
}

/// Little-endian bytes of an `i32` (two's complement).
pub open spec fn i32_le(v: i32) -> Seq<u8> {
    u32_le(i32_bits(v))
}

/// Little-endian bytes of a `u64`.
pub open spec fn u64_le(v: u64) -> Seq<u8> {
    seq![
        (v % 0x100) as u8,
        ((v / 0x100) % 0x100) as u8,
        ((v / 0x1_0000) % 0x100) as u8,
        ((v / 0x100_0000) % 0x100) as u8,
        ((v / 0x1_0000_0000) % 0x100) as u8,
        ((v / 0x100_0000_0000) % 0x100) as u8,
        ((v / 0x1_0000_0000_0000) % 0x100) as u8,
        (v / 0x100_0000_0000_0000) as u8,
    ]
}

/// A boolean is one byte, 1 for true and 0 for false.
pub open spec fn bool_byte(b: bool) -> Seq<u8> {
    seq![if b { 1u8 } else { 0u8 }]
}

/// The UTF-8 bytes of a string.
pub open spec fn utf8(s: Seq<char>) -> Seq<u8> {
    encode_utf8(s)
}

/// A byte blob: its length as a `u32`, then the bytes.
pub open spec fn bytes_field(b: Seq<u8>) -> Seq<u8> {
    u32_le(b.len() as u32) + b
}

/// A string: the length of its UTF-8 bytes as a `u32`, then those bytes.
pub open spec fn string_field(s: Seq<char>) -> Seq<u8> {
    bytes_field(utf8(s))
}

/// A string whose UTF-8 length fits the `u32` length prefix.
pub open spec fn fits(s: Seq<char>) -> bool {
    utf8(s).len() <= u32::MAX
}

/// A frame with a `u32` message code: total length (code plus body), code, body.
pub open spec fn frame_u32(code: u32, body: Seq<u8>) -> Seq<u8> {
    u32_le((body.len() + 4) as u32) + u32_le(code) + body
}

/// A frame with a `u8` message code: total length (code plus body), code, body.
pub open spec fn frame_u8(code: u8, body: Seq<u8>) -> Seq<u8> {
    u32_le((body.len() + 1) as u32) + seq![code] + body
}

// ── Decoded values ───────────────────────────────────────────────────────────

/// The `u16` held little-endian in `b[p..p + 2]`.
pub open spec fn le16(b: Seq<u8>, p: int) -> u16 {
    (b[p] + 256 * b[p + 1]) as u16
}

/// The `u32` held little-endian in `b[p..p + 4]`.
pub open spec fn le32(b: Seq<u8>, p: int) -> u32 {
    (b[p] + 0x100 * b[p + 1] + 0x1_0000 * b[p + 2] + 0x100_0000 * b[p + 3]) as u32
}

/// The `i32` whose two's-complement bits are held little-endian in `b[p..p + 4]`.
pub open spec fn le_i32(b: Seq<u8>, p: int) -> i32 {
    let u = le32(b, p);
    if u < 0x8000_0000 { u as i32 } else { (u - 0x1_0000_0000) as i32 }
}

/// The `u64` held little-endian in `b[p..p + 8]`.
pub open spec fn le64(b: Seq<u8>, p: int) -> u64 {
    (b[p] + 0x100 * b[p + 1] + 0x1_0000 * b[p + 2] + 0x100_0000 * b[p + 3]
        + 0x1_0000_0000 * b[p + 4] + 0x100_0000_0000 * b[p + 5]
        + 0x1_0000_0000_0000 * b[p + 6] + 0x100_0000_0000_0000 * b[p + 7]) as u64
}

// ── Parsers ──────────────────────────────────────────────────────────────────

/// Why a read failed.
#[derive(Debug, Clone, Copy, PartialEq, Eq, Structural)]
pub enum Fail {
    /// The input ended too early.
    Eof,
    /// A string's bytes are not UTF-8.
    Utf8,
    /// A value is not one that the protocol allows.
    Invalid,
}

/// The outcome of a read at some position: the value and the position after
/// it, or the failure and the position at which the reader is left.
pub type Step<T> = Result<(T, int), (Fail, int)>;

/// The outcome of decoding a whole message body.
pub type Decoded<T> = Result<T, Fail>;

/// The error that the codec reports for a failure class.
pub open spec fn fail_is(e: Error, f: Fail) -> bool {
    match f {
        Fail::Eof => e == Error::Io(IoErrorKind::UnexpectedEof),
        Fail::Utf8 => e is Encoding,
        Fail::Invalid => e is Protocol,
    }
}

/// An executable read result agrees with a spec step: same value (by view)
/// and same position after it, or an error of the same class.
pub open spec fn step_matches<T: View>(res: Result<T, Error>, pos: int, s: Step<T::V>) -> bool {
    match s {
        Ok((v, q)) => res matches Ok(x) && x@ == v && pos == q,
        Err((f, q)) => res matches Err(e) && fail_is(e, f) && pos == q,
    }
}

/// An executable decode result agrees with a spec decode.
pub open spec fn decode_matches<T: View>(res: Result<T, Error>, s: Result<T::V, Fail>) -> bool {
    match s {
        Ok(v) => res matches Ok(x) && x@ == v,
        Err(f) => res matches Err(e) && fail_is(e, f),
    }
}

/// The views of a sequence of values.
pub open spec fn views<T: View>(v: Seq<T>) -> Seq<T::V> {
    v.map_values(|x: T| x@)
}

/// An executable list read agrees with a spec step, item by item by view.
pub open spec fn step_matches_list<T: View>(res: Result<Vec<T>, Error>, pos: int, s: Step<Seq<T::V>>) -> bool {
    match s {
        Ok((v, q)) => res matches Ok(x) && views(x@) == v && pos == q,
        Err((f, q)) => res matches Err(e) && fail_is(e, f) && pos == q,
    }
}

/// Drops the position of a step.
pub open spec fn value_of<T>(s: Step<T>) -> Result<T, Fail> {
    match s {
        Ok((v, _)) => Ok(v),
        Err((f, _)) => Err(f),
    }
}

/// `n` raw bytes.
pub open spec fn p_raw(d: Seq<u8>, p: int, n: int) -> Step<Seq<u8>> {
    if p + n <= d.len() {
        Ok((d.subrange(p, p + n), p + n))
    } else {
        Err((Fail::Eof, d.len() as int))
    }
}

pub open spec fn p_u8(d: Seq<u8>, p: int) -> Step<u8> {
    if p + 1 <= d.len() { Ok((d[p], p + 1)) } else { Err((Fail::Eof, d.len() as int)) }
}

pub open spec fn p_bool(d: Seq<u8>, p: int) -> Step<bool> {
    if p + 1 <= d.len() { Ok((d[p] != 0, p + 1)) } else { Err((Fail::Eof, d.len() as int)) }
}

pub open spec fn p_u16(d: Seq<u8>, p: int) -> Step<u16> {
    if p + 2 <= d.len() { Ok((le16(d, p), p + 2)) } else { Err((Fail::Eof, d.len() as int)) }
}

pub open spec fn p_u32(d: Seq<u8>, p: int) -> Step<u32> {
    if p + 4 <= d.len() { Ok((le32(d, p), p + 4)) } else { Err((Fail::Eof, d.len() as int)) }
}

pub open spec fn p_i32(d: Seq<u8>, p: int) -> Step<i32> {
    if p + 4 <= d.len() { Ok((le_i32(d, p), p + 4)) } else { Err((Fail::Eof, d.len() as int)) }
}

pub open spec fn p_u64(d: Seq<u8>, p: int) -> Step<u64> {
    if p + 8 <= d.len() { Ok((le64(d, p), p + 8)) } else { Err((Fail::Eof, d.len() as int)) }
}

/// A length-prefixed byte blob.
pub open spec fn p_bytes(d: Seq<u8>, p: int) -> Step<Seq<u8>> {
    match p_u32(d, p) {
        Ok((n, q)) => p_raw(d, q, n as int),
        Err(e) => Err(e),
    }
}

/// A length-prefixed UTF-8 string.
pub open spec fn p_string(d: Seq<u8>, p: int) -> Step<Seq<char>> {
    match p_bytes(d, p) {
        Ok((b, q)) => if valid_utf8(b) { Ok((decode_utf8(b), q)) } else { Err((Fail::Utf8, q)) },
        Err(e) => Err(e),
    }
}


/// A frame with a `u32` code: the total length (at least 4), then the code
/// and the body that the total covers.
pub open spec fn p_frame_u32(d: Seq<u8>, p: int) -> Step<(u32, Seq<u8>)> {
    match p_u32(d, p) {
        Ok((total, q)) => if total < 4 {
            Err((Fail::Invalid, q))
        } else {
            match p_raw(d, q, total as int) {
                Ok((buf, r)) => Ok(((le32(buf, 0), buf.subrange(4, buf.len() as int)), r)),
                Err(e) => Err(e),
            }
        },
        Err(e) => Err(e),
    }
}

/// A frame with a `u8` code: the total length (at least 1), then the code
/// and the body that the total covers.
pub open spec fn p_frame_u8(d: Seq<u8>, p: int) -> Step<(u8, Seq<u8>)> {
    match p_u32(d, p) {
        Ok((total, q)) => if total == 0 {
            Err((Fail::Invalid, q))
        } else {
            match p_raw(d, q, total as int) {
                Ok((buf, r)) => Ok(((buf[0], buf.subrange(1, buf.len() as int)), r)),
                Err(e) => Err(e),
            }
        },
        Err(e) => Err(e),
    }
}


/// `n` items, each read by `item` where the previous one ended; the first
/// failure ends the list.
pub open spec fn p_list<T>(d: Seq<u8>, p: int, n: nat, item: spec_fn(Seq<u8>, int) -> Step<T>) -> Step<Seq<T>>
    decreases n,
{
    if n == 0 {
        Ok((Seq::empty(), p))
    } else {
        match p_list(d, p, (n - 1) as nat, item) {
            Ok((xs, q)) => match item(d, q) {
                Ok((x, r)) => Ok((xs.push(x), r)),
                Err(e) => Err(e),
            },
            Err(e) => Err(e),
        }
    }
}

/// Once a list read has failed, reading more items fails the same way.
pub proof fn lemma_list_err<T>(d: Seq<u8>, p: int, i: nat, j: nat, item: spec_fn(Seq<u8>, int) -> Step<T>)
    requires
        i <= j,
        p_list(d, p, i, item) is Err,
    ensures
        p_list(d, p, j, item) == p_list(d, p, i, item),
    decreases j,
{
    if i < j {
        lemma_list_err(d, p, i, (j - 1) as nat, item);
    }
}

/// `n` attempts to read an item, each where the previous attempt ended; the
/// items that fail are skipped.
pub open spec fn p_list_lenient<T>(d: Seq<u8>, p: int, n: nat, item: spec_fn(Seq<u8>, int) -> Step<T>) -> (Seq<T>, int)
    decreases n,
{
    if n == 0 {
        (Seq::empty(), p)
    } else {
        let (xs, q) = p_list_lenient(d, p, (n - 1) as nat, item);
        match item(d, q) {
            Ok((x, r)) => (xs.push(x), r),
            Err((_, r)) => (xs, r),
        }
    }
}

/// A count as a `u32`, then that many items.
pub open spec fn p_counted<T>(d: Seq<u8>, p: int, item: spec_fn(Seq<u8>, int) -> Step<T>) -> Step<Seq<T>> {
    match p_u32(d, p) {
        Ok((n, q)) => p_list(d, q, n as nat, item),
        Err(e) => Err(e),
    }
}

/// The string item reader.
pub open spec fn string_item() -> spec_fn(Seq<u8>, int) -> Step<Seq<char>> {
    |d: Seq<u8>, p: int| p_string(d, p)
}

/// The `u32` item reader.
pub open spec fn u32_item() -> spec_fn(Seq<u8>, int) -> Step<u32> {
    |d: Seq<u8>, p: int| p_u32(d, p)
}

/// The concatenated encodings of a sequence of items.
pub open spec fn list_bytes<T>(xs: Seq<T>, enc: spec_fn(T) -> Seq<u8>) -> Seq<u8>
    decreases xs.len(),
{
    if xs.len() == 0 {
        Seq::empty()
    } else {
        list_bytes(xs.drop_last(), enc) + enc(xs.last())
    }
}

/// A count as a `u32`, then the items.
pub open spec fn counted_bytes<T>(xs: Seq<T>, enc: spec_fn(T) -> Seq<u8>) -> Seq<u8> {
    u32_le(xs.len() as u32) + list_bytes(xs, enc)
}

// ── Reading back what was written ────────────────────────────────────────────

/// Reading a `u8` where one was written gives it back.
pub proof fn lemma_u8_at(d: Seq<u8>, p: int, v: u8)
    requires
        0 <= p,
        p + 1 <= d.len(),
        d.subrange(p, p + 1) == seq![v],
    ensures
        p_u8(d, p) == Ok::<(u8, int), (Fail, int)>((v, p + 1)),
{
    assert(d[p] == d.subrange(p, p + 1)[0]);
}

/// Reading a boolean where one was written gives it back.
pub proof fn lemma_bool_at(d: Seq<u8>, p: int, v: bool)
    requires
        0 <= p,
        p + 1 <= d.len(),
        d.subrange(p, p + 1) == bool_byte(v),
    ensures
        p_bool(d, p) == Ok::<(bool, int), (Fail, int)>((v, p + 1)),
{
    assert(d[p] == d.subrange(p, p + 1)[0]);
}

/// Reading a `u16` where one was written gives it back.
pub proof fn lemma_u16_at(d: Seq<u8>, p: int, v: u16)
    requires
        0 <= p,
        p + 2 <= d.len(),
        d.subrange(p, p + 2) == u16_le(v),
    ensures
        p_u16(d, p) == Ok::<(u16, int), (Fail, int)>((v, p + 2)),
{
    let b = d.subrange(p, p + 2);
    assert(d[p] == b[0] && d[p + 1] == b[1]);
    assert(b[0] + 256 * b[1] == v) by (nonlinear_arith)
        requires
            b[0] == v % 256,
            b[1] == v / 256,
    ;
}

/// Reading a `u32` where one was written gives it back.
pub proof fn lemma_u32_at(d: Seq<u8>, p: int, v: u32)
    requires
        0 <= p,
        p + 4 <= d.len(),
        d.subrange(p, p + 4) == u32_le(v),
    ensures
        p_u32(d, p) == Ok::<(u32, int), (Fail, int)>((v, p + 4)),
{
    let b = d.subrange(p, p + 4);
    assert(d[p] == b[0] && d[p + 1] == b[1] && d[p + 2] == b[2] && d[p + 3] == b[3]);
    assert(b[0] + 0x100 * b[1] + 0x1_0000 * b[2] + 0x100_0000 * b[3] == v) by (nonlinear_arith)
        requires
            b[0] == v % 0x100,
            b[1] == (v / 0x100) % 0x100,
            b[2] == (v / 0x1_0000) % 0x100,
            b[3] == v / 0x100_0000,
            v < 0x1_0000_0000,
    ;
}

/// Reading an `i32` where one was written gives it back.
pub proof fn lemma_i32_at(d: Seq<u8>, p: int, v: i32)
    requires
        0 <= p,
        p + 4 <= d.len(),
        d.subrange(p, p + 4) == i32_le(v),
    ensures
        p_i32(d, p) == Ok::<(i32, int), (Fail, int)>((v, p + 4)),
{
    lemma_u32_at(d, p, i32_bits(v));
}

/// Reading a `u64` where one was written gives it back.
pub proof fn lemma_u64_at(d: Seq<u8>, p: int, v: u64)
    requires
        0 <= p,
        p + 8 <= d.len(),
        d.subrange(p, p + 8) == u64_le(v),
    ensures
        p_u64(d, p) == Ok::<(u64, int), (Fail, int)>((v, p + 8)),
{
    let b = d.subrange(p, p + 8);
    assert(d[p] == b[0] && d[p + 1] == b[1] && d[p + 2] == b[2] && d[p + 3] == b[3]);
    assert(d[p + 4] == b[4] && d[p + 5] == b[5] && d[p + 6] == b[6] && d[p + 7] == b[7]);
    assert(v == (v % 0x100) + 0x100 * ((v / 0x100) % 0x100) + 0x1_0000 * ((v / 0x1_0000) % 0x100)
        + 0x100_0000 * ((v / 0x100_0000) % 0x100) + 0x1_0000_0000 * ((v / 0x1_0000_0000) % 0x100)
        + 0x100_0000_0000 * ((v / 0x100_0000_0000) % 0x100) + 0x1_0000_0000_0000 * ((v / 0x1_0000_0000_0000) % 0x100)
        + 0x100_0000_0000_0000 * (v / 0x100_0000_0000_0000)) by (bit_vector);
}


/// Reading a byte blob where one was written gives it back.
pub proof fn lemma_bytes_at(d: Seq<u8>, p: int, b: Seq<u8>)
    requires
        0 <= p,
        p + 4 + b.len() <= d.len(),
        b.len() <= u32::MAX,
        d.subrange(p, p + 4 + b.len()) == bytes_field(b),
    ensures
        p_bytes(d, p) == Ok::<(Seq<u8>, int), (Fail, int)>((b, p + 4 + b.len())),
{
    let f = bytes_field(b);
    assert(d.subrange(p, p + 4) =~= f.subrange(0, 4));
    assert(f.subrange(0, 4) =~= u32_le(b.len() as u32));
    lemma_u32_at(d, p, b.len() as u32);
    assert(d.subrange(p + 4, p + 4 + b.len()) =~= b) by {
        assert forall|i: int| 0 <= i < b.len() implies #[trigger] d.subrange(p + 4, p + 4 + b.len())[i] == b[i] by {
            assert(d[p + 4 + i] == f[4 + i]);
        }
    }
}

/// Reading a string where one was written gives it back.
pub proof fn lemma_string_at(d: Seq<u8>, p: int, s: Seq<char>)
    requires
        0 <= p,
        fits(s),
        p + string_field(s).len() <= d.len(),
        d.subrange(p, p + string_field(s).len()) == string_field(s),
    ensures
        p_string(d, p) == Ok::<(Seq<char>, int), (Fail, int)>((s, p + string_field(s).len())),
{
    lemma_bytes_at(d, p, utf8(s));
    encode_utf8_valid_utf8(s);
    encode_utf8_decode_utf8(s);
}

/// Reading a `u32`-coded frame where one was written gives back its code and body.
pub proof fn lemma_frame_u32_at(d: Seq<u8>, p: int, code: u32, body: Seq<u8>)
    requires
        0 <= p,
        body.len() + 4 <= u32::MAX,
        p + frame_u32(code, body).len() <= d.len(),
        d.subrange(p, p + frame_u32(code, body).len()) == frame_u32(code, body),
    ensures
        p_frame_u32(d, p) == Ok::<((u32, Seq<u8>), int), (Fail, int)>(((code, body), p + frame_u32(code, body).len())),
{
    let f = frame_u32(code, body);
    let n = body.len() + 4;
    assert(d.subrange(p, p + 4) =~= u32_le(n as u32)) by {
        assert forall|i: int| 0 <= i < 4 implies #[trigger] d.subrange(p, p + 4)[i] == u32_le(n as u32)[i] by {
            assert(d[p + i] == f[i]);
        }
    }
    lemma_u32_at(d, p, n as u32);
    let buf = d.subrange(p + 4, p + 4 + n);
    assert(buf.subrange(0, 4) =~= u32_le(code)) by {
        assert forall|i: int| 0 <= i < 4 implies #[trigger] buf.subrange(0, 4)[i] == u32_le(code)[i] by {
            assert(d[p + 4 + i] == f[4 + i]);
        }
    }
    lemma_u32_at(buf, 0, code);
    assert(buf.subrange(4, buf.len() as int) =~= body) by {
        assert forall|i: int| 0 <= i < body.len() implies #[trigger] buf.subrange(4, buf.len() as int)[i] == body[i] by {
            assert(d[p + 8 + i] == f[8 + i]);
        }
    }
}

/// Reading a `u8`-coded frame where one was written gives back its code and body.
pub proof fn lemma_frame_u8_at(d: Seq<u8>, p: int, code: u8, body: Seq<u8>)
    requires
        0 <= p,
        body.len() + 1 <= u32::MAX,
        p + frame_u8(code, body).len() <= d.len(),
        d.subrange(p, p + frame_u8(code, body).len()) == frame_u8(code, body),
    ensures
        p_frame_u8(d, p) == Ok::<((u8, Seq<u8>), int), (Fail, int)>(((code, body), p + frame_u8(code, body).len())),
{
    let f = frame_u8(code, body);
    let n = body.len() + 1;
    assert(d.subrange(p, p + 4) =~= u32_le(n as u32)) by {
        assert forall|i: int| 0 <= i < 4 implies #[trigger] d.subrange(p, p + 4)[i] == u32_le(n as u32)[i] by {
            assert(d[p + i] == f[i]);
        }
    }
    lemma_u32_at(d, p, n as u32);
    let buf = d.subrange(p + 4, p + 4 + n);
    assert(buf[0] == f[4]);
    assert(buf.subrange(1, buf.len() as int) =~= body) by {
        assert forall|i: int| 0 <= i < body.len() implies #[trigger] buf.subrange(1, buf.len() as int)[i] == body[i] by {
            assert(d[p + 5 + i] == f[5 + i]);
        }
    }
}


/// Reading a list where its items were written one after another gives the
/// items back, when each item reads back where it was written.
pub proof fn lemma_list_at<T>(
    d: Seq<u8>,
    p: int,
    xs: Seq<T>,
    enc: spec_fn(T) -> Seq<u8>,
    item: spec_fn(Seq<u8>, int) -> Step<T>,
    good: spec_fn(T) -> bool,
)
    requires
        0 <= p,
        p + list_bytes(xs, enc).len() <= d.len(),
        d.subrange(p, p + list_bytes(xs, enc).len()) == list_bytes(xs, enc),
        forall|k: int| 0 <= k < xs.len() ==> #[trigger] good(xs[k]),
        forall|x: T, q: int|
            #![trigger good(x), item(d, q)]
            good(x) && 0 <= q && q + enc(x).len() <= d.len() && d.subrange(q, q + enc(x).len()) == enc(x) ==> item(d, q)
                == Step::Ok((x, q + enc(x).len())),
    ensures
        p_list(d, p, xs.len(), item) == Step::Ok((xs, p + list_bytes(xs, enc).len())),
    decreases xs.len(),
{
    if xs.len() > 0 {
        let ys = xs.drop_last();
        let x = xs.last();
        let ly = list_bytes(ys, enc);
        let q = p + ly.len();
        assert(list_bytes(xs, enc) == ly + enc(x));
        assert(d.subrange(p, q) =~= ly) by {
            assert forall|i: int| 0 <= i < ly.len() implies #[trigger] d.subrange(p, q)[i] == ly[i] by {
                assert(d.subrange(p, p + list_bytes(xs, enc).len())[i] == list_bytes(xs, enc)[i]);
            }
        }
        assert forall|k: int| 0 <= k < ys.len() implies #[trigger] good(ys[k]) by {
            assert(ys[k] == xs[k]);
        }
        lemma_list_at(d, p, ys, enc, item, good);
        assert(good(xs[xs.len() - 1]));
        assert(d.subrange(q, q + enc(x).len()) =~= enc(x)) by {
            assert forall|i: int| 0 <= i < enc(x).len() implies #[trigger] d.subrange(q, q + enc(x).len())[i] == enc(x)[i] by {
                assert(d.subrange(p, p + list_bytes(xs, enc).len())[ly.len() + i] == list_bytes(xs, enc)[ly.len() + i]);
            }
        }
        assert(item(d, q) == Step::Ok((x, q + enc(x).len())));
        assert(ys.push(x) =~= xs);
    } else {
        assert(xs =~= Seq::<T>::empty());
    }
}

/// When every item reads back, a lenient list read gives all the items.
pub proof fn lemma_list_lenient_at<T>(
    d: Seq<u8>,
    p: int,
    xs: Seq<T>,
    enc: spec_fn(T) -> Seq<u8>,
    item: spec_fn(Seq<u8>, int) -> Step<T>,
    good: spec_fn(T) -> bool,
)
    requires
        0 <= p,
        p + list_bytes(xs, enc).len() <= d.len(),
        d.subrange(p, p + list_bytes(xs, enc).len()) == list_bytes(xs, enc),
        forall|k: int| 0 <= k < xs.len() ==> #[trigger] good(xs[k]),
        forall|x: T, q: int|
            #![trigger good(x), item(d, q)]
            good(x) && 0 <= q && q + enc(x).len() <= d.len() && d.subrange(q, q + enc(x).len()) == enc(x) ==> item(d, q)
                == Step::Ok((x, q + enc(x).len())),
    ensures
        p_list_lenient(d, p, xs.len(), item) == (xs, p + list_bytes(xs, enc).len()),
    decreases xs.len(),
{
    if xs.len() > 0 {
        let ys = xs.drop_last();
        let x = xs.last();
        let ly = list_bytes(ys, enc);
        let q = p + ly.len();
        assert(list_bytes(xs, enc) == ly + enc(x));
        assert(d.subrange(p, q) =~= ly) by {
            assert forall|i: int| 0 <= i < ly.len() implies #[trigger] d.subrange(p, q)[i] == ly[i] by {
                assert(d.subrange(p, p + list_bytes(xs, enc).len())[i] == list_bytes(xs, enc)[i]);
            }
        }
        assert forall|k: int| 0 <= k < ys.len() implies #[trigger] good(ys[k]) by {
            assert(ys[k] == xs[k]);
        }
        lemma_list_lenient_at(d, p, ys, enc, item, good);
        assert(good(xs[xs.len() - 1]));
        assert(d.subrange(q, q + enc(x).len()) =~= enc(x)) by {
            assert forall|i: int| 0 <= i < enc(x).len() implies #[trigger] d.subrange(q, q + enc(x).len())[i] == enc(x)[i] by {
                assert(d.subrange(p, p + list_bytes(xs, enc).len())[ly.len() + i] == list_bytes(xs, enc)[ly.len() + i]);
            }
        }
        assert(item(d, q) == Step::Ok((x, q + enc(x).len())));
        assert(ys.push(x) =~= xs);
    } else {
        assert(xs =~= Seq::<T>::empty());
    }
}



/// A counted list of strings as written on the wire.
pub open spec fn strings_bytes(xs: Seq<Seq<char>>) -> Seq<u8> {
    counted_bytes(xs, |s: Seq<char>| string_field(s))
}

/// A counted list of `u32`s as written on the wire.
pub open spec fn u32s_bytes(xs: Seq<u32>) -> Seq<u8> {
    counted_bytes(xs, |v: u32| u32_le(v))
}

/// Every string of the list has a length that fits its `u32` prefix.
pub open spec fn all_fit(xs: Seq<Seq<char>>) -> bool {
    forall|k: int| 0 <= k < xs.len() ==> #[trigger] fits(xs[k])
}

/// Reading a counted list where its count and items were written gives the
/// list back, when each item reads back where it was written.
pub proof fn lemma_counted_at<T>(
    d: Seq<u8>,
    p: int,
    xs: Seq<T>,
    enc: spec_fn(T) -> Seq<u8>,
    item: spec_fn(Seq<u8>, int) -> Step<T>,
    good: spec_fn(T) -> bool,
)
    requires
        0 <= p,
        xs.len() <= u32::MAX,
        p + counted_bytes(xs, enc).len() <= d.len(),
        d.subrange(p, p + counted_bytes(xs, enc).len()) == counted_bytes(xs, enc),
        forall|k: int| 0 <= k < xs.len() ==> #[trigger] good(xs[k]),
        forall|x: T, q: int|
            #![trigger good(x), item(d, q)]
            good(x) && 0 <= q && q + enc(x).len() <= d.len() && d.subrange(q, q + enc(x).len()) == enc(x) ==> item(d, q)
                == Step::Ok((x, q + enc(x).len())),
    ensures
        p_counted(d, p, item) == Step::Ok((xs, p + counted_bytes(xs, enc).len())),
{
    let whole = counted_bytes(xs, enc);
    let lb = list_bytes(xs, enc);
    assert(whole.subrange(0, 4) =~= u32_le(xs.len() as u32));
    lemma_sub_at(d, p, whole, 0, u32_le(xs.len() as u32));
    lemma_u32_at(d, p, xs.len() as u32);
    assert(whole.subrange(4, 4 + lb.len() as int) =~= lb);
    lemma_sub_at(d, p, whole, 4, lb);
    lemma_list_at(d, p + 4, xs, enc, item, good);
}

/// Reading a counted list of strings where one was written gives it back.
pub proof fn lemma_strings_at(d: Seq<u8>, p: int, xs: Seq<Seq<char>>)
    requires
        0 <= p,
        xs.len() <= u32::MAX,
        all_fit(xs),
        p + strings_bytes(xs).len() <= d.len(),
        d.subrange(p, p + strings_bytes(xs).len()) == strings_bytes(xs),
    ensures
        p_counted(d, p, string_item()) == Step::Ok((xs, p + strings_bytes(xs).len())),
{
    let enc = |s: Seq<char>| string_field(s);
    let good = |s: Seq<char>| fits(s);
    assert forall|x: Seq<char>, q: int|
        #![trigger good(x), string_item()(d, q)]
        good(x) && 0 <= q && q + enc(x).len() <= d.len() && d.subrange(q, q + enc(x).len()) == enc(x) implies string_item()(
            d,
            q,
        ) == Step::Ok((x, q + enc(x).len())) by {
        lemma_string_at(d, q, x);
    }
    assert forall|k: int| 0 <= k < xs.len() implies #[trigger] good(xs[k]) by {
        assert(fits(xs[k]));
    }
    lemma_counted_at(d, p, xs, enc, string_item(), good);
}

/// Reading a count and then as many strings, skipping those that fail,
/// where a counted list of strings was written gives the list back.
pub proof fn lemma_strings_lenient_at(d: Seq<u8>, p: int, xs: Seq<Seq<char>>)
    requires
        0 <= p,
        xs.len() <= u32::MAX,
        all_fit(xs),
        p + strings_bytes(xs).len() <= d.len(),
        d.subrange(p, p + strings_bytes(xs).len()) == strings_bytes(xs),
    ensures
        p_u32(d, p) == Step::Ok((xs.len() as u32, p + 4)),
        p_list_lenient(d, p + 4, xs.len(), string_item()) == (xs, p + strings_bytes(xs).len()),
{
    let enc = |s: Seq<char>| string_field(s);
    let good = |s: Seq<char>| fits(s);
    let whole = strings_bytes(xs);
    let lb = list_bytes(xs, enc);
    assert(whole.subrange(0, 4) =~= u32_le(xs.len() as u32));
    lemma_sub_at(d, p, whole, 0, u32_le(xs.len() as u32));
    lemma_u32_at(d, p, xs.len() as u32);
    assert(whole.subrange(4, 4 + lb.len() as int) =~= lb);
    lemma_sub_at(d, p, whole, 4, lb);
    assert forall|x: Seq<char>, q: int|
        #![trigger good(x), string_item()(d, q)]
        good(x) && 0 <= q && q + enc(x).len() <= d.len() && d.subrange(q, q + enc(x).len()) == enc(x) implies string_item()(
            d,
            q,
        ) == Step::Ok((x, q + enc(x).len())) by {
        lemma_string_at(d, q, x);
    }
    assert forall|k: int| 0 <= k < xs.len() implies #[trigger] good(xs[k]) by {
        assert(fits(xs[k]));
    }
    lemma_list_lenient_at(d, p + 4, xs, enc, string_item(), good);
}

/// Reading a counted list of `u32`s where one was written gives it back.
pub proof fn lemma_u32s_at(d: Seq<u8>, p: int, xs: Seq<u32>)
    requires
        0 <= p,
        xs.len() <= u32::MAX,
        p + u32s_bytes(xs).len() <= d.len(),
        d.subrange(p, p + u32s_bytes(xs).len()) == u32s_bytes(xs),
    ensures
        p_counted(d, p, u32_item()) == Step::Ok((xs, p + u32s_bytes(xs).len())),
{
    let enc = |v: u32| u32_le(v);
    let good = |v: u32| true;
    assert forall|x: u32, q: int|
        #![trigger good(x), u32_item()(d, q)]
        good(x) && 0 <= q && q + enc(x).len() <= d.len() && d.subrange(q, q + enc(x).len()) == enc(x) implies u32_item()(
            d,
            q,
        ) == Step::Ok((x, q + enc(x).len())) by {
        lemma_u32_at(d, q, x);
    }
    lemma_counted_at(d, p, xs, enc, u32_item(), good);
}

/// A part of what was written at `p` sits at its offset from `p`.
pub proof fn lemma_sub_at(d: Seq<u8>, p: int, whole: Seq<u8>, off: int, part: Seq<u8>)
    requires
        0 <= p,
        p + whole.len() <= d.len(),
        d.subrange(p, p + whole.len()) == whole,
        0 <= off,
        off + part.len() <= whole.len(),
        whole.subrange(off, off + part.len()) == part,
    ensures
        d.subrange(p + off, p + off + part.len()) == part,
{
    assert(d.subrange(p + off, p + off + part.len()) =~= part) by {
        assert forall|i: int| 0 <= i < part.len() implies #[trigger] d.subrange(p + off, p + off + part.len())[i]
            == part[i] by {
            assert(d.subrange(p, p + whole.len())[off + i] == whole[off + i]);
            assert(whole.subrange(off, off + part.len())[i] == whole[off + i]);
        }
    }
}

/// Where `pre` then `x` were written at the start, `pre` and `x` each sit
/// where they were written.
pub proof fn lemma_piece_at(d: Seq<u8>, pre: Seq<u8>, x: Seq<u8>)
    requires
        pre.len() + x.len() <= d.len(),
        d.subrange(0, (pre.len() + x.len()) as int) == pre + x,
    ensures
        d.subrange(0, pre.len() as int) == pre,
        d.subrange(pre.len() as int, (pre.len() + x.len()) as int) == x,
{
    let n = (pre.len() + x.len()) as int;
    assert(d.subrange(0, pre.len() as int) =~= pre) by {
        assert forall|i: int| 0 <= i < pre.len() implies #[trigger] d.subrange(0, pre.len() as int)[i]
            == pre[i] by {
            assert(d.subrange(0, n)[i] == (pre + x)[i]);
        }
    }
    assert(d.subrange(pre.len() as int, n) =~= x) by {
        assert forall|i: int| 0 <= i < x.len() implies #[trigger] d.subrange(pre.len() as int, n)[i]
            == x[i] by {
            assert(d.subrange(0, n)[pre.len() + i] == (pre + x)[pre.len() + i]);
        }
    }
}

} // verus!
