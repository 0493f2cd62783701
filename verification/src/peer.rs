//! Peer messages — sent over a "P" (peer-to-peer) TCP connection.
//! Uses uint32 message codes with the standard length-prefixed framing.
pub mod code;

use vstd::prelude::*;
use vstd::slice::slice_to_vec;
use crate::codec::{
    frame_message_u32, read_bool, read_bytes, read_string, read_u32_le, read_u64_le, write_bool, write_bytes,
    write_string, write_u32_le, write_u64_le, write_u8, ByteReader,
};
use crate::error::{decimal, Error, Result};
use crate::shared_files::{
    decode_shared_file, entries_bytes, entries_ok, file_entry_bytes, file_entry_item, lemma_file_entries_at, p_file_entry,
    p_u32_or_zero, write_attributes, FileEntryView,
};
use crate::types::{FileAttribute, TransferDirection, UploadPermission};
use crate::wire::{
    bool_byte, bytes_field, decode_matches, fail_is, fits, le32, lemma_bool_at, lemma_bytes_at, lemma_string_at, lemma_u32_at, lemma_u64_at, lemma_piece_at, lemma_sub_at, Fail, frame_u32, lemma_list_err, list_bytes, p_bool, p_bytes,
    p_list, p_list_lenient, p_string, p_u32, p_u64, step_matches, step_matches_list, string_field, u32_le, u64_le,
    views, Decoded, Step,
};
use crate::zlib::{deflate, inflate, zlib_deflate, zlib_inflate};

pub use crate::shared_files::SharedFileListResponse as SharedFileListResponseData;

verus! {

// ── GetSharedFileList ─────────────────────────────────────────────────────────

/// Empty message — request the peer's full share list.
pub fn encode_get_shared_file_list() -> (out: Vec<u8>)
    ensures
        out@ == frame_u32(code::GET_SHARED_FILE_LIST, Seq::empty()),
{
    let empty: Vec<u8> = Vec::new();
    frame_message_u32(code::GET_SHARED_FILE_LIST, empty.as_slice())
}

/// Empty message — request the peer to send us their user info.
pub fn encode_user_info_request() -> (out: Vec<u8>)
    ensures
        out@ == frame_u32(code::USER_INFO_REQUEST, Seq::empty()),
{
    let empty: Vec<u8> = Vec::new();
    frame_message_u32(code::USER_INFO_REQUEST, empty.as_slice())
}

// ── SharedFileListResponse ────────────────────────────────────────────────────

/// Encode a shared file list response (already-compressed payload).
pub fn encode_shared_file_list_response(compressed: &[u8]) -> (out: Vec<u8>)
    ensures
        out@ == frame_u32(code::SHARED_FILE_LIST_RESPONSE, compressed@),
{
    frame_message_u32(code::SHARED_FILE_LIST_RESPONSE, compressed)
}

// ── FileSearchResponse ────────────────────────────────────────────────────────

#[derive(Debug, Clone)]
pub struct FileSearchResult {
    pub code: u8,
    pub filename: String,
    pub size: u64,
    pub extension: String,
    pub attributes: Vec<FileAttribute>,
}

impl View for FileSearchResult {
    type V = FileEntryView;

    open spec fn view(&self) -> FileEntryView {
        (self.code, self.filename@, self.size, self.extension@, self.attributes@)
    }
}

#[derive(Debug, Clone)]
pub struct FileSearchResponse {
    pub username: String,
    pub token: u32,
    pub results: Vec<FileSearchResult>,
    pub slot_free: bool,
    pub avg_speed: u32,
    pub queue_length: u32,
    pub unknown: u32,
    pub private_results: Vec<FileSearchResult>,
}

/// A search response, by value.
pub type FileSearchResponseView = (Seq<char>, u32, Seq<FileEntryView>, bool, u32, u32, u32, Seq<FileEntryView>);

impl View for FileSearchResponse {
    type V = FileSearchResponseView;

    open spec fn view(&self) -> FileSearchResponseView {
        (
            self.username@,
            self.token,
            views(self.results@),
            self.slot_free,
            self.avg_speed,
            self.queue_length,
            self.unknown,
            views(self.private_results@),
        )
    }
}

/// A search result has the layout of a shared file entry.
fn decode_search_result(cur: &mut ByteReader) -> (res: Result<FileSearchResult>)
    ensures
        final(cur).bytes() == old(cur).bytes(),
        step_matches(res, final(cur).pos(), p_file_entry(old(cur).bytes(), old(cur).pos())),
{
    let f = decode_shared_file(cur)?;
    Ok(FileSearchResult {
        code: f.code,
        filename: f.filename,
        size: f.size,
        extension: f.extension,
        attributes: f.attributes,
    })
}

fn encode_search_result(r: &FileSearchResult, out: &mut Vec<u8>)
    ensures
        final(out)@ == old(out)@ + file_entry_bytes(r@),
{
    write_u8(out, r.code);
    write_string(out, r.filename.as_str());
    write_u64_le(out, r.size);
    write_string(out, r.extension.as_str());
    write_u32_le(out, r.attributes.len() as u32);
    write_attributes(out, &r.attributes);
}

/// Reads `n` search results.
fn read_search_results(cur: &mut ByteReader, n: u32) -> (res: Result<Vec<FileSearchResult>>)
    ensures
        final(cur).bytes() == old(cur).bytes(),
        step_matches_list(res, final(cur).pos(), p_list(old(cur).bytes(), old(cur).pos(), n as nat, file_entry_item())),
{
    let ghost d = cur.bytes();
    let ghost p0 = cur.pos();
    let mut out: Vec<FileSearchResult> = Vec::new();
    let mut i: u32 = 0;
    assert(views(out@) =~= Seq::empty());
    while i < n
        invariant
            d == old(cur).bytes(),
            p0 == old(cur).pos(),
            cur.bytes() == d,
            i <= n,
            p_list(d, p0, i as nat, file_entry_item()) == Step::Ok((views(out@), cur.pos())),
        decreases n - i,
    {
        let ghost before = out@;
        match decode_search_result(cur) {
            Ok(x) => {
                let ghost xv = x@;
                out.push(x);
                i = i + 1;
                assert(views(out@) =~= views(before).push(xv));
            },
            Err(e) => {
                proof {
                    lemma_list_err(d, p0, (i + 1) as nat, n as nat, file_entry_item());
                }
                return Err(e);
            },
        }
    }
    Ok(out)
}

/// Reads `n` search results, skipping those that fail to decode.
fn read_search_results_lenient(cur: &mut ByteReader, n: u32) -> (out: Vec<FileSearchResult>)
    ensures
        final(cur).bytes() == old(cur).bytes(),
        p_list_lenient(old(cur).bytes(), old(cur).pos(), n as nat, file_entry_item()) == (views(out@), final(cur).pos()),
{
    let ghost d = cur.bytes();
    let ghost p0 = cur.pos();
    let mut out: Vec<FileSearchResult> = Vec::new();
    let mut i: u32 = 0;
    assert(views(out@) =~= Seq::empty());
    while i < n
        invariant
            d == old(cur).bytes(),
            p0 == old(cur).pos(),
            cur.bytes() == d,
            i <= n,
            p_list_lenient(d, p0, i as nat, file_entry_item()) == (views(out@), cur.pos()),
        decreases n - i,
    {
        let ghost before = out@;
        if let Ok(x) = decode_search_result(cur) {
            let ghost xv = x@;
            out.push(x);
            assert(views(out@) =~= views(before).push(xv));
        }
        i = i + 1;
    }
    out
}

/// Appends a count and the search results.
fn write_search_results(out: &mut Vec<u8>, results: &Vec<FileSearchResult>)
    ensures
        final(out)@ == old(out)@ + u32_le(results@.len() as u32) + entries_bytes(views(results@)),
{
    write_u32_le(out, results.len() as u32);
    let ghost enc = |f: FileEntryView| file_entry_bytes(f);
    let ghost vs = views(results@);
    let ghost start = out@;
    let mut i: usize = 0;
    assert(vs.take(0) =~= Seq::empty());
    while i < results.len()
        invariant
            i <= results@.len(),
            vs == views(results@),
            enc == (|f: FileEntryView| file_entry_bytes(f)),
            out@ == start + list_bytes(vs.take(i as int), enc),
        decreases results@.len() - i,
    {
        encode_search_result(&results[i], out);
        assert(vs.take(i + 1).drop_last() =~= vs.take(i as int));
        i = i + 1;
    }
    assert(vs.take(vs.len() as int) =~= vs);
}

impl FileSearchResponse {
    /// The uncompressed layout: username, token, result count and results,
    /// free slot flag, average speed, queue length, a `u32`, private result
    /// count and private results.
    pub open spec fn spec_raw(&self) -> Seq<u8> {
        string_field(self.username@) + u32_le(self.token) + u32_le(self.results@.len() as u32) + entries_bytes(views(self.results@)) + bool_byte(self.slot_free) + u32_le(self.avg_speed) + u32_le(self.queue_length) + u32_le(self.unknown)
            + u32_le(self.private_results@.len() as u32) + entries_bytes(views(self.private_results@))
    }

    /// The bytes on the wire, written out field by field, in this order.
    pub proof fn lemma_body_layout(m: Self)
        ensures
            m.spec_raw() == (string_field(m.username@) + u32_le(m.token) + u32_le(m.results@.len() as u32) + entries_bytes(views(m.results@)) + bool_byte(m.slot_free) + u32_le(m.avg_speed) + u32_le(m.queue_length) + u32_le(m.unknown)
                + u32_le(m.private_results@.len() as u32) + entries_bytes(views(m.private_results@))),
    {
    }

    /// The uncompressed layout read back. Everything up to the `u32` after
    /// the queue length must decode; a missing private result count reads as
    /// 0, and private results that fail to decode are skipped.
    #[verifier::opaque]
    pub open spec fn spec_decode_raw(d: Seq<u8>) -> Decoded<FileSearchResponseView> {
        match p_string(d, 0) {
            Ok((username, p1)) => match p_u32(d, p1) {
                Ok((token, p2)) => match p_u32(d, p2) {
                    Ok((n, p3)) => match p_list(d, p3, n as nat, file_entry_item()) {
                        Ok((results, p4)) => match p_bool(d, p4) {
                            Ok((slot_free, p5)) => match p_u32(d, p5) {
                                Ok((avg_speed, p6)) => match p_u32(d, p6) {
                                    Ok((queue_length, p7)) => match p_u32(d, p7) {
                                        Ok((unknown, p8)) => {
                                            let (np, p9) = p_u32_or_zero(d, p8);
                                            let (private_results, _) = p_list_lenient(
                                                d,
                                                p9,
                                                np as nat,
                                                file_entry_item(),
                                            );
                                            Ok(
                                                (
                                                    username,
                                                    token,
                                                    results,
                                                    slot_free,
                                                    avg_speed,
                                                    queue_length,
                                                    unknown,
                                                    private_results,
                                                ),
                                            )
                                        },
                                        Err((f, _)) => Err(f),
                                    },
                                    Err((f, _)) => Err(f),
                                },
                                Err((f, _)) => Err(f),
                            },
                            Err((f, _)) => Err(f),
                        },
                        Err((f, _)) => Err(f),
                    },
                    Err((f, _)) => Err(f),
                },
                Err((f, _)) => Err(f),
            },
            Err((f, _)) => Err(f),
        }
    }

    /// Where each field of `m` was written in its place in `d` (the places
    /// ending at the offsets `o`), reading `d` gives back `m`.
    proof fn lemma_decode_at(d: Seq<u8>, m: Self, o: (int, int, int, int, int, int, int, int, int, int))
        requires
            fits(m.username@),
            entries_ok(views(m.results@)),
            entries_ok(views(m.private_results@)),
            o.0 == string_field(m.username@).len(),
            o.1 == o.0 + 4,
            o.2 == o.1 + 4,
            o.3 == o.2 + entries_bytes(views(m.results@)).len(),
            o.4 == o.3 + 1,
            o.5 == o.4 + 4,
            o.6 == o.5 + 4,
            o.7 == o.6 + 4,
            o.8 == o.7 + 4,
            o.9 == o.8 + entries_bytes(views(m.private_results@)).len(),
            o.9 == d.len(),
            d.subrange(0, o.0) == string_field(m.username@),
            d.subrange(o.0, o.1) == u32_le(m.token),
            d.subrange(o.1, o.2) == u32_le(m.results@.len() as u32),
            d.subrange(o.2, o.3) == entries_bytes(views(m.results@)),
            d.subrange(o.3, o.4) == bool_byte(m.slot_free),
            d.subrange(o.4, o.5) == u32_le(m.avg_speed),
            d.subrange(o.5, o.6) == u32_le(m.queue_length),
            d.subrange(o.6, o.7) == u32_le(m.unknown),
            d.subrange(o.7, o.8) == u32_le(m.private_results@.len() as u32),
            d.subrange(o.8, o.9) == entries_bytes(views(m.private_results@)),
        ensures
            Self::spec_decode_raw(d) == Decoded::Ok(m@),
    {
        let rs = views(m.results@);
        let ps = views(m.private_results@);
        lemma_string_at(d, 0, m.username@);
        lemma_u32_at(d, o.0, m.token);
        lemma_u32_at(d, o.1, rs.len() as u32);
        lemma_file_entries_at(d, o.2, rs);
        lemma_bool_at(d, o.3, m.slot_free);
        lemma_u32_at(d, o.4, m.avg_speed);
        lemma_u32_at(d, o.5, m.queue_length);
        lemma_u32_at(d, o.6, m.unknown);
        lemma_u32_at(d, o.7, ps.len() as u32);
        lemma_file_entries_at(d, o.8, ps);
        Self::lemma_decode_fields(d, m, o);
    }

    /// Reading the uncompressed layout field by field, where each field
    /// reads back as `m` holds it, gives back `m`.
    proof fn lemma_decode_fields(d: Seq<u8>, m: Self, o: (int, int, int, int, int, int, int, int, int, int))
        requires
            p_string(d, 0) == Ok::<(Seq<char>, int), (Fail, int)>((m.username@, o.0)),
            p_u32(d, o.0) == Ok::<(u32, int), (Fail, int)>((m.token, o.1)),
            p_u32(d, o.1) == Ok::<(u32, int), (Fail, int)>((m.results@.len() as u32, o.2)),
            m.results@.len() <= u32::MAX,
            p_list(d, o.2, m.results@.len(), file_entry_item()) == Step::Ok((views(m.results@), o.3)),
            p_bool(d, o.3) == Ok::<(bool, int), (Fail, int)>((m.slot_free, o.4)),
            p_u32(d, o.4) == Ok::<(u32, int), (Fail, int)>((m.avg_speed, o.5)),
            p_u32(d, o.5) == Ok::<(u32, int), (Fail, int)>((m.queue_length, o.6)),
            p_u32(d, o.6) == Ok::<(u32, int), (Fail, int)>((m.unknown, o.7)),
            p_u32(d, o.7) == Ok::<(u32, int), (Fail, int)>((m.private_results@.len() as u32, o.8)),
            m.private_results@.len() <= u32::MAX,
            p_list_lenient(d, o.8, m.private_results@.len(), file_entry_item()) == (
                views(m.private_results@),
                o.9,
            ),
        ensures
            Self::spec_decode_raw(d) == Decoded::Ok(m@),
    {
        reveal(FileSearchResponse::spec_decode_raw);
    }

    /// Decoding the uncompressed layout gives back the response, when its
    /// lists and strings fit their `u32` prefixes.
    #[verifier::rlimit(50)]
    pub proof fn lemma_roundtrip(m: Self)
        requires
            fits(m.username@),
            entries_ok(views(m.results@)),
            entries_ok(views(m.private_results@)),
        ensures
            Self::spec_decode_raw(m.spec_raw()) == Decoded::Ok(m@),
    {
        let d = m.spec_raw();
        let rs = views(m.results@);
        let ps = views(m.private_results@);
        let q1 = string_field(m.username@);
        let q2 = q1 + u32_le(m.token);
        let q3 = q2 + u32_le(rs.len() as u32);
        let q4 = q3 + entries_bytes(rs);
        let q5 = q4 + bool_byte(m.slot_free);
        let q6 = q5 + u32_le(m.avg_speed);
        let q7 = q6 + u32_le(m.queue_length);
        let q8 = q7 + u32_le(m.unknown);
        let q9 = q8 + u32_le(ps.len() as u32);
        let l2 = entries_bytes(ps);
        assert(d.subrange(0, d.len() as int) =~= q9 + l2);
        lemma_piece_at(d, q9, l2);
        lemma_piece_at(d, q8, u32_le(ps.len() as u32));
        lemma_piece_at(d, q7, u32_le(m.unknown));
        lemma_piece_at(d, q6, u32_le(m.queue_length));
        lemma_piece_at(d, q5, u32_le(m.avg_speed));
        lemma_piece_at(d, q4, bool_byte(m.slot_free));
        lemma_piece_at(d, q3, entries_bytes(rs));
        lemma_piece_at(d, q2, u32_le(rs.len() as u32));
        lemma_piece_at(d, q1, u32_le(m.token));
        let o = (
            q1.len() as int,
            q2.len() as int,
            q3.len() as int,
            q4.len() as int,
            q5.len() as int,
            q6.len() as int,
            q7.len() as int,
            q8.len() as int,
            q9.len() as int,
            d.len() as int,
        );
        Self::lemma_decode_at(d, m, o);
    }

    /// What [`Self::encode_compressed`] hands back decompresses to the
    /// uncompressed layout, and that decodes to the response again.
    pub proof fn lemma_compressed_roundtrip(m: Self, c: Seq<u8>)
        requires
            fits(m.username@),
            entries_ok(views(m.results@)),
            entries_ok(views(m.private_results@)),
            c == zlib_deflate(m.spec_raw()),
            zlib_inflate(c) == Some(m.spec_raw()),
        ensures
            zlib_inflate(c) matches Some(raw) && Self::spec_decode_raw(raw) == Decoded::Ok(m@),
    {
        Self::lemma_roundtrip(m);
    }

    /// Decodes the uncompressed layout.
    pub fn decode_uncompressed(raw: &[u8]) -> (res: Result<Self>)
        ensures
            decode_matches(res, Self::spec_decode_raw(raw@)),
    {
        proof {
            reveal(FileSearchResponse::spec_decode_raw);
        }
        let mut cur = ByteReader::new(raw);
        let username = read_string(&mut cur)?;
        let token = read_u32_le(&mut cur)?;
        let n = read_u32_le(&mut cur)?;
        let results = read_search_results(&mut cur, n)?;
        let slot_free = read_bool(&mut cur)?;
        let avg_speed = read_u32_le(&mut cur)?;
        let queue_length = read_u32_le(&mut cur)?;
        let unknown = read_u32_le(&mut cur)?;
        let np = match read_u32_le(&mut cur) {
            Ok(v) => v,
            Err(_) => 0,
        };
        let private_results = read_search_results_lenient(&mut cur, np);
        Ok(Self { username, token, results, slot_free, avg_speed, queue_length, unknown, private_results })
    }

    /// Decompresses and decodes.
    pub fn decode_compressed(data: &[u8]) -> (res: Result<Self>)
        ensures
            match zlib_inflate(data@) {
                Some(raw) => decode_matches(res, Self::spec_decode_raw(raw)),
                None => res matches Err(Error::Zlib(_)),
            },
    {
        match inflate(data) {
            Ok(raw) => Self::decode_uncompressed(raw.as_slice()),
            Err(msg) => Err(Error::Zlib(msg)),
        }
    }

    /// The uncompressed layout.
    pub fn encode_uncompressed(&self) -> (raw: Vec<u8>)
        ensures
            raw@ == self.spec_raw(),
    {
        let mut raw = Vec::new();
        write_string(&mut raw, self.username.as_str());
        write_u32_le(&mut raw, self.token);
        write_search_results(&mut raw, &self.results);
        write_bool(&mut raw, self.slot_free);
        write_u32_le(&mut raw, self.avg_speed);
        write_u32_le(&mut raw, self.queue_length);
        write_u32_le(&mut raw, self.unknown);
        write_search_results(&mut raw, &self.private_results);
        raw
    }

    /// Encodes and compresses.
    pub fn encode_compressed(&self) -> (res: Result<Vec<u8>>)
        ensures
            res matches Ok(c) && c@ == zlib_deflate(self.spec_raw()) && zlib_inflate(c@) == Some(self.spec_raw()),
    {
        let raw = self.encode_uncompressed();
        match deflate(raw.as_slice()) {
            Ok(c) => Ok(c),
            Err(msg) => Err(Error::Zlib(msg)),
        }
    }
}


// ── UserInfoResponse ──────────────────────────────────────────────────────────

#[derive(Debug, Clone)]
pub struct UserInfoResponse {
    pub description: String,
    pub picture: Option<Vec<u8>>,
    pub total_uploads: u32,
    pub queue_size: u32,
    pub slots_free: bool,
    /// Upload permission setting (optional, not sent by SoulseekQt)
    pub upload_permitted: Option<UploadPermission>,
}

/// A user info response, by value.
pub type UserInfoView = (Seq<char>, Option<Seq<u8>>, u32, u32, bool, Option<UploadPermission>);

/// The view of an optional byte blob.
pub open spec fn opt_bytes(o: Option<Vec<u8>>) -> Option<Seq<u8>> {
    match o {
        Some(v) => Some(v@),
        None => None,
    }
}

impl View for UserInfoResponse {
    type V = UserInfoView;

    open spec fn view(&self) -> UserInfoView {
        (
            self.description@,
            opt_bytes(self.picture),
            self.total_uploads,
            self.queue_size,
            self.slots_free,
            self.upload_permitted,
        )
    }
}

impl UserInfoResponse {
    /// The body on the wire: description, picture flag and (if any) picture,
    /// total uploads, queue size, free slots flag, and the upload permission
    /// if there is one.
    pub open spec fn spec_body(&self) -> Seq<u8> {
        string_field(self.description@) + self.spec_picture() + u32_le(self.total_uploads) + u32_le(
            self.queue_size,
        ) + bool_byte(self.slots_free) + self.spec_permission()
    }

    /// The bytes on the wire, written out field by field, in this order.
    pub proof fn lemma_body_layout(m: Self)
        ensures
            m.spec_body() == (string_field(m.description@) + m.spec_picture() + u32_le(m.total_uploads) + u32_le(
                m.queue_size,
            ) + bool_byte(m.slots_free) + m.spec_permission()),
    {
    }

    /// The body read back. A missing or unknown trailing permission reads as none.
    #[verifier::opaque]
    pub open spec fn spec_decode(d: Seq<u8>) -> Decoded<UserInfoView> {
        match p_string(d, 0) {
            Ok((description, p1)) => match p_bool(d, p1) {
                Ok((has_picture, p2)) => {
                    let pic: Step<Option<Seq<u8>>> = if has_picture {
                        match p_bytes(d, p2) {
                            Ok((b, q)) => Ok((Some(b), q)),
                            Err(e) => Err(e),
                        }
                    } else {
                        Ok((None, p2))
                    };
                    match pic {
                        Ok((picture, p3)) => match p_u32(d, p3) {
                            Ok((total_uploads, p4)) => match p_u32(d, p4) {
                                Ok((queue_size, p5)) => match p_bool(d, p5) {
                                    Ok((slots_free, p6)) => {
                                        let upload_permitted = match p_u32(d, p6) {
                                            Ok((v, _)) => UploadPermission::spec_from_wire(v),
                                            Err(_) => None,
                                        };
                                        Ok(
                                            (
                                                description,
                                                picture,
                                                total_uploads,
                                                queue_size,
                                                slots_free,
                                                upload_permitted,
                                            ),
                                        )
                                    },
                                    Err((f, _)) => Err(f),
                                },
                                Err((f, _)) => Err(f),
                            },
                            Err((f, _)) => Err(f),
                        },
                        Err((f, _)) => Err(f),
                    }
                },
                Err((f, _)) => Err(f),
            },
            Err((f, _)) => Err(f),
        }
    }

    pub fn decode(body: &[u8]) -> (res: Result<Self>)
        ensures
            decode_matches(res, Self::spec_decode(body@)),
    {
        proof {
            reveal(UserInfoResponse::spec_decode);
        }
        let mut cur = ByteReader::new(body);
        let description = read_string(&mut cur)?;
        let has_picture = read_bool(&mut cur)?;
        let picture = if has_picture {
            Some(read_bytes(&mut cur)?)
        } else {
            None
        };
        let total_uploads = read_u32_le(&mut cur)?;
        let queue_size = read_u32_le(&mut cur)?;
        let slots_free = read_bool(&mut cur)?;
        let upload_permitted = match read_u32_le(&mut cur) {
            Ok(v) => match UploadPermission::try_from(v) {
                Ok(p) => Some(p),
                Err(_) => None,
            },
            Err(_) => None,
        };
        Ok(Self { description, picture, total_uploads, queue_size, slots_free, upload_permitted })
    }

    /// The picture flag and (if any) picture, as written.
    pub open spec fn spec_picture(&self) -> Seq<u8> {
        match self.picture {
            Some(pic) => bool_byte(true) + bytes_field(pic@),
            None => bool_byte(false),
        }
    }

    /// The upload permission, as written (nothing if there is none).
    pub open spec fn spec_permission(&self) -> Seq<u8> {
        match self.upload_permitted {
            Some(perm) => u32_le(perm.wire()),
            None => Seq::empty(),
        }
    }

    /// Where the description and picture of `m` were written in their place
    /// in `d`, they read back.
    proof fn lemma_head_at(d: Seq<u8>, m: Self, o1: int, o2: int)
        requires
            fits(m.description@),
            m.picture matches Some(pic) ==> pic@.len() <= u32::MAX,
            o1 == string_field(m.description@).len(),
            o2 == o1 + m.spec_picture().len(),
            o2 <= d.len(),
            d.subrange(0, o1) == string_field(m.description@),
            d.subrange(o1, o2) == m.spec_picture(),
        ensures
            p_string(d, 0) == Ok::<(Seq<char>, int), (Fail, int)>((m.description@, o1)),
            p_bool(d, o1) == Ok::<(bool, int), (Fail, int)>((m.picture is Some, o1 + 1)),
            match m.picture {
                Some(p) => p_bytes(d, o1 + 1) == Ok::<(Seq<u8>, int), (Fail, int)>((p@, o2)),
                None => o2 == o1 + 1,
            },
    {
        let pic = m.spec_picture();
        lemma_string_at(d, 0, m.description@);
        match m.picture {
            Some(p) => {
                assert(pic.subrange(0, pic.len() as int) =~= pic);
                lemma_piece_at(pic, bool_byte(true), bytes_field(p@));
                lemma_sub_at(d, o1, pic, 0, bool_byte(true));
                lemma_sub_at(d, o1, pic, 1, bytes_field(p@));
                lemma_bool_at(d, o1, true);
                lemma_bytes_at(d, o1 + 1, p@);
            },
            None => {
                lemma_bool_at(d, o1, false);
            },
        }
    }

    /// Where the counts, flag and permission of `m` were written from `o2`
    /// on in `d`, they read back.
    proof fn lemma_tail_at(d: Seq<u8>, m: Self, o2: int)
        requires
            0 <= o2,
            o2 + 9 <= d.len(),
            d.subrange(o2, o2 + 4) == u32_le(m.total_uploads),
            d.subrange(o2 + 4, o2 + 8) == u32_le(m.queue_size),
            d.subrange(o2 + 8, o2 + 9) == bool_byte(m.slots_free),
            d.subrange(o2 + 9, d.len() as int) == m.spec_permission(),
        ensures
            p_u32(d, o2) == Ok::<(u32, int), (Fail, int)>((m.total_uploads, o2 + 4)),
            p_u32(d, o2 + 4) == Ok::<(u32, int), (Fail, int)>((m.queue_size, o2 + 8)),
            p_bool(d, o2 + 8) == Ok::<(bool, int), (Fail, int)>((m.slots_free, o2 + 9)),
            match m.upload_permitted {
                Some(perm) => p_u32(d, o2 + 9) == Ok::<(u32, int), (Fail, int)>((perm.wire(), o2 + 13)),
                None => d.len() == o2 + 9,
            },
    {
        lemma_u32_at(d, o2, m.total_uploads);
        lemma_u32_at(d, o2 + 4, m.queue_size);
        lemma_bool_at(d, o2 + 8, m.slots_free);
        if let Some(perm) = m.upload_permitted {
            assert(d.subrange(o2 + 9, d.len() as int).len() == 4);
            lemma_u32_at(d, o2 + 9, perm.wire());
        } else {
            assert(d.subrange(o2 + 9, d.len() as int).len() == 0);
        }
    }

    /// Reading a body field by field, where each field reads back as `m`
    /// holds it, gives back `m`.
    proof fn lemma_decode_fields(d: Seq<u8>, m: Self, o1: int, o2: int)
        requires
            p_string(d, 0) == Ok::<(Seq<char>, int), (Fail, int)>((m.description@, o1)),
            p_bool(d, o1) == Ok::<(bool, int), (Fail, int)>((m.picture is Some, o1 + 1)),
            match m.picture {
                Some(p) => p_bytes(d, o1 + 1) == Ok::<(Seq<u8>, int), (Fail, int)>((p@, o2)),
                None => o2 == o1 + 1,
            },
            p_u32(d, o2) == Ok::<(u32, int), (Fail, int)>((m.total_uploads, o2 + 4)),
            p_u32(d, o2 + 4) == Ok::<(u32, int), (Fail, int)>((m.queue_size, o2 + 8)),
            p_bool(d, o2 + 8) == Ok::<(bool, int), (Fail, int)>((m.slots_free, o2 + 9)),
            match m.upload_permitted {
                Some(perm) => p_u32(d, o2 + 9) == Ok::<(u32, int), (Fail, int)>((perm.wire(), o2 + 13)),
                None => d.len() == o2 + 9,
            },
        ensures
            Self::spec_decode(d) == Decoded::Ok(m@),
    {
        reveal(UserInfoResponse::spec_decode);
        if let Some(perm) = m.upload_permitted {
            UploadPermission::lemma_wire_roundtrip(perm);
        }
    }

    /// Where each field of `m` was written in its place in `d`, reading `d`
    /// gives back `m`.
    proof fn lemma_decode_at(d: Seq<u8>, m: Self, o1: int, o2: int)
        requires
            fits(m.description@),
            m.picture matches Some(pic) ==> pic@.len() <= u32::MAX,
            o1 == string_field(m.description@).len(),
            o2 == o1 + m.spec_picture().len(),
            o2 + 9 <= d.len(),
            d.subrange(0, o1) == string_field(m.description@),
            d.subrange(o1, o2) == m.spec_picture(),
            d.subrange(o2, o2 + 4) == u32_le(m.total_uploads),
            d.subrange(o2 + 4, o2 + 8) == u32_le(m.queue_size),
            d.subrange(o2 + 8, o2 + 9) == bool_byte(m.slots_free),
            d.subrange(o2 + 9, d.len() as int) == m.spec_permission(),
        ensures
            Self::spec_decode(d) == Decoded::Ok(m@),
    {
        Self::lemma_head_at(d, m, o1, o2);
        Self::lemma_tail_at(d, m, o2);
        Self::lemma_decode_fields(d, m, o1, o2);
    }

    /// Decoding an encoded body gives back the message, when the description
    /// and picture fit their length prefixes.
    pub proof fn lemma_roundtrip(m: Self)
        requires
            fits(m.description@),
            m.picture matches Some(pic) ==> pic@.len() <= u32::MAX,
        ensures
            Self::spec_decode(m.spec_body()) == Decoded::Ok(m@),
    {
        let d = m.spec_body();
        let q1 = string_field(m.description@);
        let q2 = q1 + m.spec_picture();
        let q3 = q2 + u32_le(m.total_uploads);
        let q4 = q3 + u32_le(m.queue_size);
        let q5 = q4 + bool_byte(m.slots_free);
        assert(d.subrange(0, d.len() as int) =~= q5 + m.spec_permission());
        lemma_piece_at(d, q5, m.spec_permission());
        lemma_piece_at(d, q4, bool_byte(m.slots_free));
        lemma_piece_at(d, q3, u32_le(m.queue_size));
        lemma_piece_at(d, q2, u32_le(m.total_uploads));
        lemma_piece_at(d, q1, m.spec_picture());
        Self::lemma_decode_at(d, m, q1.len() as int, q2.len() as int);
    }

    pub fn encode(&self) -> (out: Vec<u8>)
        ensures
            out@ == frame_u32(code::USER_INFO_RESPONSE, self.spec_body()),
    {
        let mut body = Vec::new();
        write_string(&mut body, self.description.as_str());
        match &self.picture {
            Some(pic) => {
                write_bool(&mut body, true);
                write_bytes(&mut body, pic.as_slice());
            },
            None => {
                write_bool(&mut body, false);
            },
        }
        write_u32_le(&mut body, self.total_uploads);
        write_u32_le(&mut body, self.queue_size);
        write_bool(&mut body, self.slots_free);
        if let Some(perm) = self.upload_permitted {
            write_u32_le(&mut body, perm.to_wire());
        }
        frame_message_u32(code::USER_INFO_RESPONSE, body.as_slice())
    }
}

// ── FolderContentsRequest ─────────────────────────────────────────────────────

#[derive(Debug, Clone)]
pub struct FolderContentsRequest {
    pub token: u32,
    pub folder: String,
}

impl View for FolderContentsRequest {
    type V = (u32, Seq<char>);

    open spec fn view(&self) -> (u32, Seq<char>) {
        (self.token, self.folder@)
    }
}

impl FolderContentsRequest {
    /// The body on the wire: token, folder.
    pub open spec fn spec_body(&self) -> Seq<u8> {
        u32_le(self.token) + string_field(self.folder@)
    }

    /// Token and folder read from the start of a body.
    pub open spec fn spec_decode(d: Seq<u8>) -> Decoded<(u32, Seq<char>)> {
        match p_u32(d, 0) {
            Ok((token, p1)) => match p_string(d, p1) {
                Ok((folder, _)) => Ok((token, folder)),
                Err((f, _)) => Err(f),
            },
            Err((f, _)) => Err(f),
        }
    }

    /// Where each field was written in its place in `d`, the places ending
    /// at the offsets `o1`, `o2`, ..., reading `d` gives back the fields.
    proof fn lemma_fields_at(d: Seq<u8>, token: u32, folder: Seq<char>, o1: int, o2: int)
        requires
            fits(folder),
            o1 == 0 + u32_le(token).len(),
            o2 == o1 + string_field(folder).len(),
            o2 <= d.len(),
            d.subrange(0, o1) == u32_le(token),
            d.subrange(o1, o2) == string_field(folder),
        ensures
            Self::spec_decode(d) == Decoded::Ok((token, folder)),
    {
        lemma_u32_at(d, 0, token);
        lemma_string_at(d, o1, folder);
    }

    /// The fields written one after another in the order of the wire
    /// layout read back as themselves, each in its own place.
    pub proof fn lemma_decode_layout(token: u32, folder: Seq<char>)
        requires
            fits(folder),
        ensures
            Self::spec_decode(u32_le(token) + string_field(folder)) == Decoded::Ok((token, folder)),
    {
        let d = u32_le(token) + string_field(folder);
        let q1 = u32_le(token);
        let q2 = q1 + string_field(folder);
        assert(d.subrange(0, d.len() as int) =~= q2);
        lemma_piece_at(d, q1, string_field(folder));
        Self::lemma_fields_at(d, token, folder, q1.len() as int, q2.len() as int);
    }

    /// The body on the wire is the fields one after another, in this order.
    pub proof fn lemma_body_layout(m: Self)
        ensures
            m.spec_body() == u32_le(m.token) + string_field(m.folder@),
    {
    }

    pub fn encode(&self) -> (out: Vec<u8>)
        ensures
            out@ == frame_u32(code::FOLDER_CONTENTS_REQUEST, self.spec_body()),
    {
        let mut body = Vec::new();
        write_u32_le(&mut body, self.token);
        write_string(&mut body, self.folder.as_str());
        frame_message_u32(code::FOLDER_CONTENTS_REQUEST, body.as_slice())
    }

    pub fn decode(data: &[u8]) -> (res: Result<Self>)
        ensures
            decode_matches(res, Self::spec_decode(data@)),
    {
        let mut cur = ByteReader::new(data);
        let token = read_u32_le(&mut cur)?;
        let folder = read_string(&mut cur)?;
        Ok(Self { token, folder })
    }

    /// Decoding an encoded body gives back the message, when the folder fits
    /// its length prefix.
    pub proof fn lemma_roundtrip(m: Self)
        requires
            fits(m.folder@),
        ensures
            Self::spec_decode(m.spec_body()) == Decoded::Ok(m@),
    {
        let d = m.spec_body();
        let n1 = 4int;
        let n2 = n1 + string_field(m.folder@).len();
        assert(d.subrange(0, n1) =~= u32_le(m.token));
        lemma_u32_at(d, 0, m.token);
        assert(d.subrange(n1, n2) =~= string_field(m.folder@));
        lemma_string_at(d, n1, m.folder@);
    }
}

// ── TransferRequest ───────────────────────────────────────────────────────────

#[derive(Debug, Clone)]
pub struct TransferRequest {
    pub direction: TransferDirection,
    pub token: u32,
    pub filename: String,
    /// Present only when direction == Upload
    pub file_size: Option<u64>,
}

impl View for TransferRequest {
    type V = (TransferDirection, u32, Seq<char>, Option<u64>);

    open spec fn view(&self) -> Self::V {
        (self.direction, self.token, self.filename@, self.file_size)
    }
}

impl TransferRequest {
    /// The body on the wire: direction, token, file name, and the file size
    /// when uploading and known.
    pub open spec fn spec_body(&self) -> Seq<u8> {
        u32_le(self.direction.wire()) + u32_le(self.token) + string_field(self.filename@) + match self.file_size {
            Some(sz) => if self.direction == TransferDirection::Upload {
                u64_le(sz)
            } else {
                Seq::empty()
            },
            None => Seq::empty(),
        }
    }

    /// The bytes on the wire, written out field by field, in this order.
    pub proof fn lemma_body_layout(m: Self)
        ensures
            m.spec_body() == (u32_le(m.direction.wire()) + u32_le(m.token) + string_field(m.filename@) + match m.file_size {
                Some(sz) => if m.direction == TransferDirection::Upload {
                    u64_le(sz)
                } else {
                    Seq::empty()
                },
                None => Seq::empty(),
            }),
    {
    }

    /// The body read back. An unknown direction is invalid; a missing size of
    /// an upload reads as none.
    pub open spec fn spec_decode(d: Seq<u8>) -> Decoded<(TransferDirection, u32, Seq<char>, Option<u64>)> {
        match p_u32(d, 0) {
            Ok((dir_raw, p1)) => match TransferDirection::spec_from_wire(dir_raw) {
                Some(direction) => match p_u32(d, p1) {
                    Ok((token, p2)) => match p_string(d, p2) {
                        Ok((filename, p3)) => {
                            let file_size = if direction == TransferDirection::Upload {
                                match p_u64(d, p3) {
                                    Ok((sz, _)) => Some(sz),
                                    Err(_) => None,
                                }
                            } else {
                                None
                            };
                            Ok((direction, token, filename, file_size))
                        },
                        Err((f, _)) => Err(f),
                    },
                    Err((f, _)) => Err(f),
                },
                None => Err(Fail::Invalid),
            },
            Err((f, _)) => Err(f),
        }
    }

    pub fn encode(&self) -> (out: Vec<u8>)
        ensures
            out@ == frame_u32(code::TRANSFER_REQUEST, self.spec_body()),
    {
        let mut body = Vec::new();
        write_u32_le(&mut body, self.direction.to_wire());
        write_u32_le(&mut body, self.token);
        write_string(&mut body, self.filename.as_str());
        if self.direction == TransferDirection::Upload {
            if let Some(sz) = self.file_size {
                write_u64_le(&mut body, sz);
            }
        }
        frame_message_u32(code::TRANSFER_REQUEST, body.as_slice())
    }

    pub fn decode(data: &[u8]) -> (res: Result<Self>)
        ensures
            decode_matches(res, Self::spec_decode(data@)),
            res matches Err(Error::Protocol(m)) ==> m@ == "unknown transfer direction"@ + seq![' '] + decimal(
                le32(data@, 0) as nat,
            ),
    {
        let mut cur = ByteReader::new(data);
        let dir_raw = read_u32_le(&mut cur)?;
        let direction = TransferDirection::try_from(dir_raw)?;
        let token = read_u32_le(&mut cur)?;
        let filename = read_string(&mut cur)?;
        let file_size = if direction == TransferDirection::Upload {
            match read_u64_le(&mut cur) {
                Ok(sz) => Some(sz),
                Err(_) => None,
            }
        } else {
            None
        };
        Ok(Self { direction, token, filename, file_size })
    }

    /// Decoding an encoded body gives back the message, when the file name
    /// fits its length prefix and a download carries no size.
    #[verifier::rlimit(100)]
    pub proof fn lemma_roundtrip(m: Self)
        requires
            fits(m.filename@),
            m.direction == TransferDirection::Download ==> m.file_size is None,
        ensures
            Self::spec_decode(m.spec_body()) == Decoded::Ok(m@),
    {
        let d = m.spec_body();
        let n1 = 4int;
        let n2 = 8int;
        let n3 = n2 + string_field(m.filename@).len();
        assert(d.subrange(0, n1) =~= u32_le(m.direction.wire()));
        lemma_u32_at(d, 0, m.direction.wire());
        assert(d.subrange(n1, n2) =~= u32_le(m.token));
        lemma_u32_at(d, n1, m.token);
        assert(d.subrange(n2, n3) =~= string_field(m.filename@));
        lemma_string_at(d, n2, m.filename@);
        if let Some(sz) = m.file_size {
            assert(d.subrange(n3, n3 + 8) =~= u64_le(sz));
            lemma_u64_at(d, n3, sz);
        } else {
            assert(d.len() == n3);
        }
    }
}

// ── TransferResponse ──────────────────────────────────────────────────────────

#[derive(Debug, Clone)]
pub enum TransferResponse {
    /// Upload response: accepted
    UploadAllowed { token: u32 },
    /// Upload response: rejected
    UploadDenied { token: u32, reason: String },
    /// Download response (deprecated): accepted with file size
    DownloadAllowed { token: u32, file_size: u64 },
    /// Download response (deprecated): rejected
    DownloadDenied { token: u32, reason: String },
}

/// A transfer response, by value.
pub ghost enum TransferResponseView {
    UploadAllowed { token: u32 },
    UploadDenied { token: u32, reason: Seq<char> },
    DownloadAllowed { token: u32, file_size: u64 },
    DownloadDenied { token: u32, reason: Seq<char> },
}

impl View for TransferResponse {
    type V = TransferResponseView;

    open spec fn view(&self) -> TransferResponseView {
        match self {
            TransferResponse::UploadAllowed { token } => TransferResponseView::UploadAllowed { token: *token },
            TransferResponse::UploadDenied { token, reason } => TransferResponseView::UploadDenied {
                token: *token,
                reason: reason@,
            },
            TransferResponse::DownloadAllowed { token, file_size } => TransferResponseView::DownloadAllowed {
                token: *token,
                file_size: *file_size,
            },
            TransferResponse::DownloadDenied { token, reason } => TransferResponseView::DownloadDenied {
                token: *token,
                reason: reason@,
            },
        }
    }
}

impl TransferResponse {
    /// The body on the wire: token, allowed flag, then the file size of an
    /// allowed download or the reason of a denial.
    pub open spec fn spec_body(&self) -> Seq<u8> {
        match self {
            TransferResponse::UploadAllowed { token } => u32_le(*token) + bool_byte(true),
            TransferResponse::UploadDenied { token, reason } => u32_le(*token) + bool_byte(false) + string_field(
                reason@,
            ),
            TransferResponse::DownloadAllowed { token, file_size } => u32_le(*token) + bool_byte(true) + u64_le(
                *file_size,
            ),
            TransferResponse::DownloadDenied { token, reason } => u32_le(*token) + bool_byte(false)
                + string_field(reason@),
        }
    }

    /// The bytes on the wire, written out field by field, in this order.
    pub proof fn lemma_body_layout(m: Self)
        ensures
            m.spec_body() == (match m {
                TransferResponse::UploadAllowed { token } => u32_le(token) + bool_byte(true),
                TransferResponse::UploadDenied { token, reason } => u32_le(token) + bool_byte(false) + string_field(
                    reason@,
                ),
                TransferResponse::DownloadAllowed { token, file_size } => u32_le(token) + bool_byte(true) + u64_le(
                    file_size,
                ),
                TransferResponse::DownloadDenied { token, reason } => u32_le(token) + bool_byte(false)
                    + string_field(reason@),
            }),
    {
    }

    /// A body read as an upload response.
    pub open spec fn spec_decode_upload(d: Seq<u8>) -> Decoded<TransferResponseView> {
        match p_u32(d, 0) {
            Ok((token, p1)) => match p_bool(d, p1) {
                Ok((allowed, p2)) => if allowed {
                    Ok(TransferResponseView::UploadAllowed { token })
                } else {
                    match p_string(d, p2) {
                        Ok((reason, _)) => Ok(TransferResponseView::UploadDenied { token, reason }),
                        Err((f, _)) => Err(f),
                    }
                },
                Err((f, _)) => Err(f),
            },
            Err((f, _)) => Err(f),
        }
    }

    /// A body read as a download response.
    pub open spec fn spec_decode_download(d: Seq<u8>) -> Decoded<TransferResponseView> {
        match p_u32(d, 0) {
            Ok((token, p1)) => match p_bool(d, p1) {
                Ok((allowed, p2)) => if allowed {
                    match p_u64(d, p2) {
                        Ok((file_size, _)) => Ok(TransferResponseView::DownloadAllowed { token, file_size }),
                        Err((f, _)) => Err(f),
                    }
                } else {
                    match p_string(d, p2) {
                        Ok((reason, _)) => Ok(TransferResponseView::DownloadDenied { token, reason }),
                        Err((f, _)) => Err(f),
                    }
                },
                Err((f, _)) => Err(f),
            },
            Err((f, _)) => Err(f),
        }
    }

    pub fn encode(&self) -> (out: Vec<u8>)
        ensures
            out@ == frame_u32(code::TRANSFER_RESPONSE, self.spec_body()),
    {
        let mut body = Vec::new();
        match self {
            Self::UploadAllowed { token } => {
                write_u32_le(&mut body, *token);
                write_bool(&mut body, true);
            },
            Self::UploadDenied { token, reason } => {
                write_u32_le(&mut body, *token);
                write_bool(&mut body, false);
                write_string(&mut body, reason.as_str());
            },
            Self::DownloadAllowed { token, file_size } => {
                write_u32_le(&mut body, *token);
                write_bool(&mut body, true);
                write_u64_le(&mut body, *file_size);
            },
            Self::DownloadDenied { token, reason } => {
                write_u32_le(&mut body, *token);
                write_bool(&mut body, false);
                write_string(&mut body, reason.as_str());
            },
        }
        frame_message_u32(code::TRANSFER_RESPONSE, body.as_slice())
    }

    /// Decode as an upload response (the common path for modern clients).
    pub fn decode_upload(data: &[u8]) -> (res: Result<Self>)
        ensures
            decode_matches(res, Self::spec_decode_upload(data@)),
    {
        let mut cur = ByteReader::new(data);
        let token = read_u32_le(&mut cur)?;
        let allowed = read_bool(&mut cur)?;
        if allowed {
            Ok(Self::UploadAllowed { token })
        } else {
            let reason = read_string(&mut cur)?;
            Ok(Self::UploadDenied { token, reason })
        }
    }

    /// Decode as a download response (legacy support).
    pub fn decode_download(data: &[u8]) -> (res: Result<Self>)
        ensures
            decode_matches(res, Self::spec_decode_download(data@)),
    {
        let mut cur = ByteReader::new(data);
        let token = read_u32_le(&mut cur)?;
        let allowed = read_bool(&mut cur)?;
        if allowed {
            let file_size = read_u64_le(&mut cur)?;
            Ok(Self::DownloadAllowed { token, file_size })
        } else {
            let reason = read_string(&mut cur)?;
            Ok(Self::DownloadDenied { token, reason })
        }
    }

    /// An upload response decodes back with `decode_upload`, and a download
    /// response with `decode_download`, when the reason fits its length prefix.
    pub proof fn lemma_roundtrip(m: Self)
        requires
            m matches TransferResponse::UploadDenied { reason, .. } ==> fits(reason@),
            m matches TransferResponse::DownloadDenied { reason, .. } ==> fits(reason@),
        ensures
            (m is UploadAllowed || m is UploadDenied) ==> Self::spec_decode_upload(m.spec_body()) == Decoded::Ok(m@),
            (m is DownloadAllowed || m is DownloadDenied) ==> Self::spec_decode_download(m.spec_body())
                == Decoded::Ok(m@),
    {
        let d = m.spec_body();
        match m {
            TransferResponse::UploadAllowed { token } => {
                assert(d.subrange(0, 4) =~= u32_le(token));
                lemma_u32_at(d, 0, token);
                assert(d.subrange(4, 5) =~= bool_byte(true));
                lemma_bool_at(d, 4, true);
            },
            TransferResponse::UploadDenied { token, reason } => {
                assert(d.subrange(0, 4) =~= u32_le(token));
                lemma_u32_at(d, 0, token);
                assert(d.subrange(4, 5) =~= bool_byte(false));
                lemma_bool_at(d, 4, false);
                assert(d.subrange(5, d.len() as int) =~= string_field(reason@));
                lemma_string_at(d, 5, reason@);
            },
            TransferResponse::DownloadAllowed { token, file_size } => {
                assert(d.subrange(0, 4) =~= u32_le(token));
                lemma_u32_at(d, 0, token);
                assert(d.subrange(4, 5) =~= bool_byte(true));
                lemma_bool_at(d, 4, true);
                assert(d.subrange(5, 13) =~= u64_le(file_size));
                lemma_u64_at(d, 5, file_size);
            },
            TransferResponse::DownloadDenied { token, reason } => {
                assert(d.subrange(0, 4) =~= u32_le(token));
                lemma_u32_at(d, 0, token);
                assert(d.subrange(4, 5) =~= bool_byte(false));
                lemma_bool_at(d, 4, false);
                assert(d.subrange(5, d.len() as int) =~= string_field(reason@));
                lemma_string_at(d, 5, reason@);
            },
        }
    }
}

// ── QueueUpload ──

#[derive(Debug, Clone)]
pub struct QueueUpload {
    pub filename: String,
}

impl View for QueueUpload {
    type V = Seq<char>;

    open spec fn view(&self) -> Seq<char> {
        self.filename@
    }
}

impl QueueUpload {
    /// The string read from the start of a body.
    pub open spec fn spec_decode(d: Seq<u8>) -> Decoded<Seq<char>> {
        match p_string(d, 0) {
            Ok((s, _)) => Ok(s),
            Err((f, _)) => Err(f),
        }
    }

    /// Where each field was written in its place in `d`, the places ending
    /// at the offsets `o1`, `o2`, ..., reading `d` gives back the fields.
    proof fn lemma_fields_at(d: Seq<u8>, s: Seq<char>, o1: int)
        requires
            fits(s),
            o1 == 0 + string_field(s).len(),
            o1 <= d.len(),
            d.subrange(0, o1) == string_field(s),
        ensures
            Self::spec_decode(d) == Decoded::Ok(s),
    {
        lemma_string_at(d, 0, s);
    }

    /// The fields written one after another in the order of the wire
    /// layout read back as themselves, each in its own place.
    pub proof fn lemma_decode_layout(s: Seq<char>)
        requires
            fits(s),
        ensures
            Self::spec_decode(string_field(s)) == Decoded::Ok(s),
    {
        let d = string_field(s);
        let q1 = string_field(s);
        assert(d.subrange(0, d.len() as int) =~= q1);
        Self::lemma_fields_at(d, s, q1.len() as int);
    }

    pub fn encode(&self) -> (out: Vec<u8>)
        ensures
            out@ == frame_u32(code::QUEUE_UPLOAD, string_field(self.filename@)),
    {
        let mut body = Vec::new();
        write_string(&mut body, self.filename.as_str());
        frame_message_u32(code::QUEUE_UPLOAD, body.as_slice())
    }

    pub fn decode(data: &[u8]) -> (res: Result<Self>)
        ensures
            decode_matches(res, Self::spec_decode(data@)),
    {
        let filename = read_string(&mut ByteReader::new(data))?;
        Ok(Self { filename })
    }

    /// Decoding an encoded body gives back the message, when the string fits
    /// its length prefix.
    pub proof fn lemma_roundtrip(m: Self)
        requires
            fits(m.filename@),
        ensures
            Self::spec_decode(string_field(m.filename@)) == Decoded::Ok(m@),
    {
        let d = string_field(m.filename@);
        assert(d.subrange(0, d.len() as int) =~= d);
        lemma_string_at(d, 0, m.filename@);
    }
}

// ── PlaceInQueue ──────────────────────────────────────────────────────────────

#[derive(Debug, Clone)]
pub struct PlaceInQueueResponse {
    pub filename: String,
    pub place: u32,
}

impl View for PlaceInQueueResponse {
    type V = (Seq<char>, u32);

    open spec fn view(&self) -> (Seq<char>, u32) {
        (self.filename@, self.place)
    }
}

impl PlaceInQueueResponse {
    /// The body on the wire: file name, place.
    pub open spec fn spec_body(&self) -> Seq<u8> {
        string_field(self.filename@) + u32_le(self.place)
    }

    /// File name and place read from the start of a body.
    pub open spec fn spec_decode(d: Seq<u8>) -> Decoded<(Seq<char>, u32)> {
        match p_string(d, 0) {
            Ok((filename, p1)) => match p_u32(d, p1) {
                Ok((place, _)) => Ok((filename, place)),
                Err((f, _)) => Err(f),
            },
            Err((f, _)) => Err(f),
        }
    }

    /// Where each field was written in its place in `d`, the places ending
    /// at the offsets `o1`, `o2`, ..., reading `d` gives back the fields.
    proof fn lemma_fields_at(d: Seq<u8>, filename: Seq<char>, place: u32, o1: int, o2: int)
        requires
            fits(filename),
            o1 == 0 + string_field(filename).len(),
            o2 == o1 + u32_le(place).len(),
            o2 <= d.len(),
            d.subrange(0, o1) == string_field(filename),
            d.subrange(o1, o2) == u32_le(place),
        ensures
            Self::spec_decode(d) == Decoded::Ok((filename, place)),
    {
        lemma_string_at(d, 0, filename);
        lemma_u32_at(d, o1, place);
    }

    /// The fields written one after another in the order of the wire
    /// layout read back as themselves, each in its own place.
    pub proof fn lemma_decode_layout(filename: Seq<char>, place: u32)
        requires
            fits(filename),
        ensures
            Self::spec_decode(string_field(filename) + u32_le(place)) == Decoded::Ok((filename, place)),
    {
        let d = string_field(filename) + u32_le(place);
        let q1 = string_field(filename);
        let q2 = q1 + u32_le(place);
        assert(d.subrange(0, d.len() as int) =~= q2);
        lemma_piece_at(d, q1, u32_le(place));
        Self::lemma_fields_at(d, filename, place, q1.len() as int, q2.len() as int);
    }

    /// The body on the wire is the fields one after another, in this order.
    pub proof fn lemma_body_layout(m: Self)
        ensures
            m.spec_body() == string_field(m.filename@) + u32_le(m.place),
    {
    }

    pub fn encode(&self) -> (out: Vec<u8>)
        ensures
            out@ == frame_u32(code::PLACE_IN_QUEUE_RESPONSE, self.spec_body()),
    {
        let mut body = Vec::new();
        write_string(&mut body, self.filename.as_str());
        write_u32_le(&mut body, self.place);
        frame_message_u32(code::PLACE_IN_QUEUE_RESPONSE, body.as_slice())
    }

    pub fn decode(data: &[u8]) -> (res: Result<Self>)
        ensures
            decode_matches(res, Self::spec_decode(data@)),
    {
        let mut cur = ByteReader::new(data);
        let filename = read_string(&mut cur)?;
        let place = read_u32_le(&mut cur)?;
        Ok(Self { filename, place })
    }

    /// Decoding an encoded body gives back the message, when the file name
    /// fits its length prefix.
    pub proof fn lemma_roundtrip(m: Self)
        requires
            fits(m.filename@),
        ensures
            Self::spec_decode(m.spec_body()) == Decoded::Ok(m@),
    {
        let d = m.spec_body();
        let n1 = string_field(m.filename@).len() as int;
        assert(d.subrange(0, n1) =~= string_field(m.filename@));
        lemma_string_at(d, 0, m.filename@);
        assert(d.subrange(n1, n1 + 4) =~= u32_le(m.place));
        lemma_u32_at(d, n1, m.place);
    }
}

// ── PlaceInQueueRequest ──

#[derive(Debug, Clone)]
pub struct PlaceInQueueRequest {
    pub filename: String,
}

impl View for PlaceInQueueRequest {
    type V = Seq<char>;

    open spec fn view(&self) -> Seq<char> {
        self.filename@
    }
}

impl PlaceInQueueRequest {
    /// The string read from the start of a body.
    pub open spec fn spec_decode(d: Seq<u8>) -> Decoded<Seq<char>> {
        match p_string(d, 0) {
            Ok((s, _)) => Ok(s),
            Err((f, _)) => Err(f),
        }
    }

    /// Where each field was written in its place in `d`, the places ending
    /// at the offsets `o1`, `o2`, ..., reading `d` gives back the fields.
    proof fn lemma_fields_at(d: Seq<u8>, s: Seq<char>, o1: int)
        requires
            fits(s),
            o1 == 0 + string_field(s).len(),
            o1 <= d.len(),
            d.subrange(0, o1) == string_field(s),
        ensures
            Self::spec_decode(d) == Decoded::Ok(s),
    {
        lemma_string_at(d, 0, s);
    }

    /// The fields written one after another in the order of the wire
    /// layout read back as themselves, each in its own place.
    pub proof fn lemma_decode_layout(s: Seq<char>)
        requires
            fits(s),
        ensures
            Self::spec_decode(string_field(s)) == Decoded::Ok(s),
    {
        let d = string_field(s);
        let q1 = string_field(s);
        assert(d.subrange(0, d.len() as int) =~= q1);
        Self::lemma_fields_at(d, s, q1.len() as int);
    }

    pub fn encode(&self) -> (out: Vec<u8>)
        ensures
            out@ == frame_u32(code::PLACE_IN_QUEUE_REQUEST, string_field(self.filename@)),
    {
        let mut body = Vec::new();
        write_string(&mut body, self.filename.as_str());
        frame_message_u32(code::PLACE_IN_QUEUE_REQUEST, body.as_slice())
    }

    pub fn decode(data: &[u8]) -> (res: Result<Self>)
        ensures
            decode_matches(res, Self::spec_decode(data@)),
    {
        let filename = read_string(&mut ByteReader::new(data))?;
        Ok(Self { filename })
    }

    /// Decoding an encoded body gives back the message, when the string fits
    /// its length prefix.
    pub proof fn lemma_roundtrip(m: Self)
        requires
            fits(m.filename@),
        ensures
            Self::spec_decode(string_field(m.filename@)) == Decoded::Ok(m@),
    {
        let d = string_field(m.filename@);
        assert(d.subrange(0, d.len() as int) =~= d);
        lemma_string_at(d, 0, m.filename@);
    }
}

// ── UploadFailed ──

#[derive(Debug, Clone)]
pub struct UploadFailed {
    pub filename: String,
}

impl View for UploadFailed {
    type V = Seq<char>;

    open spec fn view(&self) -> Seq<char> {
        self.filename@
    }
}

impl UploadFailed {
    /// The string read from the start of a body.
    pub open spec fn spec_decode(d: Seq<u8>) -> Decoded<Seq<char>> {
        match p_string(d, 0) {
            Ok((s, _)) => Ok(s),
            Err((f, _)) => Err(f),
        }
    }

    /// Where each field was written in its place in `d`, the places ending
    /// at the offsets `o1`, `o2`, ..., reading `d` gives back the fields.
    proof fn lemma_fields_at(d: Seq<u8>, s: Seq<char>, o1: int)
        requires
            fits(s),
            o1 == 0 + string_field(s).len(),
            o1 <= d.len(),
            d.subrange(0, o1) == string_field(s),
        ensures
            Self::spec_decode(d) == Decoded::Ok(s),
    {
        lemma_string_at(d, 0, s);
    }

    /// The fields written one after another in the order of the wire
    /// layout read back as themselves, each in its own place.
    pub proof fn lemma_decode_layout(s: Seq<char>)
        requires
            fits(s),
        ensures
            Self::spec_decode(string_field(s)) == Decoded::Ok(s),
    {
        let d = string_field(s);
        let q1 = string_field(s);
        assert(d.subrange(0, d.len() as int) =~= q1);
        Self::lemma_fields_at(d, s, q1.len() as int);
    }

    pub fn encode(&self) -> (out: Vec<u8>)
        ensures
            out@ == frame_u32(code::UPLOAD_FAILED, string_field(self.filename@)),
    {
        let mut body = Vec::new();
        write_string(&mut body, self.filename.as_str());
        frame_message_u32(code::UPLOAD_FAILED, body.as_slice())
    }

    pub fn decode(data: &[u8]) -> (res: Result<Self>)
        ensures
            decode_matches(res, Self::spec_decode(data@)),
    {
        let filename = read_string(&mut ByteReader::new(data))?;
        Ok(Self { filename })
    }

    /// Decoding an encoded body gives back the message, when the string fits
    /// its length prefix.
    pub proof fn lemma_roundtrip(m: Self)
        requires
            fits(m.filename@),
        ensures
            Self::spec_decode(string_field(m.filename@)) == Decoded::Ok(m@),
    {
        let d = string_field(m.filename@);
        assert(d.subrange(0, d.len() as int) =~= d);
        lemma_string_at(d, 0, m.filename@);
    }
}

// ── UploadDenied ──────────────────────────────────────────────────────────────

#[derive(Debug, Clone)]
pub struct UploadDenied {
    pub filename: String,
    pub reason: String,
}

impl View for UploadDenied {
    type V = (Seq<char>, Seq<char>);

    open spec fn view(&self) -> (Seq<char>, Seq<char>) {
        (self.filename@, self.reason@)
    }
}

impl UploadDenied {
    /// The body on the wire: file name, reason.
    pub open spec fn spec_body(&self) -> Seq<u8> {
        string_field(self.filename@) + string_field(self.reason@)
    }

    /// File name and reason read from the start of a body.
    pub open spec fn spec_decode(d: Seq<u8>) -> Decoded<(Seq<char>, Seq<char>)> {
        match p_string(d, 0) {
            Ok((filename, p1)) => match p_string(d, p1) {
                Ok((reason, _)) => Ok((filename, reason)),
                Err((f, _)) => Err(f),
            },
            Err((f, _)) => Err(f),
        }
    }

    /// Where each field was written in its place in `d`, the places ending
    /// at the offsets `o1`, `o2`, ..., reading `d` gives back the fields.
    proof fn lemma_fields_at(d: Seq<u8>, filename: Seq<char>, reason: Seq<char>, o1: int, o2: int)
        requires
            fits(filename),
            fits(reason),
            o1 == 0 + string_field(filename).len(),
            o2 == o1 + string_field(reason).len(),
            o2 <= d.len(),
            d.subrange(0, o1) == string_field(filename),
            d.subrange(o1, o2) == string_field(reason),
        ensures
            Self::spec_decode(d) == Decoded::Ok((filename, reason)),
    {
        lemma_string_at(d, 0, filename);
        lemma_string_at(d, o1, reason);
    }

    /// The fields written one after another in the order of the wire
    /// layout read back as themselves, each in its own place.
    pub proof fn lemma_decode_layout(filename: Seq<char>, reason: Seq<char>)
        requires
            fits(filename),
            fits(reason),
        ensures
            Self::spec_decode(string_field(filename) + string_field(reason)) == Decoded::Ok((filename, reason)),
    {
        let d = string_field(filename) + string_field(reason);
        let q1 = string_field(filename);
        let q2 = q1 + string_field(reason);
        assert(d.subrange(0, d.len() as int) =~= q2);
        lemma_piece_at(d, q1, string_field(reason));
        Self::lemma_fields_at(d, filename, reason, q1.len() as int, q2.len() as int);
    }

    /// The body on the wire is the fields one after another, in this order.
    pub proof fn lemma_body_layout(m: Self)
        ensures
            m.spec_body() == string_field(m.filename@) + string_field(m.reason@),
    {
    }

    pub fn encode(&self) -> (out: Vec<u8>)
        ensures
            out@ == frame_u32(code::UPLOAD_DENIED, self.spec_body()),
    {
        let mut body = Vec::new();
        write_string(&mut body, self.filename.as_str());
        write_string(&mut body, self.reason.as_str());
        frame_message_u32(code::UPLOAD_DENIED, body.as_slice())
    }

    pub fn decode(data: &[u8]) -> (res: Result<Self>)
        ensures
            decode_matches(res, Self::spec_decode(data@)),
    {
        let mut cur = ByteReader::new(data);
        let filename = read_string(&mut cur)?;
        let reason = read_string(&mut cur)?;
        Ok(Self { filename, reason })
    }

    /// Decoding an encoded body gives back the message, when both strings fit
    /// their length prefix.
    pub proof fn lemma_roundtrip(m: Self)
        requires
            fits(m.filename@),
            fits(m.reason@),
        ensures
            Self::spec_decode(m.spec_body()) == Decoded::Ok(m@),
    {
        let d = m.spec_body();
        let n1 = string_field(m.filename@).len() as int;
        assert(d.subrange(0, n1) =~= string_field(m.filename@));
        lemma_string_at(d, 0, m.filename@);
        assert(d.subrange(n1, d.len() as int) =~= string_field(m.reason@));
        lemma_string_at(d, n1, m.reason@);
    }
}


// ── Top-level enum ────────────────────────────────────────────────────────────

#[derive(Debug, Clone)]
pub enum PeerMessage {
    GetSharedFileList,
    /// raw compressed bytes — use SharedFileListResponse::decode_compressed
    SharedFileListResponse(Vec<u8>),
    /// raw compressed bytes — use FileSearchResponse::decode_compressed
    FileSearchResponse(Vec<u8>),
    UserInfoRequest,
    UserInfoResponse(UserInfoResponse),
    FolderContentsRequest(FolderContentsRequest),
    /// raw compressed bytes — use FolderContentsResponse::decode_compressed
    FolderContentsResponse(Vec<u8>),
    TransferRequest(TransferRequest),
    /// raw bytes — use TransferResponse::decode_upload / decode_download
    TransferResponse(Vec<u8>),
    QueueUpload(QueueUpload),
    PlaceInQueueResponse(PlaceInQueueResponse),
    UploadFailed(UploadFailed),
    UploadDenied(UploadDenied),
    PlaceInQueueRequest(PlaceInQueueRequest),
    Unknown { code: u32, body: Vec<u8> },
}

impl PeerMessage {
    /// The peer message codes that this codec knows.
    pub open spec fn known_code(code: u32) -> bool {
        code == code::GET_SHARED_FILE_LIST || code == code::USER_INFO_REQUEST || code == code::SHARED_FILE_LIST_RESPONSE || code == code::FILE_SEARCH_RESPONSE || code == code::FOLDER_CONTENTS_RESPONSE || code == code::TRANSFER_RESPONSE || code == code::USER_INFO_RESPONSE || code == code::FOLDER_CONTENTS_REQUEST || code == code::TRANSFER_REQUEST || code == code::QUEUE_UPLOAD || code == code::PLACE_IN_QUEUE_RESPONSE || code == code::UPLOAD_FAILED || code == code::UPLOAD_DENIED || code == code::PLACE_IN_QUEUE_REQUEST
    }

    /// Decodes the body of a peer message by its code. Compressed payloads and
    /// transfer responses are kept raw; unknown codes keep the raw body.
    pub fn decode(code: u32, body: &[u8]) -> (res: Result<Self>)
        ensures
            code == code::GET_SHARED_FILE_LIST ==> res matches Ok(PeerMessage::GetSharedFileList),
            code == code::USER_INFO_REQUEST ==> res matches Ok(PeerMessage::UserInfoRequest),
            code == code::SHARED_FILE_LIST_RESPONSE ==> (res matches Ok(PeerMessage::SharedFileListResponse(b)) && b@ == body@),
            code == code::FILE_SEARCH_RESPONSE ==> (res matches Ok(PeerMessage::FileSearchResponse(b)) && b@ == body@),
            code == code::FOLDER_CONTENTS_RESPONSE ==> (res matches Ok(PeerMessage::FolderContentsResponse(b)) && b@ == body@),
            code == code::TRANSFER_RESPONSE ==> (res matches Ok(PeerMessage::TransferResponse(b)) && b@ == body@),
            code == code::USER_INFO_RESPONSE ==> match UserInfoResponse::spec_decode(body@) {
                Ok(v) => res matches Ok(PeerMessage::UserInfoResponse(m)) && m@ == v,
                Err(f) => res matches Err(e) && fail_is(e, f),
            },
            code == code::FOLDER_CONTENTS_REQUEST ==> match FolderContentsRequest::spec_decode(body@) {
                Ok(v) => res matches Ok(PeerMessage::FolderContentsRequest(m)) && m@ == v,
                Err(f) => res matches Err(e) && fail_is(e, f),
            },
            code == code::TRANSFER_REQUEST ==> match TransferRequest::spec_decode(body@) {
                Ok(v) => res matches Ok(PeerMessage::TransferRequest(m)) && m@ == v,
                Err(f) => res matches Err(e) && fail_is(e, f),
            },
            code == code::QUEUE_UPLOAD ==> match QueueUpload::spec_decode(body@) {
                Ok(v) => res matches Ok(PeerMessage::QueueUpload(m)) && m@ == v,
                Err(f) => res matches Err(e) && fail_is(e, f),
            },
            code == code::PLACE_IN_QUEUE_RESPONSE ==> match PlaceInQueueResponse::spec_decode(body@) {
                Ok(v) => res matches Ok(PeerMessage::PlaceInQueueResponse(m)) && m@ == v,
                Err(f) => res matches Err(e) && fail_is(e, f),
            },
            code == code::UPLOAD_FAILED ==> match UploadFailed::spec_decode(body@) {
                Ok(v) => res matches Ok(PeerMessage::UploadFailed(m)) && m@ == v,
                Err(f) => res matches Err(e) && fail_is(e, f),
            },
            code == code::UPLOAD_DENIED ==> match UploadDenied::spec_decode(body@) {
                Ok(v) => res matches Ok(PeerMessage::UploadDenied(m)) && m@ == v,
                Err(f) => res matches Err(e) && fail_is(e, f),
            },
            code == code::PLACE_IN_QUEUE_REQUEST ==> match PlaceInQueueRequest::spec_decode(body@) {
                Ok(v) => res matches Ok(PeerMessage::PlaceInQueueRequest(m)) && m@ == v,
                Err(f) => res matches Err(e) && fail_is(e, f),
            },
            !Self::known_code(code) ==> (res matches Ok(PeerMessage::Unknown { code: c, body: b }) && c == code && b@ == body@),
    {
        if code == code::GET_SHARED_FILE_LIST {
            Ok(Self::GetSharedFileList)
        } else if code == code::USER_INFO_REQUEST {
            Ok(Self::UserInfoRequest)
        } else if code == code::SHARED_FILE_LIST_RESPONSE {
            Ok(Self::SharedFileListResponse(slice_to_vec(body)))
        } else if code == code::FILE_SEARCH_RESPONSE {
            Ok(Self::FileSearchResponse(slice_to_vec(body)))
        } else if code == code::FOLDER_CONTENTS_RESPONSE {
            Ok(Self::FolderContentsResponse(slice_to_vec(body)))
        } else if code == code::TRANSFER_RESPONSE {
            Ok(Self::TransferResponse(slice_to_vec(body)))
        } else if code == code::USER_INFO_RESPONSE {
            Ok(Self::UserInfoResponse(UserInfoResponse::decode(body)?))
        } else if code == code::FOLDER_CONTENTS_REQUEST {
            Ok(Self::FolderContentsRequest(FolderContentsRequest::decode(body)?))
        } else if code == code::TRANSFER_REQUEST {
            Ok(Self::TransferRequest(TransferRequest::decode(body)?))
        } else if code == code::QUEUE_UPLOAD {
            Ok(Self::QueueUpload(QueueUpload::decode(body)?))
        } else if code == code::PLACE_IN_QUEUE_RESPONSE {
            Ok(Self::PlaceInQueueResponse(PlaceInQueueResponse::decode(body)?))
        } else if code == code::UPLOAD_FAILED {
            Ok(Self::UploadFailed(UploadFailed::decode(body)?))
        } else if code == code::UPLOAD_DENIED {
            Ok(Self::UploadDenied(UploadDenied::decode(body)?))
        } else if code == code::PLACE_IN_QUEUE_REQUEST {
            Ok(Self::PlaceInQueueRequest(PlaceInQueueRequest::decode(body)?))
        } else {
            Ok(Self::Unknown { code, body: slice_to_vec(body) })
        }
    }
}

} // verus!
