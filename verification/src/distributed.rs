//! Distributed network messages — sent over a "D" TCP connection.
//! Uses uint8 message codes with the standard length-prefixed framing.
pub mod code;

use vstd::prelude::*;
use vstd::slice::slice_to_vec;
use crate::codec::{frame_message_u8, read_i32_le, read_string, read_u32_le, write_i32_le, write_string, write_u32_le, ByteReader};
use crate::error::Result;
use crate::wire::{decode_matches, fail_is, fits, frame_u8, i32_le, lemma_i32_at, lemma_string_at, lemma_u32_at, lemma_piece_at, p_i32, p_string, p_u32, string_field, u32_le, Decoded};

verus! {

// ── DistribSearch ─────────────────────────────────────────────────────────────

/// Search request received from a parent node in the distributed network.
///
/// `identifier` must equal the code point of ASCII `'1'` (49).
/// Clients should reject messages with any other value.
///
/// When acting as a branch root, the raw message bytes (including the
/// identifier) must be forwarded verbatim to all child peers.
#[derive(Debug, Clone)]
pub struct DistribSearch {
    /// Always 49 (ASCII '1')
    pub identifier: u32,
    pub username: String,
    pub token: u32,
    pub query: String,
}

impl View for DistribSearch {
    type V = (u32, Seq<char>, u32, Seq<char>);

    open spec fn view(&self) -> Self::V {
        (self.identifier, self.username@, self.token, self.query@)
    }
}

impl DistribSearch {
    pub const REQUIRED_IDENTIFIER: u32 = 49;

    /// The body on the wire: identifier, username, token, query.
    pub open spec fn spec_body(&self) -> Seq<u8> {
        u32_le(self.identifier) + string_field(self.username@) + u32_le(self.token) + string_field(self.query@)
    }

    /// Identifier, username, token and query read from the start of a body.
    pub open spec fn spec_decode(d: Seq<u8>) -> Decoded<(u32, Seq<char>, u32, Seq<char>)> {
        match p_u32(d, 0) {
            Ok((identifier, p1)) => match p_string(d, p1) {
                Ok((username, p2)) => match p_u32(d, p2) {
                    Ok((token, p3)) => match p_string(d, p3) {
                        Ok((query, _)) => Ok((identifier, username, token, query)),
                        Err((f, _)) => Err(f),
                    },
                    Err((f, _)) => Err(f),
                },
                Err((f, _)) => Err(f),
            },
            Err((f, _)) => Err(f),
        }
    }

    /// Where each field was written in its place in `d`, the places ending
    /// at the offsets `o1`, `o2`, ..., reading `d` gives back the fields.
    proof fn lemma_fields_at(d: Seq<u8>, identifier: u32, username: Seq<char>, token: u32, query: Seq<char>, o1: int, o2: int, o3: int, o4: int)
        requires
            fits(username),
            fits(query),
            o1 == 0 + u32_le(identifier).len(),
            o2 == o1 + string_field(username).len(),
            o3 == o2 + u32_le(token).len(),
            o4 == o3 + string_field(query).len(),
            o4 <= d.len(),
            d.subrange(0, o1) == u32_le(identifier),
            d.subrange(o1, o2) == string_field(username),
            d.subrange(o2, o3) == u32_le(token),
            d.subrange(o3, o4) == string_field(query),
        ensures
            Self::spec_decode(d) == Decoded::Ok((identifier, username, token, query)),
    {
        lemma_u32_at(d, 0, identifier);
        lemma_string_at(d, o1, username);
        lemma_u32_at(d, o2, token);
        lemma_string_at(d, o3, query);
    }

    /// The fields written one after another in the order of the wire
    /// layout read back as themselves, each in its own place.
    pub proof fn lemma_decode_layout(identifier: u32, username: Seq<char>, token: u32, query: Seq<char>)
        requires
            fits(username),
            fits(query),
        ensures
            Self::spec_decode(u32_le(identifier) + string_field(username) + u32_le(token) + string_field(query)) == Decoded::Ok((identifier, username, token, query)),
    {
        let d = u32_le(identifier) + string_field(username) + u32_le(token) + string_field(query);
        let q1 = u32_le(identifier);
        let q2 = q1 + string_field(username);
        let q3 = q2 + u32_le(token);
        let q4 = q3 + string_field(query);
        assert(d.subrange(0, d.len() as int) =~= q4);
        lemma_piece_at(d, q3, string_field(query));
        lemma_piece_at(d, q2, u32_le(token));
        lemma_piece_at(d, q1, string_field(username));
        Self::lemma_fields_at(d, identifier, username, token, query, q1.len() as int, q2.len() as int, q3.len() as int, q4.len() as int);
    }

    /// The body on the wire is the fields one after another, in this order.
    pub proof fn lemma_body_layout(m: Self)
        ensures
            m.spec_body() == u32_le(m.identifier) + string_field(m.username@) + u32_le(m.token) + string_field(m.query@),
    {
    }

    /// The framed message, ready to forward.
    pub fn encode_raw(&self) -> (out: Vec<u8>)
        ensures
            out@ == frame_u8(code::SEARCH, self.spec_body()),
    {
        let mut body = Vec::new();
        write_u32_le(&mut body, self.identifier);
        write_string(&mut body, self.username.as_str());
        write_u32_le(&mut body, self.token);
        write_string(&mut body, self.query.as_str());
        frame_message_u8(code::SEARCH, body.as_slice())
    }

    pub fn decode(body: &[u8]) -> (res: Result<Self>)
        ensures
            decode_matches(res, Self::spec_decode(body@)),
    {
        let mut cur = ByteReader::new(body);
        let identifier = read_u32_le(&mut cur)?;
        let username = read_string(&mut cur)?;
        let token = read_u32_le(&mut cur)?;
        let query = read_string(&mut cur)?;
        Ok(Self { identifier, username, token, query })
    }

    pub fn is_valid_identifier(&self) -> (b: bool)
        ensures
            b == (self.identifier == 49),
    {
        self.identifier == Self::REQUIRED_IDENTIFIER
    }

    /// Decoding an encoded body gives back the message, when both strings fit
    /// their length prefix.
    pub proof fn lemma_roundtrip(m: Self)
        requires
            fits(m.username@),
            fits(m.query@),
        ensures
            Self::spec_decode(m.spec_body()) == Decoded::Ok(m@),
    {
        let d = m.spec_body();
        let n1 = 4int;
        let n2 = n1 + string_field(m.username@).len();
        let n3 = n2 + 4;
        let n4 = n3 + string_field(m.query@).len();
        assert(d.subrange(0, n1) =~= u32_le(m.identifier));
        lemma_u32_at(d, 0, m.identifier);
        assert(d.subrange(n1, n2) =~= string_field(m.username@));
        lemma_string_at(d, n1, m.username@);
        assert(d.subrange(n2, n3) =~= u32_le(m.token));
        lemma_u32_at(d, n2, m.token);
        assert(d.subrange(n3, n4) =~= string_field(m.query@));
        lemma_string_at(d, n3, m.query@);
    }
}

// ── DistribBranchLevel ────────────────────────────────────────────────────────

/// Our position in the distributed branch hierarchy (0 = branch root).
#[derive(Debug, Clone)]
pub struct DistribBranchLevel {
    pub level: i32,
}

impl View for DistribBranchLevel {
    type V = i32;

    open spec fn view(&self) -> i32 {
        self.level
    }
}

impl DistribBranchLevel {
    pub open spec fn spec_decode(d: Seq<u8>) -> Decoded<i32> {
        match p_i32(d, 0) {
            Ok((level, _)) => Ok(level),
            Err((f, _)) => Err(f),
        }
    }

    /// Where each field was written in its place in `d`, the places ending
    /// at the offsets `o1`, `o2`, ..., reading `d` gives back the fields.
    proof fn lemma_fields_at(d: Seq<u8>, level: i32, o1: int)
        requires
            o1 == 0 + i32_le(level).len(),
            o1 <= d.len(),
            d.subrange(0, o1) == i32_le(level),
        ensures
            Self::spec_decode(d) == Decoded::Ok(level),
    {
        lemma_i32_at(d, 0, level);
    }

    /// The fields written one after another in the order of the wire
    /// layout read back as themselves, each in its own place.
    pub proof fn lemma_decode_layout(level: i32)
        ensures
            Self::spec_decode(i32_le(level)) == Decoded::Ok(level),
    {
        let d = i32_le(level);
        let q1 = i32_le(level);
        assert(d.subrange(0, d.len() as int) =~= q1);
        Self::lemma_fields_at(d, level, q1.len() as int);
    }

    pub fn encode(&self) -> (out: Vec<u8>)
        ensures
            out@ == frame_u8(code::BRANCH_LEVEL, i32_le(self.level)),
    {
        let mut body = Vec::new();
        write_i32_le(&mut body, self.level);
        frame_message_u8(code::BRANCH_LEVEL, body.as_slice())
    }

    pub fn decode(body: &[u8]) -> (res: Result<Self>)
        ensures
            decode_matches(res, Self::spec_decode(body@)),
    {
        let level = read_i32_le(&mut ByteReader::new(body))?;
        Ok(Self { level })
    }

    /// Decoding an encoded body gives back the message.
    pub proof fn lemma_roundtrip(m: Self)
        ensures
            Self::spec_decode(i32_le(m.level)) == Decoded::Ok(m@),
    {
        assert(i32_le(m.level).subrange(0, 4) =~= i32_le(m.level));
        lemma_i32_at(i32_le(m.level), 0, m.level);
    }
}

// ── DistribBranchRoot ─────────────────────────────────────────────────────────

/// Username of the root node of our branch.
///
/// Since early 2026, SoulseekQt sends this even when it is itself the branch
/// root — implementations must always send it regardless of branch status.
#[derive(Debug, Clone)]
pub struct DistribBranchRoot {
    pub root: String,
}

impl View for DistribBranchRoot {
    type V = Seq<char>;

    open spec fn view(&self) -> Seq<char> {
        self.root@
    }
}

impl DistribBranchRoot {
    pub open spec fn spec_decode(d: Seq<u8>) -> Decoded<Seq<char>> {
        match p_string(d, 0) {
            Ok((root, _)) => Ok(root),
            Err((f, _)) => Err(f),
        }
    }

    /// Where each field was written in its place in `d`, the places ending
    /// at the offsets `o1`, `o2`, ..., reading `d` gives back the fields.
    proof fn lemma_fields_at(d: Seq<u8>, root: Seq<char>, o1: int)
        requires
            fits(root),
            o1 == 0 + string_field(root).len(),
            o1 <= d.len(),
            d.subrange(0, o1) == string_field(root),
        ensures
            Self::spec_decode(d) == Decoded::Ok(root),
    {
        lemma_string_at(d, 0, root);
    }

    /// The fields written one after another in the order of the wire
    /// layout read back as themselves, each in its own place.
    pub proof fn lemma_decode_layout(root: Seq<char>)
        requires
            fits(root),
        ensures
            Self::spec_decode(string_field(root)) == Decoded::Ok(root),
    {
        let d = string_field(root);
        let q1 = string_field(root);
        assert(d.subrange(0, d.len() as int) =~= q1);
        Self::lemma_fields_at(d, root, q1.len() as int);
    }

    pub fn encode(&self) -> (out: Vec<u8>)
        ensures
            out@ == frame_u8(code::BRANCH_ROOT, string_field(self.root@)),
    {
        let mut body = Vec::new();
        write_string(&mut body, self.root.as_str());
        frame_message_u8(code::BRANCH_ROOT, body.as_slice())
    }

    pub fn decode(body: &[u8]) -> (res: Result<Self>)
        ensures
            decode_matches(res, Self::spec_decode(body@)),
    {
        let root = read_string(&mut ByteReader::new(body))?;
        Ok(Self { root })
    }

    /// Decoding an encoded body gives back the message, when the root's name
    /// fits its length prefix.
    pub proof fn lemma_roundtrip(m: Self)
        requires
            fits(m.root@),
        ensures
            Self::spec_decode(string_field(m.root@)) == Decoded::Ok(m@),
    {
        let d = string_field(m.root@);
        assert(d.subrange(0, d.len() as int) =~= d);
        lemma_string_at(d, 0, m.root@);
    }
}

// ── Top-level distributed message enum ───────────────────────────────────────

#[derive(Debug, Clone)]
pub enum DistribMessage {
    Search(DistribSearch),
    BranchLevel(DistribBranchLevel),
    BranchRoot(DistribBranchRoot),
    /// Catch-all for unknown / deprecated codes
    Unknown { code: u8, body: Vec<u8> },
}

impl DistribMessage {
    /// Decodes the body of a message by its code; unknown codes keep the raw body.
    pub fn decode(code: u8, body: &[u8]) -> (res: Result<Self>)
        ensures
            code == code::SEARCH ==> match DistribSearch::spec_decode(body@) {
                Ok(v) => res matches Ok(DistribMessage::Search(m)) && m@ == v,
                Err(f) => res matches Err(e) && fail_is(e, f),
            },
            code == code::BRANCH_LEVEL ==> match DistribBranchLevel::spec_decode(body@) {
                Ok(v) => res matches Ok(DistribMessage::BranchLevel(m)) && m@ == v,
                Err(f) => res matches Err(e) && fail_is(e, f),
            },
            code == code::BRANCH_ROOT ==> match DistribBranchRoot::spec_decode(body@) {
                Ok(v) => res matches Ok(DistribMessage::BranchRoot(m)) && m@ == v,
                Err(f) => res matches Err(e) && fail_is(e, f),
            },
            (code != code::SEARCH && code != code::BRANCH_LEVEL && code != code::BRANCH_ROOT) ==> (res matches Ok(
                DistribMessage::Unknown { code: c, body: b },
            ) && c == code && b@ == body@),
    {
        if code == code::SEARCH {
            Ok(Self::Search(DistribSearch::decode(body)?))
        } else if code == code::BRANCH_LEVEL {
            Ok(Self::BranchLevel(DistribBranchLevel::decode(body)?))
        } else if code == code::BRANCH_ROOT {
            Ok(Self::BranchRoot(DistribBranchRoot::decode(body)?))
        } else {
            Ok(Self::Unknown { code, body: slice_to_vec(body) })
        }
    }
}

} // verus!
