//! Peer init messages — sent on new TCP connections before P/F/D traffic begins.
//! These use uint8 message codes and the standard length-prefixed frame.
pub mod code;

use vstd::prelude::*;
use crate::codec::{frame_message_u8, read_string, read_u32_le, write_string, write_u32_le, ByteReader};
use crate::error::{decimal, message_with_number, Error, Result};
use crate::wire::{fail_is, decode_matches, fits, frame_u8, lemma_string_at, lemma_u32_at, lemma_piece_at, p_string, p_u32, string_field, u32_le, Decoded};

verus! {

// ── PierceFirewall ────────────────────────────────────────────────────────────

/// Sent in response to an indirect (server-relayed) connection request.
/// The `token` is taken from the `ConnectToPeer` server message.
#[derive(Debug, Clone)]
pub struct PierceFirewall {
    pub token: u32,
}

impl View for PierceFirewall {
    type V = u32;

    open spec fn view(&self) -> u32 {
        self.token
    }
}

impl PierceFirewall {
    /// The body on the wire: the token.
    pub open spec fn spec_body(&self) -> Seq<u8> {
        u32_le(self.token)
    }

    /// The token read from the start of a body.
    pub open spec fn spec_decode(d: Seq<u8>) -> Decoded<u32> {
        match p_u32(d, 0) {
            Ok((token, _)) => Ok(token),
            Err((f, _)) => Err(f),
        }
    }

    /// Where each field was written in its place in `d`, the places ending
    /// at the offsets `o1`, `o2`, ..., reading `d` gives back the fields.
    proof fn lemma_fields_at(d: Seq<u8>, token: u32, o1: int)
        requires
            o1 == 0 + u32_le(token).len(),
            o1 <= d.len(),
            d.subrange(0, o1) == u32_le(token),
        ensures
            Self::spec_decode(d) == Decoded::Ok(token),
    {
        lemma_u32_at(d, 0, token);
    }

    /// The fields written one after another in the order of the wire
    /// layout read back as themselves, each in its own place.
    pub proof fn lemma_decode_layout(token: u32)
        ensures
            Self::spec_decode(u32_le(token)) == Decoded::Ok(token),
    {
        let d = u32_le(token);
        let q1 = u32_le(token);
        assert(d.subrange(0, d.len() as int) =~= q1);
        Self::lemma_fields_at(d, token, q1.len() as int);
    }

    /// The body on the wire is the fields one after another, in this order.
    pub proof fn lemma_body_layout(m: Self)
        ensures
            m.spec_body() == u32_le(m.token),
    {
    }

    pub fn encode(&self) -> (out: Vec<u8>)
        ensures
            out@ == frame_u8(code::PIERCE_FIREWALL, self.spec_body()),
    {
        let mut body = Vec::new();
        write_u32_le(&mut body, self.token);
        frame_message_u8(code::PIERCE_FIREWALL, body.as_slice())
    }

    pub fn decode(body: &[u8]) -> (res: Result<Self>)
        ensures
            decode_matches(res, Self::spec_decode(body@)),
    {
        let mut cur = ByteReader::new(body);
        let token = read_u32_le(&mut cur)?;
        Ok(Self { token })
    }

    /// Decoding an encoded body gives back the message.
    pub proof fn lemma_roundtrip(m: Self)
        ensures
            Self::spec_decode(m.spec_body()) == Decoded::Ok(m@),
    {
        let d = m.spec_body();
        assert(d.subrange(0, 4) =~= u32_le(m.token));
        lemma_u32_at(d, 0, m.token);
    }
}

// ── PeerInit ──────────────────────────────────────────────────────────────────

/// Sent to initiate a direct P, F, or D connection.
/// `token` is always 0 today (historically used for spoofing prevention).
#[derive(Debug, Clone)]
pub struct PeerInit {
    pub username: String,
    /// "P", "F", or "D" — see [`crate::types::ConnectionType`]
    pub conn_type: String,
    pub token: u32,
}

impl View for PeerInit {
    type V = (Seq<char>, Seq<char>, u32);

    open spec fn view(&self) -> Self::V {
        (self.username@, self.conn_type@, self.token)
    }
}

impl PeerInit {
    /// The body on the wire: username, connection type, token.
    pub open spec fn spec_body(&self) -> Seq<u8> {
        string_field(self.username@) + string_field(self.conn_type@) + u32_le(self.token)
    }

    /// Username, connection type and token read from the start of a body.
    pub open spec fn spec_decode(d: Seq<u8>) -> Decoded<(Seq<char>, Seq<char>, u32)> {
        match p_string(d, 0) {
            Ok((username, p1)) => match p_string(d, p1) {
                Ok((conn_type, p2)) => match p_u32(d, p2) {
                    Ok((token, _)) => Ok((username, conn_type, token)),
                    Err((f, _)) => Err(f),
                },
                Err((f, _)) => Err(f),
            },
            Err((f, _)) => Err(f),
        }
    }

    /// Where each field was written in its place in `d`, the places ending
    /// at the offsets `o1`, `o2`, ..., reading `d` gives back the fields.
    proof fn lemma_fields_at(d: Seq<u8>, username: Seq<char>, conn_type: Seq<char>, token: u32, o1: int, o2: int, o3: int)
        requires
            fits(username),
            fits(conn_type),
            o1 == 0 + string_field(username).len(),
            o2 == o1 + string_field(conn_type).len(),
            o3 == o2 + u32_le(token).len(),
            o3 <= d.len(),
            d.subrange(0, o1) == string_field(username),
            d.subrange(o1, o2) == string_field(conn_type),
            d.subrange(o2, o3) == u32_le(token),
        ensures
            Self::spec_decode(d) == Decoded::Ok((username, conn_type, token)),
    {
        lemma_string_at(d, 0, username);
        lemma_string_at(d, o1, conn_type);
        lemma_u32_at(d, o2, token);
    }

    /// The fields written one after another in the order of the wire
    /// layout read back as themselves, each in its own place.
    pub proof fn lemma_decode_layout(username: Seq<char>, conn_type: Seq<char>, token: u32)
        requires
            fits(username),
            fits(conn_type),
        ensures
            Self::spec_decode(string_field(username) + string_field(conn_type) + u32_le(token)) == Decoded::Ok((username, conn_type, token)),
    {
        let d = string_field(username) + string_field(conn_type) + u32_le(token);
        let q1 = string_field(username);
        let q2 = q1 + string_field(conn_type);
        let q3 = q2 + u32_le(token);
        assert(d.subrange(0, d.len() as int) =~= q3);
        lemma_piece_at(d, q2, u32_le(token));
        lemma_piece_at(d, q1, string_field(conn_type));
        Self::lemma_fields_at(d, username, conn_type, token, q1.len() as int, q2.len() as int, q3.len() as int);
    }

    /// The body on the wire is the fields one after another, in this order.
    pub proof fn lemma_body_layout(m: Self)
        ensures
            m.spec_body() == string_field(m.username@) + string_field(m.conn_type@) + u32_le(m.token),
    {
    }

    /// A peer init for `username` over a connection of type `conn_type`, token 0.
    pub fn new(username: &str, conn_type: &str) -> (m: Self)
        ensures
            m.username@ == username@,
            m.conn_type@ == conn_type@,
            m.token == 0,
    {
        Self { username: String::from_str(username), conn_type: String::from_str(conn_type), token: 0 }
    }

    pub fn encode(&self) -> (out: Vec<u8>)
        ensures
            out@ == frame_u8(code::PEER_INIT, self.spec_body()),
    {
        let mut body = Vec::new();
        write_string(&mut body, self.username.as_str());
        write_string(&mut body, self.conn_type.as_str());
        write_u32_le(&mut body, self.token);
        frame_message_u8(code::PEER_INIT, body.as_slice())
    }

    pub fn decode(body: &[u8]) -> (res: Result<Self>)
        ensures
            decode_matches(res, Self::spec_decode(body@)),
    {
        let mut cur = ByteReader::new(body);
        let username = read_string(&mut cur)?;
        let conn_type = read_string(&mut cur)?;
        let token = read_u32_le(&mut cur)?;
        Ok(Self { username, conn_type, token })
    }

    /// Decoding an encoded body gives back the message, when both strings fit
    /// their length prefix.
    pub proof fn lemma_roundtrip(m: Self)
        requires
            fits(m.username@),
            fits(m.conn_type@),
        ensures
            Self::spec_decode(m.spec_body()) == Decoded::Ok(m@),
    {
        let d = m.spec_body();
        let n1 = string_field(m.username@).len() as int;
        let n2 = n1 + string_field(m.conn_type@).len();
        assert(d.subrange(0, n1) =~= string_field(m.username@));
        lemma_string_at(d, 0, m.username@);
        assert(d.subrange(n1, n2) =~= string_field(m.conn_type@));
        lemma_string_at(d, n1, m.conn_type@);
        assert(d.subrange(n2, n2 + 4) =~= u32_le(m.token));
        lemma_u32_at(d, n2, m.token);
    }
}

// ── Top-level peer-init enum ──────────────────────────────────────────────────

#[derive(Debug, Clone)]
pub enum PeerInitMessage {
    PierceFirewall(PierceFirewall),
    PeerInit(PeerInit),
}

impl PeerInitMessage {
    /// Decodes the body of a peer-init message by its code.
    pub fn decode(code: u8, body: &[u8]) -> (res: Result<Self>)
        ensures
            code == code::PIERCE_FIREWALL ==> match PierceFirewall::spec_decode(body@) {
                Ok(v) => res matches Ok(PeerInitMessage::PierceFirewall(m)) && m@ == v,
                Err(f) => res matches Err(e) && fail_is(e, f),
            },
            code == code::PEER_INIT ==> match PeerInit::spec_decode(body@) {
                Ok(v) => res matches Ok(PeerInitMessage::PeerInit(m)) && m@ == v,
                Err(f) => res matches Err(e) && fail_is(e, f),
            },
            code > 1 ==> (res matches Err(Error::Protocol(m)) && m@ == "unknown peer-init code"@ + seq![' ']
                + decimal(code as nat)),
    {
        if code == code::PIERCE_FIREWALL {
            Ok(Self::PierceFirewall(PierceFirewall::decode(body)?))
        } else if code == code::PEER_INIT {
            Ok(Self::PeerInit(PeerInit::decode(body)?))
        } else {
            Err(Error::Protocol(message_with_number("unknown peer-init code", code as u32)))
        }
    }
}

} // verus!
