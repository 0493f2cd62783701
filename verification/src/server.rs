//! Server messages (TCP, uint32 code framing).
//!
//! Each message has a `decode(body: &[u8])` and/or an `encode(&self) -> Vec<u8>`.
pub mod code;

use vstd::prelude::*;
use vstd::slice::{slice_subrange, slice_to_vec};
use crate::codec::{
    append_bytes, frame_message_u32, read_bool, read_i32_le, read_string, read_string_list, read_u16_le, read_u32_le,
    read_u32_list, write_bool, write_i32_le, write_string, write_u32_le, ByteReader,
};
use crate::error::{Error, Result};
use crate::md5::{hex_lower, lower_hex, md5_compute, md5_digest};
use crate::peer::FileSearchResponse;
use crate::types::{UserStats, UserStatus};
use crate::wire::{
    list_bytes, counted_bytes, lemma_strings_lenient_at, lemma_counted_at, lemma_i32_at, p_list_lenient, all_fit, strings_bytes, u32s_bytes, lemma_strings_at, lemma_u32s_at, lemma_sub_at, bool_byte, decode_matches, fail_is, fits, frame_u32, i32_le, lemma_bool_at, lemma_list_err, lemma_piece_at, lemma_u16_at, u16_le,
    lemma_string_at, lemma_u32_at, p_bool, p_counted, p_i32, p_list, p_string, p_u16, p_u32, step_matches,
    step_matches_list, string_field, string_item, u32_item, u32_le, utf8, value_of, views, Decoded, Fail, Step,
};
use crate::zlib::zlib_inflate;

verus! {

/// User statistics: average speed, upload count, an unknown `u32`, file
/// count, directory count.
pub open spec fn p_stats(d: Seq<u8>, p: int) -> Step<UserStats> {
    match p_u32(d, p) {
        Ok((avg_speed, p1)) => match p_u32(d, p1) {
            Ok((upload_num, p2)) => match p_u32(d, p2) {
                Ok((unknown, p3)) => match p_u32(d, p3) {
                    Ok((files, p4)) => match p_u32(d, p4) {
                        Ok((dirs, p5)) => Ok((UserStats { avg_speed, upload_num, unknown, files, dirs }, p5)),
                        Err(e) => Err(e),
                    },
                    Err(e) => Err(e),
                },
                Err(e) => Err(e),
            },
            Err(e) => Err(e),
        },
        Err(e) => Err(e),
    }
}

/// The user statistics item reader.
pub open spec fn stats_item() -> spec_fn(Seq<u8>, int) -> Step<UserStats> {
    |d: Seq<u8>, p: int| p_stats(d, p)
}

fn read_stats(cur: &mut ByteReader) -> (res: Result<UserStats>)
    ensures
        final(cur).bytes() == old(cur).bytes(),
        step_matches(res, final(cur).pos(), p_stats(old(cur).bytes(), old(cur).pos())),
{
    let avg_speed = read_u32_le(cur)?;
    let upload_num = read_u32_le(cur)?;
    let unknown = read_u32_le(cur)?;
    let files = read_u32_le(cur)?;
    let dirs = read_u32_le(cur)?;
    Ok(UserStats { avg_speed, upload_num, unknown, files, dirs })
}

/// A user status by its wire value; an unknown value is invalid.
pub open spec fn p_user_status(d: Seq<u8>, p: int) -> Step<UserStatus> {
    match p_u32(d, p) {
        Ok((v, q)) => match UserStatus::spec_from_wire(v) {
            Some(s) => Ok((s, q)),
            None => Err((Fail::Invalid, q)),
        },
        Err(e) => Err(e),
    }
}

/// User statistics as written on the wire: the five counters in order.
pub open spec fn stats_bytes(s: UserStats) -> Seq<u8> {
    u32_le(s.avg_speed) + u32_le(s.upload_num) + u32_le(s.unknown) + u32_le(s.files) + u32_le(s.dirs)
}

/// Reading user statistics where they were written gives them back.
pub proof fn lemma_stats_at(d: Seq<u8>, p: int, s: UserStats)
    requires
        0 <= p,
        p + stats_bytes(s).len() <= d.len(),
        d.subrange(p, p + stats_bytes(s).len()) == stats_bytes(s),
    ensures
        p_stats(d, p) == Step::Ok((s, p + stats_bytes(s).len())),
{
    let w = stats_bytes(s);
    assert(w.len() == 20);
    assert(w.subrange(0, 4) =~= u32_le(s.avg_speed));
    assert(w.subrange(4, 8) =~= u32_le(s.upload_num));
    assert(w.subrange(8, 12) =~= u32_le(s.unknown));
    assert(w.subrange(12, 16) =~= u32_le(s.files));
    assert(w.subrange(16, 20) =~= u32_le(s.dirs));
    lemma_sub_at(d, p, w, 0, u32_le(s.avg_speed));
    lemma_sub_at(d, p, w, 4, u32_le(s.upload_num));
    lemma_sub_at(d, p, w, 8, u32_le(s.unknown));
    lemma_sub_at(d, p, w, 12, u32_le(s.files));
    lemma_sub_at(d, p, w, 16, u32_le(s.dirs));
    lemma_u32_at(d, p, s.avg_speed);
    lemma_u32_at(d, p + 4, s.upload_num);
    lemma_u32_at(d, p + 8, s.unknown);
    lemma_u32_at(d, p + 12, s.files);
    lemma_u32_at(d, p + 16, s.dirs);
}

/// Reading a user status where its wire value was written gives it back.
pub proof fn lemma_user_status_at(d: Seq<u8>, p: int, s: UserStatus)
    requires
        0 <= p,
        p + 4 <= d.len(),
        d.subrange(p, p + 4) == u32_le(s.wire()),
    ensures
        p_user_status(d, p) == Step::Ok((s, p + 4)),
{
    lemma_u32_at(d, p, s.wire());
    UserStatus::lemma_wire_roundtrip(s);
}

/// User statistics as a counted list on the wire.
pub open spec fn stats_list_bytes(xs: Seq<UserStats>) -> Seq<u8> {
    counted_bytes(xs, |s: UserStats| stats_bytes(s))
}

/// Reading a counted list of user statistics where one was written gives
/// it back.
pub proof fn lemma_stats_list_at(d: Seq<u8>, p: int, xs: Seq<UserStats>)
    requires
        0 <= p,
        xs.len() <= u32::MAX,
        p + stats_list_bytes(xs).len() <= d.len(),
        d.subrange(p, p + stats_list_bytes(xs).len()) == stats_list_bytes(xs),
    ensures
        p_counted(d, p, stats_item()) == Step::Ok((xs, p + stats_list_bytes(xs).len())),
{
    let enc = |s: UserStats| stats_bytes(s);
    let good = |s: UserStats| true;
    assert forall|x: UserStats, q: int|
        #![trigger good(x), stats_item()(d, q)]
        good(x) && 0 <= q && q + enc(x).len() <= d.len() && d.subrange(q, q + enc(x).len()) == enc(x) implies stats_item()(
            d,
            q,
        ) == Step::Ok((x, q + enc(x).len())) by {
        lemma_stats_at(d, q, x);
    }
    lemma_counted_at(d, p, xs, enc, stats_item(), good);
}

// ── Login ─────────────────────────────────────────────────────────────────────

/// The login hash: the lowercase hex MD5 digest of the username's bytes
/// followed by the password's bytes.
pub open spec fn spec_login_hash(username: Seq<char>, password: Seq<char>) -> Seq<char> {
    lower_hex(md5_digest(utf8(username) + utf8(password)))
}

/// Compute the MD5 hex digest used in the login message.
pub fn login_hash(username: &str, password: &str) -> (h: String)
    ensures
        h@ == spec_login_hash(username@, password@),
        h@.len() == 32,
{
    let mut data: Vec<u8> = Vec::new();
    append_bytes(&mut data, username.as_bytes());
    append_bytes(&mut data, password.as_bytes());
    let digest = md5_compute(data.as_slice());
    hex_lower(digest.as_slice())
}

/// Compute the password-only MD5 hash returned in the login response.
pub fn password_hash(password: &str) -> (h: String)
    ensures
        h@ == lower_hex(md5_digest(utf8(password@))),
        h@.len() == 32,
{
    let digest = md5_compute(password.as_bytes());
    hex_lower(digest.as_slice())
}

#[derive(Debug, Clone)]
pub struct LoginRequest {
    pub username: String,
    pub password: String,
    /// Protocol version — use 160 for Nicotine+
    pub version: u32,
    /// Minor version
    pub minor_version: u32,
}

impl LoginRequest {
    /// The body on the wire: username, password, version, login hash, minor version.
    pub open spec fn spec_body(&self) -> Seq<u8> {
        string_field(self.username@) + string_field(self.password@) + u32_le(self.version) + string_field(
            spec_login_hash(self.username@, self.password@),
        ) + u32_le(self.minor_version)
    }

    /// The bytes on the wire, written out field by field, in this order.
    pub proof fn lemma_body_layout(m: Self)
        ensures
            m.spec_body() == (string_field(m.username@) + string_field(m.password@) + u32_le(m.version) + string_field(
                spec_login_hash(m.username@, m.password@),
            ) + u32_le(m.minor_version)),
    {
    }

    /// A login request with protocol version 160, minor version 1.
    pub fn new(username: &str, password: &str) -> (m: Self)
        ensures
            m.username@ == username@,
            m.password@ == password@,
            m.version == 160,
            m.minor_version == 1,
    {
        Self {
            username: String::from_str(username),
            password: String::from_str(password),
            version: 160,
            minor_version: 1,
        }
    }

    pub fn encode(&self) -> (out: Vec<u8>)
        ensures
            out@ == frame_u32(code::LOGIN, self.spec_body()),
    {
        let hash = login_hash(self.username.as_str(), self.password.as_str());
        let mut body = Vec::new();
        write_string(&mut body, self.username.as_str());
        write_string(&mut body, self.password.as_str());
        write_u32_le(&mut body, self.version);
        write_string(&mut body, hash.as_str());
        write_u32_le(&mut body, self.minor_version);
        frame_message_u32(code::LOGIN, body.as_slice())
    }
}

#[derive(Debug, Clone)]
pub enum LoginResponse {
    Success { greet: String, own_ip: u32, password_hash: String, is_supporter: bool },
    Failure { reason: String, detail: Option<String> },
}

/// The view of an optional string.
pub open spec fn opt_str(o: Option<String>) -> Option<Seq<char>> {
    match o {
        Some(s) => Some(s@),
        None => None,
    }
}

/// A login response, by value.
pub ghost enum LoginResponseView {
    Success { greet: Seq<char>, own_ip: u32, password_hash: Seq<char>, is_supporter: bool },
    Failure { reason: Seq<char>, detail: Option<Seq<char>> },
}

impl View for LoginResponse {
    type V = LoginResponseView;

    open spec fn view(&self) -> LoginResponseView {
        match self {
            LoginResponse::Success { greet, own_ip, password_hash, is_supporter } => LoginResponseView::Success {
                greet: greet@,
                own_ip: *own_ip,
                password_hash: password_hash@,
                is_supporter: *is_supporter,
            },
            LoginResponse::Failure { reason, detail } => LoginResponseView::Failure {
                reason: reason@,
                detail: opt_str(*detail),
            },
        }
    }
}

impl LoginResponse {
    /// The body read back: a success flag, then greeting, own IP, password
    /// hash and supporter flag; or a reason, followed by a detail string only
    /// when the reason is `INVALIDUSERNAME`.
    #[verifier::opaque]
    pub open spec fn spec_decode(d: Seq<u8>) -> Decoded<LoginResponseView> {
        match p_bool(d, 0) {
            Ok((success, p1)) => if success {
                match p_string(d, p1) {
                    Ok((greet, p2)) => match p_u32(d, p2) {
                        Ok((own_ip, p3)) => match p_string(d, p3) {
                            Ok((password_hash, p4)) => match p_bool(d, p4) {
                                Ok((is_supporter, _)) => Ok(
                                    LoginResponseView::Success { greet, own_ip, password_hash, is_supporter },
                                ),
                                Err((f, _)) => Err(f),
                            },
                            Err((f, _)) => Err(f),
                        },
                        Err((f, _)) => Err(f),
                    },
                    Err((f, _)) => Err(f),
                }
            } else {
                match p_string(d, p1) {
                    Ok((reason, p2)) => if reason == "INVALIDUSERNAME"@ {
                        match p_string(d, p2) {
                            Ok((detail, _)) => Ok(LoginResponseView::Failure { reason, detail: Some(detail) }),
                            Err((f, _)) => Err(f),
                        }
                    } else {
                        Ok(LoginResponseView::Failure { reason, detail: None })
                    },
                    Err((f, _)) => Err(f),
                }
            },
            Err((f, _)) => Err(f),
        }
    }

    /// Where a success flag, greeting, own IP, password hash and supporter
    /// flag were written in their places in `d`, reading `d` gives them back.
    proof fn lemma_success_at(d: Seq<u8>, greet: Seq<char>, own_ip: u32, password_hash: Seq<char>, is_supporter: bool, o1: int, o2: int, o3: int, o4: int, o5: int)
        requires
            fits(greet),
            fits(password_hash),
            o1 == 1,
            o2 == o1 + string_field(greet).len(),
            o3 == o2 + 4,
            o4 == o3 + string_field(password_hash).len(),
            o5 == o4 + 1,
            o5 <= d.len(),
            d.subrange(0, o1) == bool_byte(true),
            d.subrange(o1, o2) == string_field(greet),
            d.subrange(o2, o3) == u32_le(own_ip),
            d.subrange(o3, o4) == string_field(password_hash),
            d.subrange(o4, o5) == bool_byte(is_supporter),
        ensures
            Self::spec_decode(d) == Decoded::Ok(LoginResponseView::Success { greet, own_ip, password_hash, is_supporter }),
    {
        reveal(LoginResponse::spec_decode);
        lemma_bool_at(d, 0, true);
        lemma_string_at(d, o1, greet);
        lemma_u32_at(d, o2, own_ip);
        lemma_string_at(d, o3, password_hash);
        lemma_bool_at(d, o4, is_supporter);
    }

    /// A success is the flag `true`, then the greeting, own IP, password hash
    /// and supporter flag, each read back in its own place.
    pub proof fn lemma_success_layout(greet: Seq<char>, own_ip: u32, password_hash: Seq<char>, is_supporter: bool)
        requires
            fits(greet),
            fits(password_hash),
        ensures
            Self::spec_decode(bool_byte(true) + string_field(greet) + u32_le(own_ip) + string_field(password_hash) + bool_byte(is_supporter))
                == Decoded::Ok(LoginResponseView::Success { greet, own_ip, password_hash, is_supporter }),
    {
        let d = bool_byte(true) + string_field(greet) + u32_le(own_ip) + string_field(password_hash) + bool_byte(is_supporter);
        let q1 = bool_byte(true);
        let q2 = q1 + string_field(greet);
        let q3 = q2 + u32_le(own_ip);
        let q4 = q3 + string_field(password_hash);
        let q5 = q4 + bool_byte(is_supporter);
        assert(d.subrange(0, d.len() as int) =~= q5);
        lemma_piece_at(d, q4, bool_byte(is_supporter));
        lemma_piece_at(d, q3, string_field(password_hash));
        lemma_piece_at(d, q2, u32_le(own_ip));
        lemma_piece_at(d, q1, string_field(greet));
        Self::lemma_success_at(d, greet, own_ip, password_hash, is_supporter, q1.len() as int, q2.len() as int, q3.len() as int, q4.len() as int, q5.len() as int);
    }

    /// A failure is the flag `false` and the reason; only the reason
    /// `INVALIDUSERNAME` is followed by a detail, which is read back too.
    /// Any other reason ends the message, whatever follows it.
    pub proof fn lemma_failure_layout(reason: Seq<char>, detail: Seq<char>, rest: Seq<u8>)
        requires
            fits(reason),
            fits(detail),
        ensures
            reason != "INVALIDUSERNAME"@ ==> Self::spec_decode(bool_byte(false) + string_field(reason) + rest)
                == Decoded::Ok(LoginResponseView::Failure { reason, detail: None }),
            reason == "INVALIDUSERNAME"@ ==> Self::spec_decode(bool_byte(false) + string_field(reason) + string_field(detail))
                == Decoded::Ok(LoginResponseView::Failure { reason, detail: Some(detail) }),
    {
        reveal(LoginResponse::spec_decode);
        let q1 = bool_byte(false);
        let q2 = q1 + string_field(reason);
        let d1 = q2 + rest;
        assert(d1.subrange(0, q2.len() as int) =~= q2);
        lemma_piece_at(d1, q1, string_field(reason));
        lemma_bool_at(d1, 0, false);
        lemma_string_at(d1, 1, reason);
        let d2 = q2 + string_field(detail);
        assert(d2.subrange(0, d2.len() as int) =~= d2);
        lemma_piece_at(d2, q2, string_field(detail));
        lemma_piece_at(d2, q1, string_field(reason));
        lemma_bool_at(d2, 0, false);
        lemma_string_at(d2, 1, reason);
        lemma_string_at(d2, q2.len() as int, detail);
    }

    pub fn decode(body: &[u8]) -> (res: Result<Self>)
        ensures
            decode_matches(res, Self::spec_decode(body@)),
    {
        proof {
            reveal(LoginResponse::spec_decode);
        }
        let mut cur = ByteReader::new(body);
        let success = read_bool(&mut cur)?;
        if success {
            let greet = read_string(&mut cur)?;
            let own_ip = read_u32_le(&mut cur)?;
            let pw_hash = read_string(&mut cur)?;
            let is_supporter = read_bool(&mut cur)?;
            Ok(LoginResponse::Success { greet, own_ip, password_hash: pw_hash, is_supporter })
        } else {
            let reason = read_string(&mut cur)?;
            let invalid_username = String::from_str("INVALIDUSERNAME");
            let detail = if reason == invalid_username {
                Some(read_string(&mut cur)?)
            } else {
                None
            };
            Ok(LoginResponse::Failure { reason, detail })
        }
    }
}


// ── SetWaitPort ───────────────────────────────────────────────────────────────

#[derive(Debug, Clone)]
pub struct SetWaitPort {
    pub port: u32,
    pub obfuscation_type: Option<u32>,
    pub obfuscated_port: Option<u32>,
}

impl SetWaitPort {
    /// The body on the wire: the port, then the obfuscation type and
    /// obfuscated port when both are set.
    pub open spec fn spec_body(&self) -> Seq<u8> {
        u32_le(self.port) + match (self.obfuscation_type, self.obfuscated_port) {
            (Some(ot), Some(op)) => u32_le(ot) + u32_le(op),
            _ => Seq::empty(),
        }
    }

    /// The bytes on the wire, written out field by field, in this order.
    pub proof fn lemma_body_layout(m: Self)
        ensures
            m.spec_body() == (u32_le(m.port) + match (m.obfuscation_type, m.obfuscated_port) {
                (Some(ot), Some(op)) => u32_le(ot) + u32_le(op),
                _ => Seq::empty(),
            }),
    {
    }

    /// A port announcement without obfuscation.
    pub fn new(port: u32) -> (m: Self)
        ensures
            m.port == port,
            m.obfuscation_type is None,
            m.obfuscated_port is None,
    {
        Self { port, obfuscation_type: None, obfuscated_port: None }
    }

    pub fn encode(&self) -> (out: Vec<u8>)
        ensures
            out@ == frame_u32(code::SET_WAIT_PORT, self.spec_body()),
    {
        let mut body = Vec::new();
        write_u32_le(&mut body, self.port);
        if let (Some(ot), Some(op)) = (self.obfuscation_type, self.obfuscated_port) {
            write_u32_le(&mut body, ot);
            write_u32_le(&mut body, op);
        }
        frame_message_u32(code::SET_WAIT_PORT, body.as_slice())
    }
}


// ── GetPeerAddressRequest ──

#[derive(Debug, Clone)]
pub struct GetPeerAddressRequest {
    pub username: String,
}

impl GetPeerAddressRequest {
    /// The body on the wire: username, in this order.
    pub open spec fn spec_body(&self) -> Seq<u8> {
        string_field(self.username@)
    }

    /// The bytes on the wire, written out field by field, in this order.
    pub proof fn lemma_body_layout(m: Self)
        ensures
            m.spec_body() == (string_field(m.username@)),
    {
    }

    pub fn encode(&self) -> (out: Vec<u8>)
        ensures
            out@ == frame_u32(code::GET_PEER_ADDRESS, self.spec_body()),
    {
        let mut body = Vec::new();
        write_string(&mut body, self.username.as_str());
        frame_message_u32(code::GET_PEER_ADDRESS, body.as_slice())
    }
}

// ── GetPeerAddressResponse ──

#[derive(Debug, Clone)]
pub struct GetPeerAddressResponse {
    pub username: String,
    pub ip: u32,
    pub port: u32,
    pub obfuscation_type: u32,
    pub obfuscated_port: u16,
}

impl View for GetPeerAddressResponse {
    type V = (Seq<char>, u32, u32, u32, u16);

    open spec fn view(&self) -> Self::V {
        (self.username@, self.ip, self.port, self.obfuscation_type, self.obfuscated_port)
    }
}

impl GetPeerAddressResponse {
    /// The fields read from the start of a body, in order.
    pub open spec fn spec_decode(d: Seq<u8>) -> Decoded<(Seq<char>, u32, u32, u32, u16)> {
        match p_string(d, 0) {
            Ok((username, p1)) => {
                match p_u32(d, p1) {
                    Ok((ip, p2)) => {
                        match p_u32(d, p2) {
                            Ok((port, p3)) => {
                                match p_u32(d, p3) {
                                    Ok((obfuscation_type, p4)) => {
                                        match p_u16(d, p4) {
                                            Ok((obfuscated_port, _)) => {
                                                Ok((username, ip, port, obfuscation_type, obfuscated_port))
                                            },
                                            Err((f, _)) => Err(f),
                                        }
                                    },
                                    Err((f, _)) => Err(f),
                                }
                            },
                            Err((f, _)) => Err(f),
                        }
                    },
                    Err((f, _)) => Err(f),
                }
            },
            Err((f, _)) => Err(f),
        }
    }

    /// Where each field was written in its place in `d`, the places ending
    /// at the offsets `o1`, `o2`, ..., reading `d` gives back the fields.
    proof fn lemma_fields_at(d: Seq<u8>, username: Seq<char>, ip: u32, port: u32, obfuscation_type: u32, obfuscated_port: u16, o1: int, o2: int, o3: int, o4: int, o5: int)
        requires
            fits(username),
            o1 == 0 + string_field(username).len(),
            o2 == o1 + u32_le(ip).len(),
            o3 == o2 + u32_le(port).len(),
            o4 == o3 + u32_le(obfuscation_type).len(),
            o5 == o4 + u16_le(obfuscated_port).len(),
            o5 <= d.len(),
            d.subrange(0, o1) == string_field(username),
            d.subrange(o1, o2) == u32_le(ip),
            d.subrange(o2, o3) == u32_le(port),
            d.subrange(o3, o4) == u32_le(obfuscation_type),
            d.subrange(o4, o5) == u16_le(obfuscated_port),
        ensures
            Self::spec_decode(d) == Decoded::Ok((username, ip, port, obfuscation_type, obfuscated_port)),
    {
        lemma_string_at(d, 0, username);
        lemma_u32_at(d, o1, ip);
        lemma_u32_at(d, o2, port);
        lemma_u32_at(d, o3, obfuscation_type);
        lemma_u16_at(d, o4, obfuscated_port);
    }

    /// The fields written one after another in the order of the wire
    /// layout read back as themselves, each in its own place.
    pub proof fn lemma_decode_layout(username: Seq<char>, ip: u32, port: u32, obfuscation_type: u32, obfuscated_port: u16)
        requires
            fits(username),
        ensures
            Self::spec_decode(string_field(username) + u32_le(ip) + u32_le(port) + u32_le(obfuscation_type) + u16_le(obfuscated_port)) == Decoded::Ok((username, ip, port, obfuscation_type, obfuscated_port)),
    {
        let d = string_field(username) + u32_le(ip) + u32_le(port) + u32_le(obfuscation_type) + u16_le(obfuscated_port);
        let q1 = string_field(username);
        let q2 = q1 + u32_le(ip);
        let q3 = q2 + u32_le(port);
        let q4 = q3 + u32_le(obfuscation_type);
        let q5 = q4 + u16_le(obfuscated_port);
        assert(d.subrange(0, d.len() as int) =~= q5);
        lemma_piece_at(d, q4, u16_le(obfuscated_port));
        lemma_piece_at(d, q3, u32_le(obfuscation_type));
        lemma_piece_at(d, q2, u32_le(port));
        lemma_piece_at(d, q1, u32_le(ip));
        Self::lemma_fields_at(d, username, ip, port, obfuscation_type, obfuscated_port, q1.len() as int, q2.len() as int, q3.len() as int, q4.len() as int, q5.len() as int);
    }

    pub fn decode(body: &[u8]) -> (res: Result<Self>)
        ensures
            decode_matches(res, Self::spec_decode(body@)),
    {
        let mut cur = ByteReader::new(body);
        let username = read_string(&mut cur)?;
        let ip = read_u32_le(&mut cur)?;
        let port = read_u32_le(&mut cur)?;
        let obfuscation_type = read_u32_le(&mut cur)?;
        let obfuscated_port = read_u16_le(&mut cur)?;
        Ok(Self { username, ip, port, obfuscation_type, obfuscated_port })
    }
}

// ── WatchUserRequest ──

#[derive(Debug, Clone)]
pub struct WatchUserRequest {
    pub username: String,
}

impl WatchUserRequest {
    /// The body on the wire: username, in this order.
    pub open spec fn spec_body(&self) -> Seq<u8> {
        string_field(self.username@)
    }

    /// The bytes on the wire, written out field by field, in this order.
    pub proof fn lemma_body_layout(m: Self)
        ensures
            m.spec_body() == (string_field(m.username@)),
    {
    }

    pub fn encode(&self) -> (out: Vec<u8>)
        ensures
            out@ == frame_u32(code::WATCH_USER, self.spec_body()),
    {
        let mut body = Vec::new();
        write_string(&mut body, self.username.as_str());
        frame_message_u32(code::WATCH_USER, body.as_slice())
    }
}

#[derive(Debug, Clone)]
pub struct WatchUserResponse {
    pub username: String,
    pub exists: bool,
    pub status: Option<UserStatus>,
    pub stats: Option<UserStats>,
    pub country_code: Option<String>,
}

impl View for WatchUserResponse {
    type V = (Seq<char>, bool, Option<UserStatus>, Option<UserStats>, Option<Seq<char>>);

    open spec fn view(&self) -> Self::V {
        (self.username@, self.exists, self.status, self.stats, opt_str(self.country_code))
    }
}

impl WatchUserResponse {
    /// The body read back: username and existence flag; for an existing user
    /// also status, statistics, and (unless offline) a country code.
    #[verifier::opaque]
    pub open spec fn spec_decode(d: Seq<u8>) -> Decoded<
        (Seq<char>, bool, Option<UserStatus>, Option<UserStats>, Option<Seq<char>>),
    > {
        match p_string(d, 0) {
            Ok((username, p1)) => match p_bool(d, p1) {
                Ok((exists, p2)) => if exists {
                    match p_user_status(d, p2) {
                        Ok((status, p3)) => match p_stats(d, p3) {
                            Ok((stats, p4)) => if status == UserStatus::Offline {
                                Ok((username, true, Some(status), Some(stats), None))
                            } else {
                                match p_string(d, p4) {
                                    Ok((cc, _)) => Ok((username, true, Some(status), Some(stats), Some(cc))),
                                    Err((f, _)) => Err(f),
                                }
                            },
                            Err((f, _)) => Err(f),
                        },
                        Err((f, _)) => Err(f),
                    }
                } else {
                    Ok((username, false, None, None, None))
                },
                Err((f, _)) => Err(f),
            },
            Err((f, _)) => Err(f),
        }
    }

    /// Where a user name, the flag `true`, a status and statistics were
    /// written in their places in `d`, each reads back in its place.
    proof fn lemma_known_at(d: Seq<u8>, username: Seq<char>, status: UserStatus, stats: UserStats, o1: int, o2: int, o3: int, o4: int)
        requires
            fits(username),
            o1 == string_field(username).len(),
            o2 == o1 + 1,
            o3 == o2 + 4,
            o4 == o3 + stats_bytes(stats).len(),
            o4 <= d.len(),
            d.subrange(0, o1) == string_field(username),
            d.subrange(o1, o2) == bool_byte(true),
            d.subrange(o2, o3) == u32_le(status.wire()),
            d.subrange(o3, o4) == stats_bytes(stats),
        ensures
            p_string(d, 0) == Step::Ok((username, o1)),
            p_bool(d, o1) == Step::Ok((true, o2)),
            p_user_status(d, o2) == Step::Ok((status, o3)),
            p_stats(d, o3) == Step::Ok((stats, o4)),
    {
        lemma_string_at(d, 0, username);
        lemma_bool_at(d, o1, true);
        lemma_user_status_at(d, o2, status);
        lemma_stats_at(d, o3, stats);
    }

    /// A user that does not exist is the name and the flag `false`; nothing
    /// after them is read.
    pub proof fn lemma_unknown_layout(username: Seq<char>, rest: Seq<u8>)
        requires
            fits(username),
        ensures
            Self::spec_decode(string_field(username) + bool_byte(false) + rest) == Decoded::Ok(
                (username, false, None::<UserStatus>, None::<UserStats>, None::<Seq<char>>),
            ),
    {
        reveal(WatchUserResponse::spec_decode);
        let q1 = string_field(username);
        let q2 = q1 + bool_byte(false);
        let d = q2 + rest;
        assert(d.subrange(0, q2.len() as int) =~= q2);
        lemma_piece_at(d, q1, bool_byte(false));
        lemma_string_at(d, 0, username);
        lemma_bool_at(d, q1.len() as int, false);
    }

    /// Where the fields of an offline user were written in their places at
    /// the start of `d`, reading `d` gives them back.
    proof fn lemma_offline_at(d: Seq<u8>, username: Seq<char>, stats: UserStats, o1: int, o2: int, o3: int, o4: int)
        requires
            fits(username),
            o1 == string_field(username).len(),
            o2 == o1 + 1,
            o3 == o2 + 4,
            o4 == o3 + stats_bytes(stats).len(),
            o4 <= d.len(),
            d.subrange(0, o1) == string_field(username),
            d.subrange(o1, o2) == bool_byte(true),
            d.subrange(o2, o3) == u32_le(UserStatus::Offline.wire()),
            d.subrange(o3, o4) == stats_bytes(stats),
        ensures
            Self::spec_decode(d) == Decoded::Ok((username, true, Some(UserStatus::Offline), Some(stats), None::<Seq<char>>)),
    {
        reveal(WatchUserResponse::spec_decode);
        Self::lemma_known_at(d, username, UserStatus::Offline, stats, o1, o2, o3, o4);
    }

    /// An offline user is the name, the flag `true`, the offline status and
    /// the statistics; no country code is read after them.
    pub proof fn lemma_offline_layout(username: Seq<char>, stats: UserStats, rest: Seq<u8>)
        requires
            fits(username),
        ensures
            Self::spec_decode(
                string_field(username) + bool_byte(true) + u32_le(UserStatus::Offline.wire()) + stats_bytes(stats) + rest,
            ) == Decoded::Ok((username, true, Some(UserStatus::Offline), Some(stats), None::<Seq<char>>)),
    {
        let q1 = string_field(username);
        let q2 = q1 + bool_byte(true);
        let q3 = q2 + u32_le(UserStatus::Offline.wire());
        let q4 = q3 + stats_bytes(stats);
        let d = q4 + rest;
        assert(d.subrange(0, q4.len() as int) =~= q4);
        lemma_piece_at(d, q3, stats_bytes(stats));
        lemma_piece_at(d, q2, u32_le(UserStatus::Offline.wire()));
        lemma_piece_at(d, q1, bool_byte(true));
        Self::lemma_offline_at(d, username, stats, q1.len() as int, q2.len() as int, q3.len() as int, q4.len() as int);
    }

    /// Where the fields of a user who is away or online were written in
    /// their places in `d`, reading `d` gives them back.
    proof fn lemma_online_at(d: Seq<u8>, username: Seq<char>, status: UserStatus, stats: UserStats, country_code: Seq<char>, o1: int, o2: int, o3: int, o4: int, o5: int)
        requires
            fits(username),
            fits(country_code),
            status != UserStatus::Offline,
            o1 == string_field(username).len(),
            o2 == o1 + 1,
            o3 == o2 + 4,
            o4 == o3 + stats_bytes(stats).len(),
            o5 == o4 + string_field(country_code).len(),
            o5 <= d.len(),
            d.subrange(0, o1) == string_field(username),
            d.subrange(o1, o2) == bool_byte(true),
            d.subrange(o2, o3) == u32_le(status.wire()),
            d.subrange(o3, o4) == stats_bytes(stats),
            d.subrange(o4, o5) == string_field(country_code),
        ensures
            Self::spec_decode(d) == Decoded::Ok((username, true, Some(status), Some(stats), Some(country_code))),
    {
        reveal(WatchUserResponse::spec_decode);
        Self::lemma_known_at(d, username, status, stats, o1, o2, o3, o4);
        lemma_string_at(d, o4, country_code);
    }

    /// A user who is away or online is the name, the flag `true`, the status,
    /// the statistics and the country code, each read back in its place.
    pub proof fn lemma_online_layout(username: Seq<char>, status: UserStatus, stats: UserStats, country_code: Seq<char>)
        requires
            fits(username),
            fits(country_code),
            status != UserStatus::Offline,
        ensures
            Self::spec_decode(
                string_field(username) + bool_byte(true) + u32_le(status.wire()) + stats_bytes(stats) + string_field(country_code),
            ) == Decoded::Ok((username, true, Some(status), Some(stats), Some(country_code))),
    {
        let q1 = string_field(username);
        let q2 = q1 + bool_byte(true);
        let q3 = q2 + u32_le(status.wire());
        let q4 = q3 + stats_bytes(stats);
        let q5 = q4 + string_field(country_code);
        let d = q5;
        assert(d.subrange(0, d.len() as int) =~= q5);
        lemma_piece_at(d, q4, string_field(country_code));
        lemma_piece_at(d, q3, stats_bytes(stats));
        lemma_piece_at(d, q2, u32_le(status.wire()));
        lemma_piece_at(d, q1, bool_byte(true));
        Self::lemma_online_at(d, username, status, stats, country_code, q1.len() as int, q2.len() as int, q3.len() as int, q4.len() as int, q5.len() as int);
    }

    pub fn decode(body: &[u8]) -> (res: Result<Self>)
        ensures
            decode_matches(res, Self::spec_decode(body@)),
    {
        proof {
            reveal(WatchUserResponse::spec_decode);
        }
        let mut cur = ByteReader::new(body);
        let username = read_string(&mut cur)?;
        let exists = read_bool(&mut cur)?;
        if exists {
            let status = UserStatus::try_from(read_u32_le(&mut cur)?)?;
            let stats = read_stats(&mut cur)?;
            let country_code = match status {
                UserStatus::Offline => None,
                _ => Some(read_string(&mut cur)?),
            };
            Ok(WatchUserResponse {
                username,
                exists: true,
                status: Some(status),
                stats: Some(stats),
                country_code,
            })
        } else {
            Ok(WatchUserResponse { username, exists: false, status: None, stats: None, country_code: None })
        }
    }
}


// ── UnwatchUser ──

#[derive(Debug, Clone)]
pub struct UnwatchUser {
    pub username: String,
}

impl UnwatchUser {
    /// The body on the wire: username, in this order.
    pub open spec fn spec_body(&self) -> Seq<u8> {
        string_field(self.username@)
    }

    /// The bytes on the wire, written out field by field, in this order.
    pub proof fn lemma_body_layout(m: Self)
        ensures
            m.spec_body() == (string_field(m.username@)),
    {
    }

    pub fn encode(&self) -> (out: Vec<u8>)
        ensures
            out@ == frame_u32(code::UNWATCH_USER, self.spec_body()),
    {
        let mut body = Vec::new();
        write_string(&mut body, self.username.as_str());
        frame_message_u32(code::UNWATCH_USER, body.as_slice())
    }
}

// ── GetUserStatusRequest ──

#[derive(Debug, Clone)]
pub struct GetUserStatusRequest {
    pub username: String,
}

impl GetUserStatusRequest {
    /// The body on the wire: username, in this order.
    pub open spec fn spec_body(&self) -> Seq<u8> {
        string_field(self.username@)
    }

    /// The bytes on the wire, written out field by field, in this order.
    pub proof fn lemma_body_layout(m: Self)
        ensures
            m.spec_body() == (string_field(m.username@)),
    {
    }

    pub fn encode(&self) -> (out: Vec<u8>)
        ensures
            out@ == frame_u32(code::GET_USER_STATUS, self.spec_body()),
    {
        let mut body = Vec::new();
        write_string(&mut body, self.username.as_str());
        frame_message_u32(code::GET_USER_STATUS, body.as_slice())
    }
}

// ── GetUserStatusResponse ──

#[derive(Debug, Clone)]
pub struct GetUserStatusResponse {
    pub username: String,
    pub status: UserStatus,
    pub privileged: bool,
}

impl View for GetUserStatusResponse {
    type V = (Seq<char>, UserStatus, bool);

    open spec fn view(&self) -> Self::V {
        (self.username@, self.status, self.privileged)
    }
}

impl GetUserStatusResponse {
    /// The fields read from the start of a body, in order.
    pub open spec fn spec_decode(d: Seq<u8>) -> Decoded<(Seq<char>, UserStatus, bool)> {
        match p_string(d, 0) {
            Ok((username, p1)) => {
                match p_user_status(d, p1) {
                    Ok((status, p2)) => {
                        match p_bool(d, p2) {
                            Ok((privileged, _)) => {
                                Ok((username, status, privileged))
                            },
                            Err((f, _)) => Err(f),
                        }
                    },
                    Err((f, _)) => Err(f),
                }
            },
            Err((f, _)) => Err(f),
        }
    }

    /// Where each field was written in its place in `d`, the places ending
    /// at the offsets `o1`, `o2`, ..., reading `d` gives back the fields.
    proof fn lemma_fields_at(d: Seq<u8>, username: Seq<char>, status: UserStatus, privileged: bool, o1: int, o2: int, o3: int)
        requires
            fits(username),
            o1 == 0 + string_field(username).len(),
            o2 == o1 + u32_le(status.wire()).len(),
            o3 == o2 + bool_byte(privileged).len(),
            o3 <= d.len(),
            d.subrange(0, o1) == string_field(username),
            d.subrange(o1, o2) == u32_le(status.wire()),
            d.subrange(o2, o3) == bool_byte(privileged),
        ensures
            Self::spec_decode(d) == Decoded::Ok((username, status, privileged)),
    {
        lemma_string_at(d, 0, username);
        lemma_user_status_at(d, o1, status);
        lemma_bool_at(d, o2, privileged);
    }

    /// The fields written one after another in the order of the wire
    /// layout read back as themselves, each in its own place.
    pub proof fn lemma_decode_layout(username: Seq<char>, status: UserStatus, privileged: bool)
        requires
            fits(username),
        ensures
            Self::spec_decode(string_field(username) + u32_le(status.wire()) + bool_byte(privileged)) == Decoded::Ok((username, status, privileged)),
    {
        let d = string_field(username) + u32_le(status.wire()) + bool_byte(privileged);
        let q1 = string_field(username);
        let q2 = q1 + u32_le(status.wire());
        let q3 = q2 + bool_byte(privileged);
        assert(d.subrange(0, d.len() as int) =~= q3);
        lemma_piece_at(d, q2, bool_byte(privileged));
        lemma_piece_at(d, q1, u32_le(status.wire()));
        Self::lemma_fields_at(d, username, status, privileged, q1.len() as int, q2.len() as int, q3.len() as int);
    }

    pub fn decode(body: &[u8]) -> (res: Result<Self>)
        ensures
            decode_matches(res, Self::spec_decode(body@)),
    {
        let mut cur = ByteReader::new(body);
        let username = read_string(&mut cur)?;
        let status = UserStatus::try_from(read_u32_le(&mut cur)?)?;
        let privileged = read_bool(&mut cur)?;
        Ok(Self { username, status, privileged })
    }
}

// ── SayChatroomSend ──

#[derive(Debug, Clone)]
pub struct SayChatroomSend {
    pub room: String,
    pub message: String,
}

impl SayChatroomSend {
    /// The body on the wire: room, message, in this order.
    pub open spec fn spec_body(&self) -> Seq<u8> {
        string_field(self.room@) + string_field(self.message@)
    }

    /// The bytes on the wire, written out field by field, in this order.
    pub proof fn lemma_body_layout(m: Self)
        ensures
            m.spec_body() == (string_field(m.room@) + string_field(m.message@)),
    {
    }

    pub fn encode(&self) -> (out: Vec<u8>)
        ensures
            out@ == frame_u32(code::SAY_CHATROOM, self.spec_body()),
    {
        let mut body = Vec::new();
        write_string(&mut body, self.room.as_str());
        write_string(&mut body, self.message.as_str());
        frame_message_u32(code::SAY_CHATROOM, body.as_slice())
    }
}

// ── SayChatroomRecv ──

#[derive(Debug, Clone)]
pub struct SayChatroomRecv {
    pub room: String,
    pub username: String,
    pub message: String,
}

impl View for SayChatroomRecv {
    type V = (Seq<char>, Seq<char>, Seq<char>);

    open spec fn view(&self) -> Self::V {
        (self.room@, self.username@, self.message@)
    }
}

impl SayChatroomRecv {
    /// The fields read from the start of a body, in order.
    pub open spec fn spec_decode(d: Seq<u8>) -> Decoded<(Seq<char>, Seq<char>, Seq<char>)> {
        match p_string(d, 0) {
            Ok((room, p1)) => {
                match p_string(d, p1) {
                    Ok((username, p2)) => {
                        match p_string(d, p2) {
                            Ok((message, _)) => {
                                Ok((room, username, message))
                            },
                            Err((f, _)) => Err(f),
                        }
                    },
                    Err((f, _)) => Err(f),
                }
            },
            Err((f, _)) => Err(f),
        }
    }

    /// Where each field was written in its place in `d`, the places ending
    /// at the offsets `o1`, `o2`, ..., reading `d` gives back the fields.
    proof fn lemma_fields_at(d: Seq<u8>, room: Seq<char>, username: Seq<char>, message: Seq<char>, o1: int, o2: int, o3: int)
        requires
            fits(room),
            fits(username),
            fits(message),
            o1 == 0 + string_field(room).len(),
            o2 == o1 + string_field(username).len(),
            o3 == o2 + string_field(message).len(),
            o3 <= d.len(),
            d.subrange(0, o1) == string_field(room),
            d.subrange(o1, o2) == string_field(username),
            d.subrange(o2, o3) == string_field(message),
        ensures
            Self::spec_decode(d) == Decoded::Ok((room, username, message)),
    {
        lemma_string_at(d, 0, room);
        lemma_string_at(d, o1, username);
        lemma_string_at(d, o2, message);
    }

    /// The fields written one after another in the order of the wire
    /// layout read back as themselves, each in its own place.
    pub proof fn lemma_decode_layout(room: Seq<char>, username: Seq<char>, message: Seq<char>)
        requires
            fits(room),
            fits(username),
            fits(message),
        ensures
            Self::spec_decode(string_field(room) + string_field(username) + string_field(message)) == Decoded::Ok((room, username, message)),
    {
        let d = string_field(room) + string_field(username) + string_field(message);
        let q1 = string_field(room);
        let q2 = q1 + string_field(username);
        let q3 = q2 + string_field(message);
        assert(d.subrange(0, d.len() as int) =~= q3);
        lemma_piece_at(d, q2, string_field(message));
        lemma_piece_at(d, q1, string_field(username));
        Self::lemma_fields_at(d, room, username, message, q1.len() as int, q2.len() as int, q3.len() as int);
    }

    pub fn decode(body: &[u8]) -> (res: Result<Self>)
        ensures
            decode_matches(res, Self::spec_decode(body@)),
    {
        let mut cur = ByteReader::new(body);
        let room = read_string(&mut cur)?;
        let username = read_string(&mut cur)?;
        let message = read_string(&mut cur)?;
        Ok(Self { room, username, message })
    }
}

// ── JoinRoomRequest ──

#[derive(Debug, Clone)]
pub struct JoinRoomRequest {
    pub room: String,
    /// 1 = private, 0 = public
    pub private: u32,
}

impl JoinRoomRequest {
    /// The body on the wire: room, private, in this order.
    pub open spec fn spec_body(&self) -> Seq<u8> {
        string_field(self.room@) + u32_le(self.private)
    }

    /// The bytes on the wire, written out field by field, in this order.
    pub proof fn lemma_body_layout(m: Self)
        ensures
            m.spec_body() == (string_field(m.room@) + u32_le(m.private)),
    {
    }

    pub fn encode(&self) -> (out: Vec<u8>)
        ensures
            out@ == frame_u32(code::JOIN_ROOM, self.spec_body()),
    {
        let mut body = Vec::new();
        write_string(&mut body, self.room.as_str());
        write_u32_le(&mut body, self.private);
        frame_message_u32(code::JOIN_ROOM, body.as_slice())
    }
}

#[derive(Debug, Clone)]
pub struct RoomUserEntry {
    pub username: String,
    pub status: u32,
    pub stats: UserStats,
    pub slots_full: u32,
    pub country_code: String,
}

/// A room user, by value.
pub type RoomUserEntryView = (Seq<char>, u32, UserStats, u32, Seq<char>);

impl View for RoomUserEntry {
    type V = RoomUserEntryView;

    open spec fn view(&self) -> RoomUserEntryView {
        (self.username@, self.status, self.stats, self.slots_full, self.country_code@)
    }
}

/// The room's users: one per name, with the status, statistics, slot flag
/// and country code at the same index, or 0, zero statistics and an empty
/// string where that list is shorter.
pub open spec fn room_users(
    names: Seq<Seq<char>>,
    statuses: Seq<u32>,
    stats: Seq<UserStats>,
    slots: Seq<u32>,
    countries: Seq<Seq<char>>,
) -> Seq<RoomUserEntryView> {
    Seq::new(
        names.len(),
        |i: int|
            (
                names[i],
                if i < statuses.len() { statuses[i] } else { 0u32 },
                if i < stats.len() { stats[i] } else { UserStats { avg_speed: 0, upload_num: 0, unknown: 0, files: 0, dirs: 0 } },
                if i < slots.len() { slots[i] } else { 0u32 },
                if i < countries.len() { countries[i] } else { Seq::empty() },
            ),
    )
}

#[derive(Debug, Clone)]
pub struct JoinRoomResponse {
    pub room: String,
    pub users: Vec<RoomUserEntry>,
    pub owner: Option<String>,
    pub operators: Vec<String>,
}

/// A join-room response, by value.
pub type JoinRoomResponseView = (Seq<char>, Seq<RoomUserEntryView>, Option<Seq<char>>, Seq<Seq<char>>);

impl View for JoinRoomResponse {
    type V = JoinRoomResponseView;

    open spec fn view(&self) -> JoinRoomResponseView {
        (self.room@, views(self.users@), opt_str(self.owner), views(self.operators@))
    }
}

fn read_stats_list(cur: &mut ByteReader, n: u32) -> (res: Result<Vec<UserStats>>)
    ensures
        final(cur).bytes() == old(cur).bytes(),
        step_matches_list(res, final(cur).pos(), p_list(old(cur).bytes(), old(cur).pos(), n as nat, stats_item())),
{
    let ghost d = cur.bytes();
    let ghost p0 = cur.pos();
    let mut out: Vec<UserStats> = Vec::new();
    let mut i: u32 = 0;
    assert(views(out@) =~= Seq::empty());
    while i < n
        invariant
            d == old(cur).bytes(),
            p0 == old(cur).pos(),
            cur.bytes() == d,
            i <= n,
            p_list(d, p0, i as nat, stats_item()) == Step::Ok((views(out@), cur.pos())),
        decreases n - i,
    {
        let ghost before = out@;
        match read_stats(cur) {
            Ok(x) => {
                out.push(x);
                i = i + 1;
                assert(views(out@) =~= views(before).push(x));
            },
            Err(e) => {
                proof {
                    lemma_list_err(d, p0, (i + 1) as nat, n as nat, stats_item());
                }
                return Err(e);
            },
        }
    }
    Ok(out)
}

/// Reads `n` strings, skipping those that fail to decode.
fn read_string_list_lenient(cur: &mut ByteReader, n: u32) -> (out: Vec<String>)
    ensures
        final(cur).bytes() == old(cur).bytes(),
        p_list_lenient(old(cur).bytes(), old(cur).pos(), n as nat, string_item()) == (views(out@), final(cur).pos()),
{
    let ghost d = cur.bytes();
    let ghost p0 = cur.pos();
    let mut out: Vec<String> = Vec::new();
    let mut i: u32 = 0;
    assert(views(out@) =~= Seq::empty());
    while i < n
        invariant
            d == old(cur).bytes(),
            p0 == old(cur).pos(),
            cur.bytes() == d,
            i <= n,
            p_list_lenient(d, p0, i as nat, string_item()) == (views(out@), cur.pos()),
        decreases n - i,
    {
        let ghost before = out@;
        if let Ok(x) = read_string(cur) {
            let ghost xv = x@;
            out.push(x);
            assert(views(out@) =~= views(before).push(xv));
        }
        i = i + 1;
    }
    out
}

/// Joins the per-user lists of a join-room response.
fn combine_room_users(
    usernames: &Vec<String>,
    statuses: &Vec<u32>,
    stats_list: &Vec<UserStats>,
    slots_full: &Vec<u32>,
    country_codes: &Vec<String>,
) -> (users: Vec<RoomUserEntry>)
    ensures
        views(users@) == room_users(
            views(usernames@),
            statuses@,
            stats_list@,
            slots_full@,
            views(country_codes@),
        ),
{
    let ghost target = room_users(views(usernames@), statuses@, stats_list@, slots_full@, views(country_codes@));
    let mut users: Vec<RoomUserEntry> = Vec::new();
    let mut i: usize = 0;
    assert(views(users@) =~= target.take(0));
    while i < usernames.len()
        invariant
            i <= usernames@.len(),
            target == room_users(views(usernames@), statuses@, stats_list@, slots_full@, views(country_codes@)),
            views(users@) == target.take(i as int),
        decreases usernames@.len() - i,
    {
        let status = if i < statuses.len() {
            statuses[i]
        } else {
            0
        };
        let stats = if i < stats_list.len() {
            stats_list[i]
        } else {
            UserStats::default()
        };
        let slots = if i < slots_full.len() {
            slots_full[i]
        } else {
            0
        };
        let country_code = if i < country_codes.len() {
            country_codes[i].clone()
        } else {
            String::new()
        };
        let entry = RoomUserEntry {
            username: usernames[i].clone(),
            status,
            stats,
            slots_full: slots,
            country_code,
        };
        let ghost before = users@;
        users.push(entry);
        assert(views(users@) =~= target.take(i + 1)) by {
            assert(views(users@) =~= views(before).push(target[i as int]));
        }
        i = i + 1;
    }
    assert(target.take(usernames@.len() as int) =~= target);
    users
}

impl JoinRoomResponse {
    /// The body read back: room; the user names, statuses, statistics, slot
    /// flags and country codes, each a counted list; then an optional owner
    /// and an optional counted list of operators, where unreadable operators
    /// are skipped.
    pub open spec fn spec_decode(d: Seq<u8>) -> Decoded<JoinRoomResponseView> {
        match p_string(d, 0) {
            Ok((room, p1)) => match p_counted(d, p1, string_item()) {
                Ok((names, p2)) => match p_counted(d, p2, u32_item()) {
                    Ok((statuses, p3)) => match p_counted(d, p3, stats_item()) {
                        Ok((stats, p4)) => match p_counted(d, p4, u32_item()) {
                            Ok((slots, p5)) => match p_counted(d, p5, string_item()) {
                                Ok((countries, p6)) => {
                                    let users = room_users(names, statuses, stats, slots, countries);
                                    let (owner, p7) = match p_string(d, p6) {
                                        Ok((o, q)) => (Some(o), q),
                                        Err((_, q)) => (None, q),
                                    };
                                    let operators = match p_u32(d, p7) {
                                        Ok((nop, q)) => p_list_lenient(d, q, nop as nat, string_item()).0,
                                        Err(_) => Seq::empty(),
                                    };
                                    Ok((room, users, owner, operators))
                                },
                                Err((f, _)) => Err(f),
                            },
                            Err((f, _)) => Err(f),
                        },
                        Err((f, _)) => Err(f),
                    },
                    Err((f, _)) => Err(f),
                },
                Err((f, _)) => Err(f),
            },
            Err((f, _)) => Err(f),
        }
    }

    /// Where the room and the five user lists were written in their places
    /// in `d`, each reads back in its place.
    proof fn lemma_users_at(d: Seq<u8>, room: Seq<char>, names: Seq<Seq<char>>, statuses: Seq<u32>, stats: Seq<UserStats>, slots: Seq<u32>, countries: Seq<Seq<char>>, o1: int, o2: int, o3: int, o4: int, o5: int, o6: int)
        requires
            fits(room),
            names.len() <= u32::MAX,
            all_fit(names),
            statuses.len() <= u32::MAX,
            stats.len() <= u32::MAX,
            slots.len() <= u32::MAX,
            countries.len() <= u32::MAX,
            all_fit(countries),
            o1 == string_field(room).len(),
            o2 == o1 + strings_bytes(names).len(),
            o3 == o2 + u32s_bytes(statuses).len(),
            o4 == o3 + stats_list_bytes(stats).len(),
            o5 == o4 + u32s_bytes(slots).len(),
            o6 == o5 + strings_bytes(countries).len(),
            o6 <= d.len(),
            d.subrange(0, o1) == string_field(room),
            d.subrange(o1, o2) == strings_bytes(names),
            d.subrange(o2, o3) == u32s_bytes(statuses),
            d.subrange(o3, o4) == stats_list_bytes(stats),
            d.subrange(o4, o5) == u32s_bytes(slots),
            d.subrange(o5, o6) == strings_bytes(countries),
        ensures
            p_string(d, 0) == Step::Ok((room, o1)),
            p_counted(d, o1, string_item()) == Step::Ok((names, o2)),
            p_counted(d, o2, u32_item()) == Step::Ok((statuses, o3)),
            p_counted(d, o3, stats_item()) == Step::Ok((stats, o4)),
            p_counted(d, o4, u32_item()) == Step::Ok((slots, o5)),
            p_counted(d, o5, string_item()) == Step::Ok((countries, o6)),
    {
        lemma_string_at(d, 0, room);
        lemma_strings_at(d, o1, names);
        lemma_u32s_at(d, o2, statuses);
        lemma_stats_list_at(d, o3, stats);
        lemma_u32s_at(d, o4, slots);
        lemma_strings_at(d, o5, countries);
    }

    /// Where a public room's fields end `d`, reading `d` gives them back.
    proof fn lemma_public_at(d: Seq<u8>, room: Seq<char>, names: Seq<Seq<char>>, statuses: Seq<u32>, stats: Seq<UserStats>, slots: Seq<u32>, countries: Seq<Seq<char>>, o1: int, o2: int, o3: int, o4: int, o5: int, o6: int)
        requires
            fits(room),
            names.len() <= u32::MAX,
            all_fit(names),
            statuses.len() <= u32::MAX,
            stats.len() <= u32::MAX,
            slots.len() <= u32::MAX,
            countries.len() <= u32::MAX,
            all_fit(countries),
            o1 == string_field(room).len(),
            o2 == o1 + strings_bytes(names).len(),
            o3 == o2 + u32s_bytes(statuses).len(),
            o4 == o3 + stats_list_bytes(stats).len(),
            o5 == o4 + u32s_bytes(slots).len(),
            o6 == o5 + strings_bytes(countries).len(),
            o6 <= d.len(),
            d.subrange(0, o1) == string_field(room),
            d.subrange(o1, o2) == strings_bytes(names),
            d.subrange(o2, o3) == u32s_bytes(statuses),
            d.subrange(o3, o4) == stats_list_bytes(stats),
            d.subrange(o4, o5) == u32s_bytes(slots),
            d.subrange(o5, o6) == strings_bytes(countries),
            o6 == d.len(),
        ensures
            Self::spec_decode(d) == Decoded::Ok(
                (room, room_users(names, statuses, stats, slots, countries), None::<Seq<char>>, Seq::<Seq<char>>::empty()),
            ),
    {
        Self::lemma_users_at(d, room, names, statuses, stats, slots, countries, o1, o2, o3, o4, o5, o6);
    }

    /// Where a private room's fields were written in their places in `d`,
    /// reading `d` gives them back.
    proof fn lemma_private_at(d: Seq<u8>, room: Seq<char>, names: Seq<Seq<char>>, statuses: Seq<u32>, stats: Seq<UserStats>, slots: Seq<u32>, countries: Seq<Seq<char>>, owner: Seq<char>, operators: Seq<Seq<char>>, o1: int, o2: int, o3: int, o4: int, o5: int, o6: int, o7: int, o8: int)
        requires
            fits(room),
            names.len() <= u32::MAX,
            all_fit(names),
            statuses.len() <= u32::MAX,
            stats.len() <= u32::MAX,
            slots.len() <= u32::MAX,
            countries.len() <= u32::MAX,
            all_fit(countries),
            fits(owner),
            operators.len() <= u32::MAX,
            all_fit(operators),
            o1 == string_field(room).len(),
            o2 == o1 + strings_bytes(names).len(),
            o3 == o2 + u32s_bytes(statuses).len(),
            o4 == o3 + stats_list_bytes(stats).len(),
            o5 == o4 + u32s_bytes(slots).len(),
            o6 == o5 + strings_bytes(countries).len(),
            o6 <= d.len(),
            d.subrange(0, o1) == string_field(room),
            d.subrange(o1, o2) == strings_bytes(names),
            d.subrange(o2, o3) == u32s_bytes(statuses),
            d.subrange(o3, o4) == stats_list_bytes(stats),
            d.subrange(o4, o5) == u32s_bytes(slots),
            d.subrange(o5, o6) == strings_bytes(countries),
            o7 == o6 + string_field(owner).len(),
            o8 == o7 + strings_bytes(operators).len(),
            o8 <= d.len(),
            d.subrange(o6, o7) == string_field(owner),
            d.subrange(o7, o8) == strings_bytes(operators),
        ensures
            Self::spec_decode(d) == Decoded::Ok(
                (room, room_users(names, statuses, stats, slots, countries), Some(owner), operators),
            ),
    {
        Self::lemma_users_at(d, room, names, statuses, stats, slots, countries, o1, o2, o3, o4, o5, o6);
        lemma_string_at(d, o6, owner);
        lemma_strings_lenient_at(d, o7, operators);
    }

    /// A public room is the room and the user names, statuses, statistics,
    /// slot flags and country codes as counted lists, in this order, with
    /// nothing after them: each user gets the values at its own index, and
    /// there is no owner and no operator.
    pub proof fn lemma_public_layout(room: Seq<char>, names: Seq<Seq<char>>, statuses: Seq<u32>, stats: Seq<UserStats>, slots: Seq<u32>, countries: Seq<Seq<char>>)
        requires
            fits(room),
            names.len() <= u32::MAX,
            all_fit(names),
            statuses.len() <= u32::MAX,
            stats.len() <= u32::MAX,
            slots.len() <= u32::MAX,
            countries.len() <= u32::MAX,
            all_fit(countries),
        ensures
            Self::spec_decode(string_field(room) + strings_bytes(names) + u32s_bytes(statuses) + stats_list_bytes(stats) + u32s_bytes(slots) + strings_bytes(countries)) == Decoded::Ok(
                (room, room_users(names, statuses, stats, slots, countries), None::<Seq<char>>, Seq::<Seq<char>>::empty()),
            ),
    {
        let d = string_field(room) + strings_bytes(names) + u32s_bytes(statuses) + stats_list_bytes(stats) + u32s_bytes(slots) + strings_bytes(countries);
        let q1 = string_field(room);
        let q2 = q1 + strings_bytes(names);
        let q3 = q2 + u32s_bytes(statuses);
        let q4 = q3 + stats_list_bytes(stats);
        let q5 = q4 + u32s_bytes(slots);
        let q6 = q5 + strings_bytes(countries);
        assert(d.subrange(0, d.len() as int) =~= q6);
        lemma_piece_at(d, q5, strings_bytes(countries));
        lemma_piece_at(d, q4, u32s_bytes(slots));
        lemma_piece_at(d, q3, stats_list_bytes(stats));
        lemma_piece_at(d, q2, u32s_bytes(statuses));
        lemma_piece_at(d, q1, strings_bytes(names));
        Self::lemma_public_at(d, room, names, statuses, stats, slots, countries, q1.len() as int, q2.len() as int, q3.len() as int, q4.len() as int, q5.len() as int, q6.len() as int);
    }

    /// A private room has, after the user lists, its owner and a counted
    /// list of operators, read back as themselves.
    pub proof fn lemma_private_layout(room: Seq<char>, names: Seq<Seq<char>>, statuses: Seq<u32>, stats: Seq<UserStats>, slots: Seq<u32>, countries: Seq<Seq<char>>, owner: Seq<char>, operators: Seq<Seq<char>>)
        requires
            fits(room),
            names.len() <= u32::MAX,
            all_fit(names),
            statuses.len() <= u32::MAX,
            stats.len() <= u32::MAX,
            slots.len() <= u32::MAX,
            countries.len() <= u32::MAX,
            all_fit(countries),
            fits(owner),
            operators.len() <= u32::MAX,
            all_fit(operators),
        ensures
            Self::spec_decode(string_field(room) + strings_bytes(names) + u32s_bytes(statuses) + stats_list_bytes(stats) + u32s_bytes(slots) + strings_bytes(countries) + string_field(owner) + strings_bytes(operators)) == Decoded::Ok(
                (room, room_users(names, statuses, stats, slots, countries), Some(owner), operators),
            ),
    {
        let d = string_field(room) + strings_bytes(names) + u32s_bytes(statuses) + stats_list_bytes(stats) + u32s_bytes(slots) + strings_bytes(countries) + string_field(owner) + strings_bytes(operators);
        let q1 = string_field(room);
        let q2 = q1 + strings_bytes(names);
        let q3 = q2 + u32s_bytes(statuses);
        let q4 = q3 + stats_list_bytes(stats);
        let q5 = q4 + u32s_bytes(slots);
        let q6 = q5 + strings_bytes(countries);
        let q7 = q6 + string_field(owner);
        let q8 = q7 + strings_bytes(operators);
        assert(d.subrange(0, d.len() as int) =~= q8);
        lemma_piece_at(d, q7, strings_bytes(operators));
        lemma_piece_at(d, q6, string_field(owner));
        lemma_piece_at(d, q5, strings_bytes(countries));
        lemma_piece_at(d, q4, u32s_bytes(slots));
        lemma_piece_at(d, q3, stats_list_bytes(stats));
        lemma_piece_at(d, q2, u32s_bytes(statuses));
        lemma_piece_at(d, q1, strings_bytes(names));
        Self::lemma_private_at(d, room, names, statuses, stats, slots, countries, owner, operators, q1.len() as int, q2.len() as int, q3.len() as int, q4.len() as int, q5.len() as int, q6.len() as int, q7.len() as int, q8.len() as int);
    }

    pub fn decode(body: &[u8]) -> (res: Result<Self>)
        ensures
            decode_matches(res, Self::spec_decode(body@)),
    {
        let mut cur = ByteReader::new(body);
        let room = read_string(&mut cur)?;
        let n = read_u32_le(&mut cur)?;
        let usernames = read_string_list(&mut cur, n)?;
        let ns = read_u32_le(&mut cur)?;
        let statuses = read_u32_list(&mut cur, ns)?;
        let nst = read_u32_le(&mut cur)?;
        let stats_list = read_stats_list(&mut cur, nst)?;
        let nsf = read_u32_le(&mut cur)?;
        let slots_full = read_u32_list(&mut cur, nsf)?;
        let ncc = read_u32_le(&mut cur)?;
        let country_codes = read_string_list(&mut cur, ncc)?;
        proof {
            assert(statuses@ =~= views(statuses@));
            assert(stats_list@ =~= views(stats_list@));
            assert(slots_full@ =~= views(slots_full@));
        }
        let users = combine_room_users(&usernames, &statuses, &stats_list, &slots_full, &country_codes);

        // Optional private room info
        let owner = match read_string(&mut cur) {
            Ok(o) => Some(o),
            Err(_) => None,
        };
        let operators = match read_u32_le(&mut cur) {
            Ok(nop) => read_string_list_lenient(&mut cur, nop),
            Err(_) => {
                let empty: Vec<String> = Vec::new();
                assert(views(empty@) =~= Seq::empty());
                empty
            },
        };
        Ok(JoinRoomResponse { room, users, owner, operators })
    }
}


// ── LeaveRoom ──

#[derive(Debug, Clone)]
pub struct LeaveRoom {
    pub room: String,
}

impl LeaveRoom {
    /// The body on the wire: room, in this order.
    pub open spec fn spec_body(&self) -> Seq<u8> {
        string_field(self.room@)
    }

    /// The bytes on the wire, written out field by field, in this order.
    pub proof fn lemma_body_layout(m: Self)
        ensures
            m.spec_body() == (string_field(m.room@)),
    {
    }

    pub fn encode(&self) -> (out: Vec<u8>)
        ensures
            out@ == frame_u32(code::LEAVE_ROOM, self.spec_body()),
    {
        let mut body = Vec::new();
        write_string(&mut body, self.room.as_str());
        frame_message_u32(code::LEAVE_ROOM, body.as_slice())
    }
}

// ── UserJoinedRoom ──

#[derive(Debug, Clone)]
pub struct UserJoinedRoom {
    pub room: String,
    pub username: String,
    pub status: u32,
    pub stats: UserStats,
    pub slots_full: u32,
    pub country_code: String,
}

impl View for UserJoinedRoom {
    type V = (Seq<char>, Seq<char>, u32, UserStats, u32, Seq<char>);

    open spec fn view(&self) -> Self::V {
        (self.room@, self.username@, self.status, self.stats, self.slots_full, self.country_code@)
    }
}

impl UserJoinedRoom {
    /// The fields read from the start of a body, in order.
    pub open spec fn spec_decode(d: Seq<u8>) -> Decoded<(Seq<char>, Seq<char>, u32, UserStats, u32, Seq<char>)> {
        match p_string(d, 0) {
            Ok((room, p1)) => {
                match p_string(d, p1) {
                    Ok((username, p2)) => {
                        match p_u32(d, p2) {
                            Ok((status, p3)) => {
                                match p_stats(d, p3) {
                                    Ok((stats, p4)) => {
                                        match p_u32(d, p4) {
                                            Ok((slots_full, p5)) => {
                                                match p_string(d, p5) {
                                                    Ok((country_code, _)) => {
                                                        Ok((room, username, status, stats, slots_full, country_code))
                                                    },
                                                    Err((f, _)) => Err(f),
                                                }
                                            },
                                            Err((f, _)) => Err(f),
                                        }
                                    },
                                    Err((f, _)) => Err(f),
                                }
                            },
                            Err((f, _)) => Err(f),
                        }
                    },
                    Err((f, _)) => Err(f),
                }
            },
            Err((f, _)) => Err(f),
        }
    }

    /// Where each field was written in its place in `d`, the places ending
    /// at the offsets `o1`, `o2`, ..., reading `d` gives back the fields.
    proof fn lemma_fields_at(d: Seq<u8>, room: Seq<char>, username: Seq<char>, status: u32, stats: UserStats, slots_full: u32, country_code: Seq<char>, o1: int, o2: int, o3: int, o4: int, o5: int, o6: int)
        requires
            fits(room),
            fits(username),
            fits(country_code),
            o1 == 0 + string_field(room).len(),
            o2 == o1 + string_field(username).len(),
            o3 == o2 + u32_le(status).len(),
            o4 == o3 + stats_bytes(stats).len(),
            o5 == o4 + u32_le(slots_full).len(),
            o6 == o5 + string_field(country_code).len(),
            o6 <= d.len(),
            d.subrange(0, o1) == string_field(room),
            d.subrange(o1, o2) == string_field(username),
            d.subrange(o2, o3) == u32_le(status),
            d.subrange(o3, o4) == stats_bytes(stats),
            d.subrange(o4, o5) == u32_le(slots_full),
            d.subrange(o5, o6) == string_field(country_code),
        ensures
            Self::spec_decode(d) == Decoded::Ok((room, username, status, stats, slots_full, country_code)),
    {
        lemma_string_at(d, 0, room);
        lemma_string_at(d, o1, username);
        lemma_u32_at(d, o2, status);
        lemma_stats_at(d, o3, stats);
        lemma_u32_at(d, o4, slots_full);
        lemma_string_at(d, o5, country_code);
    }

    /// The fields written one after another in the order of the wire
    /// layout read back as themselves, each in its own place.
    pub proof fn lemma_decode_layout(room: Seq<char>, username: Seq<char>, status: u32, stats: UserStats, slots_full: u32, country_code: Seq<char>)
        requires
            fits(room),
            fits(username),
            fits(country_code),
        ensures
            Self::spec_decode(string_field(room) + string_field(username) + u32_le(status) + stats_bytes(stats) + u32_le(slots_full) + string_field(country_code)) == Decoded::Ok((room, username, status, stats, slots_full, country_code)),
    {
        let d = string_field(room) + string_field(username) + u32_le(status) + stats_bytes(stats) + u32_le(slots_full) + string_field(country_code);
        let q1 = string_field(room);
        let q2 = q1 + string_field(username);
        let q3 = q2 + u32_le(status);
        let q4 = q3 + stats_bytes(stats);
        let q5 = q4 + u32_le(slots_full);
        let q6 = q5 + string_field(country_code);
        assert(d.subrange(0, d.len() as int) =~= q6);
        lemma_piece_at(d, q5, string_field(country_code));
        lemma_piece_at(d, q4, u32_le(slots_full));
        lemma_piece_at(d, q3, stats_bytes(stats));
        lemma_piece_at(d, q2, u32_le(status));
        lemma_piece_at(d, q1, string_field(username));
        Self::lemma_fields_at(d, room, username, status, stats, slots_full, country_code, q1.len() as int, q2.len() as int, q3.len() as int, q4.len() as int, q5.len() as int, q6.len() as int);
    }

    pub fn decode(body: &[u8]) -> (res: Result<Self>)
        ensures
            decode_matches(res, Self::spec_decode(body@)),
    {
        let mut cur = ByteReader::new(body);
        let room = read_string(&mut cur)?;
        let username = read_string(&mut cur)?;
        let status = read_u32_le(&mut cur)?;
        let stats = read_stats(&mut cur)?;
        let slots_full = read_u32_le(&mut cur)?;
        let country_code = read_string(&mut cur)?;
        Ok(Self { room, username, status, stats, slots_full, country_code })
    }
}

// ── UserLeftRoom ──

#[derive(Debug, Clone)]
pub struct UserLeftRoom {
    pub room: String,
    pub username: String,
}

impl View for UserLeftRoom {
    type V = (Seq<char>, Seq<char>);

    open spec fn view(&self) -> Self::V {
        (self.room@, self.username@)
    }
}

impl UserLeftRoom {
    /// The fields read from the start of a body, in order.
    pub open spec fn spec_decode(d: Seq<u8>) -> Decoded<(Seq<char>, Seq<char>)> {
        match p_string(d, 0) {
            Ok((room, p1)) => {
                match p_string(d, p1) {
                    Ok((username, _)) => {
                        Ok((room, username))
                    },
                    Err((f, _)) => Err(f),
                }
            },
            Err((f, _)) => Err(f),
        }
    }

    /// Where each field was written in its place in `d`, the places ending
    /// at the offsets `o1`, `o2`, ..., reading `d` gives back the fields.
    proof fn lemma_fields_at(d: Seq<u8>, room: Seq<char>, username: Seq<char>, o1: int, o2: int)
        requires
            fits(room),
            fits(username),
            o1 == 0 + string_field(room).len(),
            o2 == o1 + string_field(username).len(),
            o2 <= d.len(),
            d.subrange(0, o1) == string_field(room),
            d.subrange(o1, o2) == string_field(username),
        ensures
            Self::spec_decode(d) == Decoded::Ok((room, username)),
    {
        lemma_string_at(d, 0, room);
        lemma_string_at(d, o1, username);
    }

    /// The fields written one after another in the order of the wire
    /// layout read back as themselves, each in its own place.
    pub proof fn lemma_decode_layout(room: Seq<char>, username: Seq<char>)
        requires
            fits(room),
            fits(username),
        ensures
            Self::spec_decode(string_field(room) + string_field(username)) == Decoded::Ok((room, username)),
    {
        let d = string_field(room) + string_field(username);
        let q1 = string_field(room);
        let q2 = q1 + string_field(username);
        assert(d.subrange(0, d.len() as int) =~= q2);
        lemma_piece_at(d, q1, string_field(username));
        Self::lemma_fields_at(d, room, username, q1.len() as int, q2.len() as int);
    }

    pub fn decode(body: &[u8]) -> (res: Result<Self>)
        ensures
            decode_matches(res, Self::spec_decode(body@)),
    {
        let mut cur = ByteReader::new(body);
        let room = read_string(&mut cur)?;
        let username = read_string(&mut cur)?;
        Ok(Self { room, username })
    }
}

// ── ConnectToPeerRequest ──

#[derive(Debug, Clone)]
pub struct ConnectToPeerRequest {
    pub token: u32,
    pub username: String,
    pub conn_type: String,
}

impl ConnectToPeerRequest {
    /// The body on the wire: token, username, conn type, in this order.
    pub open spec fn spec_body(&self) -> Seq<u8> {
        u32_le(self.token) + string_field(self.username@) + string_field(self.conn_type@)
    }

    /// The bytes on the wire, written out field by field, in this order.
    pub proof fn lemma_body_layout(m: Self)
        ensures
            m.spec_body() == (u32_le(m.token) + string_field(m.username@) + string_field(m.conn_type@)),
    {
    }

    pub fn encode(&self) -> (out: Vec<u8>)
        ensures
            out@ == frame_u32(code::CONNECT_TO_PEER, self.spec_body()),
    {
        let mut body = Vec::new();
        write_u32_le(&mut body, self.token);
        write_string(&mut body, self.username.as_str());
        write_string(&mut body, self.conn_type.as_str());
        frame_message_u32(code::CONNECT_TO_PEER, body.as_slice())
    }
}

// ── ConnectToPeerResponse ──

#[derive(Debug, Clone)]
pub struct ConnectToPeerResponse {
    pub username: String,
    pub conn_type: String,
    pub ip: u32,
    pub port: u32,
    pub token: u32,
    pub privileged: bool,
    pub obfuscation_type: u32,
    pub obfuscated_port: u32,
}

impl View for ConnectToPeerResponse {
    type V = (Seq<char>, Seq<char>, u32, u32, u32, bool, u32, u32);

    open spec fn view(&self) -> Self::V {
        (self.username@, self.conn_type@, self.ip, self.port, self.token, self.privileged, self.obfuscation_type, self.obfuscated_port)
    }
}

impl ConnectToPeerResponse {
    /// The fields read from the start of a body, in order.
    pub open spec fn spec_decode(d: Seq<u8>) -> Decoded<(Seq<char>, Seq<char>, u32, u32, u32, bool, u32, u32)> {
        match p_string(d, 0) {
            Ok((username, p1)) => {
                match p_string(d, p1) {
                    Ok((conn_type, p2)) => {
                        match p_u32(d, p2) {
                            Ok((ip, p3)) => {
                                match p_u32(d, p3) {
                                    Ok((port, p4)) => {
                                        match p_u32(d, p4) {
                                            Ok((token, p5)) => {
                                                match p_bool(d, p5) {
                                                    Ok((privileged, p6)) => {
                                                        match p_u32(d, p6) {
                                                            Ok((obfuscation_type, p7)) => {
                                                                match p_u32(d, p7) {
                                                                    Ok((obfuscated_port, _)) => {
                                                                        Ok((username, conn_type, ip, port, token, privileged, obfuscation_type, obfuscated_port))
                                                                    },
                                                                    Err((f, _)) => Err(f),
                                                                }
                                                            },
                                                            Err((f, _)) => Err(f),
                                                        }
                                                    },
                                                    Err((f, _)) => Err(f),
                                                }
                                            },
                                            Err((f, _)) => Err(f),
                                        }
                                    },
                                    Err((f, _)) => Err(f),
                                }
                            },
                            Err((f, _)) => Err(f),
                        }
                    },
                    Err((f, _)) => Err(f),
                }
            },
            Err((f, _)) => Err(f),
        }
    }

    /// Where each field was written in its place in `d`, the places ending
    /// at the offsets `o1`, `o2`, ..., reading `d` gives back the fields.
    proof fn lemma_fields_at(d: Seq<u8>, username: Seq<char>, conn_type: Seq<char>, ip: u32, port: u32, token: u32, privileged: bool, obfuscation_type: u32, obfuscated_port: u32, o1: int, o2: int, o3: int, o4: int, o5: int, o6: int, o7: int, o8: int)
        requires
            fits(username),
            fits(conn_type),
            o1 == 0 + string_field(username).len(),
            o2 == o1 + string_field(conn_type).len(),
            o3 == o2 + u32_le(ip).len(),
            o4 == o3 + u32_le(port).len(),
            o5 == o4 + u32_le(token).len(),
            o6 == o5 + bool_byte(privileged).len(),
            o7 == o6 + u32_le(obfuscation_type).len(),
            o8 == o7 + u32_le(obfuscated_port).len(),
            o8 <= d.len(),
            d.subrange(0, o1) == string_field(username),
            d.subrange(o1, o2) == string_field(conn_type),
            d.subrange(o2, o3) == u32_le(ip),
            d.subrange(o3, o4) == u32_le(port),
            d.subrange(o4, o5) == u32_le(token),
            d.subrange(o5, o6) == bool_byte(privileged),
            d.subrange(o6, o7) == u32_le(obfuscation_type),
            d.subrange(o7, o8) == u32_le(obfuscated_port),
        ensures
            Self::spec_decode(d) == Decoded::Ok((username, conn_type, ip, port, token, privileged, obfuscation_type, obfuscated_port)),
    {
        lemma_string_at(d, 0, username);
        lemma_string_at(d, o1, conn_type);
        lemma_u32_at(d, o2, ip);
        lemma_u32_at(d, o3, port);
        lemma_u32_at(d, o4, token);
        lemma_bool_at(d, o5, privileged);
        lemma_u32_at(d, o6, obfuscation_type);
        lemma_u32_at(d, o7, obfuscated_port);
    }

    /// The fields written one after another in the order of the wire
    /// layout read back as themselves, each in its own place.
    pub proof fn lemma_decode_layout(username: Seq<char>, conn_type: Seq<char>, ip: u32, port: u32, token: u32, privileged: bool, obfuscation_type: u32, obfuscated_port: u32)
        requires
            fits(username),
            fits(conn_type),
        ensures
            Self::spec_decode(string_field(username) + string_field(conn_type) + u32_le(ip) + u32_le(port) + u32_le(token) + bool_byte(privileged) + u32_le(obfuscation_type) + u32_le(obfuscated_port)) == Decoded::Ok((username, conn_type, ip, port, token, privileged, obfuscation_type, obfuscated_port)),
    {
        let d = string_field(username) + string_field(conn_type) + u32_le(ip) + u32_le(port) + u32_le(token) + bool_byte(privileged) + u32_le(obfuscation_type) + u32_le(obfuscated_port);
        let q1 = string_field(username);
        let q2 = q1 + string_field(conn_type);
        let q3 = q2 + u32_le(ip);
        let q4 = q3 + u32_le(port);
        let q5 = q4 + u32_le(token);
        let q6 = q5 + bool_byte(privileged);
        let q7 = q6 + u32_le(obfuscation_type);
        let q8 = q7 + u32_le(obfuscated_port);
        assert(d.subrange(0, d.len() as int) =~= q8);
        lemma_piece_at(d, q7, u32_le(obfuscated_port));
        lemma_piece_at(d, q6, u32_le(obfuscation_type));
        lemma_piece_at(d, q5, bool_byte(privileged));
        lemma_piece_at(d, q4, u32_le(token));
        lemma_piece_at(d, q3, u32_le(port));
        lemma_piece_at(d, q2, u32_le(ip));
        lemma_piece_at(d, q1, string_field(conn_type));
        Self::lemma_fields_at(d, username, conn_type, ip, port, token, privileged, obfuscation_type, obfuscated_port, q1.len() as int, q2.len() as int, q3.len() as int, q4.len() as int, q5.len() as int, q6.len() as int, q7.len() as int, q8.len() as int);
    }

    pub fn decode(body: &[u8]) -> (res: Result<Self>)
        ensures
            decode_matches(res, Self::spec_decode(body@)),
    {
        let mut cur = ByteReader::new(body);
        let username = read_string(&mut cur)?;
        let conn_type = read_string(&mut cur)?;
        let ip = read_u32_le(&mut cur)?;
        let port = read_u32_le(&mut cur)?;
        let token = read_u32_le(&mut cur)?;
        let privileged = read_bool(&mut cur)?;
        let obfuscation_type = read_u32_le(&mut cur)?;
        let obfuscated_port = read_u32_le(&mut cur)?;
        Ok(Self { username, conn_type, ip, port, token, privileged, obfuscation_type, obfuscated_port })
    }
}

// ── MessageUserSend ──

#[derive(Debug, Clone)]
pub struct MessageUserSend {
    pub username: String,
    pub message: String,
}

impl MessageUserSend {
    /// The body on the wire: username, message, in this order.
    pub open spec fn spec_body(&self) -> Seq<u8> {
        string_field(self.username@) + string_field(self.message@)
    }

    /// The bytes on the wire, written out field by field, in this order.
    pub proof fn lemma_body_layout(m: Self)
        ensures
            m.spec_body() == (string_field(m.username@) + string_field(m.message@)),
    {
    }

    pub fn encode(&self) -> (out: Vec<u8>)
        ensures
            out@ == frame_u32(code::MESSAGE_USER, self.spec_body()),
    {
        let mut body = Vec::new();
        write_string(&mut body, self.username.as_str());
        write_string(&mut body, self.message.as_str());
        frame_message_u32(code::MESSAGE_USER, body.as_slice())
    }
}

// ── MessageUserRecv ──

#[derive(Debug, Clone)]
pub struct MessageUserRecv {
    pub id: u32,
    pub timestamp: u32,
    pub username: String,
    pub message: String,
    pub new_message: bool,
}

impl View for MessageUserRecv {
    type V = (u32, u32, Seq<char>, Seq<char>, bool);

    open spec fn view(&self) -> Self::V {
        (self.id, self.timestamp, self.username@, self.message@, self.new_message)
    }
}

impl MessageUserRecv {
    /// The fields read from the start of a body, in order.
    pub open spec fn spec_decode(d: Seq<u8>) -> Decoded<(u32, u32, Seq<char>, Seq<char>, bool)> {
        match p_u32(d, 0) {
            Ok((id, p1)) => {
                match p_u32(d, p1) {
                    Ok((timestamp, p2)) => {
                        match p_string(d, p2) {
                            Ok((username, p3)) => {
                                match p_string(d, p3) {
                                    Ok((message, p4)) => {
                                        match p_bool(d, p4) {
                                            Ok((new_message, _)) => {
                                                Ok((id, timestamp, username, message, new_message))
                                            },
                                            Err((f, _)) => Err(f),
                                        }
                                    },
                                    Err((f, _)) => Err(f),
                                }
                            },
                            Err((f, _)) => Err(f),
                        }
                    },
                    Err((f, _)) => Err(f),
                }
            },
            Err((f, _)) => Err(f),
        }
    }

    /// Where each field was written in its place in `d`, the places ending
    /// at the offsets `o1`, `o2`, ..., reading `d` gives back the fields.
    proof fn lemma_fields_at(d: Seq<u8>, id: u32, timestamp: u32, username: Seq<char>, message: Seq<char>, new_message: bool, o1: int, o2: int, o3: int, o4: int, o5: int)
        requires
            fits(username),
            fits(message),
            o1 == 0 + u32_le(id).len(),
            o2 == o1 + u32_le(timestamp).len(),
            o3 == o2 + string_field(username).len(),
            o4 == o3 + string_field(message).len(),
            o5 == o4 + bool_byte(new_message).len(),
            o5 <= d.len(),
            d.subrange(0, o1) == u32_le(id),
            d.subrange(o1, o2) == u32_le(timestamp),
            d.subrange(o2, o3) == string_field(username),
            d.subrange(o3, o4) == string_field(message),
            d.subrange(o4, o5) == bool_byte(new_message),
        ensures
            Self::spec_decode(d) == Decoded::Ok((id, timestamp, username, message, new_message)),
    {
        lemma_u32_at(d, 0, id);
        lemma_u32_at(d, o1, timestamp);
        lemma_string_at(d, o2, username);
        lemma_string_at(d, o3, message);
        lemma_bool_at(d, o4, new_message);
    }

    /// The fields written one after another in the order of the wire
    /// layout read back as themselves, each in its own place.
    pub proof fn lemma_decode_layout(id: u32, timestamp: u32, username: Seq<char>, message: Seq<char>, new_message: bool)
        requires
            fits(username),
            fits(message),
        ensures
            Self::spec_decode(u32_le(id) + u32_le(timestamp) + string_field(username) + string_field(message) + bool_byte(new_message)) == Decoded::Ok((id, timestamp, username, message, new_message)),
    {
        let d = u32_le(id) + u32_le(timestamp) + string_field(username) + string_field(message) + bool_byte(new_message);
        let q1 = u32_le(id);
        let q2 = q1 + u32_le(timestamp);
        let q3 = q2 + string_field(username);
        let q4 = q3 + string_field(message);
        let q5 = q4 + bool_byte(new_message);
        assert(d.subrange(0, d.len() as int) =~= q5);
        lemma_piece_at(d, q4, bool_byte(new_message));
        lemma_piece_at(d, q3, string_field(message));
        lemma_piece_at(d, q2, string_field(username));
        lemma_piece_at(d, q1, u32_le(timestamp));
        Self::lemma_fields_at(d, id, timestamp, username, message, new_message, q1.len() as int, q2.len() as int, q3.len() as int, q4.len() as int, q5.len() as int);
    }

    pub fn decode(body: &[u8]) -> (res: Result<Self>)
        ensures
            decode_matches(res, Self::spec_decode(body@)),
    {
        let mut cur = ByteReader::new(body);
        let id = read_u32_le(&mut cur)?;
        let timestamp = read_u32_le(&mut cur)?;
        let username = read_string(&mut cur)?;
        let message = read_string(&mut cur)?;
        let new_message = read_bool(&mut cur)?;
        Ok(Self { id, timestamp, username, message, new_message })
    }
}

// ── MessageAcked ──

#[derive(Debug, Clone)]
pub struct MessageAcked {
    pub message_id: u32,
}

impl MessageAcked {
    /// The body on the wire: message id, in this order.
    pub open spec fn spec_body(&self) -> Seq<u8> {
        u32_le(self.message_id)
    }

    /// The bytes on the wire, written out field by field, in this order.
    pub proof fn lemma_body_layout(m: Self)
        ensures
            m.spec_body() == (u32_le(m.message_id)),
    {
    }

    pub fn encode(&self) -> (out: Vec<u8>)
        ensures
            out@ == frame_u32(code::MESSAGE_ACKED, self.spec_body()),
    {
        let mut body = Vec::new();
        write_u32_le(&mut body, self.message_id);
        frame_message_u32(code::MESSAGE_ACKED, body.as_slice())
    }
}

// ── FileSearchRequest ──

#[derive(Debug, Clone)]
pub struct FileSearchRequest {
    pub token: u32,
    pub query: String,
}

impl View for FileSearchRequest {
    type V = (u32, Seq<char>);

    open spec fn view(&self) -> Self::V {
        (self.token, self.query@)
    }
}

impl FileSearchRequest {
    /// The body on the wire: token, query, in this order.
    pub open spec fn spec_body(&self) -> Seq<u8> {
        u32_le(self.token) + string_field(self.query@)
    }

    /// The fields read from the start of a body, in order.
    pub open spec fn spec_decode(d: Seq<u8>) -> Decoded<(u32, Seq<char>)> {
        match p_u32(d, 0) {
            Ok((token, p1)) => {
                match p_string(d, p1) {
                    Ok((query, _)) => {
                        Ok((token, query))
                    },
                    Err((f, _)) => Err(f),
                }
            },
            Err((f, _)) => Err(f),
        }
    }

    /// Where each field was written in its place in `d`, the places ending
    /// at the offsets `o1`, `o2`, ..., reading `d` gives back the fields.
    proof fn lemma_fields_at(d: Seq<u8>, token: u32, query: Seq<char>, o1: int, o2: int)
        requires
            fits(query),
            o1 == 0 + u32_le(token).len(),
            o2 == o1 + string_field(query).len(),
            o2 <= d.len(),
            d.subrange(0, o1) == u32_le(token),
            d.subrange(o1, o2) == string_field(query),
        ensures
            Self::spec_decode(d) == Decoded::Ok((token, query)),
    {
        lemma_u32_at(d, 0, token);
        lemma_string_at(d, o1, query);
    }

    /// The fields written one after another in the order of the wire
    /// layout read back as themselves, each in its own place.
    pub proof fn lemma_decode_layout(token: u32, query: Seq<char>)
        requires
            fits(query),
        ensures
            Self::spec_decode(u32_le(token) + string_field(query)) == Decoded::Ok((token, query)),
    {
        let d = u32_le(token) + string_field(query);
        let q1 = u32_le(token);
        let q2 = q1 + string_field(query);
        assert(d.subrange(0, d.len() as int) =~= q2);
        lemma_piece_at(d, q1, string_field(query));
        Self::lemma_fields_at(d, token, query, q1.len() as int, q2.len() as int);
    }

    /// The body on the wire is the fields one after another, in this order.
    pub proof fn lemma_body_layout(m: Self)
        ensures
            m.spec_body() == u32_le(m.token) + string_field(m.query@),
    {
    }

    pub fn encode(&self) -> (out: Vec<u8>)
        ensures
            out@ == frame_u32(code::FILE_SEARCH, self.spec_body()),
    {
        let mut body = Vec::new();
        write_u32_le(&mut body, self.token);
        write_string(&mut body, self.query.as_str());
        frame_message_u32(code::FILE_SEARCH, body.as_slice())
    }

    pub fn decode(body: &[u8]) -> (res: Result<Self>)
        ensures
            decode_matches(res, Self::spec_decode(body@)),
    {
        let mut cur = ByteReader::new(body);
        let token = read_u32_le(&mut cur)?;
        let query = read_string(&mut cur)?;
        Ok(Self { token, query })
    }

    /// Decoding an encoded body gives back the message, when its strings fit their length prefix.
    pub proof fn lemma_roundtrip(m: Self)
        requires
            fits(m.query@),
        ensures
            Self::spec_decode(m.spec_body()) == Decoded::Ok(m@),
    {
        let d = m.spec_body();
        let n1 = 0int + 4;
        assert(d.subrange(0int, n1) =~= u32_le(m.token));
        lemma_u32_at(d, 0int, m.token);
        let n2 = n1 + string_field(m.query@).len();
        assert(d.subrange(n1, n2) =~= string_field(m.query@));
        lemma_string_at(d, n1, m.query@);
    }
}

// ── SetStatus ──

#[derive(Debug, Clone)]
pub struct SetStatus {
    pub status: i32,
}

impl SetStatus {
    /// The body on the wire: status, in this order.
    pub open spec fn spec_body(&self) -> Seq<u8> {
        i32_le(self.status)
    }

    /// The bytes on the wire, written out field by field, in this order.
    pub proof fn lemma_body_layout(m: Self)
        ensures
            m.spec_body() == (i32_le(m.status)),
    {
    }

    pub fn encode(&self) -> (out: Vec<u8>)
        ensures
            out@ == frame_u32(code::SET_STATUS, self.spec_body()),
    {
        let mut body = Vec::new();
        write_i32_le(&mut body, self.status);
        frame_message_u32(code::SET_STATUS, body.as_slice())
    }
}

// ── SharedFoldersFiles ──

#[derive(Debug, Clone)]
pub struct SharedFoldersFiles {
    pub dirs: u32,
    pub files: u32,
}

impl SharedFoldersFiles {
    /// The body on the wire: dirs, files, in this order.
    pub open spec fn spec_body(&self) -> Seq<u8> {
        u32_le(self.dirs) + u32_le(self.files)
    }

    /// The bytes on the wire, written out field by field, in this order.
    pub proof fn lemma_body_layout(m: Self)
        ensures
            m.spec_body() == (u32_le(m.dirs) + u32_le(m.files)),
    {
    }

    pub fn encode(&self) -> (out: Vec<u8>)
        ensures
            out@ == frame_u32(code::SHARED_FOLDERS_FILES, self.spec_body()),
    {
        let mut body = Vec::new();
        write_u32_le(&mut body, self.dirs);
        write_u32_le(&mut body, self.files);
        frame_message_u32(code::SHARED_FOLDERS_FILES, body.as_slice())
    }
}

// ── GetUserStatsRequest ──

#[derive(Debug, Clone)]
pub struct GetUserStatsRequest {
    pub username: String,
}

impl GetUserStatsRequest {
    /// The body on the wire: username, in this order.
    pub open spec fn spec_body(&self) -> Seq<u8> {
        string_field(self.username@)
    }

    /// The bytes on the wire, written out field by field, in this order.
    pub proof fn lemma_body_layout(m: Self)
        ensures
            m.spec_body() == (string_field(m.username@)),
    {
    }

    pub fn encode(&self) -> (out: Vec<u8>)
        ensures
            out@ == frame_u32(code::GET_USER_STATS, self.spec_body()),
    {
        let mut body = Vec::new();
        write_string(&mut body, self.username.as_str());
        frame_message_u32(code::GET_USER_STATS, body.as_slice())
    }
}

// ── GetUserStatsResponse ──

#[derive(Debug, Clone)]
pub struct GetUserStatsResponse {
    pub username: String,
    pub stats: UserStats,
}

impl View for GetUserStatsResponse {
    type V = (Seq<char>, UserStats);

    open spec fn view(&self) -> Self::V {
        (self.username@, self.stats)
    }
}

impl GetUserStatsResponse {
    /// The fields read from the start of a body, in order.
    pub open spec fn spec_decode(d: Seq<u8>) -> Decoded<(Seq<char>, UserStats)> {
        match p_string(d, 0) {
            Ok((username, p1)) => {
                match p_stats(d, p1) {
                    Ok((stats, _)) => {
                        Ok((username, stats))
                    },
                    Err((f, _)) => Err(f),
                }
            },
            Err((f, _)) => Err(f),
        }
    }

    /// Where each field was written in its place in `d`, the places ending
    /// at the offsets `o1`, `o2`, ..., reading `d` gives back the fields.
    proof fn lemma_fields_at(d: Seq<u8>, username: Seq<char>, stats: UserStats, o1: int, o2: int)
        requires
            fits(username),
            o1 == 0 + string_field(username).len(),
            o2 == o1 + stats_bytes(stats).len(),
            o2 <= d.len(),
            d.subrange(0, o1) == string_field(username),
            d.subrange(o1, o2) == stats_bytes(stats),
        ensures
            Self::spec_decode(d) == Decoded::Ok((username, stats)),
    {
        lemma_string_at(d, 0, username);
        lemma_stats_at(d, o1, stats);
    }

    /// The fields written one after another in the order of the wire
    /// layout read back as themselves, each in its own place.
    pub proof fn lemma_decode_layout(username: Seq<char>, stats: UserStats)
        requires
            fits(username),
        ensures
            Self::spec_decode(string_field(username) + stats_bytes(stats)) == Decoded::Ok((username, stats)),
    {
        let d = string_field(username) + stats_bytes(stats);
        let q1 = string_field(username);
        let q2 = q1 + stats_bytes(stats);
        assert(d.subrange(0, d.len() as int) =~= q2);
        lemma_piece_at(d, q1, stats_bytes(stats));
        Self::lemma_fields_at(d, username, stats, q1.len() as int, q2.len() as int);
    }

    pub fn decode(body: &[u8]) -> (res: Result<Self>)
        ensures
            decode_matches(res, Self::spec_decode(body@)),
    {
        let mut cur = ByteReader::new(body);
        let username = read_string(&mut cur)?;
        let stats = read_stats(&mut cur)?;
        Ok(Self { username, stats })
    }
}

// ── UserSearch ──

#[derive(Debug, Clone)]
pub struct UserSearch {
    pub username: String,
    pub token: u32,
    pub query: String,
}

impl UserSearch {
    /// The body on the wire: username, token, query, in this order.
    pub open spec fn spec_body(&self) -> Seq<u8> {
        string_field(self.username@) + u32_le(self.token) + string_field(self.query@)
    }

    /// The bytes on the wire, written out field by field, in this order.
    pub proof fn lemma_body_layout(m: Self)
        ensures
            m.spec_body() == (string_field(m.username@) + u32_le(m.token) + string_field(m.query@)),
    {
    }

    pub fn encode(&self) -> (out: Vec<u8>)
        ensures
            out@ == frame_u32(code::USER_SEARCH, self.spec_body()),
    {
        let mut body = Vec::new();
        write_string(&mut body, self.username.as_str());
        write_u32_le(&mut body, self.token);
        write_string(&mut body, self.query.as_str());
        frame_message_u32(code::USER_SEARCH, body.as_slice())
    }
}

// ── RecommendationEntry ──

#[derive(Debug, Clone)]
pub struct RecommendationEntry {
    pub item: String,
    pub score: i32,
}

/// A recommendation entry, by value.
pub type RecommendationEntryView = (Seq<char>, i32);

impl View for RecommendationEntry {
    type V = (Seq<char>, i32);

    open spec fn view(&self) -> Self::V {
        (self.item@, self.score)
    }
}

/// A recommendation entry: item, score, in this order.
pub open spec fn p_recommendation_entry(d: Seq<u8>, p: int) -> Step<RecommendationEntryView> {
    match p_string(d, p) {
        Ok((item, p1)) => {
            match p_i32(d, p1) {
                Ok((score, p2)) => {
                    Ok(((item, score), p2))
                },
                Err(e) => Err(e),
            }
        },
        Err(e) => Err(e),
    }
}

/// The recommendation entry item reader.
pub open spec fn recommendation_entry_item() -> spec_fn(Seq<u8>, int) -> Step<RecommendationEntryView> {
    |d: Seq<u8>, p: int| p_recommendation_entry(d, p)
}

/// A recommendation entry as written on the wire: its fields in order.
pub open spec fn recommendation_entry_bytes(e: RecommendationEntryView) -> Seq<u8> {
    string_field(e.0) + i32_le(e.1)
}

/// Reading a recommendation entry where one was written gives it back.
pub proof fn lemma_recommendation_entry_at(d: Seq<u8>, p: int, e: RecommendationEntryView)
    requires
        0 <= p,
        fits(e.0),
        p + recommendation_entry_bytes(e).len() <= d.len(),
        d.subrange(p, p + recommendation_entry_bytes(e).len()) == recommendation_entry_bytes(e),
    ensures
        p_recommendation_entry(d, p) == Step::Ok((e, p + recommendation_entry_bytes(e).len())),
{
    let w = recommendation_entry_bytes(e);
    let n0: int = 0;
    assert(w.subrange(n0, n0 + string_field(e.0).len()) =~= string_field(e.0));
    lemma_sub_at(d, p, w, n0, string_field(e.0));
    lemma_string_at(d, p + n0, e.0);
    let n1: int = n0 + string_field(e.0).len();
    assert(w.subrange(n1, n1 + i32_le(e.1).len()) =~= i32_le(e.1));
    lemma_sub_at(d, p, w, n1, i32_le(e.1));
    lemma_i32_at(d, p + n1, e.1);
}

/// Recommendation entries as a counted list on the wire.
pub open spec fn recommendation_entry_list_bytes(xs: Seq<RecommendationEntryView>) -> Seq<u8> {
    counted_bytes(xs, |e: RecommendationEntryView| recommendation_entry_bytes(e))
}

/// Every string field of recommendation entries fits its `u32` length prefix.
pub open spec fn recommendation_entry_list_fits(xs: Seq<RecommendationEntryView>) -> bool {
    forall|k: int| 0 <= k < xs.len() ==> #[trigger] recommendation_entry_fits(xs[k])
}

/// The string fields of a recommendation entry fit their `u32` length prefixes.
pub open spec fn recommendation_entry_fits(e: RecommendationEntryView) -> bool {
    fits(e.0)
}

/// Reading a counted list of recommendation entries where one was written gives it back.
pub proof fn lemma_recommendation_entry_list_at(d: Seq<u8>, p: int, xs: Seq<RecommendationEntryView>)
    requires
        0 <= p,
        xs.len() <= u32::MAX,
        recommendation_entry_list_fits(xs),
        p + recommendation_entry_list_bytes(xs).len() <= d.len(),
        d.subrange(p, p + recommendation_entry_list_bytes(xs).len()) == recommendation_entry_list_bytes(xs),
    ensures
        p_counted(d, p, recommendation_entry_item()) == Step::Ok((xs, p + recommendation_entry_list_bytes(xs).len())),
{
    let enc = |e: RecommendationEntryView| recommendation_entry_bytes(e);
    let good = |e: RecommendationEntryView| recommendation_entry_fits(e);
    assert forall|e: RecommendationEntryView, q: int|
        #![trigger good(e), recommendation_entry_item()(d, q)]
        good(e) && 0 <= q && q + enc(e).len() <= d.len() && d.subrange(q, q + enc(e).len()) == enc(e) implies recommendation_entry_item()(
            d,
            q,
        ) == Step::Ok((e, q + enc(e).len())) by {
        lemma_recommendation_entry_at(d, q, e);
    }
    assert forall|k: int| 0 <= k < xs.len() implies #[trigger] good(xs[k]) by {
        assert(recommendation_entry_fits(xs[k]));
    }
    lemma_counted_at(d, p, xs, enc, recommendation_entry_item(), good);
}


fn read_recommendation_entry(cur: &mut ByteReader) -> (res: Result<RecommendationEntry>)
    ensures
        final(cur).bytes() == old(cur).bytes(),
        step_matches(res, final(cur).pos(), p_recommendation_entry(old(cur).bytes(), old(cur).pos())),
{
    let item = read_string(cur)?;
    let score = read_i32_le(cur)?;
    Ok(RecommendationEntry { item, score })
}

fn read_recommendation_entry_list(cur: &mut ByteReader, n: u32) -> (res: Result<Vec<RecommendationEntry>>)
    ensures
        final(cur).bytes() == old(cur).bytes(),
        step_matches_list(res, final(cur).pos(), p_list(old(cur).bytes(), old(cur).pos(), n as nat, recommendation_entry_item())),
{
    let ghost d = cur.bytes();
    let ghost p0 = cur.pos();
    let mut out: Vec<RecommendationEntry> = Vec::new();
    let mut i: u32 = 0;
    assert(views(out@) =~= Seq::empty());
    while i < n
        invariant
            d == old(cur).bytes(),
            p0 == old(cur).pos(),
            cur.bytes() == d,
            i <= n,
            p_list(d, p0, i as nat, recommendation_entry_item()) == Step::Ok((views(out@), cur.pos())),
        decreases n - i,
    {
        let ghost before = out@;
        match read_recommendation_entry(cur) {
            Ok(x) => {
                let ghost xv = x@;
                out.push(x);
                i = i + 1;
                assert(views(out@) =~= views(before).push(xv));
            },
            Err(e) => {
                proof {
                    lemma_list_err(d, p0, (i + 1) as nat, n as nat, recommendation_entry_item());
                }
                return Err(e);
            },
        }
    }
    Ok(out)
}

// ── RecommendationsResponse ──

#[derive(Debug, Clone)]
pub struct RecommendationsResponse {
    pub recommendations: Vec<RecommendationEntry>,
    pub unrecommendations: Vec<RecommendationEntry>,
}

impl View for RecommendationsResponse {
    type V = (Seq<RecommendationEntryView>, Seq<RecommendationEntryView>);

    open spec fn view(&self) -> Self::V {
        (views(self.recommendations@), views(self.unrecommendations@))
    }
}

impl RecommendationsResponse {
    /// The fields read from the start of a body, in order.
    pub open spec fn spec_decode(d: Seq<u8>) -> Decoded<(Seq<RecommendationEntryView>, Seq<RecommendationEntryView>)> {
        match p_counted(d, 0, recommendation_entry_item()) {
            Ok((recommendations, p1)) => {
                match p_counted(d, p1, recommendation_entry_item()) {
                    Ok((unrecommendations, _)) => {
                        Ok((recommendations, unrecommendations))
                    },
                    Err((f, _)) => Err(f),
                }
            },
            Err((f, _)) => Err(f),
        }
    }

    /// Where each field was written in its place in `d`, the places ending
    /// at the offsets `o1`, `o2`, ..., reading `d` gives back the fields.
    proof fn lemma_fields_at(d: Seq<u8>, recommendations: Seq<RecommendationEntryView>, unrecommendations: Seq<RecommendationEntryView>, o1: int, o2: int)
        requires
            recommendations.len() <= u32::MAX,
            recommendation_entry_list_fits(recommendations),
            unrecommendations.len() <= u32::MAX,
            recommendation_entry_list_fits(unrecommendations),
            o1 == 0 + recommendation_entry_list_bytes(recommendations).len(),
            o2 == o1 + recommendation_entry_list_bytes(unrecommendations).len(),
            o2 <= d.len(),
            d.subrange(0, o1) == recommendation_entry_list_bytes(recommendations),
            d.subrange(o1, o2) == recommendation_entry_list_bytes(unrecommendations),
        ensures
            Self::spec_decode(d) == Decoded::Ok((recommendations, unrecommendations)),
    {
        lemma_recommendation_entry_list_at(d, 0, recommendations);
        lemma_recommendation_entry_list_at(d, o1, unrecommendations);
    }

    /// The recommendations, then the unrecommendations, each a counted list
    /// of items with their scores, read back as themselves, in their order.
    pub proof fn lemma_decode_layout(recommendations: Seq<RecommendationEntryView>, unrecommendations: Seq<RecommendationEntryView>)
        requires
            recommendations.len() <= u32::MAX,
            recommendation_entry_list_fits(recommendations),
            unrecommendations.len() <= u32::MAX,
            recommendation_entry_list_fits(unrecommendations),
        ensures
            Self::spec_decode(recommendation_entry_list_bytes(recommendations) + recommendation_entry_list_bytes(unrecommendations)) == Decoded::Ok((recommendations, unrecommendations)),
    {
        let d = recommendation_entry_list_bytes(recommendations) + recommendation_entry_list_bytes(unrecommendations);
        let q1 = recommendation_entry_list_bytes(recommendations);
        let q2 = q1 + recommendation_entry_list_bytes(unrecommendations);
        assert(d.subrange(0, d.len() as int) =~= q2);
        lemma_piece_at(d, q1, recommendation_entry_list_bytes(unrecommendations));
        Self::lemma_fields_at(d, recommendations, unrecommendations, q1.len() as int, q2.len() as int);
    }

    pub fn decode(body: &[u8]) -> (res: Result<Self>)
        ensures
            decode_matches(res, Self::spec_decode(body@)),
    {
        let mut cur = ByteReader::new(body);
        let n_recommendations = read_u32_le(&mut cur)?;
        let recommendations = read_recommendation_entry_list(&mut cur, n_recommendations)?;
        let n_unrecommendations = read_u32_le(&mut cur)?;
        let unrecommendations = read_recommendation_entry_list(&mut cur, n_unrecommendations)?;
        Ok(Self { recommendations, unrecommendations })
    }
}

// ── UserInterestsResponse ──

#[derive(Debug, Clone)]
pub struct UserInterestsResponse {
    pub username: String,
    pub liked: Vec<String>,
    pub hated: Vec<String>,
}

impl View for UserInterestsResponse {
    type V = (Seq<char>, Seq<Seq<char>>, Seq<Seq<char>>);

    open spec fn view(&self) -> Self::V {
        (self.username@, views(self.liked@), views(self.hated@))
    }
}

impl UserInterestsResponse {
    /// The fields read from the start of a body, in order.
    pub open spec fn spec_decode(d: Seq<u8>) -> Decoded<(Seq<char>, Seq<Seq<char>>, Seq<Seq<char>>)> {
        match p_string(d, 0) {
            Ok((username, p1)) => {
                match p_counted(d, p1, string_item()) {
                    Ok((liked, p2)) => {
                        match p_counted(d, p2, string_item()) {
                            Ok((hated, _)) => {
                                Ok((username, liked, hated))
                            },
                            Err((f, _)) => Err(f),
                        }
                    },
                    Err((f, _)) => Err(f),
                }
            },
            Err((f, _)) => Err(f),
        }
    }

    /// Where each field was written in its place in `d`, the places ending
    /// at the offsets `o1`, `o2`, ..., reading `d` gives back the fields.
    proof fn lemma_fields_at(d: Seq<u8>, username: Seq<char>, liked: Seq<Seq<char>>, hated: Seq<Seq<char>>, o1: int, o2: int, o3: int)
        requires
            fits(username),
            liked.len() <= u32::MAX,
            all_fit(liked),
            hated.len() <= u32::MAX,
            all_fit(hated),
            o1 == 0 + string_field(username).len(),
            o2 == o1 + strings_bytes(liked).len(),
            o3 == o2 + strings_bytes(hated).len(),
            o3 <= d.len(),
            d.subrange(0, o1) == string_field(username),
            d.subrange(o1, o2) == strings_bytes(liked),
            d.subrange(o2, o3) == strings_bytes(hated),
        ensures
            Self::spec_decode(d) == Decoded::Ok((username, liked, hated)),
    {
        lemma_string_at(d, 0, username);
        lemma_strings_at(d, o1, liked);
        lemma_strings_at(d, o2, hated);
    }

    /// The user, then the liked and the hated interests as counted lists,
    /// read back as themselves, each in its own place.
    pub proof fn lemma_decode_layout(username: Seq<char>, liked: Seq<Seq<char>>, hated: Seq<Seq<char>>)
        requires
            fits(username),
            liked.len() <= u32::MAX,
            all_fit(liked),
            hated.len() <= u32::MAX,
            all_fit(hated),
        ensures
            Self::spec_decode(string_field(username) + strings_bytes(liked) + strings_bytes(hated)) == Decoded::Ok((username, liked, hated)),
    {
        let d = string_field(username) + strings_bytes(liked) + strings_bytes(hated);
        let q1 = string_field(username);
        let q2 = q1 + strings_bytes(liked);
        let q3 = q2 + strings_bytes(hated);
        assert(d.subrange(0, d.len() as int) =~= q3);
        lemma_piece_at(d, q2, strings_bytes(hated));
        lemma_piece_at(d, q1, strings_bytes(liked));
        Self::lemma_fields_at(d, username, liked, hated, q1.len() as int, q2.len() as int, q3.len() as int);
    }

    pub fn decode(body: &[u8]) -> (res: Result<Self>)
        ensures
            decode_matches(res, Self::spec_decode(body@)),
    {
        let mut cur = ByteReader::new(body);
        let username = read_string(&mut cur)?;
        let n_liked = read_u32_le(&mut cur)?;
        let liked = read_string_list(&mut cur, n_liked)?;
        let n_hated = read_u32_le(&mut cur)?;
        let hated = read_string_list(&mut cur, n_hated)?;
        Ok(Self { username, liked, hated })
    }
}

#[derive(Debug, Clone)]
pub struct RoomEntry {
    pub name: String,
    pub user_count: u32,
}

impl View for RoomEntry {
    type V = (Seq<char>, u32);

    open spec fn view(&self) -> (Seq<char>, u32) {
        (self.name@, self.user_count)
    }
}

/// Room names paired with user counts by index, as far as both lists go.
pub open spec fn zip_rooms(names: Seq<Seq<char>>, counts: Seq<u32>) -> Seq<(Seq<char>, u32)> {
    Seq::new(if names.len() <= counts.len() { names.len() } else { counts.len() }, |i: int| (names[i], counts[i]))
}

fn zip_room_entries(names: &Vec<String>, counts: &Vec<u32>) -> (rooms: Vec<RoomEntry>)
    ensures
        views(rooms@) == zip_rooms(views(names@), counts@),
{
    let ghost target = zip_rooms(views(names@), counts@);
    let n = if names.len() <= counts.len() {
        names.len()
    } else {
        counts.len()
    };
    let mut rooms: Vec<RoomEntry> = Vec::new();
    let mut i: usize = 0;
    assert(views(rooms@) =~= target.take(0));
    while i < n
        invariant
            i <= n,
            n == target.len(),
            n <= names@.len(),
            n <= counts@.len(),
            target == zip_rooms(views(names@), counts@),
            views(rooms@) == target.take(i as int),
        decreases n - i,
    {
        let ghost before = rooms@;
        rooms.push(RoomEntry { name: names[i].clone(), user_count: counts[i] });
        assert(views(rooms@) =~= target.take(i + 1)) by {
            assert(views(rooms@) =~= views(before).push(target[i as int]));
        }
        i = i + 1;
    }
    assert(target.take(n as int) =~= target);
    rooms
}

#[derive(Debug, Clone)]
pub struct RoomListResponse {
    pub public_rooms: Vec<RoomEntry>,
    pub owned_private_rooms: Vec<RoomEntry>,
    pub private_rooms: Vec<RoomEntry>,
    pub operated_private_rooms: Vec<String>,
}

/// A room list, by value.
pub type RoomListView = (Seq<(Seq<char>, u32)>, Seq<(Seq<char>, u32)>, Seq<(Seq<char>, u32)>, Seq<Seq<char>>);

impl View for RoomListResponse {
    type V = RoomListView;

    open spec fn view(&self) -> RoomListView {
        (
            views(self.public_rooms@),
            views(self.owned_private_rooms@),
            views(self.private_rooms@),
            views(self.operated_private_rooms@),
        )
    }
}

impl RoomListResponse {
    /// The body read back: for public, owned private and private rooms in
    /// turn, a counted list of names and a counted list of user counts,
    /// paired by index; then a counted list of operated private rooms.
    pub open spec fn spec_decode(d: Seq<u8>) -> Decoded<RoomListView> {
        match p_counted(d, 0, string_item()) {
            Ok((names, p1)) => match p_counted(d, p1, u32_item()) {
                Ok((counts, p2)) => match p_counted(d, p2, string_item()) {
                    Ok((owned_names, p3)) => match p_counted(d, p3, u32_item()) {
                        Ok((owned_counts, p4)) => match p_counted(d, p4, string_item()) {
                            Ok((priv_names, p5)) => match p_counted(d, p5, u32_item()) {
                                Ok((priv_counts, p6)) => match p_counted(d, p6, string_item()) {
                                    Ok((operated, _)) => Ok(
                                        (
                                            zip_rooms(names, counts),
                                            zip_rooms(owned_names, owned_counts),
                                            zip_rooms(priv_names, priv_counts),
                                            operated,
                                        ),
                                    ),
                                    Err((f, _)) => Err(f),
                                },
                                Err((f, _)) => Err(f),
                            },
                            Err((f, _)) => Err(f),
                        },
                        Err((f, _)) => Err(f),
                    },
                    Err((f, _)) => Err(f),
                },
                Err((f, _)) => Err(f),
            },
            Err((f, _)) => Err(f),
        }
    }

    /// Where each field was written in its place in `d`, the places ending
    /// at the offsets `o1`, `o2`, ..., reading `d` gives back the fields.
    proof fn lemma_fields_at(d: Seq<u8>, names: Seq<Seq<char>>, counts: Seq<u32>, owned_names: Seq<Seq<char>>, owned_counts: Seq<u32>, priv_names: Seq<Seq<char>>, priv_counts: Seq<u32>, operated: Seq<Seq<char>>, o1: int, o2: int, o3: int, o4: int, o5: int, o6: int, o7: int)
        requires
            names.len() <= u32::MAX,
            all_fit(names),
            counts.len() <= u32::MAX,
            owned_names.len() <= u32::MAX,
            all_fit(owned_names),
            owned_counts.len() <= u32::MAX,
            priv_names.len() <= u32::MAX,
            all_fit(priv_names),
            priv_counts.len() <= u32::MAX,
            operated.len() <= u32::MAX,
            all_fit(operated),
            o1 == 0 + strings_bytes(names).len(),
            o2 == o1 + u32s_bytes(counts).len(),
            o3 == o2 + strings_bytes(owned_names).len(),
            o4 == o3 + u32s_bytes(owned_counts).len(),
            o5 == o4 + strings_bytes(priv_names).len(),
            o6 == o5 + u32s_bytes(priv_counts).len(),
            o7 == o6 + strings_bytes(operated).len(),
            o7 <= d.len(),
            d.subrange(0, o1) == strings_bytes(names),
            d.subrange(o1, o2) == u32s_bytes(counts),
            d.subrange(o2, o3) == strings_bytes(owned_names),
            d.subrange(o3, o4) == u32s_bytes(owned_counts),
            d.subrange(o4, o5) == strings_bytes(priv_names),
            d.subrange(o5, o6) == u32s_bytes(priv_counts),
            d.subrange(o6, o7) == strings_bytes(operated),
        ensures
            Self::spec_decode(d) == Decoded::Ok((zip_rooms(names, counts), zip_rooms(owned_names, owned_counts), zip_rooms(priv_names, priv_counts), operated)),
    {
        lemma_strings_at(d, 0, names);
        lemma_u32s_at(d, o1, counts);
        lemma_strings_at(d, o2, owned_names);
        lemma_u32s_at(d, o3, owned_counts);
        lemma_strings_at(d, o4, priv_names);
        lemma_u32s_at(d, o5, priv_counts);
        lemma_strings_at(d, o6, operated);
    }

    /// Names and user counts of public, owned private and private rooms, each
    /// as two counted lists, then the operated private rooms: each room is
    /// paired with the count at its own index, and the lists keep their order.
    pub proof fn lemma_decode_layout(names: Seq<Seq<char>>, counts: Seq<u32>, owned_names: Seq<Seq<char>>, owned_counts: Seq<u32>, priv_names: Seq<Seq<char>>, priv_counts: Seq<u32>, operated: Seq<Seq<char>>)
        requires
            names.len() <= u32::MAX,
            all_fit(names),
            counts.len() <= u32::MAX,
            owned_names.len() <= u32::MAX,
            all_fit(owned_names),
            owned_counts.len() <= u32::MAX,
            priv_names.len() <= u32::MAX,
            all_fit(priv_names),
            priv_counts.len() <= u32::MAX,
            operated.len() <= u32::MAX,
            all_fit(operated),
        ensures
            Self::spec_decode(strings_bytes(names) + u32s_bytes(counts) + strings_bytes(owned_names) + u32s_bytes(owned_counts) + strings_bytes(priv_names) + u32s_bytes(priv_counts) + strings_bytes(operated)) == Decoded::Ok((zip_rooms(names, counts), zip_rooms(owned_names, owned_counts), zip_rooms(priv_names, priv_counts), operated)),
    {
        let d = strings_bytes(names) + u32s_bytes(counts) + strings_bytes(owned_names) + u32s_bytes(owned_counts) + strings_bytes(priv_names) + u32s_bytes(priv_counts) + strings_bytes(operated);
        let q1 = strings_bytes(names);
        let q2 = q1 + u32s_bytes(counts);
        let q3 = q2 + strings_bytes(owned_names);
        let q4 = q3 + u32s_bytes(owned_counts);
        let q5 = q4 + strings_bytes(priv_names);
        let q6 = q5 + u32s_bytes(priv_counts);
        let q7 = q6 + strings_bytes(operated);
        assert(d.subrange(0, d.len() as int) =~= q7);
        lemma_piece_at(d, q6, strings_bytes(operated));
        lemma_piece_at(d, q5, u32s_bytes(priv_counts));
        lemma_piece_at(d, q4, strings_bytes(priv_names));
        lemma_piece_at(d, q3, u32s_bytes(owned_counts));
        lemma_piece_at(d, q2, strings_bytes(owned_names));
        lemma_piece_at(d, q1, u32s_bytes(counts));
        Self::lemma_fields_at(d, names, counts, owned_names, owned_counts, priv_names, priv_counts, operated, q1.len() as int, q2.len() as int, q3.len() as int, q4.len() as int, q5.len() as int, q6.len() as int, q7.len() as int);
    }

    pub fn decode(body: &[u8]) -> (res: Result<Self>)
        ensures
            decode_matches(res, Self::spec_decode(body@)),
    {
        let mut cur = ByteReader::new(body);
        let n = read_u32_le(&mut cur)?;
        let names = read_string_list(&mut cur, n)?;
        let n2 = read_u32_le(&mut cur)?;
        let counts = read_u32_list(&mut cur, n2)?;
        proof {
            assert(counts@ =~= views(counts@));
        }
        let public_rooms = zip_room_entries(&names, &counts);

        let no = read_u32_le(&mut cur)?;
        let owned_names = read_string_list(&mut cur, no)?;
        let no2 = read_u32_le(&mut cur)?;
        let owned_counts = read_u32_list(&mut cur, no2)?;
        proof {
            assert(owned_counts@ =~= views(owned_counts@));
        }
        let owned_private_rooms = zip_room_entries(&owned_names, &owned_counts);

        let np = read_u32_le(&mut cur)?;
        let priv_names = read_string_list(&mut cur, np)?;
        let np2 = read_u32_le(&mut cur)?;
        let priv_counts = read_u32_list(&mut cur, np2)?;
        proof {
            assert(priv_counts@ =~= views(priv_counts@));
        }
        let private_rooms = zip_room_entries(&priv_names, &priv_counts);

        let nop = read_u32_le(&mut cur)?;
        let operated_private_rooms = read_string_list(&mut cur, nop)?;

        Ok(Self { public_rooms, owned_private_rooms, private_rooms, operated_private_rooms })
    }
}


// ── PrivilegedUsers ──

#[derive(Debug, Clone)]
pub struct PrivilegedUsers {
    pub users: Vec<String>,
}

impl View for PrivilegedUsers {
    type V = Seq<Seq<char>>;

    open spec fn view(&self) -> Self::V {
        views(self.users@)
    }
}

impl PrivilegedUsers {
    /// The fields read from the start of a body, in order.
    pub open spec fn spec_decode(d: Seq<u8>) -> Decoded<Seq<Seq<char>>> {
        match p_counted(d, 0, string_item()) {
            Ok((users, _)) => {
                Ok(users)
            },
            Err((f, _)) => Err(f),
        }
    }

    /// A counted list of names reads back as that list, in its order.
    pub proof fn lemma_decode_layout(users: Seq<Seq<char>>)
        requires
            users.len() <= u32::MAX,
            all_fit(users),
        ensures
            Self::spec_decode(strings_bytes(users)) == Decoded::Ok(users),
    {
        let d = strings_bytes(users);
        let q1 = strings_bytes(users);
        assert(d.subrange(0, d.len() as int) =~= q1);
        lemma_strings_at(d, 0, users);
    }

    pub fn decode(body: &[u8]) -> (res: Result<Self>)
        ensures
            decode_matches(res, Self::spec_decode(body@)),
    {
        let mut cur = ByteReader::new(body);
        let n_users = read_u32_le(&mut cur)?;
        let users = read_string_list(&mut cur, n_users)?;
        Ok(Self { users })
    }
}

// ── HaveNoParent ──

#[derive(Debug, Clone)]
pub struct HaveNoParent {
    pub no_parent: bool,
}

impl HaveNoParent {
    /// The body on the wire: no parent, in this order.
    pub open spec fn spec_body(&self) -> Seq<u8> {
        bool_byte(self.no_parent)
    }

    /// The bytes on the wire, written out field by field, in this order.
    pub proof fn lemma_body_layout(m: Self)
        ensures
            m.spec_body() == (bool_byte(m.no_parent)),
    {
    }

    pub fn encode(&self) -> (out: Vec<u8>)
        ensures
            out@ == frame_u32(code::HAVE_NO_PARENT, self.spec_body()),
    {
        let mut body = Vec::new();
        write_bool(&mut body, self.no_parent);
        frame_message_u32(code::HAVE_NO_PARENT, body.as_slice())
    }
}

// ── ParentMinSpeed ──

#[derive(Debug, Clone)]
pub struct ParentMinSpeed {
    pub speed: u32,
}

impl View for ParentMinSpeed {
    type V = u32;

    open spec fn view(&self) -> Self::V {
        self.speed
    }
}

impl ParentMinSpeed {
    /// The fields read from the start of a body, in order.
    pub open spec fn spec_decode(d: Seq<u8>) -> Decoded<u32> {
        match p_u32(d, 0) {
            Ok((speed, _)) => {
                Ok(speed)
            },
            Err((f, _)) => Err(f),
        }
    }

    /// Where each field was written in its place in `d`, the places ending
    /// at the offsets `o1`, `o2`, ..., reading `d` gives back the fields.
    proof fn lemma_fields_at(d: Seq<u8>, speed: u32, o1: int)
        requires
            o1 == 0 + u32_le(speed).len(),
            o1 <= d.len(),
            d.subrange(0, o1) == u32_le(speed),
        ensures
            Self::spec_decode(d) == Decoded::Ok(speed),
    {
        lemma_u32_at(d, 0, speed);
    }

    /// The fields written one after another in the order of the wire
    /// layout read back as themselves, each in its own place.
    pub proof fn lemma_decode_layout(speed: u32)
        ensures
            Self::spec_decode(u32_le(speed)) == Decoded::Ok(speed),
    {
        let d = u32_le(speed);
        let q1 = u32_le(speed);
        assert(d.subrange(0, d.len() as int) =~= q1);
        Self::lemma_fields_at(d, speed, q1.len() as int);
    }

    pub fn decode(body: &[u8]) -> (res: Result<Self>)
        ensures
            decode_matches(res, Self::spec_decode(body@)),
    {
        let mut cur = ByteReader::new(body);
        let speed = read_u32_le(&mut cur)?;
        Ok(Self { speed })
    }
}

// ── ParentSpeedRatio ──

#[derive(Debug, Clone)]
pub struct ParentSpeedRatio {
    pub ratio: u32,
}

impl View for ParentSpeedRatio {
    type V = u32;

    open spec fn view(&self) -> Self::V {
        self.ratio
    }
}

impl ParentSpeedRatio {
    /// The fields read from the start of a body, in order.
    pub open spec fn spec_decode(d: Seq<u8>) -> Decoded<u32> {
        match p_u32(d, 0) {
            Ok((ratio, _)) => {
                Ok(ratio)
            },
            Err((f, _)) => Err(f),
        }
    }

    /// Where each field was written in its place in `d`, the places ending
    /// at the offsets `o1`, `o2`, ..., reading `d` gives back the fields.
    proof fn lemma_fields_at(d: Seq<u8>, ratio: u32, o1: int)
        requires
            o1 == 0 + u32_le(ratio).len(),
            o1 <= d.len(),
            d.subrange(0, o1) == u32_le(ratio),
        ensures
            Self::spec_decode(d) == Decoded::Ok(ratio),
    {
        lemma_u32_at(d, 0, ratio);
    }

    /// The fields written one after another in the order of the wire
    /// layout read back as themselves, each in its own place.
    pub proof fn lemma_decode_layout(ratio: u32)
        ensures
            Self::spec_decode(u32_le(ratio)) == Decoded::Ok(ratio),
    {
        let d = u32_le(ratio);
        let q1 = u32_le(ratio);
        assert(d.subrange(0, d.len() as int) =~= q1);
        Self::lemma_fields_at(d, ratio, q1.len() as int);
    }

    pub fn decode(body: &[u8]) -> (res: Result<Self>)
        ensures
            decode_matches(res, Self::spec_decode(body@)),
    {
        let mut cur = ByteReader::new(body);
        let ratio = read_u32_le(&mut cur)?;
        Ok(Self { ratio })
    }
}

// ── CheckPrivilegesResponse ──

#[derive(Debug, Clone)]
pub struct CheckPrivilegesResponse {
    pub time_left: u32,
}

impl View for CheckPrivilegesResponse {
    type V = u32;

    open spec fn view(&self) -> Self::V {
        self.time_left
    }
}

impl CheckPrivilegesResponse {
    /// The empty request for the remaining privilege time.
    pub fn encode_request() -> (out: Vec<u8>)
        ensures
            out@ == frame_u32(code::CHECK_PRIVILEGES, Seq::empty()),
    {
        let empty: Vec<u8> = Vec::new();
        frame_message_u32(code::CHECK_PRIVILEGES, empty.as_slice())
    }

    /// The fields read from the start of a body, in order.
    pub open spec fn spec_decode(d: Seq<u8>) -> Decoded<u32> {
        match p_u32(d, 0) {
            Ok((time_left, _)) => {
                Ok(time_left)
            },
            Err((f, _)) => Err(f),
        }
    }

    /// Where each field was written in its place in `d`, the places ending
    /// at the offsets `o1`, `o2`, ..., reading `d` gives back the fields.
    proof fn lemma_fields_at(d: Seq<u8>, time_left: u32, o1: int)
        requires
            o1 == 0 + u32_le(time_left).len(),
            o1 <= d.len(),
            d.subrange(0, o1) == u32_le(time_left),
        ensures
            Self::spec_decode(d) == Decoded::Ok(time_left),
    {
        lemma_u32_at(d, 0, time_left);
    }

    /// The fields written one after another in the order of the wire
    /// layout read back as themselves, each in its own place.
    pub proof fn lemma_decode_layout(time_left: u32)
        ensures
            Self::spec_decode(u32_le(time_left)) == Decoded::Ok(time_left),
    {
        let d = u32_le(time_left);
        let q1 = u32_le(time_left);
        assert(d.subrange(0, d.len() as int) =~= q1);
        Self::lemma_fields_at(d, time_left, q1.len() as int);
    }

    pub fn decode(body: &[u8]) -> (res: Result<Self>)
        ensures
            decode_matches(res, Self::spec_decode(body@)),
    {
        let mut cur = ByteReader::new(body);
        let time_left = read_u32_le(&mut cur)?;
        Ok(Self { time_left })
    }
}

#[derive(Debug, Clone)]
pub struct EmbeddedMessage {
    pub distributed_code: u8,
    pub distributed_message: Vec<u8>,
}

impl View for EmbeddedMessage {
    type V = (u8, Seq<u8>);

    open spec fn view(&self) -> (u8, Seq<u8>) {
        (self.distributed_code, self.distributed_message@)
    }
}

impl EmbeddedMessage {
    /// The first byte is the distributed code, the rest its message.
    pub fn decode(body: &[u8]) -> (res: Result<Self>)
        ensures
            body@.len() == 0 ==> (res matches Err(Error::Protocol(m)) && m@ == "EmbeddedMessage body is empty"@),
            body@.len() > 0 ==> (res matches Ok(m) && m@ == (body@[0], body@.subrange(1, body@.len() as int))),
    {
        if body.len() == 0 {
            return Err(Error::Protocol(String::from_str("EmbeddedMessage body is empty")));
        }
        Ok(Self { distributed_code: body[0], distributed_message: slice_to_vec(slice_subrange(body, 1, body.len())) })
    }
}


// ── AcceptChildren ──

#[derive(Debug, Clone)]
pub struct AcceptChildren {
    pub accept: bool,
}

impl AcceptChildren {
    /// The body on the wire: accept, in this order.
    pub open spec fn spec_body(&self) -> Seq<u8> {
        bool_byte(self.accept)
    }

    /// The bytes on the wire, written out field by field, in this order.
    pub proof fn lemma_body_layout(m: Self)
        ensures
            m.spec_body() == (bool_byte(m.accept)),
    {
    }

    pub fn encode(&self) -> (out: Vec<u8>)
        ensures
            out@ == frame_u32(code::ACCEPT_CHILDREN, self.spec_body()),
    {
        let mut body = Vec::new();
        write_bool(&mut body, self.accept);
        frame_message_u32(code::ACCEPT_CHILDREN, body.as_slice())
    }
}

// ── PossibleParent ──

#[derive(Debug, Clone)]
pub struct PossibleParent {
    pub username: String,
    pub ip: u32,
    pub port: u32,
}

/// A possible parent, by value.
pub type PossibleParentView = (Seq<char>, u32, u32);

impl View for PossibleParent {
    type V = (Seq<char>, u32, u32);

    open spec fn view(&self) -> Self::V {
        (self.username@, self.ip, self.port)
    }
}

/// A possible parent: username, ip, port, in this order.
pub open spec fn p_possible_parent(d: Seq<u8>, p: int) -> Step<PossibleParentView> {
    match p_string(d, p) {
        Ok((username, p1)) => {
            match p_u32(d, p1) {
                Ok((ip, p2)) => {
                    match p_u32(d, p2) {
                        Ok((port, p3)) => {
                            Ok(((username, ip, port), p3))
                        },
                        Err(e) => Err(e),
                    }
                },
                Err(e) => Err(e),
            }
        },
        Err(e) => Err(e),
    }
}

/// The possible parent item reader.
pub open spec fn possible_parent_item() -> spec_fn(Seq<u8>, int) -> Step<PossibleParentView> {
    |d: Seq<u8>, p: int| p_possible_parent(d, p)
}

/// A possible parent as written on the wire: its fields in order.
pub open spec fn possible_parent_bytes(e: PossibleParentView) -> Seq<u8> {
    string_field(e.0) + u32_le(e.1) + u32_le(e.2)
}

/// Reading a possible parent where one was written gives it back.
pub proof fn lemma_possible_parent_at(d: Seq<u8>, p: int, e: PossibleParentView)
    requires
        0 <= p,
        fits(e.0),
        p + possible_parent_bytes(e).len() <= d.len(),
        d.subrange(p, p + possible_parent_bytes(e).len()) == possible_parent_bytes(e),
    ensures
        p_possible_parent(d, p) == Step::Ok((e, p + possible_parent_bytes(e).len())),
{
    let w = possible_parent_bytes(e);
    let n0: int = 0;
    assert(w.subrange(n0, n0 + string_field(e.0).len()) =~= string_field(e.0));
    lemma_sub_at(d, p, w, n0, string_field(e.0));
    lemma_string_at(d, p + n0, e.0);
    let n1: int = n0 + string_field(e.0).len();
    assert(w.subrange(n1, n1 + u32_le(e.1).len()) =~= u32_le(e.1));
    lemma_sub_at(d, p, w, n1, u32_le(e.1));
    lemma_u32_at(d, p + n1, e.1);
    let n2: int = n1 + u32_le(e.1).len();
    assert(w.subrange(n2, n2 + u32_le(e.2).len()) =~= u32_le(e.2));
    lemma_sub_at(d, p, w, n2, u32_le(e.2));
    lemma_u32_at(d, p + n2, e.2);
}

/// Possible parents as a counted list on the wire.
pub open spec fn possible_parent_list_bytes(xs: Seq<PossibleParentView>) -> Seq<u8> {
    counted_bytes(xs, |e: PossibleParentView| possible_parent_bytes(e))
}

/// Every string field of possible parents fits its `u32` length prefix.
pub open spec fn possible_parent_list_fits(xs: Seq<PossibleParentView>) -> bool {
    forall|k: int| 0 <= k < xs.len() ==> #[trigger] possible_parent_fits(xs[k])
}

/// The string fields of a possible parent fit their `u32` length prefixes.
pub open spec fn possible_parent_fits(e: PossibleParentView) -> bool {
    fits(e.0)
}

/// Reading a counted list of possible parents where one was written gives it back.
pub proof fn lemma_possible_parent_list_at(d: Seq<u8>, p: int, xs: Seq<PossibleParentView>)
    requires
        0 <= p,
        xs.len() <= u32::MAX,
        possible_parent_list_fits(xs),
        p + possible_parent_list_bytes(xs).len() <= d.len(),
        d.subrange(p, p + possible_parent_list_bytes(xs).len()) == possible_parent_list_bytes(xs),
    ensures
        p_counted(d, p, possible_parent_item()) == Step::Ok((xs, p + possible_parent_list_bytes(xs).len())),
{
    let enc = |e: PossibleParentView| possible_parent_bytes(e);
    let good = |e: PossibleParentView| possible_parent_fits(e);
    assert forall|e: PossibleParentView, q: int|
        #![trigger good(e), possible_parent_item()(d, q)]
        good(e) && 0 <= q && q + enc(e).len() <= d.len() && d.subrange(q, q + enc(e).len()) == enc(e) implies possible_parent_item()(
            d,
            q,
        ) == Step::Ok((e, q + enc(e).len())) by {
        lemma_possible_parent_at(d, q, e);
    }
    assert forall|k: int| 0 <= k < xs.len() implies #[trigger] good(xs[k]) by {
        assert(possible_parent_fits(xs[k]));
    }
    lemma_counted_at(d, p, xs, enc, possible_parent_item(), good);
}


fn read_possible_parent(cur: &mut ByteReader) -> (res: Result<PossibleParent>)
    ensures
        final(cur).bytes() == old(cur).bytes(),
        step_matches(res, final(cur).pos(), p_possible_parent(old(cur).bytes(), old(cur).pos())),
{
    let username = read_string(cur)?;
    let ip = read_u32_le(cur)?;
    let port = read_u32_le(cur)?;
    Ok(PossibleParent { username, ip, port })
}

fn read_possible_parent_list(cur: &mut ByteReader, n: u32) -> (res: Result<Vec<PossibleParent>>)
    ensures
        final(cur).bytes() == old(cur).bytes(),
        step_matches_list(res, final(cur).pos(), p_list(old(cur).bytes(), old(cur).pos(), n as nat, possible_parent_item())),
{
    let ghost d = cur.bytes();
    let ghost p0 = cur.pos();
    let mut out: Vec<PossibleParent> = Vec::new();
    let mut i: u32 = 0;
    assert(views(out@) =~= Seq::empty());
    while i < n
        invariant
            d == old(cur).bytes(),
            p0 == old(cur).pos(),
            cur.bytes() == d,
            i <= n,
            p_list(d, p0, i as nat, possible_parent_item()) == Step::Ok((views(out@), cur.pos())),
        decreases n - i,
    {
        let ghost before = out@;
        match read_possible_parent(cur) {
            Ok(x) => {
                let ghost xv = x@;
                out.push(x);
                i = i + 1;
                assert(views(out@) =~= views(before).push(xv));
            },
            Err(e) => {
                proof {
                    lemma_list_err(d, p0, (i + 1) as nat, n as nat, possible_parent_item());
                }
                return Err(e);
            },
        }
    }
    Ok(out)
}

// ── PossibleParents ──

#[derive(Debug, Clone)]
pub struct PossibleParents {
    pub parents: Vec<PossibleParent>,
}

impl View for PossibleParents {
    type V = Seq<PossibleParentView>;

    open spec fn view(&self) -> Self::V {
        views(self.parents@)
    }
}

impl PossibleParents {
    /// The fields read from the start of a body, in order.
    pub open spec fn spec_decode(d: Seq<u8>) -> Decoded<Seq<PossibleParentView>> {
        match p_counted(d, 0, possible_parent_item()) {
            Ok((parents, _)) => {
                Ok(parents)
            },
            Err((f, _)) => Err(f),
        }
    }

    /// Where each field was written in its place in `d`, the places ending
    /// at the offsets `o1`, `o2`, ..., reading `d` gives back the fields.
    proof fn lemma_fields_at(d: Seq<u8>, parents: Seq<PossibleParentView>, o1: int)
        requires
            parents.len() <= u32::MAX,
            possible_parent_list_fits(parents),
            o1 == 0 + possible_parent_list_bytes(parents).len(),
            o1 <= d.len(),
            d.subrange(0, o1) == possible_parent_list_bytes(parents),
        ensures
            Self::spec_decode(d) == Decoded::Ok(parents),
    {
        lemma_possible_parent_list_at(d, 0, parents);
    }

    /// A counted list of possible parents, each a user name, an address and a
    /// port in this order, reads back as that list, in its order.
    pub proof fn lemma_decode_layout(parents: Seq<PossibleParentView>)
        requires
            parents.len() <= u32::MAX,
            possible_parent_list_fits(parents),
        ensures
            Self::spec_decode(possible_parent_list_bytes(parents)) == Decoded::Ok(parents),
    {
        let d = possible_parent_list_bytes(parents);
        let q1 = possible_parent_list_bytes(parents);
        assert(d.subrange(0, d.len() as int) =~= q1);
        Self::lemma_fields_at(d, parents, q1.len() as int);
    }

    pub fn decode(body: &[u8]) -> (res: Result<Self>)
        ensures
            decode_matches(res, Self::spec_decode(body@)),
    {
        let mut cur = ByteReader::new(body);
        let n_parents = read_u32_le(&mut cur)?;
        let parents = read_possible_parent_list(&mut cur, n_parents)?;
        Ok(Self { parents })
    }
}

// ── WishlistSearch ──

#[derive(Debug, Clone)]
pub struct WishlistSearch {
    pub token: u32,
    pub query: String,
}

impl WishlistSearch {
    /// The body on the wire: token, query, in this order.
    pub open spec fn spec_body(&self) -> Seq<u8> {
        u32_le(self.token) + string_field(self.query@)
    }

    /// The bytes on the wire, written out field by field, in this order.
    pub proof fn lemma_body_layout(m: Self)
        ensures
            m.spec_body() == (u32_le(m.token) + string_field(m.query@)),
    {
    }

    pub fn encode(&self) -> (out: Vec<u8>)
        ensures
            out@ == frame_u32(code::WISHLIST_SEARCH, self.spec_body()),
    {
        let mut body = Vec::new();
        write_u32_le(&mut body, self.token);
        write_string(&mut body, self.query.as_str());
        frame_message_u32(code::WISHLIST_SEARCH, body.as_slice())
    }
}

// ── WishlistInterval ──

#[derive(Debug, Clone)]
pub struct WishlistInterval {
    pub interval: u32,
}

impl View for WishlistInterval {
    type V = u32;

    open spec fn view(&self) -> Self::V {
        self.interval
    }
}

impl WishlistInterval {
    /// The fields read from the start of a body, in order.
    pub open spec fn spec_decode(d: Seq<u8>) -> Decoded<u32> {
        match p_u32(d, 0) {
            Ok((interval, _)) => {
                Ok(interval)
            },
            Err((f, _)) => Err(f),
        }
    }

    /// Where each field was written in its place in `d`, the places ending
    /// at the offsets `o1`, `o2`, ..., reading `d` gives back the fields.
    proof fn lemma_fields_at(d: Seq<u8>, interval: u32, o1: int)
        requires
            o1 == 0 + u32_le(interval).len(),
            o1 <= d.len(),
            d.subrange(0, o1) == u32_le(interval),
        ensures
            Self::spec_decode(d) == Decoded::Ok(interval),
    {
        lemma_u32_at(d, 0, interval);
    }

    /// The fields written one after another in the order of the wire
    /// layout read back as themselves, each in its own place.
    pub proof fn lemma_decode_layout(interval: u32)
        ensures
            Self::spec_decode(u32_le(interval)) == Decoded::Ok(interval),
    {
        let d = u32_le(interval);
        let q1 = u32_le(interval);
        assert(d.subrange(0, d.len() as int) =~= q1);
        Self::lemma_fields_at(d, interval, q1.len() as int);
    }

    pub fn decode(body: &[u8]) -> (res: Result<Self>)
        ensures
            decode_matches(res, Self::spec_decode(body@)),
    {
        let mut cur = ByteReader::new(body);
        let interval = read_u32_le(&mut cur)?;
        Ok(Self { interval })
    }
}

// ── SimilarUser ──

#[derive(Debug, Clone)]
pub struct SimilarUser {
    pub username: String,
    pub rating: u32,
}

/// A similar user, by value.
pub type SimilarUserView = (Seq<char>, u32);

impl View for SimilarUser {
    type V = (Seq<char>, u32);

    open spec fn view(&self) -> Self::V {
        (self.username@, self.rating)
    }
}

/// A similar user: username, rating, in this order.
pub open spec fn p_similar_user(d: Seq<u8>, p: int) -> Step<SimilarUserView> {
    match p_string(d, p) {
        Ok((username, p1)) => {
            match p_u32(d, p1) {
                Ok((rating, p2)) => {
                    Ok(((username, rating), p2))
                },
                Err(e) => Err(e),
            }
        },
        Err(e) => Err(e),
    }
}

/// The similar user item reader.
pub open spec fn similar_user_item() -> spec_fn(Seq<u8>, int) -> Step<SimilarUserView> {
    |d: Seq<u8>, p: int| p_similar_user(d, p)
}

/// A similar user as written on the wire: its fields in order.
pub open spec fn similar_user_bytes(e: SimilarUserView) -> Seq<u8> {
    string_field(e.0) + u32_le(e.1)
}

/// Reading a similar user where one was written gives it back.
pub proof fn lemma_similar_user_at(d: Seq<u8>, p: int, e: SimilarUserView)
    requires
        0 <= p,
        fits(e.0),
        p + similar_user_bytes(e).len() <= d.len(),
        d.subrange(p, p + similar_user_bytes(e).len()) == similar_user_bytes(e),
    ensures
        p_similar_user(d, p) == Step::Ok((e, p + similar_user_bytes(e).len())),
{
    let w = similar_user_bytes(e);
    let n0: int = 0;
    assert(w.subrange(n0, n0 + string_field(e.0).len()) =~= string_field(e.0));
    lemma_sub_at(d, p, w, n0, string_field(e.0));
    lemma_string_at(d, p + n0, e.0);
    let n1: int = n0 + string_field(e.0).len();
    assert(w.subrange(n1, n1 + u32_le(e.1).len()) =~= u32_le(e.1));
    lemma_sub_at(d, p, w, n1, u32_le(e.1));
    lemma_u32_at(d, p + n1, e.1);
}

/// Similar users as a counted list on the wire.
pub open spec fn similar_user_list_bytes(xs: Seq<SimilarUserView>) -> Seq<u8> {
    counted_bytes(xs, |e: SimilarUserView| similar_user_bytes(e))
}

/// Every string field of similar users fits its `u32` length prefix.
pub open spec fn similar_user_list_fits(xs: Seq<SimilarUserView>) -> bool {
    forall|k: int| 0 <= k < xs.len() ==> #[trigger] similar_user_fits(xs[k])
}

/// The string fields of a similar user fit their `u32` length prefixes.
pub open spec fn similar_user_fits(e: SimilarUserView) -> bool {
    fits(e.0)
}

/// Reading a counted list of similar users where one was written gives it back.
pub proof fn lemma_similar_user_list_at(d: Seq<u8>, p: int, xs: Seq<SimilarUserView>)
    requires
        0 <= p,
        xs.len() <= u32::MAX,
        similar_user_list_fits(xs),
        p + similar_user_list_bytes(xs).len() <= d.len(),
        d.subrange(p, p + similar_user_list_bytes(xs).len()) == similar_user_list_bytes(xs),
    ensures
        p_counted(d, p, similar_user_item()) == Step::Ok((xs, p + similar_user_list_bytes(xs).len())),
{
    let enc = |e: SimilarUserView| similar_user_bytes(e);
    let good = |e: SimilarUserView| similar_user_fits(e);
    assert forall|e: SimilarUserView, q: int|
        #![trigger good(e), similar_user_item()(d, q)]
        good(e) && 0 <= q && q + enc(e).len() <= d.len() && d.subrange(q, q + enc(e).len()) == enc(e) implies similar_user_item()(
            d,
            q,
        ) == Step::Ok((e, q + enc(e).len())) by {
        lemma_similar_user_at(d, q, e);
    }
    assert forall|k: int| 0 <= k < xs.len() implies #[trigger] good(xs[k]) by {
        assert(similar_user_fits(xs[k]));
    }
    lemma_counted_at(d, p, xs, enc, similar_user_item(), good);
}


fn read_similar_user(cur: &mut ByteReader) -> (res: Result<SimilarUser>)
    ensures
        final(cur).bytes() == old(cur).bytes(),
        step_matches(res, final(cur).pos(), p_similar_user(old(cur).bytes(), old(cur).pos())),
{
    let username = read_string(cur)?;
    let rating = read_u32_le(cur)?;
    Ok(SimilarUser { username, rating })
}

fn read_similar_user_list(cur: &mut ByteReader, n: u32) -> (res: Result<Vec<SimilarUser>>)
    ensures
        final(cur).bytes() == old(cur).bytes(),
        step_matches_list(res, final(cur).pos(), p_list(old(cur).bytes(), old(cur).pos(), n as nat, similar_user_item())),
{
    let ghost d = cur.bytes();
    let ghost p0 = cur.pos();
    let mut out: Vec<SimilarUser> = Vec::new();
    let mut i: u32 = 0;
    assert(views(out@) =~= Seq::empty());
    while i < n
        invariant
            d == old(cur).bytes(),
            p0 == old(cur).pos(),
            cur.bytes() == d,
            i <= n,
            p_list(d, p0, i as nat, similar_user_item()) == Step::Ok((views(out@), cur.pos())),
        decreases n - i,
    {
        let ghost before = out@;
        match read_similar_user(cur) {
            Ok(x) => {
                let ghost xv = x@;
                out.push(x);
                i = i + 1;
                assert(views(out@) =~= views(before).push(xv));
            },
            Err(e) => {
                proof {
                    lemma_list_err(d, p0, (i + 1) as nat, n as nat, similar_user_item());
                }
                return Err(e);
            },
        }
    }
    Ok(out)
}

// ── SimilarUsersResponse ──

#[derive(Debug, Clone)]
pub struct SimilarUsersResponse {
    pub users: Vec<SimilarUser>,
}

impl View for SimilarUsersResponse {
    type V = Seq<SimilarUserView>;

    open spec fn view(&self) -> Self::V {
        views(self.users@)
    }
}

impl SimilarUsersResponse {
    /// The empty request for similar users.
    pub fn encode_request() -> (out: Vec<u8>)
        ensures
            out@ == frame_u32(code::SIMILAR_USERS, Seq::empty()),
    {
        let empty: Vec<u8> = Vec::new();
        frame_message_u32(code::SIMILAR_USERS, empty.as_slice())
    }

    /// The fields read from the start of a body, in order.
    pub open spec fn spec_decode(d: Seq<u8>) -> Decoded<Seq<SimilarUserView>> {
        match p_counted(d, 0, similar_user_item()) {
            Ok((users, _)) => {
                Ok(users)
            },
            Err((f, _)) => Err(f),
        }
    }

    /// Where each field was written in its place in `d`, the places ending
    /// at the offsets `o1`, `o2`, ..., reading `d` gives back the fields.
    proof fn lemma_fields_at(d: Seq<u8>, users: Seq<SimilarUserView>, o1: int)
        requires
            users.len() <= u32::MAX,
            similar_user_list_fits(users),
            o1 == 0 + similar_user_list_bytes(users).len(),
            o1 <= d.len(),
            d.subrange(0, o1) == similar_user_list_bytes(users),
        ensures
            Self::spec_decode(d) == Decoded::Ok(users),
    {
        lemma_similar_user_list_at(d, 0, users);
    }

    /// A counted list of similar users, each a user name and a rating in this
    /// order, reads back as that list, in its order.
    pub proof fn lemma_decode_layout(users: Seq<SimilarUserView>)
        requires
            users.len() <= u32::MAX,
            similar_user_list_fits(users),
        ensures
            Self::spec_decode(similar_user_list_bytes(users)) == Decoded::Ok(users),
    {
        let d = similar_user_list_bytes(users);
        let q1 = similar_user_list_bytes(users);
        assert(d.subrange(0, d.len() as int) =~= q1);
        Self::lemma_fields_at(d, users, q1.len() as int);
    }

    pub fn decode(body: &[u8]) -> (res: Result<Self>)
        ensures
            decode_matches(res, Self::spec_decode(body@)),
    {
        let mut cur = ByteReader::new(body);
        let n_users = read_u32_le(&mut cur)?;
        let users = read_similar_user_list(&mut cur, n_users)?;
        Ok(Self { users })
    }
}

// ── RoomTicker ──

#[derive(Debug, Clone)]
pub struct RoomTicker {
    pub username: String,
    pub ticker: String,
}

/// A room ticker, by value.
pub type RoomTickerView = (Seq<char>, Seq<char>);

impl View for RoomTicker {
    type V = (Seq<char>, Seq<char>);

    open spec fn view(&self) -> Self::V {
        (self.username@, self.ticker@)
    }
}

/// A room ticker: username, ticker, in this order.
pub open spec fn p_room_ticker(d: Seq<u8>, p: int) -> Step<RoomTickerView> {
    match p_string(d, p) {
        Ok((username, p1)) => {
            match p_string(d, p1) {
                Ok((ticker, p2)) => {
                    Ok(((username, ticker), p2))
                },
                Err(e) => Err(e),
            }
        },
        Err(e) => Err(e),
    }
}

/// The room ticker item reader.
pub open spec fn room_ticker_item() -> spec_fn(Seq<u8>, int) -> Step<RoomTickerView> {
    |d: Seq<u8>, p: int| p_room_ticker(d, p)
}

/// A room ticker as written on the wire: its fields in order.
pub open spec fn room_ticker_bytes(e: RoomTickerView) -> Seq<u8> {
    string_field(e.0) + string_field(e.1)
}

/// Reading a room ticker where one was written gives it back.
pub proof fn lemma_room_ticker_at(d: Seq<u8>, p: int, e: RoomTickerView)
    requires
        0 <= p,
        fits(e.0),
        fits(e.1),
        p + room_ticker_bytes(e).len() <= d.len(),
        d.subrange(p, p + room_ticker_bytes(e).len()) == room_ticker_bytes(e),
    ensures
        p_room_ticker(d, p) == Step::Ok((e, p + room_ticker_bytes(e).len())),
{
    let w = room_ticker_bytes(e);
    let n0: int = 0;
    assert(w.subrange(n0, n0 + string_field(e.0).len()) =~= string_field(e.0));
    lemma_sub_at(d, p, w, n0, string_field(e.0));
    lemma_string_at(d, p + n0, e.0);
    let n1: int = n0 + string_field(e.0).len();
    assert(w.subrange(n1, n1 + string_field(e.1).len()) =~= string_field(e.1));
    lemma_sub_at(d, p, w, n1, string_field(e.1));
    lemma_string_at(d, p + n1, e.1);
}

/// Room tickers as a counted list on the wire.
pub open spec fn room_ticker_list_bytes(xs: Seq<RoomTickerView>) -> Seq<u8> {
    counted_bytes(xs, |e: RoomTickerView| room_ticker_bytes(e))
}

/// Every string field of room tickers fits its `u32` length prefix.
pub open spec fn room_ticker_list_fits(xs: Seq<RoomTickerView>) -> bool {
    forall|k: int| 0 <= k < xs.len() ==> #[trigger] room_ticker_fits(xs[k])
}

/// The string fields of a room ticker fit their `u32` length prefixes.
pub open spec fn room_ticker_fits(e: RoomTickerView) -> bool {
    fits(e.0) && fits(e.1)
}

/// Reading a counted list of room tickers where one was written gives it back.
pub proof fn lemma_room_ticker_list_at(d: Seq<u8>, p: int, xs: Seq<RoomTickerView>)
    requires
        0 <= p,
        xs.len() <= u32::MAX,
        room_ticker_list_fits(xs),
        p + room_ticker_list_bytes(xs).len() <= d.len(),
        d.subrange(p, p + room_ticker_list_bytes(xs).len()) == room_ticker_list_bytes(xs),
    ensures
        p_counted(d, p, room_ticker_item()) == Step::Ok((xs, p + room_ticker_list_bytes(xs).len())),
{
    let enc = |e: RoomTickerView| room_ticker_bytes(e);
    let good = |e: RoomTickerView| room_ticker_fits(e);
    assert forall|e: RoomTickerView, q: int|
        #![trigger good(e), room_ticker_item()(d, q)]
        good(e) && 0 <= q && q + enc(e).len() <= d.len() && d.subrange(q, q + enc(e).len()) == enc(e) implies room_ticker_item()(
            d,
            q,
        ) == Step::Ok((e, q + enc(e).len())) by {
        lemma_room_ticker_at(d, q, e);
    }
    assert forall|k: int| 0 <= k < xs.len() implies #[trigger] good(xs[k]) by {
        assert(room_ticker_fits(xs[k]));
    }
    lemma_counted_at(d, p, xs, enc, room_ticker_item(), good);
}


fn read_room_ticker(cur: &mut ByteReader) -> (res: Result<RoomTicker>)
    ensures
        final(cur).bytes() == old(cur).bytes(),
        step_matches(res, final(cur).pos(), p_room_ticker(old(cur).bytes(), old(cur).pos())),
{
    let username = read_string(cur)?;
    let ticker = read_string(cur)?;
    Ok(RoomTicker { username, ticker })
}

fn read_room_ticker_list(cur: &mut ByteReader, n: u32) -> (res: Result<Vec<RoomTicker>>)
    ensures
        final(cur).bytes() == old(cur).bytes(),
        step_matches_list(res, final(cur).pos(), p_list(old(cur).bytes(), old(cur).pos(), n as nat, room_ticker_item())),
{
    let ghost d = cur.bytes();
    let ghost p0 = cur.pos();
    let mut out: Vec<RoomTicker> = Vec::new();
    let mut i: u32 = 0;
    assert(views(out@) =~= Seq::empty());
    while i < n
        invariant
            d == old(cur).bytes(),
            p0 == old(cur).pos(),
            cur.bytes() == d,
            i <= n,
            p_list(d, p0, i as nat, room_ticker_item()) == Step::Ok((views(out@), cur.pos())),
        decreases n - i,
    {
        let ghost before = out@;
        match read_room_ticker(cur) {
            Ok(x) => {
                let ghost xv = x@;
                out.push(x);
                i = i + 1;
                assert(views(out@) =~= views(before).push(xv));
            },
            Err(e) => {
                proof {
                    lemma_list_err(d, p0, (i + 1) as nat, n as nat, room_ticker_item());
                }
                return Err(e);
            },
        }
    }
    Ok(out)
}

// ── RoomTickerState ──

#[derive(Debug, Clone)]
pub struct RoomTickerState {
    pub room: String,
    pub tickers: Vec<RoomTicker>,
}

impl View for RoomTickerState {
    type V = (Seq<char>, Seq<RoomTickerView>);

    open spec fn view(&self) -> Self::V {
        (self.room@, views(self.tickers@))
    }
}

impl RoomTickerState {
    /// The fields read from the start of a body, in order.
    pub open spec fn spec_decode(d: Seq<u8>) -> Decoded<(Seq<char>, Seq<RoomTickerView>)> {
        match p_string(d, 0) {
            Ok((room, p1)) => {
                match p_counted(d, p1, room_ticker_item()) {
                    Ok((tickers, _)) => {
                        Ok((room, tickers))
                    },
                    Err((f, _)) => Err(f),
                }
            },
            Err((f, _)) => Err(f),
        }
    }

    /// Where each field was written in its place in `d`, the places ending
    /// at the offsets `o1`, `o2`, ..., reading `d` gives back the fields.
    proof fn lemma_fields_at(d: Seq<u8>, room: Seq<char>, tickers: Seq<RoomTickerView>, o1: int, o2: int)
        requires
            fits(room),
            tickers.len() <= u32::MAX,
            room_ticker_list_fits(tickers),
            o1 == 0 + string_field(room).len(),
            o2 == o1 + room_ticker_list_bytes(tickers).len(),
            o2 <= d.len(),
            d.subrange(0, o1) == string_field(room),
            d.subrange(o1, o2) == room_ticker_list_bytes(tickers),
        ensures
            Self::spec_decode(d) == Decoded::Ok((room, tickers)),
    {
        lemma_string_at(d, 0, room);
        lemma_room_ticker_list_at(d, o1, tickers);
    }

    /// The room, then a counted list of tickers, each a user name and the
    /// ticker text in this order, read back as themselves, in their order.
    pub proof fn lemma_decode_layout(room: Seq<char>, tickers: Seq<RoomTickerView>)
        requires
            fits(room),
            tickers.len() <= u32::MAX,
            room_ticker_list_fits(tickers),
        ensures
            Self::spec_decode(string_field(room) + room_ticker_list_bytes(tickers)) == Decoded::Ok((room, tickers)),
    {
        let d = string_field(room) + room_ticker_list_bytes(tickers);
        let q1 = string_field(room);
        let q2 = q1 + room_ticker_list_bytes(tickers);
        assert(d.subrange(0, d.len() as int) =~= q2);
        lemma_piece_at(d, q1, room_ticker_list_bytes(tickers));
        Self::lemma_fields_at(d, room, tickers, q1.len() as int, q2.len() as int);
    }

    pub fn decode(body: &[u8]) -> (res: Result<Self>)
        ensures
            decode_matches(res, Self::spec_decode(body@)),
    {
        let mut cur = ByteReader::new(body);
        let room = read_string(&mut cur)?;
        let n_tickers = read_u32_le(&mut cur)?;
        let tickers = read_room_ticker_list(&mut cur, n_tickers)?;
        Ok(Self { room, tickers })
    }
}

// ── SetRoomTicker ──

#[derive(Debug, Clone)]
pub struct SetRoomTicker {
    pub room: String,
    pub ticker: String,
}

impl SetRoomTicker {
    /// The body on the wire: room, ticker, in this order.
    pub open spec fn spec_body(&self) -> Seq<u8> {
        string_field(self.room@) + string_field(self.ticker@)
    }

    /// The bytes on the wire, written out field by field, in this order.
    pub proof fn lemma_body_layout(m: Self)
        ensures
            m.spec_body() == (string_field(m.room@) + string_field(m.ticker@)),
    {
    }

    pub fn encode(&self) -> (out: Vec<u8>)
        ensures
            out@ == frame_u32(code::ROOM_TICKER_SET, self.spec_body()),
    {
        let mut body = Vec::new();
        write_string(&mut body, self.room.as_str());
        write_string(&mut body, self.ticker.as_str());
        frame_message_u32(code::ROOM_TICKER_SET, body.as_slice())
    }
}

// ── RoomSearch ──

#[derive(Debug, Clone)]
pub struct RoomSearch {
    pub room: String,
    pub token: u32,
    pub query: String,
}

impl RoomSearch {
    /// The body on the wire: room, token, query, in this order.
    pub open spec fn spec_body(&self) -> Seq<u8> {
        string_field(self.room@) + u32_le(self.token) + string_field(self.query@)
    }

    /// The bytes on the wire, written out field by field, in this order.
    pub proof fn lemma_body_layout(m: Self)
        ensures
            m.spec_body() == (string_field(m.room@) + u32_le(m.token) + string_field(m.query@)),
    {
    }

    pub fn encode(&self) -> (out: Vec<u8>)
        ensures
            out@ == frame_u32(code::ROOM_SEARCH, self.spec_body()),
    {
        let mut body = Vec::new();
        write_string(&mut body, self.room.as_str());
        write_u32_le(&mut body, self.token);
        write_string(&mut body, self.query.as_str());
        frame_message_u32(code::ROOM_SEARCH, body.as_slice())
    }
}

// ── SendUploadSpeed ──

#[derive(Debug, Clone)]
pub struct SendUploadSpeed {
    pub speed: u32,
}

impl SendUploadSpeed {
    /// The body on the wire: speed, in this order.
    pub open spec fn spec_body(&self) -> Seq<u8> {
        u32_le(self.speed)
    }

    /// The bytes on the wire, written out field by field, in this order.
    pub proof fn lemma_body_layout(m: Self)
        ensures
            m.spec_body() == (u32_le(m.speed)),
    {
    }

    pub fn encode(&self) -> (out: Vec<u8>)
        ensures
            out@ == frame_u32(code::SEND_UPLOAD_SPEED, self.spec_body()),
    {
        let mut body = Vec::new();
        write_u32_le(&mut body, self.speed);
        frame_message_u32(code::SEND_UPLOAD_SPEED, body.as_slice())
    }
}

// ── GivePrivileges ──

#[derive(Debug, Clone)]
pub struct GivePrivileges {
    pub username: String,
    pub days: u32,
}

impl GivePrivileges {
    /// The body on the wire: username, days, in this order.
    pub open spec fn spec_body(&self) -> Seq<u8> {
        string_field(self.username@) + u32_le(self.days)
    }

    /// The bytes on the wire, written out field by field, in this order.
    pub proof fn lemma_body_layout(m: Self)
        ensures
            m.spec_body() == (string_field(m.username@) + u32_le(m.days)),
    {
    }

    pub fn encode(&self) -> (out: Vec<u8>)
        ensures
            out@ == frame_u32(code::GIVE_PRIVILEGES, self.spec_body()),
    {
        let mut body = Vec::new();
        write_string(&mut body, self.username.as_str());
        write_u32_le(&mut body, self.days);
        frame_message_u32(code::GIVE_PRIVILEGES, body.as_slice())
    }
}

// ── BranchLevel ──

#[derive(Debug, Clone)]
pub struct BranchLevel {
    pub level: u32,
}

impl BranchLevel {
    /// The body on the wire: level, in this order.
    pub open spec fn spec_body(&self) -> Seq<u8> {
        u32_le(self.level)
    }

    /// The bytes on the wire, written out field by field, in this order.
    pub proof fn lemma_body_layout(m: Self)
        ensures
            m.spec_body() == (u32_le(m.level)),
    {
    }

    pub fn encode(&self) -> (out: Vec<u8>)
        ensures
            out@ == frame_u32(code::BRANCH_LEVEL, self.spec_body()),
    {
        let mut body = Vec::new();
        write_u32_le(&mut body, self.level);
        frame_message_u32(code::BRANCH_LEVEL, body.as_slice())
    }
}

// ── BranchRoot ──

#[derive(Debug, Clone)]
pub struct BranchRoot {
    pub root: String,
}

impl BranchRoot {
    /// The body on the wire: root, in this order.
    pub open spec fn spec_body(&self) -> Seq<u8> {
        string_field(self.root@)
    }

    /// The bytes on the wire, written out field by field, in this order.
    pub proof fn lemma_body_layout(m: Self)
        ensures
            m.spec_body() == (string_field(m.root@)),
    {
    }

    pub fn encode(&self) -> (out: Vec<u8>)
        ensures
            out@ == frame_u32(code::BRANCH_ROOT, self.spec_body()),
    {
        let mut body = Vec::new();
        write_string(&mut body, self.root.as_str());
        frame_message_u32(code::BRANCH_ROOT, body.as_slice())
    }
}

// ── AddRoomMember ──

#[derive(Debug, Clone)]
pub struct AddRoomMember {
    pub room: String,
    pub username: String,
}

impl View for AddRoomMember {
    type V = (Seq<char>, Seq<char>);

    open spec fn view(&self) -> Self::V {
        (self.room@, self.username@)
    }
}

impl AddRoomMember {
    /// The body on the wire: room, username, in this order.
    pub open spec fn spec_body(&self) -> Seq<u8> {
        string_field(self.room@) + string_field(self.username@)
    }

    /// The fields read from the start of a body, in order.
    pub open spec fn spec_decode(d: Seq<u8>) -> Decoded<(Seq<char>, Seq<char>)> {
        match p_string(d, 0) {
            Ok((room, p1)) => {
                match p_string(d, p1) {
                    Ok((username, _)) => {
                        Ok((room, username))
                    },
                    Err((f, _)) => Err(f),
                }
            },
            Err((f, _)) => Err(f),
        }
    }

    /// Where each field was written in its place in `d`, the places ending
    /// at the offsets `o1`, `o2`, ..., reading `d` gives back the fields.
    proof fn lemma_fields_at(d: Seq<u8>, room: Seq<char>, username: Seq<char>, o1: int, o2: int)
        requires
            fits(room),
            fits(username),
            o1 == 0 + string_field(room).len(),
            o2 == o1 + string_field(username).len(),
            o2 <= d.len(),
            d.subrange(0, o1) == string_field(room),
            d.subrange(o1, o2) == string_field(username),
        ensures
            Self::spec_decode(d) == Decoded::Ok((room, username)),
    {
        lemma_string_at(d, 0, room);
        lemma_string_at(d, o1, username);
    }

    /// The fields written one after another in the order of the wire
    /// layout read back as themselves, each in its own place.
    pub proof fn lemma_decode_layout(room: Seq<char>, username: Seq<char>)
        requires
            fits(room),
            fits(username),
        ensures
            Self::spec_decode(string_field(room) + string_field(username)) == Decoded::Ok((room, username)),
    {
        let d = string_field(room) + string_field(username);
        let q1 = string_field(room);
        let q2 = q1 + string_field(username);
        assert(d.subrange(0, d.len() as int) =~= q2);
        lemma_piece_at(d, q1, string_field(username));
        Self::lemma_fields_at(d, room, username, q1.len() as int, q2.len() as int);
    }

    /// The body on the wire is the fields one after another, in this order.
    pub proof fn lemma_body_layout(m: Self)
        ensures
            m.spec_body() == string_field(m.room@) + string_field(m.username@),
    {
    }

    pub fn encode(&self) -> (out: Vec<u8>)
        ensures
            out@ == frame_u32(code::ADD_ROOM_MEMBER, self.spec_body()),
    {
        let mut body = Vec::new();
        write_string(&mut body, self.room.as_str());
        write_string(&mut body, self.username.as_str());
        frame_message_u32(code::ADD_ROOM_MEMBER, body.as_slice())
    }

    pub fn decode(body: &[u8]) -> (res: Result<Self>)
        ensures
            decode_matches(res, Self::spec_decode(body@)),
    {
        let mut cur = ByteReader::new(body);
        let room = read_string(&mut cur)?;
        let username = read_string(&mut cur)?;
        Ok(Self { room, username })
    }

    /// Decoding an encoded body gives back the message, when its strings fit their length prefix.
    pub proof fn lemma_roundtrip(m: Self)
        requires
            fits(m.room@),
            fits(m.username@),
        ensures
            Self::spec_decode(m.spec_body()) == Decoded::Ok(m@),
    {
        let d = m.spec_body();
        let n1 = 0int + string_field(m.room@).len();
        assert(d.subrange(0int, n1) =~= string_field(m.room@));
        lemma_string_at(d, 0int, m.room@);
        let n2 = n1 + string_field(m.username@).len();
        assert(d.subrange(n1, n2) =~= string_field(m.username@));
        lemma_string_at(d, n1, m.username@);
    }
}

// ── RemoveRoomMember ──

#[derive(Debug, Clone)]
pub struct RemoveRoomMember {
    pub room: String,
    pub username: String,
}

impl View for RemoveRoomMember {
    type V = (Seq<char>, Seq<char>);

    open spec fn view(&self) -> Self::V {
        (self.room@, self.username@)
    }
}

impl RemoveRoomMember {
    /// The body on the wire: room, username, in this order.
    pub open spec fn spec_body(&self) -> Seq<u8> {
        string_field(self.room@) + string_field(self.username@)
    }

    /// The fields read from the start of a body, in order.
    pub open spec fn spec_decode(d: Seq<u8>) -> Decoded<(Seq<char>, Seq<char>)> {
        match p_string(d, 0) {
            Ok((room, p1)) => {
                match p_string(d, p1) {
                    Ok((username, _)) => {
                        Ok((room, username))
                    },
                    Err((f, _)) => Err(f),
                }
            },
            Err((f, _)) => Err(f),
        }
    }

    /// Where each field was written in its place in `d`, the places ending
    /// at the offsets `o1`, `o2`, ..., reading `d` gives back the fields.
    proof fn lemma_fields_at(d: Seq<u8>, room: Seq<char>, username: Seq<char>, o1: int, o2: int)
        requires
            fits(room),
            fits(username),
            o1 == 0 + string_field(room).len(),
            o2 == o1 + string_field(username).len(),
            o2 <= d.len(),
            d.subrange(0, o1) == string_field(room),
            d.subrange(o1, o2) == string_field(username),
        ensures
            Self::spec_decode(d) == Decoded::Ok((room, username)),
    {
        lemma_string_at(d, 0, room);
        lemma_string_at(d, o1, username);
    }

    /// The fields written one after another in the order of the wire
    /// layout read back as themselves, each in its own place.
    pub proof fn lemma_decode_layout(room: Seq<char>, username: Seq<char>)
        requires
            fits(room),
            fits(username),
        ensures
            Self::spec_decode(string_field(room) + string_field(username)) == Decoded::Ok((room, username)),
    {
        let d = string_field(room) + string_field(username);
        let q1 = string_field(room);
        let q2 = q1 + string_field(username);
        assert(d.subrange(0, d.len() as int) =~= q2);
        lemma_piece_at(d, q1, string_field(username));
        Self::lemma_fields_at(d, room, username, q1.len() as int, q2.len() as int);
    }

    /// The body on the wire is the fields one after another, in this order.
    pub proof fn lemma_body_layout(m: Self)
        ensures
            m.spec_body() == string_field(m.room@) + string_field(m.username@),
    {
    }

    pub fn encode(&self) -> (out: Vec<u8>)
        ensures
            out@ == frame_u32(code::REMOVE_ROOM_MEMBER, self.spec_body()),
    {
        let mut body = Vec::new();
        write_string(&mut body, self.room.as_str());
        write_string(&mut body, self.username.as_str());
        frame_message_u32(code::REMOVE_ROOM_MEMBER, body.as_slice())
    }

    pub fn decode(body: &[u8]) -> (res: Result<Self>)
        ensures
            decode_matches(res, Self::spec_decode(body@)),
    {
        let mut cur = ByteReader::new(body);
        let room = read_string(&mut cur)?;
        let username = read_string(&mut cur)?;
        Ok(Self { room, username })
    }

    /// Decoding an encoded body gives back the message, when its strings fit their length prefix.
    pub proof fn lemma_roundtrip(m: Self)
        requires
            fits(m.room@),
            fits(m.username@),
        ensures
            Self::spec_decode(m.spec_body()) == Decoded::Ok(m@),
    {
        let d = m.spec_body();
        let n1 = 0int + string_field(m.room@).len();
        assert(d.subrange(0int, n1) =~= string_field(m.room@));
        lemma_string_at(d, 0int, m.room@);
        let n2 = n1 + string_field(m.username@).len();
        assert(d.subrange(n1, n2) =~= string_field(m.username@));
        lemma_string_at(d, n1, m.username@);
    }
}

// ── AddRoomOperator ──

#[derive(Debug, Clone)]
pub struct AddRoomOperator {
    pub room: String,
    pub username: String,
}

impl View for AddRoomOperator {
    type V = (Seq<char>, Seq<char>);

    open spec fn view(&self) -> Self::V {
        (self.room@, self.username@)
    }
}

impl AddRoomOperator {
    /// The body on the wire: room, username, in this order.
    pub open spec fn spec_body(&self) -> Seq<u8> {
        string_field(self.room@) + string_field(self.username@)
    }

    /// The fields read from the start of a body, in order.
    pub open spec fn spec_decode(d: Seq<u8>) -> Decoded<(Seq<char>, Seq<char>)> {
        match p_string(d, 0) {
            Ok((room, p1)) => {
                match p_string(d, p1) {
                    Ok((username, _)) => {
                        Ok((room, username))
                    },
                    Err((f, _)) => Err(f),
                }
            },
            Err((f, _)) => Err(f),
        }
    }

    /// Where each field was written in its place in `d`, the places ending
    /// at the offsets `o1`, `o2`, ..., reading `d` gives back the fields.
    proof fn lemma_fields_at(d: Seq<u8>, room: Seq<char>, username: Seq<char>, o1: int, o2: int)
        requires
            fits(room),
            fits(username),
            o1 == 0 + string_field(room).len(),
            o2 == o1 + string_field(username).len(),
            o2 <= d.len(),
            d.subrange(0, o1) == string_field(room),
            d.subrange(o1, o2) == string_field(username),
        ensures
            Self::spec_decode(d) == Decoded::Ok((room, username)),
    {
        lemma_string_at(d, 0, room);
        lemma_string_at(d, o1, username);
    }

    /// The fields written one after another in the order of the wire
    /// layout read back as themselves, each in its own place.
    pub proof fn lemma_decode_layout(room: Seq<char>, username: Seq<char>)
        requires
            fits(room),
            fits(username),
        ensures
            Self::spec_decode(string_field(room) + string_field(username)) == Decoded::Ok((room, username)),
    {
        let d = string_field(room) + string_field(username);
        let q1 = string_field(room);
        let q2 = q1 + string_field(username);
        assert(d.subrange(0, d.len() as int) =~= q2);
        lemma_piece_at(d, q1, string_field(username));
        Self::lemma_fields_at(d, room, username, q1.len() as int, q2.len() as int);
    }

    /// The body on the wire is the fields one after another, in this order.
    pub proof fn lemma_body_layout(m: Self)
        ensures
            m.spec_body() == string_field(m.room@) + string_field(m.username@),
    {
    }

    pub fn encode(&self) -> (out: Vec<u8>)
        ensures
            out@ == frame_u32(code::ADD_ROOM_OPERATOR, self.spec_body()),
    {
        let mut body = Vec::new();
        write_string(&mut body, self.room.as_str());
        write_string(&mut body, self.username.as_str());
        frame_message_u32(code::ADD_ROOM_OPERATOR, body.as_slice())
    }

    pub fn decode(body: &[u8]) -> (res: Result<Self>)
        ensures
            decode_matches(res, Self::spec_decode(body@)),
    {
        let mut cur = ByteReader::new(body);
        let room = read_string(&mut cur)?;
        let username = read_string(&mut cur)?;
        Ok(Self { room, username })
    }

    /// Decoding an encoded body gives back the message, when its strings fit their length prefix.
    pub proof fn lemma_roundtrip(m: Self)
        requires
            fits(m.room@),
            fits(m.username@),
        ensures
            Self::spec_decode(m.spec_body()) == Decoded::Ok(m@),
    {
        let d = m.spec_body();
        let n1 = 0int + string_field(m.room@).len();
        assert(d.subrange(0int, n1) =~= string_field(m.room@));
        lemma_string_at(d, 0int, m.room@);
        let n2 = n1 + string_field(m.username@).len();
        assert(d.subrange(n1, n2) =~= string_field(m.username@));
        lemma_string_at(d, n1, m.username@);
    }
}

// ── RemoveRoomOperator ──

#[derive(Debug, Clone)]
pub struct RemoveRoomOperator {
    pub room: String,
    pub username: String,
}

impl View for RemoveRoomOperator {
    type V = (Seq<char>, Seq<char>);

    open spec fn view(&self) -> Self::V {
        (self.room@, self.username@)
    }
}

impl RemoveRoomOperator {
    /// The body on the wire: room, username, in this order.
    pub open spec fn spec_body(&self) -> Seq<u8> {
        string_field(self.room@) + string_field(self.username@)
    }

    /// The fields read from the start of a body, in order.
    pub open spec fn spec_decode(d: Seq<u8>) -> Decoded<(Seq<char>, Seq<char>)> {
        match p_string(d, 0) {
            Ok((room, p1)) => {
                match p_string(d, p1) {
                    Ok((username, _)) => {
                        Ok((room, username))
                    },
                    Err((f, _)) => Err(f),
                }
            },
            Err((f, _)) => Err(f),
        }
    }

    /// Where each field was written in its place in `d`, the places ending
    /// at the offsets `o1`, `o2`, ..., reading `d` gives back the fields.
    proof fn lemma_fields_at(d: Seq<u8>, room: Seq<char>, username: Seq<char>, o1: int, o2: int)
        requires
            fits(room),
            fits(username),
            o1 == 0 + string_field(room).len(),
            o2 == o1 + string_field(username).len(),
            o2 <= d.len(),
            d.subrange(0, o1) == string_field(room),
            d.subrange(o1, o2) == string_field(username),
        ensures
            Self::spec_decode(d) == Decoded::Ok((room, username)),
    {
        lemma_string_at(d, 0, room);
        lemma_string_at(d, o1, username);
    }

    /// The fields written one after another in the order of the wire
    /// layout read back as themselves, each in its own place.
    pub proof fn lemma_decode_layout(room: Seq<char>, username: Seq<char>)
        requires
            fits(room),
            fits(username),
        ensures
            Self::spec_decode(string_field(room) + string_field(username)) == Decoded::Ok((room, username)),
    {
        let d = string_field(room) + string_field(username);
        let q1 = string_field(room);
        let q2 = q1 + string_field(username);
        assert(d.subrange(0, d.len() as int) =~= q2);
        lemma_piece_at(d, q1, string_field(username));
        Self::lemma_fields_at(d, room, username, q1.len() as int, q2.len() as int);
    }

    /// The body on the wire is the fields one after another, in this order.
    pub proof fn lemma_body_layout(m: Self)
        ensures
            m.spec_body() == string_field(m.room@) + string_field(m.username@),
    {
    }

    pub fn encode(&self) -> (out: Vec<u8>)
        ensures
            out@ == frame_u32(code::REMOVE_ROOM_OPERATOR, self.spec_body()),
    {
        let mut body = Vec::new();
        write_string(&mut body, self.room.as_str());
        write_string(&mut body, self.username.as_str());
        frame_message_u32(code::REMOVE_ROOM_OPERATOR, body.as_slice())
    }

    pub fn decode(body: &[u8]) -> (res: Result<Self>)
        ensures
            decode_matches(res, Self::spec_decode(body@)),
    {
        let mut cur = ByteReader::new(body);
        let room = read_string(&mut cur)?;
        let username = read_string(&mut cur)?;
        Ok(Self { room, username })
    }

    /// Decoding an encoded body gives back the message, when its strings fit their length prefix.
    pub proof fn lemma_roundtrip(m: Self)
        requires
            fits(m.room@),
            fits(m.username@),
        ensures
            Self::spec_decode(m.spec_body()) == Decoded::Ok(m@),
    {
        let d = m.spec_body();
        let n1 = 0int + string_field(m.room@).len();
        assert(d.subrange(0int, n1) =~= string_field(m.room@));
        lemma_string_at(d, 0int, m.room@);
        let n2 = n1 + string_field(m.username@).len();
        assert(d.subrange(n1, n2) =~= string_field(m.username@));
        lemma_string_at(d, n1, m.username@);
    }
}

// ── CancelRoomMembership ──

#[derive(Debug, Clone)]
pub struct CancelRoomMembership {
    pub room: String,
}

impl CancelRoomMembership {
    /// The body on the wire: room, in this order.
    pub open spec fn spec_body(&self) -> Seq<u8> {
        string_field(self.room@)
    }

    /// The bytes on the wire, written out field by field, in this order.
    pub proof fn lemma_body_layout(m: Self)
        ensures
            m.spec_body() == (string_field(m.room@)),
    {
    }

    pub fn encode(&self) -> (out: Vec<u8>)
        ensures
            out@ == frame_u32(code::CANCEL_ROOM_MEMBERSHIP, self.spec_body()),
    {
        let mut body = Vec::new();
        write_string(&mut body, self.room.as_str());
        frame_message_u32(code::CANCEL_ROOM_MEMBERSHIP, body.as_slice())
    }
}

// ── CancelRoomOwnership ──

#[derive(Debug, Clone)]
pub struct CancelRoomOwnership {
    pub room: String,
}

impl CancelRoomOwnership {
    /// The body on the wire: room, in this order.
    pub open spec fn spec_body(&self) -> Seq<u8> {
        string_field(self.room@)
    }

    /// The bytes on the wire, written out field by field, in this order.
    pub proof fn lemma_body_layout(m: Self)
        ensures
            m.spec_body() == (string_field(m.room@)),
    {
    }

    pub fn encode(&self) -> (out: Vec<u8>)
        ensures
            out@ == frame_u32(code::CANCEL_ROOM_OWNERSHIP, self.spec_body()),
    {
        let mut body = Vec::new();
        write_string(&mut body, self.room.as_str());
        frame_message_u32(code::CANCEL_ROOM_OWNERSHIP, body.as_slice())
    }
}

// ── EnableRoomInvitations ──

#[derive(Debug, Clone)]
pub struct EnableRoomInvitations {
    pub enable: bool,
}

impl View for EnableRoomInvitations {
    type V = bool;

    open spec fn view(&self) -> Self::V {
        self.enable
    }
}

impl EnableRoomInvitations {
    /// The body on the wire: enable, in this order.
    pub open spec fn spec_body(&self) -> Seq<u8> {
        bool_byte(self.enable)
    }

    /// The fields read from the start of a body, in order.
    pub open spec fn spec_decode(d: Seq<u8>) -> Decoded<bool> {
        match p_bool(d, 0) {
            Ok((enable, _)) => {
                Ok(enable)
            },
            Err((f, _)) => Err(f),
        }
    }

    /// Where each field was written in its place in `d`, the places ending
    /// at the offsets `o1`, `o2`, ..., reading `d` gives back the fields.
    proof fn lemma_fields_at(d: Seq<u8>, enable: bool, o1: int)
        requires
            o1 == 0 + bool_byte(enable).len(),
            o1 <= d.len(),
            d.subrange(0, o1) == bool_byte(enable),
        ensures
            Self::spec_decode(d) == Decoded::Ok(enable),
    {
        lemma_bool_at(d, 0, enable);
    }

    /// The fields written one after another in the order of the wire
    /// layout read back as themselves, each in its own place.
    pub proof fn lemma_decode_layout(enable: bool)
        ensures
            Self::spec_decode(bool_byte(enable)) == Decoded::Ok(enable),
    {
        let d = bool_byte(enable);
        let q1 = bool_byte(enable);
        assert(d.subrange(0, d.len() as int) =~= q1);
        Self::lemma_fields_at(d, enable, q1.len() as int);
    }

    /// The body on the wire is the fields one after another, in this order.
    pub proof fn lemma_body_layout(m: Self)
        ensures
            m.spec_body() == bool_byte(m.enable),
    {
    }

    pub fn encode(&self) -> (out: Vec<u8>)
        ensures
            out@ == frame_u32(code::ENABLE_ROOM_INVITATIONS, self.spec_body()),
    {
        let mut body = Vec::new();
        write_bool(&mut body, self.enable);
        frame_message_u32(code::ENABLE_ROOM_INVITATIONS, body.as_slice())
    }

    pub fn decode(body: &[u8]) -> (res: Result<Self>)
        ensures
            decode_matches(res, Self::spec_decode(body@)),
    {
        let mut cur = ByteReader::new(body);
        let enable = read_bool(&mut cur)?;
        Ok(Self { enable })
    }

    /// Decoding an encoded body gives back the message.
    pub proof fn lemma_roundtrip(m: Self)
        ensures
            Self::spec_decode(m.spec_body()) == Decoded::Ok(m@),
    {
        let d = m.spec_body();
        let n1 = 0int + 1;
        assert(d.subrange(0int, n1) =~= bool_byte(m.enable));
        lemma_bool_at(d, 0int, m.enable);
    }
}

// ── ChangePassword ──

#[derive(Debug, Clone)]
pub struct ChangePassword {
    pub password: String,
}

impl View for ChangePassword {
    type V = Seq<char>;

    open spec fn view(&self) -> Self::V {
        self.password@
    }
}

impl ChangePassword {
    /// The body on the wire: password, in this order.
    pub open spec fn spec_body(&self) -> Seq<u8> {
        string_field(self.password@)
    }

    /// The fields read from the start of a body, in order.
    pub open spec fn spec_decode(d: Seq<u8>) -> Decoded<Seq<char>> {
        match p_string(d, 0) {
            Ok((password, _)) => {
                Ok(password)
            },
            Err((f, _)) => Err(f),
        }
    }

    /// Where each field was written in its place in `d`, the places ending
    /// at the offsets `o1`, `o2`, ..., reading `d` gives back the fields.
    proof fn lemma_fields_at(d: Seq<u8>, password: Seq<char>, o1: int)
        requires
            fits(password),
            o1 == 0 + string_field(password).len(),
            o1 <= d.len(),
            d.subrange(0, o1) == string_field(password),
        ensures
            Self::spec_decode(d) == Decoded::Ok(password),
    {
        lemma_string_at(d, 0, password);
    }

    /// The fields written one after another in the order of the wire
    /// layout read back as themselves, each in its own place.
    pub proof fn lemma_decode_layout(password: Seq<char>)
        requires
            fits(password),
        ensures
            Self::spec_decode(string_field(password)) == Decoded::Ok(password),
    {
        let d = string_field(password);
        let q1 = string_field(password);
        assert(d.subrange(0, d.len() as int) =~= q1);
        Self::lemma_fields_at(d, password, q1.len() as int);
    }

    /// The body on the wire is the fields one after another, in this order.
    pub proof fn lemma_body_layout(m: Self)
        ensures
            m.spec_body() == string_field(m.password@),
    {
    }

    pub fn encode(&self) -> (out: Vec<u8>)
        ensures
            out@ == frame_u32(code::CHANGE_PASSWORD, self.spec_body()),
    {
        let mut body = Vec::new();
        write_string(&mut body, self.password.as_str());
        frame_message_u32(code::CHANGE_PASSWORD, body.as_slice())
    }

    pub fn decode(body: &[u8]) -> (res: Result<Self>)
        ensures
            decode_matches(res, Self::spec_decode(body@)),
    {
        let mut cur = ByteReader::new(body);
        let password = read_string(&mut cur)?;
        Ok(Self { password })
    }

    /// Decoding an encoded body gives back the message, when its strings fit their length prefix.
    pub proof fn lemma_roundtrip(m: Self)
        requires
            fits(m.password@),
        ensures
            Self::spec_decode(m.spec_body()) == Decoded::Ok(m@),
    {
        let d = m.spec_body();
        let n1 = 0int + string_field(m.password@).len();
        assert(d.subrange(0int, n1) =~= string_field(m.password@));
        lemma_string_at(d, 0int, m.password@);
    }
}

#[derive(Debug, Clone)]
pub struct MessageUsers {
    pub usernames: Vec<String>,
    pub message: String,
}

impl MessageUsers {
    /// The body on the wire: a counted list of user names, then the message.
    pub open spec fn spec_body(&self) -> Seq<u8> {
        u32_le(self.usernames@.len() as u32) + list_bytes(views(self.usernames@), |s: Seq<char>| string_field(s))
            + string_field(self.message@)
    }

    /// The bytes on the wire, written out field by field, in this order.
    pub proof fn lemma_body_layout(m: Self)
        ensures
            m.spec_body() == (u32_le(m.usernames@.len() as u32) + list_bytes(views(m.usernames@), |s: Seq<char>| string_field(s))
                + string_field(m.message@)),
    {
    }

    pub fn encode(&self) -> (out: Vec<u8>)
        ensures
            out@ == frame_u32(code::MESSAGE_USERS, self.spec_body()),
    {
        let mut body = Vec::new();
        write_u32_le(&mut body, self.usernames.len() as u32);
        let ghost enc = |s: Seq<char>| string_field(s);
        let ghost vs = views(self.usernames@);
        let ghost start = body@;
        let mut i: usize = 0;
        assert(vs.take(0) =~= Seq::empty());
        while i < self.usernames.len()
            invariant
                i <= self.usernames@.len(),
                vs == views(self.usernames@),
                enc == (|s: Seq<char>| string_field(s)),
                body@ == start + list_bytes(vs.take(i as int), enc),
            decreases self.usernames@.len() - i,
        {
            write_string(&mut body, self.usernames[i].as_str());
            assert(vs.take(i + 1).drop_last() =~= vs.take(i as int));
            i = i + 1;
        }
        assert(vs.take(vs.len() as int) =~= vs);
        write_string(&mut body, self.message.as_str());
        frame_message_u32(code::MESSAGE_USERS, body.as_slice())
    }
}


// ── GlobalRoomMessage ──

#[derive(Debug, Clone)]
pub struct GlobalRoomMessage {
    pub room: String,
    pub username: String,
    pub message: String,
}

impl View for GlobalRoomMessage {
    type V = (Seq<char>, Seq<char>, Seq<char>);

    open spec fn view(&self) -> Self::V {
        (self.room@, self.username@, self.message@)
    }
}

impl GlobalRoomMessage {
    /// The fields read from the start of a body, in order.
    pub open spec fn spec_decode(d: Seq<u8>) -> Decoded<(Seq<char>, Seq<char>, Seq<char>)> {
        match p_string(d, 0) {
            Ok((room, p1)) => {
                match p_string(d, p1) {
                    Ok((username, p2)) => {
                        match p_string(d, p2) {
                            Ok((message, _)) => {
                                Ok((room, username, message))
                            },
                            Err((f, _)) => Err(f),
                        }
                    },
                    Err((f, _)) => Err(f),
                }
            },
            Err((f, _)) => Err(f),
        }
    }

    /// Where each field was written in its place in `d`, the places ending
    /// at the offsets `o1`, `o2`, ..., reading `d` gives back the fields.
    proof fn lemma_fields_at(d: Seq<u8>, room: Seq<char>, username: Seq<char>, message: Seq<char>, o1: int, o2: int, o3: int)
        requires
            fits(room),
            fits(username),
            fits(message),
            o1 == 0 + string_field(room).len(),
            o2 == o1 + string_field(username).len(),
            o3 == o2 + string_field(message).len(),
            o3 <= d.len(),
            d.subrange(0, o1) == string_field(room),
            d.subrange(o1, o2) == string_field(username),
            d.subrange(o2, o3) == string_field(message),
        ensures
            Self::spec_decode(d) == Decoded::Ok((room, username, message)),
    {
        lemma_string_at(d, 0, room);
        lemma_string_at(d, o1, username);
        lemma_string_at(d, o2, message);
    }

    /// The fields written one after another in the order of the wire
    /// layout read back as themselves, each in its own place.
    pub proof fn lemma_decode_layout(room: Seq<char>, username: Seq<char>, message: Seq<char>)
        requires
            fits(room),
            fits(username),
            fits(message),
        ensures
            Self::spec_decode(string_field(room) + string_field(username) + string_field(message)) == Decoded::Ok((room, username, message)),
    {
        let d = string_field(room) + string_field(username) + string_field(message);
        let q1 = string_field(room);
        let q2 = q1 + string_field(username);
        let q3 = q2 + string_field(message);
        assert(d.subrange(0, d.len() as int) =~= q3);
        lemma_piece_at(d, q2, string_field(message));
        lemma_piece_at(d, q1, string_field(username));
        Self::lemma_fields_at(d, room, username, message, q1.len() as int, q2.len() as int, q3.len() as int);
    }

    pub fn decode(body: &[u8]) -> (res: Result<Self>)
        ensures
            decode_matches(res, Self::spec_decode(body@)),
    {
        let mut cur = ByteReader::new(body);
        let room = read_string(&mut cur)?;
        let username = read_string(&mut cur)?;
        let message = read_string(&mut cur)?;
        Ok(Self { room, username, message })
    }
}

// ── ExcludedSearchPhrases ──

#[derive(Debug, Clone)]
pub struct ExcludedSearchPhrases {
    pub phrases: Vec<String>,
}

impl View for ExcludedSearchPhrases {
    type V = Seq<Seq<char>>;

    open spec fn view(&self) -> Self::V {
        views(self.phrases@)
    }
}

impl ExcludedSearchPhrases {
    /// The fields read from the start of a body, in order.
    pub open spec fn spec_decode(d: Seq<u8>) -> Decoded<Seq<Seq<char>>> {
        match p_counted(d, 0, string_item()) {
            Ok((phrases, _)) => {
                Ok(phrases)
            },
            Err((f, _)) => Err(f),
        }
    }

    /// A counted list of phrases reads back as that list, in its order.
    pub proof fn lemma_decode_layout(phrases: Seq<Seq<char>>)
        requires
            phrases.len() <= u32::MAX,
            all_fit(phrases),
        ensures
            Self::spec_decode(strings_bytes(phrases)) == Decoded::Ok(phrases),
    {
        let d = strings_bytes(phrases);
        let q1 = strings_bytes(phrases);
        assert(d.subrange(0, d.len() as int) =~= q1);
        lemma_strings_at(d, 0, phrases);
    }

    pub fn decode(body: &[u8]) -> (res: Result<Self>)
        ensures
            decode_matches(res, Self::spec_decode(body@)),
    {
        let mut cur = ByteReader::new(body);
        let n_phrases = read_u32_le(&mut cur)?;
        let phrases = read_string_list(&mut cur, n_phrases)?;
        Ok(Self { phrases })
    }
}

// ── CantConnectToPeerSend ──

#[derive(Debug, Clone)]
pub struct CantConnectToPeerSend {
    pub token: u32,
    pub username: String,
}

impl CantConnectToPeerSend {
    /// The body on the wire: token, username, in this order.
    pub open spec fn spec_body(&self) -> Seq<u8> {
        u32_le(self.token) + string_field(self.username@)
    }

    /// The bytes on the wire, written out field by field, in this order.
    pub proof fn lemma_body_layout(m: Self)
        ensures
            m.spec_body() == (u32_le(m.token) + string_field(m.username@)),
    {
    }

    pub fn encode(&self) -> (out: Vec<u8>)
        ensures
            out@ == frame_u32(code::CANT_CONNECT_TO_PEER, self.spec_body()),
    {
        let mut body = Vec::new();
        write_u32_le(&mut body, self.token);
        write_string(&mut body, self.username.as_str());
        frame_message_u32(code::CANT_CONNECT_TO_PEER, body.as_slice())
    }
}

// ── CantConnectToPeerRecv ──

#[derive(Debug, Clone)]
pub struct CantConnectToPeerRecv {
    pub token: u32,
}

impl View for CantConnectToPeerRecv {
    type V = u32;

    open spec fn view(&self) -> Self::V {
        self.token
    }
}

impl CantConnectToPeerRecv {
    /// The fields read from the start of a body, in order.
    pub open spec fn spec_decode(d: Seq<u8>) -> Decoded<u32> {
        match p_u32(d, 0) {
            Ok((token, _)) => {
                Ok(token)
            },
            Err((f, _)) => Err(f),
        }
    }

    /// Where each field was written in its place in `d`, the places ending
    /// at the offsets `o1`, `o2`, ..., reading `d` gives back the fields.
    proof fn lemma_fields_at(d: Seq<u8>, token: u32, o1: int)
        requires
            o1 == 0 + u32_le(token).len(),
            o1 <= d.len(),
            d.subrange(0, o1) == u32_le(token),
        ensures
            Self::spec_decode(d) == Decoded::Ok(token),
    {
        lemma_u32_at(d, 0, token);
    }

    /// The fields written one after another in the order of the wire
    /// layout read back as themselves, each in its own place.
    pub proof fn lemma_decode_layout(token: u32)
        ensures
            Self::spec_decode(u32_le(token)) == Decoded::Ok(token),
    {
        let d = u32_le(token);
        let q1 = u32_le(token);
        assert(d.subrange(0, d.len() as int) =~= q1);
        Self::lemma_fields_at(d, token, q1.len() as int);
    }

    pub fn decode(body: &[u8]) -> (res: Result<Self>)
        ensures
            decode_matches(res, Self::spec_decode(body@)),
    {
        let mut cur = ByteReader::new(body);
        let token = read_u32_le(&mut cur)?;
        Ok(Self { token })
    }
}

// ── AdminMessage ──

#[derive(Debug, Clone)]
pub struct AdminMessage {
    pub message: String,
}

impl View for AdminMessage {
    type V = Seq<char>;

    open spec fn view(&self) -> Self::V {
        self.message@
    }
}

impl AdminMessage {
    /// The fields read from the start of a body, in order.
    pub open spec fn spec_decode(d: Seq<u8>) -> Decoded<Seq<char>> {
        match p_string(d, 0) {
            Ok((message, _)) => {
                Ok(message)
            },
            Err((f, _)) => Err(f),
        }
    }

    /// Where each field was written in its place in `d`, the places ending
    /// at the offsets `o1`, `o2`, ..., reading `d` gives back the fields.
    proof fn lemma_fields_at(d: Seq<u8>, message: Seq<char>, o1: int)
        requires
            fits(message),
            o1 == 0 + string_field(message).len(),
            o1 <= d.len(),
            d.subrange(0, o1) == string_field(message),
        ensures
            Self::spec_decode(d) == Decoded::Ok(message),
    {
        lemma_string_at(d, 0, message);
    }

    /// The fields written one after another in the order of the wire
    /// layout read back as themselves, each in its own place.
    pub proof fn lemma_decode_layout(message: Seq<char>)
        requires
            fits(message),
        ensures
            Self::spec_decode(string_field(message)) == Decoded::Ok(message),
    {
        let d = string_field(message);
        let q1 = string_field(message);
        assert(d.subrange(0, d.len() as int) =~= q1);
        Self::lemma_fields_at(d, message, q1.len() as int);
    }

    pub fn decode(body: &[u8]) -> (res: Result<Self>)
        ensures
            decode_matches(res, Self::spec_decode(body@)),
    {
        let mut cur = ByteReader::new(body);
        let message = read_string(&mut cur)?;
        Ok(Self { message })
    }
}

// ── Top-level incoming server message enum ────────────────────────────────────

/// Room, user name and ticker text read from the start of a body.
pub open spec fn spec_decode_ticker_add(d: Seq<u8>) -> Decoded<(Seq<char>, Seq<char>, Seq<char>)> {
    match p_string(d, 0) {
        Ok((room, p1)) => match p_string(d, p1) {
            Ok((username, p2)) => match p_string(d, p2) {
                Ok((ticker, _)) => Ok((room, username, ticker)),
                Err((f, _)) => Err(f),
            },
            Err((f, _)) => Err(f),
        },
        Err((f, _)) => Err(f),
    }
}

/// Room and user name read from the start of a body.
pub open spec fn spec_decode_ticker_remove(d: Seq<u8>) -> Decoded<(Seq<char>, Seq<char>)> {
    match p_string(d, 0) {
        Ok((room, p1)) => match p_string(d, p1) {
            Ok((username, _)) => Ok((room, username)),
            Err((f, _)) => Err(f),
        },
        Err((f, _)) => Err(f),
    }
}

/// A ticker being set is the room, the user name and the ticker text, in
/// this order; one being removed is the room and the user name.
#[verifier::rlimit(50)]
pub proof fn lemma_ticker_layout(room: Seq<char>, username: Seq<char>, ticker: Seq<char>)
    requires
        fits(room),
        fits(username),
        fits(ticker),
    ensures
        spec_decode_ticker_add(string_field(room) + string_field(username) + string_field(ticker)) == Decoded::Ok(
            (room, username, ticker),
        ),
        spec_decode_ticker_remove(string_field(room) + string_field(username)) == Decoded::Ok((room, username)),
{
    let q1 = string_field(room);
    let q2 = q1 + string_field(username);
    let q3 = q2 + string_field(ticker);
    assert(q3.subrange(0, q3.len() as int) =~= q3);
    lemma_piece_at(q3, q2, string_field(ticker));
    lemma_piece_at(q3, q1, string_field(username));
    lemma_string_at(q3, 0, room);
    lemma_string_at(q3, q1.len() as int, username);
    lemma_string_at(q3, q2.len() as int, ticker);
    assert(q2.subrange(0, q2.len() as int) =~= q2);
    lemma_piece_at(q2, q1, string_field(username));
    lemma_string_at(q2, 0, room);
    lemma_string_at(q2, q1.len() as int, username);
}

/// All possible messages the server sends to the client.
#[derive(Debug, Clone)]
pub enum ServerMessage {
    Login(LoginResponse),
    GetPeerAddress(GetPeerAddressResponse),
    WatchUser(WatchUserResponse),
    GetUserStatus(GetUserStatusResponse),
    SayChatroom(SayChatroomRecv),
    JoinRoom(JoinRoomResponse),
    LeaveRoom(String),
    UserJoinedRoom(UserJoinedRoom),
    UserLeftRoom(UserLeftRoom),
    ConnectToPeer(ConnectToPeerResponse),
    MessageUser(MessageUserRecv),
    FileSearch(FileSearchResponse),
    Relogged,
    GetUserStats(GetUserStatsResponse),
    Recommendations(RecommendationsResponse),
    GlobalRecommendations(RecommendationsResponse),
    UserInterests(UserInterestsResponse),
    RoomList(RoomListResponse),
    AdminMessage(AdminMessage),
    PrivilegedUsers(PrivilegedUsers),
    ParentMinSpeed(ParentMinSpeed),
    ParentSpeedRatio(ParentSpeedRatio),
    CheckPrivileges(CheckPrivilegesResponse),
    EmbeddedMessage(EmbeddedMessage),
    PossibleParents(PossibleParents),
    WishlistInterval(WishlistInterval),
    SimilarUsers(SimilarUsersResponse),
    RoomTickerState(RoomTickerState),
    RoomTickerAdd { room: String, username: String, ticker: String },
    RoomTickerRemove { room: String, username: String },
    GlobalRoomMessage(GlobalRoomMessage),
    ExcludedSearchPhrases(ExcludedSearchPhrases),
    CantConnectToPeer(CantConnectToPeerRecv),
    CantCreateRoom(String),
    RoomMembershipGranted(String),
    RoomMembershipRevoked(String),
    RoomOperatorshipGranted(String),
    RoomOperatorshipRevoked(String),
    EnableRoomInvitations(EnableRoomInvitations),
    ChangePassword(ChangePassword),
    AddRoomMember(AddRoomMember),
    RemoveRoomMember(RemoveRoomMember),
    AddRoomOperator(AddRoomOperator),
    RemoveRoomOperator(RemoveRoomOperator),
    ResetDistributed,
    /// Unknown or unsupported message code — raw payload preserved
    Unknown { code: u32, body: Vec<u8> },
}

impl ServerMessage {
    /// The server message codes that this codec decodes.
    pub open spec fn known_code(code: u32) -> bool {
        code == code::LOGIN || code == code::GET_PEER_ADDRESS || code == code::WATCH_USER || code == code::GET_USER_STATUS || code == code::SAY_CHATROOM || code == code::JOIN_ROOM || code == code::LEAVE_ROOM || code == code::USER_JOINED_ROOM || code == code::USER_LEFT_ROOM || code == code::CONNECT_TO_PEER || code == code::MESSAGE_USER || code == code::FILE_SEARCH || code == code::RELOGGED || code == code::GET_USER_STATS || code == code::RECOMMENDATIONS || code == code::GLOBAL_RECOMMENDATIONS || code == code::USER_INTERESTS || code == code::ROOM_LIST || code == code::ADMIN_MESSAGE || code == code::PRIVILEGED_USERS || code == code::PARENT_MIN_SPEED || code == code::PARENT_SPEED_RATIO || code == code::CHECK_PRIVILEGES || code == code::EMBEDDED_MESSAGE || code == code::POSSIBLE_PARENTS || code == code::WISHLIST_INTERVAL || code == code::SIMILAR_USERS || code == code::ROOM_TICKER_STATE || code == code::ROOM_TICKER_ADD || code == code::ROOM_TICKER_REMOVE || code == code::GLOBAL_ROOM_MESSAGE || code == code::EXCLUDED_SEARCH_PHRASES || code == code::CANT_CONNECT_TO_PEER || code == code::CANT_CREATE_ROOM || code == code::ROOM_MEMBERSHIP_GRANTED || code == code::ROOM_MEMBERSHIP_REVOKED || code == code::ROOM_OPERATORSHIP_GRANTED || code == code::ROOM_OPERATORSHIP_REVOKED || code == code::ENABLE_ROOM_INVITATIONS || code == code::CHANGE_PASSWORD || code == code::ADD_ROOM_MEMBER || code == code::REMOVE_ROOM_MEMBER || code == code::ADD_ROOM_OPERATOR || code == code::REMOVE_ROOM_OPERATOR || code == code::RESET_DISTRIBUTED
    }

    /// Decode a single server message from a `(code, body)` pair.
    #[verifier::rlimit(100)]
    pub fn decode(code: u32, body: &[u8]) -> (res: Result<Self>)
        ensures
            code == code::LOGIN ==> match LoginResponse::spec_decode(body@) {
                Ok(v) => res matches Ok(ServerMessage::Login(m)) && m@ == v,
                Err(f) => res matches Err(e) && fail_is(e, f),
            },
            code == code::GET_PEER_ADDRESS ==> match GetPeerAddressResponse::spec_decode(body@) {
                Ok(v) => res matches Ok(ServerMessage::GetPeerAddress(m)) && m@ == v,
                Err(f) => res matches Err(e) && fail_is(e, f),
            },
            code == code::WATCH_USER ==> match WatchUserResponse::spec_decode(body@) {
                Ok(v) => res matches Ok(ServerMessage::WatchUser(m)) && m@ == v,
                Err(f) => res matches Err(e) && fail_is(e, f),
            },
            code == code::GET_USER_STATUS ==> match GetUserStatusResponse::spec_decode(body@) {
                Ok(v) => res matches Ok(ServerMessage::GetUserStatus(m)) && m@ == v,
                Err(f) => res matches Err(e) && fail_is(e, f),
            },
            code == code::SAY_CHATROOM ==> match SayChatroomRecv::spec_decode(body@) {
                Ok(v) => res matches Ok(ServerMessage::SayChatroom(m)) && m@ == v,
                Err(f) => res matches Err(e) && fail_is(e, f),
            },
            code == code::JOIN_ROOM ==> match JoinRoomResponse::spec_decode(body@) {
                Ok(v) => res matches Ok(ServerMessage::JoinRoom(m)) && m@ == v,
                Err(f) => res matches Err(e) && fail_is(e, f),
            },
            code == code::LEAVE_ROOM ==> match value_of(p_string(body@, 0)) {
                Ok(v) => res matches Ok(ServerMessage::LeaveRoom(s)) && s@ == v,
                Err(f) => res matches Err(e) && fail_is(e, f),
            },
            code == code::USER_JOINED_ROOM ==> match UserJoinedRoom::spec_decode(body@) {
                Ok(v) => res matches Ok(ServerMessage::UserJoinedRoom(m)) && m@ == v,
                Err(f) => res matches Err(e) && fail_is(e, f),
            },
            code == code::USER_LEFT_ROOM ==> match UserLeftRoom::spec_decode(body@) {
                Ok(v) => res matches Ok(ServerMessage::UserLeftRoom(m)) && m@ == v,
                Err(f) => res matches Err(e) && fail_is(e, f),
            },
            code == code::CONNECT_TO_PEER ==> match ConnectToPeerResponse::spec_decode(body@) {
                Ok(v) => res matches Ok(ServerMessage::ConnectToPeer(m)) && m@ == v,
                Err(f) => res matches Err(e) && fail_is(e, f),
            },
            code == code::MESSAGE_USER ==> match MessageUserRecv::spec_decode(body@) {
                Ok(v) => res matches Ok(ServerMessage::MessageUser(m)) && m@ == v,
                Err(f) => res matches Err(e) && fail_is(e, f),
            },
            code == code::FILE_SEARCH ==> match zlib_inflate(body@) {
                Some(raw) => match FileSearchResponse::spec_decode_raw(raw) {
                    Ok(v) => res matches Ok(ServerMessage::FileSearch(m)) && m@ == v,
                    Err(f) => res matches Err(e) && fail_is(e, f),
                },
                None => res matches Err(Error::Zlib(_)),
            },
            code == code::RELOGGED ==> res matches Ok(ServerMessage::Relogged),
            code == code::GET_USER_STATS ==> match GetUserStatsResponse::spec_decode(body@) {
                Ok(v) => res matches Ok(ServerMessage::GetUserStats(m)) && m@ == v,
                Err(f) => res matches Err(e) && fail_is(e, f),
            },
            code == code::RECOMMENDATIONS ==> match RecommendationsResponse::spec_decode(body@) {
                Ok(v) => res matches Ok(ServerMessage::Recommendations(m)) && m@ == v,
                Err(f) => res matches Err(e) && fail_is(e, f),
            },
            code == code::GLOBAL_RECOMMENDATIONS ==> match RecommendationsResponse::spec_decode(body@) {
                Ok(v) => res matches Ok(ServerMessage::GlobalRecommendations(m)) && m@ == v,
                Err(f) => res matches Err(e) && fail_is(e, f),
            },
            code == code::USER_INTERESTS ==> match UserInterestsResponse::spec_decode(body@) {
                Ok(v) => res matches Ok(ServerMessage::UserInterests(m)) && m@ == v,
                Err(f) => res matches Err(e) && fail_is(e, f),
            },
            code == code::ROOM_LIST ==> match RoomListResponse::spec_decode(body@) {
                Ok(v) => res matches Ok(ServerMessage::RoomList(m)) && m@ == v,
                Err(f) => res matches Err(e) && fail_is(e, f),
            },
            code == code::ADMIN_MESSAGE ==> match AdminMessage::spec_decode(body@) {
                Ok(v) => res matches Ok(ServerMessage::AdminMessage(m)) && m@ == v,
                Err(f) => res matches Err(e) && fail_is(e, f),
            },
            code == code::PRIVILEGED_USERS ==> match PrivilegedUsers::spec_decode(body@) {
                Ok(v) => res matches Ok(ServerMessage::PrivilegedUsers(m)) && m@ == v,
                Err(f) => res matches Err(e) && fail_is(e, f),
            },
            code == code::PARENT_MIN_SPEED ==> match ParentMinSpeed::spec_decode(body@) {
                Ok(v) => res matches Ok(ServerMessage::ParentMinSpeed(m)) && m@ == v,
                Err(f) => res matches Err(e) && fail_is(e, f),
            },
            code == code::PARENT_SPEED_RATIO ==> match ParentSpeedRatio::spec_decode(body@) {
                Ok(v) => res matches Ok(ServerMessage::ParentSpeedRatio(m)) && m@ == v,
                Err(f) => res matches Err(e) && fail_is(e, f),
            },
            code == code::CHECK_PRIVILEGES ==> match CheckPrivilegesResponse::spec_decode(body@) {
                Ok(v) => res matches Ok(ServerMessage::CheckPrivileges(m)) && m@ == v,
                Err(f) => res matches Err(e) && fail_is(e, f),
            },
            code == code::EMBEDDED_MESSAGE ==> if body@.len() == 0 {
                res matches Err(Error::Protocol(m)) && m@ == "EmbeddedMessage body is empty"@
            } else {
                res matches Ok(ServerMessage::EmbeddedMessage(m)) && m@ == (body@[0], body@.subrange(1, body@.len() as int))
            },
            code == code::POSSIBLE_PARENTS ==> match PossibleParents::spec_decode(body@) {
                Ok(v) => res matches Ok(ServerMessage::PossibleParents(m)) && m@ == v,
                Err(f) => res matches Err(e) && fail_is(e, f),
            },
            code == code::WISHLIST_INTERVAL ==> match WishlistInterval::spec_decode(body@) {
                Ok(v) => res matches Ok(ServerMessage::WishlistInterval(m)) && m@ == v,
                Err(f) => res matches Err(e) && fail_is(e, f),
            },
            code == code::SIMILAR_USERS ==> match SimilarUsersResponse::spec_decode(body@) {
                Ok(v) => res matches Ok(ServerMessage::SimilarUsers(m)) && m@ == v,
                Err(f) => res matches Err(e) && fail_is(e, f),
            },
            code == code::ROOM_TICKER_STATE ==> match RoomTickerState::spec_decode(body@) {
                Ok(v) => res matches Ok(ServerMessage::RoomTickerState(m)) && m@ == v,
                Err(f) => res matches Err(e) && fail_is(e, f),
            },
            code == code::ROOM_TICKER_ADD ==> match spec_decode_ticker_add(body@) {
                Ok((r, u, t)) => res matches Ok(ServerMessage::RoomTickerAdd { room, username, ticker }) && room@ == r
                    && username@ == u && ticker@ == t,
                Err(f) => res matches Err(e) && fail_is(e, f),
            },
            code == code::ROOM_TICKER_REMOVE ==> match spec_decode_ticker_remove(body@) {
                Ok((r, u)) => res matches Ok(ServerMessage::RoomTickerRemove { room, username }) && room@ == r
                    && username@ == u,
                Err(f) => res matches Err(e) && fail_is(e, f),
            },
            code == code::GLOBAL_ROOM_MESSAGE ==> match GlobalRoomMessage::spec_decode(body@) {
                Ok(v) => res matches Ok(ServerMessage::GlobalRoomMessage(m)) && m@ == v,
                Err(f) => res matches Err(e) && fail_is(e, f),
            },
            code == code::EXCLUDED_SEARCH_PHRASES ==> match ExcludedSearchPhrases::spec_decode(body@) {
                Ok(v) => res matches Ok(ServerMessage::ExcludedSearchPhrases(m)) && m@ == v,
                Err(f) => res matches Err(e) && fail_is(e, f),
            },
            code == code::CANT_CONNECT_TO_PEER ==> match CantConnectToPeerRecv::spec_decode(body@) {
                Ok(v) => res matches Ok(ServerMessage::CantConnectToPeer(m)) && m@ == v,
                Err(f) => res matches Err(e) && fail_is(e, f),
            },
            code == code::CANT_CREATE_ROOM ==> match value_of(p_string(body@, 0)) {
                Ok(v) => res matches Ok(ServerMessage::CantCreateRoom(s)) && s@ == v,
                Err(f) => res matches Err(e) && fail_is(e, f),
            },
            code == code::ROOM_MEMBERSHIP_GRANTED ==> match value_of(p_string(body@, 0)) {
                Ok(v) => res matches Ok(ServerMessage::RoomMembershipGranted(s)) && s@ == v,
                Err(f) => res matches Err(e) && fail_is(e, f),
            },
            code == code::ROOM_MEMBERSHIP_REVOKED ==> match value_of(p_string(body@, 0)) {
                Ok(v) => res matches Ok(ServerMessage::RoomMembershipRevoked(s)) && s@ == v,
                Err(f) => res matches Err(e) && fail_is(e, f),
            },
            code == code::ROOM_OPERATORSHIP_GRANTED ==> match value_of(p_string(body@, 0)) {
                Ok(v) => res matches Ok(ServerMessage::RoomOperatorshipGranted(s)) && s@ == v,
                Err(f) => res matches Err(e) && fail_is(e, f),
            },
            code == code::ROOM_OPERATORSHIP_REVOKED ==> match value_of(p_string(body@, 0)) {
                Ok(v) => res matches Ok(ServerMessage::RoomOperatorshipRevoked(s)) && s@ == v,
                Err(f) => res matches Err(e) && fail_is(e, f),
            },
            code == code::ENABLE_ROOM_INVITATIONS ==> match EnableRoomInvitations::spec_decode(body@) {
                Ok(v) => res matches Ok(ServerMessage::EnableRoomInvitations(m)) && m@ == v,
                Err(f) => res matches Err(e) && fail_is(e, f),
            },
            code == code::CHANGE_PASSWORD ==> match ChangePassword::spec_decode(body@) {
                Ok(v) => res matches Ok(ServerMessage::ChangePassword(m)) && m@ == v,
                Err(f) => res matches Err(e) && fail_is(e, f),
            },
            code == code::ADD_ROOM_MEMBER ==> match AddRoomMember::spec_decode(body@) {
                Ok(v) => res matches Ok(ServerMessage::AddRoomMember(m)) && m@ == v,
                Err(f) => res matches Err(e) && fail_is(e, f),
            },
            code == code::REMOVE_ROOM_MEMBER ==> match RemoveRoomMember::spec_decode(body@) {
                Ok(v) => res matches Ok(ServerMessage::RemoveRoomMember(m)) && m@ == v,
                Err(f) => res matches Err(e) && fail_is(e, f),
            },
            code == code::ADD_ROOM_OPERATOR ==> match AddRoomOperator::spec_decode(body@) {
                Ok(v) => res matches Ok(ServerMessage::AddRoomOperator(m)) && m@ == v,
                Err(f) => res matches Err(e) && fail_is(e, f),
            },
            code == code::REMOVE_ROOM_OPERATOR ==> match RemoveRoomOperator::spec_decode(body@) {
                Ok(v) => res matches Ok(ServerMessage::RemoveRoomOperator(m)) && m@ == v,
                Err(f) => res matches Err(e) && fail_is(e, f),
            },
            code == code::RESET_DISTRIBUTED ==> res matches Ok(ServerMessage::ResetDistributed),
            !Self::known_code(code) ==> (res matches Ok(ServerMessage::Unknown { code: c, body: b }) && c == code && b@ == body@),
    {
        if code == code::LOGIN {
            Ok(Self::Login(LoginResponse::decode(body)?))
        } else if code == code::GET_PEER_ADDRESS {
            Ok(Self::GetPeerAddress(GetPeerAddressResponse::decode(body)?))
        } else if code == code::WATCH_USER {
            Ok(Self::WatchUser(WatchUserResponse::decode(body)?))
        } else if code == code::GET_USER_STATUS {
            Ok(Self::GetUserStatus(GetUserStatusResponse::decode(body)?))
        } else if code == code::SAY_CHATROOM {
            Ok(Self::SayChatroom(SayChatroomRecv::decode(body)?))
        } else if code == code::JOIN_ROOM {
            Ok(Self::JoinRoom(JoinRoomResponse::decode(body)?))
        } else if code == code::LEAVE_ROOM {
            Ok(Self::LeaveRoom(read_string(&mut ByteReader::new(body))?))
        } else if code == code::USER_JOINED_ROOM {
            Ok(Self::UserJoinedRoom(UserJoinedRoom::decode(body)?))
        } else if code == code::USER_LEFT_ROOM {
            Ok(Self::UserLeftRoom(UserLeftRoom::decode(body)?))
        } else if code == code::CONNECT_TO_PEER {
            Ok(Self::ConnectToPeer(ConnectToPeerResponse::decode(body)?))
        } else if code == code::MESSAGE_USER {
            Ok(Self::MessageUser(MessageUserRecv::decode(body)?))
        } else if code == code::FILE_SEARCH {
            Ok(Self::FileSearch(FileSearchResponse::decode_compressed(body)?))
        } else if code == code::RELOGGED {
            Ok(Self::Relogged)
        } else if code == code::GET_USER_STATS {
            Ok(Self::GetUserStats(GetUserStatsResponse::decode(body)?))
        } else if code == code::RECOMMENDATIONS {
            Ok(Self::Recommendations(RecommendationsResponse::decode(body)?))
        } else if code == code::GLOBAL_RECOMMENDATIONS {
            Ok(Self::GlobalRecommendations(RecommendationsResponse::decode(body)?))
        } else if code == code::USER_INTERESTS {
            Ok(Self::UserInterests(UserInterestsResponse::decode(body)?))
        } else if code == code::ROOM_LIST {
            Ok(Self::RoomList(RoomListResponse::decode(body)?))
        } else if code == code::ADMIN_MESSAGE {
            Ok(Self::AdminMessage(AdminMessage::decode(body)?))
        } else if code == code::PRIVILEGED_USERS {
            Ok(Self::PrivilegedUsers(PrivilegedUsers::decode(body)?))
        } else if code == code::PARENT_MIN_SPEED {
            Ok(Self::ParentMinSpeed(ParentMinSpeed::decode(body)?))
        } else if code == code::PARENT_SPEED_RATIO {
            Ok(Self::ParentSpeedRatio(ParentSpeedRatio::decode(body)?))
        } else if code == code::CHECK_PRIVILEGES {
            Ok(Self::CheckPrivileges(CheckPrivilegesResponse::decode(body)?))
        } else if code == code::EMBEDDED_MESSAGE {
            Ok(Self::EmbeddedMessage(EmbeddedMessage::decode(body)?))
        } else if code == code::POSSIBLE_PARENTS {
            Ok(Self::PossibleParents(PossibleParents::decode(body)?))
        } else if code == code::WISHLIST_INTERVAL {
            Ok(Self::WishlistInterval(WishlistInterval::decode(body)?))
        } else if code == code::SIMILAR_USERS {
            Ok(Self::SimilarUsers(SimilarUsersResponse::decode(body)?))
        } else if code == code::ROOM_TICKER_STATE {
            Ok(Self::RoomTickerState(RoomTickerState::decode(body)?))
        } else if code == code::ROOM_TICKER_ADD {
            {
                let mut cur = ByteReader::new(body);
                let room = read_string(&mut cur)?;
                let username = read_string(&mut cur)?;
                let ticker = read_string(&mut cur)?;
                Ok(Self::RoomTickerAdd { room, username, ticker })
            }
        } else if code == code::ROOM_TICKER_REMOVE {
            {
                let mut cur = ByteReader::new(body);
                let room = read_string(&mut cur)?;
                let username = read_string(&mut cur)?;
                Ok(Self::RoomTickerRemove { room, username })
            }
        } else if code == code::GLOBAL_ROOM_MESSAGE {
            Ok(Self::GlobalRoomMessage(GlobalRoomMessage::decode(body)?))
        } else if code == code::EXCLUDED_SEARCH_PHRASES {
            Ok(Self::ExcludedSearchPhrases(ExcludedSearchPhrases::decode(body)?))
        } else if code == code::CANT_CONNECT_TO_PEER {
            Ok(Self::CantConnectToPeer(CantConnectToPeerRecv::decode(body)?))
        } else if code == code::CANT_CREATE_ROOM {
            Ok(Self::CantCreateRoom(read_string(&mut ByteReader::new(body))?))
        } else if code == code::ROOM_MEMBERSHIP_GRANTED {
            Ok(Self::RoomMembershipGranted(read_string(&mut ByteReader::new(body))?))
        } else if code == code::ROOM_MEMBERSHIP_REVOKED {
            Ok(Self::RoomMembershipRevoked(read_string(&mut ByteReader::new(body))?))
        } else if code == code::ROOM_OPERATORSHIP_GRANTED {
            Ok(Self::RoomOperatorshipGranted(read_string(&mut ByteReader::new(body))?))
        } else if code == code::ROOM_OPERATORSHIP_REVOKED {
            Ok(Self::RoomOperatorshipRevoked(read_string(&mut ByteReader::new(body))?))
        } else if code == code::ENABLE_ROOM_INVITATIONS {
            Ok(Self::EnableRoomInvitations(EnableRoomInvitations::decode(body)?))
        } else if code == code::CHANGE_PASSWORD {
            Ok(Self::ChangePassword(ChangePassword::decode(body)?))
        } else if code == code::ADD_ROOM_MEMBER {
            Ok(Self::AddRoomMember(AddRoomMember::decode(body)?))
        } else if code == code::REMOVE_ROOM_MEMBER {
            Ok(Self::RemoveRoomMember(RemoveRoomMember::decode(body)?))
        } else if code == code::ADD_ROOM_OPERATOR {
            Ok(Self::AddRoomOperator(AddRoomOperator::decode(body)?))
        } else if code == code::REMOVE_ROOM_OPERATOR {
            Ok(Self::RemoveRoomOperator(RemoveRoomOperator::decode(body)?))
        } else if code == code::RESET_DISTRIBUTED {
            Ok(Self::ResetDistributed)
        } else {
            Ok(Self::Unknown { code, body: slice_to_vec(body) })
        }
    }
}


} // verus!
