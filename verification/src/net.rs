//! The decisions of the network actor: what to send for a command, what a
//! server or peer message leads to, and how a file transfer ends. The actor
//! itself (sockets, tasks, channels) performs what these functions decide.
use vstd::prelude::*;
use crate::client::{basename, concat, file_basename, results_for, search_results_from, transfer_complete};
use crate::error::{decimal, decimal_string};
use crate::events::{AppEvent, AppEventModel};
use crate::peer::{code as peer_code, FileSearchResponse, PeerMessage, QueueUpload, TransferRequest, UploadDenied};
use crate::server::{code as server_code, ConnectToPeerRequest, FileSearchRequest, LoginResponse, ServerMessage};
use crate::types::TransferDirection;
use crate::wire::{frame_u32, string_field, u32_le, views};
use crate::zlib::zlib_inflate;
use vstd::string::StrSliceExecFns;
use std::collections::HashMap;
use vstd::std_specs::hash::spec_hash_map_iter;
use vstd::std_specs::iter::IteratorSpec;

verus! {

broadcast use vstd::std_specs::hash::group_hash_axioms;

/// The port on which the client listens for peer connections.
pub const LISTEN_PORT: u16 = 2234;

/// A download that waits for its transfer.
#[derive(Debug, Clone)]
pub struct PendingDownload {
    pub id: usize,
    pub filename: String,
    pub size: u64,
}

/// A pending download, by value: id, file name, size.
pub type PendingView = (usize, Seq<char>, u64);

impl View for PendingDownload {
    type V = PendingView;

    open spec fn view(&self) -> PendingView {
        (self.id, self.filename@, self.size)
    }
}

/// Some pending download has this file name.
pub open spec fn has_filename(p: Map<u32, PendingView>, name: Seq<char>) -> bool {
    exists|k: u32| p.contains_key(k) && #[trigger] p[k].1 == name
}

/// The upload request for a file name.
pub open spec fn queue_frame(name: Seq<char>) -> Seq<u8> {
    frame_u32(peer_code::QUEUE_UPLOAD, string_field(name))
}

/// Each token of the map once, in some order.
pub open spec fn each_key_once(ks: Seq<u32>, p: Map<u32, PendingView>) -> bool {
    &&& ks.no_duplicates()
    &&& ks.len() == p.dom().len()
    &&& forall|i: int| 0 <= i < ks.len() ==> p.contains_key(#[trigger] ks[i])
}

/// One upload request per pending download, in some order of the tokens.
pub open spec fn one_frame_each(frames: Seq<Seq<u8>>, p: Map<u32, PendingView>) -> bool {
    exists|ks: Seq<u32>|
        #[trigger] each_key_once(ks, p) && frames.len() == ks.len() && forall|i: int|
            0 <= i < ks.len() ==> #[trigger] frames[i] == queue_frame(p[ks[i]].1)
}

/// The state of the network actor, by value.
pub ghost struct NetModel {
    pub current_search_token: Option<u32>,
    pub token_counter: usize,
    /// The downloads waiting for their transfer, by transfer token.
    pub pending: Map<u32, PendingView>,
}

/// The state of the network actor: the search whose results are wanted, the
/// next transfer token, and the downloads waiting for their transfer.
pub struct NetState {
    current_search_token: Option<u32>,
    token_counter: usize,
    pending: HashMap<u32, PendingDownload>,
}

impl View for NetState {
    type V = NetModel;

    closed spec fn view(&self) -> NetModel {
        NetModel {
            current_search_token: self.current_search_token,
            token_counter: self.token_counter,
            pending: self.pending@.map_values(|d: PendingDownload| d@),
        }
    }
}

/// Where a peer can be reached, as the server relays it.
#[derive(Debug, Clone)]
pub struct PeerTarget {
    pub ip: u32,
    pub port: u32,
    pub username: String,
    pub token: u32,
}

/// What a message on a peer connection leads to.
#[derive(Debug)]
pub enum PeerReaction {
    /// A search response to hand to the actor.
    Forward(FileSearchResponse),
    /// An event for the client.
    Notify(AppEvent),
    /// Nothing.
    Ignore,
}

/// A file transfer under way.
#[derive(Debug, Clone)]
pub struct FileTransfer {
    pub token: u32,
    pub id: usize,
    /// The file name without its folders.
    pub name: String,
    pub downloaded: u64,
    pub total: u64,
}

/// `s` is the one-letter text `c`.
fn is_letter(s: &str, c: char) -> (b: bool)
    ensures
        b == (s@ == seq![c]),
{
    if s.unicode_len() == 1 {
        let first = s.get_char(0);
        if first == c {
            assert(s@ =~= seq![c]);
            true
        } else {
            false
        }
    } else {
        false
    }
}

/// Three texts one after another.
fn concat3(a: &str, b: &str, c: &str) -> (s: String)
    ensures
        s@ == a@ + b@ + c@,
{
    let ab = concat(a, b);
    concat(ab.as_str(), c)
}

/// The log line after a search was sent.
pub fn search_sent_message(query: &str) -> (m: String)
    ensures
        m@ == "Search sent for '"@ + query@ + "'"@,
{
    concat3("Search sent for '", query, "'")
}

/// The log line after a connection to a peer was requested.
pub fn connect_request_message(username: &str, filename: &str) -> (m: String)
    ensures
        m@ == "Requesting connection to "@ + username@ + " for '"@ + filename@ + "'"@,
{
    let a = concat3("Requesting connection to ", username, " for '");
    concat3(a.as_str(), filename, "'")
}

/// The log line for a transfer token that no download waits under.
pub fn unknown_token_message(token: u32) -> (m: String)
    ensures
        m@ == "Unknown transfer token "@ + decimal(token as nat),
{
    let digits = decimal_string(token as u64);
    concat("Unknown transfer token ", digits.as_str())
}

/// The events for the server's answer to the login: whether the session goes
/// on, and what the client is told.
pub fn login_events(resp: &LoginResponse) -> (r: (bool, Vec<AppEvent>))
    ensures
        match resp {
            LoginResponse::Success { greet, .. } => r.0 && r.1@.map_values(|e: AppEvent| e@) == seq![
                AppEventModel::LoginOk { greet: greet@ },
                AppEventModel::Log("Login OK: "@ + greet@),
            ],
            LoginResponse::Failure { reason, .. } => !r.0 && r.1@.map_values(|e: AppEvent| e@) == seq![
                AppEventModel::LoginFailed { reason: reason@ },
                AppEventModel::Log("Login FAILED: "@ + reason@),
            ],
        },
{
    let mut events: Vec<AppEvent> = Vec::new();
    match resp {
        LoginResponse::Success { greet, .. } => {
            events.push(AppEvent::LoginOk { greet: greet.clone() });
            events.push(AppEvent::Log(concat("Login OK: ", greet.as_str())));
            assert(events@.map_values(|e: AppEvent| e@) =~= seq![
                AppEventModel::LoginOk { greet: greet@ },
                AppEventModel::Log("Login OK: "@ + greet@),
            ]);
            (true, events)
        },
        LoginResponse::Failure { reason, .. } => {
            events.push(AppEvent::LoginFailed { reason: reason.clone() });
            events.push(AppEvent::Log(concat("Login FAILED: ", reason.as_str())));
            assert(events@.map_values(|e: AppEvent| e@) =~= seq![
                AppEventModel::LoginFailed { reason: reason@ },
                AppEventModel::Log("Login FAILED: "@ + reason@),
            ]);
            (false, events)
        },
    }
}

/// Where a server message asks us to connect: a relayed peer connection
/// request of type `P`. Every other message is left alone.
pub fn peer_target(msg: &ServerMessage) -> (t: Option<PeerTarget>)
    ensures
        match msg {
            ServerMessage::ConnectToPeer(c) => if c.conn_type@ == seq!['P'] {
                t matches Some(x) && x.ip == c.ip && x.port == c.port && x.username@ == c.username@ && x.token
                    == c.token
            } else {
                t is None
            },
            _ => t is None,
        },
{
    match msg {
        ServerMessage::ConnectToPeer(c) => {
            if is_letter(c.conn_type.as_str(), 'P') {
                Some(PeerTarget { ip: c.ip, port: c.port, username: c.username.clone(), token: c.token })
            } else {
                None
            }
        },
        _ => None,
    }
}

impl FileTransfer {
    /// The log line when the file starts to arrive.
    pub fn receiving_message(&self) -> (m: String)
        ensures
            m@ == "Receiving '"@ + self.name@ + "'…"@,
    {
        concat3("Receiving '", self.name.as_str(), "'…")
    }

    /// Counts `n` more bytes received: the progress event, and whether the
    /// file is now complete.
    pub fn on_chunk(&mut self, n: u64) -> (r: (AppEvent, bool))
        requires
            old(self).downloaded + n <= u64::MAX,
        ensures
            *final(self) == (FileTransfer { downloaded: (old(self).downloaded + n) as u64, ..*old(self) }),
            r.0@ == (AppEventModel::DownloadProgress {
                id: old(self).id,
                downloaded: final(self).downloaded,
                total: old(self).total,
            }),
            r.1 == (old(self).total > 0 && final(self).downloaded >= old(self).total),
    {
        self.downloaded = self.downloaded + n;
        let ev = AppEvent::DownloadProgress { id: self.id, downloaded: self.downloaded, total: self.total };
        (ev, transfer_complete(self.downloaded, self.total))
    }
}

impl NetState {
    /// No search yet, the first transfer token is 1, nothing pending.
    pub fn new() -> (s: Self)
        ensures
            s@ == (NetModel { current_search_token: None, token_counter: 1, pending: Map::empty() }),
    {
        let s = NetState { current_search_token: None, token_counter: 1, pending: HashMap::new() };
        assert(s.pending@.map_values(|d: PendingDownload| d@) =~= Map::empty());
        s
    }

    /// A search goes out: its token becomes the one whose results are
    /// wanted; returns the request frame for the server.
    pub fn on_search(&mut self, token: u32, query: String) -> (frame: Vec<u8>)
        ensures
            final(self)@ == (NetModel { current_search_token: Some(token), ..old(self)@ }),
            frame@ == frame_u32(server_code::FILE_SEARCH, u32_le(token) + string_field(query@)),
    {
        self.current_search_token = Some(token);
        let req = FileSearchRequest { token, query };
        req.encode()
    }

    /// A download is requested: it waits under the next transfer token (the
    /// counter moves on, wrapping; a download already under that token is
    /// replaced), and the server is asked to connect us to the peer under
    /// that token; returns the token and the request frame.
    pub fn on_download(&mut self, id: usize, username: String, filename: String, size: u64) -> (r: (u32, Vec<u8>))
        ensures
            r.0 == old(self)@.token_counter as u32,
            final(self)@ == (NetModel {
                token_counter: if old(self)@.token_counter == usize::MAX {
                    0
                } else {
                    (old(self)@.token_counter + 1) as usize
                },
                pending: old(self)@.pending.insert(r.0, (id, filename@, size)),
                ..old(self)@
            }),
            r.1@ == frame_u32(
                server_code::CONNECT_TO_PEER,
                u32_le(r.0) + string_field(username@) + string_field(seq!['P']),
            ),
    {
        let tok = self.token_counter as u32;
        self.token_counter = if self.token_counter == usize::MAX { 0 } else { self.token_counter + 1 };
        let dl = PendingDownload { id, filename, size };
        let ghost v = dl@;
        let ghost before = self.pending@;
        self.pending.insert(tok, dl);
        assert(self.pending@.map_values(|d: PendingDownload| d@) =~= before.map_values(
            |d: PendingDownload| d@,
        ).insert(tok, v));
        let p_letter = String::from_str("P");
        proof {
            reveal_strlit("P");
        }
        let ghost name = username@;
        let req = ConnectToPeerRequest { token: tok, username, conn_type: p_letter };
        assert(req.conn_type@ == seq!['P']);
        assert(req.spec_body() == u32_le(tok) + string_field(name) + string_field(seq!['P']));
        (tok, req.encode())
    }

    /// A search response relayed by a peer task: the results it adds to the
    /// current search, when it answers that search and lists any.
    pub fn on_search_response(&self, resp: &FileSearchResponse) -> (ev: Option<AppEvent>)
        ensures
            ({
                let rs = results_for(resp@, self@.current_search_token);
                if rs.len() > 0 {
                    ev matches Some(e) && e@ == (AppEventModel::SearchResults { token: resp.token, results: rs })
                } else {
                    ev is None
                }
            }),
    {
        let results = search_results_from(resp, self.current_search_token);
        if results.len() > 0 {
            Some(AppEvent::SearchResults { token: resp.token, results })
        } else {
            None
        }
    }

    /// What a message on a peer connection leads to: a search response that
    /// decodes is forwarded; an upload offered for a pending file name is
    /// logged; a refusal of a pending file fails that download, which stops
    /// waiting (when several pending downloads have the file name, one of
    /// them). Every other message changes nothing.
    pub fn on_peer_message(&mut self, msg: &PeerMessage) -> (r: PeerReaction)
        ensures
            match msg {
                PeerMessage::FileSearchResponse(raw) => final(self)@ == old(self)@ && match zlib_inflate(raw@) {
                    Some(d) => match FileSearchResponse::spec_decode_raw(d) {
                        Ok(v) => r matches PeerReaction::Forward(x) && x@ == v,
                        Err(_) => r is Ignore,
                    },
                    None => r is Ignore,
                },
                PeerMessage::TransferRequest(req) => final(self)@ == old(self)@ && if req.direction
                    == TransferDirection::Upload && has_filename(old(self)@.pending, req.filename@) {
                    r matches PeerReaction::Notify(e) && e@ == AppEventModel::Log(
                        "Transfer starting: "@ + req.filename@,
                    )
                } else {
                    r is Ignore
                },
                PeerMessage::UploadDenied(d) => if has_filename(old(self)@.pending, d.filename@) {
                    exists|k: u32|
                        {
                            &&& old(self)@.pending.contains_key(k)
                            &&& #[trigger] old(self)@.pending[k].1 == d.filename@
                            &&& final(self)@ == (NetModel { pending: old(self)@.pending.remove(k), ..old(self)@ })
                            &&& r matches PeerReaction::Notify(e) && e@ == (AppEventModel::TransferDenied {
                                id: old(self)@.pending[k].0,
                                reason: d.reason@,
                            })
                        }
                } else {
                    final(self)@ == old(self)@ && r is Ignore
                },
                _ => final(self)@ == old(self)@ && r is Ignore,
            },
    {
        match msg {
            PeerMessage::FileSearchResponse(raw) => {
                match FileSearchResponse::decode_compressed(raw.as_slice()) {
                    Ok(resp) => PeerReaction::Forward(resp),
                    Err(_) => PeerReaction::Ignore,
                }
            },
            PeerMessage::TransferRequest(req) => {
                match self.transfer_starting(req) {
                    Some(ev) => PeerReaction::Notify(ev),
                    None => PeerReaction::Ignore,
                }
            },
            PeerMessage::UploadDenied(d) => {
                match self.deny(d) {
                    Some(ev) => PeerReaction::Notify(ev),
                    None => PeerReaction::Ignore,
                }
            },
            _ => PeerReaction::Ignore,
        }
    }

    /// The token of a pending download with this file name, if any.
    fn token_of_file(&self, name: &str) -> (r: Option<u32>)
        ensures
            match r {
                Some(k) => self@.pending.contains_key(k) && self@.pending[k].1 == name@,
                None => !has_filename(self@.pending, name@),
            },
    {
        for (k, v) in it: self.pending.iter()
            invariant
                forall|i: int| 0 <= i < it.index() ==> (*it.seq()[i].1).filename@ != name@,
        {
            if same_text(v.filename.as_str(), name) {
                return Some(*k);
            }
        }
        None
    }

    /// The log event for an upload offered for a pending file name.
    fn transfer_starting(&self, req: &TransferRequest) -> (ev: Option<AppEvent>)
        ensures
            if req.direction == TransferDirection::Upload && has_filename(self@.pending, req.filename@) {
                ev matches Some(e) && e@ == AppEventModel::Log("Transfer starting: "@ + req.filename@)
            } else {
                ev is None
            },
    {
        match req.direction {
            TransferDirection::Upload => {},
            TransferDirection::Download => {
                return None;
            },
        }
        match self.token_of_file(req.filename.as_str()) {
            Some(_) => Some(AppEvent::Log(concat("Transfer starting: ", req.filename.as_str()))),
            None => None,
        }
    }

    /// A pending download of the refused file stops waiting, refused.
    fn deny(&mut self, d: &UploadDenied) -> (ev: Option<AppEvent>)
        ensures
            if has_filename(old(self)@.pending, d.filename@) {
                exists|k: u32|
                    {
                        &&& old(self)@.pending.contains_key(k)
                        &&& #[trigger] old(self)@.pending[k].1 == d.filename@
                        &&& final(self)@ == (NetModel { pending: old(self)@.pending.remove(k), ..old(self)@ })
                        &&& ev matches Some(e) && e@ == (AppEventModel::TransferDenied {
                            id: old(self)@.pending[k].0,
                            reason: d.reason@,
                        })
                    }
            } else {
                final(self)@ == old(self)@ && ev is None
            },
    {
        match self.token_of_file(d.filename.as_str()) {
            Some(k) => {
                let ghost before = self.pending@;
                let removed = self.pending.remove(&k);
                assert(self.pending@.map_values(|x: PendingDownload| x@) =~= before.map_values(
                    |x: PendingDownload| x@,
                ).remove(k));
                match removed {
                    Some(dl) => Some(AppEvent::TransferDenied { id: dl.id, reason: d.reason.clone() }),
                    None => None,
                }
            },
            None => None,
        }
    }

    /// The upload requests to send a peer before its connection is left: one
    /// per pending download, in the map's order.
    pub fn queue_uploads(&self) -> (frames: Vec<Vec<u8>>)
        ensures
            one_frame_each(views(frames@), self@.pending),
    {
        let ghost items = spec_hash_map_iter(&self.pending).remaining();
        let ghost m = self@.pending;
        let mut frames: Vec<Vec<u8>> = Vec::new();
        for (k, v) in it: self.pending.iter()
            invariant
                it.seq() == items,
                frames@.len() == it.index(),
                forall|i: int|
                    0 <= i < it.index() ==> #[trigger] frames@[i]@ == queue_frame((*items[i].1).filename@),
        {
            let qu = QueueUpload { filename: v.filename.clone() };
            frames.push(qu.encode());
        }
        let ghost fs = views(frames@);
        let ghost ks = items.map_values(|e: (&u32, &PendingDownload)| *e.0);
        assert(items.len() == self.pending@.dom().len());
        assert(m.dom() =~= self.pending@.dom());
        assert forall|i: int| 0 <= i < ks.len() implies m.contains_key(#[trigger] ks[i]) && fs[i] == queue_frame(
            m[ks[i]].1,
        ) by {
            assert(self.pending@.contains_key(*items[i].0) && self.pending@[*items[i].0] == *items[i].1);
            assert(fs[i] == frames@[i]@);
        }
        assert(ks.no_duplicates()) by {
            assert forall|i: int, j: int| 0 <= i < ks.len() && 0 <= j < ks.len() && i != j implies ks[i] != ks[j] by {
                assert(self.pending@.contains_key(*items[i].0) && self.pending@[*items[i].0] == *items[i].1);
                assert(self.pending@.contains_key(*items[j].0) && self.pending@[*items[j].0] == *items[j].1);
                if ks[i] == ks[j] {
                    assert(items[i] == items[j]);
                }
            }
        }
        assert(each_key_once(ks, m));
        frames
    }

    /// A file connection announced this token: the transfer of the download
    /// that waits under it, if any, from zero bytes on.
    pub fn begin_transfer(&self, token: u32) -> (t: Option<FileTransfer>)
        ensures
            if self@.pending.contains_key(token) {
                let v = self@.pending[token];
                t matches Some(x) && x.token == token && x.id == v.0 && x.name@ == basename(v.1) && x.downloaded
                    == 0 && x.total == v.2
            } else {
                t is None
            },
    {
        match self.pending.get(&token) {
            Some(dl) => Some(
                FileTransfer {
                    token,
                    id: dl.id,
                    name: file_basename(dl.filename.as_str()),
                    downloaded: 0,
                    total: dl.size,
                },
            ),
            None => None,
        }
    }

    /// The transfer is over: its download stops waiting, and the client is
    /// told it completed, or failed with the bytes it got.
    pub fn finish_transfer(&mut self, t: &FileTransfer) -> (events: Vec<AppEvent>)
        ensures
            final(self)@ == (NetModel { pending: old(self)@.pending.remove(t.token), ..old(self)@ }),
            events@.map_values(|e: AppEvent| e@) == if t.total > 0 && t.downloaded >= t.total {
                seq![AppEventModel::DownloadDone { id: t.id }, AppEventModel::Log("Download complete: "@ + t.name@)]
            } else {
                seq![
                    AppEventModel::DownloadFailed {
                        id: t.id,
                        reason: "incomplete: "@ + decimal(t.downloaded as nat) + "/"@ + decimal(t.total as nat)
                            + " bytes"@,
                    },
                ]
            },
    {
        let ghost before = self.pending@;
        let _ = self.pending.remove(&t.token);
        assert(self.pending@.map_values(|x: PendingDownload| x@) =~= before.map_values(
            |x: PendingDownload| x@,
        ).remove(t.token));
        let mut events: Vec<AppEvent> = Vec::new();
        if transfer_complete(t.downloaded, t.total) {
            events.push(AppEvent::DownloadDone { id: t.id });
            events.push(AppEvent::Log(concat("Download complete: ", t.name.as_str())));
            assert(events@.map_values(|e: AppEvent| e@) =~= seq![
                AppEventModel::DownloadDone { id: t.id },
                AppEventModel::Log("Download complete: "@ + t.name@),
            ]);
        } else {
            let d = decimal_string(t.downloaded);
            let total = decimal_string(t.total);
            let a = concat3("incomplete: ", d.as_str(), "/");
            let reason = concat3(a.as_str(), total.as_str(), " bytes");
            events.push(AppEvent::DownloadFailed { id: t.id, reason });
            assert(events@.map_values(|e: AppEvent| e@) =~= seq![
                AppEventModel::DownloadFailed {
                    id: t.id,
                    reason: "incomplete: "@ + decimal(t.downloaded as nat) + "/"@ + decimal(t.total as nat)
                        + " bytes"@,
                },
            ]);
        }
        events
    }
}

/// Two texts are the same.
fn same_text(a: &str, b: &str) -> (r: bool)
    ensures
        r == (a@ == b@),
{
    let n = a.unicode_len();
    if n != b.unicode_len() {
        return false;
    }
    let mut i: usize = 0;
    while i < n
        invariant
            n == a@.len() == b@.len(),
            i <= n,
            forall|j: int| 0 <= j < i ==> a@[j] == b@[j],
        decreases n - i,
    {
        if a.get_char(i) != b.get_char(i) {
            return false;
        }
        i = i + 1;
    }
    assert(a@ =~= b@);
    true
}

} // verus!
