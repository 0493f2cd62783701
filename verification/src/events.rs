//! Events from the network layer to the client state, and commands from the
//! client state to the network layer.
use vstd::prelude::*;
use crate::client::{SearchResult, SearchResultModel};
use crate::wire::views;

verus! {

/// Events emitted by the async network layer and consumed by the UI loop.
#[derive(Debug)]
pub enum AppEvent {
    /// Login succeeded.
    LoginOk { greet: String },
    /// Login failed.
    LoginFailed { reason: String },
    /// A batch of search results arrived for the given token.
    SearchResults { token: u32, results: Vec<SearchResult> },
    /// A download's byte progress was updated.
    DownloadProgress { id: usize, downloaded: u64, total: u64 },
    /// A download completed successfully.
    DownloadDone { id: usize },
    /// A download failed.
    DownloadFailed { id: usize, reason: String },
    /// A peer connection was rejected or the peer queue-denied the transfer.
    TransferDenied { id: usize, reason: String },
    /// Our position in the peer's upload queue was updated.
    QueuePosition { id: usize, position: u32 },
    /// Generic log message from the network layer.
    Log(String),
}

/// An event, by value.
pub ghost enum AppEventModel {
    LoginOk { greet: Seq<char> },
    LoginFailed { reason: Seq<char> },
    SearchResults { token: u32, results: Seq<SearchResultModel> },
    DownloadProgress { id: usize, downloaded: u64, total: u64 },
    DownloadDone { id: usize },
    DownloadFailed { id: usize, reason: Seq<char> },
    TransferDenied { id: usize, reason: Seq<char> },
    QueuePosition { id: usize, position: u32 },
    Log(Seq<char>),
}

impl View for AppEvent {
    type V = AppEventModel;

    open spec fn view(&self) -> AppEventModel {
        match self {
            AppEvent::LoginOk { greet } => AppEventModel::LoginOk { greet: greet@ },
            AppEvent::LoginFailed { reason } => AppEventModel::LoginFailed { reason: reason@ },
            AppEvent::SearchResults { token, results } => AppEventModel::SearchResults {
                token: *token,
                results: views(results@),
            },
            AppEvent::DownloadProgress { id, downloaded, total } => AppEventModel::DownloadProgress {
                id: *id,
                downloaded: *downloaded,
                total: *total,
            },
            AppEvent::DownloadDone { id } => AppEventModel::DownloadDone { id: *id },
            AppEvent::DownloadFailed { id, reason } => AppEventModel::DownloadFailed { id: *id, reason: reason@ },
            AppEvent::TransferDenied { id, reason } => AppEventModel::TransferDenied { id: *id, reason: reason@ },
            AppEvent::QueuePosition { id, position } => AppEventModel::QueuePosition {
                id: *id,
                position: *position,
            },
            AppEvent::Log(msg) => AppEventModel::Log(msg@),
        }
    }
}

/// Commands the UI sends to the network actor.
#[derive(Debug)]
pub enum NetCommand {
    /// Issue a file search.
    Search { token: u32, query: String },
    /// Enqueue a file download.
    Download { id: usize, username: String, filename: String, size: u64 },
}

/// A command, by value.
pub ghost enum NetCommandModel {
    Search { token: u32, query: Seq<char> },
    Download { id: usize, username: Seq<char>, filename: Seq<char>, size: u64 },
}

impl View for NetCommand {
    type V = NetCommandModel;

    open spec fn view(&self) -> NetCommandModel {
        match self {
            NetCommand::Search { token, query } => NetCommandModel::Search { token: *token, query: query@ },
            NetCommand::Download { id, username, filename, size } => NetCommandModel::Download {
                id: *id,
                username: username@,
                filename: filename@,
                size: *size,
            },
        }
    }
}

} // verus!
