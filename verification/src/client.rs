//! State of the terminal client: tabs, search results, downloads, the log
//! pane, and how they change on user input and network events.
//!
//! The state is modelled by [`AppModel`]; every operation is a spec function
//! on the model, and the executable method is proved to follow it. The
//! operations that talk to the network return the commands to send.
pub mod laws;

use vstd::prelude::*;
use crate::error::{decimal, decimal_string};
use crate::events::{AppEvent, AppEventModel, NetCommand, NetCommandModel};
use crate::peer::{FileSearchResponse, FileSearchResponseView};
use crate::shared_files::FileEntryView;
use crate::wire::views;
use vstd::string::StrSliceExecFns;

verus! {

// ── Tabs ──────────────────────────────────────────────────────────────────────

#[derive(Debug, Clone, Copy, PartialEq, Eq, Structural)]
pub enum ActiveTab {
    Search,
    Downloads,
}

impl ActiveTab {
    pub fn next(self) -> (t: Self)
        ensures
            t == (if self == ActiveTab::Search { ActiveTab::Downloads } else { ActiveTab::Search }),
    {
        match self {
            Self::Search => Self::Downloads,
            Self::Downloads => Self::Search,
        }
    }

    pub fn previous(self) -> (t: Self)
        ensures
            t == (if self == ActiveTab::Search { ActiveTab::Downloads } else { ActiveTab::Search }),
    {
        match self {
            Self::Search => Self::Downloads,
            Self::Downloads => Self::Search,
        }
    }

    pub fn index(self) -> (i: usize)
        ensures
            i == (if self == ActiveTab::Search { 0usize } else { 1usize }),
    {
        match self {
            Self::Search => 0,
            Self::Downloads => 1,
        }
    }
}

// ── Downloads ─────────────────────────────────────────────────────────────────

#[derive(Debug, Clone, PartialEq, Eq)]
pub enum DownloadStatus {
    Queued,
    InProgress { downloaded: u64, total: u64 },
    Done,
    Failed(String),
}

/// A download status, by value.
pub ghost enum DownloadStatusModel {
    Queued,
    InProgress { downloaded: u64, total: u64 },
    Done,
    Failed(Seq<char>),
}

impl View for DownloadStatus {
    type V = DownloadStatusModel;

    open spec fn view(&self) -> DownloadStatusModel {
        match self {
            DownloadStatus::Queued => DownloadStatusModel::Queued,
            DownloadStatus::InProgress { downloaded, total } => DownloadStatusModel::InProgress {
                downloaded: *downloaded,
                total: *total,
            },
            DownloadStatus::Done => DownloadStatusModel::Done,
            DownloadStatus::Failed(reason) => DownloadStatusModel::Failed(reason@),
        }
    }
}

#[derive(Debug, Clone)]
pub struct SearchResult {
    pub username: String,
    pub filename: String,
    pub size: u64,
    pub extension: String,
}

/// A search result, by value.
pub ghost struct SearchResultModel {
    pub username: Seq<char>,
    pub filename: Seq<char>,
    pub size: u64,
    pub extension: Seq<char>,
}

impl View for SearchResult {
    type V = SearchResultModel;

    open spec fn view(&self) -> SearchResultModel {
        SearchResultModel {
            username: self.username@,
            filename: self.filename@,
            size: self.size,
            extension: self.extension@,
        }
    }
}

#[derive(Debug, Clone)]
pub struct Download {
    /// Stable identifier used to match progress events.
    pub id: usize,
    pub username: String,
    pub filename: String,
    pub size: u64,
    pub status: DownloadStatus,
}

/// A download, by value.
pub ghost struct DownloadModel {
    pub id: usize,
    pub username: Seq<char>,
    pub filename: Seq<char>,
    pub size: u64,
    pub status: DownloadStatusModel,
}

impl View for Download {
    type V = DownloadModel;

    open spec fn view(&self) -> DownloadModel {
        DownloadModel {
            id: self.id,
            username: self.username@,
            filename: self.filename@,
            size: self.size,
            status: self.status@,
        }
    }
}

#[derive(Debug, Clone, Copy, PartialEq, Eq, Structural)]
pub enum LoginStatus {
    Connecting,
    LoggedIn,
    Failed,
}

#[derive(Debug, Clone, Copy, PartialEq, Eq, Structural)]
pub enum SearchInputMode {
    /// Navigating the results list
    Normal,
    /// Typing in the search box
    Editing,
}


// ── Keys ──────────────────────────────────────────────────────────────────────

/// A key press, as far as the client tells keys apart.
#[derive(Debug, Clone, Copy, PartialEq, Eq, Structural)]
pub enum Key {
    Char(char),
    Enter,
    Esc,
    Backspace,
    Tab,
    BackTab,
    Up,
    Down,
    PageUp,
    PageDown,
    Other,
}

// ── Text helpers ──────────────────────────────────────────────────────────────

/// A character of the Unicode `White_Space` property, which `char::is_whitespace` tests.
pub open spec fn is_white_space(c: char) -> bool {
    let n = c as u32;
    ||| 0x09 <= n <= 0x0d
    ||| n == 0x20
    ||| n == 0x85
    ||| n == 0xa0
    ||| n == 0x1680
    ||| 0x2000 <= n <= 0x200a
    ||| n == 0x2028
    ||| n == 0x2029
    ||| n == 0x202f
    ||| n == 0x205f
    ||| n == 0x3000
}

/// How many whitespace characters `s` starts with.
pub open spec fn leading_white_space(s: Seq<char>) -> nat
    decreases s.len(),
{
    if s.len() > 0 && is_white_space(s[0]) {
        1 + leading_white_space(s.drop_first())
    } else {
        0
    }
}

/// How many whitespace characters `s` ends with.
pub open spec fn trailing_white_space(s: Seq<char>) -> nat
    decreases s.len(),
{
    if s.len() > 0 && is_white_space(s.last()) {
        1 + trailing_white_space(s.drop_last())
    } else {
        0
    }
}

/// A string without its leading and trailing whitespace.
pub open spec fn trimmed(s: Seq<char>) -> Seq<char> {
    let rest = s.skip(leading_white_space(s) as int);
    rest.take(rest.len() - trailing_white_space(rest))
}

/// Trusted: calls `str::trim`, which removes leading and trailing characters
/// of the `White_Space` property.
#[verifier::external_body]
fn trim_str(s: &str) -> (t: &str)
    ensures
        t@ == trimmed(s@),
{
    s.trim()
}

/// Trusted: calls `String::pop`, which removes the last character if there is one.
#[verifier::external_body]
fn pop_char(s: &mut String)
    ensures
        final(s)@ == if old(s)@.len() > 0 { old(s)@.drop_last() } else { old(s)@ },
{
    s.pop();
}

/// Trusted: calls `String::push`, which appends a character.
#[verifier::external_body]
fn push_char(s: &mut String, c: char)
    ensures
        final(s)@ == old(s)@.push(c),
{
    s.push(c);
}

/// A string made of two parts.
pub(crate) fn concat(a: &str, b: &str) -> (s: String)
    ensures
        s@ == a@ + b@,
{
    let mut s = String::from_str(a);
    s.append(b);
    s
}

// ── App state ─────────────────────────────────────────────────────────────────

/// The most log lines kept; beyond it the oldest lines are dropped.
pub const LOG_LIMIT: usize = 500;

/// How many of the oldest log lines are dropped at once.
pub const LOG_DROP: usize = 100;

pub struct App {
    pub active_tab: ActiveTab,
    pub exit: bool,
    // Network
    pub login_status: LoginStatus,
    pub search_token_counter: u32,
    pub current_search_token: Option<u32>,
    // Search tab state
    pub search_input: String,
    pub search_input_mode: SearchInputMode,
    pub search_results: Vec<SearchResult>,
    /// The highlighted search result, if any.
    pub search_selection: Option<usize>,
    pub selected_for_download: Vec<usize>,
    // Downloads tab state
    pub downloads: Vec<Download>,
    pub download_id_counter: usize,
    /// The highlighted download, if any.
    pub download_selection: Option<usize>,
    // Log pane
    pub log_messages: Vec<String>,
    pub log_scroll: u16,
    /// The log pane has the keyboard: the arrow keys scroll it.
    pub log_focused: bool,
    /// The focused log pane fills the screen.
    pub log_fullscreen: bool,
}

/// The client state, by value.
pub ghost struct AppModel {
    pub active_tab: ActiveTab,
    pub exit: bool,
    pub login_status: LoginStatus,
    pub search_token_counter: u32,
    pub current_search_token: Option<u32>,
    pub search_input: Seq<char>,
    pub search_input_mode: SearchInputMode,
    pub search_results: Seq<SearchResultModel>,
    pub search_selection: Option<usize>,
    pub selected_for_download: Seq<usize>,
    pub downloads: Seq<DownloadModel>,
    pub download_id_counter: usize,
    pub download_selection: Option<usize>,
    pub log_messages: Seq<Seq<char>>,
    pub log_scroll: u16,
    pub log_focused: bool,
    pub log_fullscreen: bool,
}

impl View for App {
    type V = AppModel;

    open spec fn view(&self) -> AppModel {
        AppModel {
            active_tab: self.active_tab,
            exit: self.exit,
            login_status: self.login_status,
            search_token_counter: self.search_token_counter,
            current_search_token: self.current_search_token,
            search_input: self.search_input@,
            search_input_mode: self.search_input_mode,
            search_results: views(self.search_results@),
            search_selection: self.search_selection,
            selected_for_download: self.selected_for_download@,
            downloads: views(self.downloads@),
            download_id_counter: self.download_id_counter,
            download_selection: self.download_selection,
            log_messages: views(self.log_messages@),
            log_scroll: self.log_scroll,
            log_focused: self.log_focused,
            log_fullscreen: self.log_fullscreen,
        }
    }
}

/// The log after appending a line: when it grows past [`LOG_LIMIT`] lines,
/// the oldest [`LOG_DROP`] are dropped.
pub open spec fn log_push(log: Seq<Seq<char>>, msg: Seq<char>) -> Seq<Seq<char>> {
    let l = log.push(msg);
    if l.len() > LOG_LIMIT { l.subrange(LOG_DROP as int, l.len() as int) } else { l }
}

/// Every id is below `counter`, and no two downloads share one.
pub open spec fn ids_fresh(ds: Seq<DownloadModel>, counter: int) -> bool {
    &&& forall|i: int| 0 <= i < ds.len() ==> #[trigger] ds[i].id < counter
    &&& forall|i: int, j: int| 0 <= i < j < ds.len() ==> #[trigger] ds[i].id != #[trigger] ds[j].id
}

/// `i` is the first index of a download with this id.
pub open spec fn is_first_id(ds: Seq<DownloadModel>, id: usize, i: int) -> bool {
    0 <= i < ds.len() && ds[i].id == id && forall|j: int| 0 <= j < i ==> ds[j].id != id
}

/// The downloads with the status of the first one with this id replaced
/// (unchanged when no download has the id).
pub open spec fn with_status(ds: Seq<DownloadModel>, id: usize, status: DownloadStatusModel) -> Seq<DownloadModel> {
    if exists|i: int| is_first_id(ds, id, i) {
        let i = choose|i: int| is_first_id(ds, id, i);
        ds.update(i, DownloadModel { status, ..ds[i] })
    } else {
        ds
    }
}

/// `i` is the first index holding `v`.
pub open spec fn is_first_index(s: Seq<usize>, v: usize, i: int) -> bool {
    0 <= i < s.len() && s[i] == v && forall|j: int| 0 <= j < i ==> s[j] != v
}

/// The downloads, id counter, commands and count after enqueuing the search
/// results at `idx`, in order; an index past the results is skipped.
pub open spec fn enqueue_steps(
    results: Seq<SearchResultModel>,
    ds: Seq<DownloadModel>,
    counter: int,
    idx: Seq<usize>,
) -> (Seq<DownloadModel>, int, Seq<NetCommandModel>, nat)
    decreases idx.len(),
{
    if idx.len() == 0 {
        (ds, counter, Seq::empty(), 0)
    } else {
        let (d1, c1, k1, n1) = enqueue_steps(results, ds, counter, idx.drop_last());
        let i = idx.last();
        if i < results.len() {
            let r = results[i as int];
            (
                d1.push(
                    DownloadModel {
                        id: c1 as usize,
                        username: r.username,
                        filename: r.filename,
                        size: r.size,
                        status: DownloadStatusModel::Queued,
                    },
                ),
                c1 + 1,
                k1.push(NetCommandModel::Download { id: c1 as usize, username: r.username, filename: r.filename, size: r.size }),
                n1 + 1,
            )
        } else {
            (d1, c1, k1, n1)
        }
    }
}

/// The id counter only grows while enqueuing.
pub proof fn lemma_enqueue_counter_grows(
    results: Seq<SearchResultModel>,
    ds: Seq<DownloadModel>,
    counter: int,
    idx: Seq<usize>,
    k: int,
)
    requires
        0 <= k <= idx.len(),
    ensures
        counter <= enqueue_steps(results, ds, counter, idx.take(k)).1 <= enqueue_steps(results, ds, counter, idx).1,
    decreases idx.len() - k,
{
    if k < idx.len() {
        lemma_enqueue_counter_grows(results, ds, counter, idx, k + 1);
        assert(idx.take(k + 1).drop_last() =~= idx.take(k));
        lemma_enqueue_counter_from(results, ds, counter, idx.take(k));
        assert(enqueue_steps(results, ds, counter, idx.take(k + 1)).1 >= enqueue_steps(results, ds, counter, idx.take(k)).1);
    } else {
        assert(idx.take(k) =~= idx);
        lemma_enqueue_counter_from(results, ds, counter, idx);
    }
}

proof fn lemma_enqueue_counter_from(results: Seq<SearchResultModel>, ds: Seq<DownloadModel>, counter: int, idx: Seq<usize>)
    ensures
        counter <= enqueue_steps(results, ds, counter, idx).1,
    decreases idx.len(),
{
    if idx.len() > 0 {
        lemma_enqueue_counter_from(results, ds, counter, idx.drop_last());
    }
}

impl AppModel {
    /// The state at start-up: search tab, connecting, nothing searched or
    /// downloaded, and two greeting lines in the log.
    pub open spec fn initial() -> AppModel {
        AppModel {
            active_tab: ActiveTab::Search,
            exit: false,
            login_status: LoginStatus::Connecting,
            search_token_counter: 1,
            current_search_token: None,
            search_input: Seq::empty(),
            search_input_mode: SearchInputMode::Normal,
            search_results: Seq::empty(),
            search_selection: None,
            selected_for_download: Seq::empty(),
            downloads: Seq::empty(),
            download_id_counter: 0,
            download_selection: None,
            log_messages: seq![
                "Welcome to slsk-rs — a Soulseek TUI client."@,
                "Connecting to the Soulseek network…"@,
            ],
            log_scroll: 0,
            log_focused: false,
            log_fullscreen: false,
        }
    }

    /// Every selection points into its list, the log is within its limit,
    /// every download has its own id, below the id counter, and the log pane
    /// fills the screen only while it is focused.
    pub open spec fn wf(self) -> bool {
        &&& self.search_selection matches Some(i) ==> i < self.search_results.len()
        &&& self.download_selection matches Some(i) ==> i < self.downloads.len()
        &&& self.log_messages.len() <= LOG_LIMIT
        &&& ids_fresh(self.downloads, self.download_id_counter as int)
        &&& self.log_fullscreen ==> self.log_focused
    }

    pub open spec fn push_log(self, msg: Seq<char>) -> AppModel {
        AppModel { log_messages: log_push(self.log_messages, msg), ..self }
    }

    /// A new search: the next token is used and the counter moves on (wrapping);
    /// results and selections are cleared.
    pub open spec fn send_search(self, query: Seq<char>) -> (AppModel, NetCommandModel) {
        let token = self.search_token_counter;
        (
            AppModel {
                search_token_counter: if token == u32::MAX { 0 } else { (token + 1) as u32 },
                current_search_token: Some(token),
                search_results: Seq::empty(),
                search_selection: None,
                selected_for_download: Seq::empty(),
                ..self
            },
            NetCommandModel::Search { token, query },
        )
    }

    /// The id counter after enqueuing the selected results.
    pub open spec fn enqueue_id_end(self) -> int {
        enqueue_steps(self.search_results, self.downloads, self.download_id_counter as int, self.selected_for_download).1
    }

    /// Enqueues the selected results as downloads, in selection order, and
    /// clears the selection; with nothing selected, only logs so.
    pub open spec fn enqueue_selected_downloads(self) -> (AppModel, Seq<NetCommandModel>) {
        if self.selected_for_download.len() == 0 {
            (self.push_log("No files selected for download."@), Seq::empty())
        } else {
            let (ds, counter, cmds, count) = enqueue_steps(
                self.search_results,
                self.downloads,
                self.download_id_counter as int,
                self.selected_for_download,
            );
            let m = AppModel {
                selected_for_download: Seq::empty(),
                downloads: ds,
                download_id_counter: counter as usize,
                download_selection: if self.download_selection is None && ds.len() > 0 {
                    Some(0usize)
                } else {
                    self.download_selection
                },
                ..self
            };
            (
                if count > 0 {
                    m.push_log("Enqueued "@ + decimal(count) + " file(s) for download."@)
                } else {
                    m
                },
                cmds,
            )
        }
    }

    /// Results for the current search are appended; the first result is
    /// highlighted when the list was empty. Results of another search are ignored.
    pub open spec fn on_search_results(self, token: u32, results: Seq<SearchResultModel>) -> AppModel {
        if Some(token) != self.current_search_token {
            self
        } else {
            let all = self.search_results + results;
            AppModel {
                search_results: all,
                search_selection: if self.search_results.len() == 0 && all.len() > 0 {
                    Some(0usize)
                } else {
                    self.search_selection
                },
                ..self
            }
        }
    }

    pub open spec fn set_download_status(self, id: usize, status: DownloadStatusModel) -> AppModel {
        AppModel { downloads: with_status(self.downloads, id, status), ..self }
    }

    /// The highlight moves to the next result, wrapping around.
    pub open spec fn search_next(self) -> AppModel {
        if self.search_results.len() == 0 {
            self
        } else {
            let i = match self.search_selection {
                Some(i) => ((i + 1) % (self.search_results.len() as int)) as usize,
                None => 0usize,
            };
            AppModel { search_selection: Some(i), ..self }
        }
    }

    /// The highlight moves to the previous result, wrapping around.
    pub open spec fn search_previous(self) -> AppModel {
        if self.search_results.len() == 0 {
            self
        } else {
            let i = match self.search_selection {
                Some(i) => if i == 0 { (self.search_results.len() - 1) as usize } else { (i - 1) as usize },
                None => 0usize,
            };
            AppModel { search_selection: Some(i), ..self }
        }
    }

    /// The highlighted result joins or leaves the download selection, with a log line.
    pub open spec fn toggle_selected_for_download(self) -> AppModel {
        match self.search_selection {
            None => self,
            Some(idx) => {
                let filename = self.search_results[idx as int].filename;
                if exists|p: int| is_first_index(self.selected_for_download, idx, p) {
                    let p = choose|p: int| is_first_index(self.selected_for_download, idx, p);
                    AppModel { selected_for_download: self.selected_for_download.remove(p), ..self }.push_log(
                        "Dequeued: "@ + filename,
                    )
                } else {
                    AppModel { selected_for_download: self.selected_for_download.push(idx), ..self }.push_log(
                        "Queued for download: "@ + filename,
                    )
                }
            },
        }
    }

    /// The highlight moves to the next download, wrapping around.
    pub open spec fn download_next(self) -> AppModel {
        if self.downloads.len() == 0 {
            self
        } else {
            let i = match self.download_selection {
                Some(i) => ((i + 1) % (self.downloads.len() as int)) as usize,
                None => 0usize,
            };
            AppModel { download_selection: Some(i), ..self }
        }
    }

    /// The highlight moves to the previous download, wrapping around.
    pub open spec fn download_previous(self) -> AppModel {
        if self.downloads.len() == 0 {
            self
        } else {
            let i = match self.download_selection {
                Some(i) => if i == 0 { (self.downloads.len() - 1) as usize } else { (i - 1) as usize },
                None => 0usize,
            };
            AppModel { download_selection: Some(i), ..self }
        }
    }

    /// The highlighted download is removed, with a log line; the highlight
    /// moves to the one before it (or stays first), or goes when none is left.
    pub open spec fn remove_selected_download(self) -> AppModel {
        match self.download_selection {
            None => self,
            Some(idx) => if idx < self.downloads.len() {
                let filename = self.downloads[idx as int].filename;
                let ds = self.downloads.remove(idx as int);
                let below = if idx == 0 { 0 } else { idx - 1 };
                AppModel {
                    downloads: ds,
                    log_messages: log_push(self.log_messages, "Removed download: "@ + filename),
                    download_selection: if ds.len() == 0 {
                        None
                    } else {
                        Some((if below <= ds.len() - 1 { below } else { ds.len() - 1 }) as usize)
                    },
                    ..self
                }
            } else {
                self
            },
        }
    }

    pub open spec fn log_scroll_down(self) -> AppModel {
        AppModel { log_scroll: if self.log_scroll == u16::MAX { u16::MAX } else { (self.log_scroll + 1) as u16 }, ..self }
    }

    pub open spec fn log_scroll_up(self) -> AppModel {
        AppModel { log_scroll: if self.log_scroll == 0 { 0 } else { (self.log_scroll - 1) as u16 }, ..self }
    }

    /// The state after a network event.
    pub open spec fn handle_event(self, ev: AppEventModel) -> AppModel {
        match ev {
            AppEventModel::LoginOk { greet } => AppModel { login_status: LoginStatus::LoggedIn, ..self }.push_log(
                "Logged in: "@ + greet,
            ),
            AppEventModel::LoginFailed { reason } => AppModel { login_status: LoginStatus::Failed, ..self }.push_log(
                "Login failed: "@ + reason,
            ),
            AppEventModel::SearchResults { token, results } => {
                let m = self.on_search_results(token, results);
                m.push_log(
                    "+"@ + decimal(results.len()) + " result(s)  (total: "@ + decimal(m.search_results.len()) + ")"@,
                )
            },
            AppEventModel::DownloadProgress { id, downloaded, total } => self.set_download_status(
                id,
                DownloadStatusModel::InProgress { downloaded, total },
            ),
            AppEventModel::DownloadDone { id } => {
                let m = self.set_download_status(id, DownloadStatusModel::Done);
                if exists|i: int| is_first_id(m.downloads, id, i) {
                    let i = choose|i: int| is_first_id(m.downloads, id, i);
                    m.push_log("Download complete: "@ + m.downloads[i].filename)
                } else {
                    m
                }
            },
            AppEventModel::DownloadFailed { id, reason } => self.set_download_status(
                id,
                DownloadStatusModel::Failed(reason),
            ).push_log("Download failed (id="@ + decimal(id as nat) + "): "@ + reason),
            AppEventModel::TransferDenied { id, reason } => self.set_download_status(
                id,
                DownloadStatusModel::Failed("denied: "@ + reason),
            ).push_log("Transfer denied (id="@ + decimal(id as nat) + "): "@ + reason),
            AppEventModel::QueuePosition { .. } => self,
            AppEventModel::Log(msg) => self.push_log(msg),
        }
    }

    /// A key typed into the search box: Esc cancels, Enter searches for the
    /// trimmed text (unless empty), Backspace and characters edit the text.
    pub open spec fn handle_editing_key(self, key: Key) -> (AppModel, Option<NetCommandModel>) {
        match key {
            Key::Esc => (AppModel { search_input_mode: SearchInputMode::Normal, ..self }.push_log("Search cancelled."@), None),
            Key::Enter => {
                let q = trimmed(self.search_input);
                if q.len() == 0 {
                    (AppModel { search_input_mode: SearchInputMode::Normal, ..self.push_log("Search query is empty."@) }, None)
                } else {
                    let (m, cmd) = self.push_log("Searching for: "@ + q).send_search(q);
                    (AppModel { search_input_mode: SearchInputMode::Normal, ..m }, Some(cmd))
                }
            },
            Key::Backspace => (
                AppModel {
                    search_input: if self.search_input.len() > 0 { self.search_input.drop_last() } else { self.search_input },
                    ..self
                },
                None,
            ),
            Key::Char(c) => (AppModel { search_input: self.search_input.push(c), ..self }, None),
            _ => (self, None),
        }
    }

    /// What a key press outside the search box needs to be handled without overflow.
    pub open spec fn global_key_ok(self, key: Key) -> bool {
        !self.log_focused ==> self.list_key_ok(key)
    }

    /// What a key press on the search or downloads list needs to be handled
    /// without overflow.
    pub open spec fn list_key_ok(self, key: Key) -> bool {
        &&& (key == Key::Down || key == Key::Char('j')) ==> if self.active_tab == ActiveTab::Search {
            self.search_selection != Some(usize::MAX)
        } else {
            self.download_selection != Some(usize::MAX)
        }
        &&& (key == Key::Char(' ') && self.active_tab == ActiveTab::Search) ==> (self.search_selection matches Some(
            i,
        ) ==> i < self.search_results.len())
        &&& (key == Key::Enter && self.active_tab == ActiveTab::Search) ==> self.enqueue_id_end() <= usize::MAX
    }

    /// A key press outside the search box: the new state, whether to quit, and
    /// the commands to send. Quitting, switching tabs and the page keys work
    /// everywhere; `l` focuses the log pane or leaves it. While the log pane
    /// is focused the arrow keys (and `j`, `k`) scroll it and `f` toggles its
    /// fullscreen; otherwise the keys act on the list of the tab.
    pub open spec fn handle_global_key(self, key: Key) -> (AppModel, bool, Seq<NetCommandModel>) {
        let search = self.active_tab == ActiveTab::Search;
        if key == Key::Char('q') || key == Key::Char('Q') {
            (AppModel { exit: true, ..self }, true, Seq::empty())
        } else if key == Key::Tab || key == Key::BackTab {
            (
                AppModel { active_tab: if search { ActiveTab::Downloads } else { ActiveTab::Search }, ..self },
                false,
                Seq::empty(),
            )
        } else if key == Key::PageDown {
            (self.log_scroll_down(), false, Seq::empty())
        } else if key == Key::PageUp {
            (self.log_scroll_up(), false, Seq::empty())
        } else if self.log_focused {
            (self.handle_log_key(key), false, Seq::empty())
        } else if key == Key::Char('l') {
            (AppModel { log_focused: true, ..self }, false, Seq::empty())
        } else {
            self.handle_list_key(key)
        }
    }

    /// A key press while the log pane is focused: `l` leaves the pane (and
    /// its fullscreen), `f` toggles fullscreen, the arrow keys and `j`/`k`
    /// scroll; any other key changes nothing.
    pub open spec fn handle_log_key(self, key: Key) -> AppModel {
        if key == Key::Char('l') {
            AppModel { log_focused: false, log_fullscreen: false, ..self }
        } else if key == Key::Char('f') {
            AppModel { log_fullscreen: !self.log_fullscreen, ..self }
        } else if key == Key::Down || key == Key::Char('j') {
            self.log_scroll_down()
        } else if key == Key::Up || key == Key::Char('k') {
            self.log_scroll_up()
        } else {
            self
        }
    }

    /// A key press on the list of the tab.
    pub open spec fn handle_list_key(self, key: Key) -> (AppModel, bool, Seq<NetCommandModel>) {
        let search = self.active_tab == ActiveTab::Search;
        if key == Key::Down || key == Key::Char('j') {
            (if search { self.search_next() } else { self.download_next() }, false, Seq::empty())
        } else if key == Key::Up || key == Key::Char('k') {
            (if search { self.search_previous() } else { self.download_previous() }, false, Seq::empty())
        } else if key == Key::Char('/') && search {
            (AppModel { search_input_mode: SearchInputMode::Editing, ..self }, false, Seq::empty())
        } else if key == Key::Char(' ') && search {
            (self.toggle_selected_for_download(), false, Seq::empty())
        } else if key == Key::Enter && search {
            let (m, cmds) = self.enqueue_selected_downloads();
            (m, false, cmds)
        } else if key == Key::Char('d') && !search {
            (self.remove_selected_download(), false, Seq::empty())
        } else {
            (self, false, Seq::empty())
        }
    }
}

/// The index of the first occurrence of `x`, if any.
fn position_of(v: &Vec<usize>, x: usize) -> (r: Option<usize>)
    ensures
        r matches Some(p) ==> is_first_index(v@, x, p as int),
        r is None ==> forall|j: int| 0 <= j < v@.len() ==> v@[j] != x,
{
    let mut i: usize = 0;
    while i < v.len()
        invariant
            i <= v@.len(),
            forall|j: int| 0 <= j < i ==> v@[j] != x,
        decreases v@.len() - i,
    {
        if v[i] == x {
            return Some(i);
        }
        i = i + 1;
    }
    None
}

impl App {
    /// The state at start-up: search tab, connecting, nothing searched or
    /// downloaded, and two greeting lines in the log.
    pub fn new() -> (app: Self)
        ensures
            app@ == AppModel::initial(),
    {
        let mut log_messages: Vec<String> = Vec::new();
        log_messages.push(String::from_str("Welcome to slsk-rs — a Soulseek TUI client."));
        log_messages.push(String::from_str("Connecting to the Soulseek network…"));
        let app = Self {
            active_tab: ActiveTab::Search,
            exit: false,
            login_status: LoginStatus::Connecting,
            search_token_counter: 1,
            current_search_token: None,
            search_input: String::new(),
            search_input_mode: SearchInputMode::Normal,
            search_results: Vec::new(),
            search_selection: None,
            selected_for_download: Vec::new(),
            downloads: Vec::new(),
            download_id_counter: 0,
            download_selection: None,
            log_messages,
            log_scroll: 0,
            log_focused: false,
            log_fullscreen: false,
        };
        assert(views(app.search_results@) =~= Seq::empty());
        assert(views(app.downloads@) =~= Seq::empty());
        assert(views(app.log_messages@) =~= seq![
            "Welcome to slsk-rs — a Soulseek TUI client."@,
            "Connecting to the Soulseek network…"@,
        ]);
        app
    }

    pub fn push_log(&mut self, msg: String)
        ensures
            final(self)@ == old(self)@.push_log(msg@),
    {
        let ghost before = self.log_messages@;
        let ghost mv = msg@;
        self.log_messages.push(msg);
        assert(views(self.log_messages@) =~= views(before).push(mv));
        if self.log_messages.len() > LOG_LIMIT {
            let ghost all = self.log_messages@;
            let rest = self.log_messages.split_off(LOG_DROP);
            self.log_messages = rest;
            assert(views(self.log_messages@) =~= views(all).subrange(LOG_DROP as int, all.len() as int));
        }
    }

    // ── Network helpers ───────────────────────────────────────────────────────

    /// Starts a new search; returns the command that issues it over the network.
    pub fn send_search(&mut self, query: String) -> (cmd: NetCommand)
        ensures
            (final(self)@, cmd@) == old(self)@.send_search(query@),
    {
        let token = self.search_token_counter;
        self.search_token_counter = if token == u32::MAX {
            0
        } else {
            token + 1
        };
        self.current_search_token = Some(token);
        self.search_results.clear();
        self.search_selection = None;
        self.selected_for_download.clear();
        assert(views(self.search_results@) =~= Seq::empty());
        NetCommand::Search { token, query }
    }

    // ── Network event handlers ────────────────────────────────────────────────

    pub fn on_search_results(&mut self, token: u32, results: Vec<SearchResult>)
        ensures
            final(self)@ == old(self)@.on_search_results(token, views(results@)),
    {
        match self.current_search_token {
            Some(t) => {
                if t != token {
                    return;
                }
            },
            None => {
                return;
            },
        }
        let prev_len = self.search_results.len();
        let ghost before = self.search_results@;
        let mut results = results;
        let ghost added = results@;
        self.search_results.append(&mut results);
        assert(views(self.search_results@) =~= views(before) + views(added));
        if prev_len == 0 && self.search_results.len() > 0 {
            self.search_selection = Some(0);
        }
    }

    /// Sets the status of the first download with this id, if any.
    fn set_status(&mut self, id: usize, status: DownloadStatus)
        ensures
            final(self)@ == old(self)@.set_download_status(id, status@),
    {
        let ghost ds = views(self.downloads@);
        let mut i: usize = 0;
        while i < self.downloads.len()
            invariant
                self@ == old(self)@,
                ds == views(self.downloads@),
                i <= self.downloads@.len(),
                forall|j: int| 0 <= j < i ==> ds[j].id != id,
            decreases self.downloads@.len() - i,
        {
            if self.downloads[i].id == id {
                proof {
                    assert(is_first_id(ds, id, i as int));
                }
                let ghost old_downloads = self.downloads@;
                let mut d = self.downloads.remove(i);
                d.status = status;
                let ghost dv = d@;
                self.downloads.insert(i, d);
                assert(views(self.downloads@) =~= ds.update(i as int, dv));
                return;
            }
            i = i + 1;
        }
        assert(!exists|k: int| is_first_id(ds, id, k));
    }

    pub fn on_download_progress(&mut self, id: usize, downloaded: u64, total: u64)
        ensures
            final(self)@ == old(self)@.set_download_status(
                id,
                DownloadStatusModel::InProgress { downloaded, total },
            ),
    {
        self.set_status(id, DownloadStatus::InProgress { downloaded, total });
    }

    pub fn on_download_done(&mut self, id: usize)
        ensures
            final(self)@ == old(self)@.set_download_status(id, DownloadStatusModel::Done),
    {
        self.set_status(id, DownloadStatus::Done);
    }

    pub fn on_download_failed(&mut self, id: usize, reason: String)
        ensures
            final(self)@ == old(self)@.set_download_status(id, DownloadStatusModel::Failed(reason@)),
    {
        self.set_status(id, DownloadStatus::Failed(reason));
    }

    // ── Search helpers ────────────────────────────────────────────────────────

    pub fn search_next(&mut self)
        requires
            old(self).search_selection != Some(usize::MAX),
        ensures
            final(self)@ == old(self)@.search_next(),
    {
        if self.search_results.len() == 0 {
            return;
        }
        let i = match self.search_selection {
            Some(i) => (i + 1) % self.search_results.len(),
            None => 0,
        };
        self.search_selection = Some(i);
    }

    pub fn search_previous(&mut self)
        ensures
            final(self)@ == old(self)@.search_previous(),
    {
        if self.search_results.len() == 0 {
            return;
        }
        let i = match self.search_selection {
            Some(i) => if i == 0 {
                self.search_results.len() - 1
            } else {
                i - 1
            },
            None => 0,
        };
        self.search_selection = Some(i);
    }

    pub fn toggle_selected_for_download(&mut self)
        requires
            old(self).search_selection matches Some(i) ==> i < old(self).search_results@.len(),
        ensures
            final(self)@ == old(self)@.toggle_selected_for_download(),
    {
        let idx = match self.search_selection {
            Some(i) => i,
            None => {
                return;
            },
        };
        let ghost m0 = self@;
        match position_of(&self.selected_for_download, idx) {
            Some(pos) => {
                assert(is_first_index(m0.selected_for_download, idx, pos as int));
                self.selected_for_download.remove(pos);
                let filename = self.search_results[idx].filename.clone();
                self.push_log(concat("Dequeued: ", filename.as_str()));
            },
            None => {
                assert(!exists|p: int| is_first_index(m0.selected_for_download, idx, p));
                self.selected_for_download.push(idx);
                let filename = self.search_results[idx].filename.clone();
                self.push_log(concat("Queued for download: ", filename.as_str()));
            },
        }
    }

    // ── Downloads helpers ─────────────────────────────────────────────────────

    pub fn download_next(&mut self)
        requires
            old(self).download_selection != Some(usize::MAX),
        ensures
            final(self)@ == old(self)@.download_next(),
    {
        if self.downloads.len() == 0 {
            return;
        }
        let i = match self.download_selection {
            Some(i) => (i + 1) % self.downloads.len(),
            None => 0,
        };
        self.download_selection = Some(i);
    }

    pub fn download_previous(&mut self)
        ensures
            final(self)@ == old(self)@.download_previous(),
    {
        if self.downloads.len() == 0 {
            return;
        }
        let i = match self.download_selection {
            Some(i) => if i == 0 {
                self.downloads.len() - 1
            } else {
                i - 1
            },
            None => 0,
        };
        self.download_selection = Some(i);
    }

    pub fn remove_selected_download(&mut self)
        ensures
            final(self)@ == old(self)@.remove_selected_download(),
    {
        let idx = match self.download_selection {
            Some(i) => i,
            None => {
                return;
            },
        };
        if idx < self.downloads.len() {
            let filename = self.downloads[idx].filename.clone();
            let ghost before = self.downloads@;
            self.downloads.remove(idx);
            assert(views(self.downloads@) =~= views(before).remove(idx as int));
            self.push_log(concat("Removed download: ", filename.as_str()));
            let new_sel = if self.downloads.len() == 0 {
                None
            } else {
                let below = idx.saturating_sub(1);
                let last = self.downloads.len() - 1;
                Some(
                    if below <= last {
                        below
                    } else {
                        last
                    },
                )
            };
            self.download_selection = new_sel;
        }
    }

    // ── Log helpers ───────────────────────────────────────────────────────────

    pub fn log_scroll_down(&mut self)
        ensures
            final(self)@ == old(self)@.log_scroll_down(),
    {
        self.log_scroll = self.log_scroll.saturating_add(1);
    }

    pub fn log_scroll_up(&mut self)
        ensures
            final(self)@ == old(self)@.log_scroll_up(),
    {
        self.log_scroll = self.log_scroll.saturating_sub(1);
    }
}


/// The index of the first download with this id, if any.
fn first_with_id(ds: &Vec<Download>, id: usize) -> (r: Option<usize>)
    ensures
        r matches Some(i) ==> is_first_id(views(ds@), id, i as int),
        r is None ==> !exists|i: int| is_first_id(views(ds@), id, i),
{
    let mut i: usize = 0;
    while i < ds.len()
        invariant
            i <= ds@.len(),
            forall|j: int| 0 <= j < i ==> views(ds@)[j].id != id,
        decreases ds@.len() - i,
    {
        if ds[i].id == id {
            return Some(i);
        }
        i = i + 1;
    }
    None
}

impl App {
    /// Enqueue all selected results as downloads; returns the commands that
    /// start them over the network.
    pub fn enqueue_selected_downloads(&mut self) -> (cmds: Vec<NetCommand>)
        requires
            old(self)@.enqueue_id_end() <= usize::MAX,
        ensures
            (final(self)@, views(cmds@)) == old(self)@.enqueue_selected_downloads(),
    {
        if self.selected_for_download.len() == 0 {
            self.push_log(String::from_str("No files selected for download."));
            let none: Vec<NetCommand> = Vec::new();
            assert(views(none@) =~= Seq::empty());
            return none;
        }
        let ghost m_start = self@;
        let mut indices: Vec<usize> = Vec::new();
        std::mem::swap(&mut indices, &mut self.selected_for_download);
        let ghost m0 = self@;
        let mut cmds: Vec<NetCommand> = Vec::new();
        let mut count: usize = 0;
        let mut i: usize = 0;
        assert(indices@.take(0) =~= Seq::<usize>::empty());
        assert(views(cmds@) =~= Seq::empty());
        proof {
            lemma_enqueue_counter_from(m0.search_results, m0.downloads, m0.download_id_counter as int, indices@);
        }
        while i < indices.len()
            invariant
                i <= indices@.len(),
                indices@ == m_start.selected_for_download,
                m0 == (AppModel { selected_for_download: Seq::empty(), ..m_start }),
                m_start.enqueue_id_end() <= usize::MAX,
                count <= i,
                ({
                    let st = enqueue_steps(
                        m0.search_results,
                        m0.downloads,
                        m0.download_id_counter as int,
                        indices@.take(i as int),
                    );
                    &&& m0.download_id_counter <= st.1 <= m_start.enqueue_id_end()
                    &&& self@ == AppModel { downloads: st.0, download_id_counter: st.1 as usize, ..m0 }
                    &&& views(cmds@) == st.2
                    &&& count == st.3
                }),
            decreases indices@.len() - i,
        {
            let idx = indices[i];
            proof {
                assert(indices@.take(i + 1).drop_last() =~= indices@.take(i as int));
                lemma_enqueue_counter_grows(
                    m0.search_results,
                    m0.downloads,
                    m0.download_id_counter as int,
                    indices@,
                    i + 1,
                );
            }
            let ghost st = enqueue_steps(
                m0.search_results,
                m0.downloads,
                m0.download_id_counter as int,
                indices@.take(i as int),
            );
            let ghost st_next = enqueue_steps(
                m0.search_results,
                m0.downloads,
                m0.download_id_counter as int,
                indices@.take(i + 1),
            );
            assert(indices@.take(i + 1).last() == idx);
            assert(st_next.1 <= m_start.enqueue_id_end());
            if idx < self.search_results.len() {
                assert(st_next.1 == st.1 + 1);
                let id = self.download_id_counter;
                let username = self.search_results[idx].username.clone();
                let filename = self.search_results[idx].filename.clone();
                let size = self.search_results[idx].size;
                let ghost before_ds = self.downloads@;
                let ghost before_cmds = cmds@;
                self.download_id_counter = id + 1;
                self.downloads.push(
                    Download {
                        id,
                        username: username.clone(),
                        filename: filename.clone(),
                        size,
                        status: DownloadStatus::Queued,
                    },
                );
                cmds.push(NetCommand::Download { id, username, filename, size });
                count = count + 1;
                assert(views(self.downloads@) =~= views(before_ds).push(self.downloads@.last()@));
                assert(views(cmds@) =~= views(before_cmds).push(cmds@.last()@));
            }
            i = i + 1;
        }
        assert(indices@.take(indices@.len() as int) =~= indices@);
        if self.download_selection.is_none() && self.downloads.len() > 0 {
            self.download_selection = Some(0);
        }
        if count > 0 {
            let digits = decimal_string(count as u64);
            let mut msg = concat("Enqueued ", digits.as_str());
            msg.append(" file(s) for download.");
            self.push_log(msg);
        }
        cmds
    }

    /// Applies a network event to the state.
    pub fn handle_event(&mut self, ev: AppEvent)
        ensures
            final(self)@ == old(self)@.handle_event(ev@),
    {
        match ev {
            AppEvent::LoginOk { greet } => {
                self.login_status = LoginStatus::LoggedIn;
                self.push_log(concat("Logged in: ", greet.as_str()));
            },
            AppEvent::LoginFailed { reason } => {
                self.login_status = LoginStatus::Failed;
                self.push_log(concat("Login failed: ", reason.as_str()));
            },
            AppEvent::SearchResults { token, results } => {
                let count = results.len();
                let ghost rv = views(results@);
                assert(rv.len() == count);
                self.on_search_results(token, results);
                let mut msg = concat("+", decimal_string(count as u64).as_str());
                msg.append(" result(s)  (total: ");
                let total = decimal_string(self.search_results.len() as u64);
                msg.append(total.as_str());
                msg.append(")");
                self.push_log(msg);
            },
            AppEvent::DownloadProgress { id, downloaded, total } => {
                self.on_download_progress(id, downloaded, total);
            },
            AppEvent::DownloadDone { id } => {
                self.on_download_done(id);
                if let Some(i) = first_with_id(&self.downloads, id) {
                    let line = concat("Download complete: ", self.downloads[i].filename.as_str());
                    self.push_log(line);
                }
            },
            AppEvent::DownloadFailed { id, reason } => {
                let mut msg = concat("Download failed (id=", decimal_string(id as u64).as_str());
                msg.append("): ");
                msg.append(reason.as_str());
                self.on_download_failed(id, reason);
                self.push_log(msg);
            },
            AppEvent::TransferDenied { id, reason } => {
                self.on_download_failed(id, concat("denied: ", reason.as_str()));
                let mut msg = concat("Transfer denied (id=", decimal_string(id as u64).as_str());
                msg.append("): ");
                msg.append(reason.as_str());
                self.push_log(msg);
            },
            AppEvent::QueuePosition { .. } => {},
            AppEvent::Log(msg) => {
                self.push_log(msg);
            },
        }
    }

    /// Handles a key typed into the search box; returns the search command
    /// when Enter starts a search.
    pub fn handle_editing_key(&mut self, key: Key) -> (cmd: Option<NetCommand>)
        ensures
            (final(self)@, match cmd {
                Some(c) => Some(c@),
                None => None,
            }) == old(self)@.handle_editing_key(key),
    {
        match key {
            Key::Esc => {
                self.search_input_mode = SearchInputMode::Normal;
                self.push_log(String::from_str("Search cancelled."));
                None
            },
            Key::Enter => {
                let query = String::from_str(trim_str(self.search_input.as_str()));
                let cmd = if query.as_str().is_empty() {
                    self.push_log(String::from_str("Search query is empty."));
                    None
                } else {
                    self.push_log(concat("Searching for: ", query.as_str()));
                    Some(self.send_search(query))
                };
                self.search_input_mode = SearchInputMode::Normal;
                cmd
            },
            Key::Backspace => {
                pop_char(&mut self.search_input);
                None
            },
            Key::Char(c) => {
                push_char(&mut self.search_input, c);
                None
            },
            _ => None,
        }
    }

    /// Handles a key pressed outside the search box; returns whether to quit
    /// and the commands to send.
    pub fn handle_global_key(&mut self, key: Key) -> (res: (bool, Vec<NetCommand>))
        requires
            old(self)@.global_key_ok(key),
        ensures
            (final(self)@, res.0, views(res.1@)) == old(self)@.handle_global_key(key),
    {
        let search = self.active_tab == ActiveTab::Search;
        let mut cmds: Vec<NetCommand> = Vec::new();
        assert(views(cmds@) =~= Seq::empty());
        if key == Key::Char('q') || key == Key::Char('Q') {
            self.exit = true;
            return (true, cmds);
        } else if key == Key::Tab {
            self.active_tab = self.active_tab.next();
        } else if key == Key::BackTab {
            self.active_tab = self.active_tab.previous();
        } else if key == Key::PageDown {
            self.log_scroll_down();
        } else if key == Key::PageUp {
            self.log_scroll_up();
        } else if self.log_focused {
            if key == Key::Char('l') {
                self.log_focused = false;
                self.log_fullscreen = false;
            } else if key == Key::Char('f') {
                self.log_fullscreen = !self.log_fullscreen;
            } else if key == Key::Down || key == Key::Char('j') {
                self.log_scroll_down();
            } else if key == Key::Up || key == Key::Char('k') {
                self.log_scroll_up();
            }
        } else if key == Key::Char('l') {
            self.log_focused = true;
        } else if key == Key::Down || key == Key::Char('j') {
            if search {
                self.search_next();
            } else {
                self.download_next();
            }
        } else if key == Key::Up || key == Key::Char('k') {
            if search {
                self.search_previous();
            } else {
                self.download_previous();
            }
        } else if key == Key::Char('/') && search {
            self.search_input_mode = SearchInputMode::Editing;
        } else if key == Key::Char(' ') && search {
            self.toggle_selected_for_download();
        } else if key == Key::Enter && search {
            cmds = self.enqueue_selected_downloads();
        } else if key == Key::Char('d') && !search {
            self.remove_selected_download();
        }
        (false, cmds)
    }
}


impl App {
    /// Fits the log scroll to a pane of `log_height` lines, and returns the
    /// index of the first log line to show.
    pub fn log_view_start(&mut self, log_height: usize) -> (start: usize)
        ensures
            final(self)@ == (AppModel {
                log_scroll: if old(self).log_scroll as int > log_view_max_scroll(old(self).log_messages@.len(), log_height) {
                    log_view_max_scroll(old(self).log_messages@.len(), log_height) as u16
                } else {
                    old(self).log_scroll
                },
                ..old(self)@
            }),
            start == sat_sub(
                log_view_max_scroll(old(self).log_messages@.len(), log_height),
                final(self).log_scroll as int,
            ),
            start <= old(self).log_messages@.len(),
    {
        let total = self.log_messages.len();
        let max_scroll = total.saturating_sub(log_height);
        if self.log_scroll as usize > max_scroll {
            self.log_scroll = max_scroll as u16;
        }
        total.saturating_sub(log_height).saturating_sub(self.log_scroll as usize)
    }
}

/// `a - b`, or 0 when `b` is larger.
pub open spec fn sat_sub(a: int, b: int) -> int {
    if a >= b { a - b } else { 0 }
}

/// How far the log can scroll up in a pane of `log_height` lines.
pub open spec fn log_view_max_scroll(total: nat, log_height: usize) -> int {
    sat_sub(total as int, log_height as int)
}

// ── Helpers for the network layer ─────────────────────────────────────────────

/// The part of a path after its last `/` or `\`.
pub open spec fn basename(path: Seq<char>) -> Seq<char>
    decreases path.len(),
{
    if path.len() == 0 {
        path
    } else if path.last() == '/' || path.last() == '\\' {
        Seq::empty()
    } else {
        basename(path.drop_last()).push(path.last())
    }
}

/// The file name of a shared path: what follows its last `/` or `\`.
pub fn file_basename(path: &str) -> (name: String)
    ensures
        name@ == basename(path@),
{
    let n = path.unicode_len();
    let mut start: usize = 0;
    let mut i: usize = 0;
    while i < n
        invariant
            n == path@.len(),
            start <= i <= n,
            basename(path@.take(i as int)) == path@.subrange(start as int, i as int),
        decreases n - i,
    {
        let c = path.get_char(i);
        assert(path@.take(i + 1).drop_last() =~= path@.take(i as int));
        assert(path@.take(i + 1).last() == c);
        if c == '/' || c == '\\' {
            start = i + 1;
            assert(path@.subrange(start as int, i + 1) =~= Seq::<char>::empty());
        } else {
            assert(path@.subrange(start as int, i + 1) =~= path@.subrange(start as int, i as int).push(c));
        }
        i = i + 1;
    }
    assert(path@.take(n as int) =~= path@);
    String::from_str(path.substring_char(start, n))
}

/// The search results that a peer's response adds to the current search:
/// none when it answers another search, else one per file it lists.
pub open spec fn results_for(resp: FileSearchResponseView, current: Option<u32>) -> Seq<SearchResultModel> {
    if current == Some(resp.1) {
        resp.2.map_values(
            |f: FileEntryView| SearchResultModel { username: resp.0, filename: f.1, size: f.2, extension: f.3 },
        )
    } else {
        Seq::empty()
    }
}

/// The search results in a peer's response, when it answers the current search.
pub fn search_results_from(resp: &FileSearchResponse, current: Option<u32>) -> (results: Vec<SearchResult>)
    ensures
        views(results@) == results_for(resp@, current),
{
    let mut out: Vec<SearchResult> = Vec::new();
    let matches = match current {
        Some(t) => t == resp.token,
        None => false,
    };
    if !matches {
        assert(views(out@) =~= Seq::empty());
        return out;
    }
    let ghost target = results_for(resp@, current);
    let mut i: usize = 0;
    assert(views(out@) =~= target.take(0));
    while i < resp.results.len()
        invariant
            i <= resp.results@.len(),
            target == results_for(resp@, current),
            current == Some(resp.token),
            views(out@) == target.take(i as int),
        decreases resp.results@.len() - i,
    {
        let r = &resp.results[i];
        let ghost before = out@;
        out.push(
            SearchResult {
                username: resp.username.clone(),
                filename: r.filename.clone(),
                size: r.size,
                extension: r.extension.clone(),
            },
        );
        assert(views(out@) =~= target.take(i + 1)) by {
            assert(views(out@) =~= views(before).push(target[i as int]));
        }
        i = i + 1;
    }
    assert(target.take(resp.results@.len() as int) =~= target);
    out
}

/// A transfer is complete once its known, non-zero size has been received.
pub fn transfer_complete(downloaded: u64, total: u64) -> (done: bool)
    ensures
        done == (total > 0 && downloaded >= total),
{
    total > 0 && downloaded >= total
}

} // verus!
