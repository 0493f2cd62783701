use slsk_protocol::client::{
    file_basename, search_results_from, transfer_complete, ActiveTab, App, DownloadStatus, Key, LoginStatus,
    SearchInputMode, SearchResult, LOG_LIMIT,
};
use slsk_protocol::events::{AppEvent, NetCommand};
use slsk_protocol::peer::{FileSearchResponse, FileSearchResult};

fn result(name: &str) -> SearchResult {
    SearchResult { username: "alice".into(), filename: name.into(), size: 2048, extension: "mp3".into() }
}

fn last_log(app: &App) -> &str {
    app.log_messages.last().unwrap().as_str()
}

fn type_text(app: &mut App, text: &str) {
    for c in text.chars() {
        assert!(app.handle_editing_key(Key::Char(c)).is_none());
    }
}

/// An app that searched once (token 1) and received three results.
fn app_with_results() -> App {
    let mut app = App::new();
    let cmd = app.send_search("q".into());
    assert!(matches!(cmd, NetCommand::Search { token: 1, .. }));
    app.handle_event(AppEvent::SearchResults {
        token: 1,
        results: vec![result("one.mp3"), result("two.mp3"), result("three.mp3")],
    });
    app
}

#[test]
fn start_up_state() {
    let app = App::new();
    assert_eq!(app.active_tab, ActiveTab::Search);
    assert!(!app.exit);
    assert_eq!(app.login_status, LoginStatus::Connecting);
    assert_eq!(app.search_token_counter, 1);
    assert!(app.current_search_token.is_none());
    assert_eq!(app.search_input_mode, SearchInputMode::Normal);
    assert_eq!(app.log_messages.len(), 2);
    assert_eq!(app.log_messages[0], "Welcome to slsk-rs — a Soulseek TUI client.");
    assert_eq!(app.log_messages[1], "Connecting to the Soulseek network…");
}

#[test]
fn typing_and_searching() {
    let mut app = App::new();
    let (quit, cmds) = app.handle_global_key(Key::Char('/'));
    assert!(!quit && cmds.is_empty());
    assert_eq!(app.search_input_mode, SearchInputMode::Editing);
    type_text(&mut app, "  pink floydx ");
    assert!(app.handle_editing_key(Key::Backspace).is_none());
    assert!(app.handle_editing_key(Key::Backspace).is_none());
    assert_eq!(app.search_input, "  pink floyd");
    match app.handle_editing_key(Key::Enter) {
        Some(NetCommand::Search { token, query }) => {
            assert_eq!(token, 1);
            assert_eq!(query, "pink floyd");
        }
        other => panic!("unexpected {:?}", other),
    }
    assert_eq!(app.search_input_mode, SearchInputMode::Normal);
    assert_eq!(app.current_search_token, Some(1));
    assert_eq!(app.search_token_counter, 2);
    assert_eq!(last_log(&app), "Searching for: pink floyd");
}

#[test]
fn empty_query_and_cancel() {
    let mut app = App::new();
    app.search_input_mode = SearchInputMode::Editing;
    type_text(&mut app, "   ");
    assert!(app.handle_editing_key(Key::Enter).is_none());
    assert_eq!(last_log(&app), "Search query is empty.");
    assert_eq!(app.search_input_mode, SearchInputMode::Normal);
    assert_eq!(app.search_token_counter, 1);
    app.search_input_mode = SearchInputMode::Editing;
    assert!(app.handle_editing_key(Key::Esc).is_none());
    assert_eq!(last_log(&app), "Search cancelled.");
    assert_eq!(app.search_input_mode, SearchInputMode::Normal);
    let mut empty = App::new();
    assert!(empty.handle_editing_key(Key::Backspace).is_none());
    assert_eq!(empty.search_input, "");
}

#[test]
fn search_token_wraps() {
    let mut app = App::new();
    app.search_token_counter = u32::MAX;
    match app.send_search("x".into()) {
        NetCommand::Search { token, .. } => assert_eq!(token, u32::MAX),
        other => panic!("unexpected {:?}", other),
    }
    assert_eq!(app.search_token_counter, 0);
}

#[test]
fn results_for_the_current_search_only() {
    let mut app = app_with_results();
    assert_eq!(app.search_results.len(), 3);
    assert_eq!(app.search_selection, Some(0));
    assert_eq!(last_log(&app), "+3 result(s)  (total: 3)");
    app.handle_event(AppEvent::SearchResults { token: 99, results: vec![result("stale.mp3")] });
    assert_eq!(app.search_results.len(), 3);
    assert_eq!(last_log(&app), "+1 result(s)  (total: 3)");
    app.handle_event(AppEvent::SearchResults { token: 1, results: vec![result("four.mp3")] });
    assert_eq!(app.search_results.len(), 4);
    assert_eq!(app.search_selection, Some(0));
}

#[test]
fn a_new_search_clears_the_old_results() {
    let mut app = app_with_results();
    app.search_selection = Some(2);
    app.handle_global_key(Key::Char(' '));
    let _ = app.send_search("again".into());
    assert!(app.search_results.is_empty());
    assert!(app.search_selection.is_none());
    assert!(app.selected_for_download.is_empty());
    assert_eq!(app.current_search_token, Some(2));
}

#[test]
fn result_navigation_wraps() {
    let mut app = app_with_results();
    app.handle_global_key(Key::Up);
    assert_eq!(app.search_selection, Some(2));
    app.handle_global_key(Key::Down);
    assert_eq!(app.search_selection, Some(0));
    app.handle_global_key(Key::Char('j'));
    app.handle_global_key(Key::Char('j'));
    assert_eq!(app.search_selection, Some(2));
    app.handle_global_key(Key::Char('k'));
    assert_eq!(app.search_selection, Some(1));
    let mut empty = App::new();
    empty.search_next();
    empty.search_previous();
    assert!(empty.search_selection.is_none());
}

#[test]
fn toggling_a_result_for_download() {
    let mut app = app_with_results();
    app.search_selection = Some(1);
    app.handle_global_key(Key::Char(' '));
    assert_eq!(app.selected_for_download, vec![1]);
    assert_eq!(last_log(&app), "Queued for download: two.mp3");
    app.handle_global_key(Key::Char(' '));
    assert!(app.selected_for_download.is_empty());
    assert_eq!(last_log(&app), "Dequeued: two.mp3");
}

#[test]
fn enqueuing_selected_downloads() {
    let mut app = app_with_results();
    app.search_selection = Some(2);
    app.toggle_selected_for_download();
    app.search_selection = Some(0);
    app.toggle_selected_for_download();
    let (quit, cmds) = app.handle_global_key(Key::Enter);
    assert!(!quit);
    assert_eq!(cmds.len(), 2);
    match &cmds[0] {
        NetCommand::Download { id, username, filename, size } => {
            assert_eq!(*id, 0);
            assert_eq!(username, "alice");
            assert_eq!(filename, "three.mp3");
            assert_eq!(*size, 2048);
        }
        other => panic!("unexpected {:?}", other),
    }
    match &cmds[1] {
        NetCommand::Download { id, filename, .. } => {
            assert_eq!(*id, 1);
            assert_eq!(filename, "one.mp3");
        }
        other => panic!("unexpected {:?}", other),
    }
    assert_eq!(app.downloads.len(), 2);
    assert_eq!(app.downloads[0].status, DownloadStatus::Queued);
    assert_eq!(app.download_id_counter, 2);
    assert!(app.selected_for_download.is_empty());
    assert_eq!(app.download_selection, Some(0));
    assert_eq!(last_log(&app), "Enqueued 2 file(s) for download.");
}

#[test]
fn enqueuing_nothing() {
    let mut app = app_with_results();
    let cmds = app.enqueue_selected_downloads();
    assert!(cmds.is_empty());
    assert_eq!(last_log(&app), "No files selected for download.");
    assert!(app.downloads.is_empty());
}

fn app_with_downloads() -> App {
    let mut app = app_with_results();
    for i in 0..3 {
        app.search_selection = Some(i);
        app.toggle_selected_for_download();
    }
    let cmds = app.enqueue_selected_downloads();
    assert_eq!(cmds.len(), 3);
    app
}

#[test]
fn download_events_update_status() {
    let mut app = app_with_downloads();
    app.handle_event(AppEvent::DownloadProgress { id: 1, downloaded: 10, total: 20 });
    assert_eq!(app.downloads[1].status, DownloadStatus::InProgress { downloaded: 10, total: 20 });
    app.handle_event(AppEvent::DownloadDone { id: 1 });
    assert_eq!(app.downloads[1].status, DownloadStatus::Done);
    assert_eq!(last_log(&app), "Download complete: two.mp3");
    app.handle_event(AppEvent::DownloadFailed { id: 0, reason: "timeout".into() });
    assert_eq!(app.downloads[0].status, DownloadStatus::Failed("timeout".into()));
    assert_eq!(last_log(&app), "Download failed (id=0): timeout");
    app.handle_event(AppEvent::TransferDenied { id: 2, reason: "Banned".into() });
    assert_eq!(app.downloads[2].status, DownloadStatus::Failed("denied: Banned".into()));
    assert_eq!(last_log(&app), "Transfer denied (id=2): Banned");
    let before = app.log_messages.len();
    app.handle_event(AppEvent::DownloadDone { id: 42 });
    assert_eq!(app.log_messages.len(), before);
    app.handle_event(AppEvent::QueuePosition { id: 0, position: 3 });
    assert_eq!(app.log_messages.len(), before);
}

#[test]
fn login_events() {
    let mut app = App::new();
    app.handle_event(AppEvent::LoginOk { greet: "hi".into() });
    assert_eq!(app.login_status, LoginStatus::LoggedIn);
    assert_eq!(last_log(&app), "Logged in: hi");
    app.handle_event(AppEvent::LoginFailed { reason: "INVALIDPASS".into() });
    assert_eq!(app.login_status, LoginStatus::Failed);
    assert_eq!(last_log(&app), "Login failed: INVALIDPASS");
    app.handle_event(AppEvent::Log("plain".into()));
    assert_eq!(last_log(&app), "plain");
}

#[test]
fn removing_downloads() {
    let mut app = app_with_downloads();
    app.handle_global_key(Key::Tab);
    assert_eq!(app.active_tab, ActiveTab::Downloads);
    app.handle_global_key(Key::Down);
    app.handle_global_key(Key::Down);
    assert_eq!(app.download_selection, Some(2));
    app.handle_global_key(Key::Char('d'));
    assert_eq!(app.downloads.len(), 2);
    assert_eq!(app.download_selection, Some(1));
    assert_eq!(last_log(&app), "Removed download: three.mp3");
    app.download_selection = Some(0);
    app.remove_selected_download();
    assert_eq!(app.download_selection, Some(0));
    assert_eq!(app.downloads[0].filename, "two.mp3");
    app.remove_selected_download();
    assert!(app.downloads.is_empty());
    assert!(app.download_selection.is_none());
    app.remove_selected_download();
    assert!(app.downloads.is_empty());
}

#[test]
fn tabs_and_quit() {
    let mut app = App::new();
    app.handle_global_key(Key::Tab);
    assert_eq!(app.active_tab, ActiveTab::Downloads);
    app.handle_global_key(Key::BackTab);
    assert_eq!(app.active_tab, ActiveTab::Search);
    assert_eq!(ActiveTab::Search.next(), ActiveTab::Downloads);
    assert_eq!(ActiveTab::Downloads.previous(), ActiveTab::Search);
    assert_eq!(ActiveTab::Downloads.index(), 1);
    let (quit, _) = app.handle_global_key(Key::Char('Q'));
    assert!(quit);
    assert!(app.exit);
}

#[test]
fn log_keeps_the_newest_lines() {
    let mut app = App::new();
    for i in 0..499 {
        app.push_log(format!("m{}", i));
    }
    assert_eq!(app.log_messages.len(), 401);
    assert_eq!(app.log_messages[0], "m98");
    assert_eq!(last_log(&app), "m498");
    for i in 0..1000 {
        app.push_log(format!("n{}", i));
        assert!(app.log_messages.len() <= LOG_LIMIT);
    }
}

#[test]
fn log_scrolling() {
    let mut app = App::new();
    app.handle_global_key(Key::PageUp);
    assert_eq!(app.log_scroll, 0);
    app.log_scroll = u16::MAX;
    app.handle_global_key(Key::PageDown);
    assert_eq!(app.log_scroll, u16::MAX);
    for i in 0..10 {
        app.push_log(format!("l{}", i));
    }
    app.log_scroll = 100;
    let start = app.log_view_start(4);
    assert_eq!(app.log_scroll, 8);
    assert_eq!(start, 0);
    app.log_scroll = 3;
    assert_eq!(app.log_view_start(4), 5);
    assert_eq!(app.log_view_start(50), 0);
}

#[test]
fn file_names_without_folders() {
    assert_eq!(file_basename("music\\album/track.flac"), "track.flac");
    assert_eq!(file_basename("plain.mp3"), "plain.mp3");
    assert_eq!(file_basename("dir/"), "");
    assert_eq!(file_basename(""), "");
}

#[test]
fn results_from_a_peer_response() {
    let resp = FileSearchResponse {
        username: "bob".into(),
        token: 5,
        results: vec![FileSearchResult {
            code: 1,
            filename: "x\\y.mp3".into(),
            size: 10,
            extension: "mp3".into(),
            attributes: vec![],
        }],
        slot_free: false,
        avg_speed: 0,
        queue_length: 0,
        unknown: 0,
        private_results: vec![],
    };
    let rs = search_results_from(&resp, Some(5));
    assert_eq!(rs.len(), 1);
    assert_eq!(rs[0].username, "bob");
    assert_eq!(rs[0].filename, "x\\y.mp3");
    assert_eq!(rs[0].size, 10);
    assert!(search_results_from(&resp, Some(6)).is_empty());
    assert!(search_results_from(&resp, None).is_empty());
}

#[test]
fn transfer_completion() {
    assert!(transfer_complete(5, 5));
    assert!(transfer_complete(6, 5));
    assert!(!transfer_complete(4, 5));
    assert!(!transfer_complete(0, 0));
}

#[test]
fn log_pane_focus_and_fullscreen() {
    let mut app = app_with_results();
    assert!(!app.log_focused && !app.log_fullscreen);
    app.handle_global_key(Key::Char('f'));
    assert!(!app.log_fullscreen);
    app.handle_global_key(Key::Char('l'));
    assert!(app.log_focused);
    let before = app.search_selection;
    app.handle_global_key(Key::Down);
    app.handle_global_key(Key::Char('j'));
    assert_eq!(app.log_scroll, 2);
    assert_eq!(app.search_selection, before);
    app.handle_global_key(Key::Char('k'));
    app.handle_global_key(Key::Up);
    app.handle_global_key(Key::Up);
    assert_eq!(app.log_scroll, 0);
    let (_, cmds) = app.handle_global_key(Key::Enter);
    assert!(cmds.is_empty());
    app.handle_global_key(Key::Char('f'));
    assert!(app.log_fullscreen);
    app.handle_global_key(Key::Tab);
    assert_eq!(app.active_tab, ActiveTab::Downloads);
    app.handle_global_key(Key::Char('f'));
    assert!(!app.log_fullscreen);
    app.handle_global_key(Key::Char('f'));
    app.handle_global_key(Key::Char('l'));
    assert!(!app.log_focused && !app.log_fullscreen);
    let (quit, _) = app.handle_global_key(Key::Char('q'));
    assert!(quit);
}
