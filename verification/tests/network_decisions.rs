use slsk_protocol::codec::{read_frame_u32, ByteReader};
use slsk_protocol::events::AppEvent;
use slsk_protocol::labels::{download_label, list_title, search_result_label};
use slsk_protocol::net::{
    connect_request_message, login_events, peer_target, search_sent_message, unknown_token_message, NetState,
    PeerReaction, LISTEN_PORT,
};
use slsk_protocol::client::{App, SearchResult};
use slsk_protocol::peer::{FileSearchResponse, FileSearchResult, PeerMessage, TransferRequest, UploadDenied};
use slsk_protocol::server::{ConnectToPeerResponse, LoginResponse, ServerMessage};
use slsk_protocol::types::TransferDirection;

fn split(frame: &[u8]) -> (u32, Vec<u8>) {
    let mut r = ByteReader::new(frame);
    read_frame_u32(&mut r).unwrap()
}

fn response(token: u32, n: usize) -> FileSearchResponse {
    FileSearchResponse {
        username: "peer".into(),
        token,
        results: (0..n)
            .map(|i| FileSearchResult {
                code: 1,
                filename: format!("f{}.mp3", i),
                size: 100,
                extension: "mp3".into(),
                attributes: vec![],
            })
            .collect(),
        slot_free: true,
        avg_speed: 1,
        queue_length: 0,
        unknown: 0,
        private_results: vec![],
    }
}

#[test]
fn search_command_sets_the_wanted_token() {
    let mut net = NetState::new();
    let frame = net.on_search(9, "abc".into());
    let (code, body) = split(&frame);
    assert_eq!(code, 26);
    assert_eq!(body, vec![9, 0, 0, 0, 3, 0, 0, 0, b'a', b'b', b'c']);
    assert!(net.on_search_response(&response(8, 2)).is_none());
    match net.on_search_response(&response(9, 2)) {
        Some(AppEvent::SearchResults { token, results }) => {
            assert_eq!(token, 9);
            assert_eq!(results.len(), 2);
            assert_eq!(results[1].filename, "f1.mp3");
            assert_eq!(results[0].username, "peer");
        }
        other => panic!("unexpected {:?}", other),
    }
    assert!(net.on_search_response(&response(9, 0)).is_none());
    assert_eq!(search_sent_message("abc"), "Search sent for 'abc'");
}

#[test]
fn download_command_asks_for_a_peer_connection() {
    let mut net = NetState::new();
    let (tok, frame) = net.on_download(0, "bob".into(), "music\\song.mp3".into(), 5000);
    assert_eq!(tok, 1);
    let (code, body) = split(&frame);
    assert_eq!(code, 18);
    let mut expected = 1u32.to_le_bytes().to_vec();
    expected.extend([3, 0, 0, 0, b'b', b'o', b'b', 1, 0, 0, 0, b'P']);
    assert_eq!(body, expected);
    let (tok2, _) = net.on_download(1, "bob".into(), "other.mp3".into(), 10);
    assert_eq!(tok2, 2);
    assert_eq!(
        connect_request_message("bob", "music\\song.mp3"),
        "Requesting connection to bob for 'music\\song.mp3'"
    );
    let frames = net.queue_uploads();
    assert_eq!(frames.len(), 2);
    let mut bodies: Vec<Vec<u8>> = frames
        .iter()
        .map(|f| {
            let (qcode, qbody) = split(f);
            assert_eq!(qcode, 43);
            qbody
        })
        .collect();
    bodies.sort();
    let mut first = 14u32.to_le_bytes().to_vec();
    first.extend(b"music\\song.mp3");
    let mut second = 9u32.to_le_bytes().to_vec();
    second.extend(b"other.mp3");
    let mut expected = vec![first, second];
    expected.sort();
    assert_eq!(bodies, expected);
}

#[test]
fn file_transfer_runs_to_completion() {
    let mut net = NetState::new();
    let (tok, _) = net.on_download(7, "bob".into(), "music/album\\song.mp3".into(), 10);
    assert!(net.begin_transfer(tok + 1).is_none());
    assert_eq!(unknown_token_message(tok + 1), "Unknown transfer token 2");
    let mut t = net.begin_transfer(tok).unwrap();
    assert_eq!(t.id, 7);
    assert_eq!(t.name, "song.mp3");
    assert_eq!(t.total, 10);
    assert_eq!(t.receiving_message(), "Receiving 'song.mp3'…");
    let (ev, done) = t.on_chunk(4);
    assert!(!done);
    assert!(matches!(ev, AppEvent::DownloadProgress { id: 7, downloaded: 4, total: 10 }));
    let (_, done2) = t.on_chunk(6);
    assert!(done2);
    let events = net.finish_transfer(&t);
    assert_eq!(events.len(), 2);
    assert!(matches!(events[0], AppEvent::DownloadDone { id: 7 }));
    match &events[1] {
        AppEvent::Log(m) => assert_eq!(m, "Download complete: song.mp3"),
        other => panic!("unexpected {:?}", other),
    }
    assert!(net.begin_transfer(tok).is_none());
    assert!(net.queue_uploads().is_empty());
}

#[test]
fn short_transfer_fails() {
    let mut net = NetState::new();
    let (tok, _) = net.on_download(3, "bob".into(), "a.mp3".into(), 100);
    let mut t = net.begin_transfer(tok).unwrap();
    let _ = t.on_chunk(40);
    let events = net.finish_transfer(&t);
    assert_eq!(events.len(), 1);
    match &events[0] {
        AppEvent::DownloadFailed { id, reason } => {
            assert_eq!(*id, 3);
            assert_eq!(reason, "incomplete: 40/100 bytes");
        }
        other => panic!("unexpected {:?}", other),
    }
}

#[test]
fn peer_messages() {
    let mut net = NetState::new();
    let (_, _) = net.on_download(4, "bob".into(), "want.mp3".into(), 1);
    let offered = PeerMessage::TransferRequest(TransferRequest {
        direction: TransferDirection::Upload,
        token: 1,
        filename: "want.mp3".into(),
        file_size: Some(1),
    });
    match net.on_peer_message(&offered) {
        PeerReaction::Notify(AppEvent::Log(m)) => assert_eq!(m, "Transfer starting: want.mp3"),
        other => panic!("unexpected {:?}", other),
    }
    let other_file = PeerMessage::TransferRequest(TransferRequest {
        direction: TransferDirection::Upload,
        token: 1,
        filename: "else.mp3".into(),
        file_size: None,
    });
    assert!(matches!(net.on_peer_message(&other_file), PeerReaction::Ignore));
    let compressed = response(3, 1).encode_compressed().unwrap();
    match net.on_peer_message(&PeerMessage::FileSearchResponse(compressed)) {
        PeerReaction::Forward(resp) => {
            assert_eq!(resp.token, 3);
            assert_eq!(resp.results.len(), 1);
        }
        other => panic!("unexpected {:?}", other),
    }
    assert!(matches!(net.on_peer_message(&PeerMessage::FileSearchResponse(vec![1, 2])), PeerReaction::Ignore));
    let unrelated = PeerMessage::UploadDenied(UploadDenied { filename: "x".into(), reason: "Queue full".into() });
    assert!(matches!(net.on_peer_message(&unrelated), PeerReaction::Ignore));
    let denied = PeerMessage::UploadDenied(UploadDenied { filename: "want.mp3".into(), reason: "Queue full".into() });
    match net.on_peer_message(&denied) {
        PeerReaction::Notify(AppEvent::TransferDenied { id, reason }) => {
            assert_eq!(id, 4);
            assert_eq!(reason, "Queue full");
        }
        other => panic!("unexpected {:?}", other),
    }
    assert!(matches!(net.on_peer_message(&denied), PeerReaction::Ignore));
    assert!(matches!(net.on_peer_message(&PeerMessage::GetSharedFileList), PeerReaction::Ignore));
}

#[test]
fn server_messages() {
    let relay = |conn: &str| {
        ServerMessage::ConnectToPeer(ConnectToPeerResponse {
            username: "bob".into(),
            conn_type: conn.into(),
            ip: 0x7f00_0001,
            port: 2235,
            token: 11,
            privileged: false,
            obfuscation_type: 0,
            obfuscated_port: 0,
        })
    };
    let t = peer_target(&relay("P")).unwrap();
    assert_eq!(t.ip, 0x7f00_0001);
    assert_eq!(t.port, 2235);
    assert_eq!(t.username, "bob");
    assert_eq!(t.token, 11);
    assert!(peer_target(&relay("F")).is_none());
    assert!(peer_target(&ServerMessage::Unknown { code: 1, body: vec![] }).is_none());
    assert_eq!(LISTEN_PORT, 2234);
}

#[test]
fn login_outcomes() {
    let ok = LoginResponse::Success {
        greet: "hi".into(),
        own_ip: 0,
        password_hash: String::new(),
        is_supporter: false,
    };
    let (go_on, events) = login_events(&ok);
    assert!(go_on);
    assert!(matches!(&events[0], AppEvent::LoginOk { greet } if greet == "hi"));
    assert!(matches!(&events[1], AppEvent::Log(m) if m == "Login OK: hi"));
    let bad = LoginResponse::Failure { reason: "INVALIDPASS".into(), detail: None };
    let (go_on2, events2) = login_events(&bad);
    assert!(!go_on2);
    assert!(matches!(&events2[0], AppEvent::LoginFailed { reason } if reason == "INVALIDPASS"));
    assert!(matches!(&events2[1], AppEvent::Log(m) if m == "Login FAILED: INVALIDPASS"));
}

#[test]
fn list_texts() {
    assert_eq!(search_result_label(true, "alice", "a.mp3", 4096), "[x] alice — a.mp3 (4 KB)");
    assert_eq!(search_result_label(false, "bob", "b.mp3", 1023), "[ ] bob — b.mp3 (0 KB)");
    assert_eq!(list_title("Results", 0), " Results ");
    assert_eq!(list_title("Results", 12), " Results (12) ");
    assert_eq!(download_label("bob", "dir\\song.mp3", "Done"), "bob — song.mp3 — Done");
    let mut app = App::new();
    app.search_results.push(SearchResult {
        username: "a".into(),
        filename: "b".into(),
        size: 1,
        extension: String::new(),
    });
    app.selected_for_download.push(0);
    assert!(app.is_selected_for_download(0));
    assert!(!app.is_selected_for_download(1));
}

#[test]
fn a_denial_fails_the_download_of_that_file() {
    let mut net = NetState::new();
    let (ta, _) = net.on_download(1, "bob".into(), "a".into(), 10);
    let (tb, _) = net.on_download(2, "bob".into(), "b".into(), 10);
    let denied = PeerMessage::UploadDenied(UploadDenied { filename: "b".into(), reason: "r".into() });
    match net.on_peer_message(&denied) {
        PeerReaction::Notify(AppEvent::TransferDenied { id, reason }) => {
            assert_eq!(id, 2);
            assert_eq!(reason, "r");
        }
        other => panic!("unexpected {:?}", other),
    }
    assert!(net.begin_transfer(ta).is_some());
    assert!(net.begin_transfer(tb).is_none());
    assert_eq!(net.queue_uploads().len(), 1);
}
