use slsk_protocol::codec::{read_frame_u32, read_frame_u8, ByteReader};
use slsk_protocol::distributed::{DistribMessage, DistribSearch};
use slsk_protocol::error::Error;
use slsk_protocol::file::{FileOffset, FileTransferInit};
use slsk_protocol::peer::{
    FileSearchResponse, FileSearchResult, PeerMessage, QueueUpload, TransferRequest, TransferResponse, UploadDenied,
    UserInfoResponse,
};
use slsk_protocol::peer_init::{PeerInit, PeerInitMessage, PierceFirewall};
use slsk_protocol::server::{
    login_hash, password_hash, ConnectToPeerRequest, FileSearchRequest, LoginRequest, LoginResponse, ServerMessage,
    SetWaitPort,
};
use slsk_protocol::shared_files::{FolderContentsResponse, SharedDirectory, SharedFileListResponse};
use slsk_protocol::types::{
    ConnectionType, FileAttribute, FileAttributeType, ObfuscationType, SharedFile, TransferDirection,
    UploadPermission, UserStatus,
};

fn split_u32(frame: &[u8]) -> (u32, Vec<u8>) {
    let mut r = ByteReader::new(frame);
    let out = read_frame_u32(&mut r).unwrap();
    assert_eq!(r.position(), frame.len());
    out
}

fn split_u8(frame: &[u8]) -> (u8, Vec<u8>) {
    let mut r = ByteReader::new(frame);
    read_frame_u8(&mut r).unwrap()
}

fn body_string(s: &str) -> Vec<u8> {
    let mut v = (s.len() as u32).to_le_bytes().to_vec();
    v.extend_from_slice(s.as_bytes());
    v
}

#[test]
fn login_hash_is_md5_of_username_then_password() {
    assert_eq!(login_hash("", ""), "d41d8cd98f00b204e9800998ecf8427e");
    assert_eq!(login_hash("abc", "defghijklmnopqrstuvwxyz"), "c3fcd3d76192e4007dfb496cca67e13b");
    assert_eq!(password_hash("abc"), "900150983cd24fb0d6963f7d28e17f72");
}

#[test]
fn login_request_layout() {
    let req = LoginRequest::new("abc", "defghijklmnopqrstuvwxyz");
    assert_eq!(req.version, 160);
    assert_eq!(req.minor_version, 1);
    let (code, body) = split_u32(&req.encode());
    assert_eq!(code, 1);
    let mut expected = body_string("abc");
    expected.extend(body_string("defghijklmnopqrstuvwxyz"));
    expected.extend(160u32.to_le_bytes());
    expected.extend(body_string("c3fcd3d76192e4007dfb496cca67e13b"));
    expected.extend(1u32.to_le_bytes());
    assert_eq!(body, expected);
}

#[test]
fn login_success_decodes() {
    let mut body = vec![1u8];
    body.extend(body_string("welcome"));
    body.extend(0x0100_007fu32.to_le_bytes());
    body.extend(body_string("hash"));
    body.push(1);
    match ServerMessage::decode(1, &body).unwrap() {
        ServerMessage::Login(LoginResponse::Success { greet, own_ip, password_hash, is_supporter }) => {
            assert_eq!(greet, "welcome");
            assert_eq!(own_ip, 0x0100_007f);
            assert_eq!(password_hash, "hash");
            assert!(is_supporter);
        }
        other => panic!("unexpected {:?}", other),
    }
}

#[test]
fn login_failure_reads_detail_only_for_invalid_username() {
    let mut body = vec![0u8];
    body.extend(body_string("INVALIDUSERNAME"));
    body.extend(body_string("too long"));
    match LoginResponse::decode(&body).unwrap() {
        LoginResponse::Failure { reason, detail } => {
            assert_eq!(reason, "INVALIDUSERNAME");
            assert_eq!(detail.as_deref(), Some("too long"));
        }
        other => panic!("unexpected {:?}", other),
    }
    let mut body2 = vec![0u8];
    body2.extend(body_string("INVALIDPASS"));
    match LoginResponse::decode(&body2).unwrap() {
        LoginResponse::Failure { reason, detail } => {
            assert_eq!(reason, "INVALIDPASS");
            assert!(detail.is_none());
        }
        other => panic!("unexpected {:?}", other),
    }
}

#[test]
fn unknown_server_code_keeps_body() {
    match ServerMessage::decode(999_999, &[1, 2, 3]).unwrap() {
        ServerMessage::Unknown { code, body } => {
            assert_eq!(code, 999_999);
            assert_eq!(body, vec![1, 2, 3]);
        }
        other => panic!("unexpected {:?}", other),
    }
}

#[test]
fn set_wait_port_layout() {
    let (code, body) = split_u32(&SetWaitPort::new(2234).encode());
    assert_eq!(code, 2);
    assert_eq!(body, 2234u32.to_le_bytes().to_vec());
}

#[test]
fn file_search_request_layout() {
    let req = FileSearchRequest { token: 42, query: "pink floyd".into() };
    let (code, body) = split_u32(&req.encode());
    assert_eq!(code, 26);
    let mut expected = 42u32.to_le_bytes().to_vec();
    expected.extend(body_string("pink floyd"));
    assert_eq!(body, expected);
}

#[test]
fn connect_to_peer_request_layout() {
    let req = ConnectToPeerRequest { token: 7, username: "bob".into(), conn_type: "P".into() };
    let (code, body) = split_u32(&req.encode());
    assert_eq!(code, 18);
    let mut expected = 7u32.to_le_bytes().to_vec();
    expected.extend(body_string("bob"));
    expected.extend(body_string("P"));
    assert_eq!(body, expected);
}

#[test]
fn transfer_request_round_trip() {
    let req = TransferRequest {
        direction: TransferDirection::Upload,
        token: 5,
        filename: "music\\a.flac".into(),
        file_size: Some(1234),
    };
    let (code, body) = split_u32(&req.encode());
    assert_eq!(code, 40);
    match PeerMessage::decode(code, &body).unwrap() {
        PeerMessage::TransferRequest(back) => {
            assert_eq!(back.direction, TransferDirection::Upload);
            assert_eq!(back.token, 5);
            assert_eq!(back.filename, "music\\a.flac");
            assert_eq!(back.file_size, Some(1234));
        }
        other => panic!("unexpected {:?}", other),
    }
}

#[test]
fn unknown_transfer_direction_is_refused() {
    let mut body = 7u32.to_le_bytes().to_vec();
    body.extend(1u32.to_le_bytes());
    body.extend(body_string("x"));
    match TransferRequest::decode(&body) {
        Err(Error::Protocol(m)) => assert_eq!(m, "unknown transfer direction 7"),
        other => panic!("unexpected {:?}", other),
    }
}

#[test]
fn transfer_response_upload_variants() {
    let allowed = TransferResponse::UploadAllowed { token: 9 };
    let (code, body) = split_u32(&allowed.encode());
    assert_eq!(code, 41);
    assert_eq!(body, vec![9, 0, 0, 0, 1]);
    match TransferResponse::decode_upload(&body).unwrap() {
        TransferResponse::UploadAllowed { token } => assert_eq!(token, 9),
        other => panic!("unexpected {:?}", other),
    }
    let denied = TransferResponse::UploadDenied { token: 9, reason: "Queued".into() };
    let (_, body2) = split_u32(&denied.encode());
    match TransferResponse::decode_upload(&body2).unwrap() {
        TransferResponse::UploadDenied { token, reason } => {
            assert_eq!(token, 9);
            assert_eq!(reason, "Queued");
        }
        other => panic!("unexpected {:?}", other),
    }
}

#[test]
fn queue_upload_and_upload_denied_round_trip() {
    let (code, body) = split_u32(&QueueUpload { filename: "a/b.mp3".into() }.encode());
    assert_eq!(code, 43);
    match PeerMessage::decode(code, &body).unwrap() {
        PeerMessage::QueueUpload(q) => assert_eq!(q.filename, "a/b.mp3"),
        other => panic!("unexpected {:?}", other),
    }
    let denied = UploadDenied { filename: "a/b.mp3".into(), reason: "Banned".into() };
    let (code2, body2) = split_u32(&denied.encode());
    assert_eq!(code2, 50);
    match PeerMessage::decode(code2, &body2).unwrap() {
        PeerMessage::UploadDenied(d) => {
            assert_eq!(d.filename, "a/b.mp3");
            assert_eq!(d.reason, "Banned");
        }
        other => panic!("unexpected {:?}", other),
    }
}

#[test]
fn user_info_round_trip() {
    let info = UserInfoResponse {
        description: "hello".into(),
        picture: Some(vec![1, 2, 3]),
        total_uploads: 10,
        queue_size: 2,
        slots_free: true,
        upload_permitted: Some(UploadPermission::UsersInList),
    };
    let (code, body) = split_u32(&info.encode());
    assert_eq!(code, 16);
    let back = UserInfoResponse::decode(&body).unwrap();
    assert_eq!(back.description, "hello");
    assert_eq!(back.picture, Some(vec![1, 2, 3]));
    assert_eq!(back.total_uploads, 10);
    assert_eq!(back.queue_size, 2);
    assert!(back.slots_free);
    assert_eq!(back.upload_permitted, Some(UploadPermission::UsersInList));
}

#[test]
fn user_info_without_trailing_permission() {
    let info = UserInfoResponse {
        description: String::new(),
        picture: None,
        total_uploads: 0,
        queue_size: 0,
        slots_free: false,
        upload_permitted: None,
    };
    let (_, body) = split_u32(&info.encode());
    assert_eq!(body.len(), 4 + 1 + 4 + 4 + 1);
    let back = UserInfoResponse::decode(&body).unwrap();
    assert!(back.picture.is_none());
    assert!(back.upload_permitted.is_none());
}

fn sample_result(name: &str, size: u64) -> FileSearchResult {
    FileSearchResult {
        code: 1,
        filename: name.into(),
        size,
        extension: "mp3".into(),
        attributes: vec![
            FileAttribute { code: FileAttributeType::Bitrate, value: 320 },
            FileAttribute { code: FileAttributeType::Duration, value: 215 },
        ],
    }
}

fn sample_response() -> FileSearchResponse {
    FileSearchResponse {
        username: "alice".into(),
        token: 77,
        results: vec![sample_result("music\\a.mp3", 4_000_000), sample_result("music\\b.mp3", 5_000)],
        slot_free: true,
        avg_speed: 1000,
        queue_length: 3,
        unknown: 0,
        private_results: vec![sample_result("private\\c.mp3", 12)],
    }
}

fn assert_same_results(a: &[FileSearchResult], b: &[FileSearchResult]) {
    assert_eq!(a.len(), b.len());
    for (x, y) in a.iter().zip(b.iter()) {
        assert_eq!(x.code, y.code);
        assert_eq!(x.filename, y.filename);
        assert_eq!(x.size, y.size);
        assert_eq!(x.extension, y.extension);
        assert_eq!(x.attributes, y.attributes);
    }
}

#[test]
fn file_search_response_compressed_round_trip() {
    let resp = sample_response();
    let raw = resp.encode_uncompressed();
    let compressed = resp.encode_compressed().unwrap();
    assert_ne!(compressed, raw);
    let back = FileSearchResponse::decode_compressed(&compressed).unwrap();
    assert_eq!(back.username, "alice");
    assert_eq!(back.token, 77);
    assert!(back.slot_free);
    assert_eq!(back.avg_speed, 1000);
    assert_eq!(back.queue_length, 3);
    assert_eq!(back.unknown, 0);
    assert_same_results(&back.results, &resp.results);
    assert_same_results(&back.private_results, &resp.private_results);
    let plain = FileSearchResponse::decode_uncompressed(&raw).unwrap();
    assert_eq!(plain.token, 77);
}

#[test]
fn missing_private_results_read_as_none() {
    let mut resp = sample_response();
    resp.private_results.clear();
    let mut raw = resp.encode_uncompressed();
    raw.truncate(raw.len() - 4);
    let back = FileSearchResponse::decode_uncompressed(&raw).unwrap();
    assert!(back.private_results.is_empty());
    assert_eq!(back.results.len(), 2);
}

#[test]
fn garbage_is_a_zlib_error() {
    assert!(matches!(FileSearchResponse::decode_compressed(&[1, 2, 3, 4]), Err(Error::Zlib(_))));
    assert!(matches!(SharedFileListResponse::decode_compressed(&[0xff; 8]), Err(Error::Zlib(_))));
}

#[test]
fn shared_file_list_compressed_round_trip() {
    let file = SharedFile {
        code: 1,
        filename: "song.flac".into(),
        size: 99,
        extension: "flac".into(),
        attributes: vec![FileAttribute { code: FileAttributeType::SampleRate, value: 44100 }],
    };
    let list = SharedFileListResponse {
        directories: vec![SharedDirectory { name: "music".into(), files: vec![file.clone()] }],
        unknown: 0,
        private_directories: vec![SharedDirectory { name: "secret".into(), files: vec![] }],
    };
    let compressed = list.encode_compressed().unwrap();
    let back = SharedFileListResponse::decode_compressed(&compressed).unwrap();
    assert_eq!(back.directories.len(), 1);
    assert_eq!(back.directories[0].name, "music");
    assert_eq!(back.directories[0].files[0].filename, "song.flac");
    assert_eq!(back.directories[0].files[0].size, 99);
    assert_eq!(back.directories[0].files[0].attributes, file.attributes);
    assert_eq!(back.private_directories.len(), 1);
    assert_eq!(back.private_directories[0].name, "secret");
}

#[test]
fn folder_contents_compressed_round_trip() {
    let resp = FolderContentsResponse {
        token: 3,
        folder: "music".into(),
        directories: vec![SharedDirectory { name: "music\\x".into(), files: vec![] }],
    };
    let compressed = resp.encode_compressed().unwrap();
    let back = FolderContentsResponse::decode_compressed(&compressed).unwrap();
    assert_eq!(back.token, 3);
    assert_eq!(back.folder, "music");
    assert_eq!(back.directories[0].name, "music\\x");
}

#[test]
fn peer_init_round_trip() {
    let frame = PeerInit::new("bob", "P").encode();
    let (code, body) = split_u8(&frame);
    assert_eq!(code, 1);
    match PeerInitMessage::decode(code, &body).unwrap() {
        PeerInitMessage::PeerInit(p) => {
            assert_eq!(p.username, "bob");
            assert_eq!(p.conn_type, "P");
            assert_eq!(p.token, 0);
        }
        other => panic!("unexpected {:?}", other),
    }
    let (code2, body2) = split_u8(&PierceFirewall { token: 12 }.encode());
    assert_eq!(code2, 0);
    match PeerInitMessage::decode(code2, &body2).unwrap() {
        PeerInitMessage::PierceFirewall(p) => assert_eq!(p.token, 12),
        other => panic!("unexpected {:?}", other),
    }
}

#[test]
fn unknown_peer_init_code_is_refused() {
    match PeerInitMessage::decode(9, &[]) {
        Err(Error::Protocol(m)) => assert_eq!(m, "unknown peer-init code 9"),
        other => panic!("unexpected {:?}", other),
    }
}

#[test]
fn distributed_search_round_trip() {
    let s = DistribSearch { identifier: 49, username: "carol".into(), token: 4, query: "jazz".into() };
    assert!(s.is_valid_identifier());
    let (code, body) = split_u8(&s.encode_raw());
    assert_eq!(code, 3);
    match DistribMessage::decode(code, &body).unwrap() {
        DistribMessage::Search(back) => {
            assert_eq!(back.identifier, 49);
            assert_eq!(back.username, "carol");
            assert_eq!(back.token, 4);
            assert_eq!(back.query, "jazz");
        }
        other => panic!("unexpected {:?}", other),
    }
    match DistribMessage::decode(200, &[5]).unwrap() {
        DistribMessage::Unknown { code, body } => {
            assert_eq!(code, 200);
            assert_eq!(body, vec![5]);
        }
        other => panic!("unexpected {:?}", other),
    }
}

#[test]
fn file_connection_handshake_values() {
    let init = FileTransferInit { token: 0x0102_0304 };
    let bytes = init.encode();
    assert_eq!(bytes, vec![4, 3, 2, 1]);
    let mut r = ByteReader::new(&bytes);
    assert_eq!(FileTransferInit::decode(&mut r).unwrap().token, 0x0102_0304);
    let off = FileOffset { offset: 5 };
    let obytes = off.encode();
    assert_eq!(obytes, vec![5, 0, 0, 0, 0, 0, 0, 0]);
    let mut r2 = ByteReader::new(&obytes);
    assert_eq!(FileOffset::decode(&mut r2).unwrap().offset, 5);
}

#[test]
fn enum_wire_values() {
    assert_eq!(UserStatus::Online.to_wire(), 2);
    assert_eq!(UserStatus::try_from(1).unwrap(), UserStatus::Away);
    match UserStatus::try_from(3) {
        Err(Error::Protocol(m)) => assert_eq!(m, "unknown user status 3"),
        other => panic!("unexpected {:?}", other),
    }
    assert_eq!(UploadPermission::PermittedUsers.to_wire(), 3);
    assert!(UploadPermission::try_from(4).is_err());
    assert_eq!(TransferDirection::try_from(1).unwrap(), TransferDirection::Upload);
    assert_eq!(ObfuscationType::default(), ObfuscationType::Plain);
    assert_eq!(ObfuscationType::try_from(1).unwrap(), ObfuscationType::Rotated);
    assert_eq!(FileAttributeType::BitDepth.to_wire(), 5);
    match FileAttributeType::try_from(6) {
        Err(Error::Protocol(m)) => assert_eq!(m, "unknown file attribute 6"),
        other => panic!("unexpected {:?}", other),
    }
}

#[test]
fn connection_type_letters() {
    assert_eq!(ConnectionType::PeerToPeer.as_str(), "P");
    assert_eq!(ConnectionType::FileTransfer.as_str(), "F");
    assert_eq!(ConnectionType::Distributed.as_str(), "D");
    assert_eq!(ConnectionType::from_str("F"), Some(ConnectionType::FileTransfer));
    assert_eq!(ConnectionType::from_str("X"), None);
    assert_eq!(ConnectionType::from_str("PP"), None);
}
