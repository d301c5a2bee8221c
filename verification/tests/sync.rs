use sovereign::sync::{
    ack, decode_length, encode_length, frame_blob, host_or_local, is_ack, server_start,
    server_step, ConnectionInfo, P2PSync, ServerAction, ServerEvent, ServerState, SyncCommand,
    SyncError, SyncResult,
};

fn service() -> P2PSync {
    P2PSync::new("/data".to_string(), 7654)
}

fn receive(state: ServerState, bytes: &[u8]) -> (ServerState, ServerAction) {
    server_step(state, ServerEvent::Received(bytes.to_vec()))
}

#[test]
fn commands_are_four_ascii_bytes() {
    assert_eq!(SyncCommand::Push.to_bytes(), b"PUSH");
    assert_eq!(SyncCommand::Pull.to_bytes(), b"PULL");
    assert_eq!(SyncCommand::Sync.to_bytes(), b"SYNC");
    assert_eq!(SyncCommand::from_bytes(b"PUSH"), Some(SyncCommand::Push));
    assert_eq!(SyncCommand::from_bytes(b"PULL"), Some(SyncCommand::Pull));
    assert_eq!(SyncCommand::from_bytes(b"SYNC"), Some(SyncCommand::Sync));
    assert_eq!(SyncCommand::from_bytes(b"push"), None);
    assert_eq!(SyncCommand::from_bytes(b"PUS"), None);
    assert_eq!(SyncCommand::from_bytes(b"PUSHX"), None);
    assert_eq!(ack(), b"OK  ");
    assert!(is_ack(b"OK  "));
    assert!(!is_ack(b"OK"));
    assert!(!is_ack(b"FAIL"));
}

#[test]
fn lengths_are_eight_big_endian_bytes() {
    for n in [0u64, 1, 255, 256, 65_535, 0x0102_0304_0506_0708, u64::MAX] {
        assert_eq!(encode_length(n), n.to_be_bytes());
        assert_eq!(decode_length(&n.to_be_bytes()), n);
        assert_eq!(decode_length(&encode_length(n)), n);
    }
    assert_eq!(encode_length(258), vec![0, 0, 0, 0, 0, 0, 1, 2]);
}

#[test]
fn blobs_are_framed_with_their_length() {
    assert_eq!(frame_blob(b""), vec![0, 0, 0, 0, 0, 0, 0, 0]);
    assert_eq!(frame_blob(b"abc"), vec![0, 0, 0, 0, 0, 0, 0, 3, 97, 98, 99]);
    let big = vec![7u8; 300];
    let framed = frame_blob(&big);
    assert_eq!(&framed[..8], &[0, 0, 0, 0, 0, 0, 1, 44]);
    assert_eq!(&framed[8..], &big[..]);
}

#[test]
fn a_server_stores_a_pushed_blob_and_acknowledges() {
    let (state, action) = server_start();
    assert_eq!(state, ServerState::AwaitCommand);
    assert!(matches!(action, ServerAction::Receive(4)));
    let (state, action) = receive(state, b"PUSH");
    assert_eq!(state, ServerState::AwaitLength(SyncCommand::Push));
    assert!(matches!(action, ServerAction::Receive(8)));
    let (state, action) = receive(state, &5u64.to_be_bytes());
    assert_eq!(state, ServerState::AwaitBlob(SyncCommand::Push, 5));
    assert!(matches!(action, ServerAction::Receive(5)));
    let (state, action) = receive(state, b"hello");
    assert_eq!(state, ServerState::AwaitStore);
    assert!(matches!(action, ServerAction::StoreIncoming(ref data) if data == b"hello"));
    let (state, action) = server_step(state, ServerEvent::Stored);
    assert_eq!(state, ServerState::Closed);
    assert!(matches!(action, ServerAction::Reply(ref data) if data == b"OK  "));
}

#[test]
fn a_server_sends_its_document_on_pull() {
    let (state, action) = receive(ServerState::AwaitCommand, b"PULL");
    assert_eq!(state, ServerState::AwaitLocal);
    assert!(matches!(action, ServerAction::LoadLocal));
    let (state, action) = server_step(state, ServerEvent::Loaded(b"doc".to_vec()));
    assert_eq!(state, ServerState::Closed);
    assert!(matches!(action, ServerAction::Reply(ref data) if data == &frame_blob(b"doc")));
    let (_, action) = server_step(ServerState::AwaitLocal, ServerEvent::Loaded(Vec::new()));
    assert!(matches!(action, ServerAction::Reply(ref data) if data == &vec![0u8; 8]));
}

#[test]
fn a_server_takes_a_blob_and_sends_its_document_on_sync() {
    let (state, _) = receive(ServerState::AwaitCommand, b"SYNC");
    assert_eq!(state, ServerState::AwaitLength(SyncCommand::Sync));
    let (state, action) = receive(state, &2u64.to_be_bytes());
    assert_eq!(state, ServerState::AwaitBlob(SyncCommand::Sync, 2));
    assert!(matches!(action, ServerAction::Receive(2)));
    let (state, action) = receive(state, b"hi");
    assert_eq!(state, ServerState::AwaitLocal);
    assert!(matches!(action, ServerAction::LoadLocal));
    let (state, action) = server_step(state, ServerEvent::Loaded(b"mine".to_vec()));
    assert_eq!(state, ServerState::Closed);
    assert!(matches!(action, ServerAction::Reply(ref data) if data == &frame_blob(b"mine")));
}

#[test]
fn a_server_ends_the_exchange_on_anything_else() {
    let fails = |state: ServerState, event: ServerEvent, error: SyncError| {
        let (next, action) = server_step(state, event);
        assert_eq!(next, ServerState::Closed);
        assert!(matches!(action, ServerAction::Fail(e) if e == error));
    };
    fails(ServerState::AwaitCommand, ServerEvent::Received(b"HELO".to_vec()), SyncError::UnknownCommand);
    fails(ServerState::AwaitCommand, ServerEvent::Received(b"PU".to_vec()), SyncError::ShortRead);
    fails(ServerState::AwaitCommand, ServerEvent::Received(Vec::new()), SyncError::ShortRead);
    fails(ServerState::AwaitLength(SyncCommand::Push), ServerEvent::Received(vec![0; 7]), SyncError::ShortRead);
    fails(ServerState::AwaitBlob(SyncCommand::Push, 5), ServerEvent::Received(b"hell".to_vec()), SyncError::ShortRead);
    fails(ServerState::AwaitBlob(SyncCommand::Sync, 5), ServerEvent::StorageFailed, SyncError::Storage);
    fails(ServerState::AwaitStore, ServerEvent::StorageFailed, SyncError::Storage);
    fails(ServerState::AwaitLocal, ServerEvent::StorageFailed, SyncError::Storage);
    fails(ServerState::AwaitStore, ServerEvent::Loaded(Vec::new()), SyncError::ShortRead);
    fails(ServerState::AwaitLocal, ServerEvent::Stored, SyncError::ShortRead);
    fails(ServerState::Closed, ServerEvent::Received(b"PUSH".to_vec()), SyncError::ShortRead);
}

#[test]
fn a_client_frames_what_it_sends() {
    let p2p = service();
    assert_eq!(p2p.data_dir, "/data");
    assert_eq!(p2p.port, 7654);
    let mut push = b"PUSH".to_vec();
    push.extend_from_slice(&3u64.to_be_bytes());
    push.extend_from_slice(b"abc");
    assert_eq!(p2p.push_request(b"abc"), push);
    assert_eq!(p2p.pull_request(), b"PULL");
    let mut sync = b"SYNC".to_vec();
    sync.extend_from_slice(&0u64.to_be_bytes());
    assert_eq!(p2p.sync_request(b""), sync);
}

#[test]
fn a_client_reports_what_moved() {
    let p2p = service();
    let pushed = p2p.push_result(12, b"OK  ").unwrap();
    assert_eq!((pushed.bytes_sent, pushed.bytes_received), (12, 0));
    assert_eq!(pushed.status, "Pushed successfully");
    assert_eq!(p2p.push_result(12, b"NO  ").err(), Some(SyncError::PushRefused));
    let pulled = p2p.pull_result(99);
    assert_eq!((pulled.bytes_sent, pulled.bytes_received), (4, 99));
    assert_eq!(pulled.status, "Pulled successfully");
    let synced = p2p.sync_result(5, 6);
    assert_eq!((synced.bytes_sent, synced.bytes_received), (5, 6));
    assert_eq!(synced.status, "Synced successfully");
    assert_eq!(synced.to_string(), "Sent: 5 bytes, Received: 6 bytes - Synced successfully");
}

#[test]
fn connection_info_as_text() {
    let info = ConnectionInfo { hostname: "box".to_string(), port: 7654, has_data: true };
    assert_eq!(info.to_string(), "Host: box:7654\nHas sync data: yes\n");
    let info = ConnectionInfo { hostname: "box".to_string(), port: 1, has_data: false };
    assert_eq!(info.to_string(), "Host: box:1\nHas sync data: no\n");
    let here = service().connection_info(true);
    assert_eq!(here.port, 7654);
    assert!(here.has_data);
    assert!(!here.hostname.is_empty());
    assert_eq!(host_or_local(None), "localhost");
    assert_eq!(host_or_local(Some("peer".to_string())), "peer");
    assert_eq!(service().sync_file(), "/data/memories.automerge");
    assert_eq!(service().incoming_file(), "/data/memories.automerge.incoming");
    let result = SyncResult { bytes_sent: 0, bytes_received: 0, status: String::new() };
    assert_eq!(result.to_string(), "Sent: 0 bytes, Received: 0 bytes - ");
}
