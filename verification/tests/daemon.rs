use sovereign::daemon::{
    command_line, local_addr, ws_chunks, ws_events, DaemonClient, DaemonRequest, DaemonResponse,
    DaemonStatus, Outcome, WsRequest, WsResponse, DEFAULT_PORT, DEFAULT_WS_PORT, WS_CHUNK_SIZE,
};

fn event(e: &WsResponse) -> (String, String, Option<String>) {
    (e.id.clone(), e.event.clone(), e.data.clone())
}

#[test]
fn the_input_of_a_request() {
    assert_eq!(command_line("/stats", &None), "/stats");
    assert_eq!(command_line("/search", &Some("foo bar".to_string())), "/search foo bar");
    assert_eq!(command_line("/search", &Some(String::new())), "/search ");
    let request = DaemonRequest { command: "/read".to_string(), args: Some("a.rs".to_string()) };
    assert_eq!(request.input(), "/read a.rs");
    let ws = WsRequest { id: "7".to_string(), command: "hello".to_string(), args: None };
    assert_eq!(ws.input(), "hello");
    let probe = DaemonRequest::probe();
    assert_eq!(probe.command, "/stats");
    assert_eq!(probe.args, None);
}

#[test]
fn the_response_for_each_outcome() {
    let done = DaemonResponse::from_outcome(Outcome::Done("Codebase Statistics:".to_string()));
    assert!(done.success);
    assert_eq!(done.result, Some("Codebase Statistics:".to_string()));
    assert_eq!(done.error, None);
    let failed = DaemonResponse::from_outcome(Outcome::Failed("no such file".to_string()));
    assert!(!failed.success);
    assert_eq!(failed.result, None);
    assert_eq!(failed.error, Some("no such file".to_string()));
    let terminated = DaemonResponse::from_outcome(Outcome::Terminated);
    assert!(!terminated.success);
    assert_eq!(terminated.error, Some("Orchestrator thread terminated".to_string()));
    let dropped = DaemonResponse::from_outcome(Outcome::Dropped);
    assert_eq!(dropped.error, Some("Response channel closed".to_string()));
    let invalid = DaemonResponse::invalid("expected value at line 1 column 1");
    assert!(!invalid.success);
    assert_eq!(invalid.result, None);
    assert_eq!(invalid.error, Some("Invalid request: expected value at line 1 column 1".to_string()));
}

#[test]
fn a_result_falls_into_pieces_of_a_hundred_bytes() {
    assert!(ws_chunks("").is_empty());
    assert_eq!(ws_chunks("short"), vec!["short"]);
    let exact = "x".repeat(WS_CHUNK_SIZE);
    assert_eq!(ws_chunks(&exact), vec![exact.clone()]);
    let long = "a".repeat(250);
    assert_eq!(ws_chunks(&long), vec!["a".repeat(100), "a".repeat(100), "a".repeat(50)]);
}

#[test]
fn a_piece_that_cuts_a_character_is_empty() {
    // 99 bytes, then a character of two bytes across the cut, then 9 more bytes.
    let text = format!("{}é{}", "a".repeat(99), "b".repeat(9));
    assert_eq!(text.len(), 110);
    assert_eq!(ws_chunks(&text), vec![String::new(), String::new()]);
    let aligned = format!("{}é{}", "a".repeat(98), "b".repeat(9));
    assert_eq!(ws_chunks(&aligned), vec![format!("{}é", "a".repeat(98)), "b".repeat(9)]);
}

#[test]
fn the_events_for_each_outcome() {
    let events = ws_events("42", Outcome::Done("d".repeat(150)));
    let seen: Vec<_> = events.iter().map(event).collect();
    assert_eq!(
        seen,
        vec![
            ("42".to_string(), "chunk".to_string(), Some("d".repeat(100))),
            ("42".to_string(), "chunk".to_string(), Some("d".repeat(50))),
            ("42".to_string(), "complete".to_string(), None),
        ]
    );
    let empty: Vec<_> = ws_events("1", Outcome::Done(String::new())).iter().map(event).collect();
    assert_eq!(empty, vec![("1".to_string(), "complete".to_string(), None)]);
    let failed: Vec<_> = ws_events("1", Outcome::Failed("bad".to_string())).iter().map(event).collect();
    assert_eq!(failed, vec![("1".to_string(), "error".to_string(), Some("bad".to_string()))]);
    let terminated: Vec<_> = ws_events("1", Outcome::Terminated).iter().map(event).collect();
    assert_eq!(
        terminated,
        vec![("1".to_string(), "error".to_string(), Some("Orchestrator thread terminated".to_string()))]
    );
    let dropped: Vec<_> = ws_events("1", Outcome::Dropped).iter().map(event).collect();
    assert_eq!(
        dropped,
        vec![("1".to_string(), "error".to_string(), Some("Response channel closed".to_string()))]
    );
    let invalid = WsResponse::invalid("EOF");
    assert_eq!(
        event(&invalid),
        ("unknown".to_string(), "error".to_string(), Some("Invalid request: EOF".to_string()))
    );
}

#[test]
fn where_the_daemon_is_found() {
    assert_eq!(DEFAULT_PORT, 7655);
    assert_eq!(DEFAULT_WS_PORT, 7656);
    assert_eq!(local_addr(7656), "127.0.0.1:7656");
    let tcp = DaemonClient::tcp(None);
    assert_eq!(tcp.tcp_addr, Some("127.0.0.1:7655".to_string()));
    assert_eq!(tcp.socket_path, None);
    assert_eq!(DaemonClient::tcp(Some(9)).tcp_addr, Some("127.0.0.1:9".to_string()));
    let unix = DaemonClient::unix("/data");
    assert_eq!(unix.tcp_addr, None);
    assert_eq!(
        unix.socket_path.map(std::path::PathBuf::from),
        Some(std::path::Path::new("/data").join("sovereign.sock"))
    );
    let status = DaemonStatus::running(true, "/data");
    assert!(status.running && status.watching);
    assert_eq!(status.data_dir, "/data");
}
