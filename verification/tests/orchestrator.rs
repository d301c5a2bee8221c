use sovereign::agents::orchestrator::{
    clear_reply, embed_reply, file_not_found_reply, help, index_reply, live_reply, memory_reply,
    process_command, project_context, pull_reply, push_reply, read_reply, search_reply,
    stats_reply, symbol_reply, symbols_holding, sync_export_reply, sync_failed_reply,
    sync_import_reply, sync_status_reply, Action, MemoryLine, SearchHit,
};
use sovereign::agents::chat::{detect_preference, find_preference, preference_keywords};
use sovereign::storage::codebase::CodebaseStats;
use sovereign::storage::memory::MemoryType;
use sovereign::sync::{ConnectionInfo, SyncResult};

fn text(s: &str) -> String {
    s.to_string()
}

fn hit(path: &str, language: &str, symbols: &[&str]) -> SearchHit {
    SearchHit {
        path: text(path),
        language: text(language),
        symbols: symbols.iter().map(|s| s.to_string()).collect(),
    }
}

const HINT: &str = "No codebase indexed. Use /index <path> first.";

#[test]
fn commands_that_need_an_index() {
    assert_eq!(process_command(true, "/search foo bar"), Action::Search(text("foo bar")));
    assert_eq!(process_command(true, "/s   foo  "), Action::Search(text("foo")));
    assert_eq!(process_command(true, "/search"), Action::Search(text("")));
    assert_eq!(process_command(false, "/search foo"), Action::Reply(text(HINT)));
    assert_eq!(process_command(true, "/symbol Parser"), Action::FindSymbol(text("Parser")));
    assert_eq!(process_command(false, "/sym Parser"), Action::Reply(text(HINT)));
    assert_eq!(process_command(true, "/ask why?"), Action::Ask(text("why?")));
    assert_eq!(process_command(false, "/q why?"), Action::Reply(text(HINT)));
    assert_eq!(process_command(true, "/read src/a.rs"), Action::ReadFile(text("src/a.rs")));
    assert_eq!(process_command(false, "/cat a"), Action::Reply(text("No codebase indexed.")));
    assert_eq!(process_command(true, "/sum a.rs"), Action::Summarize(text("a.rs")));
    assert_eq!(process_command(false, "/summarize a"), Action::Reply(text("No codebase indexed.")));
    assert_eq!(process_command(true, "/embed"), Action::Embed);
    assert_eq!(process_command(false, "/embed"), Action::Reply(text(HINT)));
}

#[test]
fn commands_that_need_none() {
    for indexed in [true, false] {
        assert_eq!(process_command(indexed, "/stats"), Action::Stats);
        assert_eq!(process_command(indexed, "  /memory  "), Action::Memories);
        assert_eq!(process_command(indexed, "/mem"), Action::Memories);
        assert_eq!(process_command(indexed, "/explain let x = 1;"), Action::Explain(text("let x = 1;")));
        assert_eq!(process_command(indexed, "/e x"), Action::Explain(text("x")));
        assert_eq!(process_command(indexed, "/g a parser"), Action::Generate(text("a parser")));
        assert_eq!(process_command(indexed, "/gen p"), Action::Generate(text("p")));
        assert_eq!(process_command(indexed, "/generate p"), Action::Generate(text("p")));
        assert_eq!(process_command(indexed, "/review c"), Action::Review(text("c")));
        assert_eq!(process_command(indexed, "/r c"), Action::Review(text("c")));
        assert_eq!(process_command(indexed, "/test c"), Action::WriteTests(text("c")));
        assert_eq!(process_command(indexed, "/t c"), Action::WriteTests(text("c")));
        assert_eq!(process_command(indexed, "/clear"), Action::Clear);
        assert_eq!(process_command(indexed, "/help"), Action::Reply(text(help())));
        assert_eq!(process_command(indexed, "/h"), Action::Reply(text(help())));
        assert_eq!(process_command(indexed, "/index /p/project"), Action::Index(text("/p/project")));
        assert_eq!(process_command(indexed, "/index"), Action::Reply(text("Usage: /index <path>")));
    }
    assert!(help().contains("/sync-live <host:port>"));
}

#[test]
fn commands_with_code_in_fences() {
    assert_eq!(
        process_command(false, "/fix off by one ```for i in 0..=n {}```"),
        Action::FixBug(text("for i in 0..=n {}"), text("off by one"))
    );
    assert_eq!(
        process_command(false, "/fix ``````\n a \n```"),
        Action::FixBug(text("a"), text(""))
    );
    assert_eq!(
        process_command(false, "/fix no code here"),
        Action::Reply(text("Usage: /fix <bug description> ```code```"))
    );
    assert_eq!(
        process_command(false, "/refactor split it ```fn big() {}``` "),
        Action::Refactor(text("fn big() {}"), text("split it"))
    );
    assert_eq!(
        process_command(false, "/ref x ```a``` and ```b"),
        Action::Refactor(text("a``` and ```b"), text("x"))
    );
    assert_eq!(
        process_command(false, "/refactor"),
        Action::Reply(text("Usage: /refactor <instructions> ```code```"))
    );
}

#[test]
fn sync_commands() {
    assert_eq!(process_command(false, "/sync-export"), Action::SyncExport);
    assert_eq!(process_command(false, "/sync-status"), Action::SyncStatus);
    assert_eq!(process_command(false, "/sync-import /tmp/x.automerge"), Action::SyncImport(text("/tmp/x.automerge")));
    assert_eq!(
        process_command(false, "/sync-import"),
        Action::Reply(text("Usage: /sync-import <path-to-automerge-file>"))
    );
    assert_eq!(process_command(false, "/sync-pull host:7654"), Action::SyncPull(text("host:7654")));
    assert_eq!(process_command(false, "/sync-pull  "), Action::Reply(text("Usage: /sync-pull <host:port>")));
    assert_eq!(process_command(false, "/sync-push host:1"), Action::SyncPush(text("host:1")));
    assert_eq!(process_command(false, "/sync-push"), Action::Reply(text("Usage: /sync-push <host:port>")));
    assert_eq!(process_command(false, "/sync-live host:1"), Action::SyncLive(text("host:1")));
    assert_eq!(process_command(false, "/sync-live"), Action::Reply(text("Usage: /sync-live <host:port>")));
}

#[test]
fn everything_else() {
    assert_eq!(
        process_command(true, "/nope now"),
        Action::Reply(text("Unknown command: /nope. Type /help for available commands."))
    );
    assert_eq!(
        process_command(true, "/"),
        Action::Reply(text("Unknown command: /. Type /help for available commands."))
    );
    assert_eq!(
        process_command(true, "/stats\tnow"),
        Action::Reply(text("Unknown command: /stats\tnow. Type /help for available commands."))
    );
    assert_eq!(process_command(true, "  how does /search work?  "), Action::Chat(text("how does /search work?")));
    assert_eq!(process_command(true, ""), Action::Chat(text("")));
    assert_eq!(process_command(true, "hello"), Action::Chat(text("hello")));
}

#[test]
fn replies_to_searches() {
    assert_eq!(search_reply(&Vec::new()), "No results found.");
    assert_eq!(
        search_reply(&vec![hit("src/a.rs", "rust", &[]), hit("b.py", "python", &["def:bar"])]),
        "  src/a.rs (rust)\n  b.py (python)"
    );
    assert_eq!(symbol_reply(&Vec::new()), "No symbols found.");
    assert_eq!(
        symbol_reply(&vec![hit("a.rs", "rust", &["fn:foo", "fn:foo2"]), hit("b.rs", "rust", &[])]),
        "  a.rs: fn:foo, fn:foo2\n  b.rs: "
    );
    assert_eq!(read_reply("a.rs", Some(text("content"))), "content");
    assert_eq!(read_reply("a.rs", None), "File not found: a.rs");
    assert_eq!(file_not_found_reply("x"), "File not found: x");
    assert_eq!(embed_reply(12), "Created embeddings for 12 files.");
    assert_eq!(index_reply(0), "Indexed 0 files.");
    assert_eq!(clear_reply(), "Conversation cleared.");
}

#[test]
fn replies_with_statistics() {
    assert_eq!(stats_reply(&None), "No codebase indexed.");
    let stats = CodebaseStats {
        total_files: 2,
        total_lines: 3,
        languages: vec![(text("rust"), 1), (text("python"), 1)],
        last_indexed: Some(text("2024-05-01 10:00:00 UTC")),
    };
    assert_eq!(
        stats_reply(&Some(stats.clone())),
        "Codebase Statistics:\n  Files: 2\n  Lines: 3\n  Languages:\n    rust: 1 files\n    python: 1 files\n  Last indexed: 2024-05-01 10:00:00 UTC"
    );
    assert_eq!(
        project_context(&stats),
        "Project: 2 files, 3 lines of code. Languages: rust (1), python (1)"
    );
    let bare = CodebaseStats { total_files: 0, total_lines: 0, languages: vec![], last_indexed: None };
    assert_eq!(stats_reply(&Some(bare.clone())), "Codebase Statistics:\n  Files: 0\n  Lines: 0\n  Languages:\n");
    assert_eq!(project_context(&bare), "Project: 0 files, 0 lines of code. Languages: ");
    let many = CodebaseStats {
        total_files: 21,
        total_lines: 999,
        languages: (1..=7).map(|i| (format!("l{}", i), 8 - i)).collect(),
        last_indexed: None,
    };
    assert_eq!(
        project_context(&many),
        "Project: 21 files, 999 lines of code. Languages: l1 (7), l2 (6), l3 (5), l4 (4), l5 (3)"
    );
}

#[test]
fn replies_with_memories() {
    assert_eq!(memory_reply(&Vec::new()), "No memories stored yet.");
    let long = "é".repeat(90);
    let lines = vec![
        MemoryLine { kind: MemoryType::Preference, content: text("always use tabs") },
        MemoryLine { kind: MemoryType::CodePattern, content: long.clone() },
    ];
    assert_eq!(
        memory_reply(&lines),
        format!("  [preference] always use tabs\n  [code_pattern] {}", "é".repeat(80))
    );
}

#[test]
fn replies_about_sync() {
    let result = SyncResult { bytes_sent: 4, bytes_received: 120, status: text("Pulled successfully") };
    assert_eq!(sync_export_reply("/d/sync_export.automerge"), "Exported CRDT memories to: /d/sync_export.automerge");
    assert_eq!(sync_import_reply(3), "Merged successfully. Total memories: 3");
    assert_eq!(
        pull_reply(&result, true),
        "Sent: 4 bytes, Received: 120 bytes - Pulled successfully\nMerged into local CRDT."
    );
    assert_eq!(pull_reply(&result, false), "Received empty data from peer.");
    assert_eq!(push_reply(&result), "Sent: 4 bytes, Received: 120 bytes - Pulled successfully");
    assert_eq!(
        live_reply(&result, true),
        "Sent: 4 bytes, Received: 120 bytes - Pulled successfully\nBidirectional sync complete."
    );
    assert_eq!(
        live_reply(&result, false),
        "Sent: 4 bytes, Received: 120 bytes - Pulled successfully\nNo remote data to merge."
    );
    assert_eq!(sync_failed_reply("Pull", "connection refused"), "Pull failed: connection refused");
    assert_eq!(sync_failed_reply("Sync", ""), "Sync failed: ");
    let info = ConnectionInfo { hostname: text("box"), port: 7654, has_data: false };
    assert_eq!(
        sync_status_reply(2, 1, "/d", &info),
        "CRDT Memory Status:\n  Memories: 2\n  Document heads: 1\n  Data dir: /d\n\nP2P Sync:\n  Host: box:7654\nHas sync data: no\n"
    );
}

#[test]
fn symbols_that_hold_a_name() {
    let symbols: Vec<String> = ["fn:parse", "struct:Parser", "fn:run", "impl:Parser"].iter().map(|s| s.to_string()).collect();
    assert_eq!(symbols_holding(&symbols, "Parse"), vec!["struct:Parser", "impl:Parser"]);
    assert_eq!(symbols_holding(&symbols, "fn:"), vec!["fn:parse", "fn:run"]);
    assert_eq!(symbols_holding(&symbols, ""), symbols);
    assert!(symbols_holding(&symbols, "zzz").is_empty());
}

#[test]
fn preferences_in_messages() {
    assert_eq!(
        preference_keywords(),
        vec!["prefer", "always use", "i like", "don't like", "never use", "my style"]
    );
    assert_eq!(detect_preference("I PREFER tabs"), Some(0));
    assert_eq!(detect_preference("Always use spaces, never use tabs"), Some(1));
    assert_eq!(detect_preference("I like it, that is my style"), Some(2));
    assert_eq!(detect_preference("I don't like macros"), Some(3));
    assert_eq!(detect_preference("never use unwrap"), Some(4));
    assert_eq!(detect_preference("this is My Style"), Some(5));
    assert_eq!(detect_preference("what time is it?"), None);
    assert_eq!(find_preference("I PREFER tabs"), None);
    assert_eq!(find_preference("i prefer tabs"), Some(0));
}
