use sovereign::rag::{
    build_context, count_keywords, detect_language, find_hits, is_declared_in, is_in_definition,
    keyword_counts, lower_all, merge_keys, query_terms, term_hits, CodeChunk, KeywordCounts,
    MatchType, RagConfig, RagRetriever,
};
use sovereign::split::lines_exec;
use sovereign::text::chars_of;

fn chunk(path: &str, start: usize, content: &str) -> CodeChunk {
    CodeChunk {
        file_path: path.to_string(),
        content: content.to_string(),
        start_line: start,
        end_line: start + content.lines().count().max(1) - 1,
        language: "rust".to_string(),
    }
}

#[test]
fn test_chunk_content() {
    let retriever = RagRetriever::with_defaults();
    let content = "fn main() {\n    println!(\"Hello\");\n}\n\nfn other() {\n    // code\n}";
    let chunks = retriever.chunk_content(content, "test.rs", "rust");

    assert!(!chunks.is_empty());
}

#[test]
fn test_detect_language() {
    assert_eq!(detect_language("src/main.rs"), "rust");
    assert_eq!(detect_language("app.py"), "python");
    assert_eq!(detect_language("index.ts"), "typescript");
}

#[test]
fn languages_for_retrieval() {
    assert_eq!(detect_language("a.jsx"), "react");
    assert_eq!(detect_language("a.tsx"), "react");
    assert_eq!(detect_language("a.hpp"), "cpp");
    assert_eq!(detect_language("a.h"), "c");
    assert_eq!(detect_language("a.cs"), "csharp");
    assert_eq!(detect_language("a.RS"), "unknown");
    assert_eq!(detect_language("Makefile"), "unknown");
    assert_eq!(detect_language("archive.tar.go"), "go");
    assert_eq!(detect_language(""), "unknown");
}

#[test]
fn default_settings() {
    let config = RagConfig::default();
    assert_eq!(config.top_k, 10);
    assert_eq!(config.chunk_size, 1000);
    assert_eq!(config.chunk_overlap, 200);
    assert!(config.enable_rerank);
    assert_eq!(RagRetriever::with_defaults().config.chunk_size, 1000);
    assert_ne!(MatchType::Hybrid, MatchType::Keyword);
}

#[test]
fn chunks_between_declarations() {
    let retriever = RagRetriever::with_defaults();
    let content = "fn main() {\n    println!(\"Hello\");\n}\n\nfn other() {\n    // code\n}";
    let chunks = retriever.chunk_content(content, "test.rs", "rust");
    assert_eq!(chunks.len(), 2);
    assert_eq!(chunks[0].content, "fn main() {\n    println!(\"Hello\");\n}\n");
    assert_eq!((chunks[0].start_line, chunks[0].end_line), (1, 4));
    assert_eq!(chunks[1].content, "fn other() {\n    // code\n}");
    assert_eq!((chunks[1].start_line, chunks[1].end_line), (5, 7));
    assert_eq!(chunks[0].file_path, "test.rs");
    assert_eq!(chunks[1].language, "rust");
}

#[test]
fn chunks_leave_out_blank_segments() {
    let retriever = RagRetriever::with_defaults();
    let chunks = retriever.chunk_content("\n\n  def a():\n    pass\nclass B:\n", "m.py", "python");
    assert_eq!(chunks.len(), 2);
    assert_eq!((chunks[0].start_line, chunks[0].end_line), (3, 4));
    assert_eq!(chunks[0].content, "  def a():\n    pass");
    assert_eq!((chunks[1].start_line, chunks[1].end_line), (5, 5));
    assert!(retriever.chunk_content("", "m.py", "python").is_empty());
    assert!(retriever.chunk_content("   \n\t\n", "m.py", "python").is_empty());
}

#[test]
fn chunks_in_windows_where_nothing_is_declared() {
    let config = RagConfig { top_k: 10, chunk_size: 4, chunk_overlap: 1, enable_rerank: true };
    let retriever = RagRetriever::new(config);
    let content = "l1\nl2\nl3\nl4\nl5\nl6\nl7\nl8\nl9";
    let chunks = retriever.chunk_content(content, "notes.txt", "text");
    let ranges: Vec<(usize, usize)> = chunks.iter().map(|c| (c.start_line, c.end_line)).collect();
    assert_eq!(ranges, vec![(1, 4), (4, 7), (7, 9)]);
    assert_eq!(chunks[1].content, "l4\nl5\nl6\nl7");
    let whole = RagRetriever::with_defaults().chunk_content(content, "notes.txt", "text");
    assert_eq!(whole.len(), 1);
    assert_eq!((whole[0].start_line, whole[0].end_line), (1, 9));
}

#[test]
fn keyword_counts_without_regard_to_case() {
    let content = "fn calculate_total(items: Vec<Item>) -> f32";
    let counts = keyword_counts(content, &vec!["calculate".to_string(), "total".to_string()]);
    assert_eq!(counts, KeywordCounts { terms: 2, matches: 2, total_occurrences: 2 });
    let counts = keyword_counts("Foo foo FOO bar", &vec!["foo".to_string(), "baz".to_string(), "BAR".to_string()]);
    assert_eq!(counts, KeywordCounts { terms: 3, matches: 2, total_occurrences: 4 });
    let none = keyword_counts("anything", &Vec::new());
    assert_eq!(none, KeywordCounts { terms: 0, matches: 0, total_occurrences: 0 });
    assert_eq!(keyword_counts("pub fn foo(){}", &query_terms("foo")).matches, 1);
    assert_eq!(keyword_counts("def bar():\n    pass", &query_terms("foo")).matches, 0);
}

#[test]
fn terms_of_a_query() {
    assert_eq!(query_terms("  find   the parser\n"), vec!["find", "the", "parser"]);
    assert!(query_terms(" \t ").is_empty());
}

#[test]
fn terms_in_declarations() {
    assert!(is_in_definition("pub fn Parse_Line(x: u8)", "parse_line"));
    assert!(is_in_definition("class Widget:", "widget"));
    assert!(is_in_definition("let total = 1;", "total"));
    assert!(!is_in_definition("call parse_line()", "parse_line"));
    assert!(!is_in_definition("fn parse", "Parse"));
    assert_eq!(
        term_hits("Parse missing LINE", "fn parse(line: &str)"),
        vec![(true, true), (false, false), (true, false)]
    );
    assert!(term_hits("", "fn parse").is_empty());
}

#[test]
fn merge_by_file_and_line() {
    let semantic = vec![chunk("a.rs", 1, "x"), chunk("b.rs", 1, "y"), chunk("a.rs", 1, "x again")];
    let keyword = vec![chunk("c.rs", 1, "z"), chunk("a.rs", 1, "x"), chunk("c.rs", 1, "z2"), chunk("a.rs", 9, "tail")];
    let slots = merge_keys(&semantic, &keyword);
    let seen: Vec<(String, usize, Option<usize>, Option<usize>, Option<usize>)> = slots
        .iter()
        .map(|s| (s.file_path.clone(), s.start_line, s.semantic, s.keyword, s.first_keyword))
        .collect();
    assert_eq!(
        seen,
        vec![
            ("a.rs".to_string(), 1, Some(2), Some(1), Some(1)),
            ("b.rs".to_string(), 1, Some(1), None, None),
            ("c.rs".to_string(), 1, None, Some(2), Some(0)),
            ("a.rs".to_string(), 9, None, Some(3), Some(3)),
        ]
    );
    assert!(merge_keys(&Vec::new(), &Vec::new()).is_empty());
}

#[test]
fn context_within_a_budget() {
    let chunks = vec![
        chunk("a.rs", 1, "one two three"),
        chunk("b.rs", 5, "four five six seven eight nine"),
        chunk("c.rs", 2, "ten"),
    ];
    let first = "\n--- a.rs (lines 1-1) ---\none two three\n";
    let second = "\n--- b.rs (lines 5-5) ---\nfour five six seven eight nine\n";
    let third = "\n--- c.rs (lines 2-2) ---\nten\n";
    assert_eq!(build_context(&chunks, 100), format!("{}{}{}", first, second, third));
    assert_eq!(build_context(&chunks, 13), format!("{}{}{}", first, second, third));
    assert_eq!(build_context(&chunks, 12), format!("{}{}", first, second));
    assert_eq!(build_context(&chunks, 11), first);
    assert_eq!(build_context(&chunks, 4), first);
    assert_eq!(build_context(&chunks, 3), "");
    assert_eq!(build_context(&Vec::new(), 10), "");
}

#[test]
fn boundaries_at_start_declarations_and_end() {
    let lines = lines_exec(&chars_of("use x;\nfn a() {}\n\n  struct B;\nlet fn_c = 1;"));
    assert_eq!(sovereign::rag::find_code_boundaries(&lines, "rust"), vec![0, 1, 3, 5]);
    assert_eq!(sovereign::rag::find_code_boundaries(&lines, "python"), vec![0, 5]);
    assert_eq!(sovereign::rag::find_code_boundaries(&Vec::new(), "rust"), vec![0, 0]);
}

#[test]
fn counts_and_hits_on_texts_as_they_are() {
    let terms = vec!["foo".to_string(), "Foo".to_string(), "zip".to_string()];
    assert_eq!(
        count_keywords("fn foo() { foo(); Foo }", &terms),
        KeywordCounts { terms: 3, matches: 2, total_occurrences: 3 }
    );
    assert_eq!(lower_all(&terms), vec!["foo", "foo", "zip"]);
    assert_eq!(
        find_hits(&terms, "fn foo() { Foo }"),
        vec![(true, true), (true, false), (false, false)]
    );
    assert!(is_declared_in("struct point {}", "point"));
    assert!(!is_declared_in("struct Point {}", "point"));
    assert!(is_declared_in("var x", ""));
}
