use sovereign::agents::git_agent::{
    classify_change, count_additions, count_deletions, detect_breaking_changes,
    detect_change_type, detect_complexity, extract_affected_areas, extract_json_field,
    holds_any_mark, regex_lite, truncate_diff,
};
use sovereign::agents::{ChangeComplexity, ChangeType, GitAgent};
use sovereign::git::{DiffAnalysis, FileChange, FileStatus};

fn file(path: &str, status: FileStatus, additions: u32, deletions: u32) -> FileChange {
    FileChange { path: path.to_string(), status, additions, deletions, old_path: None }
}

fn analysis(files: usize, additions: u32, deletions: u32) -> DiffAnalysis {
    let mut list = Vec::new();
    for i in 0..files {
        list.push(file(&format!("f{}.rs", i), FileStatus::Modified, 0, 0));
    }
    DiffAnalysis {
        files: list,
        hunks: vec![],
        total_additions: additions,
        total_deletions: deletions,
        summary: String::new(),
    }
}

#[test]
fn test_truncate_diff() {
    let diff = "a".repeat(100);
    let truncated = truncate_diff(&diff, 50);
    assert!(truncated.len() < diff.len());
    assert!(truncated.contains("truncated"));
}

#[test]
fn test_count_additions_deletions() {
    let diff = r#"
+added line
+another added
-removed line
 unchanged
+++not a real addition
---not a real deletion
"#;
    assert_eq!(count_additions(diff), 2);
    assert_eq!(count_deletions(diff), 1);
}

#[test]
fn test_detect_complexity() {
    let trivial = DiffAnalysis {
        files: vec![],
        hunks: vec![],
        total_additions: 0,
        total_deletions: 0,
        summary: String::new(),
    };
    assert_eq!(detect_complexity(&trivial), ChangeComplexity::Trivial);
}

#[test]
fn truncate_diff_exact_text() {
    assert_eq!(truncate_diff("short", 10), "short");
    assert_eq!(truncate_diff("exactly10!", 10), "exactly10!");
    assert_eq!(
        truncate_diff("0123456789abc", 10),
        "0123456789\n\n... (truncated, 3 more characters)"
    );
    // Three bytes for each of these characters: the cut falls between them.
    assert_eq!(truncate_diff("日本語", 6), "日本\n\n... (truncated, 3 more characters)");
}

#[test]
fn complexity_of_each_size() {
    assert_eq!(detect_complexity(&analysis(1, 10, 0)), ChangeComplexity::Trivial);
    assert_eq!(detect_complexity(&analysis(1, 6, 5)), ChangeComplexity::Simple);
    assert_eq!(detect_complexity(&analysis(1, 50, 0)), ChangeComplexity::Simple);
    assert_eq!(detect_complexity(&analysis(1, 51, 0)), ChangeComplexity::Moderate);
    assert_eq!(detect_complexity(&analysis(2, 100, 0)), ChangeComplexity::Moderate);
    assert_eq!(detect_complexity(&analysis(5, 100, 1)), ChangeComplexity::Complex);
    assert_eq!(detect_complexity(&analysis(6, 0, 0)), ChangeComplexity::Complex);
    assert_eq!(detect_complexity(&analysis(15, 0, 0)), ChangeComplexity::Complex);
    assert_eq!(detect_complexity(&analysis(16, 0, 0)), ChangeComplexity::Major);
    assert_eq!(
        detect_complexity(&analysis(1, 4_294_967_295, 4_294_967_295)),
        ChangeComplexity::Moderate
    );
}

#[test]
fn change_type_by_first_rule_that_holds() {
    let docs = vec![file("README.md", FileStatus::Modified, 1, 0), file("docs/a.png", FileStatus::Added, 0, 0)];
    assert_eq!(detect_change_type(&docs, "fix bug"), ChangeType::Documentation);
    assert_eq!(detect_change_type(&Vec::new(), "anything"), ChangeType::Documentation);
    let tests = vec![file("src/parser_test.rs", FileStatus::Modified, 3, 0)];
    assert_eq!(detect_change_type(&tests, "fix"), ChangeType::Test);
    let code = vec![file("src/lib.rs", FileStatus::Modified, 3, 1)];
    assert_eq!(detect_change_type(&code, "Formatting only"), ChangeType::Style);
    assert_eq!(detect_change_type(&vec![file("src/lib.rs", FileStatus::Modified, 2, 2)], "x"), ChangeType::Style);
    assert_eq!(detect_change_type(&code, "handle ERROR case"), ChangeType::BugFix);
    assert_eq!(detect_change_type(&code, "implement parser"), ChangeType::Feature);
    assert_eq!(
        detect_change_type(&vec![file("src/new.rs", FileStatus::Added, 9, 0)], "xyz"),
        ChangeType::Feature
    );
    assert_eq!(detect_change_type(&code, "rename the thing"), ChangeType::Refactor);
    assert_eq!(detect_change_type(&code, "use a cache"), ChangeType::Performance);
    assert_eq!(detect_change_type(&code, "bump"), ChangeType::Chore);
}

#[test]
fn change_words() {
    assert_eq!(ChangeType::Feature.as_str(), "feat");
    assert_eq!(ChangeType::BugFix.as_str(), "fix");
    assert_eq!(ChangeType::Refactor.as_str(), "refactor");
    assert_eq!(ChangeType::Documentation.as_str(), "docs");
    assert_eq!(ChangeType::Test.as_str(), "test");
    assert_eq!(ChangeType::Style.as_str(), "style");
    assert_eq!(ChangeType::Performance.as_str(), "perf");
    assert_eq!(ChangeType::Chore.as_str(), "chore");
    assert_eq!(ChangeType::Mixed.as_str(), "chore");
    assert_eq!(ChangeComplexity::Trivial.as_str(), "trivial");
    assert_eq!(ChangeComplexity::Simple.as_str(), "simple");
    assert_eq!(ChangeComplexity::Moderate.as_str(), "moderate");
    assert_eq!(ChangeComplexity::Complex.as_str(), "complex");
    assert_eq!(ChangeComplexity::Major.as_str(), "major");
}

#[test]
fn affected_areas_each_once_in_order() {
    let files = vec![
        file("src/a.rs", FileStatus::Modified, 0, 0),
        file("Cargo.toml", FileStatus::Modified, 0, 0),
        file("src/b/c.rs", FileStatus::Modified, 0, 0),
        file("docs/x.md", FileStatus::Modified, 0, 0),
        file("build.tar.gz", FileStatus::Modified, 0, 0),
        file("Makefile", FileStatus::Modified, 0, 0),
        file("other.toml", FileStatus::Modified, 0, 0),
    ];
    assert_eq!(
        extract_affected_areas(&files),
        vec!["src", "toml", "docs", "gz", "Makefile"]
    );
    assert!(extract_affected_areas(&Vec::new()).is_empty());
}

#[test]
fn breaking_marks() {
    assert!(detect_breaking_changes("This is a Breaking Change"));
    assert!(detect_breaking_changes("+pub struct Foo;"));
    assert!(detect_breaking_changes("field REMOVED"));
    assert!(detect_breaking_changes("now deprecated"));
    assert!(detect_breaking_changes("incompatible"));
    assert!(detect_breaking_changes("pub fn.*->"));
    assert!(!detect_breaking_changes("pub fn f() -> u8"));
    assert!(!detect_breaking_changes(""));
}

#[test]
fn json_fields() {
    let json = r#"{"change_type": "feat", "breaking_potential": true, "summary": "Adds a parser"}"#;
    assert_eq!(extract_json_field(json, "change_type"), Some("feat".to_string()));
    assert_eq!(extract_json_field(json, "breaking_potential"), Some("true".to_string()));
    assert_eq!(extract_json_field(json, "summary"), Some("Adds a parser".to_string()));
    assert_eq!(extract_json_field(json, "missing"), None);
    assert_eq!(extract_json_field(r#"{"n": 12}"#, "n"), Some("12".to_string()));
    assert_eq!(extract_json_field(r#"{"n": 12"#, "n"), None);
    assert_eq!(extract_json_field(r#"{"s": "open"#, "s"), None);
}

#[test]
fn captures_one_group() {
    let re = regex_lite("\"k\":\\s*\"?([^\",\\}]+)\"?").unwrap();
    let caught = re.captures("{\"k\":   \"v w\"}").unwrap();
    assert!(caught.get(0).is_none());
    assert!(caught.get(2).is_none());
    assert_eq!(caught.get(1).unwrap().as_str(), "v w");
    assert!(regex_lite("no quote").unwrap().captures("{\"k\": 1}").is_none());
}

#[test]
fn local_analysis_of_a_diff() {
    let diff = "diff --git a/src/lib.rs b/src/lib.rs\n--- a/src/lib.rs\n+++ b/src/lib.rs\n@@ -1 +1,2 @@\n x\n+pub struct New;\ndiff --git a/notes.txt b/notes.txt\nnew file mode 100644\n";
    let insights = GitAgent::new().analyze_diff_locally(diff);
    assert_eq!(insights.change_type, ChangeType::Feature);
    assert_eq!(insights.complexity, ChangeComplexity::Moderate);
    assert_eq!(insights.affected_areas, vec!["src", "txt"]);
    assert!(insights.breaking_potential);
    assert!(insights.suggested_reviewers.is_empty());
    assert_eq!(
        insights.summary,
        "2 files changed (1 added, 1 modified) with 1 additions and 0 deletions"
    );
}

#[test]
fn kinds_and_marks_on_lowercase_text() {
    let code = vec![file("src/lib.rs", FileStatus::Modified, 3, 1)];
    assert_eq!(classify_change(&code, "fix the parser"), ChangeType::BugFix);
    assert_eq!(classify_change(&code, "FIX THE PARSER"), ChangeType::Chore);
    assert_eq!(classify_change(&code, "speed"), ChangeType::Performance);
    let marks = vec!["removed".to_string(), "pub struct".to_string()];
    assert!(holds_any_mark("-pub struct old;", &marks));
    assert!(!holds_any_mark("-PUB STRUCT old;", &marks));
    assert!(!holds_any_mark("anything", &Vec::new()));
}
