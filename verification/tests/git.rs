use sovereign::git::{generate_diff_summary, parse_hunk_range, FileChange, FileStatus, GitOps};

#[test]
fn test_parse_hunk_range() {
    assert_eq!(parse_hunk_range("10,5"), (10, 5));
    assert_eq!(parse_hunk_range("10"), (10, 1));
    assert_eq!(parse_hunk_range("0,0"), (0, 0));
}

#[test]
fn test_file_status() {
    assert_eq!(FileStatus::from_char('A'), FileStatus::Added);
    assert_eq!(FileStatus::from_char('M'), FileStatus::Modified);
    assert_eq!(FileStatus::from_char('D'), FileStatus::Deleted);
    assert_eq!(FileStatus::from_char('R'), FileStatus::Renamed);
    assert_eq!(FileStatus::from_char('X'), FileStatus::Unknown);
}

#[test]
fn test_generate_diff_summary() {
    let files = vec![
        FileChange {
            path: "file1.rs".to_string(),
            status: FileStatus::Added,
            additions: 10,
            deletions: 0,
            old_path: None,
        },
        FileChange {
            path: "file2.rs".to_string(),
            status: FileStatus::Modified,
            additions: 5,
            deletions: 3,
            old_path: None,
        },
    ];

    let summary = generate_diff_summary(&files, 15, 3);
    assert!(summary.contains("2 files changed"));
    assert!(summary.contains("1 added"));
    assert!(summary.contains("1 modified"));
}

#[test]
fn diff_summary_exact_text() {
    let files = vec![
        FileChange {
            path: "a".to_string(),
            status: FileStatus::Added,
            additions: 0,
            deletions: 0,
            old_path: None,
        },
        FileChange {
            path: "b".to_string(),
            status: FileStatus::Renamed,
            additions: 0,
            deletions: 0,
            old_path: None,
        },
        FileChange {
            path: "c".to_string(),
            status: FileStatus::Copied,
            additions: 0,
            deletions: 0,
            old_path: None,
        },
    ];
    assert_eq!(
        generate_diff_summary(&files, 120, 7),
        "3 files changed (1 added, 1 renamed) with 120 additions and 7 deletions"
    );
    assert_eq!(
        generate_diff_summary(&Vec::new(), 0, 0),
        "0 files changed () with 0 additions and 0 deletions"
    );
}

#[test]
fn hunk_range_fallbacks() {
    assert_eq!(parse_hunk_range(""), (0, 1));
    assert_eq!(parse_hunk_range("x,y"), (0, 1));
    assert_eq!(parse_hunk_range("+7,+2"), (7, 2));
    assert_eq!(parse_hunk_range("4294967295,4294967296"), (4294967295, 1));
    assert_eq!(parse_hunk_range("-3"), (0, 1));
    assert_eq!(parse_hunk_range("1,2,3"), (1, 1));
}

#[test]
fn file_status_words() {
    assert_eq!(FileStatus::Added.as_str(), "added");
    assert_eq!(FileStatus::Modified.as_str(), "modified");
    assert_eq!(FileStatus::Deleted.as_str(), "deleted");
    assert_eq!(FileStatus::Renamed.as_str(), "renamed");
    assert_eq!(FileStatus::Copied.as_str(), "copied");
    assert_eq!(FileStatus::Unknown.as_str(), "unknown");
    assert_eq!(FileStatus::from_char('C'), FileStatus::Copied);
}

const SAMPLE: &str = "diff --git a/src/lib.rs b/src/lib.rs\nindex 111..222 100644\n--- a/src/lib.rs\n+++ b/src/lib.rs\n@@ -1,3 +1,4 @@ fn main\n context\n+added one\n+added two\n-removed\ndiff --git a/new.txt b/new.txt\nnew file mode 100644\n--- /dev/null\n+++ b/new.txt\n@@ -0,0 +1 @@\n+hello\n";

#[test]
fn parse_diff_reads_files_and_hunks() {
    let ops = GitOps::new(".");
    let analysis = ops.parse_diff(SAMPLE);
    assert_eq!(analysis.files.len(), 2);
    assert_eq!(analysis.files[0].path, "src/lib.rs");
    assert_eq!(analysis.files[0].status, FileStatus::Modified);
    assert_eq!(analysis.files[0].additions, 2);
    assert_eq!(analysis.files[0].deletions, 1);
    assert_eq!(analysis.files[1].path, "new.txt");
    assert_eq!(analysis.files[1].status, FileStatus::Added);
    assert_eq!(analysis.files[1].additions, 1);
    assert_eq!(analysis.files[1].deletions, 0);
    assert_eq!(analysis.hunks.len(), 2);
    assert_eq!(analysis.hunks[0].file_path, "src/lib.rs");
    assert_eq!(analysis.hunks[0].old_start, 1);
    assert_eq!(analysis.hunks[0].old_count, 3);
    assert_eq!(analysis.hunks[0].new_start, 1);
    assert_eq!(analysis.hunks[0].new_count, 4);
    assert_eq!(analysis.hunks[0].content, " context\n+added one\n+added two\n-removed\n");
    assert_eq!(analysis.hunks[1].old_start, 0);
    assert_eq!(analysis.hunks[1].old_count, 0);
    assert_eq!(analysis.hunks[1].new_start, 1);
    assert_eq!(analysis.hunks[1].new_count, 1);
    assert_eq!(analysis.hunks[1].content, "+hello\n");
    assert_eq!(analysis.total_additions, 3);
    assert_eq!(analysis.total_deletions, 1);
    assert_eq!(
        analysis.summary,
        "2 files changed (1 added, 1 modified) with 3 additions and 1 deletions"
    );
}

#[test]
fn parse_diff_of_nothing() {
    let analysis = GitOps::new("/repo").parse_diff("");
    assert!(analysis.files.is_empty());
    assert!(analysis.hunks.is_empty());
    assert_eq!(analysis.total_additions, 0);
    assert_eq!(analysis.total_deletions, 0);
    assert_eq!(analysis.summary, "0 files changed () with 0 additions and 0 deletions");
}

#[test]
fn parse_diff_unreadable_header_opens_no_hunk() {
    let diff = "diff --git a/x b/x\n@@ broken\n+not counted\n@@ -2 +3 @@\n+counted\r\n";
    let analysis = GitOps::new(".").parse_diff(diff);
    assert_eq!(analysis.hunks.len(), 1);
    assert_eq!(analysis.hunks[0].old_start, 2);
    assert_eq!(analysis.hunks[0].old_count, 1);
    assert_eq!(analysis.hunks[0].new_start, 3);
    assert_eq!(analysis.hunks[0].content, "+counted\n");
    assert_eq!(analysis.total_additions, 1);
    assert!(analysis.files.is_empty());
}

#[test]
fn parse_diff_rename_and_delete() {
    let diff = "diff --git a/old.rs b/new.rs\nrename from old.rs\nrename to new.rs\ndiff --git a/gone b/gone\ndeleted file mode 100644\n";
    let analysis = GitOps::new(".").parse_diff(diff);
    assert_eq!(analysis.files.len(), 2);
    assert_eq!(analysis.files[0].path, "new.rs");
    assert_eq!(analysis.files[0].status, FileStatus::Renamed);
    assert_eq!(analysis.files[1].path, "gone");
    assert_eq!(analysis.files[1].status, FileStatus::Deleted);
    assert_eq!(
        analysis.summary,
        "2 files changed (1 deleted, 1 renamed) with 0 additions and 0 deletions"
    );
}

#[test]
fn parse_numstat_output_reads_listing() {
    let ops = GitOps::new(".");
    let files = ops.parse_numstat_output("M\tsrc/a.rs\nR100\told.rs\tnew.rs\n\n12\t3\tsrc/b.rs\nA only\nlonger-word x\n");
    assert_eq!(files.len(), 4);
    assert_eq!(files[0].path, "src/a.rs");
    assert_eq!(files[0].status, FileStatus::Modified);
    assert_eq!(files[0].old_path, None);
    assert_eq!(files[1].path, "new.rs");
    assert_eq!(files[1].status, FileStatus::Renamed);
    assert_eq!(files[1].old_path, Some("old.rs".to_string()));
    assert_eq!(files[2].path, "3");
    assert_eq!(files[2].status, FileStatus::Unknown);
    assert_eq!(files[3].path, "only");
    assert_eq!(files[3].status, FileStatus::Added);
}
