//! What a diff says about a change: its kind, its size, the areas it touches.

use crate::git::{
    added_lines, analysis_of, deleted_lines, file_views, DiffAnalysis, FileChange, FileStatus,
    FileView, GitOps,
};
use crate::number::{decimal, push_decimal};
use crate::seqs::distinct;
use crate::split::{
    lemma_run_end, lemma_texts_push, lines, lines_exec, run_end, split, split_exec, texts,
    trim_start,
};
use crate::text::{
    chars_of, contains, contains_exec, contains_str, ends_with, ends_with_str, find_from,
    find_from_exec, is_white_space, lemma_find_from, lowercase, push_all, push_str, same_text,
    slice_of,
    starts_with, starts_with_exec, string_of, string_views, strip_leading, strip_leading_exec,
    strip_prefix, strip_prefix_exec, strip_trailing, strip_trailing_exec, unicode_whitespace,
};
use vstd::prelude::*;
use vstd::utf8::{decode_utf8, encode_utf8, is_char_boundary};

verus! {

/// What a diff tells about a change.
#[derive(Debug, Clone)]
pub struct DiffInsights {
    pub change_type: ChangeType,
    pub affected_areas: Vec<String>,
    pub complexity: ChangeComplexity,
    pub breaking_potential: bool,
    pub suggested_reviewers: Vec<String>,
    pub summary: String,
}

/// The kind of a change.
#[derive(Debug, Clone, Copy, PartialEq, Eq, Structural)]
pub enum ChangeType {
    Feature,
    BugFix,
    Refactor,
    Documentation,
    Test,
    Style,
    Performance,
    Chore,
    Mixed,
}

/// The size of a change.
#[derive(Debug, Clone, Copy, PartialEq, Eq, Structural)]
pub enum ChangeComplexity {
    Trivial,
    Simple,
    Moderate,
    Complex,
    Major,
}

impl ChangeType {
    /// The conventional-commit word for a kind of change.
    pub open spec fn word(self) -> Seq<char> {
        match self {
            ChangeType::Feature => "feat"@,
            ChangeType::BugFix => "fix"@,
            ChangeType::Refactor => "refactor"@,
            ChangeType::Documentation => "docs"@,
            ChangeType::Test => "test"@,
            ChangeType::Style => "style"@,
            ChangeType::Performance => "perf"@,
            ChangeType::Chore => "chore"@,
            ChangeType::Mixed => "chore"@,
        }
    }

    pub fn as_str(&self) -> (r: &str)
        ensures
            r@ == self.word(),
    {
        match self {
            ChangeType::Feature => "feat",
            ChangeType::BugFix => "fix",
            ChangeType::Refactor => "refactor",
            ChangeType::Documentation => "docs",
            ChangeType::Test => "test",
            ChangeType::Style => "style",
            ChangeType::Performance => "perf",
            ChangeType::Chore => "chore",
            ChangeType::Mixed => "chore",
        }
    }
}

impl ChangeComplexity {
    /// The word for a size of change.
    pub open spec fn word(self) -> Seq<char> {
        match self {
            ChangeComplexity::Trivial => "trivial"@,
            ChangeComplexity::Simple => "simple"@,
            ChangeComplexity::Moderate => "moderate"@,
            ChangeComplexity::Complex => "complex"@,
            ChangeComplexity::Major => "major"@,
        }
    }

    pub fn as_str(&self) -> (r: &str)
        ensures
            r@ == self.word(),
    {
        match self {
            ChangeComplexity::Trivial => "trivial",
            ChangeComplexity::Simple => "simple",
            ChangeComplexity::Moderate => "moderate",
            ChangeComplexity::Complex => "complex",
            ChangeComplexity::Major => "major",
        }
    }
}

/// A path of documentation.
pub open spec fn is_doc_path(p: Seq<char>) -> bool {
    ends_with(p, ".md"@) || ends_with(p, ".txt"@) || ends_with(p, ".rst"@) || contains(
        p,
        "docs/"@,
    )
}

/// A path of tests.
pub open spec fn is_test_path(p: Seq<char>) -> bool {
    contains(p, "test"@) || contains(p, "spec"@) || ends_with(p, "_test.rs"@) || ends_with(
        p,
        "_test.go"@,
    ) || ends_with(p, ".test.js"@) || ends_with(p, ".test.ts"@)
}

/// The kind of a change, from its files and the lowercase text of its diff.
/// The first of these that holds decides: all files are documentation; all
/// are tests; the diff speaks of formatting or whitespace, or every file has
/// as many additions as deletions; the diff speaks of a fix; a file was added
/// or the diff speaks of adding; of refactoring; of performance.
pub open spec fn change_type_in(files: Seq<FileView>, low: Seq<char>) -> ChangeType {
    if forall|i: int| 0 <= i < files.len() ==> is_doc_path(#[trigger] files[i].path) {
        ChangeType::Documentation
    } else if forall|i: int| 0 <= i < files.len() ==> is_test_path(#[trigger] files[i].path) {
        ChangeType::Test
    } else if contains(low, "formatting"@) || contains(low, "whitespace"@) || (forall|i: int|
        0 <= i < files.len() ==> (#[trigger] files[i]).additions == files[i].deletions) {
        ChangeType::Style
    } else if contains(low, "fix"@) || contains(low, "bug"@) || contains(low, "issue"@)
        || contains(low, "error"@) {
        ChangeType::BugFix
    } else if (exists|i: int| 0 <= i < files.len() && (#[trigger] files[i]).status
        == FileStatus::Added) || contains(low, "add"@) || contains(low, "implement"@) || contains(
        low,
        "feature"@,
    ) {
        ChangeType::Feature
    } else if contains(low, "refactor"@) || contains(low, "rename"@) || contains(low, "move"@)
        || contains(low, "extract"@) {
        ChangeType::Refactor
    } else if contains(low, "performance"@) || contains(low, "optimize"@) || contains(
        low,
        "cache"@,
    ) || contains(low, "speed"@) {
        ChangeType::Performance
    } else {
        ChangeType::Chore
    }
}

/// The kind of a change, from its files and its diff.
pub open spec fn change_type_of(files: Seq<FileView>, diff: Seq<char>) -> ChangeType {
    change_type_in(files, lowercase(diff))
}

fn is_doc_path_exec(p: &Vec<char>) -> (r: bool)
    ensures
        r == is_doc_path(p@),
{
    ends_with_str(p, ".md") || ends_with_str(p, ".txt") || ends_with_str(p, ".rst")
        || contains_str(p, "docs/")
}

fn is_test_path_exec(p: &Vec<char>) -> (r: bool)
    ensures
        r == is_test_path(p@),
{
    contains_str(p, "test") || contains_str(p, "spec") || ends_with_str(p, "_test.rs")
        || ends_with_str(p, "_test.go") || ends_with_str(p, ".test.js") || ends_with_str(
        p,
        ".test.ts",
    )
}

fn all_doc_paths(files: &Vec<FileChange>) -> (r: bool)
    ensures
        r == forall|i: int|
            0 <= i < files.len() ==> is_doc_path(#[trigger] file_views(files@)[i].path),
{
    let mut i: usize = 0;
    while i < files.len()
        invariant
            i <= files.len(),
            forall|j: int| 0 <= j < i ==> is_doc_path(#[trigger] file_views(files@)[j].path),
        decreases files.len() - i,
    {
        let p = chars_of(files[i].path.as_str());
        if !is_doc_path_exec(&p) {
            assert(!is_doc_path(file_views(files@)[i as int].path));
            return false;
        }
        i += 1;
    }
    true
}

fn all_test_paths(files: &Vec<FileChange>) -> (r: bool)
    ensures
        r == forall|i: int|
            0 <= i < files.len() ==> is_test_path(#[trigger] file_views(files@)[i].path),
{
    let mut i: usize = 0;
    while i < files.len()
        invariant
            i <= files.len(),
            forall|j: int| 0 <= j < i ==> is_test_path(#[trigger] file_views(files@)[j].path),
        decreases files.len() - i,
    {
        let p = chars_of(files[i].path.as_str());
        if !is_test_path_exec(&p) {
            assert(!is_test_path(file_views(files@)[i as int].path));
            return false;
        }
        i += 1;
    }
    true
}

fn all_balanced(files: &Vec<FileChange>) -> (r: bool)
    ensures
        r == forall|i: int|
            0 <= i < files.len() ==> (#[trigger] file_views(files@)[i]).additions == file_views(
                files@,
            )[i].deletions,
{
    let mut i: usize = 0;
    while i < files.len()
        invariant
            i <= files.len(),
            forall|j: int|
                0 <= j < i ==> (#[trigger] file_views(files@)[j]).additions == file_views(
                    files@,
                )[j].deletions,
        decreases files.len() - i,
    {
        if files[i].additions != files[i].deletions {
            assert(file_views(files@)[i as int].additions != file_views(
                files@,
            )[i as int].deletions);
            return false;
        }
        i += 1;
    }
    true
}

fn any_added(files: &Vec<FileChange>) -> (r: bool)
    ensures
        r == exists|i: int|
            0 <= i < files.len() && (#[trigger] file_views(files@)[i]).status == FileStatus::Added,
{
    let mut i: usize = 0;
    while i < files.len()
        invariant
            i <= files.len(),
            forall|j: int|
                0 <= j < i ==> (#[trigger] file_views(files@)[j]).status != FileStatus::Added,
        decreases files.len() - i,
    {
        if files[i].status == FileStatus::Added {
            assert(file_views(files@)[i as int].status == FileStatus::Added);
            return true;
        }
        i += 1;
    }
    false
}

/// Tells the kind of a change from its files and its diff.
pub fn detect_change_type(files: &Vec<FileChange>, diff: &str) -> (r: ChangeType)
    ensures
        r == change_type_of(file_views(files@), diff@),
{
    let low = diff.to_lowercase();
    classify_change(files, low.as_str())
}

/// Tells the kind of a change from its files and the lowercase text of its
/// diff.
pub fn classify_change(files: &Vec<FileChange>, lowercase_diff: &str) -> (r: ChangeType)
    ensures
        r == change_type_in(file_views(files@), lowercase_diff@),
{
    let low = chars_of(lowercase_diff);
    if all_doc_paths(files) {
        return ChangeType::Documentation;
    }
    if all_test_paths(files) {
        return ChangeType::Test;
    }
    if contains_str(&low, "formatting") || contains_str(&low, "whitespace") || all_balanced(
        files,
    ) {
        return ChangeType::Style;
    }
    if contains_str(&low, "fix") || contains_str(&low, "bug") || contains_str(&low, "issue")
        || contains_str(&low, "error") {
        return ChangeType::BugFix;
    }
    if any_added(files) || contains_str(&low, "add") || contains_str(&low, "implement")
        || contains_str(&low, "feature") {
        return ChangeType::Feature;
    }
    if contains_str(&low, "refactor") || contains_str(&low, "rename") || contains_str(
        &low,
        "move",
    ) || contains_str(&low, "extract") {
        return ChangeType::Refactor;
    }
    if contains_str(&low, "performance") || contains_str(&low, "optimize") || contains_str(
        &low,
        "cache",
    ) || contains_str(&low, "speed") {
        return ChangeType::Performance;
    }
    ChangeType::Chore
}

/// The size of a change with `files` files and `changes` changed lines.
pub open spec fn complexity_of(files: nat, changes: nat) -> ChangeComplexity {
    if files == 0 {
        ChangeComplexity::Trivial
    } else if files == 1 {
        if changes <= 10 {
            ChangeComplexity::Trivial
        } else if changes <= 50 {
            ChangeComplexity::Simple
        } else {
            ChangeComplexity::Moderate
        }
    } else if files <= 5 {
        if changes <= 100 {
            ChangeComplexity::Moderate
        } else {
            ChangeComplexity::Complex
        }
    } else if files <= 15 {
        ChangeComplexity::Complex
    } else {
        ChangeComplexity::Major
    }
}

/// Tells the size of a change from the number of its files and of its
/// changed lines.
pub fn detect_complexity(analysis: &DiffAnalysis) -> (r: ChangeComplexity)
    ensures
        r == complexity_of(
            analysis.files@.len(),
            (analysis.total_additions + analysis.total_deletions) as nat,
        ),
{
    let files = analysis.files.len();
    let changes: u64 = analysis.total_additions as u64 + analysis.total_deletions as u64;
    if files == 0 {
        ChangeComplexity::Trivial
    } else if files == 1 {
        if changes <= 10 {
            ChangeComplexity::Trivial
        } else if changes <= 50 {
            ChangeComplexity::Simple
        } else {
            ChangeComplexity::Moderate
        }
    } else if files <= 5 {
        if changes <= 100 {
            ChangeComplexity::Moderate
        } else {
            ChangeComplexity::Complex
        }
    } else if files <= 15 {
        ChangeComplexity::Complex
    } else {
        ChangeComplexity::Major
    }
}

/// The area that a path belongs to: its first directory, or, for a file at
/// the root, what follows its last dot.
pub open spec fn area_of(path: Seq<char>) -> Seq<char> {
    let first = split(path, seq!['/'])[0];
    if contains(first, seq!['.']) {
        split(path, seq!['.']).last()
    } else {
        first
    }
}

/// The areas of the files, each once, in the order of their first file.
pub open spec fn areas_of(files: Seq<FileView>) -> Seq<Seq<char>> {
    distinct(files.map_values(|f: FileView| area_of(f.path)))
}

fn area_of_exec(path: &Vec<char>) -> (out: Vec<char>)
    ensures
        out@ == area_of(path@),
{
    let slash: Vec<char> = vec!['/'];
    assert(slash@ =~= seq!['/']);
    let dot: Vec<char> = vec!['.'];
    assert(dot@ =~= seq!['.']);
    let parts = split_exec(path, &slash);
    assert(texts(parts@)[0] == parts@[0]@);
    if contains_exec(&parts[0], &dot) {
        let pieces = split_exec(path, &dot);
        assert(texts(pieces@).last() == pieces@[pieces@.len() - 1]@);
        slice_of(&pieces[pieces.len() - 1], 0, pieces[pieces.len() - 1].len())
    } else {
        slice_of(&parts[0], 0, parts[0].len())
    }
}

fn holds(seen: &Vec<Vec<char>>, x: &Vec<char>) -> (r: bool)
    ensures
        r == texts(seen@).contains(x@),
{
    let mut i: usize = 0;
    while i < seen.len()
        invariant
            i <= seen.len(),
            forall|j: int| 0 <= j < i ==> texts(seen@)[j] != x@,
        decreases seen.len() - i,
    {
        if same_text(&seen[i], x) {
            assert(texts(seen@)[i as int] == x@);
            return true;
        }
        i += 1;
    }
    false
}

/// Lists the areas that the files touch, each once.
pub fn extract_affected_areas(files: &Vec<FileChange>) -> (r: Vec<String>)
    ensures
        string_views(r@) == areas_of(file_views(files@)),
{
    let ghost all = file_views(files@).map_values(|f: FileView| area_of(f.path));
    let mut seen: Vec<Vec<char>> = Vec::new();
    let mut out: Vec<String> = Vec::new();
    let mut i: usize = 0;
    assert(texts(seen@) =~= distinct(all.take(0)));
    assert(string_views(out@) =~= texts(seen@));
    while i < files.len()
        invariant
            i <= files.len(),
            all == file_views(files@).map_values(|f: FileView| area_of(f.path)),
            texts(seen@) == distinct(all.take(i as int)),
            string_views(out@) == texts(seen@),
        decreases files.len() - i,
    {
        let path = chars_of(files[i].path.as_str());
        let area = area_of_exec(&path);
        proof {
            assert(all.take(i + 1).drop_last() =~= all.take(i as int));
            assert(all.take(i + 1).last() == area@);
        }
        if !holds(&seen, &area) {
            let ghost seen_before = seen@;
            let ghost out_before = out@;
            let name = string_of(&area);
            out.push(name);
            seen.push(area);
            proof {
                lemma_texts_push(seen_before, area);
                assert(string_views(out@) =~= string_views(out_before).push(name@));
            }
        }
        i += 1;
    }
    assert(all.take(files@.len() as int) =~= all);
    out
}

/// The marks of a change that may break its users.
pub open spec fn breaking_marks() -> Seq<Seq<char>> {
    seq![
        "BREAKING"@,
        "breaking change"@,
        "incompatible"@,
        "removed"@,
        "deprecated"@,
        "pub fn.*->"@,
        "pub struct"@,
    ]
}

/// Whether a text holds one of the marks.
pub open spec fn holds_any(text: Seq<char>, marks: Seq<Seq<char>>) -> bool {
    exists|i: int| 0 <= i < marks.len() && contains(text, #[trigger] marks[i])
}

/// Whether a diff may break its users: its lowercase text holds one of the
/// marks, each taken in lowercase.
pub open spec fn may_break(diff: Seq<char>) -> bool {
    holds_any(lowercase(diff), breaking_marks().map_values(|m: Seq<char>| lowercase(m)))
}

/// Tells whether a text holds one of the marks.
pub fn holds_any_mark(text: &str, marks: &Vec<String>) -> (r: bool)
    ensures
        r == holds_any(text@, string_views(marks@)),
{
    let t = chars_of(text);
    let mut i: usize = 0;
    while i < marks.len()
        invariant
            i <= marks.len(),
            t@ == text@,
            forall|j: int| 0 <= j < i ==> !contains(t@, #[trigger] string_views(marks@)[j]),
        decreases marks.len() - i,
    {
        if contains_str(&t, marks[i].as_str()) {
            assert(contains(t@, string_views(marks@)[i as int]));
            return true;
        }
        i += 1;
    }
    false
}

/// Tells whether a diff may break its users.
pub fn detect_breaking_changes(diff: &str) -> (r: bool)
    ensures
        r == may_break(diff@),
{
    let low = diff.to_lowercase();
    let mut marks: Vec<String> = Vec::new();
    marks.push("BREAKING".to_lowercase());
    marks.push("breaking change".to_lowercase());
    marks.push("incompatible".to_lowercase());
    marks.push("removed".to_lowercase());
    marks.push("deprecated".to_lowercase());
    marks.push("pub fn.*->".to_lowercase());
    marks.push("pub struct".to_lowercase());
    assert(string_views(marks@) =~= breaking_marks().map_values(|m: Seq<char>| lowercase(m)));
    holds_any_mark(low.as_str(), &marks)
}

/// A diff cut to at most `max_len` bytes, with a note of how many bytes
/// were left out; a diff that is short enough stays as it is.
pub open spec fn truncated(diff: Seq<char>, max_len: nat) -> Seq<char> {
    let bytes = encode_utf8(diff);
    if bytes.len() <= max_len {
        diff
    } else {
        decode_utf8(bytes.subrange(0, max_len as int)) + "\n\n... (truncated, "@ + decimal(
            (bytes.len() - max_len) as nat,
        ) + " more characters)"@
    }
}

/// Cuts a diff to at most `max_len` bytes. The cut must not fall inside a
/// character.
pub fn truncate_diff(diff: &str, max_len: usize) -> (r: String)
    requires
        encode_utf8(diff@).len() <= max_len || is_char_boundary(
            encode_utf8(diff@),
            max_len as int,
        ),
    ensures
        r@ == truncated(diff@, max_len as nat),
{
    let n = diff.as_bytes().len();
    if n <= max_len {
        String::from_str(diff)
    } else {
        let (head, _) = diff.split_at(max_len);
        proof {
            vstd::utf8::encode_utf8_decode_utf8(head@);
        }
        let mut out = chars_of(head);
        push_str(&mut out, "\n\n... (truncated, ");
        push_decimal(&mut out, (n - max_len) as u64);
        push_str(&mut out, " more characters)");
        string_of(&out)
    }
}

/// Counts the lines of a diff that add.
pub fn count_additions(diff: &str) -> (r: usize)
    ensures
        r == added_lines(lines(diff@)),
{
    let text = chars_of(diff);
    let ls = lines_exec(&text);
    let ghost all = lines(diff@);
    let mut n: usize = 0;
    let mut i: usize = 0;
    while i < ls.len()
        invariant
            i <= ls.len(),
            all == texts(ls@),
            n <= i,
            n == added_lines(all.take(i as int)),
        decreases ls.len() - i,
    {
        proof {
            assert(all.take(i + 1).drop_last() =~= all.take(i as int));
            assert(all.take(i + 1).last() == ls@[i as int]@);
        }
        let plus: Vec<char> = vec!['+'];
        assert(plus@ =~= seq!['+']);
        if starts_with_exec(&ls[i], &plus) && !crate::text::starts_with_str(&ls[i], "+++") {
            n += 1;
        }
        i += 1;
    }
    assert(all.take(ls@.len() as int) =~= all);
    n
}

/// Counts the lines of a diff that delete.
pub fn count_deletions(diff: &str) -> (r: usize)
    ensures
        r == deleted_lines(lines(diff@)),
{
    let text = chars_of(diff);
    let ls = lines_exec(&text);
    let ghost all = lines(diff@);
    let mut n: usize = 0;
    let mut i: usize = 0;
    while i < ls.len()
        invariant
            i <= ls.len(),
            all == texts(ls@),
            n <= i,
            n == deleted_lines(all.take(i as int)),
        decreases ls.len() - i,
    {
        proof {
            assert(all.take(i + 1).drop_last() =~= all.take(i as int));
            assert(all.take(i + 1).last() == ls@[i as int]@);
        }
        let minus: Vec<char> = vec!['-'];
        assert(minus@ =~= seq!['-']);
        if starts_with_exec(&ls[i], &minus) && !crate::text::starts_with_str(&ls[i], "---") {
            n += 1;
        }
        i += 1;
    }
    assert(all.take(ls@.len() as int) =~= all);
    n
}

/// Looks at diffs without outside help.
pub struct GitAgent {}

impl GitAgent {
    pub fn new() -> (r: Self) {
        GitAgent {  }
    }

    /// Reads a diff and tells its kind, its size, the areas it touches and
    /// whether it may break its users.
    pub fn analyze_diff_locally(&self, diff: &str) -> (r: DiffInsights)
        requires
            diff@.len() < u32::MAX,
        ensures
            r.change_type == change_type_of(analysis_of(diff@).files, diff@),
            r.complexity == complexity_of(
                analysis_of(diff@).files.len(),
                analysis_of(diff@).total_additions + analysis_of(diff@).total_deletions,
            ),
            string_views(r.affected_areas@) == areas_of(analysis_of(diff@).files),
            r.breaking_potential == may_break(diff@),
            r.suggested_reviewers@.len() == 0,
            r.summary@ == analysis_of(diff@).summary,
    {
        let ops = GitOps::new(".");
        let analysis = ops.parse_diff(diff);
        let change_type = detect_change_type(&analysis.files, diff);
        let complexity = detect_complexity(&analysis);
        let affected_areas = extract_affected_areas(&analysis.files);
        let breaking_potential = detect_breaking_changes(diff);
        DiffInsights {
            change_type,
            affected_areas,
            complexity,
            breaking_potential,
            suggested_reviewers: Vec::new(),
            summary: analysis.summary,
        }
    }
}

/// A pattern for one field of a flat JSON text.
pub struct SimpleRegex {
    pub pattern: String,
}

/// What a pattern caught.
pub struct SimpleCaptures {
    pub value: String,
}

/// One caught text.
pub struct SimpleMatch {
    pub value: String,
}

/// A character that ends a value written without quotes.
pub open spec fn ends_bare_value(c: char) -> bool {
    c == ',' || c == '}' || unicode_whitespace(c)
}

/// Characters of a value written without quotes.
pub open spec fn bare_value() -> spec_fn(char) -> bool {
    |c: char| !ends_bare_value(c)
}

/// The pattern that `extract_json_field` makes for a field.
pub open spec fn field_pattern(field: Seq<char>) -> Seq<char> {
    seq!['"'] + field + "\":\\s*\"?([^\",\\}]+)\"?"@
}

/// What a field pattern catches in a text. The field's name is what stands
/// in the pattern between its first quote and `":\s*"?([^",\}`. The value
/// follows the first `"name":` of the text, after whitespace: between quotes
/// where it begins with one, else up to the next comma, brace or whitespace.
pub open spec fn captured(pattern: Seq<char>, text: Seq<char>) -> Option<Seq<char>> {
    match strip_prefix(pattern, seq!['"']) {
        None => None,
        Some(rest) => {
            let name = split(rest, "\":\\s*\"?([^\",\\}"@)[0];
            let key = seq!['"'] + name + "\":"@;
            match find_from(text, key, 0) {
                None => None,
                Some(i) => {
                    let remaining = trim_start(text.subrange(i + key.len(), text.len() as int));
                    if starts_with(remaining, seq!['"']) {
                        let after = remaining.subrange(1, remaining.len() as int);
                        match find_from(after, seq!['"'], 0) {
                            None => None,
                            Some(e) => Some(after.subrange(0, e)),
                        }
                    } else {
                        let end = run_end(remaining, 0, bare_value());
                        if end >= remaining.len() {
                            None
                        } else {
                            Some(remaining.subrange(0, end))
                        }
                    }
                },
            }
        },
    }
}

/// A text without the quotes around it.
pub open spec fn unquoted(s: Seq<char>) -> Seq<char> {
    strip_trailing(strip_leading(s, seq!['"']), seq!['"'])
}

/// The value of a field of a flat JSON text.
pub open spec fn json_field(json: Seq<char>, field: Seq<char>) -> Option<Seq<char>> {
    match captured(field_pattern(field), json) {
        Some(v) => Some(unquoted(v)),
        None => None,
    }
}

/// Makes a pattern of its text; every text is one.
pub fn regex_lite(pattern: &str) -> (r: Option<SimpleRegex>)
    ensures
        r is Some,
        r->0.pattern@ == pattern@,
{
    Some(SimpleRegex { pattern: String::from_str(pattern) })
}

impl SimpleRegex {
    /// Looks for the pattern's field in a text.
    pub fn captures(&self, text: &str) -> (r: Option<SimpleCaptures>)
        ensures
            match r {
                Some(c) => captured(self.pattern@, text@) == Some(c.value@),
                None => captured(self.pattern@, text@) is None,
            },
    {
        let quote: Vec<char> = vec!['"'];
        assert(quote@ =~= seq!['"']);
        let pattern = chars_of(self.pattern.as_str());
        let source = chars_of(text);
        let rest = match strip_prefix_exec(&pattern, &quote) {
            None => {
                return None;
            },
            Some(rest) => rest,
        };
        proof {
            reveal_strlit("\":\\s*\"?([^\",\\}");
        }
        let pieces = crate::split::split_str(&rest, "\":\\s*\"?([^\",\\}");
        assert(texts(pieces@)[0] == pieces@[0]@);
        let mut key: Vec<char> = Vec::new();
        key.push('"');
        push_all(&mut key, &pieces[0]);
        push_str(&mut key, "\":");
        assert(key@ =~= seq!['"'] + pieces@[0]@ + "\":"@);
        proof {
            lemma_find_from(source@, key@, 0);
        }
        let start = match find_from_exec(&source, &key, 0) {
            None => {
                return None;
            },
            Some(i) => i,
        };
        let n = source.len();
        let tail = slice_of(&source, start + key.len(), n);
        let skip = crate::split::run_of_whitespace(&tail, 0);
        let remaining = slice_of(&tail, skip, tail.len());
        if starts_with_exec(&remaining, &quote) {
            let after = slice_of(&remaining, 1, remaining.len());
            proof {
                lemma_find_from(after@, quote@, 0);
            }
            match find_from_exec(&after, &quote, 0) {
                None => None,
                Some(e) => Some(SimpleCaptures { value: string_of(&slice_of(&after, 0, e)) }),
            }
        } else {
            let mut end: usize = 0;
            while end < remaining.len() && !(remaining[end] == ',' || remaining[end] == '}'
                || is_white_space(remaining[end]))
                invariant
                    end <= remaining.len(),
                    forall|j: int| 0 <= j < end ==> !ends_bare_value(remaining@[j]),
                decreases remaining.len() - end,
            {
                end += 1;
            }
            proof {
                lemma_run_end(remaining@, 0, bare_value(), end as int);
            }
            if end >= remaining.len() {
                None
            } else {
                Some(SimpleCaptures { value: string_of(&slice_of(&remaining, 0, end)) })
            }
        }
    }
}

impl SimpleCaptures {
    /// The caught text number `idx`: there is one, with number 1.
    pub fn get(&self, idx: usize) -> (r: Option<SimpleMatch>)
        ensures
            r is Some <==> idx == 1,
            r is Some ==> r->0.value@ == self.value@,
    {
        if idx == 1 {
            Some(SimpleMatch { value: self.value.clone() })
        } else {
            None
        }
    }
}

impl SimpleMatch {
    pub fn as_str(&self) -> (r: &str)
        ensures
            r@ == self.value@,
    {
        self.value.as_str()
    }
}

/// Reads the value of a field from a flat JSON text.
pub fn extract_json_field(json: &str, field: &str) -> (r: Option<String>)
    ensures
        match r {
            Some(v) => json_field(json@, field@) == Some(v@),
            None => json_field(json@, field@) is None,
        },
{
    let mut pattern: Vec<char> = Vec::new();
    pattern.push('"');
    push_str(&mut pattern, field);
    push_str(&mut pattern, "\":\\s*\"?([^\",\\}]+)\"?");
    assert(pattern@ =~= field_pattern(field@));
    let pattern = string_of(&pattern);
    let found = match regex_lite(pattern.as_str()) {
        Some(re) => re.captures(json),
        None => None,
    };
    let caught = match found {
        Some(c) => c.get(1),
        None => None,
    };
    match caught {
        Some(m) => {
            let quote: Vec<char> = vec!['"'];
            assert(quote@ =~= seq!['"']);
            let v = chars_of(m.as_str());
            let front = strip_leading_exec(&v, &quote);
            let both = strip_trailing_exec(&front, &quote);
            Some(string_of(&both))
        },
        None => None,
    }
}

} // verus!
