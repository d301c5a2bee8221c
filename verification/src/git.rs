//! Reading unified diffs and change listings.

use crate::number::{decimal, parse_u32, parse_u32_exec, push_decimal};
use crate::split::{
    join, join_exec, lemma_texts_push, lines, lines_exec, split, split_once, split_once_exec,
    texts, words, words_exec,
};
use crate::text::{
    append_chars, chars_of, push_all, push_str, same_text, starts_with, starts_with_exec,
    string_of, strip_prefix, strip_prefix_exec,
};
use vstd::prelude::*;
use vstd::utf8::encode_utf8;

verus! {

/// One hunk of a diff.
#[derive(Debug, Clone)]
pub struct DiffHunk {
    pub file_path: String,
    pub old_start: u32,
    pub old_count: u32,
    pub new_start: u32,
    pub new_count: u32,
    pub content: String,
}

/// What changed in one file.
#[derive(Debug, Clone)]
pub struct FileChange {
    pub path: String,
    pub status: FileStatus,
    pub additions: u32,
    pub deletions: u32,
    pub old_path: Option<String>,
}

/// How a file changed.
#[derive(Debug, Clone, Copy, PartialEq, Eq, Structural)]
pub enum FileStatus {
    Added,
    Modified,
    Deleted,
    Renamed,
    Copied,
    Unknown,
}

/// One commit of a log.
#[derive(Debug, Clone)]
pub struct Commit {
    pub hash: String,
    pub short_hash: String,
    pub author: String,
    pub date: String,
    pub message: String,
}

/// What a diff holds.
#[derive(Debug, Clone)]
pub struct DiffAnalysis {
    pub files: Vec<FileChange>,
    pub hunks: Vec<DiffHunk>,
    pub total_additions: u32,
    pub total_deletions: u32,
    pub summary: String,
}

/// A repository, named by its path.
pub struct GitOps {
    pub repo_path: String,
}

/// A hunk as plain values.
pub struct HunkView {
    pub file_path: Seq<char>,
    pub old_start: u32,
    pub old_count: u32,
    pub new_start: u32,
    pub new_count: u32,
    pub content: Seq<char>,
}

/// A file change as plain values.
pub struct FileView {
    pub path: Seq<char>,
    pub status: FileStatus,
    pub additions: nat,
    pub deletions: nat,
    pub old_path: Option<Seq<char>>,
}

impl View for DiffHunk {
    type V = HunkView;

    open spec fn view(&self) -> HunkView {
        HunkView {
            file_path: self.file_path@,
            old_start: self.old_start,
            old_count: self.old_count,
            new_start: self.new_start,
            new_count: self.new_count,
            content: self.content@,
        }
    }
}

impl View for FileChange {
    type V = FileView;

    open spec fn view(&self) -> FileView {
        FileView {
            path: self.path@,
            status: self.status,
            additions: self.additions as nat,
            deletions: self.deletions as nat,
            old_path: match self.old_path {
                Some(p) => Some(p@),
                None => None,
            },
        }
    }
}

/// The views of a sequence of file changes.
pub open spec fn file_views(files: Seq<FileChange>) -> Seq<FileView> {
    files.map_values(|f: FileChange| f@)
}

/// The views of a sequence of hunks.
pub open spec fn hunk_views(hunks: Seq<DiffHunk>) -> Seq<HunkView> {
    hunks.map_values(|h: DiffHunk| h@)
}

impl FileStatus {
    /// The status that a letter of a name-status listing stands for.
    pub open spec fn of_letter(c: char) -> FileStatus {
        if c == 'A' {
            FileStatus::Added
        } else if c == 'M' {
            FileStatus::Modified
        } else if c == 'D' {
            FileStatus::Deleted
        } else if c == 'R' {
            FileStatus::Renamed
        } else if c == 'C' {
            FileStatus::Copied
        } else {
            FileStatus::Unknown
        }
    }

    /// The word for a status.
    pub open spec fn word(self) -> Seq<char> {
        match self {
            FileStatus::Added => "added"@,
            FileStatus::Modified => "modified"@,
            FileStatus::Deleted => "deleted"@,
            FileStatus::Renamed => "renamed"@,
            FileStatus::Copied => "copied"@,
            FileStatus::Unknown => "unknown"@,
        }
    }

    pub fn from_char(c: char) -> (r: Self)
        ensures
            r == Self::of_letter(c),
    {
        if c == 'A' {
            FileStatus::Added
        } else if c == 'M' {
            FileStatus::Modified
        } else if c == 'D' {
            FileStatus::Deleted
        } else if c == 'R' {
            FileStatus::Renamed
        } else if c == 'C' {
            FileStatus::Copied
        } else {
            FileStatus::Unknown
        }
    }

    pub fn as_str(&self) -> (r: &str)
        ensures
            r@ == self.word(),
    {
        match self {
            FileStatus::Added => "added",
            FileStatus::Modified => "modified",
            FileStatus::Deleted => "deleted",
            FileStatus::Renamed => "renamed",
            FileStatus::Copied => "copied",
            FileStatus::Unknown => "unknown",
        }
    }
}

/// The number that `s` denotes, or `fallback` where it denotes none.
pub open spec fn number_or(s: Seq<char>, fallback: u32) -> u32 {
    match parse_u32(s) {
        Some(v) => v,
        None => fallback,
    }
}

/// Start and count of a hunk range `start,count` or `start`. A start that is
/// no number counts as 0, a count that is none as 1; without a comma the
/// count is 1.
pub open spec fn hunk_range(s: Seq<char>) -> (u32, u32) {
    match split_once(s, seq![',']) {
        Some((start, count)) => (number_or(start, 0), number_or(count, 1)),
        None => (number_or(s, 0), 1),
    }
}

fn number_or_exec(s: &Vec<char>, fallback: u32) -> (r: u32)
    ensures
        r == number_or(s@, fallback),
{
    match parse_u32_exec(s) {
        Some(v) => v,
        None => fallback,
    }
}

fn hunk_range_exec(s: &Vec<char>) -> (r: (u32, u32))
    ensures
        r == hunk_range(s@),
{
    let comma: Vec<char> = vec![','];
    assert(comma@ =~= seq![',']);
    match split_once_exec(s, &comma) {
        Some((start, count)) => (number_or_exec(&start, 0), number_or_exec(&count, 1)),
        None => (number_or_exec(s, 0), 1),
    }
}

/// Reads a hunk range such as `10,5` or `10` into start and count.
pub fn parse_hunk_range(s: &str) -> (r: (u32, u32))
    ensures
        r == hunk_range(s@),
{
    let v = chars_of(s);
    hunk_range_exec(&v)
}

/// How many of the files have the given status.
pub open spec fn count_status(files: Seq<FileView>, status: FileStatus) -> nat
    decreases files.len(),
{
    if files.len() == 0 {
        0
    } else {
        count_status(files.drop_last(), status) + if files.last().status == status {
            1nat
        } else {
            0nat
        }
    }
}

/// The phrase for one count, or none where the count is 0.
pub open spec fn count_phrase(n: nat, label: Seq<char>) -> Seq<Seq<char>> {
    if n > 0 {
        seq![decimal(n) + label]
    } else {
        seq![]
    }
}

/// The phrases of a summary: added, modified, deleted, renamed, each with
/// its count, those with count 0 left out.
pub open spec fn summary_phrases(files: Seq<FileView>) -> Seq<Seq<char>> {
    count_phrase(count_status(files, FileStatus::Added), " added"@) + count_phrase(
        count_status(files, FileStatus::Modified),
        " modified"@,
    ) + count_phrase(count_status(files, FileStatus::Deleted), " deleted"@) + count_phrase(
        count_status(files, FileStatus::Renamed),
        " renamed"@,
    )
}

/// The one-line summary of a diff.
pub open spec fn diff_summary(files: Seq<FileView>, additions: nat, deletions: nat) -> Seq<char> {
    decimal(files.len()) + " files changed ("@ + join(summary_phrases(files), ", "@)
        + ") with "@ + decimal(additions) + " additions and "@ + decimal(deletions)
        + " deletions"@
}

fn count_status_exec(files: &Vec<FileChange>, status: FileStatus) -> (n: usize)
    ensures
        n == count_status(file_views(files@), status),
{
    let mut n: usize = 0;
    let mut i: usize = 0;
    let ghost all = file_views(files@);
    while i < files.len()
        invariant
            i <= files.len(),
            all == file_views(files@),
            n <= i,
            n == count_status(all.take(i as int), status),
        decreases files.len() - i,
    {
        proof {
            assert(all.take(i + 1).drop_last() =~= all.take(i as int));
            assert(all.take(i + 1).last() == files@[i as int]@);
        }
        if files[i].status == status {
            n += 1;
        }
        i += 1;
    }
    assert(all.take(files@.len() as int) =~= all);
    n
}

fn push_phrase(parts: &mut Vec<Vec<char>>, n: usize, label: &str)
    ensures
        texts(final(parts)@) == texts(old(parts)@) + count_phrase(n as nat, label@),
{
    if n > 0 {
        let mut phrase: Vec<char> = Vec::new();
        push_decimal(&mut phrase, n as u64);
        push_str(&mut phrase, label);
        let ghost before = parts@;
        parts.push(phrase);
        proof {
            lemma_texts_push(before, phrase);
            assert(phrase@ =~= decimal(n as nat) + label@);
            assert(texts(parts@) =~= texts(before) + count_phrase(n as nat, label@));
        }
    } else {
        assert(texts(parts@) =~= texts(parts@) + count_phrase(n as nat, label@));
    }
}

/// Writes the one-line summary of a diff: how many files changed, how many
/// of them in which way, and the lines added and deleted.
pub fn generate_diff_summary(files: &Vec<FileChange>, additions: u32, deletions: u32) -> (r:
    String)
    ensures
        r@ == diff_summary(file_views(files@), additions as nat, deletions as nat),
{
    let added = count_status_exec(files, FileStatus::Added);
    let modified = count_status_exec(files, FileStatus::Modified);
    let deleted = count_status_exec(files, FileStatus::Deleted);
    let renamed = count_status_exec(files, FileStatus::Renamed);
    let mut parts: Vec<Vec<char>> = Vec::new();
    assert(texts(parts@) =~= Seq::<Seq<char>>::empty());
    push_phrase(&mut parts, added, " added");
    push_phrase(&mut parts, modified, " modified");
    push_phrase(&mut parts, deleted, " deleted");
    push_phrase(&mut parts, renamed, " renamed");
    assert(texts(parts@) =~= summary_phrases(file_views(files@)));
    let sep = chars_of(", ");
    let joined = join_exec(&parts, 0, parts.len(), &sep);
    assert(texts(parts@).subrange(0, parts@.len() as int) =~= texts(parts@));
    let mut out: Vec<char> = Vec::new();
    push_decimal(&mut out, files.len() as u64);
    push_str(&mut out, " files changed (");
    push_all(&mut out, &joined);
    push_str(&mut out, ") with ");
    push_decimal(&mut out, additions as u64);
    push_str(&mut out, " additions and ");
    push_decimal(&mut out, deletions as u64);
    push_str(&mut out, " deletions");
    assert(file_views(files@).len() == files@.len());
    assert(out@ =~= diff_summary(file_views(files@), additions as nat, deletions as nat));
    string_of(&out)
}

/// A line that adds: it begins with `+`, but not with `+++`.
pub open spec fn is_addition(line: Seq<char>) -> bool {
    starts_with(line, seq!['+']) && !starts_with(line, "+++"@)
}

/// A line that deletes: it begins with `-`, but not with `---`.
pub open spec fn is_deletion(line: Seq<char>) -> bool {
    starts_with(line, seq!['-']) && !starts_with(line, "---"@)
}

/// How many of the lines add.
pub open spec fn added_lines(ls: Seq<Seq<char>>) -> nat
    decreases ls.len(),
{
    if ls.len() == 0 {
        0
    } else {
        added_lines(ls.drop_last()) + if is_addition(ls.last()) {
            1nat
        } else {
            0nat
        }
    }
}

/// How many of the lines delete.
pub open spec fn deleted_lines(ls: Seq<Seq<char>>) -> nat
    decreases ls.len(),
{
    if ls.len() == 0 {
        0
    } else {
        deleted_lines(ls.drop_last()) + if is_deletion(ls.last()) {
            1nat
        } else {
            0nat
        }
    }
}

/// No line both adds and deletes, so the two counts together stay within
/// the number of lines.
pub proof fn lemma_changed_lines_bound(ls: Seq<Seq<char>>)
    ensures
        added_lines(ls) + deleted_lines(ls) <= ls.len(),
    decreases ls.len(),
{
    if ls.len() > 0 {
        lemma_changed_lines_bound(ls.drop_last());
        let l = ls.last();
        if is_addition(l) && is_deletion(l) {
            assert(l.subrange(0, 1)[0] == '+');
            assert(l.subrange(0, 1)[0] == '-');
        }
    }
}

fn is_addition_exec(line: &Vec<char>) -> (r: bool)
    ensures
        r == is_addition(line@),
{
    let plus: Vec<char> = vec!['+'];
    assert(plus@ =~= seq!['+']);
    starts_with_exec(line, &plus) && !crate::text::starts_with_str(line, "+++")
}

fn is_deletion_exec(line: &Vec<char>) -> (r: bool)
    ensures
        r == is_deletion(line@),
{
    let minus: Vec<char> = vec!['-'];
    assert(minus@ =~= seq!['-']);
    starts_with_exec(line, &minus) && !crate::text::starts_with_str(line, "---")
}

/// The two ranges of a hunk header `@@ -old +new @@`, old first.
pub open spec fn hunk_header(line: Seq<char>) -> Option<((u32, u32), (u32, u32))> {
    match strip_prefix(line, "@@ -"@) {
        None => None,
        Some(after) => match split_once(after, seq![' ']) {
            None => None,
            Some((old_info, rest)) => match strip_prefix(rest, seq!['+']) {
                None => None,
                Some(new_part) => match split_once(new_part, seq![' ']) {
                    None => None,
                    Some((new_info, _)) => Some((hunk_range(old_info), hunk_range(new_info))),
                },
            },
        },
    }
}

fn hunk_header_exec(line: &Vec<char>) -> (r: Option<((u32, u32), (u32, u32))>)
    ensures
        r == hunk_header(line@),
{
    let space: Vec<char> = vec![' '];
    assert(space@ =~= seq![' ']);
    let plus: Vec<char> = vec!['+'];
    assert(plus@ =~= seq!['+']);
    match crate::text::strip_prefix_str(line, "@@ -") {
        None => None,
        Some(after) => match split_once_exec(&after, &space) {
            None => None,
            Some((old_info, rest)) => match strip_prefix_exec(&rest, &plus) {
                None => None,
                Some(new_part) => match split_once_exec(&new_part, &space) {
                    None => None,
                    Some((new_info, _)) => Some(
                        (hunk_range_exec(&old_info), hunk_range_exec(&new_info)),
                    ),
                },
            },
        },
    }
}

/// Position of the first of `paths` that equals `path`, searched from `from`.
pub open spec fn path_index_from(paths: Seq<Seq<char>>, path: Seq<char>, from: int) -> Option<int>
    decreases paths.len() - from,
{
    if from < 0 || from >= paths.len() {
        None
    } else if paths[from] == path {
        Some(from)
    } else {
        path_index_from(paths, path, from + 1)
    }
}

/// Position of the first file with the given path.
pub open spec fn path_index(files: Seq<FileView>, path: Seq<char>) -> Option<int> {
    path_index_from(files.map_values(|f: FileView| f.path), path, 0)
}

/// What `path_index_from` finds lies within the paths.
pub proof fn lemma_path_index_from(paths: Seq<Seq<char>>, path: Seq<char>, from: int)
    requires
        0 <= from,
    ensures
        match path_index_from(paths, path, from) {
            Some(k) => from <= k < paths.len() && paths[k] == path,
            None => forall|j: int| from <= j < paths.len() ==> paths[j] != path,
        },
    decreases paths.len() - from,
{
    if from < paths.len() && paths[from] != path {
        lemma_path_index_from(paths, path, from + 1);
    }
}

fn path_index_exec(files: &Vec<FileChange>, path: &Vec<char>) -> (r: Option<usize>)
    ensures
        match r {
            Some(k) => path_index(file_views(files@), path@) == Some(k as int) && k < files.len(),
            None => path_index(file_views(files@), path@) is None,
        },
{
    let ghost paths = file_views(files@).map_values(|f: FileView| f.path);
    let mut i: usize = 0;
    while i < files.len()
        invariant
            i <= files.len(),
            paths == file_views(files@).map_values(|f: FileView| f.path),
            path_index_from(paths, path@, 0) == path_index_from(paths, path@, i as int),
        decreases files.len() - i,
    {
        let candidate = chars_of(files[i].path.as_str());
        assert(paths[i as int] == files@[i as int].path@);
        if same_text(&candidate, path) {
            return Some(i);
        }
        i += 1;
    }
    None
}

/// What the reader of a diff knows after some lines.
pub struct DiffState {
    pub files: Seq<FileView>,
    pub hunks: Seq<HunkView>,
    pub current_file: Option<Seq<char>>,
    pub current_hunk: Option<HunkView>,
    pub additions: nat,
    pub deletions: nat,
}

/// The state before the first line.
pub open spec fn start_state() -> DiffState {
    DiffState {
        files: seq![],
        hunks: seq![],
        current_file: None,
        current_hunk: None,
        additions: 0,
        deletions: 0,
    }
}

/// The finished hunks, the one being read included.
pub open spec fn closed_hunks(st: DiffState) -> Seq<HunkView> {
    match st.current_hunk {
        Some(h) => st.hunks.push(h),
        None => st.hunks,
    }
}

/// A file entry without line counts.
pub open spec fn fresh_file(path: Seq<char>, status: FileStatus) -> FileView {
    FileView { path, status, additions: 0, deletions: 0, old_path: None }
}

/// The state with an entry of the given status for the current file, if
/// there is a current file.
pub open spec fn with_file(st: DiffState, status: FileStatus) -> DiffState {
    match st.current_file {
        Some(path) => DiffState { files: st.files.push(fresh_file(path, status)), ..st },
        None => st,
    }
}

/// The state after one more line.
///
/// - `diff --git ...` closes the hunk being read; the current file becomes
///   what follows the last ` b/` of the line.
/// - `new file mode`, `deleted file mode`, `rename to` add an entry for the
///   current file; `rename from` changes nothing.
/// - `@@...` closes the hunk being read and, where the header can be read,
///   opens one for the current file.
/// - Any other line, while a hunk is being read, is appended to it with a
///   newline, and counts as an addition or a deletion if it is one.
/// - Outside a hunk, `---` or `+++` adds an entry `Modified` for the current
///   file unless there is one with that path.
pub open spec fn diff_step(st: DiffState, line: Seq<char>) -> DiffState {
    if starts_with(line, "diff --git"@) {
        DiffState {
            hunks: closed_hunks(st),
            current_hunk: None,
            current_file: Some(split(line, " b/"@).last()),
            ..st
        }
    } else if starts_with(line, "new file mode"@) {
        with_file(st, FileStatus::Added)
    } else if starts_with(line, "deleted file mode"@) {
        with_file(st, FileStatus::Deleted)
    } else if starts_with(line, "rename from"@) {
        st
    } else if starts_with(line, "rename to"@) {
        with_file(st, FileStatus::Renamed)
    } else if starts_with(line, "@@"@) {
        DiffState {
            hunks: closed_hunks(st),
            current_hunk: match hunk_header(line) {
                Some((old, new)) => Some(
                    HunkView {
                        file_path: match st.current_file {
                            Some(p) => p,
                            None => seq![],
                        },
                        old_start: old.0,
                        old_count: old.1,
                        new_start: new.0,
                        new_count: new.1,
                        content: seq![],
                    },
                ),
                None => None,
            },
            ..st
        }
    } else if st.current_hunk is Some {
        let h = st.current_hunk->0;
        DiffState {
            current_hunk: Some(HunkView { content: h.content + line + seq!['\n'], ..h }),
            additions: if is_addition(line) {
                st.additions + 1
            } else {
                st.additions
            },
            deletions: if !is_addition(line) && is_deletion(line) {
                st.deletions + 1
            } else {
                st.deletions
            },
            ..st
        }
    } else if starts_with(line, "---"@) || starts_with(line, "+++"@) {
        match st.current_file {
            Some(path) => if path_index(st.files, path) is None {
                with_file(st, FileStatus::Modified)
            } else {
                st
            },
            None => st,
        }
    } else {
        st
    }
}

/// The state after all the given lines.
pub open spec fn diff_fold(ls: Seq<Seq<char>>) -> DiffState
    decreases ls.len(),
{
    if ls.len() == 0 {
        start_state()
    } else {
        diff_step(diff_fold(ls.drop_last()), ls.last())
    }
}

/// Lines added in the hunks that belong to file `k`: a hunk belongs to the
/// first file that has its path.
pub open spec fn additions_of(files: Seq<FileView>, hunks: Seq<HunkView>, k: int) -> nat
    decreases hunks.len(),
{
    if hunks.len() == 0 {
        0
    } else {
        additions_of(files, hunks.drop_last(), k) + if path_index(files, hunks.last().file_path)
            == Some(k) {
            added_lines(lines(hunks.last().content))
        } else {
            0
        }
    }
}

/// Lines deleted in the hunks that belong to file `k`.
pub open spec fn deletions_of(files: Seq<FileView>, hunks: Seq<HunkView>, k: int) -> nat
    decreases hunks.len(),
{
    if hunks.len() == 0 {
        0
    } else {
        deletions_of(files, hunks.drop_last(), k) + if path_index(files, hunks.last().file_path)
            == Some(k) {
            deleted_lines(lines(hunks.last().content))
        } else {
            0
        }
    }
}

/// The files with the line counts of their hunks.
pub open spec fn with_counts(files: Seq<FileView>, hunks: Seq<HunkView>) -> Seq<FileView> {
    Seq::new(
        files.len(),
        |k: int|
            FileView {
                additions: additions_of(files, hunks, k),
                deletions: deletions_of(files, hunks, k),
                ..files[k]
            },
    )
}

/// A diff analysis as plain values.
pub struct AnalysisView {
    pub files: Seq<FileView>,
    pub hunks: Seq<HunkView>,
    pub total_additions: nat,
    pub total_deletions: nat,
    pub summary: Seq<char>,
}

impl View for DiffAnalysis {
    type V = AnalysisView;

    open spec fn view(&self) -> AnalysisView {
        AnalysisView {
            files: file_views(self.files@),
            hunks: hunk_views(self.hunks@),
            total_additions: self.total_additions as nat,
            total_deletions: self.total_deletions as nat,
            summary: self.summary@,
        }
    }
}

/// What a diff holds: the files and hunks found line by line, each file with
/// the counts of its hunks, the totals over all hunks, and the summary.
pub open spec fn analysis_of(diff: Seq<char>) -> AnalysisView {
    let st = diff_fold(lines(diff));
    let hunks = closed_hunks(st);
    let files = with_counts(st.files, hunks);
    AnalysisView {
        files,
        hunks,
        total_additions: st.additions,
        total_deletions: st.deletions,
        summary: diff_summary(files, st.additions, st.deletions),
    }
}

/// Sum of the lengths of the texts.
pub open spec fn sum_len(xs: Seq<Seq<char>>) -> nat
    decreases xs.len(),
{
    if xs.len() == 0 {
        0
    } else {
        sum_len(xs.drop_last()) + xs.last().len()
    }
}

/// The lengths of two runs of texts add up.
pub proof fn lemma_sum_len_concat(a: Seq<Seq<char>>, b: Seq<Seq<char>>)
    ensures
        sum_len(a + b) == sum_len(a) + sum_len(b),
    decreases b.len(),
{
    if b.len() == 0 {
        assert(a + b =~= a);
    } else {
        lemma_sum_len_concat(a, b.drop_last());
        assert((a + b).drop_last() =~= a + b.drop_last());
        assert((a + b).last() == b.last());
    }
}

/// The first texts weigh no more than all of them.
pub proof fn lemma_sum_len_take(xs: Seq<Seq<char>>, i: int)
    requires
        0 <= i <= xs.len(),
    ensures
        sum_len(xs.take(i)) <= sum_len(xs),
{
    lemma_sum_len_concat(xs.take(i), xs.skip(i));
    assert(xs.take(i) + xs.skip(i) =~= xs);
}

/// The lines of a text, each counted with one character more, fit in the
/// text and one character more.
pub proof fn lemma_lines_weight(s: Seq<char>, from: int)
    requires
        0 <= from <= s.len(),
    ensures
        sum_len(crate::split::lines_from(s, from)) + crate::split::lines_from(s, from).len()
            <= s.len() - from + 1,
    decreases s.len() - from,
{
    let ls = crate::split::lines_from(s, from);
    if from < s.len() {
        let e = crate::split::run_end(s, from, crate::split::not_newline());
        crate::split::lemma_run_end_props(s, from, crate::split::not_newline());
        if e >= s.len() {
            assert(ls.drop_last() =~= Seq::<Seq<char>>::empty());
            assert(sum_len(ls.drop_last()) == 0);
            assert(sum_len(ls) == ls.last().len());
        } else {
            let head = seq![crate::split::strip_cr(s.subrange(from, e))];
            let rest = crate::split::lines_from(s, e + 1);
            lemma_lines_weight(s, e + 1);
            lemma_sum_len_concat(head, rest);
            assert(head.drop_last() =~= Seq::<Seq<char>>::empty());
            assert(sum_len(head.drop_last()) == 0);
            assert(sum_len(head) == head.last().len());
        }
    }
}

/// The contents of the hunks.
pub open spec fn contents(hunks: Seq<HunkView>) -> Seq<Seq<char>> {
    hunks.map_values(|h: HunkView| h.content)
}

/// The state stays within a budget of characters read: no more lines
/// counted and no more hunk content than the budget, and no file counted yet.
pub open spec fn within(st: DiffState, budget: nat) -> bool {
    &&& st.additions + st.deletions <= budget
    &&& sum_len(contents(closed_hunks(st))) <= budget
    &&& forall|k: int|
        0 <= k < st.files.len() ==> (#[trigger] st.files[k]).additions == 0 && st.files[k].deletions
            == 0
}

struct Reader {
    files: Vec<FileChange>,
    hunks: Vec<DiffHunk>,
    current_file: Option<String>,
    current_hunk: Option<DiffHunk>,
    additions: u32,
    deletions: u32,
}

impl View for Reader {
    type V = DiffState;

    closed spec fn view(&self) -> DiffState {
        DiffState {
            files: file_views(self.files@),
            hunks: hunk_views(self.hunks@),
            current_file: match self.current_file {
                Some(p) => Some(p@),
                None => None,
            },
            current_hunk: match self.current_hunk {
                Some(h) => Some(h@),
                None => None,
            },
            additions: self.additions as nat,
            deletions: self.deletions as nat,
        }
    }
}

proof fn lemma_contents_push(hunks: Seq<HunkView>, h: HunkView)
    ensures
        sum_len(contents(hunks.push(h))) == sum_len(contents(hunks)) + h.content.len(),
{
    assert(contents(hunks.push(h)).drop_last() =~= contents(hunks));
    assert(contents(hunks.push(h)).last() == h.content);
}

fn close_hunk(r: Reader) -> (out: Reader)
    ensures
        out@ == (DiffState { hunks: closed_hunks(r@), current_hunk: None, ..r@ }),
{
    let Reader { files, hunks, current_file, current_hunk, additions, deletions } = r;
    let mut hunks = hunks;
    match current_hunk {
        Some(h) => {
            let ghost before = hunks@;
            hunks.push(h);
            assert(hunk_views(hunks@) =~= hunk_views(before).push(h@));
        },
        None => {},
    }
    Reader { files, hunks, current_file, current_hunk: None, additions, deletions }
}

fn add_file(r: Reader, status: FileStatus) -> (out: Reader)
    ensures
        out@ == with_file(r@, status),
{
    let Reader { files, hunks, current_file, current_hunk, additions, deletions } = r;
    let mut files = files;
    match &current_file {
        Some(path) => {
            let ghost before = files@;
            let entry = FileChange {
                path: path.clone(),
                status,
                additions: 0,
                deletions: 0,
                old_path: None,
            };
            files.push(entry);
            assert(file_views(files@) =~= file_views(before).push(fresh_file(path@, status)));
        },
        None => {},
    }
    Reader { files, hunks, current_file, current_hunk, additions, deletions }
}

fn step(r: Reader, line: &Vec<char>, Ghost(budget): Ghost<nat>) -> (out: Reader)
    requires
        within(r@, budget),
        budget + line.len() + 1 <= u32::MAX,
    ensures
        out@ == diff_step(r@, line@),
        within(out@, budget + line@.len() + 1),
{
    let ghost st = r@;
    proof {
        match st.current_hunk {
            Some(h) => {
                lemma_contents_push(st.hunks, h);
            },
            None => {},
        }
    }
    if crate::text::starts_with_str(line, "diff --git") {
        proof {
            reveal_strlit(" b/");
        }
        let pieces = crate::split::split_str(line, " b/");
        let path = string_of(&pieces[pieces.len() - 1]);
        assert(texts(pieces@).last() == pieces@[pieces@.len() - 1]@);
        let closed = close_hunk(r);
        let Reader { files, hunks, current_file: _, current_hunk, additions, deletions } = closed;
        Reader { files, hunks, current_file: Some(path), current_hunk, additions, deletions }
    } else if crate::text::starts_with_str(line, "new file mode") {
        add_file(r, FileStatus::Added)
    } else if crate::text::starts_with_str(line, "deleted file mode") {
        add_file(r, FileStatus::Deleted)
    } else if crate::text::starts_with_str(line, "rename from") {
        r
    } else if crate::text::starts_with_str(line, "rename to") {
        add_file(r, FileStatus::Renamed)
    } else if crate::text::starts_with_str(line, "@@") {
        let header = hunk_header_exec(line);
        let closed = close_hunk(r);
        let Reader { files, hunks, current_file, current_hunk: _, additions, deletions } = closed;
        let opened = match header {
            Some((old, new)) => {
                let file_path = match &current_file {
                    Some(p) => p.clone(),
                    None => String::new(),
                };
                Some(
                    DiffHunk {
                        file_path,
                        old_start: old.0,
                        old_count: old.1,
                        new_start: new.0,
                        new_count: new.1,
                        content: String::new(),
                    },
                )
            },
            None => None,
        };
        proof {
            if opened is Some {
                lemma_contents_push(closed_hunks(st), opened->0@);
            }
        }
        Reader { files, hunks, current_file, current_hunk: opened, additions, deletions }
    } else if r.current_hunk.is_some() {
        let Reader { files, hunks, current_file, current_hunk, additions, deletions } = r;
        let hunk = current_hunk.unwrap();
        let DiffHunk { file_path, old_start, old_count, new_start, new_count, content } = hunk;
        let mut content = content;
        append_chars(&mut content, line);
        content.push('\n');
        let adds = is_addition_exec(line);
        let dels = is_deletion_exec(line);
        proof {
            lemma_changed_lines_bound(seq![line@]);
            assert(seq![line@].drop_last() =~= Seq::<Seq<char>>::empty());
        }
        let additions: u32 = if adds {
            additions + 1
        } else {
            additions
        };
        let deletions: u32 = if !adds && dels {
            deletions + 1
        } else {
            deletions
        };
        let grown = DiffHunk { file_path, old_start, old_count, new_start, new_count, content };
        proof {
            assert(grown@.content =~= st.current_hunk->0.content + line@ + seq!['\n']);
            lemma_contents_push(st.hunks, grown@);
        }
        Reader { files, hunks, current_file, current_hunk: Some(grown), additions, deletions }
    } else if crate::text::starts_with_str(line, "---") || crate::text::starts_with_str(
        line,
        "+++",
    ) {
        let known = match &r.current_file {
            Some(path) => {
                let p = chars_of(path.as_str());
                path_index_exec(&r.files, &p).is_some()
            },
            None => true,
        };
        if known {
            r
        } else {
            add_file(r, FileStatus::Modified)
        }
    } else {
        r
    }
}

fn count_changes(content: &String, limit: Ghost<nat>) -> (r: (u32, u32))
    requires
        content@.len() <= limit@ <= u32::MAX,
    ensures
        r.0 == added_lines(lines(content@)),
        r.1 == deleted_lines(lines(content@)),
        r.0 + r.1 <= content@.len(),
{
    let text = chars_of(content.as_str());
    let ls = lines_exec(&text);
    proof {
        crate::split::lemma_lines_from(content@, 0);
        lemma_changed_lines_bound(lines(content@));
    }
    let ghost all = lines(content@);
    let mut adds: u32 = 0;
    let mut dels: u32 = 0;
    let mut i: usize = 0;
    while i < ls.len()
        invariant
            i <= ls.len(),
            all == texts(ls@),
            all.len() <= u32::MAX,
            adds == added_lines(all.take(i as int)),
            dels == deleted_lines(all.take(i as int)),
            adds + dels <= i,
        decreases ls.len() - i,
    {
        proof {
            assert(all.take(i + 1).drop_last() =~= all.take(i as int));
            assert(all.take(i + 1).last() == ls@[i as int]@);
            lemma_changed_lines_bound(all.take(i + 1));
        }
        if is_addition_exec(&ls[i]) {
            adds += 1;
        }
        if is_deletion_exec(&ls[i]) {
            dels += 1;
        }
        i += 1;
    }
    assert(all.take(ls@.len() as int) =~= all);
    (adds, dels)
}

fn count_files(files: Vec<FileChange>, hunks: &Vec<DiffHunk>) -> (out: Vec<FileChange>)
    requires
        forall|k: int|
            0 <= k < files.len() ==> (#[trigger] files@[k]).additions == 0 && files@[k].deletions
                == 0,
        sum_len(contents(hunk_views(hunks@))) <= u32::MAX,
    ensures
        file_views(out@) == with_counts(file_views(files@), hunk_views(hunks@)),
{
    let ghost orig = file_views(files@);
    let ghost hv = hunk_views(hunks@);
    let mut files = files;
    let mut h: usize = 0;
    assert(file_views(files@) =~= with_counts(orig, hv.take(0)));
    while h < hunks.len()
        invariant
            h <= hunks.len(),
            hv == hunk_views(hunks@),
            files@.len() == orig.len(),
            file_views(files@) == with_counts(orig, hv.take(h as int)),
            forall|k: int|
                0 <= k < files@.len() ==> (#[trigger] files@[k]).additions + files@[k].deletions
                    <= sum_len(contents(hv.take(h as int))),
            sum_len(contents(hv)) <= u32::MAX,
        decreases hunks.len() - h,
    {
        let hunk = &hunks[h];
        let ghost done = hv.take(h as int);
        let ghost next = hv.take(h + 1);
        proof {
            assert(next.drop_last() =~= done);
            assert(next.last() == hunk@);
            lemma_contents_push(done, hunk@);
            assert(done.push(hunk@) =~= next);
            assert(contents(hv).take(h + 1) =~= contents(next));
            lemma_sum_len_take(contents(hv), h + 1);
            assert(file_views(files@).map_values(|f: FileView| f.path) =~= orig.map_values(
                |f: FileView| f.path,
            ));
            lemma_path_index_from(orig.map_values(|f: FileView| f.path), hunk@.file_path, 0);
        }
        let path = chars_of(hunk.file_path.as_str());
        match path_index_exec(&files, &path) {
            Some(k) => {
                let (a, d) = count_changes(&hunk.content, Ghost(u32::MAX as nat));
                let ghost before = files@;
                let entry = files.remove(k);
                let FileChange { path, status, additions, deletions, old_path } = entry;
                let counted = FileChange {
                    path,
                    status,
                    additions: additions + a,
                    deletions: deletions + d,
                    old_path,
                };
                files.insert(k, counted);
                proof {
                    assert(files@ =~= before.update(k as int, counted));
                    assert(file_views(before)[k as int] == with_counts(orig, done)[k as int]);
                    assert forall|j: int| 0 <= j < files@.len() implies file_views(files@)[j]
                        == with_counts(orig, next)[j] by {
                        assert(file_views(before)[j] == with_counts(orig, done)[j]);
                    }
                    assert(file_views(files@) =~= with_counts(orig, next));
                    assert forall|j: int| 0 <= j < files@.len() implies (#[trigger] files@[j]).additions
                        + files@[j].deletions <= sum_len(contents(next)) by {
                        assert(before[j].additions + before[j].deletions <= sum_len(
                            contents(done),
                        ));
                    }
                }
            },
            None => {
                assert(file_views(files@) =~= with_counts(orig, next));
            },
        }
        h += 1;
    }
    assert(hv.take(hunks@.len() as int) =~= hv);
    files
}

/// The entry that one line of a name-status listing stands for: a status
/// word of at most four bytes, then the path; for a rename, the old path and
/// then the new one. Other lines stand for none.
pub open spec fn listing_entry(line: Seq<char>) -> Option<FileView> {
    let parts = words(line);
    if parts.len() >= 2 && encode_utf8(parts[0]).len() <= 4 {
        let status = FileStatus::of_letter(parts[0][0]);
        if status == FileStatus::Renamed && parts.len() >= 3 {
            Some(
                FileView {
                    path: parts[2],
                    status,
                    additions: 0,
                    deletions: 0,
                    old_path: Some(parts[1]),
                },
            )
        } else {
            Some(fresh_file(parts[1], status))
        }
    } else {
        None
    }
}

/// The entries of a name-status listing, line by line.
pub open spec fn listing(ls: Seq<Seq<char>>) -> Seq<FileView>
    decreases ls.len(),
{
    if ls.len() == 0 {
        seq![]
    } else {
        match listing_entry(ls.last()) {
            Some(f) => listing(ls.drop_last()).push(f),
            None => listing(ls.drop_last()),
        }
    }
}

fn listing_entry_exec(line: &Vec<char>) -> (r: Option<FileChange>)
    ensures
        match r {
            Some(f) => listing_entry(line@) == Some(f@),
            None => listing_entry(line@) is None,
        },
{
    let parts = words_exec(line);
    proof {
        crate::split::lemma_words_from(line@, 0);
    }
    if parts.len() < 2 {
        return None;
    }
    assert(texts(parts@)[0] == parts@[0]@);
    assert(texts(parts@)[1] == parts@[1]@);
    let word = string_of(&parts[0]);
    if word.as_str().as_bytes().len() > 4 {
        return None;
    }
    let status = FileStatus::from_char(parts[0][0]);
    if status == FileStatus::Renamed && parts.len() >= 3 {
        assert(texts(parts@)[2] == parts@[2]@);
        Some(
            FileChange {
                path: string_of(&parts[2]),
                status,
                additions: 0,
                deletions: 0,
                old_path: Some(string_of(&parts[1])),
            },
        )
    } else {
        Some(
            FileChange {
                path: string_of(&parts[1]),
                status,
                additions: 0,
                deletions: 0,
                old_path: None,
            },
        )
    }
}

impl GitOps {
    pub fn new(repo_path: &str) -> (r: Self)
        ensures
            r.repo_path@ == repo_path@,
    {
        GitOps { repo_path: String::from_str(repo_path) }
    }

    /// Reads a unified diff: its files, its hunks, the lines added and
    /// deleted, and a summary.
    pub fn parse_diff(&self, diff: &str) -> (r: DiffAnalysis)
        requires
            diff@.len() < u32::MAX,
        ensures
            r@ == analysis_of(diff@),
    {
        let text = chars_of(diff);
        let ls = lines_exec(&text);
        let ghost all = lines(diff@);
        proof {
            lemma_lines_weight(diff@, 0);
        }
        let mut reader = Reader {
            files: Vec::new(),
            hunks: Vec::new(),
            current_file: None,
            current_hunk: None,
            additions: 0,
            deletions: 0,
        };
        let ghost mut budget: nat = 0;
        let mut i: usize = 0;
        proof {
            assert(reader@.files =~= Seq::<FileView>::empty());
            assert(reader@.hunks =~= Seq::<HunkView>::empty());
            assert(contents(closed_hunks(reader@)) =~= Seq::<Seq<char>>::empty());
            assert(all.take(0) =~= Seq::<Seq<char>>::empty());
        }
        while i < ls.len()
            invariant
                i <= ls.len(),
                all == texts(ls@),
                sum_len(all) + all.len() <= u32::MAX,
                reader@ == diff_fold(all.take(i as int)),
                within(reader@, budget),
                budget == sum_len(all.take(i as int)) + i,
            decreases ls.len() - i,
        {
            proof {
                assert(all.take(i + 1).drop_last() =~= all.take(i as int));
                assert(all.take(i + 1).last() == ls@[i as int]@);
                lemma_sum_len_take(all, i + 1);
            }
            reader = step(reader, &ls[i], Ghost(budget));
            proof {
                budget = budget + ls@[i as int]@.len() + 1;
            }
            i += 1;
        }
        assert(all.take(ls@.len() as int) =~= all);
        let ghost st = reader@;
        let closed = close_hunk(reader);
        let Reader { files, hunks, current_file: _, current_hunk: _, additions, deletions } =
            closed;
        proof {
            assert forall|k: int| 0 <= k < files.len() implies (#[trigger] files@[k]).additions
                == 0 && files@[k].deletions == 0 by {
                assert(st.files[k] == files@[k]@);
            }
        }
        let files = count_files(files, &hunks);
        let summary = generate_diff_summary(&files, additions, deletions);
        DiffAnalysis {
            files,
            hunks,
            total_additions: additions,
            total_deletions: deletions,
            summary,
        }
    }

    /// Reads a name-status listing into file entries, one per line that
    /// holds a status word and a path.
    pub fn parse_numstat_output(&self, output: &str) -> (r: Vec<FileChange>)
        ensures
            file_views(r@) == listing(lines(output@)),
    {
        let text = chars_of(output);
        let ls = lines_exec(&text);
        let ghost all = lines(output@);
        let mut files: Vec<FileChange> = Vec::new();
        let mut i: usize = 0;
        assert(file_views(files@) =~= listing(all.take(0)));
        while i < ls.len()
            invariant
                i <= ls.len(),
                all == texts(ls@),
                file_views(files@) == listing(all.take(i as int)),
            decreases ls.len() - i,
        {
            proof {
                assert(all.take(i + 1).drop_last() =~= all.take(i as int));
                assert(all.take(i + 1).last() == ls@[i as int]@);
            }
            match listing_entry_exec(&ls[i]) {
                Some(f) => {
                    let ghost before = files@;
                    files.push(f);
                    assert(file_views(files@) =~= file_views(before).push(f@));
                },
                None => {},
            }
            i += 1;
        }
        assert(all.take(ls@.len() as int) =~= all);
        files
    }
}

} // verus!
