//! Retrieval: cutting files into chunks, counting keyword hits, merging
//! result lists and assembling context.

use crate::number::{decimal, push_decimal};
use crate::split::{
    join, join_exec, lines, lines_exec, split, split_exec, texts, trim, trim_exec, words,
    words_exec,
};
use crate::text::{
    chars_of, contains, contains_exec, count_matches, count_matches_exec, is_text, lowercase,
    push_all, push_str, starts_with, starts_with_str, string_of, string_views,
};
use vstd::prelude::*;

verus! {

/// How a result was found.
#[derive(Debug, Clone, Copy, PartialEq, Eq, Structural)]
pub enum MatchType {
    Semantic,
    Keyword,
    Hybrid,
}

/// The settings of retrieval that are whole numbers and switches.
#[derive(Debug, Clone, Copy)]
pub struct RagConfig {
    /// Number of results to return.
    pub top_k: usize,
    /// Lines in a window, where a file is cut into windows.
    pub chunk_size: usize,
    /// Lines that a window shares with the one before it.
    pub chunk_overlap: usize,
    /// Whether results are ranked again by the query's terms.
    pub enable_rerank: bool,
}

impl Default for RagConfig {
    fn default() -> (r: Self)
        ensures
            r.top_k == 10,
            r.chunk_size == 1000,
            r.chunk_overlap == 200,
            r.enable_rerank,
    {
        RagConfig { top_k: 10, chunk_size: 1000, chunk_overlap: 200, enable_rerank: true }
    }
}

/// A run of lines of a file. Lines are numbered from 1; both ends belong to
/// the chunk.
#[derive(Debug, Clone)]
pub struct CodeChunk {
    pub file_path: String,
    pub content: String,
    pub start_line: usize,
    pub end_line: usize,
    pub language: String,
}

/// A chunk as plain values.
pub struct ChunkView {
    pub file_path: Seq<char>,
    pub content: Seq<char>,
    pub start_line: nat,
    pub end_line: nat,
    pub language: Seq<char>,
}

impl View for CodeChunk {
    type V = ChunkView;

    open spec fn view(&self) -> ChunkView {
        ChunkView {
            file_path: self.file_path@,
            content: self.content@,
            start_line: self.start_line as nat,
            end_line: self.end_line as nat,
            language: self.language@,
        }
    }
}

/// The views of a sequence of chunks.
pub open spec fn chunk_views(chunks: Seq<CodeChunk>) -> Seq<ChunkView> {
    chunks.map_values(|c: CodeChunk| c@)
}

/// The language of a path for retrieval, by what follows the path's last dot.
pub open spec fn language_name(path: Seq<char>) -> Seq<char> {
    let ext = split(path, seq!['.']).last();
    if ext == "rs"@ {
        "rust"@
    } else if ext == "py"@ {
        "python"@
    } else if ext == "js"@ {
        "javascript"@
    } else if ext == "ts"@ {
        "typescript"@
    } else if ext == "jsx"@ || ext == "tsx"@ {
        "react"@
    } else if ext == "java"@ {
        "java"@
    } else if ext == "kt"@ {
        "kotlin"@
    } else if ext == "go"@ {
        "go"@
    } else if ext == "c"@ || ext == "h"@ {
        "c"@
    } else if ext == "cpp"@ || ext == "hpp"@ || ext == "cc"@ {
        "cpp"@
    } else if ext == "rb"@ {
        "ruby"@
    } else if ext == "php"@ {
        "php"@
    } else if ext == "swift"@ {
        "swift"@
    } else if ext == "scala"@ {
        "scala"@
    } else if ext == "cs"@ {
        "csharp"@
    } else {
        "unknown"@
    }
}

/// Tells the language of a path for retrieval; `unknown` where the
/// extension is none of the known ones.
pub fn detect_language(path: &str) -> (r: String)
    ensures
        r@ == language_name(path@),
{
    let p = chars_of(path);
    let dot: Vec<char> = vec!['.'];
    assert(dot@ =~= seq!['.']);
    let parts = split_exec(&p, &dot);
    let ext = &parts[parts.len() - 1];
    assert(texts(parts@).last() == ext@);
    let name: &str = if is_text(ext, "rs") {
        "rust"
    } else if is_text(ext, "py") {
        "python"
    } else if is_text(ext, "js") {
        "javascript"
    } else if is_text(ext, "ts") {
        "typescript"
    } else if is_text(ext, "jsx") || is_text(ext, "tsx") {
        "react"
    } else if is_text(ext, "java") {
        "java"
    } else if is_text(ext, "kt") {
        "kotlin"
    } else if is_text(ext, "go") {
        "go"
    } else if is_text(ext, "c") || is_text(ext, "h") {
        "c"
    } else if is_text(ext, "cpp") || is_text(ext, "hpp") || is_text(ext, "cc") {
        "cpp"
    } else if is_text(ext, "rb") {
        "ruby"
    } else if is_text(ext, "php") {
        "php"
    } else if is_text(ext, "swift") {
        "swift"
    } else if is_text(ext, "scala") {
        "scala"
    } else if is_text(ext, "cs") {
        "csharp"
    } else {
        "unknown"
    };
    String::from_str(name)
}

/// Whether a line begins a declaration in the given language: without the
/// whitespace around it, it begins with one of the language's keywords. A
/// language without keywords of its own has a general set.
pub open spec fn is_boundary(line: Seq<char>, language: Seq<char>) -> bool {
    let t = trim(line);
    if language == "rust"@ {
        starts_with(t, "fn "@) || starts_with(t, "impl "@) || starts_with(t, "struct "@)
            || starts_with(t, "enum "@) || starts_with(t, "trait "@) || starts_with(t, "mod "@)
    } else if language == "python"@ {
        starts_with(t, "def "@) || starts_with(t, "class "@) || starts_with(t, "async def "@)
    } else if language == "javascript"@ || language == "typescript"@ {
        starts_with(t, "function "@) || starts_with(t, "class "@) || starts_with(t, "const "@)
            || starts_with(t, "export "@)
    } else if language == "java"@ || language == "kotlin"@ {
        starts_with(t, "public "@) || starts_with(t, "private "@) || starts_with(
            t,
            "protected "@,
        ) || starts_with(t, "class "@) || starts_with(t, "interface "@)
    } else if language == "go"@ {
        starts_with(t, "func "@) || starts_with(t, "type "@) || starts_with(t, "package "@)
    } else {
        starts_with(t, "fn "@) || starts_with(t, "function "@) || starts_with(t, "def "@)
            || starts_with(t, "class "@)
    }
}

fn is_boundary_exec(line: &Vec<char>, language: &Vec<char>) -> (r: bool)
    ensures
        r == is_boundary(line@, language@),
{
    let t = trim_exec(line);
    if is_text(language, "rust") {
        starts_with_str(&t, "fn ") || starts_with_str(&t, "impl ") || starts_with_str(
            &t,
            "struct ",
        ) || starts_with_str(&t, "enum ") || starts_with_str(&t, "trait ") || starts_with_str(
            &t,
            "mod ",
        )
    } else if is_text(language, "python") {
        starts_with_str(&t, "def ") || starts_with_str(&t, "class ") || starts_with_str(
            &t,
            "async def ",
        )
    } else if is_text(language, "javascript") || is_text(language, "typescript") {
        starts_with_str(&t, "function ") || starts_with_str(&t, "class ") || starts_with_str(
            &t,
            "const ",
        ) || starts_with_str(&t, "export ")
    } else if is_text(language, "java") || is_text(language, "kotlin") {
        starts_with_str(&t, "public ") || starts_with_str(&t, "private ") || starts_with_str(
            &t,
            "protected ",
        ) || starts_with_str(&t, "class ") || starts_with_str(&t, "interface ")
    } else if is_text(language, "go") {
        starts_with_str(&t, "func ") || starts_with_str(&t, "type ") || starts_with_str(
            &t,
            "package ",
        )
    } else {
        starts_with_str(&t, "fn ") || starts_with_str(&t, "function ") || starts_with_str(
            &t,
            "def ",
        ) || starts_with_str(&t, "class ")
    }
}

/// The positions, after the first line and before `upto`, of the lines
/// that begin a declaration, in rising order.
pub open spec fn inner_cuts(ls: Seq<Seq<char>>, language: Seq<char>, upto: int) -> Seq<int>
    decreases upto,
{
    if upto <= 1 {
        seq![]
    } else {
        let front = inner_cuts(ls, language, upto - 1);
        if is_boundary(ls[upto - 1], language) {
            front.push(upto - 1)
        } else {
            front
        }
    }
}

/// Where the lines are cut: at the start, before each later line that
/// begins a declaration, and at the end.
pub open spec fn cut_points(ls: Seq<Seq<char>>, language: Seq<char>) -> Seq<int> {
    seq![0int] + inner_cuts(ls, language, ls.len() as int) + seq![ls.len() as int]
}

/// Whether some line begins a declaration.
pub open spec fn has_boundary(ls: Seq<Seq<char>>, language: Seq<char>) -> bool {
    exists|i: int| 0 <= i < ls.len() && is_boundary(#[trigger] ls[i], language)
}

/// Cuts are positions of lines, in rising order.
pub proof fn lemma_inner_cuts(ls: Seq<Seq<char>>, language: Seq<char>, upto: int)
    requires
        upto <= ls.len(),
    ensures
        inner_cuts(ls, language, upto).len() <= if upto >= 1 {
            upto - 1
        } else {
            0
        },
        forall|k: int|
            0 <= k < inner_cuts(ls, language, upto).len() ==> 1 <= #[trigger] inner_cuts(
                ls,
                language,
                upto,
            )[k] < upto,
        forall|i: int|
            1 <= i < upto ==> (is_boundary(#[trigger] ls[i], language) <==> inner_cuts(
                ls,
                language,
                upto,
            ).contains(i)),
        forall|j: int, k: int|
            0 <= j < k < inner_cuts(ls, language, upto).len() ==> inner_cuts(ls, language, upto)[j]
                < inner_cuts(ls, language, upto)[k],
    decreases upto,
{
    if upto > 1 {
        lemma_inner_cuts(ls, language, upto - 1);
        let front = inner_cuts(ls, language, upto - 1);
        let all = inner_cuts(ls, language, upto);
        assert forall|i: int| 1 <= i < upto implies (is_boundary(#[trigger] ls[i], language)
            <==> all.contains(i)) by {
            if i < upto - 1 {
                if front.contains(i) {
                    let k = choose|k: int| 0 <= k < front.len() && front[k] == i;
                    assert(all[k] == i);
                }
                if all.contains(i) {
                    let k = choose|k: int| 0 <= k < all.len() && all[k] == i;
                    assert(front[k] == i);
                }
            } else {
                if is_boundary(ls[i], language) {
                    assert(all[front.len() as int] == i);
                }
                if all.contains(i) {
                    let k = choose|k: int| 0 <= k < all.len() && all[k] == i;
                    if k < front.len() {
                        assert(front[k] == i);
                    }
                }
            }
        }
    }
}

/// The cut points as numbers of the machine.
pub open spec fn as_ints(v: Seq<usize>) -> Seq<int> {
    v.map_values(|x: usize| x as int)
}

/// Finds where lines are cut into chunks: at the start, before each later
/// line that begins a declaration, and at the end.
pub fn find_code_boundaries(ls: &Vec<Vec<char>>, language: &str) -> (r: Vec<usize>)
    ensures
        as_ints(r@) == cut_points(texts(ls@), language@),
{
    let lang = chars_of(language);
    let ghost all = texts(ls@);
    let mut out: Vec<usize> = Vec::new();
    out.push(0);
    let mut i: usize = 1;
    assert(as_ints(out@) =~= seq![0int] + inner_cuts(all, language@, 1));
    while i < ls.len()
        invariant
            1 <= i,
            i <= ls.len() || i == 1,
            all == texts(ls@),
            lang@ == language@,
            as_ints(out@) == seq![0int] + inner_cuts(all, language@, i as int),
        decreases ls.len() - i,
    {
        let ghost before = out@;
        assert(all[i as int] == ls@[i as int]@);
        if is_boundary_exec(&ls[i], &lang) {
            out.push(i);
            assert(as_ints(out@) =~= as_ints(before).push(i as int));
            assert(as_ints(out@) =~= seq![0int] + inner_cuts(all, language@, i + 1));
        }
        i += 1;
    }
    let ghost before = out@;
    out.push(ls.len());
    proof {
        assert(as_ints(out@) =~= as_ints(before).push(ls@.len() as int));
        if ls@.len() == 0 {
            assert(inner_cuts(all, language@, 1) =~= inner_cuts(all, language@, 0));
        }
        assert(as_ints(out@) =~= cut_points(all, language@));
    }
    out
}

/// The chunk of the lines `start..end`, counted from 0, unless it holds
/// nothing but whitespace.
pub open spec fn chunk_of(
    ls: Seq<Seq<char>>,
    start: int,
    end: int,
    file_path: Seq<char>,
    language: Seq<char>,
) -> Option<ChunkView> {
    let content = join(ls.subrange(start, end), seq!['\n']);
    if trim(content).len() == 0 {
        None
    } else {
        Some(
            ChunkView {
                file_path,
                content,
                start_line: (start + 1) as nat,
                end_line: end as nat,
                language,
            },
        )
    }
}

/// The chunks between the first `upto + 1` cuts.
pub open spec fn chunks_between(
    ls: Seq<Seq<char>>,
    cuts: Seq<int>,
    upto: int,
    file_path: Seq<char>,
    language: Seq<char>,
) -> Seq<ChunkView>
    decreases upto,
{
    if upto <= 0 {
        seq![]
    } else {
        let front = chunks_between(ls, cuts, upto - 1, file_path, language);
        match chunk_of(ls, cuts[upto - 1], cuts[upto], file_path, language) {
            Some(c) => front.push(c),
            None => front,
        }
    }
}

/// The chunks of windows of `size` lines from line `start` on, each
/// beginning `overlap` lines before the end of the one before it.
pub open spec fn windows_from(
    ls: Seq<Seq<char>>,
    start: int,
    size: nat,
    overlap: nat,
    file_path: Seq<char>,
    language: Seq<char>,
) -> Seq<ChunkView>
    decreases ls.len() - start,
{
    if start < 0 || start >= ls.len() || overlap >= size {
        seq![]
    } else {
        let end = if start + size < ls.len() {
            start + size
        } else {
            ls.len() as int
        };
        let head = match chunk_of(ls, start, end, file_path, language) {
            Some(c) => seq![c],
            None => seq![],
        };
        if end >= ls.len() {
            head
        } else {
            head + windows_from(ls, end - overlap, size, overlap, file_path, language)
        }
    }
}

/// The chunks of a content. Where some line begins a declaration, the
/// chunks lie between the cut points; else they are windows of `size` lines.
/// Chunks of nothing but whitespace are left out.
pub open spec fn chunks_of(
    content: Seq<char>,
    file_path: Seq<char>,
    language: Seq<char>,
    size: nat,
    overlap: nat,
) -> Seq<ChunkView> {
    let ls = lines(content);
    if has_boundary(ls, language) {
        let cuts = cut_points(ls, language);
        chunks_between(ls, cuts, cuts.len() - 1, file_path, language)
    } else {
        windows_from(ls, 0, size, overlap, file_path, language)
    }
}

fn chunk_of_exec(ls: &Vec<Vec<char>>, start: usize, end: usize, file_path: &str, language: &str) -> (r:
    Option<CodeChunk>)
    requires
        start <= end <= ls.len(),
    ensures
        match r {
            Some(c) => chunk_of(texts(ls@), start as int, end as int, file_path@, language@)
                == Some(c@),
            None => chunk_of(texts(ls@), start as int, end as int, file_path@, language@) is None,
        },
{
    let newline: Vec<char> = vec!['\n'];
    assert(newline@ =~= seq!['\n']);
    let content = join_exec(ls, start, end, &newline);
    let trimmed = trim_exec(&content);
    if trimmed.len() == 0 {
        None
    } else {
        Some(
            CodeChunk {
                file_path: String::from_str(file_path),
                content: string_of(&content),
                start_line: start + 1,
                end_line: end,
                language: String::from_str(language),
            },
        )
    }
}

/// Cuts files into chunks.
pub struct RagRetriever {
    pub config: RagConfig,
}

impl RagRetriever {
    pub fn new(config: RagConfig) -> (r: Self)
        ensures
            r.config == config,
    {
        RagRetriever { config }
    }

    pub fn with_defaults() -> (r: Self)
        ensures
            r.config.top_k == 10,
            r.config.chunk_size == 1000,
            r.config.chunk_overlap == 200,
            r.config.enable_rerank,
    {
        RagRetriever { config: RagConfig::default() }
    }

    /// Cuts a content into chunks: between the lines that begin a
    /// declaration where there are such lines, else into windows of
    /// `chunk_size` lines that overlap by `chunk_overlap`.
    pub fn chunk_content(&self, content: &str, file_path: &str, language: &str) -> (r: Vec<
        CodeChunk,
    >)
        requires
            self.config.chunk_overlap < self.config.chunk_size,
        ensures
            chunk_views(r@) == chunks_of(
                content@,
                file_path@,
                language@,
                self.config.chunk_size as nat,
                self.config.chunk_overlap as nat,
            ),
    {
        let text = chars_of(content);
        let ls = lines_exec(&text);
        let ghost all = lines(content@);
        let lang = chars_of(language);
        let size = self.config.chunk_size;
        let overlap = self.config.chunk_overlap;
        let mut chunks: Vec<CodeChunk> = Vec::new();
        let n = ls.len();
        let cuts = find_code_boundaries(&ls, language);
        proof {
            lemma_inner_cuts(all, language@, all.len() as int);
        }
        let natural = cuts.len() > 2 || (n > 0 && is_boundary_exec(&ls[0], &lang));
        proof {
            let inner = inner_cuts(all, language@, all.len() as int);
            assert(cuts@.len() == as_ints(cuts@).len());
            if cuts.len() > 2 {
                assert(inner.len() > 0);
                assert(inner.contains(inner[0]));
                assert(is_boundary(all[inner[0]], language@));
            }
            if n > 0 {
                assert(all[0] == ls@[0]@);
            }
            if has_boundary(all, language@) {
                let i = choose|i: int| 0 <= i < all.len() && is_boundary(
                    #[trigger] all[i],
                    language@,
                );
                if i >= 1 {
                    assert(inner.contains(i));
                }
            }
            assert(natural == has_boundary(all, language@));
        }
        if natural {
            let mut k: usize = 0;
            assert(chunk_views(chunks@) =~= chunks_between(
                all,
                as_ints(cuts@),
                0,
                file_path@,
                language@,
            ));
            while k + 1 < cuts.len()
                invariant
                    k + 1 <= cuts.len(),
                    all == texts(ls@),
                    as_ints(cuts@) == cut_points(all, language@),
                    cuts@.len() == inner_cuts(all, language@, all.len() as int).len() + 2,
                    forall|j: int|
                        0 <= j < inner_cuts(all, language@, all.len() as int).len() ==> 1
                            <= #[trigger] inner_cuts(all, language@, all.len() as int)[j]
                            < all.len(),
                    forall|i: int, j: int|
                        0 <= i < j < inner_cuts(all, language@, all.len() as int).len()
                            ==> inner_cuts(all, language@, all.len() as int)[i] < inner_cuts(
                            all,
                            language@,
                            all.len() as int,
                        )[j],
                    chunk_views(chunks@) == chunks_between(
                        all,
                        as_ints(cuts@),
                        k as int,
                        file_path@,
                        language@,
                    ),
                decreases cuts.len() - k,
            {
                let start = cuts[k];
                let end = cuts[k + 1];
                proof {
                    let inner = inner_cuts(all, language@, all.len() as int);
                    let c = cut_points(all, language@);
                    assert(as_ints(cuts@)[k as int] == start);
                    assert(as_ints(cuts@)[k + 1] == end);
                    if k > 0 {
                        assert(c[k as int] == inner[k - 1]);
                    }
                    if k + 1 < cuts@.len() - 1 {
                        assert(c[k + 1] == inner[k as int]);
                    }
                    assert(start <= end <= all.len());
                }
                let ghost before = chunks@;
                match chunk_of_exec(&ls, start, end, file_path, language) {
                    Some(c) => {
                        chunks.push(c);
                        assert(chunk_views(chunks@) =~= chunk_views(before).push(c@));
                    },
                    None => {},
                }
                k += 1;
            }
        } else {
            let mut start: usize = 0;
            assert(chunk_views(chunks@) + windows_from(
                all,
                0,
                size as nat,
                overlap as nat,
                file_path@,
                language@,
            ) =~= windows_from(all, 0, size as nat, overlap as nat, file_path@, language@));
            while start < n
                invariant
                    n == ls.len(),
                    all == texts(ls@),
                    overlap < size,
                    chunk_views(chunks@) + windows_from(
                        all,
                        start as int,
                        size as nat,
                        overlap as nat,
                        file_path@,
                        language@,
                    ) == windows_from(all, 0, size as nat, overlap as nat, file_path@, language@),
                decreases n - start,
            {
                let end: usize = if size < n - start {
                    start + size
                } else {
                    n
                };
                let ghost before = chunks@;
                match chunk_of_exec(&ls, start, end, file_path, language) {
                    Some(c) => {
                        chunks.push(c);
                        assert(chunk_views(chunks@) =~= chunk_views(before).push(c@));
                    },
                    None => {},
                }
                if end >= n {
                    proof {
                        assert(chunk_views(chunks@) =~= windows_from(
                            all,
                            0,
                            size as nat,
                            overlap as nat,
                            file_path@,
                            language@,
                        ));
                    }
                    start = n;
                } else {
                    proof {
                        assert(chunk_views(chunks@) + windows_from(
                            all,
                            end - overlap,
                            size as nat,
                            overlap as nat,
                            file_path@,
                            language@,
                        ) =~= windows_from(
                            all,
                            0,
                            size as nat,
                            overlap as nat,
                            file_path@,
                            language@,
                        ));
                    }
                    start = end - overlap;
                }
            }
            proof {
                assert(windows_from(
                    all,
                    start as int,
                    size as nat,
                    overlap as nat,
                    file_path@,
                    language@,
                ) =~= Seq::<ChunkView>::empty());
                assert(chunk_views(chunks@) =~= windows_from(
                    all,
                    0,
                    size as nat,
                    overlap as nat,
                    file_path@,
                    language@,
                ));
            }
        }
        chunks
    }
}

/// Whether a term stands in a declaration in a lowercase text: the text
/// holds the term right behind `fn`, `function`, `def`, `class`, `struct`,
/// `const`, `let` or `var` and a space.
pub open spec fn declared_in(low: Seq<char>, term: Seq<char>) -> bool {
    contains(low, "fn "@ + term) || contains(low, "function "@ + term) || contains(
        low,
        "def "@ + term,
    ) || contains(low, "class "@ + term) || contains(low, "struct "@ + term) || contains(
        low,
        "const "@ + term,
    ) || contains(low, "let "@ + term) || contains(low, "var "@ + term)
}

/// Whether a term stands in a declaration in the content, the content
/// taken in lowercase.
pub open spec fn in_definition(content: Seq<char>, term: Seq<char>) -> bool {
    declared_in(lowercase(content), term)
}

fn holds_behind(low: &Vec<char>, keyword: &str, term: &Vec<char>) -> (r: bool)
    ensures
        r == contains(low@, keyword@ + term@),
{
    let mut pattern = chars_of(keyword);
    push_all(&mut pattern, term);
    contains_exec(low, &pattern)
}

fn declared_in_exec(low: &Vec<char>, term: &Vec<char>) -> (r: bool)
    ensures
        r == declared_in(low@, term@),
{
    holds_behind(low, "fn ", term) || holds_behind(low, "function ", term) || holds_behind(
        low,
        "def ",
        term,
    ) || holds_behind(low, "class ", term) || holds_behind(low, "struct ", term) || holds_behind(
        low,
        "const ",
        term,
    ) || holds_behind(low, "let ", term) || holds_behind(low, "var ", term)
}

/// Tells whether a term stands in a declaration in a lowercase text.
pub fn is_declared_in(lowercase_content: &str, term: &str) -> (r: bool)
    ensures
        r == declared_in(lowercase_content@, term@),
{
    let low = chars_of(lowercase_content);
    let t = chars_of(term);
    declared_in_exec(&low, &t)
}

/// Tells whether a term stands in a declaration in the content.
pub fn is_in_definition(content: &str, term: &str) -> (r: bool)
    ensures
        r == in_definition(content@, term@),
{
    let low = content.to_lowercase();
    is_declared_in(low.as_str(), term)
}

/// The terms of a query: its whitespace-separated words.
pub fn query_terms(query: &str) -> (r: Vec<String>)
    ensures
        string_views(r@) == words(query@),
{
    let q = chars_of(query);
    let ws = words_exec(&q);
    let mut out: Vec<String> = Vec::new();
    let mut i: usize = 0;
    assert(string_views(out@) =~= texts(ws@).take(0));
    while i < ws.len()
        invariant
            i <= ws.len(),
            string_views(out@) == texts(ws@).take(i as int),
        decreases ws.len() - i,
    {
        let ghost before = out@;
        let term = string_of(&ws[i]);
        out.push(term);
        assert(string_views(out@) =~= string_views(before).push(term@));
        assert(texts(ws@).take(i + 1) =~= texts(ws@).take(i as int).push(ws@[i as int]@));
        i += 1;
    }
    assert(texts(ws@).take(ws@.len() as int) =~= texts(ws@));
    out
}

/// The texts in lowercase, in order.
pub open spec fn lowered_all(terms: Seq<Seq<char>>) -> Seq<Seq<char>> {
    terms.map_values(|t: Seq<char>| lowercase(t))
}

/// Writes each term in lowercase.
pub fn lower_all(terms: &Vec<String>) -> (r: Vec<String>)
    ensures
        string_views(r@) == lowered_all(string_views(terms@)),
{
    let mut out: Vec<String> = Vec::new();
    let mut i: usize = 0;
    assert(string_views(out@) =~= lowered_all(string_views(terms@).take(0)));
    while i < terms.len()
        invariant
            i <= terms.len(),
            string_views(out@) == lowered_all(string_views(terms@).take(i as int)),
        decreases terms.len() - i,
    {
        let ghost before = out@;
        let low = terms[i].as_str().to_lowercase();
        out.push(low);
        proof {
            assert(string_views(out@) =~= string_views(before).push(low@));
            assert(string_views(terms@).take(i + 1) =~= string_views(terms@).take(i as int).push(
                terms@[i as int]@,
            ));
            assert(string_views(out@) =~= lowered_all(string_views(terms@).take(i + 1)));
        }
        i += 1;
    }
    assert(string_views(terms@).take(terms@.len() as int) =~= string_views(terms@));
    out
}

/// How many of the terms occur in the text.
pub open spec fn matched_terms(text: Seq<char>, terms: Seq<Seq<char>>) -> nat
    decreases terms.len(),
{
    if terms.len() == 0 {
        0
    } else {
        matched_terms(text, terms.drop_last()) + if contains(text, terms.last()) {
            1nat
        } else {
            0nat
        }
    }
}

/// How often the terms that occur in the text occur in it, all together,
/// each counted without overlap.
pub open spec fn occurrences(text: Seq<char>, terms: Seq<Seq<char>>) -> nat
    decreases terms.len(),
{
    if terms.len() == 0 {
        0
    } else {
        occurrences(text, terms.drop_last()) + if contains(text, terms.last()) {
            count_matches(text, terms.last())
        } else {
            0nat
        }
    }
}

/// What the keyword score of a content is computed from.
#[derive(Debug, Clone, Copy, PartialEq, Eq, Structural)]
pub struct KeywordCounts {
    /// Number of terms asked for.
    pub terms: usize,
    /// Number of terms that occur at least once.
    pub matches: usize,
    /// Occurrences of all the terms together.
    pub total_occurrences: u128,
}

/// Counts how many of the keywords occur in a content and how often they
/// occur all together, the content and the keywords taken as they are.
pub fn count_keywords(content: &str, keywords: &Vec<String>) -> (r: KeywordCounts)
    ensures
        r.terms == keywords@.len(),
        r.matches == matched_terms(content@, string_views(keywords@)),
        r.total_occurrences == occurrences(content@, string_views(keywords@)),
        r.matches <= r.terms,
{
    let text = chars_of(content);
    let ghost terms = string_views(keywords@);
    let size = text.len();
    let mut matches: usize = 0;
    let mut total: u128 = 0;
    let mut i: usize = 0;
    while i < keywords.len()
        invariant
            i <= keywords.len(),
            text@.len() == size,
            terms == string_views(keywords@),
            text@ == content@,
            matches <= i,
            matches == matched_terms(text@, terms.take(i as int)),
            total == occurrences(text@, terms.take(i as int)),
            total <= i * 0x1_0000_0000_0000_0000,
        decreases keywords.len() - i,
    {
        proof {
            assert(terms.take(i + 1).drop_last() =~= terms.take(i as int));
            assert(terms.take(i + 1).last() == keywords@[i as int]@);
        }
        let k = chars_of(keywords[i].as_str());
        if contains_exec(&text, &k) {
            matches += 1;
            let c = count_matches_exec(&text, &k);
            total = total + c;
        }
        i += 1;
    }
    assert(terms.take(keywords@.len() as int) =~= terms);
    KeywordCounts { terms: keywords.len(), matches, total_occurrences: total }
}

/// Counts, without regard to case, how many of the keywords occur in a
/// content and how often they occur all together.
pub fn keyword_counts(content: &str, keywords: &Vec<String>) -> (r: KeywordCounts)
    ensures
        r.terms == keywords@.len(),
        r.matches == matched_terms(lowercase(content@), lowered_all(string_views(keywords@))),
        r.total_occurrences == occurrences(
            lowercase(content@),
            lowered_all(string_views(keywords@)),
        ),
        r.matches <= r.terms,
{
    let low = content.to_lowercase();
    let lows = lower_all(keywords);
    assert(lows@.len() == string_views(lows@).len());
    count_keywords(low.as_str(), &lows)
}

/// For each term, in order: whether the text holds it, and whether it holds
/// it in a declaration.
pub open spec fn hits_in(terms: Seq<Seq<char>>, text: Seq<char>) -> Seq<(bool, bool)> {
    terms.map_values(|t: Seq<char>| (contains(text, t), declared_in(text, t)))
}

/// For each term of the query, in order: whether the content holds it, and
/// whether it holds it in a declaration; case is not regarded.
pub open spec fn hits_of(terms: Seq<Seq<char>>, content: Seq<char>) -> Seq<(bool, bool)> {
    hits_in(lowered_all(terms), lowercase(content))
}

/// Tells, for each term, whether a text holds it and whether it holds it in
/// a declaration, the terms and the text taken as they are.
pub fn find_hits(terms: &Vec<String>, text: &str) -> (r: Vec<(bool, bool)>)
    ensures
        r@ == hits_in(string_views(terms@), text@),
{
    let low = chars_of(text);
    let mut out: Vec<(bool, bool)> = Vec::new();
    let mut i: usize = 0;
    assert(out@ =~= hits_in(string_views(terms@).take(0), text@));
    while i < terms.len()
        invariant
            i <= terms.len(),
            low@ == text@,
            out@ == hits_in(string_views(terms@).take(i as int), text@),
        decreases terms.len() - i,
    {
        let t = chars_of(terms[i].as_str());
        let plain = contains_exec(&low, &t);
        let declared = declared_in_exec(&low, &t);
        out.push((plain, declared));
        proof {
            assert(string_views(terms@).take(i + 1) =~= string_views(terms@).take(i as int).push(
                terms@[i as int]@,
            ));
            assert(out@ =~= hits_in(string_views(terms@).take(i + 1), text@));
        }
        i += 1;
    }
    assert(string_views(terms@).take(terms@.len() as int) =~= string_views(terms@));
    out
}

/// Tells, for each term of a query, whether a content holds it and whether
/// it holds it in a declaration; case is not regarded.
pub fn term_hits(query: &str, content: &str) -> (r: Vec<(bool, bool)>)
    ensures
        r@ == hits_of(words(query@), content@),
{
    let terms = query_terms(query);
    let lows = lower_all(&terms);
    let low = content.to_lowercase();
    find_hits(&lows, low.as_str())
}

/// The tokens that a content is counted as: four for every three of its
/// whitespace-separated words.
pub open spec fn token_estimate(content: Seq<char>) -> nat {
    (words(content).len() * 4 / 3) as nat
}

/// The block of a chunk in a context.
pub open spec fn context_block(c: ChunkView) -> Seq<char> {
    "\n--- "@ + c.file_path + " (lines "@ + decimal(c.start_line) + seq!['-'] + decimal(c.end_line)
        + ") ---\n"@ + c.content + seq!['\n']
}

/// The context made of the chunks from number `from` on, when `used`
/// tokens are spent already: the blocks in order, up to the first chunk
/// that would bring the tokens above `max_tokens`.
pub open spec fn context_from(chunks: Seq<ChunkView>, from: int, used: nat, max_tokens: nat) -> Seq<
    char,
>
    decreases chunks.len() - from,
{
    if from < 0 || from >= chunks.len() {
        seq![]
    } else if used + token_estimate(chunks[from].content) > max_tokens {
        seq![]
    } else {
        context_block(chunks[from]) + context_from(
            chunks,
            from + 1,
            used + token_estimate(chunks[from].content),
            max_tokens,
        )
    }
}

/// Puts chunks together as context for a question, in order, within a
/// budget of tokens.
pub fn build_context(chunks: &Vec<CodeChunk>, max_tokens: usize) -> (r: String)
    ensures
        r@ == context_from(chunk_views(chunks@), 0, 0, max_tokens as nat),
{
    let ghost all = chunk_views(chunks@);
    let mut out: Vec<char> = Vec::new();
    let mut used: usize = 0;
    let mut i: usize = 0;
    assert(out@ + context_from(all, 0, 0, max_tokens as nat) =~= context_from(
        all,
        0,
        0,
        max_tokens as nat,
    ));
    while i < chunks.len()
        invariant
            i <= chunks.len(),
            all == chunk_views(chunks@),
            used <= max_tokens,
            out@ + context_from(all, i as int, used as nat, max_tokens as nat) == context_from(
                all,
                0,
                0,
                max_tokens as nat,
            ),
        decreases chunks.len() - i,
    {
        let chunk = &chunks[i];
        assert(all[i as int] == chunk@);
        let text = chars_of(chunk.content.as_str());
        let ws = words_exec(&text);
        let tokens: u128 = ws.len() as u128 * 4 / 3;
        assert(tokens == token_estimate(chunk@.content));
        if used as u128 + tokens > max_tokens as u128 {
            proof {
                assert(out@ =~= context_from(all, 0, 0, max_tokens as nat));
            }
            return string_of(&out);
        }
        let ghost before = out@;
        push_str(&mut out, "\n--- ");
        push_str(&mut out, chunk.file_path.as_str());
        push_str(&mut out, " (lines ");
        push_decimal(&mut out, chunk.start_line as u64);
        out.push('-');
        push_decimal(&mut out, chunk.end_line as u64);
        push_str(&mut out, ") ---\n");
        push_all(&mut out, &text);
        out.push('\n');
        proof {
            assert(out@ =~= before + context_block(chunk@));
            assert(out@ + context_from(
                all,
                i + 1,
                (used + tokens) as nat,
                max_tokens as nat,
            ) =~= context_from(all, 0, 0, max_tokens as nat));
        }
        used = (used as u128 + tokens) as usize;
        i += 1;
    }
    assert(out@ =~= context_from(all, 0, 0, max_tokens as nat));
    string_of(&out)
}

/// One entry of a merge of two result lists: a file and start line, with
/// the positions of the results that have them.
#[derive(Debug, Clone)]
pub struct MergeSlot {
    pub file_path: String,
    pub start_line: usize,
    /// Position of the last semantic result with this file and line.
    pub semantic: Option<usize>,
    /// Position of the last keyword result with this file and line.
    pub keyword: Option<usize>,
    /// Position of the first keyword result with this file and line.
    pub first_keyword: Option<usize>,
}

/// A merge entry as plain values.
pub struct SlotView {
    pub file_path: Seq<char>,
    pub start_line: nat,
    pub semantic: Option<nat>,
    pub keyword: Option<nat>,
    pub first_keyword: Option<nat>,
}

/// A position of the machine as a number.
pub open spec fn position(p: Option<usize>) -> Option<nat> {
    match p {
        Some(i) => Some(i as nat),
        None => None,
    }
}

impl View for MergeSlot {
    type V = SlotView;

    open spec fn view(&self) -> SlotView {
        SlotView {
            file_path: self.file_path@,
            start_line: self.start_line as nat,
            semantic: position(self.semantic),
            keyword: position(self.keyword),
            first_keyword: position(self.first_keyword),
        }
    }
}

/// The views of a sequence of merge entries.
pub open spec fn slot_views(slots: Seq<MergeSlot>) -> Seq<SlotView> {
    slots.map_values(|s: MergeSlot| s@)
}

/// Whether an entry is that of the given file and line.
pub open spec fn has_key(s: SlotView, file_path: Seq<char>, start_line: nat) -> bool {
    s.file_path == file_path && s.start_line == start_line
}

/// Position of the first entry, from `from` on, of the given file and line.
pub open spec fn slot_index_from(
    slots: Seq<SlotView>,
    file_path: Seq<char>,
    start_line: nat,
    from: int,
) -> Option<int>
    decreases slots.len() - from,
{
    if from < 0 || from >= slots.len() {
        None
    } else if has_key(slots[from], file_path, start_line) {
        Some(from)
    } else {
        slot_index_from(slots, file_path, start_line, from + 1)
    }
}

/// What `slot_index_from` finds lies within the entries and has the key;
/// where it finds nothing, no entry from `from` on has the key.
pub proof fn lemma_slot_index_from(
    slots: Seq<SlotView>,
    file_path: Seq<char>,
    start_line: nat,
    from: int,
)
    requires
        0 <= from,
    ensures
        match slot_index_from(slots, file_path, start_line, from) {
            Some(k) => from <= k < slots.len() && has_key(slots[k], file_path, start_line),
            None => forall|j: int|
                from <= j < slots.len() ==> !has_key(#[trigger] slots[j], file_path, start_line),
        },
    decreases slots.len() - from,
{
    if from < slots.len() && !has_key(slots[from], file_path, start_line) {
        lemma_slot_index_from(slots, file_path, start_line, from + 1);
    }
}

/// The entries after semantic result number `idx` was noted: its entry now
/// names it, or a new last entry does.
pub open spec fn note_semantic(slots: Seq<SlotView>, c: ChunkView, idx: nat) -> Seq<SlotView> {
    match slot_index_from(slots, c.file_path, c.start_line, 0) {
        Some(k) => slots.update(k, SlotView { semantic: Some(idx), ..slots[k] }),
        None => slots.push(
            SlotView {
                file_path: c.file_path,
                start_line: c.start_line,
                semantic: Some(idx),
                keyword: None,
                first_keyword: None,
            },
        ),
    }
}

/// The entries after keyword result number `idx` was noted.
pub open spec fn note_keyword(slots: Seq<SlotView>, c: ChunkView, idx: nat) -> Seq<SlotView> {
    match slot_index_from(slots, c.file_path, c.start_line, 0) {
        Some(k) => slots.update(
            k,
            SlotView {
                keyword: Some(idx),
                first_keyword: match slots[k].first_keyword {
                    Some(f) => Some(f),
                    None => Some(idx),
                },
                ..slots[k]
            },
        ),
        None => slots.push(
            SlotView {
                file_path: c.file_path,
                start_line: c.start_line,
                semantic: None,
                keyword: Some(idx),
                first_keyword: Some(idx),
            },
        ),
    }
}

/// The entries after all the semantic results were noted in order.
pub open spec fn semantic_pass(chunks: Seq<ChunkView>) -> Seq<SlotView>
    decreases chunks.len(),
{
    if chunks.len() == 0 {
        seq![]
    } else {
        note_semantic(
            semantic_pass(chunks.drop_last()),
            chunks.last(),
            (chunks.len() - 1) as nat,
        )
    }
}

/// The entries after the keyword results, too, were noted in order.
pub open spec fn keyword_pass(slots: Seq<SlotView>, chunks: Seq<ChunkView>) -> Seq<SlotView>
    decreases chunks.len(),
{
    if chunks.len() == 0 {
        slots
    } else {
        note_keyword(
            keyword_pass(slots, chunks.drop_last()),
            chunks.last(),
            (chunks.len() - 1) as nat,
        )
    }
}

/// The merge of two result lists: one entry for each file and line, in the
/// order in which they first occur, semantic results first.
pub open spec fn merged_slots(semantic: Seq<ChunkView>, keyword: Seq<ChunkView>) -> Seq<SlotView> {
    keyword_pass(semantic_pass(semantic), keyword)
}

/// No two entries have the same file and line.
pub open spec fn keys_distinct(slots: Seq<SlotView>) -> bool {
    forall|i: int, j: int|
        0 <= i < j < slots.len() ==> !has_key(
            #[trigger] slots[i],
            (#[trigger] slots[j]).file_path,
            slots[j].start_line,
        )
}

/// The semantic position that an entry names lies in the list, at a result
/// of the entry's file and line.
pub open spec fn semantic_positions_sound(slots: Seq<SlotView>, semantic: Seq<ChunkView>) -> bool {
    forall|i: int|
        0 <= i < slots.len() ==> match (#[trigger] slots[i]).semantic {
            Some(p) => p < semantic.len() && has_key(
                slots[i],
                semantic[p as int].file_path,
                semantic[p as int].start_line,
            ),
            None => true,
        }
}

/// The keyword positions that an entry names lie in the list, at results of
/// the entry's file and line; it names a first exactly where it names a last.
pub open spec fn keyword_positions_sound(slots: Seq<SlotView>, keyword: Seq<ChunkView>) -> bool {
    forall|i: int|
        0 <= i < slots.len() ==> match (#[trigger] slots[i]).keyword {
            Some(p) => p < keyword.len() && has_key(
                slots[i],
                keyword[p as int].file_path,
                keyword[p as int].start_line,
            ) && match slots[i].first_keyword {
                Some(f) => f < keyword.len() && has_key(
                    slots[i],
                    keyword[f as int].file_path,
                    keyword[f as int].start_line,
                ),
                None => false,
            },
            None => slots[i].first_keyword is None,
        }
}

/// Whether some entry names a semantic result of the given file and line.
pub open spec fn names_semantic(slots: Seq<SlotView>, file_path: Seq<char>, start_line: nat) -> bool {
    exists|i: int|
        0 <= i < slots.len() && has_key(#[trigger] slots[i], file_path, start_line)
            && slots[i].semantic is Some
}

/// Whether some entry names a keyword result of the given file and line.
pub open spec fn names_keyword(slots: Seq<SlotView>, file_path: Seq<char>, start_line: nat) -> bool {
    exists|i: int|
        0 <= i < slots.len() && has_key(#[trigger] slots[i], file_path, start_line)
            && slots[i].keyword is Some
}

/// Every semantic result has an entry that names a semantic result.
pub open spec fn covers_semantic(slots: Seq<SlotView>, semantic: Seq<ChunkView>) -> bool {
    forall|p: int|
        0 <= p < semantic.len() ==> names_semantic(
            slots,
            (#[trigger] semantic[p]).file_path,
            semantic[p].start_line,
        )
}

/// Every keyword result has an entry that names a keyword result.
pub open spec fn covers_keyword(slots: Seq<SlotView>, keyword: Seq<ChunkView>) -> bool {
    forall|p: int|
        0 <= p < keyword.len() ==> names_keyword(
            slots,
            (#[trigger] keyword[p]).file_path,
            keyword[p].start_line,
        )
}

/// What holds of the entries of a merge of `semantic` and `keyword`: no two
/// have the same file and line; a position that an entry names lies in its
/// list, at a result of the entry's file and line; and every result has an
/// entry that names a result of its list.
pub open spec fn slots_sound(
    slots: Seq<SlotView>,
    semantic: Seq<ChunkView>,
    keyword: Seq<ChunkView>,
) -> bool {
    &&& keys_distinct(slots)
    &&& semantic_positions_sound(slots, semantic)
    &&& keyword_positions_sound(slots, keyword)
    &&& covers_semantic(slots, semantic)
    &&& covers_keyword(slots, keyword)
}

proof fn lemma_note_keeps_keys(slots: Seq<SlotView>, c: ChunkView, idx: nat, semantic: bool)
    requires
        keys_distinct(slots),
    ensures
        ({
            let next = if semantic {
                note_semantic(slots, c, idx)
            } else {
                note_keyword(slots, c, idx)
            };
            &&& keys_distinct(next)
            &&& next.len() >= slots.len()
            &&& forall|i: int|
                0 <= i < slots.len() ==> (#[trigger] next[i]).file_path == slots[i].file_path
                    && next[i].start_line == slots[i].start_line
            &&& forall|i: int|
                0 <= i < slots.len() && slots[i].semantic is Some ==> (
                #[trigger] next[i]).semantic is Some
            &&& forall|i: int|
                0 <= i < slots.len() && slots[i].keyword is Some ==> (
                #[trigger] next[i]).keyword is Some
            &&& if semantic {
                names_semantic(next, c.file_path, c.start_line)
            } else {
                names_keyword(next, c.file_path, c.start_line)
            }
        }),
{
    let next = if semantic {
        note_semantic(slots, c, idx)
    } else {
        note_keyword(slots, c, idx)
    };
    lemma_slot_index_from(slots, c.file_path, c.start_line, 0);
    match slot_index_from(slots, c.file_path, c.start_line, 0) {
        Some(k) => {
            assert(has_key(next[k], c.file_path, c.start_line));
        },
        None => {
            assert(has_key(next[slots.len() as int], c.file_path, c.start_line));
        },
    }
    assert forall|i: int, j: int| 0 <= i < j < next.len() implies !has_key(
        #[trigger] next[i],
        (#[trigger] next[j]).file_path,
        next[j].start_line,
    ) by {
        assert(has_key(next[i], slots[i].file_path, slots[i].start_line));
        if j < slots.len() {
            assert(has_key(next[j], slots[j].file_path, slots[j].start_line));
            assert(!has_key(slots[i], slots[j].file_path, slots[j].start_line));
        } else {
            assert(!has_key(slots[i], c.file_path, c.start_line));
        }
    }
}

proof fn lemma_names_kept(
    slots: Seq<SlotView>,
    next: Seq<SlotView>,
    file_path: Seq<char>,
    start_line: nat,
)
    requires
        next.len() >= slots.len(),
        forall|i: int|
            0 <= i < slots.len() ==> (#[trigger] next[i]).file_path == slots[i].file_path
                && next[i].start_line == slots[i].start_line,
        forall|i: int|
            0 <= i < slots.len() && slots[i].semantic is Some ==> (
            #[trigger] next[i]).semantic is Some,
        forall|i: int|
            0 <= i < slots.len() && slots[i].keyword is Some ==> (
            #[trigger] next[i]).keyword is Some,
    ensures
        names_semantic(slots, file_path, start_line) ==> names_semantic(
            next,
            file_path,
            start_line,
        ),
        names_keyword(slots, file_path, start_line) ==> names_keyword(next, file_path, start_line),
{
    if names_semantic(slots, file_path, start_line) {
        let i = choose|i: int|
            0 <= i < slots.len() && has_key(#[trigger] slots[i], file_path, start_line)
                && slots[i].semantic is Some;
        assert(has_key(next[i], file_path, start_line) && next[i].semantic is Some);
    }
    if names_keyword(slots, file_path, start_line) {
        let i = choose|i: int|
            0 <= i < slots.len() && has_key(#[trigger] slots[i], file_path, start_line)
                && slots[i].keyword is Some;
        assert(has_key(next[i], file_path, start_line) && next[i].keyword is Some);
    }
}

proof fn lemma_note_semantic_sound(slots: Seq<SlotView>, semantic: Seq<ChunkView>)
    requires
        semantic.len() > 0,
        slots_sound(slots, semantic.drop_last(), seq![]),
    ensures
        slots_sound(
            note_semantic(slots, semantic.last(), (semantic.len() - 1) as nat),
            semantic,
            seq![],
        ),
{
    let c = semantic.last();
    let front = semantic.drop_last();
    let idx = (semantic.len() - 1) as nat;
    let next = note_semantic(slots, c, idx);
    lemma_slot_index_from(slots, c.file_path, c.start_line, 0);
    lemma_note_keeps_keys(slots, c, idx, true);
    assert forall|p: int| 0 <= p < semantic.len() implies names_semantic(
        next,
        (#[trigger] semantic[p]).file_path,
        semantic[p].start_line,
    ) by {
        if p < front.len() {
            assert(front[p] == semantic[p]);
            lemma_names_kept(slots, next, semantic[p].file_path, semantic[p].start_line);
        }
    }
    assert forall|i: int| 0 <= i < next.len() implies match (#[trigger] next[i]).semantic {
        Some(p) => p < semantic.len() && has_key(
            next[i],
            semantic[p as int].file_path,
            semantic[p as int].start_line,
        ),
        None => true,
    } by {
        if i < slots.len() && next[i] == slots[i] {
            match slots[i].semantic {
                Some(p) => {
                    assert(front[p as int] == semantic[p as int]);
                },
                None => {},
            }
        }
    }
    assert(keyword_positions_sound(next, seq![])) by {
        assert forall|i: int| 0 <= i < next.len() implies (#[trigger] next[i]).keyword is None
            && next[i].first_keyword is None by {
            if i < slots.len() {
                assert(slots[i].keyword is None);
            }
        }
    }
}

proof fn lemma_note_keyword_sound(
    slots: Seq<SlotView>,
    semantic: Seq<ChunkView>,
    keyword: Seq<ChunkView>,
)
    requires
        keyword.len() > 0,
        slots_sound(slots, semantic, keyword.drop_last()),
    ensures
        slots_sound(
            note_keyword(slots, keyword.last(), (keyword.len() - 1) as nat),
            semantic,
            keyword,
        ),
{
    let c = keyword.last();
    let front = keyword.drop_last();
    let idx = (keyword.len() - 1) as nat;
    let next = note_keyword(slots, c, idx);
    lemma_slot_index_from(slots, c.file_path, c.start_line, 0);
    lemma_note_keeps_keys(slots, c, idx, false);
    assert(covers_keyword(next, keyword)) by {
        assert forall|p: int| 0 <= p < keyword.len() implies names_keyword(
            next,
            (#[trigger] keyword[p]).file_path,
            keyword[p].start_line,
        ) by {
            if p < front.len() {
                assert(front[p] == keyword[p]);
                lemma_names_kept(slots, next, keyword[p].file_path, keyword[p].start_line);
            }
        }
    }
    assert(covers_semantic(next, semantic)) by {
        assert forall|p: int| 0 <= p < semantic.len() implies names_semantic(
            next,
            (#[trigger] semantic[p]).file_path,
            semantic[p].start_line,
        ) by {
            lemma_names_kept(slots, next, semantic[p].file_path, semantic[p].start_line);
        }
    }
    assert(keyword_positions_sound(next, keyword)) by {
        assert forall|i: int| 0 <= i < next.len() implies match (#[trigger] next[i]).keyword {
            Some(p) => p < keyword.len() && has_key(
                next[i],
                keyword[p as int].file_path,
                keyword[p as int].start_line,
            ) && match next[i].first_keyword {
                Some(f) => f < keyword.len() && has_key(
                    next[i],
                    keyword[f as int].file_path,
                    keyword[f as int].start_line,
                ),
                None => false,
            },
            None => next[i].first_keyword is None,
        } by {
            if i < slots.len() {
                match slots[i].keyword {
                    Some(p) => {
                        assert(front[p as int] == keyword[p as int]);
                        let f = slots[i].first_keyword->0;
                        assert(front[f as int] == keyword[f as int]);
                    },
                    None => {},
                }
            }
        }
    }
    assert(semantic_positions_sound(next, semantic)) by {
        assert forall|i: int| 0 <= i < next.len() implies match (#[trigger] next[i]).semantic {
            Some(p) => p < semantic.len() && has_key(
                next[i],
                semantic[p as int].file_path,
                semantic[p as int].start_line,
            ),
            None => true,
        } by {
            if i < slots.len() {
                assert(next[i].semantic == slots[i].semantic);
            }
        }
    }
}

proof fn lemma_semantic_pass_sound(semantic: Seq<ChunkView>)
    ensures
        slots_sound(semantic_pass(semantic), semantic, seq![]),
    decreases semantic.len(),
{
    if semantic.len() > 0 {
        lemma_semantic_pass_sound(semantic.drop_last());
        lemma_note_semantic_sound(semantic_pass(semantic.drop_last()), semantic);
    }
}

proof fn lemma_keyword_pass_sound(semantic: Seq<ChunkView>, keyword: Seq<ChunkView>)
    ensures
        slots_sound(keyword_pass(semantic_pass(semantic), keyword), semantic, keyword),
    decreases keyword.len(),
{
    if keyword.len() == 0 {
        lemma_semantic_pass_sound(semantic);
        assert(keyword =~= seq![]);
    } else {
        lemma_keyword_pass_sound(semantic, keyword.drop_last());
        lemma_note_keyword_sound(
            keyword_pass(semantic_pass(semantic), keyword.drop_last()),
            semantic,
            keyword,
        );
    }
}

/// Whether some entry names both a semantic and a keyword result of the
/// given file and line.
pub open spec fn names_both(slots: Seq<SlotView>, file_path: Seq<char>, start_line: nat) -> bool {
    exists|i: int|
        0 <= i < slots.len() && has_key(#[trigger] slots[i], file_path, start_line)
            && slots[i].semantic is Some && slots[i].keyword is Some
}

/// A merge has one entry for each file and line; each entry names results
/// of its own file and line; and a file and line found by both searches has
/// an entry that names a result of each.
pub proof fn lemma_merged_slots(semantic: Seq<ChunkView>, keyword: Seq<ChunkView>)
    ensures
        slots_sound(merged_slots(semantic, keyword), semantic, keyword),
        forall|p: int, q: int|
            0 <= p < semantic.len() && 0 <= q < keyword.len() && (#[trigger] semantic[p]).file_path
                == (#[trigger] keyword[q]).file_path && semantic[p].start_line
                == keyword[q].start_line ==> names_both(
                merged_slots(semantic, keyword),
                semantic[p].file_path,
                semantic[p].start_line,
            ),
{
    lemma_keyword_pass_sound(semantic, keyword);
    let slots = merged_slots(semantic, keyword);
    assert forall|p: int, q: int|
        0 <= p < semantic.len() && 0 <= q < keyword.len() && (#[trigger] semantic[p]).file_path
            == (#[trigger] keyword[q]).file_path && semantic[p].start_line
            == keyword[q].start_line implies names_both(
        slots,
        semantic[p].file_path,
        semantic[p].start_line,
    ) by {
        assert(names_semantic(slots, semantic[p].file_path, semantic[p].start_line));
        assert(names_keyword(slots, keyword[q].file_path, keyword[q].start_line));
        let i = choose|i: int|
            0 <= i < slots.len() && has_key(
                #[trigger] slots[i],
                semantic[p].file_path,
                semantic[p].start_line,
            ) && slots[i].semantic is Some;
        let j = choose|j: int|
            0 <= j < slots.len() && has_key(
                #[trigger] slots[j],
                keyword[q].file_path,
                keyword[q].start_line,
            ) && slots[j].keyword is Some;
        if i < j {
            assert(!has_key(slots[i], slots[j].file_path, slots[j].start_line));
        }
        if j < i {
            assert(!has_key(slots[j], slots[i].file_path, slots[i].start_line));
        }
    }
}

fn find_slot(slots: &Vec<MergeSlot>, file_path: &String, start_line: usize) -> (r: Option<usize>)
    ensures
        match r {
            Some(k) => slot_index_from(slot_views(slots@), file_path@, start_line as nat, 0)
                == Some(k as int) && k < slots.len(),
            None => slot_index_from(slot_views(slots@), file_path@, start_line as nat, 0) is None,
        },
{
    let mut i: usize = 0;
    let ghost all = slot_views(slots@);
    while i < slots.len()
        invariant
            i <= slots.len(),
            all == slot_views(slots@),
            slot_index_from(all, file_path@, start_line as nat, 0) == slot_index_from(
                all,
                file_path@,
                start_line as nat,
                i as int,
            ),
        decreases slots.len() - i,
    {
        assert(all[i as int] == slots@[i as int]@);
        if slots[i].start_line == start_line && slots[i].file_path == *file_path {
            return Some(i);
        }
        i += 1;
    }
    None
}

fn note(slots: &mut Vec<MergeSlot>, chunk: &CodeChunk, idx: usize, semantic: bool)
    ensures
        slot_views(final(slots)@) == if semantic {
            note_semantic(slot_views(old(slots)@), chunk@, idx as nat)
        } else {
            note_keyword(slot_views(old(slots)@), chunk@, idx as nat)
        },
{
    let ghost before = slots@;
    match find_slot(slots, &chunk.file_path, chunk.start_line) {
        Some(k) => {
            let entry = slots.remove(k);
            let MergeSlot { file_path, start_line, semantic: s, keyword: w, first_keyword: f } =
                entry;
            let updated = if semantic {
                MergeSlot { file_path, start_line, semantic: Some(idx), keyword: w, first_keyword: f }
            } else {
                MergeSlot {
                    file_path,
                    start_line,
                    semantic: s,
                    keyword: Some(idx),
                    first_keyword: match f {
                        Some(first) => Some(first),
                        None => Some(idx),
                    },
                }
            };
            slots.insert(k, updated);
            proof {
                assert(slots@ =~= before.update(k as int, updated));
                if semantic {
                    assert(slot_views(slots@) =~= note_semantic(
                        slot_views(before),
                        chunk@,
                        idx as nat,
                    ));
                } else {
                    assert(slot_views(slots@) =~= note_keyword(
                        slot_views(before),
                        chunk@,
                        idx as nat,
                    ));
                }
            }
        },
        None => {
            let added = if semantic {
                MergeSlot {
                    file_path: chunk.file_path.clone(),
                    start_line: chunk.start_line,
                    semantic: Some(idx),
                    keyword: None,
                    first_keyword: None,
                }
            } else {
                MergeSlot {
                    file_path: chunk.file_path.clone(),
                    start_line: chunk.start_line,
                    semantic: None,
                    keyword: Some(idx),
                    first_keyword: Some(idx),
                }
            };
            slots.push(added);
            proof {
                if semantic {
                    assert(slot_views(slots@) =~= note_semantic(
                        slot_views(before),
                        chunk@,
                        idx as nat,
                    ));
                } else {
                    assert(slot_views(slots@) =~= note_keyword(
                        slot_views(before),
                        chunk@,
                        idx as nat,
                    ));
                }
            }
        },
    }
}

/// Merges the results of the semantic and the keyword search by file and
/// start line: one entry for each, with the positions of its results.
pub fn merge_keys(semantic: &Vec<CodeChunk>, keyword: &Vec<CodeChunk>) -> (r: Vec<MergeSlot>)
    ensures
        slot_views(r@) == merged_slots(chunk_views(semantic@), chunk_views(keyword@)),
        slots_sound(slot_views(r@), chunk_views(semantic@), chunk_views(keyword@)),
{
    let ghost sem = chunk_views(semantic@);
    let ghost kw = chunk_views(keyword@);
    let mut slots: Vec<MergeSlot> = Vec::new();
    let mut i: usize = 0;
    assert(slot_views(slots@) =~= semantic_pass(sem.take(0)));
    while i < semantic.len()
        invariant
            i <= semantic.len(),
            sem == chunk_views(semantic@),
            slot_views(slots@) == semantic_pass(sem.take(i as int)),
        decreases semantic.len() - i,
    {
        proof {
            assert(sem.take(i + 1).drop_last() =~= sem.take(i as int));
            assert(sem.take(i + 1).last() == semantic@[i as int]@);
        }
        note(&mut slots, &semantic[i], i, true);
        i += 1;
    }
    assert(sem.take(semantic@.len() as int) =~= sem);
    let mut j: usize = 0;
    assert(kw.take(0) =~= Seq::<ChunkView>::empty());
    while j < keyword.len()
        invariant
            j <= keyword.len(),
            kw == chunk_views(keyword@),
            slot_views(slots@) == keyword_pass(semantic_pass(sem), kw.take(j as int)),
        decreases keyword.len() - j,
    {
        proof {
            assert(kw.take(j + 1).drop_last() =~= kw.take(j as int));
            assert(kw.take(j + 1).last() == keyword@[j as int]@);
        }
        note(&mut slots, &keyword[j], j, false);
        j += 1;
    }
    proof {
        assert(kw.take(keyword@.len() as int) =~= kw);
        lemma_merged_slots(sem, kw);
    }
    slots
}

} // verus!
