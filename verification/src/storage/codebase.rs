//! The rows of the codebase index: language, content hash and symbols of a file.

use crate::paths::{extension, extension_of};
use crate::split::{
    identifier, identifier_after_space, identifier_after_space_exec, is_identifier_char,
    leading_identifier, leading_identifier_exec, lemma_run_end_props, lines, lines_exec, run_end,
    split, split_str, texts, trim, trim_exec, whitespace,
};
use crate::text::{
    chars_of, contains, contains_str, find_from, find_from_exec, is_text, lemma_find_from,
    lowercase, push_all, slice_of, starts_with, starts_with_str, string_of, string_views,
    text_of,
};
use vstd::prelude::*;
use vstd::utf8::encode_utf8;

verus! {

/// One row of the files table.
#[derive(Debug, Clone)]
pub struct IndexedFile {
    pub path: String,
    pub relative_path: String,
    pub language: String,
    pub size: u64,
    pub hash: String,
    pub summary: Option<String>,
    pub symbols: Vec<String>,
    /// Time of indexing, as RFC 3339 text.
    pub indexed_at: String,
}

/// Counts over the files table.
#[derive(Debug, Clone)]
pub struct CodebaseStats {
    pub total_files: usize,
    pub total_lines: usize,
    pub languages: Vec<(String, usize)>,
    /// Time of the latest indexing, as RFC 3339 text.
    pub last_indexed: Option<String>,
}

/// The language that a lowercase file extension stands for.
pub open spec fn language_of(ext: Seq<char>) -> Option<Seq<char>> {
    if ext == "rs"@ {
        Some("rust"@)
    } else if ext == "py"@ {
        Some("python"@)
    } else if ext == "js"@ || ext == "jsx"@ {
        Some("javascript"@)
    } else if ext == "ts"@ || ext == "tsx"@ {
        Some("typescript"@)
    } else if ext == "go"@ {
        Some("go"@)
    } else if ext == "java"@ {
        Some("java"@)
    } else if ext == "kt"@ {
        Some("kotlin"@)
    } else if ext == "c"@ || ext == "h"@ {
        Some("c"@)
    } else if ext == "cpp"@ || ext == "cc"@ || ext == "hpp"@ {
        Some("cpp"@)
    } else if ext == "cs"@ {
        Some("csharp"@)
    } else if ext == "rb"@ {
        Some("ruby"@)
    } else if ext == "php"@ {
        Some("php"@)
    } else if ext == "swift"@ {
        Some("swift"@)
    } else if ext == "scala"@ {
        Some("scala"@)
    } else if ext == "sh"@ || ext == "bash"@ {
        Some("shell"@)
    } else if ext == "sql"@ {
        Some("sql"@)
    } else if ext == "html"@ {
        Some("html"@)
    } else if ext == "css"@ {
        Some("css"@)
    } else if ext == "json"@ {
        Some("json"@)
    } else if ext == "yaml"@ || ext == "yml"@ {
        Some("yaml"@)
    } else if ext == "toml"@ {
        Some("toml"@)
    } else if ext == "md"@ {
        Some("markdown"@)
    } else {
        None
    }
}

/// The language of a file extension, whatever its case; `None` for an
/// extension that is not indexed.
pub fn language_for_extension(ext: &str) -> (r: Option<String>)
    ensures
        text_of(r) == language_of(lowercase(ext@)),
{
    let low = ext.to_lowercase();
    language_for_lowercase(low.as_str())
}

/// The language of a lowercase file extension; `None` for an extension
/// that is not indexed.
pub fn language_for_lowercase(ext: &str) -> (r: Option<String>)
    ensures
        text_of(r) == language_of(ext@),
{
    let e = chars_of(ext);
    let name: &str = if is_text(&e, "rs") {
        "rust"
    } else if is_text(&e, "py") {
        "python"
    } else if is_text(&e, "js") || is_text(&e, "jsx") {
        "javascript"
    } else if is_text(&e, "ts") || is_text(&e, "tsx") {
        "typescript"
    } else if is_text(&e, "go") {
        "go"
    } else if is_text(&e, "java") {
        "java"
    } else if is_text(&e, "kt") {
        "kotlin"
    } else if is_text(&e, "c") || is_text(&e, "h") {
        "c"
    } else if is_text(&e, "cpp") || is_text(&e, "cc") || is_text(&e, "hpp") {
        "cpp"
    } else if is_text(&e, "cs") {
        "csharp"
    } else if is_text(&e, "rb") {
        "ruby"
    } else if is_text(&e, "php") {
        "php"
    } else if is_text(&e, "swift") {
        "swift"
    } else if is_text(&e, "scala") {
        "scala"
    } else if is_text(&e, "sh") || is_text(&e, "bash") {
        "shell"
    } else if is_text(&e, "sql") {
        "sql"
    } else if is_text(&e, "html") {
        "html"
    } else if is_text(&e, "css") {
        "css"
    } else if is_text(&e, "json") {
        "json"
    } else if is_text(&e, "yaml") || is_text(&e, "yml") {
        "yaml"
    } else if is_text(&e, "toml") {
        "toml"
    } else if is_text(&e, "md") {
        "markdown"
    } else {
        return None;
    };
    Some(String::from_str(name))
}

/// The language of the file at a path, by the path's extension in
/// lowercase.
pub open spec fn language_at(path: Seq<char>) -> Option<Seq<char>> {
    match extension(path) {
        Some(ext) => language_of(lowercase(ext)),
        None => None,
    }
}

/// The language of the file at a path; `None` where the path has no
/// extension or the extension is not indexed.
pub fn detect_language(path: &str) -> (r: Option<String>)
    ensures
        text_of(r) == language_at(path@),
{
    match extension_of(path) {
        Some(ext) => language_for_extension(ext.as_str()),
        None => None,
    }
}

/// The SHA-256 digest of some bytes, as `sha2::Sha256` computes it.
pub uninterp spec fn sha256(data: Seq<u8>) -> Seq<u8>;

/// The lowercase hexadecimal digit of a value below 16.
pub open spec fn hex_digit(v: int) -> char {
    "0123456789abcdef"@[v]
}

/// Bytes in lowercase hexadecimal, two digits each.
pub open spec fn hex_lower(data: Seq<u8>) -> Seq<char>
    decreases data.len(),
{
    if data.len() == 0 {
        seq![]
    } else {
        hex_lower(data.drop_last()).push(hex_digit(data.last() as int / 16)).push(
            hex_digit(data.last() as int % 16),
        )
    }
}

/// The hash under which a content is stored: its SHA-256, in lowercase
/// hexadecimal.
pub open spec fn content_hash(content: Seq<char>) -> Seq<char> {
    hex_lower(sha256(encode_utf8(content)))
}

/// `sha2::Sha256::digest`: the result is the named digest of the bytes
/// given, which has 32 bytes.
#[verifier::external_body]
fn sha256_digest(data: &[u8]) -> (r: Vec<u8>)
    ensures
        r@ == sha256(data@),
        r@.len() == 32,
{
    <sha2::Sha256 as sha2::Digest>::digest(data).to_vec()
}

/// `hex::encode`: two lowercase hexadecimal digits for each byte, in order.
#[verifier::external_body]
fn hex_encode(data: &Vec<u8>) -> (r: String)
    ensures
        r@ == hex_lower(data@),
{
    hex::encode(data)
}

/// Whether `c` is a lowercase hexadecimal digit.
pub open spec fn is_hex_digit(c: char) -> bool {
    ('0' <= c && c <= '9') || ('a' <= c && c <= 'f')
}

/// Bytes in hexadecimal are two digits for each byte.
pub proof fn lemma_hex_lower(data: Seq<u8>)
    ensures
        hex_lower(data).len() == 2 * data.len(),
        forall|i: int| 0 <= i < hex_lower(data).len() ==> is_hex_digit(#[trigger] hex_lower(data)[i]),
    decreases data.len(),
{
    reveal_strlit("0123456789abcdef");
    if data.len() > 0 {
        lemma_hex_lower(data.drop_last());
        let hi = data.last() as int / 16;
        let lo = data.last() as int % 16;
        assert(is_hex_digit(hex_digit(hi)));
        assert(is_hex_digit(hex_digit(lo)));
    }
}

/// The hash under which a content is stored: 64 hexadecimal digits.
pub fn compute_hash(content: &str) -> (r: String)
    ensures
        r@ == content_hash(content@),
        r@.len() == 64,
        forall|i: int| 0 <= i < 64 ==> is_hex_digit(#[trigger] r@[i]),
{
    let digest = sha256_digest(content.as_bytes());
    proof {
        lemma_hex_lower(digest@);
    }
    hex_encode(&digest)
}

/// A text, unless it is empty.
pub open spec fn nonempty(s: Seq<char>) -> Option<Seq<char>> {
    if s.len() == 0 {
        None
    } else {
        Some(s)
    }
}

/// The identifier right behind the first `keyword` of the line.
pub open spec fn name_after_first(line: Seq<char>, keyword: Seq<char>) -> Option<Seq<char>> {
    let parts = split(line, keyword);
    if parts.len() < 2 {
        None
    } else {
        nonempty(leading_identifier(parts[1]))
    }
}

/// The identifier behind the last `keyword` of the line and the whitespace
/// after it.
pub open spec fn name_after_last(line: Seq<char>, keyword: Seq<char>) -> Option<Seq<char>> {
    nonempty(identifier_after_space(split(line, keyword).last()))
}

/// The identifier behind the first `keyword` found anywhere in the line and
/// the whitespace after it.
pub open spec fn name_behind(line: Seq<char>, keyword: Seq<char>) -> Option<Seq<char>> {
    match find_from(line, keyword, 0) {
        Some(i) => nonempty(
            identifier_after_space(line.subrange(i + keyword.len(), line.len() as int)),
        ),
        None => None,
    }
}

/// The name of the class or interface that a line declares.
pub open spec fn class_name(line: Seq<char>) -> Option<Seq<char>> {
    match name_behind(line, "class "@) {
        Some(n) => Some(n),
        None => name_behind(line, "interface "@),
    }
}

/// A symbol `kind:name`, where there is a name.
pub open spec fn tagged(kind: Seq<char>, name: Option<Seq<char>>) -> Option<Seq<char>> {
    match name {
        Some(n) => Some(kind + seq![':'] + n),
        None => None,
    }
}

/// The symbol that a line of Rust declares.
pub open spec fn rust_symbol(t: Seq<char>) -> Option<Seq<char>> {
    if starts_with(t, "fn "@) || starts_with(t, "pub fn "@) {
        tagged("fn"@, name_after_first(t, "fn "@))
    } else if starts_with(t, "struct "@) || starts_with(t, "pub struct "@) {
        tagged("struct"@, name_after_last(t, "struct "@))
    } else if starts_with(t, "enum "@) || starts_with(t, "pub enum "@) {
        tagged("enum"@, name_after_last(t, "enum "@))
    } else if starts_with(t, "impl "@) {
        tagged("impl"@, name_after_last(t, "impl "@))
    } else {
        None
    }
}

/// The symbol that a line of Python declares.
pub open spec fn python_symbol(t: Seq<char>) -> Option<Seq<char>> {
    if starts_with(t, "def "@) {
        tagged("def"@, name_after_first(t, "def "@))
    } else if starts_with(t, "class "@) {
        tagged("class"@, name_after_last(t, "class "@))
    } else {
        None
    }
}

/// The symbol that a line of JavaScript or TypeScript declares.
pub open spec fn script_symbol(t: Seq<char>) -> Option<Seq<char>> {
    if starts_with(t, "function "@) {
        tagged("function"@, name_after_first(t, "function "@))
    } else if starts_with(t, "class "@) {
        tagged("class"@, name_after_last(t, "class "@))
    } else if contains(t, "const "@) && contains(t, " = "@) {
        tagged("const"@, name_after_first(t, "const "@))
    } else {
        None
    }
}

/// The symbol that a line of Go declares.
pub open spec fn go_symbol(t: Seq<char>) -> Option<Seq<char>> {
    if starts_with(t, "func "@) {
        tagged("func"@, name_after_first(t, "func "@))
    } else if starts_with(t, "type "@) && contains(t, " struct"@) {
        tagged("struct"@, name_after_last(t, "type "@))
    } else {
        None
    }
}

/// The symbol that a line of Java or Kotlin declares.
pub open spec fn jvm_symbol(t: Seq<char>) -> Option<Seq<char>> {
    if (contains(t, "class "@) || contains(t, "interface "@)) && !starts_with(t, "//"@) {
        tagged("class"@, class_name(t))
    } else {
        None
    }
}

/// The symbol that a line declares in the given language, the line taken
/// without the whitespace around it. Other languages have no symbols.
pub open spec fn symbol_in(line: Seq<char>, language: Seq<char>) -> Option<Seq<char>> {
    let t = trim(line);
    if language == "rust"@ {
        rust_symbol(t)
    } else if language == "python"@ {
        python_symbol(t)
    } else if language == "javascript"@ || language == "typescript"@ {
        script_symbol(t)
    } else if language == "go"@ {
        go_symbol(t)
    } else if language == "java"@ || language == "kotlin"@ {
        jvm_symbol(t)
    } else {
        None
    }
}

/// The symbols that the lines declare, in order.
pub open spec fn symbols_in(ls: Seq<Seq<char>>, language: Seq<char>) -> Seq<Seq<char>>
    decreases ls.len(),
{
    if ls.len() == 0 {
        seq![]
    } else {
        match symbol_in(ls.last(), language) {
            Some(s) => symbols_in(ls.drop_last(), language).push(s),
            None => symbols_in(ls.drop_last(), language),
        }
    }
}

/// The symbols of a content in the given language, in order of appearance.
pub open spec fn symbols_of(content: Seq<char>, language: Seq<char>) -> Seq<Seq<char>> {
    symbols_in(lines(content), language)
}

/// Whether a text is a name: one or more identifier characters.
pub open spec fn is_name(n: Seq<char>) -> bool {
    n.len() > 0 && forall|i: int| 0 <= i < n.len() ==> is_identifier_char(#[trigger] n[i])
}

/// Whether a text is one of the kinds of symbols.
pub open spec fn is_kind(k: Seq<char>) -> bool {
    k == "fn"@ || k == "struct"@ || k == "enum"@ || k == "impl"@ || k == "def"@ || k == "class"@
        || k == "function"@ || k == "const"@ || k == "func"@
}

/// Whether a text is a symbol: a kind, a colon and a name.
pub open spec fn is_symbol(s: Seq<char>) -> bool {
    exists|k: Seq<char>, n: Seq<char>|
        #![trigger is_kind(k), is_name(n)]
        is_kind(k) && is_name(n) && s == k + seq![':'] + n
}

proof fn lemma_identifier_run(s: Seq<char>, a: int)
    requires
        0 <= a <= s.len(),
    ensures
        nonempty(s.subrange(a, run_end(s, a, identifier()))) is Some ==> is_name(
            s.subrange(a, run_end(s, a, identifier())),
        ),
{
    lemma_run_end_props(s, a, identifier());
    let n = s.subrange(a, run_end(s, a, identifier()));
    assert forall|i: int| 0 <= i < n.len() implies is_identifier_char(#[trigger] n[i]) by {
        assert(identifier()(s[a + i]));
    }
}

proof fn lemma_names(line: Seq<char>, keyword: Seq<char>)
    ensures
        name_after_first(line, keyword) is Some ==> is_name(name_after_first(line, keyword)->0),
        name_after_last(line, keyword) is Some ==> is_name(name_after_last(line, keyword)->0),
        name_behind(line, keyword) is Some ==> is_name(name_behind(line, keyword)->0),
{
    let parts = split(line, keyword);
    if parts.len() >= 2 {
        lemma_identifier_run(parts[1], 0);
    }
    let last = parts.last();
    lemma_run_end_props(last, 0, whitespace());
    lemma_identifier_run(last, run_end(last, 0, whitespace()));
    match find_from(line, keyword, 0) {
        Some(i) => {
            lemma_find_from(line, keyword, 0);
            let rest = line.subrange(i + keyword.len(), line.len() as int);
            lemma_run_end_props(rest, 0, whitespace());
            lemma_identifier_run(rest, run_end(rest, 0, whitespace()));
        },
        None => {},
    }
}

proof fn lemma_tagged(kind: Seq<char>, name: Option<Seq<char>>)
    requires
        is_kind(kind),
        name is Some ==> is_name(name->0),
    ensures
        tagged(kind, name) is Some ==> is_symbol(tagged(kind, name)->0),
{
    if name is Some {
        assert(is_kind(kind) && is_name(name->0));
    }
}

/// Every symbol that a line declares is a kind, a colon and a name.
pub proof fn lemma_symbol_in(line: Seq<char>, language: Seq<char>)
    ensures
        symbol_in(line, language) is Some ==> is_symbol(symbol_in(line, language)->0),
{
    let t = trim(line);
    lemma_names(t, "fn "@);
    lemma_names(t, "struct "@);
    lemma_names(t, "enum "@);
    lemma_names(t, "impl "@);
    lemma_names(t, "def "@);
    lemma_names(t, "class "@);
    lemma_names(t, "function "@);
    lemma_names(t, "const "@);
    lemma_names(t, "func "@);
    lemma_names(t, "type "@);
    lemma_names(t, "interface "@);
    lemma_tagged("fn"@, name_after_first(t, "fn "@));
    lemma_tagged("struct"@, name_after_last(t, "struct "@));
    lemma_tagged("enum"@, name_after_last(t, "enum "@));
    lemma_tagged("impl"@, name_after_last(t, "impl "@));
    lemma_tagged("def"@, name_after_first(t, "def "@));
    lemma_tagged("class"@, name_after_last(t, "class "@));
    lemma_tagged("function"@, name_after_first(t, "function "@));
    lemma_tagged("const"@, name_after_first(t, "const "@));
    lemma_tagged("func"@, name_after_first(t, "func "@));
    lemma_tagged("struct"@, name_after_last(t, "type "@));
    lemma_tagged("class"@, class_name(t));
}

/// Every symbol of a content is a kind, a colon and a name of one or more
/// ASCII letters, digits and underscores.
pub proof fn lemma_symbols_are_named(content: Seq<char>, language: Seq<char>)
    ensures
        forall|i: int|
            0 <= i < symbols_of(content, language).len() ==> is_symbol(
                #[trigger] symbols_of(content, language)[i],
            ),
{
    lemma_symbols_in_are_named(lines(content), language);
}

proof fn lemma_symbols_in_are_named(ls: Seq<Seq<char>>, language: Seq<char>)
    ensures
        forall|i: int|
            0 <= i < symbols_in(ls, language).len() ==> is_symbol(
                #[trigger] symbols_in(ls, language)[i],
            ),
    decreases ls.len(),
{
    if ls.len() > 0 {
        lemma_symbols_in_are_named(ls.drop_last(), language);
        lemma_symbol_in(ls.last(), language);
        let before = symbols_in(ls.drop_last(), language);
        assert forall|i: int| 0 <= i < symbols_in(ls, language).len() implies is_symbol(
            #[trigger] symbols_in(ls, language)[i],
        ) by {
            if i < before.len() {
                assert(symbols_in(ls, language)[i] == before[i]);
            }
        }
    }
}

fn nonempty_exec(s: Vec<char>) -> (r: Option<Vec<char>>)
    ensures
        match r {
            Some(v) => nonempty(s@) == Some(v@),
            None => nonempty(s@) is None,
        },
{
    if s.len() == 0 {
        None
    } else {
        Some(s)
    }
}

/// The identifier right behind the first `prefix` of the line.
pub fn extract_fn_name(line: &Vec<char>, prefix: &str) -> (r: Option<Vec<char>>)
    requires
        prefix@.len() > 0,
    ensures
        match r {
            Some(v) => name_after_first(line@, prefix@) == Some(v@),
            None => name_after_first(line@, prefix@) is None,
        },
{
    let parts = split_str(line, prefix);
    if parts.len() < 2 {
        return None;
    }
    assert(texts(parts@)[1] == parts@[1]@);
    nonempty_exec(leading_identifier_exec(&parts[1]))
}

/// The identifier behind the last `prefix` of the line and the whitespace
/// after it.
pub fn extract_after(line: &Vec<char>, prefix: &str) -> (r: Option<Vec<char>>)
    requires
        prefix@.len() > 0,
    ensures
        match r {
            Some(v) => name_after_last(line@, prefix@) == Some(v@),
            None => name_after_last(line@, prefix@) is None,
        },
{
    let parts = split_str(line, prefix);
    assert(texts(parts@).last() == parts@[parts@.len() - 1]@);
    nonempty_exec(identifier_after_space_exec(&parts[parts.len() - 1]))
}

/// The name behind the first `const ` of the line.
pub fn extract_const_name(line: &Vec<char>) -> (r: Option<Vec<char>>)
    ensures
        match r {
            Some(v) => name_after_first(line@, "const "@) == Some(v@),
            None => name_after_first(line@, "const "@) is None,
        },
{
    proof {
        reveal_strlit("const ");
    }
    extract_fn_name(line, "const ")
}

fn name_behind_exec(line: &Vec<char>, keyword: &str) -> (r: Option<Vec<char>>)
    ensures
        match r {
            Some(v) => name_behind(line@, keyword@) == Some(v@),
            None => name_behind(line@, keyword@) is None,
        },
{
    let k = chars_of(keyword);
    proof {
        lemma_find_from(line@, k@, 0);
    }
    let n = line.len();
    match find_from_exec(line, &k, 0) {
        Some(i) => {
            let after = slice_of(line, i + k.len(), n);
            nonempty_exec(identifier_after_space_exec(&after))
        },
        None => None,
    }
}

/// The name of the class or interface that a line declares.
pub fn extract_java_class(line: &Vec<char>) -> (r: Option<Vec<char>>)
    ensures
        match r {
            Some(v) => class_name(line@) == Some(v@),
            None => class_name(line@) is None,
        },
{
    match name_behind_exec(line, "class ") {
        Some(n) => Some(n),
        None => name_behind_exec(line, "interface "),
    }
}

fn tagged_exec(kind: &str, name: Option<Vec<char>>) -> (r: Option<Vec<char>>)
    ensures
        match r {
            Some(v) => tagged(
                kind@,
                match name {
                    Some(n) => Some(n@),
                    None => None,
                },
            ) == Some(v@),
            None => name is None,
        },
{
    match name {
        Some(n) => {
            let mut out = chars_of(kind);
            out.push(':');
            push_all(&mut out, &n);
            assert(out@ =~= kind@ + seq![':'] + n@);
            Some(out)
        },
        None => None,
    }
}

fn rust_symbol_exec(t: &Vec<char>) -> (r: Option<Vec<char>>)
    ensures
        match r {
            Some(v) => rust_symbol(t@) == Some(v@),
            None => rust_symbol(t@) is None,
        },
{
    proof {
        reveal_strlit("fn ");
        reveal_strlit("struct ");
        reveal_strlit("enum ");
        reveal_strlit("impl ");
    }
    if starts_with_str(t, "fn ") || starts_with_str(t, "pub fn ") {
        tagged_exec("fn", extract_fn_name(t, "fn "))
    } else if starts_with_str(t, "struct ") || starts_with_str(t, "pub struct ") {
        tagged_exec("struct", extract_after(t, "struct "))
    } else if starts_with_str(t, "enum ") || starts_with_str(t, "pub enum ") {
        tagged_exec("enum", extract_after(t, "enum "))
    } else if starts_with_str(t, "impl ") {
        tagged_exec("impl", extract_after(t, "impl "))
    } else {
        None
    }
}

fn python_symbol_exec(t: &Vec<char>) -> (r: Option<Vec<char>>)
    ensures
        match r {
            Some(v) => python_symbol(t@) == Some(v@),
            None => python_symbol(t@) is None,
        },
{
    proof {
        reveal_strlit("def ");
        reveal_strlit("class ");
    }
    if starts_with_str(t, "def ") {
        tagged_exec("def", extract_fn_name(t, "def "))
    } else if starts_with_str(t, "class ") {
        tagged_exec("class", extract_after(t, "class "))
    } else {
        None
    }
}

fn script_symbol_exec(t: &Vec<char>) -> (r: Option<Vec<char>>)
    ensures
        match r {
            Some(v) => script_symbol(t@) == Some(v@),
            None => script_symbol(t@) is None,
        },
{
    proof {
        reveal_strlit("function ");
        reveal_strlit("class ");
    }
    if starts_with_str(t, "function ") {
        tagged_exec("function", extract_fn_name(t, "function "))
    } else if starts_with_str(t, "class ") {
        tagged_exec("class", extract_after(t, "class "))
    } else if contains_str(t, "const ") && contains_str(t, " = ") {
        tagged_exec("const", extract_const_name(t))
    } else {
        None
    }
}

fn go_symbol_exec(t: &Vec<char>) -> (r: Option<Vec<char>>)
    ensures
        match r {
            Some(v) => go_symbol(t@) == Some(v@),
            None => go_symbol(t@) is None,
        },
{
    proof {
        reveal_strlit("func ");
        reveal_strlit("type ");
    }
    if starts_with_str(t, "func ") {
        tagged_exec("func", extract_fn_name(t, "func "))
    } else if starts_with_str(t, "type ") && contains_str(t, " struct") {
        tagged_exec("struct", extract_after(t, "type "))
    } else {
        None
    }
}

fn jvm_symbol_exec(t: &Vec<char>) -> (r: Option<Vec<char>>)
    ensures
        match r {
            Some(v) => jvm_symbol(t@) == Some(v@),
            None => jvm_symbol(t@) is None,
        },
{
    if (contains_str(t, "class ") || contains_str(t, "interface ")) && !starts_with_str(t, "//") {
        tagged_exec("class", extract_java_class(t))
    } else {
        None
    }
}

fn symbol_in_exec(line: &Vec<char>, language: &Vec<char>) -> (r: Option<Vec<char>>)
    ensures
        match r {
            Some(v) => symbol_in(line@, language@) == Some(v@),
            None => symbol_in(line@, language@) is None,
        },
{
    let t = trim_exec(line);
    if is_text(language, "rust") {
        rust_symbol_exec(&t)
    } else if is_text(language, "python") {
        python_symbol_exec(&t)
    } else if is_text(language, "javascript") || is_text(language, "typescript") {
        script_symbol_exec(&t)
    } else if is_text(language, "go") {
        go_symbol_exec(&t)
    } else if is_text(language, "java") || is_text(language, "kotlin") {
        jvm_symbol_exec(&t)
    } else {
        None
    }
}

/// Lists the symbols that a content declares, as `kind:name`, in order of
/// appearance.
pub fn extract_symbols(content: &str, language: &str) -> (r: Vec<String>)
    ensures
        string_views(r@) == symbols_of(content@, language@),
        forall|i: int| 0 <= i < r@.len() ==> is_symbol(#[trigger] r@[i]@),
{
    let text = chars_of(content);
    let lang = chars_of(language);
    let ls = lines_exec(&text);
    let ghost all = lines(content@);
    let mut out: Vec<String> = Vec::new();
    let mut i: usize = 0;
    assert(string_views(out@) =~= symbols_in(all.take(0), language@));
    while i < ls.len()
        invariant
            i <= ls.len(),
            all == texts(ls@),
            lang@ == language@,
            string_views(out@) == symbols_in(all.take(i as int), language@),
        decreases ls.len() - i,
    {
        proof {
            assert(all.take(i + 1).drop_last() =~= all.take(i as int));
            assert(all.take(i + 1).last() == ls@[i as int]@);
        }
        match symbol_in_exec(&ls[i], &lang) {
            Some(s) => {
                let ghost before = out@;
                let name = string_of(&s);
                out.push(name);
                assert(string_views(out@) =~= string_views(before).push(name@));
            },
            None => {},
        }
        i += 1;
    }
    assert(all.take(ls@.len() as int) =~= all);
    proof {
        lemma_symbols_are_named(content@, language@);
        let found = symbols_of(content@, language@);
        assert(string_views(out@) == found);
        assert forall|i: int| 0 <= i < out@.len() implies is_symbol(#[trigger] out@[i]@) by {
            assert(out@[i]@ == string_views(out@)[i]);
            assert(is_symbol(found[i]));
        }
    }
    out
}

/// Why a file gets no new row.
#[derive(Debug, Clone, Copy, PartialEq, Eq, Structural)]
pub enum IndexError {
    /// The stored hash is that of the content.
    Unchanged,
    /// The symbols could not be written as JSON.
    Encoding,
}

/// What is written for a file: its row, its content, and its symbols as JSON.
#[derive(Debug, Clone)]
pub struct IndexPlan {
    pub file: IndexedFile,
    pub content: String,
    pub symbols_json: String,
}

#[verifier::external_type_specification]
#[verifier::external_body]
pub struct ExJsonError(serde_json::Error);

/// The JSON text of a list of strings, as `serde_json::to_string` writes it.
pub uninterp spec fn json_of_strings(items: Seq<Seq<char>>) -> Seq<char>;

/// The list of strings that a JSON text holds, as `serde_json::from_str`
/// reads it; `None` where it reads none.
pub uninterp spec fn strings_of_json(text: Seq<char>) -> Option<Seq<Seq<char>>>;

/// `serde_json::to_string` on a list of strings: it succeeds, as writing
/// strings into memory has nothing that fails, and the result is the named
/// JSON text of the list.
#[verifier::external_body]
fn strings_to_json(items: &Vec<String>) -> (r: Result<String, serde_json::Error>)
    ensures
        r is Ok,
        r->Ok_0@ == json_of_strings(string_views(items@)),
{
    serde_json::to_string(items)
}

/// `serde_json::from_str` for a list of strings: it succeeds exactly where
/// the named reading of the text is a list, and then returns that list.
#[verifier::external_body]
fn json_to_strings(text: &str) -> (r: Result<Vec<String>, serde_json::Error>)
    ensures
        match r {
            Ok(v) => strings_of_json(text@) == Some(string_views(v@)),
            Err(_) => strings_of_json(text@) is None,
        },
{
    serde_json::from_str::<Vec<String>>(text)
}

/// Writes symbols as the JSON text that is stored with a row.
pub fn encode_symbols(symbols: &Vec<String>) -> (r: Option<String>)
    ensures
        r is Some,
        r->0@ == json_of_strings(string_views(symbols@)),
{
    match strings_to_json(symbols) {
        Ok(s) => Some(s),
        Err(_) => None,
    }
}

/// Reads the symbols stored with a row; a text that holds no list of
/// strings gives no symbols.
pub fn decode_symbols(text: &str) -> (r: Vec<String>)
    ensures
        string_views(r@) == match strings_of_json(text@) {
            Some(items) => items,
            None => Seq::<Seq<char>>::empty(),
        },
{
    match json_to_strings(text) {
        Ok(v) => v,
        Err(_) => {
            let v: Vec<String> = Vec::new();
            assert(string_views(v@) =~= Seq::<Seq<char>>::empty());
            v
        },
    }
}

/// The hash stored for a path, if any, as text.
pub open spec fn stored_hash(h: Option<&str>) -> Option<Seq<char>> {
    match h {
        Some(t) => Some(t@),
        None => None,
    }
}

/// Whether a file is left alone: the hash stored for its path is that of
/// its content.
pub open spec fn is_unchanged(stored: Option<Seq<char>>, content: Seq<char>) -> bool {
    stored == Some(content_hash(content))
}

/// Decides what is written for a file whose content was read, given the
/// hash stored for its path, if any, and the JSON text of its symbols, if
/// they could be encoded. A file whose stored hash is that of its content is
/// left alone; else the row holds the content's hash, size and symbols.
pub fn index_row(
    path: &str,
    relative_path: &str,
    language: &str,
    content: &str,
    existing_hash: Option<&str>,
    indexed_at: &str,
    encoded: Option<String>,
) -> (r: Result<IndexPlan, IndexError>)
    requires
        encoded is Some ==> encoded->0@ == json_of_strings(symbols_of(content@, language@)),
    ensures
        r == Err::<IndexPlan, IndexError>(IndexError::Unchanged) <==> is_unchanged(
            stored_hash(existing_hash),
            content@,
        ),
        r == Err::<IndexPlan, IndexError>(IndexError::Encoding) <==> (!is_unchanged(
            stored_hash(existing_hash),
            content@,
        ) && encoded is None),
        r is Ok <==> !is_unchanged(stored_hash(existing_hash), content@) && encoded is Some,
        r is Ok ==> {
            let plan = r->Ok_0;
            &&& plan.file.path@ == path@
            &&& plan.file.relative_path@ == relative_path@
            &&& plan.file.language@ == language@
            &&& plan.file.size == encode_utf8(content@).len()
            &&& plan.file.hash@ == content_hash(content@)
            &&& plan.file.summary is None
            &&& string_views(plan.file.symbols@) == symbols_of(content@, language@)
            &&& plan.file.indexed_at@ == indexed_at@
            &&& plan.content@ == content@
            &&& plan.symbols_json@ == json_of_strings(symbols_of(content@, language@))
        },
{
    let hash = compute_hash(content);
    let unchanged = match existing_hash {
        Some(h) => {
            let stored = chars_of(h);
            is_text(&stored, hash.as_str())
        },
        None => false,
    };
    if unchanged {
        return Err(IndexError::Unchanged);
    }
    let symbols_json = match encoded {
        Some(j) => j,
        None => {
            return Err(IndexError::Encoding);
        },
    };
    let symbols = extract_symbols(content, language);
    let size = content.as_bytes().len() as u64;
    Ok(
        IndexPlan {
            file: IndexedFile {
                path: String::from_str(path),
                relative_path: String::from_str(relative_path),
                language: String::from_str(language),
                size,
                hash,
                summary: None,
                symbols,
                indexed_at: String::from_str(indexed_at),
            },
            content: String::from_str(content),
            symbols_json,
        },
    )
}

/// Decides what is written for a file whose content was read. A file whose
/// stored hash is that of its content is left alone.
pub fn index_file(
    path: &str,
    relative_path: &str,
    language: &str,
    content: &str,
    existing_hash: Option<&str>,
    indexed_at: &str,
) -> (r: Result<IndexPlan, IndexError>)
    ensures
        r == Err::<IndexPlan, IndexError>(IndexError::Unchanged) <==> is_unchanged(
            stored_hash(existing_hash),
            content@,
        ),
        r is Ok <==> !is_unchanged(stored_hash(existing_hash), content@),
        r is Ok ==> {
            let plan = r->Ok_0;
            &&& plan.file.path@ == path@
            &&& plan.file.relative_path@ == relative_path@
            &&& plan.file.language@ == language@
            &&& plan.file.size == encode_utf8(content@).len()
            &&& plan.file.hash@ == content_hash(content@)
            &&& plan.file.summary is None
            &&& string_views(plan.file.symbols@) == symbols_of(content@, language@)
            &&& plan.file.indexed_at@ == indexed_at@
            &&& plan.content@ == content@
            &&& plan.symbols_json@ == json_of_strings(symbols_of(content@, language@))
        },
{
    let symbols = extract_symbols(content, language);
    let encoded = encode_symbols(&symbols);
    index_row(path, relative_path, language, content, existing_hash, indexed_at, encoded)
}

/// The hash stored for a path in a table of hashes.
pub open spec fn lookup(table: Map<Seq<char>, Seq<char>>, path: Seq<char>) -> Option<Seq<char>> {
    if table.contains_key(path) {
        Some(table[path])
    } else {
        None
    }
}

/// The hashes stored after a pass over files, each given by its path and
/// its content, and the number of rows that the pass wrote: a file whose
/// stored hash is that of its content is left alone; for any other, the hash
/// of its content is stored.
pub open spec fn index_pass(
    table: Map<Seq<char>, Seq<char>>,
    files: Seq<(Seq<char>, Seq<char>)>,
) -> (Map<Seq<char>, Seq<char>>, nat)
    decreases files.len(),
{
    if files.len() == 0 {
        (table, 0)
    } else {
        let before = index_pass(table, files.drop_last());
        let path = files.last().0;
        let content = files.last().1;
        if is_unchanged(lookup(before.0, path), content) {
            before
        } else {
            (before.0.insert(path, content_hash(content)), before.1 + 1)
        }
    }
}

/// Whether no path occurs twice among the files.
pub open spec fn paths_distinct(files: Seq<(Seq<char>, Seq<char>)>) -> bool {
    forall|i: int, j: int| 0 <= i < j < files.len() ==> files[i].0 != files[j].0
}

proof fn lemma_pass_stores_hashes(
    table: Map<Seq<char>, Seq<char>>,
    files: Seq<(Seq<char>, Seq<char>)>,
)
    requires
        paths_distinct(files),
    ensures
        forall|i: int|
            0 <= i < files.len() ==> is_unchanged(
                lookup(index_pass(table, files).0, (#[trigger] files[i]).0),
                files[i].1,
            ),
    decreases files.len(),
{
    if files.len() > 0 {
        let front = files.drop_last();
        assert forall|i: int, j: int| 0 <= i < j < front.len() implies front[i].0 != front[j].0 by {
            assert(front[i] == files[i] && front[j] == files[j]);
        }
        lemma_pass_stores_hashes(table, front);
        let before = index_pass(table, front);
        assert forall|i: int| 0 <= i < files.len() implies is_unchanged(
            lookup(index_pass(table, files).0, (#[trigger] files[i]).0),
            files[i].1,
        ) by {
            if i < front.len() {
                assert(front[i] == files[i]);
                assert(files[i].0 != files[files.len() - 1].0);
            }
        }
    }
}

proof fn lemma_pass_over_stored(
    table: Map<Seq<char>, Seq<char>>,
    files: Seq<(Seq<char>, Seq<char>)>,
)
    requires
        forall|i: int|
            0 <= i < files.len() ==> is_unchanged(
                lookup(table, (#[trigger] files[i]).0),
                files[i].1,
            ),
    ensures
        index_pass(table, files) == (table, 0nat),
    decreases files.len(),
{
    if files.len() > 0 {
        let front = files.drop_last();
        assert forall|i: int| 0 <= i < front.len() implies is_unchanged(
            lookup(table, (#[trigger] front[i]).0),
            front[i].1,
        ) by {
            assert(front[i] == files[i]);
        }
        lemma_pass_over_stored(table, front);
        assert(files.last() == files[files.len() - 1]);
    }
}

/// Indexing twice writes nothing the second time. After a pass over the
/// files of a directory, each path once, a second pass over the same files
/// writes no row and leaves the stored hashes, and with them the number of
/// files, as they are.
pub proof fn lemma_second_pass_writes_nothing(
    table: Map<Seq<char>, Seq<char>>,
    files: Seq<(Seq<char>, Seq<char>)>,
)
    requires
        paths_distinct(files),
    ensures
        index_pass(index_pass(table, files).0, files).1 == 0,
        index_pass(index_pass(table, files).0, files).0 == index_pass(table, files).0,
{
    lemma_pass_stores_hashes(table, files);
    lemma_pass_over_stored(index_pass(table, files).0, files);
}

/// The four little-endian bytes of a 32-bit pattern.
pub open spec fn le_bytes(v: u32) -> Seq<u8> {
    seq![
        (v % 256) as u8,
        ((v / 256) % 256) as u8,
        ((v / 65536) % 256) as u8,
        (v / 16777216) as u8,
    ]
}

/// The 32-bit pattern that four little-endian bytes hold.
pub open spec fn le_value(b: Seq<u8>) -> u32 {
    (b[0] as int + b[1] as int * 256 + b[2] as int * 65536 + b[3] as int * 16777216) as u32
}

/// An embedding as it is stored: the four little-endian bytes of each
/// component's bit pattern, in order.
pub open spec fn embedding_bytes(bits: Seq<u32>) -> Seq<u8>
    decreases bits.len(),
{
    if bits.len() == 0 {
        seq![]
    } else {
        embedding_bytes(bits.drop_last()) + le_bytes(bits.last())
    }
}

/// The embedding that stored bytes hold: one component for every four
/// bytes begun; a last group of fewer than four bytes holds zero.
pub open spec fn embedding_bits(bytes: Seq<u8>) -> Seq<u32>
    decreases bytes.len(),
{
    if bytes.len() == 0 {
        seq![]
    } else if bytes.len() < 4 {
        seq![0u32]
    } else {
        seq![le_value(bytes.subrange(0, 4))] + embedding_bits(bytes.subrange(4, bytes.len() as int))
    }
}

/// Four bytes hold the pattern they were made of.
pub proof fn lemma_le_round_trip(v: u32)
    ensures
        le_bytes(v).len() == 4,
        le_value(le_bytes(v)) == v,
{
}

/// An embedding is read back from its stored bytes.
pub proof fn lemma_embedding_round_trip(bits: Seq<u32>)
    ensures
        embedding_bytes(bits).len() == 4 * bits.len(),
        embedding_bits(embedding_bytes(bits)) == bits,
    decreases bits.len(),
{
    if bits.len() > 0 {
        lemma_embedding_round_trip(bits.drop_last());
        lemma_embedding_bits_append(embedding_bytes(bits.drop_last()), bits.last());
        assert(bits.drop_last().push(bits.last()) =~= bits);
    }
}

proof fn lemma_embedding_bits_append(bytes: Seq<u8>, v: u32)
    requires
        bytes.len() % 4 == 0,
    ensures
        embedding_bits(bytes + le_bytes(v)) == embedding_bits(bytes).push(v),
    decreases bytes.len(),
{
    let all = bytes + le_bytes(v);
    lemma_le_round_trip(v);
    if bytes.len() == 0 {
        assert(all =~= le_bytes(v));
        assert(all.subrange(0, 4) =~= le_bytes(v));
        assert(all.subrange(4, all.len() as int) =~= Seq::<u8>::empty());
        assert(embedding_bits(all.subrange(4, all.len() as int)) =~= Seq::<u32>::empty());
        assert(embedding_bits(all) =~= seq![v]);
    } else {
        let rest = bytes.subrange(4, bytes.len() as int);
        lemma_embedding_bits_append(rest, v);
        assert(all.subrange(0, 4) =~= bytes.subrange(0, 4));
        assert(all.subrange(4, all.len() as int) =~= rest + le_bytes(v));
        assert(embedding_bits(all) =~= embedding_bits(bytes).push(v));
    }
}

/// Writes an embedding, given by the bit patterns of its components, as
/// the bytes that are stored.
pub fn embedding_to_bytes(bits: &Vec<u32>) -> (r: Vec<u8>)
    ensures
        r@ == embedding_bytes(bits@),
{
    let mut out: Vec<u8> = Vec::new();
    let mut i: usize = 0;
    assert(bits@.take(0) =~= Seq::<u32>::empty());
    while i < bits.len()
        invariant
            i <= bits.len(),
            out@ == embedding_bytes(bits@.take(i as int)),
        decreases bits.len() - i,
    {
        let v = bits[i];
        proof {
            assert(bits@.take(i + 1).drop_last() =~= bits@.take(i as int));
            assert(bits@.take(i + 1).last() == v);
        }
        let ghost before = out@;
        out.push((v % 256) as u8);
        out.push(((v / 256) % 256) as u8);
        out.push(((v / 65536) % 256) as u8);
        out.push((v / 16777216) as u8);
        assert(out@ =~= before + le_bytes(v));
        i += 1;
    }
    assert(bits@.take(bits@.len() as int) =~= bits@);
    out
}

/// Reads the bit patterns of the components of an embedding from the bytes
/// that are stored.
pub fn embedding_from_bytes(bytes: &[u8]) -> (r: Vec<u32>)
    ensures
        r@ == embedding_bits(bytes@),
{
    let n = bytes.len();
    let mut out: Vec<u32> = Vec::new();
    let mut i: usize = 0;
    assert(bytes@.subrange(0, n as int) =~= bytes@);
    assert(out@ + embedding_bits(bytes@) =~= embedding_bits(bytes@));
    while i < n
        invariant
            i <= n == bytes@.len(),
            out@ + embedding_bits(bytes@.subrange(i as int, n as int)) == embedding_bits(bytes@),
        decreases n - i,
    {
        let ghost rest = bytes@.subrange(i as int, n as int);
        if n - i < 4 {
            out.push(0);
            assert(out@ =~= embedding_bits(bytes@));
            i = n;
            assert(bytes@.subrange(n as int, n as int) =~= Seq::<u8>::empty());
        } else {
            let v: u32 = bytes[i] as u32 + bytes[i + 1] as u32 * 256 + bytes[i + 2] as u32 * 65536
                + bytes[i + 3] as u32 * 16777216;
            proof {
                let head = rest.subrange(0, 4);
                assert(head[0] == bytes@[i as int] && head[1] == bytes@[i + 1] && head[2]
                    == bytes@[i + 2] && head[3] == bytes@[i + 3]);
                assert(rest.subrange(4, rest.len() as int) =~= bytes@.subrange(i + 4, n as int));
            }
            out.push(v);
            proof {
                assert(out@ + embedding_bits(bytes@.subrange(i + 4, n as int)) =~= embedding_bits(
                    bytes@,
                ));
            }
            i += 4;
        }
    }
    assert(bytes@.subrange(n as int, n as int) =~= Seq::<u8>::empty());
    assert(out@ =~= embedding_bits(bytes@));
    out
}

} // verus!
