//! What the orchestrator does with an input: which work a command asks
//! for, and how the outcome of that work is reported.

use crate::number::{decimal, push_decimal};
use crate::split::{
    join, join_exec, lemma_texts_push, split_once, split_once_exec, texts, trim, trim_exec,
};
use crate::storage::codebase::CodebaseStats;
use crate::storage::memory::MemoryType;
use crate::sync::{ConnectionInfo, SyncResult};
use crate::text::{
    chars_of, find_from, find_from_exec, first_chars, first_chars_exec, is_text,
    lemma_find_from, push_all, push_str, slice_of, starts_with, starts_with_exec, string_of,
    string_views, strip_leading, strip_leading_exec, strip_trailing, strip_trailing_exec,
};
use vstd::prelude::*;

verus! {

/// What the orchestrator does next. `T` is the type of text.
#[derive(Debug, Clone, PartialEq, Eq)]
pub enum Action<T> {
    /// Answer at once with this text.
    Reply(T),
    /// Search the codebase for a query.
    Search(T),
    /// Find the definitions of a symbol.
    FindSymbol(T),
    /// Answer a question about the codebase.
    Ask(T),
    /// Explain code.
    Explain(T),
    /// Generate code from a description.
    Generate(T),
    /// Review code.
    Review(T),
    /// Write tests for code.
    WriteTests(T),
    /// Fix a bug: the code, then the description of the bug.
    FixBug(T, T),
    /// Refactor: the code, then the instructions.
    Refactor(T, T),
    /// Read the stored content of a file.
    ReadFile(T),
    /// Summarize a file.
    Summarize(T),
    /// Build embeddings for the indexed files.
    Embed,
    /// Report the statistics of the codebase.
    Stats,
    /// Report the recent memories.
    Memories,
    /// Index the project at a path.
    Index(T),
    /// Export the replicated memories.
    SyncExport,
    /// Merge the replicated memories of a file.
    SyncImport(T),
    /// Report the state of the replicated memories and of the sync service.
    SyncStatus,
    /// Pull the memories of a peer.
    SyncPull(T),
    /// Push the memories to a peer.
    SyncPush(T),
    /// Sync both ways with a peer.
    SyncLive(T),
    /// Forget the conversation.
    Clear,
    /// Hand the input to the chat.
    Chat(T),
}

/// An action with its texts as plain values.
pub open spec fn action_view(a: Action<String>) -> Action<Seq<char>> {
    match a {
        Action::Reply(t) => Action::Reply(t@),
        Action::Search(t) => Action::Search(t@),
        Action::FindSymbol(t) => Action::FindSymbol(t@),
        Action::Ask(t) => Action::Ask(t@),
        Action::Explain(t) => Action::Explain(t@),
        Action::Generate(t) => Action::Generate(t@),
        Action::Review(t) => Action::Review(t@),
        Action::WriteTests(t) => Action::WriteTests(t@),
        Action::FixBug(c, d) => Action::FixBug(c@, d@),
        Action::Refactor(c, i) => Action::Refactor(c@, i@),
        Action::ReadFile(t) => Action::ReadFile(t@),
        Action::Summarize(t) => Action::Summarize(t@),
        Action::Embed => Action::Embed,
        Action::Stats => Action::Stats,
        Action::Memories => Action::Memories,
        Action::Index(t) => Action::Index(t@),
        Action::SyncExport => Action::SyncExport,
        Action::SyncImport(t) => Action::SyncImport(t@),
        Action::SyncStatus => Action::SyncStatus,
        Action::SyncPull(t) => Action::SyncPull(t@),
        Action::SyncPush(t) => Action::SyncPush(t@),
        Action::SyncLive(t) => Action::SyncLive(t@),
        Action::Clear => Action::Clear,
        Action::Chat(t) => Action::Chat(t@),
    }
}

/// The name of a command: the input up to its first space.
pub open spec fn command_name(input: Seq<char>) -> Seq<char> {
    match split_once(input, seq![' ']) {
        Some((name, _)) => name,
        None => input,
    }
}

/// The arguments of a command: what follows the first space of the input,
/// without the whitespace around it.
pub open spec fn command_args(input: Seq<char>) -> Seq<char> {
    match split_once(input, seq![' ']) {
        Some((_, rest)) => trim(rest),
        None => seq![],
    }
}

/// The two parts of arguments `text ```code```": the text before the first
/// fence, and the code without its fences, each without the whitespace
/// around it. `None` where there is no fence.
pub open spec fn fenced(args: Seq<char>) -> Option<(Seq<char>, Seq<char>)> {
    match find_from(args, "```"@, 0) {
        Some(i) => Some(
            (
                trim(args.subrange(0, i)),
                trim(
                    strip_trailing(
                        strip_leading(args.subrange(i, args.len() as int), "```"@),
                        "```"@,
                    ),
                ),
            ),
        ),
        None => None,
    }
}

/// The reply to a command that needs an index where there is none, with
/// the hint how to make one.
pub open spec fn no_index_hint() -> Seq<char> {
    "No codebase indexed. Use /index <path> first."@
}

/// The reply to a command that needs an index where there is none.
pub open spec fn no_index() -> Seq<char> {
    "No codebase indexed."@
}

/// The reply to a command that is not known.
pub open spec fn unknown_reply(name: Seq<char>) -> Seq<char> {
    "Unknown command: "@ + name + ". Type /help for available commands."@
}

/// What a command with arguments asks for, or the usage where it has none.
pub open spec fn needs_args(
    args: Seq<char>,
    action: Action<Seq<char>>,
    usage: Seq<char>,
) -> Action<Seq<char>> {
    if args.len() == 0 {
        Action::Reply(usage)
    } else {
        action
    }
}

/// What a command that needs an index asks for, or the reply where there
/// is no index.
pub open spec fn needs_index(
    has_codebase: bool,
    action: Action<Seq<char>>,
    otherwise: Seq<char>,
) -> Action<Seq<char>> {
    if has_codebase {
        action
    } else {
        Action::Reply(otherwise)
    }
}

/// What a command asks for. `input` begins with `/` and has no whitespace
/// around it.
pub open spec fn command_action(has_codebase: bool, input: Seq<char>) -> Action<Seq<char>> {
    let name = command_name(input);
    let args = command_args(input);
    if name == "/search"@ || name == "/s"@ {
        needs_index(has_codebase, Action::Search(args), no_index_hint())
    } else if name == "/symbol"@ || name == "/sym"@ {
        needs_index(has_codebase, Action::FindSymbol(args), no_index_hint())
    } else if name == "/ask"@ || name == "/q"@ {
        needs_index(has_codebase, Action::Ask(args), no_index_hint())
    } else if name == "/explain"@ || name == "/e"@ {
        Action::Explain(args)
    } else if name == "/generate"@ || name == "/gen"@ || name == "/g"@ {
        Action::Generate(args)
    } else if name == "/review"@ || name == "/r"@ {
        Action::Review(args)
    } else if name == "/test"@ || name == "/t"@ {
        Action::WriteTests(args)
    } else if name == "/fix"@ {
        match fenced(args) {
            Some((description, code)) => Action::FixBug(code, description),
            None => Action::Reply("Usage: /fix <bug description> ```code```"@),
        }
    } else if name == "/refactor"@ || name == "/ref"@ {
        match fenced(args) {
            Some((instructions, code)) => Action::Refactor(code, instructions),
            None => Action::Reply("Usage: /refactor <instructions> ```code```"@),
        }
    } else if name == "/read"@ || name == "/cat"@ {
        needs_index(has_codebase, Action::ReadFile(args), no_index())
    } else if name == "/summarize"@ || name == "/sum"@ {
        needs_index(has_codebase, Action::Summarize(args), no_index())
    } else if name == "/embed"@ {
        needs_index(has_codebase, Action::Embed, no_index_hint())
    } else if name == "/stats"@ {
        Action::Stats
    } else if name == "/memory"@ || name == "/mem"@ {
        Action::Memories
    } else if name == "/index"@ {
        needs_args(args, Action::Index(args), "Usage: /index <path>"@)
    } else if name == "/sync-export"@ {
        Action::SyncExport
    } else if name == "/sync-import"@ {
        needs_args(
            args,
            Action::SyncImport(args),
            "Usage: /sync-import <path-to-automerge-file>"@,
        )
    } else if name == "/sync-status"@ {
        Action::SyncStatus
    } else if name == "/sync-pull"@ {
        needs_args(args, Action::SyncPull(args), "Usage: /sync-pull <host:port>"@)
    } else if name == "/sync-push"@ {
        needs_args(args, Action::SyncPush(args), "Usage: /sync-push <host:port>"@)
    } else if name == "/sync-live"@ {
        needs_args(args, Action::SyncLive(args), "Usage: /sync-live <host:port>"@)
    } else if name == "/clear"@ {
        Action::Clear
    } else if name == "/help"@ || name == "/h"@ {
        Action::Reply(help_text())
    } else {
        Action::Reply(unknown_reply(name))
    }
}

/// What an input asks for: a command where, without the whitespace around
/// it, it begins with `/`; else it goes to the chat.
pub open spec fn action_for(has_codebase: bool, input: Seq<char>) -> Action<Seq<char>> {
    let line = trim(input);
    if starts_with(line, seq!['/']) {
        command_action(has_codebase, line)
    } else {
        Action::Chat(line)
    }
}

/// The help.
pub open spec fn help_text() -> Seq<char> {
    "\nSovereign - Local-First Code Assistant\n\nCOMMANDS:\n  /search, /s <query>      Search codebase (uses embeddings if available)\n  /symbol, /sym <name>     Find symbol definitions\n  /ask, /q <question>      Ask about codebase\n  /read, /cat <file>       Read file content\n  /summarize, /sum <file>  Summarize a file\n  /embed                   Build embeddings for semantic search\n  /stats                   Show codebase statistics\n\n  /generate, /g <desc>     Generate code\n  /explain, /e <code>      Explain code\n  /review, /r <code>       Review code\n  /test, /t <code>         Generate tests\n  /fix <desc> ```code```   Fix a bug\n  /refactor <desc> ```code```  Refactor code\n\n  /memory, /mem            Show recent memories\n  /clear                   Clear conversation\n  /help, /h                Show this help\n\nSYNC (Local-First):\n  /sync-export             Export CRDT memories for sync\n  /sync-import <file>      Import and merge CRDT memories\n  /sync-status             Show CRDT and P2P sync status\n  /sync-pull <host:port>   Pull memories from a peer\n  /sync-push <host:port>   Push memories to a peer\n  /sync-live <host:port>   Bidirectional sync with a peer\n\nOr just type naturally to chat!\n"@
}

/// The help.
pub fn help() -> (r: &'static str)
    ensures
        r@ == help_text(),
{
    "\nSovereign - Local-First Code Assistant\n\nCOMMANDS:\n  /search, /s <query>      Search codebase (uses embeddings if available)\n  /symbol, /sym <name>     Find symbol definitions\n  /ask, /q <question>      Ask about codebase\n  /read, /cat <file>       Read file content\n  /summarize, /sum <file>  Summarize a file\n  /embed                   Build embeddings for semantic search\n  /stats                   Show codebase statistics\n\n  /generate, /g <desc>     Generate code\n  /explain, /e <code>      Explain code\n  /review, /r <code>       Review code\n  /test, /t <code>         Generate tests\n  /fix <desc> ```code```   Fix a bug\n  /refactor <desc> ```code```  Refactor code\n\n  /memory, /mem            Show recent memories\n  /clear                   Clear conversation\n  /help, /h                Show this help\n\nSYNC (Local-First):\n  /sync-export             Export CRDT memories for sync\n  /sync-import <file>      Import and merge CRDT memories\n  /sync-status             Show CRDT and P2P sync status\n  /sync-pull <host:port>   Pull memories from a peer\n  /sync-push <host:port>   Push memories to a peer\n  /sync-live <host:port>   Bidirectional sync with a peer\n\nOr just type naturally to chat!\n"
}

fn fenced_exec(args: &Vec<char>) -> (r: Option<(Vec<char>, Vec<char>)>)
    ensures
        match r {
            Some(p) => fenced(args@) == Some((p.0@, p.1@)),
            None => fenced(args@) is None,
        },
{
    let fence = chars_of("```");
    proof {
        lemma_find_from(args@, fence@, 0);
    }
    let n = args.len();
    match find_from_exec(args, &fence, 0) {
        Some(i) => {
            let before = slice_of(args, 0, i);
            let after = slice_of(args, i, n);
            let opened = strip_leading_exec(&after, &fence);
            let closed = strip_trailing_exec(&opened, &fence);
            Some((trim_exec(&before), trim_exec(&closed)))
        },
        None => None,
    }
}

fn reply(text: &str) -> (r: Action<String>)
    ensures
        action_view(r) == Action::<Seq<char>>::Reply(text@),
{
    Action::Reply(String::from_str(text))
}

fn command_action_exec(has_codebase: bool, input: &Vec<char>) -> (r: Action<String>)
    ensures
        action_view(r) == command_action(has_codebase, input@),
{
    let space: Vec<char> = vec![' '];
    assert(space@ =~= seq![' ']);
    let (name, args) = match split_once_exec(input, &space) {
        Some((name, rest)) => (name, trim_exec(&rest)),
        None => (slice_of(input, 0, input.len()), Vec::new()),
    };
    assert(input@.subrange(0, input@.len() as int) =~= input@);
    assert(name@ == command_name(input@));
    assert(args@ =~= command_args(input@));
    let text = string_of(&args);
    let empty = args.len() == 0;
    if is_text(&name, "/search") || is_text(&name, "/s") {
        if has_codebase {
            Action::Search(text)
        } else {
            reply("No codebase indexed. Use /index <path> first.")
        }
    } else if is_text(&name, "/symbol") || is_text(&name, "/sym") {
        if has_codebase {
            Action::FindSymbol(text)
        } else {
            reply("No codebase indexed. Use /index <path> first.")
        }
    } else if is_text(&name, "/ask") || is_text(&name, "/q") {
        if has_codebase {
            Action::Ask(text)
        } else {
            reply("No codebase indexed. Use /index <path> first.")
        }
    } else if is_text(&name, "/explain") || is_text(&name, "/e") {
        Action::Explain(text)
    } else if is_text(&name, "/generate") || is_text(&name, "/gen") || is_text(&name, "/g") {
        Action::Generate(text)
    } else if is_text(&name, "/review") || is_text(&name, "/r") {
        Action::Review(text)
    } else if is_text(&name, "/test") || is_text(&name, "/t") {
        Action::WriteTests(text)
    } else if is_text(&name, "/fix") {
        match fenced_exec(&args) {
            Some((description, code)) => Action::FixBug(string_of(&code), string_of(&description)),
            None => reply("Usage: /fix <bug description> ```code```"),
        }
    } else if is_text(&name, "/refactor") || is_text(&name, "/ref") {
        match fenced_exec(&args) {
            Some((instructions, code)) => Action::Refactor(
                string_of(&code),
                string_of(&instructions),
            ),
            None => reply("Usage: /refactor <instructions> ```code```"),
        }
    } else if is_text(&name, "/read") || is_text(&name, "/cat") {
        if has_codebase {
            Action::ReadFile(text)
        } else {
            reply("No codebase indexed.")
        }
    } else if is_text(&name, "/summarize") || is_text(&name, "/sum") {
        if has_codebase {
            Action::Summarize(text)
        } else {
            reply("No codebase indexed.")
        }
    } else if is_text(&name, "/embed") {
        if has_codebase {
            Action::Embed
        } else {
            reply("No codebase indexed. Use /index <path> first.")
        }
    } else if is_text(&name, "/stats") {
        Action::Stats
    } else if is_text(&name, "/memory") || is_text(&name, "/mem") {
        Action::Memories
    } else if is_text(&name, "/index") {
        if empty {
            reply("Usage: /index <path>")
        } else {
            Action::Index(text)
        }
    } else if is_text(&name, "/sync-export") {
        Action::SyncExport
    } else if is_text(&name, "/sync-import") {
        if empty {
            reply("Usage: /sync-import <path-to-automerge-file>")
        } else {
            Action::SyncImport(text)
        }
    } else if is_text(&name, "/sync-status") {
        Action::SyncStatus
    } else if is_text(&name, "/sync-pull") {
        if empty {
            reply("Usage: /sync-pull <host:port>")
        } else {
            Action::SyncPull(text)
        }
    } else if is_text(&name, "/sync-push") {
        if empty {
            reply("Usage: /sync-push <host:port>")
        } else {
            Action::SyncPush(text)
        }
    } else if is_text(&name, "/sync-live") {
        if empty {
            reply("Usage: /sync-live <host:port>")
        } else {
            Action::SyncLive(text)
        }
    } else if is_text(&name, "/clear") {
        Action::Clear
    } else if is_text(&name, "/help") || is_text(&name, "/h") {
        reply(help())
    } else {
        let mut out = chars_of("Unknown command: ");
        push_all(&mut out, &name);
        push_str(&mut out, ". Type /help for available commands.");
        assert(out@ =~= unknown_reply(name@));
        Action::Reply(string_of(&out))
    }
}

/// Decides what an input asks for, given whether a codebase is indexed.
pub fn process_command(has_codebase: bool, input: &str) -> (r: Action<String>)
    ensures
        action_view(r) == action_for(has_codebase, input@),
{
    let raw = chars_of(input);
    let line = trim_exec(&raw);
    let slash: Vec<char> = vec!['/'];
    assert(slash@ =~= seq!['/']);
    if starts_with_exec(&line, &slash) {
        command_action_exec(has_codebase, &line)
    } else {
        Action::Chat(string_of(&line))
    }
}

/// A file that a search found.
#[derive(Debug, Clone)]
pub struct SearchHit {
    pub path: String,
    pub language: String,
    pub symbols: Vec<String>,
}

/// A memory as it is listed: its kind and its content.
#[derive(Debug, Clone)]
pub struct MemoryLine {
    pub kind: MemoryType,
    pub content: String,
}

/// The symbols that hold a name, in order.
pub open spec fn holding(symbols: Seq<Seq<char>>, name: Seq<char>) -> Seq<Seq<char>>
    decreases symbols.len(),
{
    if symbols.len() == 0 {
        seq![]
    } else if crate::text::contains(symbols.last(), name) {
        holding(symbols.drop_last(), name).push(symbols.last())
    } else {
        holding(symbols.drop_last(), name)
    }
}

/// Keeps the symbols that hold a name.
pub fn symbols_holding(symbols: &Vec<String>, name: &str) -> (r: Vec<String>)
    ensures
        string_views(r@) == holding(string_views(symbols@), name@),
{
    let ghost all = string_views(symbols@);
    let wanted = chars_of(name);
    let mut out: Vec<String> = Vec::new();
    let mut i: usize = 0;
    assert(string_views(out@) =~= holding(all.take(0), name@));
    while i < symbols.len()
        invariant
            i <= symbols.len(),
            all == string_views(symbols@),
            wanted@ == name@,
            string_views(out@) == holding(all.take(i as int), name@),
        decreases symbols.len() - i,
    {
        proof {
            assert(all.take(i + 1).drop_last() =~= all.take(i as int));
            assert(all.take(i + 1).last() == symbols@[i as int]@);
        }
        let symbol = chars_of(symbols[i].as_str());
        if crate::text::contains_exec(&symbol, &wanted) {
            let ghost before = out@;
            let kept = symbols[i].clone();
            out.push(kept);
            assert(string_views(out@) =~= string_views(before).push(kept@));
        }
        i += 1;
    }
    assert(all.take(symbols@.len() as int) =~= all);
    out
}

/// The line of a file in the reply to a search.
pub open spec fn search_line(h: SearchHit) -> Seq<char> {
    "  "@ + h.path@ + " ("@ + h.language@ + seq![')']
}

/// The line of a file in the reply to a search for a symbol.
pub open spec fn symbol_line(h: SearchHit) -> Seq<char> {
    "  "@ + h.path@ + ": "@ + join(string_views(h.symbols@), ", "@)
}

/// The line of a memory: its kind, and the first 80 characters of its content.
pub open spec fn memory_line(m: MemoryLine) -> Seq<char> {
    "  ["@ + m.kind.name() + "] "@ + first_chars(m.content@, 80)
}

/// The reply to a search.
pub open spec fn search_text(hits: Seq<SearchHit>) -> Seq<char> {
    if hits.len() == 0 {
        "No results found."@
    } else {
        join(hits.map_values(|h: SearchHit| search_line(h)), seq!['\n'])
    }
}

/// The reply to a search for a symbol.
pub open spec fn symbol_text(hits: Seq<SearchHit>) -> Seq<char> {
    if hits.len() == 0 {
        "No symbols found."@
    } else {
        join(hits.map_values(|h: SearchHit| symbol_line(h)), seq!['\n'])
    }
}

/// The reply that lists memories.
pub open spec fn memory_text(memories: Seq<MemoryLine>) -> Seq<char> {
    if memories.len() == 0 {
        "No memories stored yet."@
    } else {
        join(memories.map_values(|m: MemoryLine| memory_line(m)), seq!['\n'])
    }
}

fn join_lines(lines: &Vec<Vec<char>>) -> (r: String)
    ensures
        r@ == join(texts(lines@), seq!['\n']),
{
    let newline: Vec<char> = vec!['\n'];
    assert(newline@ =~= seq!['\n']);
    assert(texts(lines@).subrange(0, lines@.len() as int) =~= texts(lines@));
    let joined = join_exec(lines, 0, lines.len(), &newline);
    string_of(&joined)
}

/// Writes the reply to a search.
pub fn search_reply(hits: &Vec<SearchHit>) -> (r: String)
    ensures
        r@ == search_text(hits@),
{
    if hits.len() == 0 {
        return String::from_str("No results found.");
    }
    let ghost all = hits@.map_values(|h: SearchHit| search_line(h));
    let mut lines: Vec<Vec<char>> = Vec::new();
    let mut i: usize = 0;
    assert(texts(lines@) =~= all.take(0));
    while i < hits.len()
        invariant
            i <= hits.len(),
            all == hits@.map_values(|h: SearchHit| search_line(h)),
            texts(lines@) == all.take(i as int),
        decreases hits.len() - i,
    {
        let mut line = chars_of("  ");
        push_str(&mut line, hits[i].path.as_str());
        push_str(&mut line, " (");
        push_str(&mut line, hits[i].language.as_str());
        line.push(')');
        let ghost before = lines@;
        lines.push(line);
        proof {
            lemma_texts_push(before, line);
            assert(line@ =~= search_line(hits@[i as int]));
            assert(all.take(i + 1) =~= all.take(i as int).push(all[i as int]));
        }
        i += 1;
    }
    assert(all.take(hits@.len() as int) =~= all);
    join_lines(&lines)
}

fn join_strings(items: &Vec<String>, sep: &str) -> (r: Vec<char>)
    ensures
        r@ == join(string_views(items@), sep@),
{
    let mut parts: Vec<Vec<char>> = Vec::new();
    let mut i: usize = 0;
    assert(texts(parts@) =~= string_views(items@).take(0));
    while i < items.len()
        invariant
            i <= items.len(),
            texts(parts@) == string_views(items@).take(i as int),
        decreases items.len() - i,
    {
        let part = chars_of(items[i].as_str());
        let ghost before = parts@;
        parts.push(part);
        proof {
            lemma_texts_push(before, part);
            assert(string_views(items@).take(i + 1) =~= string_views(items@).take(i as int).push(
                items@[i as int]@,
            ));
        }
        i += 1;
    }
    assert(string_views(items@).take(items@.len() as int) =~= string_views(items@));
    assert(texts(parts@).subrange(0, parts@.len() as int) =~= texts(parts@));
    let s = chars_of(sep);
    join_exec(&parts, 0, parts.len(), &s)
}

/// Writes the reply to a search for a symbol.
pub fn symbol_reply(hits: &Vec<SearchHit>) -> (r: String)
    ensures
        r@ == symbol_text(hits@),
{
    if hits.len() == 0 {
        return String::from_str("No symbols found.");
    }
    let ghost all = hits@.map_values(|h: SearchHit| symbol_line(h));
    let mut lines: Vec<Vec<char>> = Vec::new();
    let mut i: usize = 0;
    assert(texts(lines@) =~= all.take(0));
    while i < hits.len()
        invariant
            i <= hits.len(),
            all == hits@.map_values(|h: SearchHit| symbol_line(h)),
            texts(lines@) == all.take(i as int),
        decreases hits.len() - i,
    {
        let mut line = chars_of("  ");
        push_str(&mut line, hits[i].path.as_str());
        push_str(&mut line, ": ");
        let symbols = join_strings(&hits[i].symbols, ", ");
        push_all(&mut line, &symbols);
        let ghost before = lines@;
        lines.push(line);
        proof {
            lemma_texts_push(before, line);
            assert(line@ =~= symbol_line(hits@[i as int]));
            assert(all.take(i + 1) =~= all.take(i as int).push(all[i as int]));
        }
        i += 1;
    }
    assert(all.take(hits@.len() as int) =~= all);
    join_lines(&lines)
}

/// Writes the reply that lists memories.
pub fn memory_reply(memories: &Vec<MemoryLine>) -> (r: String)
    ensures
        r@ == memory_text(memories@),
{
    if memories.len() == 0 {
        return String::from_str("No memories stored yet.");
    }
    let ghost all = memories@.map_values(|m: MemoryLine| memory_line(m));
    let mut lines: Vec<Vec<char>> = Vec::new();
    let mut i: usize = 0;
    assert(texts(lines@) =~= all.take(0));
    while i < memories.len()
        invariant
            i <= memories.len(),
            all == memories@.map_values(|m: MemoryLine| memory_line(m)),
            texts(lines@) == all.take(i as int),
        decreases memories.len() - i,
    {
        let mut line = chars_of("  [");
        push_str(&mut line, memories[i].kind.as_str());
        push_str(&mut line, "] ");
        let content = chars_of(memories[i].content.as_str());
        let head = first_chars_exec(&content, 80);
        push_all(&mut line, &head);
        let ghost before = lines@;
        lines.push(line);
        proof {
            lemma_texts_push(before, line);
            assert(line@ =~= memory_line(memories@[i as int]));
            assert(all.take(i + 1) =~= all.take(i as int).push(all[i as int]));
        }
        i += 1;
    }
    assert(all.take(memories@.len() as int) =~= all);
    join_lines(&lines)
}

/// The reply to reading a file: its content, or that it was not found.
pub fn read_reply(path: &str, content: Option<String>) -> (r: String)
    ensures
        r@ == match content {
            Some(c) => c@,
            None => "File not found: "@ + path@,
        },
{
    match content {
        Some(c) => c,
        None => file_not_found_reply(path),
    }
}

/// The reply for a file that is not there.
pub fn file_not_found_reply(path: &str) -> (r: String)
    ensures
        r@ == "File not found: "@ + path@,
{
    let mut out = chars_of("File not found: ");
    push_str(&mut out, path);
    string_of(&out)
}

/// The reply after embeddings were built for `count` files.
pub fn embed_reply(count: usize) -> (r: String)
    ensures
        r@ == "Created embeddings for "@ + decimal(count as nat) + " files."@,
{
    let mut out = chars_of("Created embeddings for ");
    push_decimal(&mut out, count as u64);
    push_str(&mut out, " files.");
    string_of(&out)
}

/// The reply after `count` files were indexed.
pub fn index_reply(count: usize) -> (r: String)
    ensures
        r@ == "Indexed "@ + decimal(count as nat) + " files."@,
{
    let mut out = chars_of("Indexed ");
    push_decimal(&mut out, count as u64);
    push_str(&mut out, " files.");
    string_of(&out)
}

/// The lines of the languages in the statistics, one for each.
pub open spec fn language_lines(languages: Seq<(String, usize)>) -> Seq<char>
    decreases languages.len(),
{
    if languages.len() == 0 {
        seq![]
    } else {
        language_lines(languages.drop_last()) + "    "@ + languages.last().0@ + ": "@ + decimal(
            languages.last().1 as nat,
        ) + " files\n"@
    }
}

/// The statistics of a codebase as text.
pub open spec fn stats_text(stats: CodebaseStats) -> Seq<char> {
    "Codebase Statistics:\n  Files: "@ + decimal(stats.total_files as nat) + "\n  Lines: "@
        + decimal(stats.total_lines as nat) + "\n  Languages:\n"@ + language_lines(
        stats.languages@,
    ) + match stats.last_indexed {
        Some(t) => "  Last indexed: "@ + t@,
        None => seq![],
    }
}

/// Writes the reply to a request for statistics.
pub fn stats_reply(stats: &Option<CodebaseStats>) -> (r: String)
    ensures
        r@ == match *stats {
            Some(s) => stats_text(s),
            None => no_index(),
        },
{
    let s = match stats {
        Some(s) => s,
        None => {
            return String::from_str("No codebase indexed.");
        },
    };
    let mut out = chars_of("Codebase Statistics:\n  Files: ");
    push_decimal(&mut out, s.total_files as u64);
    push_str(&mut out, "\n  Lines: ");
    push_decimal(&mut out, s.total_lines as u64);
    push_str(&mut out, "\n  Languages:\n");
    let ghost head = out@;
    let mut i: usize = 0;
    assert(s.languages@.take(0) =~= Seq::<(String, usize)>::empty());
    assert(out@ =~= head + language_lines(s.languages@.take(0)));
    while i < s.languages.len()
        invariant
            i <= s.languages.len(),
            out@ == head + language_lines(s.languages@.take(i as int)),
        decreases s.languages.len() - i,
    {
        let ghost before = out@;
        push_str(&mut out, "    ");
        push_str(&mut out, s.languages[i].0.as_str());
        push_str(&mut out, ": ");
        push_decimal(&mut out, s.languages[i].1 as u64);
        push_str(&mut out, " files\n");
        proof {
            let next = s.languages@.take(i + 1);
            assert(next.drop_last() =~= s.languages@.take(i as int));
            assert(next.last() == s.languages@[i as int]);
            assert(out@ =~= head + language_lines(next));
        }
        i += 1;
    }
    assert(s.languages@.take(s.languages@.len() as int) =~= s.languages@);
    match &s.last_indexed {
        Some(t) => {
            push_str(&mut out, "  Last indexed: ");
            push_str(&mut out, t.as_str());
        },
        None => {},
    }
    assert(out@ =~= stats_text(*s));
    string_of(&out)
}

/// The reply after the replicated memories were exported to a file.
pub fn sync_export_reply(path: &str) -> (r: String)
    ensures
        r@ == "Exported CRDT memories to: "@ + path@,
{
    let mut out = chars_of("Exported CRDT memories to: ");
    push_str(&mut out, path);
    string_of(&out)
}

/// The reply after a file was merged into the replicated memories.
pub fn sync_import_reply(count: usize) -> (r: String)
    ensures
        r@ == "Merged successfully. Total memories: "@ + decimal(count as nat),
{
    let mut out = chars_of("Merged successfully. Total memories: ");
    push_decimal(&mut out, count as u64);
    string_of(&out)
}

/// The state of the replicated memories and of the sync service as text.
pub open spec fn sync_status_text(
    count: nat,
    heads: nat,
    data_dir: Seq<char>,
    info: ConnectionInfo,
) -> Seq<char> {
    "CRDT Memory Status:\n  Memories: "@ + decimal(count) + "\n  Document heads: "@ + decimal(
        heads,
    ) + "\n  Data dir: "@ + data_dir + "\n\nP2P Sync:\n  "@ + info.text()
}

/// Writes the reply to a request for the state of sync.
pub fn sync_status_reply(count: usize, heads: usize, data_dir: &str, info: &ConnectionInfo) -> (r:
    String)
    ensures
        r@ == sync_status_text(count as nat, heads as nat, data_dir@, *info),
{
    let mut out = chars_of("CRDT Memory Status:\n  Memories: ");
    push_decimal(&mut out, count as u64);
    push_str(&mut out, "\n  Document heads: ");
    push_decimal(&mut out, heads as u64);
    push_str(&mut out, "\n  Data dir: ");
    push_str(&mut out, data_dir);
    push_str(&mut out, "\n\nP2P Sync:\n  ");
    let text = info.to_string();
    push_str(&mut out, text.as_str());
    string_of(&out)
}

/// The reply after an exchange with a peer that failed: `what` is `Pull`,
/// `Push` or `Sync`.
pub fn sync_failed_reply(what: &str, error: &str) -> (r: String)
    ensures
        r@ == what@ + " failed: "@ + error@,
{
    let mut out = chars_of(what);
    push_str(&mut out, " failed: ");
    push_str(&mut out, error);
    string_of(&out)
}

/// The reply after a pull: that the peer's memories were merged, or that
/// the peer sent none.
pub fn pull_reply(result: &SyncResult, received_any: bool) -> (r: String)
    ensures
        r@ == if received_any {
            result.text() + "\nMerged into local CRDT."@
        } else {
            "Received empty data from peer."@
        },
{
    if received_any {
        let text = result.to_string();
        let mut out = chars_of(text.as_str());
        push_str(&mut out, "\nMerged into local CRDT.");
        string_of(&out)
    } else {
        String::from_str("Received empty data from peer.")
    }
}

/// The reply after a push.
pub fn push_reply(result: &SyncResult) -> (r: String)
    ensures
        r@ == result.text(),
{
    result.to_string()
}

/// The reply after a sync both ways: that it is complete, or that the
/// peer had nothing to merge.
pub fn live_reply(result: &SyncResult, received_any: bool) -> (r: String)
    ensures
        r@ == result.text() + if received_any {
            "\nBidirectional sync complete."@
        } else {
            "\nNo remote data to merge."@
        },
{
    let text = result.to_string();
    let mut out = chars_of(text.as_str());
    if received_any {
        push_str(&mut out, "\nBidirectional sync complete.");
    } else {
        push_str(&mut out, "\nNo remote data to merge.");
    }
    string_of(&out)
}

/// The reply after the conversation was forgotten.
pub fn clear_reply() -> (r: String)
    ensures
        r@ == "Conversation cleared."@,
{
    String::from_str("Conversation cleared.")
}

/// The line that tells the chat about a project after it was indexed.
pub open spec fn project_context_text(stats: CodebaseStats) -> Seq<char> {
    "Project: "@ + decimal(stats.total_files as nat) + " files, "@ + decimal(
        stats.total_lines as nat,
    ) + " lines of code. Languages: "@ + join(
        first_items(stats.languages@, 5).map_values(
            |l: (String, usize)| l.0@ + " ("@ + decimal(l.1 as nat) + seq![')'],
        ),
        ", "@,
    )
}

/// The first `n` items, or all of them where there are fewer.
pub open spec fn first_items<T>(xs: Seq<T>, n: nat) -> Seq<T> {
    if xs.len() <= n {
        xs
    } else {
        xs.take(n as int)
    }
}

/// Writes the line that tells the chat about a project: its files, its
/// lines, and its five first languages.
pub fn project_context(stats: &CodebaseStats) -> (r: String)
    ensures
        r@ == project_context_text(*stats),
{
    let count: usize = if stats.languages.len() <= 5 {
        stats.languages.len()
    } else {
        5
    };
    let ghost shown = first_items(stats.languages@, 5);
    assert(shown =~= stats.languages@.take(count as int));
    let ghost all = shown.map_values(
        |l: (String, usize)| l.0@ + " ("@ + decimal(l.1 as nat) + seq![')'],
    );
    let mut parts: Vec<Vec<char>> = Vec::new();
    let mut i: usize = 0;
    assert(texts(parts@) =~= all.take(0));
    while i < count
        invariant
            i <= count <= stats.languages.len(),
            shown == stats.languages@.take(count as int),
            all == shown.map_values(
                |l: (String, usize)| l.0@ + " ("@ + decimal(l.1 as nat) + seq![')'],
            ),
            texts(parts@) == all.take(i as int),
        decreases count - i,
    {
        let mut part = chars_of(stats.languages[i].0.as_str());
        push_str(&mut part, " (");
        push_decimal(&mut part, stats.languages[i].1 as u64);
        part.push(')');
        let ghost before = parts@;
        parts.push(part);
        proof {
            lemma_texts_push(before, part);
            assert(shown[i as int] == stats.languages@[i as int]);
            assert(part@ =~= all[i as int]);
            assert(all.take(i + 1) =~= all.take(i as int).push(all[i as int]));
        }
        i += 1;
    }
    assert(all.take(count as int) =~= all);
    assert(texts(parts@).subrange(0, parts@.len() as int) =~= texts(parts@));
    let sep = chars_of(", ");
    let joined = join_exec(&parts, 0, parts.len(), &sep);
    let mut out = chars_of("Project: ");
    push_decimal(&mut out, stats.total_files as u64);
    push_str(&mut out, " files, ");
    push_decimal(&mut out, stats.total_lines as u64);
    push_str(&mut out, " lines of code. Languages: ");
    push_all(&mut out, &joined);
    string_of(&out)
}

} // verus!
