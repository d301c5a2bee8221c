//! Watching for changes: which paths count, how a burst of changes becomes
//! one request to index, and which directory that request names.

use crate::paths::{
    ancestors_of, extension, extension_of, file_name, file_name_of, join_path, joined,
    lemma_parent_shorter, normal_components, normal_components_of, parent_of,
};
use crate::seqs::distinct;
use crate::text::{
    chars_of, is_text, lowercase, push_str, starts_with, string_of, string_views, text_of,
};
use vstd::prelude::*;

verus! {

/// Milliseconds of quiet after which pending changes are indexed.
pub const DEBOUNCE_MS: u64 = 500;

/// Whether a file name is hidden: it begins with a dot.
pub open spec fn is_hidden(name: Seq<char>) -> bool {
    starts_with(name, seq!['.'])
}

/// Whether a directory of this name is never indexed.
pub open spec fn is_skipped_dir(name: Seq<char>) -> bool {
    name == "node_modules"@ || name == "target"@ || name == "build"@ || name == "dist"@ || name
        == ".git"@ || name == "__pycache__"@ || name == "venv"@ || name == ".venv"@
}

/// Whether files of this lowercase extension are watched.
pub open spec fn is_watched_extension(ext: Seq<char>) -> bool {
    ext == "rs"@ || ext == "py"@ || ext == "js"@ || ext == "ts"@ || ext == "jsx"@ || ext == "tsx"@
        || ext == "java"@ || ext == "kt"@ || ext == "go"@ || ext == "c"@ || ext == "cpp"@ || ext
        == "cc"@ || ext == "h"@ || ext == "hpp"@ || ext == "rb"@ || ext == "php"@ || ext == "swift"@ || ext
        == "scala"@ || ext == "cs"@ || ext == "fs"@ || ext == "clj"@ || ext == "ex"@ || ext
        == "exs"@ || ext == "erl"@ || ext == "hs"@ || ext == "ml"@ || ext == "lua"@ || ext == "r"@
        || ext == "jl"@ || ext == "dart"@ || ext == "vue"@ || ext == "svelte"@ || ext == "html"@
        || ext == "css"@ || ext == "scss"@ || ext == "sql"@ || ext == "sh"@ || ext == "bash"@
        || ext == "zsh"@ || ext == "yaml"@ || ext == "yml"@ || ext == "toml"@ || ext == "json"@
        || ext == "xml"@ || ext == "md"@ || ext == "txt"@
}

/// Whether a path counts as a change to index, from its parts: its file
/// name is not hidden, none of its components is a skipped directory, and
/// it has an extension that, in lowercase, is watched.
pub open spec fn admitted(
    file_name: Option<Seq<char>>,
    components: Seq<Seq<char>>,
    lowercase_extension: Option<Seq<char>>,
) -> bool {
    &&& !(file_name is Some && is_hidden(file_name->0))
    &&& forall|i: int| 0 <= i < components.len() ==> !is_skipped_dir(#[trigger] components[i])
    &&& lowercase_extension is Some && is_watched_extension(lowercase_extension->0)
}

/// The lowercase form of a text that may be absent.
pub open spec fn lowered(s: Option<Seq<char>>) -> Option<Seq<char>> {
    match s {
        Some(t) => Some(lowercase(t)),
        None => None,
    }
}

/// Whether a path counts as a change to index.
pub open spec fn counts(path: Seq<char>) -> bool {
    admitted(file_name(path), normal_components(path), lowered(extension(path)))
}

/// Tells whether a directory of this name is never indexed.
pub fn is_skipped_directory(name: &str) -> (r: bool)
    ensures
        r == is_skipped_dir(name@),
{
    let n = chars_of(name);
    is_skipped_dir_exec(&n)
}

/// Every extension that is indexed is watched: a file that the index takes
/// counts as a change to index, unless it is hidden or lies in a skipped
/// directory.
pub proof fn lemma_indexed_is_watched(ext: Seq<char>)
    requires
        crate::storage::codebase::language_of(ext) is Some,
    ensures
        is_watched_extension(ext),
{
}

fn is_skipped_dir_exec(name: &Vec<char>) -> (r: bool)
    ensures
        r == is_skipped_dir(name@),
{
    is_text(name, "node_modules") || is_text(name, "target") || is_text(name, "build") || is_text(
        name,
        "dist",
    ) || is_text(name, ".git") || is_text(name, "__pycache__") || is_text(name, "venv") || is_text(
        name,
        ".venv",
    )
}

fn is_watched_extension_exec(e: &Vec<char>) -> (r: bool)
    ensures
        r == is_watched_extension(e@),
{
    is_text(e, "rs") || is_text(e, "py") || is_text(e, "js") || is_text(e, "ts") || is_text(
        e,
        "jsx",
    ) || is_text(e, "tsx") || is_text(e, "java") || is_text(e, "kt") || is_text(e, "go")
        || is_text(e, "c") || is_text(e, "cpp") || is_text(e, "cc") || is_text(e, "h") || is_text(e, "hpp") || is_text(
        e,
        "rb",
    ) || is_text(e, "php") || is_text(e, "swift") || is_text(e, "scala") || is_text(e, "cs")
        || is_text(e, "fs") || is_text(e, "clj") || is_text(e, "ex") || is_text(e, "exs")
        || is_text(e, "erl") || is_text(e, "hs") || is_text(e, "ml") || is_text(e, "lua")
        || is_text(e, "r") || is_text(e, "jl") || is_text(e, "dart") || is_text(e, "vue")
        || is_text(e, "svelte") || is_text(e, "html") || is_text(e, "css") || is_text(e, "scss")
        || is_text(e, "sql") || is_text(e, "sh") || is_text(e, "bash") || is_text(e, "zsh")
        || is_text(e, "yaml") || is_text(e, "yml") || is_text(e, "toml") || is_text(e, "json")
        || is_text(e, "xml") || is_text(e, "md") || is_text(e, "txt")
}

/// Decides from the parts of a path whether it counts as a change to
/// index: its file name, its components, and its extension in lowercase.
pub fn admits(
    file_name: &Option<String>,
    components: &Vec<String>,
    lowercase_extension: &Option<String>,
) -> (r: bool)
    ensures
        r == admitted(
            text_of(*file_name),
            string_views(components@),
            text_of(*lowercase_extension),
        ),
{
    match file_name {
        Some(name) => {
            let n = chars_of(name.as_str());
            let dot: Vec<char> = vec!['.'];
            assert(dot@ =~= seq!['.']);
            if crate::text::starts_with_exec(&n, &dot) {
                return false;
            }
        },
        None => {},
    }
    let mut i: usize = 0;
    while i < components.len()
        invariant
            i <= components.len(),
            forall|j: int| 0 <= j < i ==> !is_skipped_dir(#[trigger] string_views(components@)[j]),
        decreases components.len() - i,
    {
        let c = chars_of(components[i].as_str());
        if is_skipped_dir_exec(&c) {
            assert(is_skipped_dir(string_views(components@)[i as int]));
            return false;
        }
        i += 1;
    }
    match lowercase_extension {
        Some(ext) => {
            let e = chars_of(ext.as_str());
            is_watched_extension_exec(&e)
        },
        None => false,
    }
}

/// Tells whether a path counts as a change to index.
pub fn should_index(path: &str) -> (r: bool)
    ensures
        r == counts(path@),
{
    let file_name = file_name_of(path);
    let components = normal_components_of(path);
    let extension = match extension_of(path) {
        Some(e) => Some(e.as_str().to_lowercase()),
        None => None,
    };
    admits(&file_name, &components, &extension)
}

/// Decides for single files whether they are indexed.
pub struct IncrementalIndexer;

impl IncrementalIndexer {
    /// Tells whether a path counts as a change to index.
    pub fn should_index(path: &str) -> (r: bool)
        ensures
            r == counts(path@),
    {
        self::should_index(path)
    }
}

/// The changes that wait to be indexed, and the time of the last change.
pub struct Coalescer {
    /// The paths that wait, each once, in the order in which they came.
    pub pending: Vec<String>,
    /// Time of the last change event, in milliseconds.
    pub last_event: u64,
}

/// A coalescer as plain values.
pub struct CoalescerView {
    pub pending: Seq<Seq<char>>,
    pub last_event: nat,
}

impl View for Coalescer {
    type V = CoalescerView;

    open spec fn view(&self) -> CoalescerView {
        CoalescerView { pending: string_views(self.pending@), last_event: self.last_event as nat }
    }
}

/// The paths that count as changes to index, in order.
pub open spec fn counting(paths: Seq<Seq<char>>) -> Seq<Seq<char>>
    decreases paths.len(),
{
    if paths.len() == 0 {
        seq![]
    } else if counts(paths.last()) {
        counting(paths.drop_last()).push(paths.last())
    } else {
        counting(paths.drop_last())
    }
}

/// The state after a change event at time `now` that names the admitted
/// `paths`: they wait too, each path once.
pub open spec fn after_change(s: CoalescerView, paths: Seq<Seq<char>>, now: nat) -> CoalescerView {
    CoalescerView { pending: distinct(s.pending + paths), last_event: now }
}

/// Whether a tick of the timer at time `now` finds changes to index: some
/// wait, and the last change is at least the debounce time ago.
pub open spec fn is_due(s: CoalescerView, now: nat) -> bool {
    s.pending.len() > 0 && now >= s.last_event + DEBOUNCE_MS
}

/// The state after a tick of the timer at time `now`: where changes are
/// due, none waits any more.
pub open spec fn after_tick(s: CoalescerView, now: nat) -> CoalescerView {
    if is_due(s, now) {
        CoalescerView { pending: seq![], ..s }
    } else {
        s
    }
}

/// The path whose project is indexed on a tick at time `now`: the first
/// that waits, where changes are due.
pub open spec fn dispatched(s: CoalescerView, now: nat) -> Option<Seq<char>> {
    if is_due(s, now) {
        Some(s.pending[0])
    } else {
        None
    }
}

fn waits(pending: &Vec<String>, path: &String) -> (r: bool)
    ensures
        r == string_views(pending@).contains(path@),
{
    let mut i: usize = 0;
    while i < pending.len()
        invariant
            i <= pending.len(),
            forall|j: int| 0 <= j < i ==> string_views(pending@)[j] != path@,
        decreases pending.len() - i,
    {
        if pending[i] == *path {
            assert(string_views(pending@)[i as int] == path@);
            return true;
        }
        i += 1;
    }
    false
}

proof fn lemma_distinct_push(xs: Seq<Seq<char>>, x: Seq<char>)
    ensures
        distinct(xs.push(x)) == if distinct(xs).contains(x) {
            distinct(xs)
        } else {
            distinct(xs).push(x)
        },
{
    assert(xs.push(x).drop_last() =~= xs);
}

proof fn lemma_distinct_of_distinct(xs: Seq<Seq<char>>)
    ensures
        distinct(distinct(xs)) == distinct(xs),
    decreases xs.len(),
{
    if xs.len() > 0 {
        let front = xs.drop_last();
        let d = distinct(front);
        lemma_distinct_of_distinct(front);
        if !d.contains(xs.last()) {
            lemma_distinct_push(d, xs.last());
        }
    }
}

impl Coalescer {
    /// Whether no path waits twice.
    pub open spec fn wf(&self) -> bool {
        distinct(self@.pending) == self@.pending
    }

    /// A coalescer in which nothing waits.
    pub fn new(now: u64) -> (r: Self)
        ensures
            r.wf(),
            r@.pending.len() == 0,
            r@.last_event == now,
    {
        let r = Coalescer { pending: Vec::new(), last_event: now };
        assert(r@.pending =~= Seq::<Seq<char>>::empty());
        r
    }

    /// Takes in a change event at time `now` that names the admitted `paths`.
    pub fn on_admitted(&mut self, paths: &Vec<String>, now: u64)
        requires
            old(self).wf(),
        ensures
            final(self).wf(),
            final(self)@ == after_change(old(self)@, string_views(paths@), now as nat),
    {
        let ghost start = self@.pending;
        let ghost all = string_views(paths@);
        let mut i: usize = 0;
        assert(start + all.take(0) =~= start);
        while i < paths.len()
            invariant
                i <= paths.len(),
                all == string_views(paths@),
                string_views(self.pending@) == distinct(start + all.take(i as int)),
            decreases paths.len() - i,
        {
            proof {
                assert(start + all.take(i + 1) =~= (start + all.take(i as int)).push(
                    paths@[i as int]@,
                ));
                lemma_distinct_push(start + all.take(i as int), paths@[i as int]@);
            }
            if !waits(&self.pending, &paths[i]) {
                let ghost before = self.pending@;
                self.pending.push(paths[i].clone());
                assert(string_views(self.pending@) =~= string_views(before).push(
                    paths@[i as int]@,
                ));
            }
            i += 1;
        }
        self.last_event = now;
        proof {
            assert(all.take(paths@.len() as int) =~= all);
            lemma_distinct_of_distinct(start + all);
        }
    }

    /// Takes in a change event at time `now`: those of its paths that count
    /// as changes to index wait from now on.
    pub fn on_paths(&mut self, paths: &Vec<String>, now: u64)
        requires
            old(self).wf(),
        ensures
            final(self).wf(),
            final(self)@ == after_change(
                old(self)@,
                counting(string_views(paths@)),
                now as nat,
            ),
    {
        let ghost all = string_views(paths@);
        let mut kept: Vec<String> = Vec::new();
        let mut i: usize = 0;
        assert(string_views(kept@) =~= counting(all.take(0)));
        while i < paths.len()
            invariant
                i <= paths.len(),
                all == string_views(paths@),
                string_views(kept@) == counting(all.take(i as int)),
            decreases paths.len() - i,
        {
            proof {
                assert(all.take(i + 1).drop_last() =~= all.take(i as int));
                assert(all.take(i + 1).last() == paths@[i as int]@);
            }
            if self::should_index(paths[i].as_str()) {
                let ghost before = kept@;
                let path = paths[i].clone();
                kept.push(path);
                assert(string_views(kept@) =~= string_views(before).push(path@));
            }
            i += 1;
        }
        assert(all.take(paths@.len() as int) =~= all);
        self.on_admitted(&kept, now);
    }

    /// Takes in a tick of the timer at time `now`. Where changes are due,
    /// returns the path whose project is to be indexed, and nothing waits
    /// any more.
    pub fn on_tick(&mut self, now: u64) -> (r: Option<String>)
        requires
            old(self).wf(),
        ensures
            final(self).wf(),
            final(self)@ == after_tick(old(self)@, now as nat),
            text_of(r) == dispatched(old(self)@, now as nat),
    {
        let elapsed: u64 = if now >= self.last_event {
            now - self.last_event
        } else {
            0
        };
        if self.pending.len() > 0 && elapsed >= DEBOUNCE_MS {
            let first = self.pending[0].clone();
            assert(string_views(self.pending@)[0] == first@);
            self.pending = Vec::new();
            assert(self@.pending =~= Seq::<Seq<char>>::empty());
            Some(first)
        } else {
            None
        }
    }
}

/// What reaches the coalescer: a change event with its admitted paths, or a
/// tick of the timer; each with its time in milliseconds.
pub enum Input {
    Changed(Seq<Seq<char>>, nat),
    Tick(nat),
}

impl Input {
    /// The time of an input.
    pub open spec fn time(self) -> nat {
        match self {
            Input::Changed(_, t) => t,
            Input::Tick(t) => t,
        }
    }
}

/// The state after the inputs, and the number of requests to index that
/// they brought.
pub open spec fn run(s: CoalescerView, inputs: Seq<Input>) -> (CoalescerView, nat)
    decreases inputs.len(),
{
    if inputs.len() == 0 {
        (s, 0)
    } else {
        let (mid, n) = run(s, inputs.drop_last());
        match inputs.last() {
            Input::Changed(paths, t) => (after_change(mid, paths, t), n),
            Input::Tick(t) => (
                after_tick(mid, t),
                if is_due(mid, t) {
                    n + 1
                } else {
                    n
                },
            ),
        }
    }
}

/// Whether the inputs are a burst that begins at `start`: none is earlier,
/// and all come less than the debounce time after it.
pub open spec fn is_burst(inputs: Seq<Input>, start: nat) -> bool {
    forall|i: int|
        0 <= i < inputs.len() ==> start <= (#[trigger] inputs[i]).time() < start + DEBOUNCE_MS
}

/// Whether the inputs are ticks only, none before `from`.
pub open spec fn is_quiet(inputs: Seq<Input>, from: nat) -> bool {
    forall|i: int| 0 <= i < inputs.len() ==> (#[trigger] inputs[i]) is Tick && inputs[i].time()
        >= from
}

proof fn lemma_distinct_nonempty(a: Seq<Seq<char>>, b: Seq<Seq<char>>)
    requires
        a.len() > 0 || b.len() > 0,
    ensures
        distinct(a + b).len() > 0,
{
    crate::seqs::lemma_distinct(a + b);
    let x = (a + b)[0];
    assert((a + b).contains(x));
    assert(distinct(a + b).contains(x));
}

proof fn lemma_burst(s: CoalescerView, burst: Seq<Input>, start: nat)
    requires
        s.pending.len() == 0,
        is_burst(burst, start),
    ensures
        run(s, burst).1 == 0,
        run(s, burst).0.pending.len() > 0 ==> start <= run(s, burst).0.last_event < start
            + DEBOUNCE_MS,
        (exists|i: int|
            0 <= i < burst.len() && (#[trigger] burst[i]) is Changed && burst[i]->Changed_0.len()
                > 0) ==> run(s, burst).0.pending.len() > 0,
    decreases burst.len(),
{
    if burst.len() > 0 {
        let front = burst.drop_last();
        assert forall|i: int| 0 <= i < front.len() implies start <= (#[trigger] front[i]).time()
            < start + DEBOUNCE_MS by {
            assert(front[i] == burst[i]);
        }
        lemma_burst(s, front, start);
        let (mid, n) = run(s, front);
        let last = burst.last();
        assert(last == burst[burst.len() - 1]);
        assert(start <= last.time() < start + DEBOUNCE_MS);
        match last {
            Input::Changed(paths, t) => {
                if mid.pending.len() > 0 || paths.len() > 0 {
                    lemma_distinct_nonempty(mid.pending, paths);
                }
            },
            Input::Tick(t) => {},
        }
        if exists|i: int|
            0 <= i < burst.len() && (#[trigger] burst[i]) is Changed && burst[i]->Changed_0.len()
                > 0 {
            let i = choose|i: int|
                0 <= i < burst.len() && (#[trigger] burst[i]) is Changed
                    && burst[i]->Changed_0.len() > 0;
            if i < front.len() {
                assert(front[i] == burst[i]);
            }
        }
    }
}

proof fn lemma_quiet(s: CoalescerView, quiet: Seq<Input>, from: nat)
    requires
        is_quiet(quiet, from),
        from >= s.last_event + DEBOUNCE_MS,
    ensures
        run(s, quiet).0.last_event == s.last_event,
        run(s, quiet).1 == if quiet.len() > 0 && s.pending.len() > 0 {
            1nat
        } else {
            0nat
        },
        quiet.len() > 0 ==> run(s, quiet).0.pending.len() == 0,
        quiet.len() == 0 ==> run(s, quiet).0 == s,
    decreases quiet.len(),
{
    if quiet.len() > 0 {
        let front = quiet.drop_last();
        assert forall|i: int| 0 <= i < front.len() implies (#[trigger] front[i]) is Tick
            && front[i].time() >= from by {
            assert(front[i] == quiet[i]);
        }
        lemma_quiet(s, front, from);
        assert(quiet.last() == quiet[quiet.len() - 1]);
    }
}

proof fn lemma_run_concat(s: CoalescerView, a: Seq<Input>, b: Seq<Input>)
    ensures
        run(s, a + b).0 == run(run(s, a).0, b).0,
        run(s, a + b).1 == run(s, a).1 + run(run(s, a).0, b).1,
    decreases b.len(),
{
    if b.len() == 0 {
        assert(a + b =~= a);
    } else {
        lemma_run_concat(s, a, b.drop_last());
        assert((a + b).drop_last() =~= a + b.drop_last());
        assert((a + b).last() == b.last());
    }
}

/// A burst of changes brings exactly one request to index. Let nothing
/// wait at first. Let a burst of change events and ticks follow, all less
/// than the debounce time after its start, with at least one admitted path
/// among them; and after it ticks only, at least one, none earlier than the
/// debounce time after the last change. Then, over all of it, one tick
/// finds changes due.
pub proof fn lemma_one_dispatch_per_burst(
    s: CoalescerView,
    burst: Seq<Input>,
    start: nat,
    quiet: Seq<Input>,
)
    requires
        s.pending.len() == 0,
        is_burst(burst, start),
        exists|i: int|
            0 <= i < burst.len() && (#[trigger] burst[i]) is Changed && burst[i]->Changed_0.len()
                > 0,
        quiet.len() > 0,
        is_quiet(quiet, (run(s, burst).0.last_event + DEBOUNCE_MS) as nat),
    ensures
        run(s, burst + quiet).1 == 1,
        run(s, burst + quiet).0.pending.len() == 0,
{
    lemma_burst(s, burst, start);
    let mid = run(s, burst).0;
    lemma_quiet(mid, quiet, (mid.last_event + DEBOUNCE_MS) as nat);
    lemma_run_concat(s, burst, quiet);
}

/// Whether ticks of the timer come steadily after the time `from`: the
/// first no later than the debounce time after it, each of the others no
/// later than the debounce time after the one before.
pub open spec fn is_steady(ticks: Seq<nat>, from: nat) -> bool {
    &&& ticks.len() > 0
    &&& ticks[0] <= from + DEBOUNCE_MS
    &&& forall|i: int| 0 < i < ticks.len() ==> (#[trigger] ticks[i]) <= ticks[i - 1] + DEBOUNCE_MS
}

proof fn lemma_first_due(s: CoalescerView, ticks: Seq<nat>, i: int) -> (k: int)
    requires
        s.pending.len() > 0,
        is_steady(ticks, s.last_event),
        ticks.last() >= s.last_event + DEBOUNCE_MS,
        0 <= i < ticks.len(),
        forall|j: int| 0 <= j < i ==> !is_due(s, #[trigger] ticks[j]),
    ensures
        i <= k < ticks.len(),
        is_due(s, ticks[k]),
        ticks[k] < s.last_event + 2 * DEBOUNCE_MS,
        forall|j: int| 0 <= j < k ==> !is_due(s, #[trigger] ticks[j]),
    decreases ticks.len() - i,
{
    if is_due(s, ticks[i]) {
        if i > 0 {
            assert(!is_due(s, ticks[i - 1]));
        }
        i
    } else {
        assert(ticks.last() == ticks[ticks.len() - 1]);
        lemma_first_due(s, ticks, i + 1)
    }
}

/// The request to index comes in time. Let changes wait, and let ticks of
/// the timer come steadily after the last change, until one is at least the
/// debounce time after it. Then one of the ticks finds the changes due, as
/// the first, and it comes less than twice the debounce time, one second,
/// after the last change.
pub proof fn lemma_request_within_a_second(s: CoalescerView, ticks: Seq<nat>) -> (k: int)
    requires
        s.pending.len() > 0,
        is_steady(ticks, s.last_event),
        ticks.last() >= s.last_event + DEBOUNCE_MS,
    ensures
        0 <= k < ticks.len(),
        dispatched(s, ticks[k]) == Some(s.pending[0]),
        ticks[k] < s.last_event + 1000,
        forall|j: int| 0 <= j < k ==> dispatched(s, #[trigger] ticks[j]) is None && after_tick(
            s,
            ticks[j],
        ) == s,
{
    lemma_first_due(s, ticks, 0)
}

/// The names whose presence in a directory marks it as the root of a project.
pub fn root_markers() -> (r: Vec<String>)
    ensures
        r@.len() == 4,
        r@[0]@ == "Cargo.toml"@,
        r@[1]@ == "package.json"@,
        r@[2]@ == ".git"@,
        r@[3]@ == "pyproject.toml"@,
{
    let mut r: Vec<String> = Vec::new();
    r.push(String::from_str("Cargo.toml"));
    r.push(String::from_str("package.json"));
    r.push(String::from_str(".git"));
    r.push(String::from_str("pyproject.toml"));
    r
}

/// The paths under a directory whose presence marks it as the root of a
/// project: the markers, each joined to the directory.
pub fn marker_paths(dir: &str) -> (r: Vec<String>)
    ensures
        r@.len() == 4,
        r@[0]@ == joined(dir@, "Cargo.toml"@),
        r@[1]@ == joined(dir@, "package.json"@),
        r@[2]@ == joined(dir@, ".git"@),
        r@[3]@ == joined(dir@, "pyproject.toml"@),
{
    let mut r: Vec<String> = Vec::new();
    r.push(join_path(dir, "Cargo.toml"));
    r.push(join_path(dir, "package.json"));
    r.push(join_path(dir, ".git"));
    r.push(join_path(dir, "pyproject.toml"));
    r
}

/// The directories above a path, nearest first: the directory above the
/// path, the one above that, and so on.
pub fn ancestors(path: &str) -> (r: Vec<String>)
    ensures
        string_views(r@) == ancestors_of(path@),
{
    let mut out: Vec<String> = Vec::new();
    let mut current = String::from_str(path);
    assert(string_views(out@) + ancestors_of(current@) =~= ancestors_of(path@));
    loop
        invariant
            string_views(out@) + ancestors_of(current@) == ancestors_of(path@),
        decreases current@.len(),
    {
        proof {
            lemma_parent_shorter(current@);
        }
        match parent_of(current.as_str()) {
            Some(dir) => {
                let ghost before = out@;
                let ghost was = current@;
                out.push(dir.clone());
                current = dir;
                proof {
                    assert(string_views(out@) =~= string_views(before).push(current@));
                    assert(ancestors_of(was) =~= seq![current@] + ancestors_of(current@));
                    assert(string_views(out@) + ancestors_of(current@) =~= string_views(before)
                        + ancestors_of(was));
                }
            },
            None => {
                assert(ancestors_of(current@) =~= Seq::<Seq<char>>::empty());
                assert(string_views(out@) =~= ancestors_of(path@));
                return out;
            },
        }
    }
}

/// Position of the first `true` from `from` on.
pub open spec fn first_marked(marked: Seq<bool>, from: int) -> Option<int>
    decreases marked.len() - from,
{
    if from < 0 || from >= marked.len() {
        None
    } else if marked[from] {
        Some(from)
    } else {
        first_marked(marked, from + 1)
    }
}

/// The root of the project of a path, given the directories above it,
/// nearest first, and for each whether it holds a marker: the nearest that
/// holds one; where none does, the farthest; where there is none above the
/// path, the path itself.
pub open spec fn root_of(path: Seq<char>, above: Seq<Seq<char>>, marked: Seq<bool>) -> Seq<char> {
    match first_marked(marked, 0) {
        Some(i) => above[i],
        None => if above.len() > 0 {
            above.last()
        } else {
            path
        },
    }
}

/// Chooses the root of the project of a changed path.
pub fn project_root(path: &str, above: &Vec<String>, marked: &Vec<bool>) -> (r: String)
    requires
        marked@.len() == above@.len(),
    ensures
        r@ == root_of(path@, string_views(above@), marked@),
{
    let ghost flags = marked@;
    let mut i: usize = 0;
    while i < above.len()
        invariant
            i <= above.len() == marked.len(),
            flags == marked@,
            first_marked(flags, 0) == first_marked(flags, i as int),
        decreases above.len() - i,
    {
        if marked[i] {
            assert(string_views(above@)[i as int] == above@[i as int]@);
            return above[i].clone();
        }
        i += 1;
    }
    if above.len() > 0 {
        assert(string_views(above@).last() == above@[above@.len() - 1]@);
        above[above.len() - 1].clone()
    } else {
        String::from_str(path)
    }
}

/// The command that asks for the project at `root` to be indexed.
pub fn index_command(root: &str) -> (r: String)
    ensures
        r@ == "/index "@ + root@,
{
    let mut out = chars_of("/index ");
    push_str(&mut out, root);
    string_of(&out)
}

} // verus!
