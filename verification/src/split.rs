//! Cutting text into pieces: runs of characters, lines, words, separators.

use crate::text::{
    find_from, find_from_exec, is_white_space, lemma_find_from, unicode_whitespace,
};
use vstd::prelude::*;

verus! {

/// The views of a vector of character vectors.
pub open spec fn texts(v: Seq<Vec<char>>) -> Seq<Seq<char>> {
    v.map_values(|x: Vec<char>| x@)
}

/// Pushing a piece pushes its view.
pub proof fn lemma_texts_push(v: Seq<Vec<char>>, x: Vec<char>)
    ensures
        texts(v.push(x)) == texts(v).push(x@),
{
    assert(texts(v.push(x)) =~= texts(v).push(x@));
}

/// End of the longest run of characters satisfying `p` that starts at `from`.
pub open spec fn run_end(s: Seq<char>, from: int, p: spec_fn(char) -> bool) -> int
    decreases s.len() - from,
{
    if from < 0 || from >= s.len() {
        s.len() as int
    } else if p(s[from]) {
        run_end(s, from + 1, p)
    } else {
        from
    }
}

/// `run_end` is the one position that ends a run of `p` from `from`.
pub proof fn lemma_run_end(s: Seq<char>, from: int, p: spec_fn(char) -> bool, r: int)
    requires
        0 <= from <= r <= s.len(),
        forall|j: int| from <= j < r ==> p(#[trigger] s[j]),
        r < s.len() ==> !p(s[r]),
    ensures
        run_end(s, from, p) == r,
    decreases r - from,
{
    if from < r {
        lemma_run_end(s, from + 1, p, r);
    }
}

/// Where `run_end` lies, and what holds before and at it.
pub proof fn lemma_run_end_props(s: Seq<char>, from: int, p: spec_fn(char) -> bool)
    requires
        0 <= from <= s.len(),
    ensures
        from <= run_end(s, from, p) <= s.len(),
        forall|j: int| from <= j < run_end(s, from, p) ==> p(#[trigger] s[j]),
        run_end(s, from, p) < s.len() ==> !p(s[run_end(s, from, p)]),
    decreases s.len() - from,
{
    if from < s.len() && p(s[from]) {
        lemma_run_end_props(s, from + 1, p);
    }
}

pub open spec fn not_newline() -> spec_fn(char) -> bool {
    |c: char| c != '\n'
}

pub open spec fn whitespace() -> spec_fn(char) -> bool {
    |c: char| unicode_whitespace(c)
}

pub open spec fn not_whitespace() -> spec_fn(char) -> bool {
    |c: char| !unicode_whitespace(c)
}

/// Whether `c` may stand in an identifier: an ASCII letter, an ASCII digit
/// or `_`.
pub open spec fn is_identifier_char(c: char) -> bool {
    ('a' <= c && c <= 'z') || ('A' <= c && c <= 'Z') || ('0' <= c && c <= '9') || c == '_'
}

/// Characters of an identifier.
pub open spec fn identifier() -> spec_fn(char) -> bool {
    |c: char| is_identifier_char(c)
}

/// Decides whether `c` may stand in an identifier.
pub fn is_identifier_char_exec(c: char) -> (r: bool)
    ensures
        r == is_identifier_char(c),
{
    ('a' <= c && c <= 'z') || ('A' <= c && c <= 'Z') || ('0' <= c && c <= '9') || c == '_'
}

/// End of the run of characters other than `stop` that starts at `from`.
pub fn run_until(s: &Vec<char>, from: usize, stop: char) -> (r: usize)
    requires
        from <= s.len(),
    ensures
        from <= r <= s.len(),
        r == run_end(s@, from as int, |c: char| c != stop),
{
    let mut i: usize = from;
    while i < s.len() && s[i] != stop
        invariant
            from <= i <= s.len(),
            forall|j: int| from <= j < i ==> s@[j] != stop,
        decreases s.len() - i,
    {
        i += 1;
    }
    proof {
        lemma_run_end(s@, from as int, |c: char| c != stop, i as int);
    }
    i
}

/// End of the run of whitespace that starts at `from`.
pub fn run_of_whitespace(s: &Vec<char>, from: usize) -> (r: usize)
    requires
        from <= s.len(),
    ensures
        from <= r <= s.len(),
        r == run_end(s@, from as int, whitespace()),
{
    let mut i: usize = from;
    while i < s.len() && is_white_space(s[i])
        invariant
            from <= i <= s.len(),
            forall|j: int| from <= j < i ==> unicode_whitespace(s@[j]),
        decreases s.len() - i,
    {
        i += 1;
    }
    proof {
        lemma_run_end(s@, from as int, whitespace(), i as int);
    }
    i
}

/// End of the run of non-whitespace that starts at `from`.
pub fn run_of_non_whitespace(s: &Vec<char>, from: usize) -> (r: usize)
    requires
        from <= s.len(),
    ensures
        from <= r <= s.len(),
        r == run_end(s@, from as int, not_whitespace()),
{
    let mut i: usize = from;
    while i < s.len() && !is_white_space(s[i])
        invariant
            from <= i <= s.len(),
            forall|j: int| from <= j < i ==> !unicode_whitespace(s@[j]),
        decreases s.len() - i,
    {
        i += 1;
    }
    proof {
        lemma_run_end(s@, from as int, not_whitespace(), i as int);
    }
    i
}

/// End of the run of identifier characters that starts at `from`.
pub fn run_of_identifier(s: &Vec<char>, from: usize) -> (r: usize)
    requires
        from <= s.len(),
    ensures
        from <= r <= s.len(),
        r == run_end(s@, from as int, identifier()),
{
    let mut i: usize = from;
    while i < s.len() && is_identifier_char_exec(s[i])
        invariant
            from <= i <= s.len(),
            forall|j: int| from <= j < i ==> is_identifier_char(s@[j]),
        decreases s.len() - i,
    {
        i += 1;
    }
    proof {
        lemma_run_end(s@, from as int, identifier(), i as int);
    }
    i
}

/// The longest prefix of `s` made of identifier characters.
pub open spec fn leading_identifier(s: Seq<char>) -> Seq<char> {
    s.subrange(0, run_end(s, 0, identifier()))
}

/// The identifier that follows the leading whitespace of `s`.
pub open spec fn identifier_after_space(s: Seq<char>) -> Seq<char> {
    let a = run_end(s, 0, whitespace());
    s.subrange(a, run_end(s, a, identifier()))
}

/// Computes the longest prefix of `s` made of identifier characters.
pub fn leading_identifier_exec(s: &Vec<char>) -> (out: Vec<char>)
    ensures
        out@ == leading_identifier(s@),
{
    let e = run_of_identifier(s, 0);
    crate::text::slice_of(s, 0, e)
}

/// Computes the identifier that follows the leading whitespace of `s`.
pub fn identifier_after_space_exec(s: &Vec<char>) -> (out: Vec<char>)
    ensures
        out@ == identifier_after_space(s@),
{
    let a = run_of_whitespace(s, 0);
    let e = run_of_identifier(s, a);
    crate::text::slice_of(s, a, e)
}

/// A line without the carriage return that may end it.
pub open spec fn strip_cr(l: Seq<char>) -> Seq<char> {
    if l.len() > 0 && l.last() == '\r' {
        l.drop_last()
    } else {
        l
    }
}

/// The lines of `s` from position `from` on. A line ends at `\n`; the `\r`
/// before that `\n` is not part of it. Text after the last `\n` is a line of
/// its own, and keeps a final `\r`.
pub open spec fn lines_from(s: Seq<char>, from: int) -> Seq<Seq<char>>
    decreases s.len() - from,
{
    if from < 0 || from >= s.len() {
        seq![]
    } else {
        let e = run_end(s, from, not_newline());
        if e < from || e >= s.len() {
            seq![s.subrange(from, s.len() as int)]
        } else {
            seq![strip_cr(s.subrange(from, e))] + lines_from(s, e + 1)
        }
    }
}

/// The lines of a text.
pub open spec fn lines(s: Seq<char>) -> Seq<Seq<char>> {
    lines_from(s, 0)
}

/// No line holds a newline, and there are no more lines than characters.
pub proof fn lemma_lines_from(s: Seq<char>, from: int)
    requires
        0 <= from <= s.len(),
    ensures
        lines_from(s, from).len() <= s.len() - from,
        forall|k: int, j: int|
            0 <= k < lines_from(s, from).len() && 0 <= j < lines_from(s, from)[k].len()
                ==> lines_from(s, from)[k][j] != '\n',
    decreases s.len() - from,
{
    if from < s.len() {
        let e = run_end(s, from, not_newline());
        lemma_run_end_props(s, from, not_newline());
        if e >= s.len() {
        } else {
            lemma_lines_from(s, e + 1);
            let head = strip_cr(s.subrange(from, e));
            let rest = lines_from(s, e + 1);
            assert forall|k: int, j: int|
                0 <= k < lines_from(s, from).len() && 0 <= j < lines_from(s, from)[k].len()
                    implies lines_from(s, from)[k][j] != '\n' by {
                if k == 0 {
                    assert(lines_from(s, from)[0] == head);
                    assert(head[j] == s[from + j]);
                } else {
                    assert(lines_from(s, from)[k] == rest[k - 1]);
                }
            }
        }
    }
}

/// Cuts a text into its lines.
pub fn lines_exec(s: &Vec<char>) -> (out: Vec<Vec<char>>)
    ensures
        texts(out@) == lines(s@),
{
    let mut out: Vec<Vec<char>> = Vec::new();
    let mut from: usize = 0;
    assert(texts(out@) =~= Seq::<Seq<char>>::empty());
    while from < s.len()
        invariant
            from <= s.len(),
            lines(s@) == texts(out@) + lines_from(s@, from as int),
        decreases s.len() - from,
    {
        let e = run_until(s, from, '\n');
        assert(run_end(s@, from as int, |c: char| c != '\n') == run_end(
            s@,
            from as int,
            not_newline(),
        )) by {
            lemma_run_end_props(s@, from as int, |c: char| c != '\n');
            lemma_run_end(s@, from as int, not_newline(), e as int);
        }
        let ghost before = out@;
        if e >= s.len() {
            let piece = crate::text::slice_of(s, from, s.len());
            out.push(piece);
            proof {
                lemma_texts_push(before, piece);
                assert(lines_from(s@, s@.len() as int) =~= Seq::<Seq<char>>::empty());
                assert(lines(s@) =~= texts(out@) + lines_from(s@, s@.len() as int));
            }
            from = s.len();
        } else {
            let end: usize = if e > from && s[e - 1] == '\r' {
                e - 1
            } else {
                e
            };
            let piece = crate::text::slice_of(s, from, end);
            assert(piece@ == strip_cr(s@.subrange(from as int, e as int))) by {
                let l = s@.subrange(from as int, e as int);
                if e > from && s@[e - 1] == '\r' {
                    assert(l.last() == '\r');
                    assert(l.drop_last() =~= s@.subrange(from as int, e - 1));
                }
            }
            out.push(piece);
            proof {
                lemma_texts_push(before, piece);
                assert(lines(s@) =~= texts(out@) + lines_from(s@, e + 1));
            }
            from = e + 1;
        }
    }
    assert(lines_from(s@, from as int) =~= Seq::<Seq<char>>::empty());
    assert(lines(s@) =~= texts(out@));
    out
}

/// `s` without its leading whitespace.
pub open spec fn trim_start(s: Seq<char>) -> Seq<char> {
    s.subrange(run_end(s, 0, whitespace()), s.len() as int)
}

/// Length of `s` without its trailing whitespace.
pub open spec fn trimmed_len(s: Seq<char>) -> int
    decreases s.len(),
{
    if s.len() == 0 {
        0
    } else if unicode_whitespace(s.last()) {
        trimmed_len(s.drop_last())
    } else {
        s.len() as int
    }
}

/// `s` without its trailing whitespace.
pub open spec fn trim_end(s: Seq<char>) -> Seq<char> {
    s.subrange(0, trimmed_len(s))
}

/// `s` without leading and trailing whitespace.
pub open spec fn trim(s: Seq<char>) -> Seq<char> {
    trim_end(trim_start(s))
}

/// Bounds of the trimmed part of `s[from..to]`, as positions in `s`.
pub fn trim_bounds(s: &Vec<char>, from: usize, to: usize) -> (r: (usize, usize))
    requires
        from <= to <= s.len(),
    ensures
        from <= r.0 <= r.1 <= to,
        s@.subrange(r.0 as int, r.1 as int) == trim(s@.subrange(from as int, to as int)),
{
    let ghost part = s@.subrange(from as int, to as int);
    let mut a: usize = from;
    while a < to && is_white_space(s[a])
        invariant
            from <= a <= to <= s.len(),
            forall|j: int| from <= j < a ==> unicode_whitespace(s@[j]),
        decreases to - a,
    {
        a += 1;
    }
    proof {
        assert forall|j: int| 0 <= j < a - from implies whitespace()(#[trigger] part[j]) by {
            assert(part[j] == s@[from + j]);
        }
        lemma_run_end(part, 0, whitespace(), a - from);
        assert(trim_start(part) =~= s@.subrange(a as int, to as int));
    }
    let ghost rest = s@.subrange(a as int, to as int);
    let mut b: usize = to;
    while b > a && is_white_space(s[b - 1])
        invariant
            a <= b <= to <= s.len(),
            rest == s@.subrange(a as int, to as int),
            trimmed_len(rest) == trimmed_len(s@.subrange(a as int, b as int)),
        decreases b - a,
    {
        proof {
            let cur = s@.subrange(a as int, b as int);
            assert(cur.last() == s@[b - 1]);
            assert(cur.drop_last() =~= s@.subrange(a as int, b - 1));
        }
        b -= 1;
    }
    proof {
        let cur = s@.subrange(a as int, b as int);
        if b > a {
            assert(cur.last() == s@[b - 1]);
        }
        assert(trimmed_len(cur) == b - a);
        assert(rest.subrange(0, b - a) =~= s@.subrange(a as int, b as int));
    }
    (a, b)
}

/// `s` without leading and trailing whitespace.
pub fn trim_exec(s: &Vec<char>) -> (out: Vec<char>)
    ensures
        out@ == trim(s@),
{
    let (a, b) = trim_bounds(s, 0, s.len());
    assert(s@.subrange(0, s@.len() as int) =~= s@);
    crate::text::slice_of(s, a, b)
}

/// The whitespace-separated words of `s` from position `from` on.
pub open spec fn words_from(s: Seq<char>, from: int) -> Seq<Seq<char>>
    decreases s.len() - from,
{
    if from < 0 || from >= s.len() {
        seq![]
    } else {
        let a = run_end(s, from, whitespace());
        let b = run_end(s, a, not_whitespace());
        if a < from || a >= s.len() || b <= a || b > s.len() {
            seq![]
        } else {
            seq![s.subrange(a, b)] + words_from(s, b)
        }
    }
}

/// The whitespace-separated words of a text; none is empty.
pub open spec fn words(s: Seq<char>) -> Seq<Seq<char>> {
    words_from(s, 0)
}

/// Every word is non-empty, and there are no more words than characters.
pub proof fn lemma_words_from(s: Seq<char>, from: int)
    requires
        0 <= from <= s.len(),
    ensures
        words_from(s, from).len() <= s.len() - from,
        forall|k: int| 0 <= k < words_from(s, from).len() ==> (#[trigger] words_from(s, from)[k]).len() > 0,
    decreases s.len() - from,
{
    if from < s.len() {
        lemma_run_end_props(s, from, whitespace());
        let a = run_end(s, from, whitespace());
        lemma_run_end_props(s, a, not_whitespace());
        let b = run_end(s, a, not_whitespace());
        if a >= s.len() || b <= a {
        } else {
            lemma_words_from(s, b);
            let rest = words_from(s, b);
            assert forall|k: int| 0 <= k < words_from(s, from).len() implies (
            #[trigger] words_from(s, from)[k]).len() > 0 by {
                if k > 0 {
                    assert(words_from(s, from)[k] == rest[k - 1]);
                }
            }
        }
    }
}

/// Cuts a text into its whitespace-separated words.
pub fn words_exec(s: &Vec<char>) -> (out: Vec<Vec<char>>)
    ensures
        texts(out@) == words(s@),
{
    let mut out: Vec<Vec<char>> = Vec::new();
    let mut from: usize = 0;
    assert(texts(out@) =~= Seq::<Seq<char>>::empty());
    while from < s.len()
        invariant
            from <= s.len(),
            words(s@) == texts(out@) + words_from(s@, from as int),
        decreases s.len() - from,
    {
        let a = run_of_whitespace(s, from);
        if a >= s.len() {
            assert(words_from(s@, from as int) =~= Seq::<Seq<char>>::empty());
            assert(words_from(s@, s@.len() as int) =~= Seq::<Seq<char>>::empty());
            from = s.len();
        } else {
            let b = run_of_non_whitespace(s, a);
            proof {
                lemma_run_end_props(s@, from as int, whitespace());
                assert(b > a) by {
                    lemma_run_end_props(s@, a as int, not_whitespace());
                    if b == a {
                        assert(!not_whitespace()(s@[a as int]));
                        assert(!whitespace()(s@[a as int]));
                    }
                }
            }
            let ghost before = out@;
            let piece = crate::text::slice_of(s, a, b);
            out.push(piece);
            proof {
                lemma_texts_push(before, piece);
                assert(words(s@) =~= texts(out@) + words_from(s@, b as int));
            }
            from = b;
        }
    }
    assert(words_from(s@, from as int) =~= Seq::<Seq<char>>::empty());
    assert(words(s@) =~= texts(out@));
    out
}

/// The pieces of `s` from `from` on that lie between the occurrences of a
/// non-empty `pat`, the occurrences taken from the left without overlap.
pub open spec fn split_from(s: Seq<char>, pat: Seq<char>, from: int) -> Seq<Seq<char>>
    decreases s.len() - from,
{
    match find_from(s, pat, from) {
        Some(i) => if pat.len() > 0 && from <= i && i + pat.len() <= s.len() {
            seq![s.subrange(from, i)] + split_from(s, pat, i + pat.len())
        } else {
            seq![s.subrange(from, s.len() as int)]
        },
        None => seq![s.subrange(from, s.len() as int)],
    }
}

/// The pieces of `s` between the occurrences of a non-empty `pat`.
pub open spec fn split(s: Seq<char>, pat: Seq<char>) -> Seq<Seq<char>> {
    split_from(s, pat, 0)
}

/// Cuts `s` at the occurrences of a non-empty `pat`.
pub fn split_exec(s: &Vec<char>, pat: &Vec<char>) -> (out: Vec<Vec<char>>)
    requires
        pat.len() > 0,
    ensures
        texts(out@) == split(s@, pat@),
        out.len() >= 1,
{
    let mut out: Vec<Vec<char>> = Vec::new();
    let mut from: usize = 0;
    assert(texts(out@) =~= Seq::<Seq<char>>::empty());
    loop
        invariant
            pat.len() > 0,
            from <= s.len(),
            split(s@, pat@) == texts(out@) + split_from(s@, pat@, from as int),
        decreases s.len() - from,
    {
        proof {
            lemma_find_from(s@, pat@, from as int);
        }
        let ghost before = out@;
        match find_from_exec(s, pat, from) {
            None => {
                let piece = crate::text::slice_of(s, from, s.len());
                out.push(piece);
                proof {
                    lemma_texts_push(before, piece);
                    assert(split(s@, pat@) =~= texts(out@));
                }
                return out;
            },
            Some(i) => {
                let piece = crate::text::slice_of(s, from, i);
                out.push(piece);
                proof {
                    lemma_texts_push(before, piece);
                    assert(split(s@, pat@) =~= texts(out@) + split_from(
                        s@,
                        pat@,
                        i + pat.len(),
                    ));
                }
                from = i + pat.len();
            },
        }
    }
}

/// Cuts `s` at the occurrences of the text of a non-empty string slice.
pub fn split_str(s: &Vec<char>, pat: &str) -> (out: Vec<Vec<char>>)
    requires
        pat@.len() > 0,
    ensures
        texts(out@) == split(s@, pat@),
        out.len() >= 1,
{
    let p = crate::text::chars_of(pat);
    split_exec(s, &p)
}

/// The parts of `s` before and after the first occurrence of `pat`.
pub open spec fn split_once(s: Seq<char>, pat: Seq<char>) -> Option<(Seq<char>, Seq<char>)> {
    match find_from(s, pat, 0) {
        Some(i) => Some((s.subrange(0, i), s.subrange(i + pat.len(), s.len() as int))),
        None => None,
    }
}

/// Cuts `s` at the first occurrence of `pat`.
pub fn split_once_exec(s: &Vec<char>, pat: &Vec<char>) -> (r: Option<(Vec<char>, Vec<char>)>)
    ensures
        match r {
            Some(p) => split_once(s@, pat@) == Some((p.0@, p.1@)),
            None => split_once(s@, pat@) is None,
        },
{
    proof {
        lemma_find_from(s@, pat@, 0);
    }
    match find_from_exec(s, pat, 0) {
        None => None,
        Some(i) => {
            let n = s.len();
            let head = crate::text::slice_of(s, 0, i);
            let tail = crate::text::slice_of(s, i + pat.len(), n);
            Some((head, tail))
        },
    }
}

/// Cuts `s` at the first occurrence of the text of a string slice.
pub fn split_once_str(s: &Vec<char>, pat: &str) -> (r: Option<(Vec<char>, Vec<char>)>)
    ensures
        match r {
            Some(p) => split_once(s@, pat@) == Some((p.0@, p.1@)),
            None => split_once(s@, pat@) is None,
        },
{
    let p = crate::text::chars_of(pat);
    split_once_exec(s, &p)
}

/// The pieces joined with `sep` between them.
pub open spec fn join(parts: Seq<Seq<char>>, sep: Seq<char>) -> Seq<char>
    decreases parts.len(),
{
    if parts.len() == 0 {
        seq![]
    } else if parts.len() == 1 {
        parts[0]
    } else {
        join(parts.drop_last(), sep) + sep + parts.last()
    }
}

/// Joins `parts[from..to]` with `sep` between them.
pub fn join_exec(parts: &Vec<Vec<char>>, from: usize, to: usize, sep: &Vec<char>) -> (out: Vec<
    char,
>)
    requires
        from <= to <= parts.len(),
    ensures
        out@ == join(texts(parts@).subrange(from as int, to as int), sep@),
{
    let mut out: Vec<char> = Vec::new();
    let mut i: usize = from;
    let ghost all = texts(parts@);
    while i < to
        invariant
            from <= i <= to <= parts.len(),
            all == texts(parts@),
            out@ == join(all.subrange(from as int, i as int), sep@),
        decreases to - i,
    {
        if i > from {
            crate::text::push_all(&mut out, sep);
        }
        crate::text::push_all(&mut out, &parts[i]);
        proof {
            let next = all.subrange(from as int, i + 1);
            assert(next.drop_last() =~= all.subrange(from as int, i as int));
            assert(next.last() == parts@[i as int]@);
            if i == from {
                assert(out@ =~= parts@[i as int]@);
            }
        }
        i += 1;
    }
    out
}

} // verus!
