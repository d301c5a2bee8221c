//! File paths as text: their components, file names, extensions and the
//! directories above them, with `/` as the separator.

use crate::split::{split, split_exec, texts};
use crate::text::{chars_of, is_text, push_all, slice_of, string_of, string_views, text_of};
use vstd::prelude::*;

verus! {

/// Whether a piece of a path names a file or directory: it is not empty,
/// and neither `.` nor `..`.
pub open spec fn is_named(piece: Seq<char>) -> bool {
    piece.len() > 0 && piece != "."@ && piece != ".."@
}

/// The pieces that name a file or directory, in order.
pub open spec fn named_among(pieces: Seq<Seq<char>>) -> Seq<Seq<char>>
    decreases pieces.len(),
{
    if pieces.len() == 0 {
        seq![]
    } else if is_named(pieces.last()) {
        named_among(pieces.drop_last()).push(pieces.last())
    } else {
        named_among(pieces.drop_last())
    }
}

/// The components of a path that name a file or directory, in order.
pub open spec fn normal_components(path: Seq<char>) -> Seq<Seq<char>> {
    named_among(split(path, seq!['/']))
}

/// The last of the pieces that is neither empty nor `.`.
pub open spec fn last_piece(pieces: Seq<Seq<char>>) -> Option<Seq<char>>
    decreases pieces.len(),
{
    if pieces.len() == 0 {
        None
    } else if pieces.last().len() > 0 && pieces.last() != "."@ {
        Some(pieces.last())
    } else {
        last_piece(pieces.drop_last())
    }
}

/// The file name of a path: its last component, unless that is `..` or the
/// path has none.
pub open spec fn file_name(path: Seq<char>) -> Option<Seq<char>> {
    match last_piece(split(path, seq!['/'])) {
        Some(p) => if p == ".."@ {
            None
        } else {
            Some(p)
        },
        None => None,
    }
}

/// Position of the last dot among the first `upto` characters of a name.
pub open spec fn last_dot(name: Seq<char>, upto: int) -> Option<int>
    decreases upto,
{
    if upto <= 0 || upto > name.len() {
        None
    } else if name[upto - 1] == '.' {
        Some(upto - 1)
    } else {
        last_dot(name, upto - 1)
    }
}

/// What follows the last dot of a file name, unless the name has no dot or
/// only the one it begins with.
pub open spec fn extension_in(name: Seq<char>) -> Option<Seq<char>> {
    match last_dot(name, name.len() as int) {
        Some(i) => if i > 0 {
            Some(name.subrange(i + 1, name.len() as int))
        } else {
            None
        },
        None => None,
    }
}

/// The extension of a path: that of its file name.
pub open spec fn extension(path: Seq<char>) -> Option<Seq<char>> {
    match file_name(path) {
        Some(n) => extension_in(n),
        None => None,
    }
}

/// The path of `name` under `dir`: `name` itself where it begins at the
/// root or `dir` is empty; else `dir`, a separator unless `dir` ends with
/// one, and `name`.
pub open spec fn joined(dir: Seq<char>, name: Seq<char>) -> Seq<char> {
    if (name.len() > 0 && name[0] == '/') || dir.len() == 0 {
        name
    } else if dir.last() == '/' {
        dir + name
    } else {
        dir + seq!['/'] + name
    }
}

fn pieces_of(path: &str) -> (r: Vec<Vec<char>>)
    ensures
        texts(r@) == split(path@, seq!['/']),
{
    let p = chars_of(path);
    let slash: Vec<char> = vec!['/'];
    assert(slash@ =~= seq!['/']);
    split_exec(&p, &slash)
}

/// The components of a path that name a file or directory.
pub fn normal_components_of(path: &str) -> (r: Vec<String>)
    ensures
        string_views(r@) == normal_components(path@),
{
    let pieces = pieces_of(path);
    let ghost all = texts(pieces@);
    let mut out: Vec<String> = Vec::new();
    let mut i: usize = 0;
    assert(string_views(out@) =~= named_among(all.take(0)));
    while i < pieces.len()
        invariant
            i <= pieces.len(),
            all == texts(pieces@),
            string_views(out@) == named_among(all.take(i as int)),
        decreases pieces.len() - i,
    {
        proof {
            assert(all.take(i + 1).drop_last() =~= all.take(i as int));
            assert(all.take(i + 1).last() == pieces@[i as int]@);
        }
        let piece = &pieces[i];
        if piece.len() > 0 && !is_text(piece, ".") && !is_text(piece, "..") {
            let ghost before = out@;
            let name = string_of(piece);
            out.push(name);
            assert(string_views(out@) =~= string_views(before).push(name@));
        }
        i += 1;
    }
    assert(all.take(pieces@.len() as int) =~= all);
    out
}

/// The file name of a path.
pub fn file_name_of(path: &str) -> (r: Option<String>)
    ensures
        text_of(r) == file_name(path@),
{
    let pieces = pieces_of(path);
    let ghost all = texts(pieces@);
    let mut i: usize = pieces.len();
    assert(all.take(i as int) =~= all);
    while i > 0
        invariant
            i <= pieces.len(),
            all == texts(pieces@),
            all == split(path@, seq!['/']),
            last_piece(all) == last_piece(all.take(i as int)),
        decreases i,
    {
        proof {
            assert(all.take(i as int).drop_last() =~= all.take(i - 1));
            assert(all.take(i as int).last() == pieces@[i - 1]@);
        }
        let piece = &pieces[i - 1];
        if piece.len() > 0 && !is_text(piece, ".") {
            if is_text(piece, "..") {
                return None;
            }
            return Some(string_of(piece));
        }
        i -= 1;
    }
    None
}

fn extension_in_exec(name: &Vec<char>) -> (r: Option<Vec<char>>)
    ensures
        match r {
            Some(e) => extension_in(name@) == Some(e@),
            None => extension_in(name@) is None,
        },
{
    let n = name.len();
    let mut i: usize = n;
    while i > 0
        invariant
            i <= n == name.len(),
            last_dot(name@, n as int) == last_dot(name@, i as int),
        decreases i,
    {
        if name[i - 1] == '.' {
            if i - 1 > 0 {
                return Some(slice_of(name, i, n));
            }
            return None;
        }
        i -= 1;
    }
    None
}

/// The extension of a path.
pub fn extension_of(path: &str) -> (r: Option<String>)
    ensures
        text_of(r) == extension(path@),
{
    match file_name_of(path) {
        Some(name) => {
            let n = chars_of(name.as_str());
            match extension_in_exec(&n) {
                Some(e) => Some(string_of(&e)),
                None => None,
            }
        },
        None => None,
    }
}

/// The path of `name` under `dir`.
pub fn join_path(dir: &str, name: &str) -> (r: String)
    ensures
        r@ == joined(dir@, name@),
{
    let d = chars_of(dir);
    let n = chars_of(name);
    if (n.len() > 0 && n[0] == '/') || d.len() == 0 {
        return string_of(&n);
    }
    let mut out = d;
    if out[out.len() - 1] != '/' {
        out.push('/');
    }
    push_all(&mut out, &n);
    string_of(&out)
}

/// Whether a path begins at the root.
pub open spec fn is_rooted(path: Seq<char>) -> bool {
    path.len() > 0 && path[0] == '/'
}

/// Whether a path begins with the current directory: it is `.`, or begins
/// with `./`.
pub open spec fn begins_here(path: Seq<char>) -> bool {
    path.len() > 0 && path[0] == '.' && (path.len() == 1 || path[1] == '/')
}

/// The length of what stands before the components of a path: the root or
/// the leading `.`, one character, or nothing.
pub open spec fn head_len(path: Seq<char>) -> int {
    if is_rooted(path) || begins_here(path) {
        1
    } else {
        0
    }
}

/// Where the last piece of `path[base..end]` begins: behind its last
/// separator, or at `base` where it has none.
pub open spec fn piece_start(path: Seq<char>, base: int, end: int) -> int
    decreases end,
{
    if base < 0 || end <= base || end > path.len() {
        base
    } else if path[end - 1] == '/' {
        end
    } else {
        piece_start(path, base, end - 1)
    }
}

/// Where the path ends without the piece that begins at `start`, and
/// without the separator before that piece.
pub open spec fn end_before(start: int, base: int) -> int {
    if start > base {
        start - 1
    } else {
        base
    }
}

/// Whether `path[start..end]` is a piece that is no component: it is empty
/// or `.`.
pub open spec fn is_passed_over(path: Seq<char>, start: int, end: int) -> bool {
    end == start || (end == start + 1 && path[start] == '.')
}

/// Where `path[..end]` ends without the pieces at its end that are no
/// components, and without their separators; not before `base`.
pub open spec fn trimmed_end(path: Seq<char>, base: int, end: int) -> int
    decreases end,
{
    if base < 0 || end <= base || end > path.len() {
        base
    } else {
        let start = piece_start(path, base, end);
        let before = end_before(start, base);
        if is_passed_over(path, start, end) && before < end {
            trimmed_end(path, base, before)
        } else {
            end
        }
    }
}

/// The directory above a path: the path without its last component, and
/// without what stands between that and the component before it. A path of
/// nothing but the root, and the empty path, have none; a path with nothing
/// behind its leading `.` has the empty path above it.
pub open spec fn parent(path: Seq<char>) -> Option<Seq<char>> {
    let base = head_len(path);
    let end = trimmed_end(path, base, path.len() as int);
    if end > base {
        let start = piece_start(path, base, end);
        Some(path.subrange(0, trimmed_end(path, base, end_before(start, base))))
    } else if begins_here(path) {
        Some(seq![])
    } else {
        None
    }
}

/// The directories above a path, nearest first: the directory above it,
/// the one above that, and so on.
pub open spec fn ancestors_of(path: Seq<char>) -> Seq<Seq<char>>
    decreases path.len(),
{
    match parent(path) {
        Some(p) => if p.len() < path.len() {
            seq![p] + ancestors_of(p)
        } else {
            seq![p]
        },
        None => seq![],
    }
}

/// The last piece begins between `base` and `end`, behind a separator
/// unless it begins at `base`, and holds no separator.
pub proof fn lemma_piece_start(path: Seq<char>, base: int, end: int)
    requires
        0 <= base <= end <= path.len(),
    ensures
        base <= piece_start(path, base, end) <= end,
        piece_start(path, base, end) > base ==> path[piece_start(path, base, end) - 1] == '/',
        forall|j: int| piece_start(path, base, end) <= j < end ==> path[j] != '/',
    decreases end,
{
    if end > base && path[end - 1] != '/' {
        lemma_piece_start(path, base, end - 1);
    }
}

/// The trimmed end lies between `base` and `end`.
pub proof fn lemma_trimmed_end(path: Seq<char>, base: int, end: int)
    requires
        0 <= base <= end <= path.len(),
    ensures
        base <= trimmed_end(path, base, end) <= end,
    decreases end,
{
    if end > base {
        lemma_piece_start(path, base, end);
        let start = piece_start(path, base, end);
        let before = end_before(start, base);
        if is_passed_over(path, start, end) && before < end {
            lemma_trimmed_end(path, base, before);
        }
    }
}

/// The directory above a path is a shorter beginning of the path.
pub proof fn lemma_parent_shorter(path: Seq<char>)
    ensures
        parent(path) is Some ==> parent(path)->0.len() < path.len() && parent(path)->0
            == path.subrange(0, parent(path)->0.len() as int),
{
    let base = head_len(path);
    lemma_trimmed_end(path, base, path.len() as int);
    let end = trimmed_end(path, base, path.len() as int);
    if end > base {
        lemma_piece_start(path, base, end);
        let before = end_before(piece_start(path, base, end), base);
        lemma_trimmed_end(path, base, before);
    } else if begins_here(path) {
        assert(path.subrange(0, 0) =~= Seq::<char>::empty());
    }
}

fn piece_start_exec(p: &Vec<char>, base: usize, end: usize) -> (r: usize)
    requires
        base <= end <= p.len(),
    ensures
        r == piece_start(p@, base as int, end as int),
        base <= r <= end,
{
    let mut i: usize = end;
    while i > base && p[i - 1] != '/'
        invariant
            base <= i <= end <= p.len(),
            piece_start(p@, base as int, end as int) == piece_start(p@, base as int, i as int),
        decreases i,
    {
        i -= 1;
    }
    i
}

fn trimmed_end_exec(p: &Vec<char>, base: usize, end: usize) -> (r: usize)
    requires
        base <= end <= p.len(),
    ensures
        r == trimmed_end(p@, base as int, end as int),
        base <= r <= end,
{
    let mut e: usize = end;
    while e > base
        invariant
            base <= e <= end <= p.len(),
            trimmed_end(p@, base as int, end as int) == trimmed_end(p@, base as int, e as int),
        decreases e,
    {
        let start = piece_start_exec(p, base, e);
        let before: usize = if start > base {
            start - 1
        } else {
            base
        };
        let passed = e == start || (e == start + 1 && p[start] == '.');
        if passed && before < e {
            e = before;
        } else {
            return e;
        }
    }
    e
}

/// The directory above a path.
pub fn parent_of(path: &str) -> (r: Option<String>)
    ensures
        text_of(r) == parent(path@),
{
    let p = chars_of(path);
    let n = p.len();
    let rooted = n > 0 && p[0] == '/';
    let here = n > 0 && p[0] == '.' && (n == 1 || p[1] == '/');
    let base: usize = if rooted || here {
        1
    } else {
        0
    };
    let end = trimmed_end_exec(&p, base, n);
    if end > base {
        let start = piece_start_exec(&p, base, end);
        let before: usize = if start > base {
            start - 1
        } else {
            base
        };
        let cut = trimmed_end_exec(&p, base, before);
        Some(string_of(&slice_of(&p, 0, cut)))
    } else if here {
        Some(String::new())
    } else {
        None
    }
}

} // verus!
