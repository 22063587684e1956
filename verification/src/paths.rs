//! Paths as `std::path` reads them, on Unix and on Windows.
//!
//! The platform's main separator (`/` on Unix, `\` on Windows) selects the
//! rules. On Unix only `/` separates. On Windows `/` and `\` both separate,
//! except behind a verbatim prefix (`\\?\...`), where only `\` does; and a
//! path may begin with a prefix: a drive (`C:`), a share (`\\server\share`),
//! a device (`\\.\COM1`) or one of the verbatim forms.
//!
//! After the prefix and the root, the path is split into pieces at its
//! separators. Empty pieces are dropped, and so are `.` pieces, except that
//! a path without prefix and root keeps a leading `.`, and a verbatim path
//! keeps every `.`. A `..` piece is a parent component, every other piece
//! a normal one. The root itself is not listed: no caller here uses it.

use vstd::prelude::*;

use crate::text::{chars_of, string_of};

verus! {

// ---------------------------------------------------------------- separators

/// The platform's main path separator (`std::path::MAIN_SEPARATOR`).
/// Trusted: `std` documents it as `/` on Unix and `\` on Windows, the two
/// kinds of path that `std::path` knows.
#[verifier::external_body]
pub fn main_separator() -> (c: char)
    ensures
        c == '/' || c == '\\',
{
    std::path::MAIN_SEPARATOR
}

/// Whether `c` separates pieces on Windows outside verbatim paths.
pub open spec fn win_sep(c: char) -> bool {
    c == '/' || c == '\\'
}

/// `c`, with `/` read as `\` (how Windows matches the start of a prefix).
pub open spec fn nsep(c: char) -> char {
    if c == '/' {
        '\\'
    } else {
        c
    }
}

/// Whether `c` is an ASCII letter, as a drive letter must be.
pub open spec fn is_drive_letter(c: char) -> bool {
    ('a' <= c && c <= 'z') || ('A' <= c && c <= 'Z')
}

/// The index of the first separator at or after `from` (only `\` counts
/// when `verbatim`), or the length of `s` where there is none.
pub open spec fn next_sep(s: Seq<char>, from: int, verbatim: bool) -> int
    decreases s.len() - from,
{
    if from >= s.len() {
        s.len() as int
    } else if (if verbatim { s[from] == '\\' } else { win_sep(s[from]) }) {
        from
    } else {
        next_sep(s, from + 1, verbatim)
    }
}

/// The Windows prefix of `s`, if it has one: its length, whether it is
/// verbatim (`\\?\...`), and whether it is a plain drive (`C:`).
pub open spec fn win_prefix(s: Seq<char>) -> Option<(int, bool, bool)> {
    if s.len() >= 2 && nsep(s[0]) == '\\' && nsep(s[1]) == '\\' {
        if s.len() >= 4 && s[0] == '\\' && s[1] == '\\' && s[2] == '?' && s[3] == '\\' {
            if s.len() >= 8 && s[4] == 'U' && s[5] == 'N' && s[6] == 'C' && nsep(s[7]) == '\\' {
                // \\?\UNC\server\share
                let e1 = next_sep(s, 8, true);
                if e1 < s.len() && next_sep(s, e1 + 1, true) > e1 + 1 {
                    Some((next_sep(s, e1 + 1, true), true, false))
                } else {
                    Some((e1, true, false))
                }
            } else if s.len() >= 6 && is_drive_letter(s[4]) && s[5] == ':' && (s.len() == 6 || win_sep(s[6])) {
                // \\?\C:
                Some((6, true, false))
            } else {
                // \\?\name
                Some((next_sep(s, 4, true), true, false))
            }
        } else if s.len() >= 4 && s[2] == '.' && nsep(s[3]) == '\\' {
            // \\.\device
            Some((next_sep(s, 4, false), false, false))
        } else {
            // \\server\share
            let e1 = next_sep(s, 2, false);
            if e1 > 2 && e1 < s.len() && next_sep(s, e1 + 1, false) > e1 + 1 {
                Some((next_sep(s, e1 + 1, false), false, false))
            } else {
                None
            }
        }
    } else if s.len() >= 2 && is_drive_letter(s[0]) && s[1] == ':' {
        Some((2, false, true))
    } else {
        None
    }
}

// ---------------------------------------------------------------- pieces

/// The pieces of `s` between the characters `a` and `b`, in order; there is
/// always one more piece than there are separators.
pub open spec fn split_pieces(s: Seq<char>, a: char, b: char) -> Seq<Seq<char>>
    decreases s.len(),
{
    if s.len() == 0 {
        seq![Seq::empty()]
    } else {
        let init = split_pieces(s.drop_last(), a, b);
        if s.last() == a || s.last() == b {
            init.push(Seq::empty())
        } else {
            init.update(init.len() - 1, init.last().push(s.last()))
        }
    }
}

/// The text `.`.
pub open spec fn cur_dir() -> Seq<char> {
    seq!['.']
}

/// The text `..`.
pub open spec fn parent_dir() -> Seq<char> {
    seq!['.', '.']
}

/// The kinds of the components of a path (the root is not listed).
#[derive(PartialEq, Eq, Structural, Clone, Copy, Debug)]
pub enum PartKind {
    Prefix,
    CurDir,
    ParentDir,
    Normal,
}

/// A component: its kind and its text.
pub type PartView = (PartKind, Seq<char>);

/// The kind of a piece between separators.
pub open spec fn piece_kind(p: Seq<char>) -> PartKind {
    if p == parent_dir() {
        PartKind::ParentDir
    } else if p == cur_dir() {
        PartKind::CurDir
    } else {
        PartKind::Normal
    }
}

/// Whether the piece at `index` is a component: it is not empty, and it
/// is not `.` unless dots are kept or it leads a path that may keep it.
pub open spec fn keeps_piece(piece: Seq<char>, index: int, keep_dots: bool, lead: bool) -> bool {
    piece.len() > 0 && (piece != cur_dir() || keep_dots || (index == 0 && lead))
}

/// The components among the first `n` pieces.
pub open spec fn kept_pieces(pieces: Seq<Seq<char>>, n: int, keep_dots: bool, lead: bool) -> Seq<PartView>
    decreases n,
{
    if n <= 0 {
        Seq::empty()
    } else if keeps_piece(pieces[n - 1], n - 1, keep_dots, lead) {
        kept_pieces(pieces, n - 1, keep_dots, lead).push((piece_kind(pieces[n - 1]), pieces[n - 1]))
    } else {
        kept_pieces(pieces, n - 1, keep_dots, lead)
    }
}

// ---------------------------------------------------------------- layout

/// The prefix of `s` under the rules of separator `sep`.
pub open spec fn prefix_of(s: Seq<char>, sep: char) -> Option<(int, bool, bool)> {
    if sep == '\\' {
        win_prefix(s)
    } else {
        None
    }
}

/// The length of the prefix (0 where there is none).
pub open spec fn prefix_len(s: Seq<char>, sep: char) -> int {
    match prefix_of(s, sep) {
        Some(p) => p.0,
        None => 0,
    }
}

/// Whether the path has a verbatim prefix.
pub open spec fn is_verbatim(s: Seq<char>, sep: char) -> bool {
    match prefix_of(s, sep) {
        Some(p) => p.1,
        None => false,
    }
}

/// Whether `c` is a separator where a root may stand.
pub open spec fn root_sep(c: char, sep: char) -> bool {
    if sep == '\\' {
        win_sep(c)
    } else {
        c == '/'
    }
}

/// Whether a separator (the root) follows the prefix.
pub open spec fn has_root(s: Seq<char>, sep: char) -> bool {
    prefix_len(s, sep) < s.len() && root_sep(s[prefix_len(s, sep)], sep)
}

/// Where the pieces begin: after the prefix and the root.
pub open spec fn body_start(s: Seq<char>, sep: char) -> int {
    prefix_len(s, sep) + if has_root(s, sep) { 1int } else { 0int }
}

/// The first separator character between pieces.
pub open spec fn piece_sep_a(s: Seq<char>, sep: char) -> char {
    if sep == '\\' && !is_verbatim(s, sep) {
        '/'
    } else {
        sep
    }
}

/// The components of `s` after its prefix and root.
pub open spec fn body_parts(s: Seq<char>, sep: char) -> Seq<PartView> {
    let pieces = split_pieces(s.subrange(body_start(s, sep), s.len() as int), piece_sep_a(s, sep), sep);
    kept_pieces(
        pieces,
        pieces.len() as int,
        is_verbatim(s, sep),
        prefix_of(s, sep) is None && !has_root(s, sep),
    )
}

/// The components of the path `s`, without its root, under the rules of
/// the separator `sep`.
pub open spec fn path_parts(s: Seq<char>, sep: char) -> Seq<PartView> {
    match prefix_of(s, sep) {
        Some(p) => seq![(PartKind::Prefix, s.take(p.0))] + body_parts(s, sep),
        None => body_parts(s, sep),
    }
}

/// The file name of `s`: its last component, if that is a normal one.
pub open spec fn file_name_of(s: Seq<char>, sep: char) -> Option<Seq<char>> {
    let c = path_parts(s, sep);
    if c.len() > 0 && c.last().0 == PartKind::Normal {
        Some(c.last().1)
    } else {
        None
    }
}

/// The index of the last `ch` in `s`, or -1 where there is none.
pub open spec fn last_index_of(s: Seq<char>, ch: char) -> int
    decreases s.len(),
{
    if s.len() == 0 {
        -1
    } else if s.last() == ch {
        s.len() - 1
    } else {
        last_index_of(s.drop_last(), ch)
    }
}

/// The extension of a file name: what follows its last `.`, where that `.`
/// is not the name's first character.
pub open spec fn extension_of_name(name: Seq<char>) -> Option<Seq<char>> {
    let i = last_index_of(name, '.');
    if i > 0 {
        Some(name.subrange(i + 1, name.len() as int))
    } else {
        None
    }
}

/// The extension of the file name of `s`, if it has both.
pub open spec fn extension_of(s: Seq<char>, sep: char) -> Option<Seq<char>> {
    match file_name_of(s, sep) {
        Some(name) => extension_of_name(name),
        None => None,
    }
}

// ---------------------------------------------------------------- pushing

/// `PathBuf::push` on Unix, of a relative part: a `/` goes between unless
/// `base` is empty or already ends with one.
pub open spec fn joined_path(base: Seq<char>, name: Seq<char>) -> Seq<char> {
    if base.len() == 0 || base.last() == '/' {
        base + name
    } else {
        base + seq!['/'] + name
    }
}

/// Whether `s` is exactly a drive, such as `C:`.
pub open spec fn is_exact_drive(s: Seq<char>) -> bool {
    s.len() == 2 && is_drive_letter(s[0]) && s[1] == ':'
}

/// `PathBuf::push` on Windows of a part `t` without separators onto a path
/// `base` without verbatim prefix: a part with a prefix (a drive) replaces
/// `base`; otherwise a `\` goes between unless `base` is empty, is exactly
/// a drive, or already ends with a separator.
pub open spec fn win_pushed(base: Seq<char>, t: Seq<char>) -> Seq<char> {
    if win_prefix(t) is Some {
        t
    } else if base.len() == 0 || is_exact_drive(base) || win_sep(base.last()) {
        base + t
    } else {
        base + seq!['\\'] + t
    }
}

/// `PathBuf::push` of a part without separators, under the rules of `sep`.
pub open spec fn pushed(base: Seq<char>, t: Seq<char>, sep: char) -> Seq<char> {
    if sep == '\\' {
        win_pushed(base, t)
    } else {
        joined_path(base, t)
    }
}


// ---------------------------------------------------------------- components

/// A component of a path: its kind and its characters.
#[derive(Debug)]
pub struct PathPart {
    pub kind: PartKind,
    pub text: Vec<char>,
}

impl View for PathPart {
    type V = PartView;

    open spec fn view(&self) -> PartView {
        (self.kind, self.text@)
    }
}

/// The values of a sequence of components.
pub open spec fn part_views(v: Seq<PathPart>) -> Seq<PartView> {
    Seq::new(v.len(), |i: int| v[i]@)
}

proof fn lemma_split_nonempty(s: Seq<char>, a: char, b: char)
    ensures
        split_pieces(s, a, b).len() >= 1,
    decreases s.len(),
{
    if s.len() > 0 {
        lemma_split_nonempty(s.drop_last(), a, b);
    }
}

proof fn lemma_last_index_bounds(s: Seq<char>, ch: char)
    ensures
        -1 <= last_index_of(s, ch) < s.len(),
        last_index_of(s, ch) >= 0 ==> s[last_index_of(s, ch)] == ch,
        forall|j: int| last_index_of(s, ch) < j < s.len() ==> s[j] != ch,
    decreases s.len(),
{
    if s.len() > 0 && s.last() != ch {
        lemma_last_index_bounds(s.drop_last(), ch);
        assert forall|j: int| last_index_of(s, ch) < j < s.len() implies s[j] != ch by {
            if j < s.len() - 1 {
                assert(s.drop_last()[j] == s[j]);
            }
        }
    }
}

proof fn lemma_next_sep_bounds(s: Seq<char>, from: int, verbatim: bool)
    requires
        0 <= from,
    ensures
        from <= next_sep(s, from, verbatim) <= s.len() || (from > s.len() && next_sep(s, from, verbatim) == s.len()),
    decreases s.len() - from,
{
    if from < s.len() {
        lemma_next_sep_bounds(s, from + 1, verbatim);
    }
}

proof fn lemma_is_cur_dir(p: Seq<char>)
    ensures
        (p == cur_dir()) <==> (p.len() == 1 && p[0] == '.'),
        (p == parent_dir()) <==> (p.len() == 2 && p[0] == '.' && p[1] == '.'),
{
    if p.len() == 1 && p[0] == '.' {
        assert(p =~= cur_dir());
    }
    if p.len() == 2 && p[0] == '.' && p[1] == '.' {
        assert(p =~= parent_dir());
    }
}

/// `kept_pieces` of a prefix depends only on the pieces in that prefix.
proof fn lemma_kept_prefix(a: Seq<Seq<char>>, b: Seq<Seq<char>>, k: int, m: int, keep_dots: bool, lead: bool)
    requires
        0 <= k <= m,
        m < a.len(),
        m < b.len(),
        forall|j: int| 0 <= j < m ==> a[j] == b[j],
    ensures
        kept_pieces(a, k, keep_dots, lead) == kept_pieces(b, k, keep_dots, lead),
    decreases k,
{
    if k > 0 {
        lemma_kept_prefix(a, b, k - 1, m, keep_dots, lead);
    }
}

/// The index of the first separator at or after `from`.
fn next_sep_exec(s: &Vec<char>, from: usize, verbatim: bool) -> (r: usize)
    requires
        from <= s@.len(),
    ensures
        r == next_sep(s@, from as int, verbatim),
        from <= r <= s@.len(),
{
    let mut j = from;
    while j < s.len() && !is_piece_sep_exec(s[j], verbatim)
        invariant
            from <= j <= s@.len(),
            next_sep(s@, from as int, verbatim) == next_sep(s@, j as int, verbatim),
        decreases s.len() - j,
    {
        j = j + 1;
    }
    j
}

fn is_piece_sep_exec(c: char, verbatim: bool) -> (r: bool)
    ensures
        r == (if verbatim { c == '\\' } else { win_sep(c) }),
{
    if verbatim {
        c == '\\'
    } else {
        c == '/' || c == '\\'
    }
}

fn is_drive_letter_exec(c: char) -> (r: bool)
    ensures
        r == is_drive_letter(c),
{
    ('a' <= c && c <= 'z') || ('A' <= c && c <= 'Z')
}

fn is_win_sep_exec(c: char) -> (r: bool)
    ensures
        r == win_sep(c),
        r == (nsep(c) == '\\'),
{
    c == '/' || c == '\\'
}

/// The Windows prefix of `s`, as `win_prefix` describes it.
pub fn win_prefix_exec(s: &Vec<char>) -> (r: Option<(usize, bool, bool)>)
    ensures
        match r {
            Some(p) => win_prefix(s@) == Some((p.0 as int, p.1, p.2)),
            None => win_prefix(s@) is None,
        },
{
    let n = s.len();
    if n >= 2 && is_win_sep_exec(s[0]) && is_win_sep_exec(s[1]) {
        if n >= 4 && s[0] == '\\' && s[1] == '\\' && s[2] == '?' && s[3] == '\\' {
            if n >= 8 && s[4] == 'U' && s[5] == 'N' && s[6] == 'C' && is_win_sep_exec(s[7]) {
                let e1 = next_sep_exec(s, 8, true);
                if e1 < n {
                    let e2 = next_sep_exec(s, e1 + 1, true);
                    if e2 > e1 + 1 {
                        return Some((e2, true, false));
                    }
                }
                Some((e1, true, false))
            } else if n >= 6 && is_drive_letter_exec(s[4]) && s[5] == ':' && (n == 6 || is_win_sep_exec(s[6])) {
                Some((6, true, false))
            } else {
                Some((next_sep_exec(s, 4, true), true, false))
            }
        } else if n >= 4 && s[2] == '.' && is_win_sep_exec(s[3]) {
            Some((next_sep_exec(s, 4, false), false, false))
        } else {
            let e1 = next_sep_exec(s, 2, false);
            if e1 > 2 && e1 < n {
                let e2 = next_sep_exec(s, e1 + 1, false);
                if e2 > e1 + 1 {
                    return Some((e2, false, false));
                }
            }
            None
        }
    } else if n >= 2 && is_drive_letter_exec(s[0]) && s[1] == ':' {
        Some((2, false, true))
    } else {
        None
    }
}

/// The components among the pieces of `body` between `a` and `b`.
fn split_body(body: &Vec<char>, a: char, b: char, keep_dots: bool, lead: bool) -> (r: Vec<PathPart>)
    ensures
        part_views(r@) == kept_pieces(
            split_pieces(body@, a, b),
            split_pieces(body@, a, b).len() as int,
            keep_dots,
            lead,
        ),
{
    let n = body.len();
    let mut out: Vec<PathPart> = Vec::new();
    let mut cur: Vec<char> = Vec::new();
    let mut done: usize = 0;
    let mut i: usize = 0;
    proof {
        assert(body@.take(0) =~= Seq::<char>::empty());
    }
    while i < n
        invariant
            n == body@.len(),
            i <= n,
            done <= i,
            split_pieces(body@.take(i as int), a, b).len() == done + 1,
            cur@ == split_pieces(body@.take(i as int), a, b)[done as int],
            part_views(out@) == kept_pieces(split_pieces(body@.take(i as int), a, b), done as int, keep_dots, lead),
        decreases n - i,
    {
        let ghost pre = split_pieces(body@.take(i as int), a, b);
        let c = body[i];
        let ghost t = body@.take(i + 1);
        assert(t.drop_last() =~= body@.take(i as int));
        assert(t.last() == c);
        let ghost post = split_pieces(t, a, b);
        proof {
            lemma_split_nonempty(t, a, b);
            lemma_is_cur_dir(cur@);
        }
        if c == a || c == b {
            assert(post == pre.push(Seq::<char>::empty()));
            proof {
                lemma_kept_prefix(pre, post, done as int, done as int, keep_dots, lead);
            }
            let is_dot = cur.len() == 1 && cur[0] == '.';
            let keep = cur.len() > 0 && (!is_dot || keep_dots || (done == 0 && lead));
            assert(keep == keeps_piece(pre[done as int], done as int, keep_dots, lead));
            let kind = if cur.len() == 2 && cur[0] == '.' && cur[1] == '.' {
                PartKind::ParentDir
            } else if is_dot {
                PartKind::CurDir
            } else {
                PartKind::Normal
            };
            assert(kind == piece_kind(pre[done as int]));
            let piece = cur;
            cur = Vec::new();
            if keep {
                out.push(PathPart { kind, text: piece });
                assert(part_views(out@) =~= kept_pieces(pre, done as int, keep_dots, lead).push(
                    (piece_kind(pre[done as int]), pre[done as int]),
                ));
            }
            done = done + 1;
            assert(cur@ =~= post[done as int]);
        } else {
            cur.push(c);
            assert(cur@ =~= post[done as int]);
            proof {
                lemma_kept_prefix(pre, post, done as int, done as int, keep_dots, lead);
            }
        }
        i = i + 1;
    }
    assert(body@.take(n as int) =~= body@);
    let ghost all = split_pieces(body@, a, b);
    proof {
        lemma_is_cur_dir(cur@);
    }
    let is_dot = cur.len() == 1 && cur[0] == '.';
    let keep = cur.len() > 0 && (!is_dot || keep_dots || (done == 0 && lead));
    assert(keep == keeps_piece(all[done as int], done as int, keep_dots, lead));
    if keep {
        let kind = if cur.len() == 2 && cur[0] == '.' && cur[1] == '.' {
            PartKind::ParentDir
        } else if is_dot {
            PartKind::CurDir
        } else {
            PartKind::Normal
        };
        out.push(PathPart { kind, text: cur });
        assert(part_views(out@) =~= kept_pieces(all, done as int, keep_dots, lead).push(
            (piece_kind(all[done as int]), all[done as int]),
        ));
    }
    out
}

/// The characters of `s` from `from` on.
pub fn chars_from(s: &Vec<char>, from: usize) -> (r: Vec<char>)
    requires
        from <= s@.len(),
    ensures
        r@ == s@.subrange(from as int, s@.len() as int),
{
    let mut r: Vec<char> = Vec::new();
    let mut k = from;
    while k < s.len()
        invariant
            from <= k <= s@.len(),
            r@ == s@.subrange(from as int, k as int),
        decreases s.len() - k,
    {
        r.push(s[k]);
        k = k + 1;
        assert(r@ =~= s@.subrange(from as int, k as int));
    }
    r
}

/// The first `to` characters of `s`.
pub fn chars_to(s: &Vec<char>, to: usize) -> (r: Vec<char>)
    requires
        to <= s@.len(),
    ensures
        r@ == s@.take(to as int),
{
    let mut r: Vec<char> = Vec::new();
    let mut k: usize = 0;
    while k < to
        invariant
            k <= to <= s@.len(),
            r@ == s@.take(k as int),
        decreases to - k,
    {
        r.push(s[k]);
        k = k + 1;
        assert(r@ =~= s@.take(k as int));
    }
    r
}

/// The components of `path` (without its root) under the rules of the
/// separator `sep`.
pub fn parts_with(path: &str, sep: char) -> (r: Vec<PathPart>)
    requires
        sep == '/' || sep == '\\',
    ensures
        part_views(r@) == path_parts(path@, sep),
{
    let chars = chars_of(path);
    let n = chars.len();
    let pre = if sep == '\\' { win_prefix_exec(&chars) } else { None };
    let (p, verbatim) = match pre {
        Some(x) => (x.0, x.1),
        None => (0, false),
    };
    proof {
        if pre is Some {
            let w = win_prefix(chars@);
            assert(w is Some);
            lemma_prefix_len_bound(chars@);
        }
    }
    assert(p == prefix_len(path@, sep));
    assert(p <= n);
    let root = p < n && (chars[p] == '/' || (sep == '\\' && chars[p] == '\\'));
    assert(root == has_root(path@, sep));
    let start = if root { p + 1 } else { p };
    let body = chars_from(&chars, start);
    let a = if sep == '\\' && !verbatim { '/' } else { sep };
    let lead = pre.is_none() && !root;
    let rest = split_body(&body, a, sep, verbatim, lead);
    match pre {
        Some(_) => {
            let mut r: Vec<PathPart> = Vec::new();
            r.push(PathPart { kind: PartKind::Prefix, text: chars_to(&chars, p) });
            let ghost first = part_views(r@);
            let mut rest = rest;
            r.append(&mut rest);
            assert(part_views(r@) =~= first + body_parts(path@, sep));
            r
        },
        None => rest,
    }
}

proof fn lemma_prefix_len_bound(s: Seq<char>)
    ensures
        win_prefix(s) matches Some(p) ==> 0 <= p.0 <= s.len(),
{
    lemma_next_sep_bounds(s, 8, true);
    lemma_next_sep_bounds(s, 4, true);
    lemma_next_sep_bounds(s, 4, false);
    lemma_next_sep_bounds(s, 2, false);
    if s.len() >= 8 {
        let e1 = next_sep(s, 8, true);
        lemma_next_sep_bounds(s, e1 + 1, true);
    }
    let e = next_sep(s, 2, false);
    if e >= 2 {
        lemma_next_sep_bounds(s, e + 1, false);
    }
}

/// The characters of the file name of `path` under the rules of `sep`.
pub fn file_name_chars_with(path: &str, sep: char) -> (r: Option<Vec<char>>)
    requires
        sep == '/' || sep == '\\',
    ensures
        match r {
            Some(v) => file_name_of(path@, sep) == Some(v@),
            None => file_name_of(path@, sep) is None,
        },
{
    let mut parts = parts_with(path, sep);
    if parts.len() == 0 {
        return None;
    }
    let ghost c = path_parts(path@, sep);
    let last = parts.pop().unwrap();
    assert(last@ == c.last());
    if last.kind == PartKind::Normal {
        Some(last.text)
    } else {
        None
    }
}

/// The file name of `path` under the rules of `sep`.
pub fn file_name_with(path: &str, sep: char) -> (r: Option<String>)
    requires
        sep == '/' || sep == '\\',
    ensures
        r.deep_view() == file_name_of(path@, sep),
{
    match file_name_chars_with(path, sep) {
        Some(name) => Some(string_of(&name)),
        None => None,
    }
}

/// The file name of `path` on this platform, as `Path::file_name` gives it.
pub fn file_name(path: &str) -> (r: Option<String>)
    ensures
        r.deep_view() == file_name_of(path@, '/') || r.deep_view() == file_name_of(path@, '\\'),
{
    file_name_with(path, main_separator())
}

/// The index of the last `.` in `name`, if there is one.
fn last_dot(name: &Vec<char>) -> (r: Option<usize>)
    ensures
        match r {
            Some(i) => i == last_index_of(name@, '.'),
            None => last_index_of(name@, '.') == -1,
        },
{
    let mut j = name.len();
    assert(name@.take(j as int) =~= name@);
    while j > 0
        invariant
            j <= name@.len(),
            last_index_of(name@, '.') == last_index_of(name@.take(j as int), '.'),
        decreases j,
    {
        let ghost t = name@.take(j as int);
        assert(t.drop_last() =~= name@.take(j - 1));
        if name[j - 1] == '.' {
            return Some(j - 1);
        }
        j = j - 1;
    }
    None
}

/// The extension of a file name: what follows its last `.`, where that `.`
/// is not the name's first character.
pub fn extension_of_name_chars(name: &Vec<char>) -> (r: Option<String>)
    ensures
        r.deep_view() == extension_of_name(name@),
        r is Some <==> exists|i: int| 0 < i < name@.len() && name@[i] == '.',
        r matches Some(e) ==> {
            &&& e@.len() + 1 < name@.len()
            &&& name@[name@.len() - e@.len() - 1] == '.'
            &&& name@.subrange(name@.len() - e@.len(), name@.len() as int) == e@
            &&& !e@.contains('.')
        },
{
    proof {
        lemma_extension_of_name_exact(name@);
    }
    match last_dot(name) {
        Some(i) => {
            if i == 0 {
                None
            } else {
                proof {
                    lemma_last_index_bounds(name@, '.');
                }
                assert(i < name.len());
                Some(string_of(&chars_from(name, i + 1)))
            }
        },
        None => None,
    }
}

/// The extension of the file name of `path` under the rules of `sep`.
pub fn extension_with(path: &str, sep: char) -> (r: Option<String>)
    requires
        sep == '/' || sep == '\\',
    ensures
        r.deep_view() == extension_of(path@, sep),
        r is Some <==> (file_name_of(path@, sep) matches Some(n) && exists|i: int| 0 < i < n.len() && n[i] == '.'),
        r matches Some(e) ==> (file_name_of(path@, sep) matches Some(n) && {
            &&& e@.len() + 1 < n.len()
            &&& n[n.len() - e@.len() - 1] == '.'
            &&& n.subrange(n.len() - e@.len(), n.len() as int) == e@
            &&& !e@.contains('.')
        }),
{
    proof {
        lemma_extension_of_path_exact(path@, sep);
    }
    match file_name_chars_with(path, sep) {
        Some(name) => extension_of_name_chars(&name),
        None => None,
    }
}

/// The extension of `path` on this platform, as `Path::extension` gives it.
pub fn extension(path: &str) -> (r: Option<String>)
    ensures
        r.deep_view() == extension_of(path@, '/') || r.deep_view() == extension_of(path@, '\\'),
{
    extension_with(path, main_separator())
}

/// A file name with an extension is its stem (not empty), a `.`, and the
/// extension, which holds no `.`.
pub proof fn lemma_name_is_stem_dot_extension(path: Seq<char>, sep: char)
    requires
        extension_of(path, sep) is Some,
    ensures
        file_name_of(path, sep) is Some,
        ({
            let n = file_name_of(path, sep)->0;
            let e = extension_of(path, sep)->0;
            &&& n.len() > e.len() + 1
            &&& n == n.subrange(0, n.len() - e.len() - 1) + seq!['.'] + e
            &&& !e.contains('.')
        }),
{
    let n = file_name_of(path, sep)->0;
    let i = last_index_of(n, '.');
    lemma_last_index_bounds(n, '.');
    let e = n.subrange(i + 1, n.len() as int);
    assert(n =~= n.subrange(0, i) + seq!['.'] + e);
    assert(n.len() - e.len() - 1 == i);
    if e.contains('.') {
        let j = choose|j: int| 0 <= j < e.len() && e[j] == '.';
        assert(n[i + 1 + j] == '.');
    }
}

/// `PathBuf::push` (`std::path`): `base` with `part` pushed onto it, as
/// text. Nothing is stated of the result: only the paths with a verbatim
/// prefix use it, whose normalization the documentation does not spell out.
#[verifier::external_body]
pub(crate) fn std_pushed(base: &str, part: &str) -> String {
    let mut p = std::path::PathBuf::from(base);
    p.push(part);
    p.to_string_lossy().to_string()
}

/// Whether `s` is exactly a drive, such as `C:`.
fn is_exact_drive_exec(s: &Vec<char>) -> (r: bool)
    ensures
        r == is_exact_drive(s@),
{
    s.len() == 2 && is_drive_letter_exec(s[0]) && s[1] == ':'
}

/// `base` with the part `t` (without separators) pushed onto it, under the
/// rules of `sep`, for a `base` without verbatim prefix.
pub fn push_part(base: &Vec<char>, t: &Vec<char>, sep: char) -> (r: Vec<char>)
    ensures
        r@ == pushed(base@, t@, sep),
{
    if sep == '\\' {
        if win_prefix_exec(t).is_some() {
            return chars_to(t, t.len());
        }
        let mut r = chars_to(base, base.len());
        if !(base.len() == 0 || is_exact_drive_exec(base) || is_win_sep_exec(base[base.len() - 1])) {
            r.push('\\');
        }
        let mut k: usize = 0;
        let ghost start = r@;
        while k < t.len()
            invariant
                k <= t@.len(),
                r@ == start + t@.take(k as int),
            decreases t.len() - k,
        {
            r.push(t[k]);
            k = k + 1;
            assert(r@ =~= start + t@.take(k as int));
        }
        assert(t@.take(t.len() as int) =~= t@);
        assert(base@.take(base.len() as int) =~= base@);
        r
    } else {
        let mut r = chars_to(base, base.len());
        assert(base@.take(base.len() as int) =~= base@);
        if base.len() > 0 && base[base.len() - 1] != '/' {
            r.push('/');
        }
        let mut k: usize = 0;
        let ghost start = r@;
        while k < t.len()
            invariant
                k <= t@.len(),
                r@ == start + t@.take(k as int),
            decreases t.len() - k,
        {
            r.push(t[k]);
            k = k + 1;
            assert(r@ =~= start + t@.take(k as int));
        }
        assert(t@.take(t.len() as int) =~= t@);
        r
    }
}

proof fn lemma_split_no_sep(s: Seq<char>, a: char, b: char)
    ensures
        forall|j: int| 0 <= j < split_pieces(s, a, b).len() ==> {
            &&& !(#[trigger] split_pieces(s, a, b)[j]).contains(a)
            &&& !split_pieces(s, a, b)[j].contains(b)
        },
    decreases s.len(),
{
    if s.len() > 0 {
        let init = split_pieces(s.drop_last(), a, b);
        lemma_split_no_sep(s.drop_last(), a, b);
        lemma_split_nonempty(s.drop_last(), a, b);
        if s.last() != a && s.last() != b {
            let last = init.last().push(s.last());
            assert forall|j: int| 0 <= j < split_pieces(s, a, b).len() implies {
                &&& !(#[trigger] split_pieces(s, a, b)[j]).contains(a)
                &&& !split_pieces(s, a, b)[j].contains(b)
            } by {
                if j == init.len() - 1 {
                    if last.contains(a) {
                        let k = choose|k: int| 0 <= k < last.len() && last[k] == a;
                        assert(init.last()[k] == a);
                        assert(init[init.len() - 1].contains(a));
                    }
                    if last.contains(b) {
                        let k = choose|k: int| 0 <= k < last.len() && last[k] == b;
                        assert(init.last()[k] == b);
                        assert(init[init.len() - 1].contains(b));
                    }
                }
            }
        } else {
            assert forall|j: int| 0 <= j < split_pieces(s, a, b).len() implies {
                &&& !(#[trigger] split_pieces(s, a, b)[j]).contains(a)
                &&& !split_pieces(s, a, b)[j].contains(b)
            } by {
                if j == init.len() {
                    assert(split_pieces(s, a, b)[j] =~= Seq::<char>::empty());
                }
            }
        }
    }
}

proof fn lemma_kept_origin(p: Seq<Seq<char>>, n: int, keep_dots: bool, lead: bool)
    requires
        0 <= n <= p.len(),
    ensures
        forall|k: int| 0 <= k < kept_pieces(p, n, keep_dots, lead).len() ==> exists|j: int|
            0 <= j < n && #[trigger] kept_pieces(p, n, keep_dots, lead)[k] == (piece_kind(p[j]), p[j])
                && keeps_piece(p[j], j, keep_dots, lead),
    decreases n,
{
    if n > 0 {
        lemma_kept_origin(p, n - 1, keep_dots, lead);
        let pre = kept_pieces(p, n - 1, keep_dots, lead);
        assert forall|k: int| 0 <= k < kept_pieces(p, n, keep_dots, lead).len() implies exists|j: int|
            0 <= j < n && #[trigger] kept_pieces(p, n, keep_dots, lead)[k] == (piece_kind(p[j]), p[j])
                && keeps_piece(p[j], j, keep_dots, lead) by {
            if k < pre.len() {
                let j = choose|j: int| 0 <= j < n - 1 && #[trigger] pre[k] == (piece_kind(p[j]), p[j])
                    && keeps_piece(p[j], j, keep_dots, lead);
                assert(kept_pieces(p, n, keep_dots, lead)[k] == pre[k]);
            } else {
                assert(kept_pieces(p, n, keep_dots, lead)[k] == (piece_kind(p[n - 1]), p[n - 1]));
            }
        }
    }
}

/// Only the first component can be a prefix, and only where the path has
/// one; every other component is a non-empty text without separators,
/// whose kind is that of its text (`.`, `..`, or normal).
pub proof fn lemma_parts_well_formed(s: Seq<char>, sep: char)
    requires
        sep == '/' || sep == '\\',
    ensures
        forall|i: int| 0 <= i < path_parts(s, sep).len() ==> {
            &&& ((#[trigger] path_parts(s, sep)[i]).0 == PartKind::Prefix <==> (i == 0 && prefix_of(s, sep) is Some))
            &&& (path_parts(s, sep)[i].0 != PartKind::Prefix ==> {
                &&& path_parts(s, sep)[i].1.len() > 0
                &&& !path_parts(s, sep)[i].1.contains(sep)
                &&& !path_parts(s, sep)[i].1.contains(piece_sep_a(s, sep))
                &&& path_parts(s, sep)[i].0 == piece_kind(path_parts(s, sep)[i].1)
            })
        },
{
    let body = s.subrange(body_start(s, sep), s.len() as int);
    let a = piece_sep_a(s, sep);
    let pieces = split_pieces(body, a, sep);
    let kd = is_verbatim(s, sep);
    let lead = prefix_of(s, sep) is None && !has_root(s, sep);
    lemma_split_no_sep(body, a, sep);
    lemma_kept_origin(pieces, pieces.len() as int, kd, lead);
    let bp = body_parts(s, sep);
    assert forall|k: int| 0 <= k < bp.len() implies {
        &&& bp[k].0 != PartKind::Prefix
        &&& bp[k].1.len() > 0
        &&& !bp[k].1.contains(sep)
        &&& !bp[k].1.contains(a)
        &&& bp[k].0 == piece_kind(bp[k].1)
    } by {
        let j = choose|j: int| 0 <= j < pieces.len() && #[trigger] kept_pieces(pieces, pieces.len() as int, kd, lead)[k]
            == (piece_kind(pieces[j]), pieces[j]) && keeps_piece(pieces[j], j, kd, lead);
        assert(!pieces[j].contains(a) && !pieces[j].contains(sep));
    }
    let pp = path_parts(s, sep);
    assert forall|i: int| 0 <= i < pp.len() implies {
        &&& ((#[trigger] pp[i]).0 == PartKind::Prefix <==> (i == 0 && prefix_of(s, sep) is Some))
        &&& (pp[i].0 != PartKind::Prefix ==> {
            &&& pp[i].1.len() > 0
            &&& !pp[i].1.contains(sep)
            &&& !pp[i].1.contains(a)
            &&& pp[i].0 == piece_kind(pp[i].1)
        })
    } by {
        if prefix_of(s, sep) is Some {
            if i > 0 {
                assert(pp[i] == bp[i - 1]);
            }
        } else {
            assert(pp[i] == bp[i]);
        }
    }
}

/// Whether `c` separates the pieces of the body of `s`.
pub open spec fn is_piece_sep(s: Seq<char>, c: char, sep: char) -> bool {
    c == piece_sep_a(s, sep) || c == sep
}

/// Whether the characters of `s` from index `j` on make up the last piece
/// of its body: they begin where the body begins or after a separator.
pub open spec fn ends_in_piece(s: Seq<char>, j: int, sep: char) -> bool {
    &&& 0 <= j < s.len()
    &&& body_start(s, sep) <= j
    &&& (j == body_start(s, sep) || is_piece_sep(s, s[j - 1], sep))
}

proof fn lemma_split_append_free(w: Seq<char>, y: Seq<char>, a: char, b: char)
    requires
        !y.contains(a),
        !y.contains(b),
    ensures
        split_pieces(w + y, a, b) == split_pieces(w, a, b).update(
            split_pieces(w, a, b).len() - 1,
            split_pieces(w, a, b).last() + y,
        ),
    decreases y.len(),
{
    lemma_split_nonempty(w, a, b);
    if y.len() == 0 {
        assert(w + y =~= w);
        assert(split_pieces(w, a, b).last() + y =~= split_pieces(w, a, b).last());
        assert(split_pieces(w, a, b).update(split_pieces(w, a, b).len() - 1, split_pieces(w, a, b).last())
            =~= split_pieces(w, a, b));
    } else {
        let y0 = y.drop_last();
        assert(!y0.contains(a)) by {
            if y0.contains(a) {
                let k = choose|k: int| 0 <= k < y0.len() && y0[k] == a;
                assert(y[k] == a);
            }
        }
        assert(!y0.contains(b)) by {
            if y0.contains(b) {
                let k = choose|k: int| 0 <= k < y0.len() && y0[k] == b;
                assert(y[k] == b);
            }
        }
        lemma_split_append_free(w, y0, a, b);
        assert((w + y).drop_last() =~= w + y0);
        let init = split_pieces(w + y0, a, b);
        assert(split_pieces(w + y, a, b) == init.update(init.len() - 1, init.last().push(y.last())));
        assert((w + y).last() == y.last());
        assert(y.last() != a && y.last() != b) by {
            assert(y[y.len() - 1] == y.last());
        }
        assert((split_pieces(w, a, b).last() + y0).push(y.last()) =~= split_pieces(w, a, b).last() + y);
        assert(init.len() == split_pieces(w, a, b).len());
        assert(init.last() == split_pieces(w, a, b).last() + y0);
        assert(split_pieces(w + y, a, b) =~= split_pieces(w, a, b).update(
            split_pieces(w, a, b).len() - 1,
            split_pieces(w, a, b).last() + y,
        ));
    }
}

/// When the characters from `j` on make up the last piece of the body of
/// `s`, and they are a text without separators other than `.` and `..`,
/// they are the file name of `s`.
pub proof fn lemma_file_name_is_last_piece(s: Seq<char>, j: int, sep: char)
    requires
        sep == '/' || sep == '\\',
        ends_in_piece(s, j, sep),
        !s.subrange(j, s.len() as int).contains('/'),
        !s.subrange(j, s.len() as int).contains('\\'),
        s.subrange(j, s.len() as int) != cur_dir(),
        s.subrange(j, s.len() as int) != parent_dir(),
    ensures
        file_name_of(s, sep) == Some(s.subrange(j, s.len() as int)),
{
    let y = s.subrange(j, s.len() as int);
    lemma_prefix_len_bound(s);
    let bs = body_start(s, sep);
    assert(0 <= bs);
    let body = s.subrange(bs, s.len() as int);
    let a = piece_sep_a(s, sep);
    assert(a == '/' || a == '\\');
    assert(!y.contains(a) && !y.contains(sep));
    let pieces = split_pieces(body, a, sep);
    if j == bs {
        assert(body =~= Seq::<char>::empty() + y);
        lemma_split_append_free(Seq::<char>::empty(), y, a, sep);
        assert(split_pieces(Seq::<char>::empty(), a, sep) == seq![Seq::<char>::empty()]);
        assert(pieces.last() =~= y);
    } else {
        let u = s.subrange(bs, j - 1);
        let c = s[j - 1];
        let w = u.push(c);
        assert(w.len() == j - bs);
        assert forall|i: int| 0 <= i < body.len() implies body[i] == (w + y)[i] by {
            if i < j - bs - 1 {
                assert(body[i] == s[bs + i]);
                assert(w[i] == u[i]);
            } else if i == j - bs - 1 {
                assert(body[i] == s[j - 1]);
            } else {
                assert(body[i] == s[bs + i]);
                assert((w + y)[i] == y[i - (j - bs)]);
            }
        }
        assert(body =~= w + y);
        assert(w.drop_last() =~= u);
        assert(split_pieces(w, a, sep) == split_pieces(u, a, sep).push(Seq::<char>::empty()));
        lemma_split_append_free(w, y, a, sep);
        assert(pieces.last() =~= y);
    }
    lemma_split_nonempty(body, a, sep);
    let n = pieces.len() as int;
    assert(y.len() > 0);
    assert(keeps_piece(pieces[n - 1], n - 1, is_verbatim(s, sep), prefix_of(s, sep) is None && !has_root(s, sep)));
    assert(piece_kind(y) == PartKind::Normal);
    let bp = body_parts(s, sep);
    assert(bp.last() == (PartKind::Normal, y));
    assert(bp.len() > 0);
    if prefix_of(s, sep) is Some {
        let pp = path_parts(s, sep);
        assert(pp.last() == bp.last());
    }
}

/// A file name has an extension exactly when it holds a `.` after its first
/// character, whatever its other characters; the extension is then what
/// follows the name's last `.`.
pub proof fn lemma_extension_of_name_exact(n: Seq<char>)
    ensures
        extension_of_name(n) is Some <==> exists|i: int| 0 < i < n.len() && n[i] == '.',
        extension_of_name(n) matches Some(e) ==> {
            &&& e.len() + 1 < n.len()
            &&& n[n.len() - e.len() - 1] == '.'
            &&& n.subrange(n.len() - e.len(), n.len() as int) == e
            &&& !e.contains('.')
        },
{
    lemma_last_index_bounds(n, '.');
    let li = last_index_of(n, '.');
    if exists|i: int| 0 < i < n.len() && n[i] == '.' {
        let i = choose|i: int| 0 < i < n.len() && n[i] == '.';
        assert(li >= i);
    }
    if li > 0 {
        let e = n.subrange(li + 1, n.len() as int);
        assert(n.len() - e.len() - 1 == li);
        assert(n.subrange(n.len() - e.len(), n.len() as int) =~= e);
        if e.contains('.') {
            let j = choose|j: int| 0 <= j < e.len() && e[j] == '.';
            assert(n[li + 1 + j] == '.');
        }
    }
}

/// A path has an extension exactly when its file name holds a `.` after its
/// first character; the extension is what follows the name's last `.`.
pub proof fn lemma_extension_of_path_exact(p: Seq<char>, sep: char)
    ensures
        extension_of(p, sep) is Some <==> (file_name_of(p, sep) matches Some(n) && exists|i: int|
            0 < i < n.len() && n[i] == '.'),
        extension_of(p, sep) matches Some(e) ==> (file_name_of(p, sep) matches Some(n) && {
            &&& e.len() + 1 < n.len()
            &&& n[n.len() - e.len() - 1] == '.'
            &&& n.subrange(n.len() - e.len(), n.len() as int) == e
            &&& !e.contains('.')
        }),
{
    if let Some(n) = file_name_of(p, sep) {
        lemma_extension_of_name_exact(n);
    }
}

} // verus!
