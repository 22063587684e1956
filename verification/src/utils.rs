//! Breadcrumbs, thumbnail locations and the media types of file extensions.

use md5::Digest;
use vstd::prelude::*;

use crate::paths::{
    chars_to, is_exact_drive, is_verbatim, lemma_parts_well_formed, main_separator, part_views, parts_with,
    cur_dir, ends_in_piece, file_name_of, has_root, lemma_file_name_is_last_piece, parent_dir, root_sep,
    path_parts, piece_sep_a, prefix_len, prefix_of, push_part, pushed, std_pushed, win_prefix, win_prefix_exec,
    win_sep, PartKind, PartView,
};
use crate::text::{copy_string, chars_of, join_with, push_char, string_of, string_views};
use crate::types::{BreadCrumb, Error};

verus! {

// ---------------------------------------------------------------- media types

/// Whether files with this extension can be shown as images.
pub open spec fn previewable_ext(ext: Seq<char>) -> bool {
    ||| ext == "jpg"@
    ||| ext == "jpeg"@
    ||| ext == "png"@
    ||| ext == "webp"@
    ||| ext == "gif"@
}

/// The MIME type served for files with this extension.
pub open spec fn mime_type_of(ext: Seq<char>) -> Seq<char> {
    if ext == "jpg"@ || ext == "jpeg"@ {
        "image/jpeg"@
    } else if ext == "png"@ {
        "image/png"@
    } else if ext == "webp"@ {
        "image/webp"@
    } else if ext == "gif"@ {
        "image/gif"@
    } else {
        "application/octet-stream"@
    }
}

/// Whether files with extension `ext` are images that can be previewed.
pub fn is_previewable(ext: &str) -> (r: bool)
    ensures
        r == previewable_ext(ext@),
        r <==> (ext@ == "jpg"@ || ext@ == "jpeg"@ || ext@ == "png"@ || ext@ == "webp"@ || ext@ == "gif"@),
{
    proof {
        lemma_mime_types_exact(ext@);
    }
    crate::text::str_eq(ext, "jpg") || crate::text::str_eq(ext, "jpeg") || crate::text::str_eq(ext, "png")
        || crate::text::str_eq(ext, "webp") || crate::text::str_eq(ext, "gif")
}

/// The MIME type of files with extension `ext`.
pub fn get_mime_type(ext: &str) -> (r: String)
    ensures
        r@ == mime_type_of(ext@),
        r@ == "image/jpeg"@ <==> (ext@ == "jpg"@ || ext@ == "jpeg"@),
        r@ == "application/octet-stream"@
            <==> !(ext@ == "jpg"@ || ext@ == "jpeg"@ || ext@ == "png"@ || ext@ == "webp"@ || ext@ == "gif"@),
{
    proof {
        lemma_mime_types_exact(ext@);
    }
    if crate::text::str_eq(ext, "jpg") || crate::text::str_eq(ext, "jpeg") {
        "image/jpeg".to_owned()
    } else if crate::text::str_eq(ext, "png") {
        "image/png".to_owned()
    } else if crate::text::str_eq(ext, "webp") {
        "image/webp".to_owned()
    } else if crate::text::str_eq(ext, "gif") {
        "image/gif".to_owned()
    } else {
        "application/octet-stream".to_owned()
    }
}

/// Exactly five extensions are previewable, and each MIME type is served for
/// exactly the extensions named here: `image/jpeg` for `jpg` and `jpeg`,
/// `image/png` for `png`, `image/webp` for `webp`, `image/gif` for `gif`, and
/// `application/octet-stream` for every other extension.
pub proof fn lemma_mime_types_exact(ext: Seq<char>)
    ensures
        previewable_ext(ext) <==> (ext == "jpg"@ || ext == "jpeg"@ || ext == "png"@ || ext == "webp"@ || ext == "gif"@),
        mime_type_of(ext) == "image/jpeg"@ <==> (ext == "jpg"@ || ext == "jpeg"@),
        mime_type_of(ext) == "image/png"@ <==> ext == "png"@,
        mime_type_of(ext) == "image/webp"@ <==> ext == "webp"@,
        mime_type_of(ext) == "image/gif"@ <==> ext == "gif"@,
        mime_type_of(ext) == "application/octet-stream"@
            <==> !(ext == "jpg"@ || ext == "jpeg"@ || ext == "png"@ || ext == "webp"@ || ext == "gif"@),
{
    reveal_strlit("application/octet-stream");
    reveal_strlit("image/jpeg");
    reveal_strlit("image/png");
    reveal_strlit("image/webp");
    reveal_strlit("image/gif");
    reveal_strlit("jpg");
    reveal_strlit("jpeg");
    reveal_strlit("png");
    reveal_strlit("webp");
    reveal_strlit("gif");
    assert("jpg"@ != "png"@) by {
        assert("jpg"@[0] != "png"@[0]);
    }
    assert("jpg"@ != "gif"@) by {
        assert("jpg"@[0] != "gif"@[0]);
    }
    assert("png"@ != "gif"@) by {
        assert("png"@[0] != "gif"@[0]);
    }
    assert("jpeg"@ != "webp"@) by {
        assert("jpeg"@[0] != "webp"@[0]);
    }
    assert("image/jpeg"@ != "image/webp"@) by {
        assert("image/jpeg"@[6] != "image/webp"@[6]);
    }
    assert("image/png"@ != "image/gif"@) by {
        assert("image/png"@[6] != "image/gif"@[6]);
    }
    assert("image/jpeg"@.len() != "image/png"@.len());
    assert("image/jpeg"@.len() != "image/gif"@.len());
    assert("image/webp"@.len() != "image/png"@.len());
    assert("image/webp"@.len() != "image/gif"@.len());
    assert("application/octet-stream"@.len() != "image/jpeg"@.len());
    assert("application/octet-stream"@.len() != "image/png"@.len());
}

/// An extension is previewable exactly when a specific image type is served
/// for it; every other extension is served as a plain byte stream.
pub proof fn lemma_previewable_iff_image_type(ext: Seq<char>)
    ensures
        previewable_ext(ext) <==> mime_type_of(ext) != "application/octet-stream"@,
        previewable_ext(ext) <==> mime_type_of(ext).take(6) == "image/"@,
{
    reveal_strlit("application/octet-stream");
    reveal_strlit("image/jpeg");
    reveal_strlit("image/png");
    reveal_strlit("image/webp");
    reveal_strlit("image/gif");
    reveal_strlit("image/");
    assert("image/jpeg"@.take(6) =~= "image/"@);
    assert("image/png"@.take(6) =~= "image/"@);
    assert("image/webp"@.take(6) =~= "image/"@);
    assert("image/gif"@.take(6) =~= "image/"@);
    assert("application/octet-stream"@.take(6) != "image/"@) by {
        assert("application/octet-stream"@.take(6)[0] == 'a');
    }
    assert("image/jpeg"@ != "application/octet-stream"@) by {
        assert("image/jpeg"@.len() != "application/octet-stream"@.len());
    }
    assert("image/png"@ != "application/octet-stream"@) by {
        assert("image/png"@.len() != "application/octet-stream"@.len());
    }
    assert("image/webp"@ != "application/octet-stream"@) by {
        assert("image/webp"@.len() != "application/octet-stream"@.len());
    }
    assert("image/gif"@ != "application/octet-stream"@) by {
        assert("image/gif"@.len() != "application/octet-stream"@.len());
    }
}

// ---------------------------------------------------------------- breadcrumbs

/// The path of the trail after its first `n` components, as the trail is
/// built: each component is pushed onto the path so far, and a prefix is
/// followed by the separator.
pub open spec fn crumb_acc(parts: Seq<PartView>, n: int, sep: char) -> Seq<char>
    decreases n,
{
    if n <= 0 {
        Seq::empty()
    } else if parts[n - 1].0 == PartKind::Prefix {
        parts[n - 1].1 + seq![sep]
    } else {
        pushed(crumb_acc(parts, n - 1, sep), parts[n - 1].1, sep)
    }
}

/// Whether `paths` are the breadcrumb paths of `path` under the rules of
/// `sep`: one per component; each known exactly, except those after the
/// prefix of a verbatim path.
pub open spec fn crumb_paths_match(paths: Seq<Seq<char>>, path: Seq<char>, sep: char) -> bool {
    let parts = path_parts(path, sep);
    &&& paths.len() == parts.len()
    &&& forall|i: int|
        0 <= i < paths.len() && (i == 0 || !is_verbatim(path, sep)) ==> #[trigger] paths[i] == crumb_acc(parts, i + 1, sep)
}

/// Whether `r` is the breadcrumb trail of `path` under the rules of `sep`,
/// with the directory answers `dirs`: each crumb is named after its
/// component, has its path as `crumb_paths_match` says, and is a directory
/// when its answer in `dirs` is `true` (a crumb without an answer is not).
pub open spec fn breadcrumbs_match(r: Seq<BreadCrumb>, path: Seq<char>, dirs: Seq<bool>, sep: char) -> bool {
    let parts = path_parts(path, sep);
    &&& crumb_paths_match(Seq::new(r.len(), |i: int| r[i].path@), path, sep)
    &&& forall|i: int|
        0 <= i < r.len() ==> {
            &&& (#[trigger] r[i]).name@ == parts[i].1
            &&& r[i].is_dir == (i < dirs.len() && dirs[i])
        }
}

/// The breadcrumb paths of `path` under the rules of `sep`.
pub fn breadcrumb_paths_with(path: &str, sep: char) -> (r: Vec<String>)
    requires
        sep == '/' || sep == '\\',
    ensures
        crumb_paths_match(string_views(r@), path@, sep),
{
    let parts = parts_with(path, sep);
    let ghost c = path_parts(path@, sep);
    let chars = chars_of(path);
    let verbatim = sep == '\\' && match win_prefix_exec(&chars) {
        Some(p) => p.1,
        None => false,
    };
    assert(verbatim == is_verbatim(path@, sep));
    assert(verbatim ==> c.len() > 0 && c[0].0 == PartKind::Prefix);
    let mut out: Vec<String> = Vec::new();
    let mut acc: Vec<char> = Vec::new();
    let mut i: usize = 0;
    while i < parts.len()
        invariant
            part_views(parts@) == c,
            c == path_parts(path@, sep),
            verbatim == is_verbatim(path@, sep),
            sep == '/' || sep == '\\',
            i <= parts@.len(),
            out@.len() == i,
            verbatim ==> c.len() > 0 && c[0].0 == PartKind::Prefix,
            (!verbatim || i <= 1) ==> acc@ == crumb_acc(c, i as int, sep),
            forall|j: int|
                0 <= j < i && (j == 0 || !verbatim) ==> #[trigger] string_views(out@)[j] == crumb_acc(c, j + 1, sep),
        decreases parts.len() - i,
    {
        assert(parts@[i as int]@ == c[i as int]);
        if parts[i].kind == PartKind::Prefix {
            acc = chars_to(&parts[i].text, parts[i].text.len());
            assert(parts[i as int].text@.take(parts[i as int].text@.len() as int) =~= parts[i as int].text@);
            acc.push(sep);
        } else if verbatim && i > 0 {
            let next = std_pushed(string_of(&acc).as_str(), string_of(&parts[i].text).as_str());
            acc = chars_of(next.as_str());
        } else {
            acc = push_part(&acc, &parts[i].text, sep);
        }
        let ghost prev = string_views(out@);
        out.push(string_of(&acc));
        assert(string_views(out@) =~= prev.push(acc@));
        i = i + 1;
    }
    out
}

/// The breadcrumb paths of `path` on this platform, for looking up which of
/// them are directories.
pub fn breadcrumb_paths(path: &str) -> (r: Vec<String>)
    ensures
        crumb_paths_match(string_views(r@), path@, '/') || crumb_paths_match(string_views(r@), path@, '\\'),
{
    breadcrumb_paths_with(path, main_separator())
}

/// The navigation trail of `path` under the rules of `sep`: one crumb per
/// component, named after it, with the path built up to it, and marked as
/// a directory as `dirs` answers for that path.
pub fn generate_breadcrumbs_with(path: &str, dirs: &Vec<bool>, sep: char) -> (r: Vec<BreadCrumb>)
    requires
        sep == '/' || sep == '\\',
    ensures
        breadcrumbs_match(r@, path@, dirs@, sep),
{
    let paths = breadcrumb_paths_with(path, sep);
    let parts = parts_with(path, sep);
    let ghost c = path_parts(path@, sep);
    let mut crumbs: Vec<BreadCrumb> = Vec::new();
    let mut i: usize = 0;
    while i < paths.len()
        invariant
            part_views(parts@) == c,
            c == path_parts(path@, sep),
            crumb_paths_match(string_views(paths@), path@, sep),
            paths@.len() == parts@.len(),
            i <= paths@.len(),
            crumbs@.len() == i,
            forall|j: int| 0 <= j < i ==> (#[trigger] crumbs@[j]).path@ == paths@[j]@,
            forall|j: int|
                0 <= j < i ==> {
                    &&& (#[trigger] crumbs@[j]).name@ == c[j].1
                    &&& crumbs@[j].is_dir == (j < dirs@.len() && dirs@[j])
                },
        decreases paths.len() - i,
    {
        assert(parts@[i as int]@ == c[i as int]);
        let is_dir = i < dirs.len() && dirs[i];
        crumbs.push(BreadCrumb { path: copy_string(&paths[i]), name: string_of(&parts[i].text), is_dir });
        i = i + 1;
    }
    assert(Seq::new(crumbs@.len(), |j: int| crumbs@[j].path@) =~= string_views(paths@));
    crumbs
}

/// The navigation trail of `path` on this platform, with `dirs` answering,
/// crumb by crumb, whether its path (see `breadcrumb_paths`) is a directory.
pub fn generate_breadcrumbs(path: &str, dirs: &Vec<bool>) -> (r: Vec<BreadCrumb>)
    ensures
        breadcrumbs_match(r@, path@, dirs@, '/') || breadcrumbs_match(r@, path@, dirs@, '\\'),
{
    generate_breadcrumbs_with(path, dirs, main_separator())
}

/// The texts of the components.
pub open spec fn part_texts(parts: Seq<PartView>) -> Seq<Seq<char>> {
    Seq::new(parts.len(), |i: int| parts[i].1)
}

proof fn lemma_unix_crumb_acc(parts: Seq<PartView>, n: int)
    requires
        1 <= n <= parts.len(),
        forall|i: int| 0 <= i < parts.len() ==> {
            &&& (#[trigger] parts[i]).0 != PartKind::Prefix
            &&& parts[i].1.len() > 0
            &&& !parts[i].1.contains('/')
        },
    ensures
        crumb_acc(parts, n, '/') == join_with(part_texts(parts).take(n), seq!['/']),
        crumb_acc(parts, n, '/').len() > 0,
        crumb_acc(parts, n, '/').last() != '/',
    decreases n,
{
    let t = parts[n - 1].1;
    assert(parts[n - 1].0 != PartKind::Prefix);
    assert(t.len() > 0);
    assert(t.last() != '/') by {
        if t.last() == '/' {
            assert(t.contains('/'));
        }
    }
    assert(part_texts(parts).take(n).drop_last() =~= part_texts(parts).take(n - 1));
    if n > 1 {
        lemma_unix_crumb_acc(parts, n - 1);
    } else {
        assert(part_texts(parts).take(1)[0] == t);
    }
}

/// On Unix, each breadcrumb's path is the previous one's, a `/`, and its
/// own name.
pub proof fn lemma_unix_crumb_extends(path: Seq<char>, i: int)
    requires
        0 <= i,
        i + 1 < path_parts(path, '/').len(),
    ensures
        crumb_acc(path_parts(path, '/'), i + 2, '/')
            == crumb_acc(path_parts(path, '/'), i + 1, '/') + seq!['/'] + path_parts(path, '/')[i + 1].1,
{
    lemma_parts_well_formed(path, '/');
    let parts = path_parts(path, '/');
    assert(piece_sep_a(path, '/') == '/');
    lemma_unix_crumb_acc(parts, i + 1);
}

/// On Unix, the last breadcrumb's path is all components joined by `/`.
pub proof fn lemma_unix_last_crumb_is_whole_path(path: Seq<char>)
    requires
        path_parts(path, '/').len() > 0,
    ensures
        crumb_acc(path_parts(path, '/'), path_parts(path, '/').len() as int, '/')
            == join_with(part_texts(path_parts(path, '/')), seq!['/']),
{
    lemma_parts_well_formed(path, '/');
    let parts = path_parts(path, '/');
    lemma_unix_crumb_acc(parts, parts.len() as int);
    assert(part_texts(parts).take(parts.len() as int) =~= part_texts(parts));
}

/// On Windows, the first breadcrumb of a path with a prefix is the prefix
/// followed by `\`; every later breadcrumb of a path without verbatim
/// prefix whose name has no drive in it is the previous path, a `\`
/// (unless the previous path ends with a separator or is exactly a drive),
/// and its name.
pub proof fn lemma_windows_crumbs(path: Seq<char>, i: int)
    requires
        0 <= i < path_parts(path, '\\').len(),
    ensures
        i == 0 && prefix_of(path, '\\') is Some ==>
            crumb_acc(path_parts(path, '\\'), 1, '\\') == path.take(prefix_len(path, '\\')) + seq!['\\'],
        i > 0 && !is_verbatim(path, '\\') && win_prefix(path_parts(path, '\\')[i].1) is None ==> {
            let prev = crumb_acc(path_parts(path, '\\'), i, '\\');
            &&& crumb_acc(path_parts(path, '\\'), i + 1, '\\') == if prev.len() == 0 || is_exact_drive(prev) || win_sep(prev.last()) {
                prev + path_parts(path, '\\')[i].1
            } else {
                prev + seq!['\\'] + path_parts(path, '\\')[i].1
            }
        },
{
    lemma_parts_well_formed(path, '\\');
}

// ---------------------------------------------------------------- thumbnails

/// The MD5 digest of `data`.
pub uninterp spec fn md5_digest_of(data: Seq<u8>) -> Seq<u8>;

/// Hashes `data` with the `md5` crate's `Md5::digest`. Trusted: the result
/// is the MD5 digest of the bytes, 16 bytes long (`OutputSize = U16`).
#[verifier::external_body]
fn md5_digest(data: &[u8]) -> (d: Vec<u8>)
    ensures
        d@ == md5_digest_of(data@),
        d@.len() == 16,
{
    md5::Md5::digest(data).to_vec()
}

/// The lowercase hexadecimal digit for `n < 16`.
pub open spec fn hex_digit(n: u8) -> char {
    if n < 10 {
        ((n + 48) as u8) as char
    } else {
        ((n + 87) as u8) as char
    }
}

/// The bytes as lowercase hexadecimal, two digits per byte.
pub open spec fn lower_hex(bytes: Seq<u8>) -> Seq<char>
    decreases bytes.len(),
{
    if bytes.len() == 0 {
        Seq::empty()
    } else {
        lower_hex(bytes.drop_last()) + seq![
            hex_digit(bytes.last() / 16),
            hex_digit(bytes.last() % 16),
        ]
    }
}

fn hex_digit_exec(n: u8) -> (c: char)
    requires
        n < 16,
    ensures
        c == hex_digit(n),
{
    if n < 10 {
        (n + 48) as char
    } else {
        (n + 87) as char
    }
}

/// The bytes as lowercase hexadecimal, two digits per byte.
pub fn to_lower_hex(bytes: &Vec<u8>) -> (s: String)
    ensures
        s@ == lower_hex(bytes@),
        s@.len() == 2 * bytes@.len(),
{
    let mut s = String::new();
    let mut i: usize = 0;
    while i < bytes.len()
        invariant
            i <= bytes.len(),
            s@ == lower_hex(bytes@.take(i as int)),
            s@.len() == 2 * i,
        decreases bytes.len() - i,
    {
        let b = bytes[i];
        assert(bytes@.take(i + 1).drop_last() =~= bytes@.take(i as int));
        push_char(&mut s, hex_digit_exec(b / 16));
        push_char(&mut s, hex_digit_exec(b % 16));
        i = i + 1;
    }
    assert(bytes@.take(bytes.len() as int) =~= bytes@);
    s
}

/// Where the thumbnail of the file at `path` is cached below `base_path`,
/// under the rules of `sep`: the MD5 digest of the path's UTF-8 bytes in
/// lowercase hexadecimal, pushed onto the base path, with the extension
/// `webp`.
pub open spec fn thumbnail_path_of(base_path: Seq<char>, path: Seq<char>, sep: char) -> Seq<char> {
    pushed(base_path, lower_hex(md5_digest_of(vstd::utf8::encode_utf8(path))), sep) + ".webp"@
}

/// The thumbnail location of the file at `path` under the rules of `sep`;
/// exact unless `base_path` has a verbatim prefix.
pub fn get_thumbnail_path_with(base_path: &str, path: &str, sep: char) -> (r: Result<String, Error>)
    requires
        sep == '/' || sep == '\\',
    ensures
        r is Ok,
        r matches Ok(p) && (!is_verbatim(base_path@, sep) ==> p@ == thumbnail_path_of(base_path@, path@, sep)),
        lower_hex(md5_digest_of(vstd::utf8::encode_utf8(path@))).len() == 32,
{
    let digest = md5_digest(path.as_bytes());
    let hash = to_lower_hex(&digest);
    let base = chars_of(base_path);
    let verbatim = sep == '\\' && match win_prefix_exec(&base) {
        Some(p) => p.1,
        None => false,
    };
    assert(verbatim == is_verbatim(base_path@, sep));
    let mut p = if verbatim {
        std_pushed(base_path, hash.as_str())
    } else {
        string_of(&push_part(&base, &chars_of(hash.as_str()), sep))
    };
    p.append(".webp");
    Ok(p)
}

/// The location of the cached thumbnail of the file at `path` on this
/// platform.
pub fn get_thumbnail_path(base_path: &str, path: &str) -> (r: Result<String, Error>)
    ensures
        r is Ok,
        r matches Ok(p) && (p@ == thumbnail_path_of(base_path@, path@, '/') || (!is_verbatim(base_path@, '\\')
            ==> p@ == thumbnail_path_of(base_path@, path@, '\\'))),
{
    get_thumbnail_path_with(base_path, path, main_separator())
}

/// The file name of every thumbnail of the file at `path`: the hex digest
/// of the path's bytes, then `.webp`.
pub open spec fn thumbnail_name(path: Seq<char>) -> Seq<char> {
    lower_hex(md5_digest_of(vstd::utf8::encode_utf8(path))) + ".webp"@
}

/// Whether `c` is a lowercase hexadecimal digit.
pub open spec fn is_hex_char(c: char) -> bool {
    ('0' <= c && c <= '9') || ('a' <= c && c <= 'f')
}

proof fn lemma_hex_digit(n: u8)
    requires
        n < 16,
    ensures
        is_hex_char(hex_digit(n)),
{
    if n < 10 {
        assert(((n + 48) as u8) as char == ((n + 48) as u8) as char);
    }
}

proof fn lemma_lower_hex_chars(bytes: Seq<u8>)
    ensures
        forall|i: int| 0 <= i < lower_hex(bytes).len() ==> is_hex_char(#[trigger] lower_hex(bytes)[i]),
    decreases bytes.len(),
{
    if bytes.len() > 0 {
        lemma_lower_hex_chars(bytes.drop_last());
        lemma_hex_digit(bytes.last() / 16);
        lemma_hex_digit(bytes.last() % 16);
        let pre = lower_hex(bytes.drop_last());
        assert forall|i: int| 0 <= i < lower_hex(bytes).len() implies is_hex_char(#[trigger] lower_hex(bytes)[i]) by {
            if i < pre.len() {
                assert(lower_hex(bytes)[i] == pre[i]);
            }
        }
    }
}

/// The thumbnail name holds no separator and no `:`, and it is neither `.`
/// nor `..`.
proof fn lemma_thumbnail_name_plain(path: Seq<char>)
    ensures
        !thumbnail_name(path).contains('/'),
        !thumbnail_name(path).contains('\\'),
        !thumbnail_name(path).contains(':'),
        thumbnail_name(path) != cur_dir(),
        thumbnail_name(path) != parent_dir(),
        thumbnail_name(path).len() >= 5,
{
    reveal_strlit(".webp");
    let h = lower_hex(md5_digest_of(vstd::utf8::encode_utf8(path)));
    let y = thumbnail_name(path);
    lemma_lower_hex_chars(md5_digest_of(vstd::utf8::encode_utf8(path)));
    assert forall|i: int| 0 <= i < y.len() implies y[i] != '/' && y[i] != '\\' && y[i] != ':' by {
        if i < h.len() {
            assert(y[i] == h[i]);
            assert(is_hex_char(h[i]));
        } else {
            assert(y[i] == ".webp"@[i - h.len()]);
        }
    }
    assert(y.len() == h.len() + 5);
}

/// The thumbnail location is the base with the name pushed onto it.
proof fn lemma_thumbnail_layout(base: Seq<char>, path: Seq<char>, sep: char)
    requires
        sep == '/' || sep == '\\',
    ensures
        ({
            let s = thumbnail_path_of(base, path, sep);
            let y = thumbnail_name(path);
            let j = s.len() - y.len();
            &&& j >= 0
            &&& s.subrange(j, s.len() as int) == y
            &&& s.take(j) == (if base.len() == 0 || (sep == '\\' && is_exact_drive(base)) || root_sep(base.last(), sep) {
                base
            } else {
                base.push(sep)
            })
        }),
{
    let h = lower_hex(md5_digest_of(vstd::utf8::encode_utf8(path)));
    lemma_thumbnail_name_plain(path);
    let y = thumbnail_name(path);
    if sep == '\\' {
        assert(win_prefix(h) is None) by {
            if h.len() >= 2 {
                assert(y[0] == h[0] && y[1] == h[1]);
                assert(y[0] != '/' && y[0] != '\\' && y[1] != ':');
            }
        }
    }
    let s = thumbnail_path_of(base, path, sep);
    let x = if base.len() == 0 || (sep == '\\' && is_exact_drive(base)) || root_sep(base.last(), sep) {
        base
    } else {
        base.push(sep)
    };
    assert(pushed(base, h, sep) =~= x + h);
    assert(s =~= x + y);
    assert(s.subrange(x.len() as int, s.len() as int) =~= y);
    assert(s.take(x.len() as int) =~= x);
}

/// On Unix the file name of a thumbnail location is the thumbnail name,
/// whatever the base path.
pub proof fn lemma_unix_thumbnail_file_name(base: Seq<char>, path: Seq<char>)
    ensures
        file_name_of(thumbnail_path_of(base, path, '/'), '/') == Some(thumbnail_name(path)),
{
    lemma_thumbnail_layout(base, path, '/');
    lemma_thumbnail_name_plain(path);
    let s = thumbnail_path_of(base, path, '/');
    let y = thumbnail_name(path);
    let j = s.len() - y.len();
    assert(prefix_of(s, '/') is None);
    assert(piece_sep_a(s, '/') == '/');
    if j == 0 {
        assert(s[0] == y[0]);
        assert(!has_root(s, '/'));
    } else {
        assert(s[j - 1] == s.take(j)[j - 1]);
        assert(s[j - 1] == '/');
    }
    assert(ends_in_piece(s, j, '/'));
    lemma_file_name_is_last_piece(s, j, '/');
}

/// On Windows the file name of a thumbnail location is the thumbnail name
/// wherever the name is the last piece of the location: the base's prefix
/// ends before it and, behind a verbatim prefix, a `\` stands before it.
/// (It is not so for a base such as `\\server`, whose share would take in
/// the name.)
pub proof fn lemma_windows_thumbnail_file_name(base: Seq<char>, path: Seq<char>)
    requires
        ends_in_piece(
            thumbnail_path_of(base, path, '\\'),
            thumbnail_path_of(base, path, '\\').len() - thumbnail_name(path).len(),
            '\\',
        ),
    ensures
        file_name_of(thumbnail_path_of(base, path, '\\'), '\\') == Some(thumbnail_name(path)),
{
    lemma_thumbnail_layout(base, path, '\\');
    lemma_thumbnail_name_plain(path);
    let s = thumbnail_path_of(base, path, '\\');
    lemma_file_name_is_last_piece(s, s.len() - thumbnail_name(path).len(), '\\');
}

/// On Unix two thumbnail locations of one file, below any two bases, have
/// the same file name: it depends on the file's path alone.
pub proof fn lemma_unix_thumbnail_name_ignores_base(base1: Seq<char>, base2: Seq<char>, path: Seq<char>)
    ensures
        file_name_of(thumbnail_path_of(base1, path, '/'), '/') == file_name_of(thumbnail_path_of(base2, path, '/'), '/'),
{
    lemma_unix_thumbnail_file_name(base1, path);
    lemma_unix_thumbnail_file_name(base2, path);
}

} // verus!
