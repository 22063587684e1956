use md5::{Digest, Md5};
use simp::utils::{
    breadcrumb_paths, generate_breadcrumbs, generate_breadcrumbs_with, get_mime_type, get_thumbnail_path,
    get_thumbnail_path_with, is_previewable, to_lower_hex,
};
use std::path::{Path, PathBuf};

#[test]
fn previewable_extensions() {
    for e in ["jpg", "jpeg", "png", "webp", "gif"] {
        assert!(is_previewable(e));
    }
    for e in ["", "JPG", "txt", "mp4", "jpgx", "svg"] {
        assert!(!is_previewable(e));
    }
}

#[test]
fn mime_types() {
    assert_eq!(get_mime_type("jpg"), "image/jpeg");
    assert_eq!(get_mime_type("jpeg"), "image/jpeg");
    assert_eq!(get_mime_type("png"), "image/png");
    assert_eq!(get_mime_type("webp"), "image/webp");
    assert_eq!(get_mime_type("gif"), "image/gif");
    assert_eq!(get_mime_type("mp4"), "application/octet-stream");
    assert_eq!(get_mime_type(""), "application/octet-stream");
}

#[test]
fn previewable_iff_image_type() {
    for e in ["jpg", "jpeg", "png", "webp", "gif", "txt", "", "PNG", "tiff"] {
        assert_eq!(is_previewable(e), get_mime_type(e) != "application/octet-stream");
        assert_eq!(is_previewable(e), get_mime_type(e).starts_with("image/"));
    }
}

fn crumbs(path: &str, dirs: &[bool], sep: char) -> Vec<(String, String, bool)> {
    generate_breadcrumbs_with(path, &dirs.to_vec(), sep)
        .into_iter()
        .map(|c| (c.path, c.name, c.is_dir))
        .collect()
}

fn t(p: &str, n: &str, d: bool) -> (String, String, bool) {
    (p.to_string(), n.to_string(), d)
}

#[test]
fn breadcrumbs_of_absolute_path() {
    assert_eq!(
        crumbs("/home/user/docs", &[true, false, true], '/'),
        vec![t("home", "home", true), t("home/user", "user", false), t("home/user/docs", "docs", true)]
    );
}

#[test]
fn breadcrumbs_without_answers_are_not_directories() {
    assert_eq!(crumbs("a/b", &[true], '/'), vec![t("a", "a", true), t("a/b", "b", false)]);
}

#[test]
fn breadcrumbs_of_root_and_empty() {
    assert!(crumbs("/", &[], '/').is_empty());
    assert!(crumbs("", &[], '/').is_empty());
    assert!(crumbs("\\", &[], '\\').is_empty());
}

#[test]
fn breadcrumbs_extend_by_one_component() {
    let c = crumbs("a//b/./c/", &[], '/');
    assert_eq!(c.len(), 3);
    for i in 1..c.len() {
        assert_eq!(c[i].0, format!("{}/{}", c[i - 1].0, c[i].1));
    }
    assert_eq!(c[2].0, "a/b/c");
}

#[test]
fn breadcrumbs_of_windows_drive_path() {
    assert_eq!(
        crumbs("C:\\Users\\me", &[true, true, false], '\\'),
        vec![t("C:\\", "C:", true), t("C:\\Users", "Users", true), t("C:\\Users\\me", "me", false)]
    );
    assert_eq!(
        crumbs("C:/Users/me/", &[], '\\'),
        vec![t("C:\\", "C:", false), t("C:\\Users", "Users", false), t("C:\\Users\\me", "me", false)]
    );
}

#[test]
fn breadcrumbs_of_windows_share_and_relative_paths() {
    assert_eq!(
        crumbs("\\\\server\\share\\docs", &[], '\\'),
        vec![t("\\\\server\\share\\", "\\\\server\\share", false), t("\\\\server\\share\\docs", "docs", false)]
    );
    assert_eq!(crumbs("a/b", &[], '\\'), vec![t("a", "a", false), t("a\\b", "b", false)]);
    assert_eq!(crumbs("C:foo", &[], '\\'), vec![t("C:\\", "C:", false), t("C:\\foo", "foo", false)]);
}

#[test]
fn breadcrumbs_of_windows_verbatim_path() {
    let c = crumbs("\\\\?\\C:\\x\\y", &[], '\\');
    assert_eq!(c.len(), 3);
    assert_eq!(c[0], t("\\\\?\\C:\\", "\\\\?\\C:", false));
    assert_eq!(c[1].1, "x");
    assert_eq!(c[2].1, "y");
}

#[test]
fn breadcrumbs_on_this_platform() {
    let paths = breadcrumb_paths(".");
    assert_eq!(paths, vec![".".to_string()]);
    let dirs: Vec<bool> = paths.iter().map(|p| Path::new(p).is_dir()).collect();
    let c = generate_breadcrumbs(".", &dirs);
    assert_eq!(c.len(), 1);
    assert!(c[0].is_dir);
    assert_eq!(breadcrumb_paths("/x/y"), vec!["x".to_string(), "x/y".to_string()]);
}

#[test]
fn lower_hex_of_bytes() {
    assert_eq!(to_lower_hex(&vec![0x00, 0x0f, 0xa5, 0xff]), "000fa5ff");
    assert_eq!(to_lower_hex(&vec![]), "");
}

#[test]
fn windows_thumbnail_paths() {
    let h = "5eb63bbbe01eeed093cb22bb8f5acdc3";
    assert_eq!(get_thumbnail_path_with("C:\\thumbs", "hello world", '\\').unwrap(), format!("C:\\thumbs\\{}.webp", h));
    assert_eq!(get_thumbnail_path_with("C:\\thumbs/", "hello world", '\\').unwrap(), format!("C:\\thumbs/{}.webp", h));
    assert_eq!(get_thumbnail_path_with("C:", "hello world", '\\').unwrap(), format!("C:{}.webp", h));
    assert_eq!(get_thumbnail_path_with("", "hello world", '\\').unwrap(), format!("{}.webp", h));
    assert_eq!(get_thumbnail_path_with("/t", "hello world", '/').unwrap(), format!("/t/{}.webp", h));
}

#[test]
fn thumbnail_path_known_digest() {
    let p = get_thumbnail_path("/thumbs", "hello world").unwrap();
    assert_eq!(p, "/thumbs/5eb63bbbe01eeed093cb22bb8f5acdc3.webp");
}

#[test]
fn thumbnail_path_agrees_with_std_and_md5() {
    for (base, path) in [("/thumbs", "/home/a.jpg"), ("", "x"), ("rel/", "/ü/ñ.png"), ("a", "")] {
        let mut hasher = Md5::new();
        hasher.update(path.as_bytes());
        let hash = format!("{:x}", hasher.finalize());
        let expected: PathBuf = Path::new(base).join(&hash).with_extension("webp");
        assert_eq!(get_thumbnail_path(base, path).unwrap(), expected.to_string_lossy().to_string());
    }
}

#[test]
fn thumbnail_path_differs_per_file() {
    let a = get_thumbnail_path("t", "/a.jpg").unwrap();
    let b = get_thumbnail_path("t", "/b.jpg").unwrap();
    assert_ne!(a, b);
    assert_eq!(a, get_thumbnail_path("t", "/a.jpg").unwrap());
    assert_eq!(a.len(), "t/".len() + 32 + ".webp".len());
}

#[test]
fn thumbnail_file_name_ignores_base() {
    let name = |p: String, sep: char| -> String {
        simp::paths::file_name_with(&p, sep).unwrap()
    };
    let expected = format!("{}.webp", "5eb63bbbe01eeed093cb22bb8f5acdc3");
    for base in ["", "/", "/t", "/t/", "rel/dir", "a//"] {
        assert_eq!(name(get_thumbnail_path_with(base, "hello world", '/').unwrap(), '/'), expected);
    }
    for base in ["", "C:", "C:\\", "C:\\t", "t/", "\\\\srv\\share"] {
        assert_eq!(name(get_thumbnail_path_with(base, "hello world", '\\').unwrap(), '\\'), expected);
    }
}
