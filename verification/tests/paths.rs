use simp::paths::{extension, extension_with, file_name, file_name_with, main_separator, parts_with, PartKind};
use std::path::{Component, Path};

fn std_components(p: &str) -> Vec<String> {
    Path::new(p)
        .components()
        .filter(|c| !matches!(c, Component::RootDir))
        .map(|c| c.as_os_str().to_string_lossy().to_string())
        .collect()
}

fn ours(p: &str, sep: char) -> Vec<String> {
    parts_with(p, sep).into_iter().map(|v| v.text.into_iter().collect()).collect()
}

fn kinds(p: &str, sep: char) -> Vec<PartKind> {
    parts_with(p, sep).into_iter().map(|v| v.kind).collect()
}

const SAMPLES: &[&str] = &[
    "", "/", "//", "a", "/a", "a/", "a//b", "./a", ".", "./", "./.", "/./a", "a/./b", "a/b/.",
    "a/..", "..", "../a", "/home/user/docs", "/home/user/docs/", "tmp/foo.txt/.", "foo.txt/.//",
    "foo.txt/..", ".bashrc", "a.b.c", "dir/file.", "x/.hidden", "//a//b//", "a/.../b", "a\\b",
    "C:\\x", "\\\\srv\\share",
];

#[test]
fn platform_separator() {
    assert_eq!(main_separator(), std::path::MAIN_SEPARATOR);
}

#[test]
fn components_agree_with_std() {
    for s in SAMPLES {
        assert_eq!(ours(s, main_separator()), std_components(s), "path {:?}", s);
    }
}

#[test]
fn file_name_agrees_with_std() {
    for s in SAMPLES {
        let expected = Path::new(s).file_name().map(|x| x.to_string_lossy().to_string());
        assert_eq!(file_name(s), expected, "path {:?}", s);
    }
}

#[test]
fn extension_agrees_with_std() {
    for s in SAMPLES {
        let expected = Path::new(s).extension().map(|x| x.to_string_lossy().to_string());
        assert_eq!(extension(s), expected, "path {:?}", s);
    }
}

#[test]
fn unix_components() {
    assert_eq!(ours("/home/user/docs/", '/'), vec!["home", "user", "docs"]);
    assert_eq!(ours("./a/./b", '/'), vec![".", "a", "b"]);
    assert_eq!(ours("a/../b", '/'), vec!["a", "..", "b"]);
    assert_eq!(kinds("./a/../b", '/'), vec![PartKind::CurDir, PartKind::Normal, PartKind::ParentDir, PartKind::Normal]);
    assert_eq!(ours("a\\b", '/'), vec!["a\\b"]);
}

#[test]
fn windows_prefixes() {
    assert_eq!(ours("C:\\Users\\me", '\\'), vec!["C:", "Users", "me"]);
    assert_eq!(kinds("C:\\Users\\me", '\\'), vec![PartKind::Prefix, PartKind::Normal, PartKind::Normal]);
    assert_eq!(ours("c:/x/y/", '\\'), vec!["c:", "x", "y"]);
    assert_eq!(ours("C:foo", '\\'), vec!["C:", "foo"]);
    assert_eq!(ours("\\\\server\\share\\a", '\\'), vec!["\\\\server\\share", "a"]);
    assert_eq!(ours("\\\\.\\COM42\\x", '\\'), vec!["\\\\.\\COM42", "x"]);
    assert_eq!(ours("\\\\?\\C:\\a\\.\\b", '\\'), vec!["\\\\?\\C:", "a", ".", "b"]);
    assert_eq!(ours("\\\\?\\C:\\a/b", '\\'), vec!["\\\\?\\C:", "a/b"]);
    assert_eq!(ours("\\\\?\\UNC\\server\\share\\x", '\\'), vec!["\\\\?\\UNC\\server\\share", "x"]);
    assert_eq!(ours("\\\\?\\pictures\\kittens", '\\'), vec!["\\\\?\\pictures", "kittens"]);
    assert_eq!(ours("\\\\server", '\\'), vec!["server"]);
    assert_eq!(ours(".\\a\\.\\b", '\\'), vec![".", "a", "b"]);
}

#[test]
fn windows_file_names_and_extensions() {
    assert_eq!(file_name_with("C:\\dir\\photo.JPG", '\\'), Some("photo.JPG".to_string()));
    assert_eq!(extension_with("C:\\dir\\photo.JPG", '\\'), Some("JPG".to_string()));
    assert_eq!(file_name_with("C:", '\\'), None);
    assert_eq!(file_name_with("C:\\", '\\'), None);
    assert_eq!(file_name_with("C:foo.txt", '\\'), Some("foo.txt".to_string()));
    assert_eq!(file_name_with("\\\\server\\share", '\\'), None);
    assert_eq!(file_name_with("a/b.c\\d.e", '\\'), Some("d.e".to_string()));
    assert_eq!(file_name_with("a/b.c\\d.e", '/'), Some("b.c\\d.e".to_string()));
    assert_eq!(extension_with("x\\..", '\\'), None);
}

#[test]
fn extension_edge_cases() {
    assert_eq!(extension_with("/x/photo.JPG", '/'), Some("JPG".to_string()));
    assert_eq!(extension_with("/x/archive.tar.gz", '/'), Some("gz".to_string()));
    assert_eq!(extension_with("/x/.bashrc", '/'), None);
    assert_eq!(extension_with("/x/README", '/'), None);
    assert_eq!(extension_with("/x/file.", '/'), Some("".to_string()));
    assert_eq!(extension_with("/x/..", '/'), None);
}
