use simp::routes::files::{
    edit_tag_set, file_for_view, file_page_url, file_to_edit, records_query, tag_edit_is_empty,
    unassigned_tags_query,
};
use simp::routes::folders::{folder_for_view, saved_folder, thumbnail_candidates, thumbnail_candidates_with, FolderStep};
use simp::routes::{media_content_type, media_content_type_with};
use simp::routes::files::file_for_view_with;
use simp::types::{Error, File, Folder, FolderContent, Tag};
use simp::utils::get_thumbnail_path;

fn tag(id: Option<&str>, name: &str) -> Tag {
    Tag { id: id.map(|s| s.to_string()), name: name.to_string(), tag_type: None }
}

fn names(tags: &[Tag]) -> Vec<String> {
    let mut v: Vec<String> = tags.iter().map(|t| t.name.clone()).collect();
    v.sort();
    v
}

#[test]
fn file_from_path() {
    let f = File::from("/home/me/photo.jpg").unwrap();
    assert_eq!(f.name, "photo.jpg");
    assert_eq!(f.path, "/home/me/photo.jpg");
    assert_eq!(f.file_type, Some("jpg".to_string()));
    assert!(f.id.is_none());
    assert!(!f.favorite);
    assert!(f.tags.is_empty());
}

#[test]
fn file_from_path_without_extension() {
    let f = File::from("notes/README").unwrap();
    assert_eq!(f.name, "README");
    assert_eq!(f.file_type, None);
    let g = File::from("/x/.profile").unwrap();
    assert_eq!(g.name, ".profile");
    assert_eq!(g.file_type, None);
}

#[test]
fn file_name_is_stem_dot_extension() {
    for p in ["/a/b.tar.gz", "x.y", "/q/r/s.", "..a.b"] {
        let f = File::from(p).unwrap();
        let e = f.file_type.clone().unwrap();
        assert!(f.name.ends_with(&format!(".{}", e)));
        assert!(f.name.len() > e.len() + 1);
        assert!(!e.contains('.'));
    }
}

#[test]
fn file_from_invalid_paths() {
    for p in ["", "/", "a/..", "."] {
        match File::from(p) {
            Err(Error(m)) => assert_eq!(m, "invalid file name"),
            Ok(_) => panic!("accepted {:?}", p),
        }
    }
}

#[test]
fn media_types_of_paths() {
    assert_eq!(media_content_type("/pics/cat.png").unwrap(), "image/png");
    assert_eq!(media_content_type("/docs/a.pdf").unwrap(), "application/octet-stream");
    assert_eq!(media_content_type("/docs/Makefile").unwrap_err().0, "missing extension");
    assert_eq!(media_content_type("/docs/.env").unwrap_err().0, "missing extension");
}

#[test]
fn query_for_unassigned_tags() {
    let tags = vec![tag(Some("tag:a"), "a"), tag(None, "x"), tag(Some("tag:b"), "b")];
    assert_eq!(unassigned_tags_query(&tags), "SELECT * FROM tag WHERE id NOT IN [tag:a, tag:b]");
    assert_eq!(unassigned_tags_query(&vec![]), "SELECT * FROM tag WHERE id NOT IN []");
}

#[test]
fn query_for_added_records() {
    let ids = vec!["tag:a".to_string(), "tag:b".to_string()];
    assert_eq!(records_query(&ids), "SELECT * FROM [tag:a, tag:b]");
    assert_eq!(records_query(&vec!["tag:z".to_string()]), "SELECT * FROM [tag:z]");
}

#[test]
fn redirect_address() {
    assert_eq!(file_page_url("/home/a.jpg"), "/file?path=/home/a.jpg");
}

#[test]
fn empty_tag_edit() {
    assert!(tag_edit_is_empty(&None, &None));
    assert!(!tag_edit_is_empty(&Some(vec![]), &None));
    assert!(!tag_edit_is_empty(&None, &Some(vec!["tag:a".to_string()])));
}

#[test]
fn edit_removes_named_tags_and_untracked_ones() {
    let current = vec![tag(Some("tag:a"), "a"), tag(Some("tag:b"), "b"), tag(None, "loose")];
    let r = edit_tag_set(&current, &Some(vec!["tag:a".to_string()]), &vec![]);
    assert_eq!(names(&r), vec!["b"]);
}

#[test]
fn edit_without_removal_keeps_all_and_dedups() {
    let current = vec![tag(Some("tag:a"), "a"), tag(Some("tag:a"), "a"), tag(None, "loose")];
    let r = edit_tag_set(&current, &None, &vec![]);
    assert_eq!(names(&r), vec!["a", "loose"]);
}

#[test]
fn edit_adds_tags_once() {
    let current = vec![tag(Some("tag:a"), "a")];
    let added = vec![tag(Some("tag:a"), "a"), tag(Some("tag:c"), "c"), tag(Some("tag:c"), "c")];
    let r = edit_tag_set(&current, &None, &added);
    assert_eq!(names(&r), vec!["a", "c"]);
}

#[test]
fn edit_added_tags_survive_removal() {
    let current = vec![tag(Some("tag:a"), "a")];
    let added = vec![tag(Some("tag:a"), "a")];
    let r = edit_tag_set(&current, &Some(vec!["tag:a".to_string()]), &added);
    assert_eq!(names(&r), vec!["a"]);
}

#[test]
fn file_to_edit_missing() {
    assert_eq!(file_to_edit(None).unwrap_err().0, "file not found");
    let f = File::from("/a.txt").unwrap();
    assert_eq!(file_to_edit(Some(f)).unwrap().name, "a.txt");
}

#[test]
fn file_for_view_stored_or_new() {
    let stored = File::from("/x/y.png").unwrap();
    let (f, store) = file_for_view(Some(stored), "/other.txt").unwrap();
    assert_eq!(f.name, "y.png");
    assert!(!store);
    let (g, store) = file_for_view(None, "/other.txt").unwrap();
    assert_eq!(g.name, "other.txt");
    assert!(store);
    assert_eq!(file_for_view(None, "/").unwrap_err().0, "invalid file name");
}

#[test]
fn folder_after_save() {
    assert_eq!(saved_folder(None).unwrap_err().0, "failed to save folder");
    let f = Folder { id: None, contents: vec![] };
    assert!(saved_folder(Some(f)).unwrap().contents.is_empty());
}

#[test]
fn thumbnails_only_for_files() {
    let contents = vec![
        FolderContent { name: "d".into(), path: "/r/d".into(), is_dir: true },
        FolderContent { name: "a.jpg".into(), path: "/r/a.jpg".into(), is_dir: false },
        FolderContent { name: "b.txt".into(), path: "/r/b.txt".into(), is_dir: false },
    ];
    let c = thumbnail_candidates(&contents, "/thumbs");
    assert_eq!(c.len(), 2);
    assert_eq!(c[0].0, "/r/a.jpg");
    assert_eq!(c[0].1, get_thumbnail_path("/thumbs", "/r/a.jpg").unwrap());
    assert_eq!(c[1].0, "/r/b.txt");
}

#[test]
fn file_from_windows_path() {
    let f = File::from_with("C:\\Users\\me\\cat.PNG", '\\').unwrap();
    assert_eq!(f.name, "cat.PNG");
    assert_eq!(f.file_type, Some("PNG".to_string()));
    assert_eq!(File::from_with("C:\\", '\\').unwrap_err().0, "invalid file name");
    assert_eq!(File::from_with("\\\\srv\\share", '\\').unwrap_err().0, "invalid file name");
    let g = File::from_with("C:\\Users\\me\\cat.PNG", '/').unwrap();
    assert_eq!(g.name, "C:\\Users\\me\\cat.PNG");
}

#[test]
fn media_types_of_windows_paths() {
    assert_eq!(media_content_type_with("D:\\pics\\cat.gif", '\\').unwrap(), "image/gif");
    assert_eq!(media_content_type_with("D:\\pics.d\\cat", '\\').unwrap_err().0, "missing extension");
    assert_eq!(media_content_type_with("D:\\pics.d\\cat", '/').unwrap(), "application/octet-stream");
}

#[test]
fn file_for_view_on_windows() {
    let (f, store) = file_for_view_with(None, "C:\\a\\b.txt", '\\').unwrap();
    assert_eq!(f.name, "b.txt");
    assert!(store);
}

#[test]
fn folder_step() {
    match folder_for_view(None) {
        FolderStep::ListAndStore => {}
        FolderStep::Show(_) => panic!("listed nothing"),
    }
    match folder_for_view(Some(Folder { id: Some("folder:x".into()), contents: vec![] })) {
        FolderStep::Show(f) => assert_eq!(f.id, Some("folder:x".to_string())),
        FolderStep::ListAndStore => panic!("ignored the stored folder"),
    }
}

#[test]
fn thumbnails_on_windows() {
    let contents = vec![FolderContent { name: "a.jpg".into(), path: "C:\\r\\a.jpg".into(), is_dir: false }];
    let c = thumbnail_candidates_with(&contents, "C:\\thumbs", '\\');
    assert_eq!(c.len(), 1);
    assert!(c[0].1.starts_with("C:\\thumbs\\"));
    assert!(c[0].1.ends_with(".webp"));
}

#[test]
fn file_from_needs_no_file() {
    let a = File::from("/no/such/dir/x.png").unwrap();
    let b = File::from("/no/such/dir/x.png").unwrap();
    assert_eq!(a.name, "x.png");
    assert_eq!(a.file_type, Some("png".to_string()));
    assert_eq!((a.name, a.path, a.file_type), (b.name, b.path, b.file_type));
}
