use vstd::prelude::*;

use crate::paths::{extension_of, extension_with, file_name_of, file_name_with, main_separator};

pub mod error;

pub use error::Error;

verus! {

/// A tag that can be attached to files. `id` is the raw text of the
/// database record id (`table:key`), present once the tag is stored.
#[derive(Debug)]
pub struct Tag {
    pub id: Option<String>,
    pub name: String,
    pub tag_type: Option<String>,
}

/// The mathematical value of a tag: its id, name and type as texts.
pub type TagView = (Option<Seq<char>>, Seq<char>, Option<Seq<char>>);

impl View for Tag {
    type V = TagView;

    open spec fn view(&self) -> TagView {
        (self.id.deep_view(), self.name@, self.tag_type.deep_view())
    }
}

/// A file record: its name, full path, extension (`file_type`), whether it
/// is a favorite, and the tags attached to it.
#[derive(Debug)]
pub struct File {
    pub id: Option<String>,
    pub name: String,
    pub path: String,
    pub file_type: Option<String>,
    pub favorite: bool,
    pub tags: Vec<Tag>,
}

/// Whether `f` is the new record for the file at `path` under the rules of
/// `sep`: its name is the path's file name and its type the path's
/// extension; it has no id, is no favorite and has no tags.
pub open spec fn new_file_record(f: File, path: Seq<char>, sep: char) -> bool {
    &&& file_name_of(path, sep) == Some(f.name@)
    &&& f.path@ == path
    &&& f.file_type.deep_view() == extension_of(path, sep)
    &&& f.id is None
    &&& !f.favorite
    &&& f.tags@.len() == 0
}

/// Whether `r` is what `File::from` gives for `path` under the rules of
/// `sep`: the new record where the path has a file name, and otherwise the
/// error "invalid file name".
pub open spec fn file_from_result(r: Result<File, Error>, path: Seq<char>, sep: char) -> bool {
    match r {
        Ok(f) => new_file_record(f, path, sep),
        Err(e) => file_name_of(path, sep) is None && e.0@ == "invalid file name"@,
    }
}

/// Under one separator, `File::from` depends on the path alone: any two
/// results it may give for the path agree on success, on every field of the
/// record, and on the error message. It needs no file at the path.
pub proof fn lemma_file_from_depends_only_on_path(
    r1: Result<File, Error>,
    r2: Result<File, Error>,
    path: Seq<char>,
    sep: char,
)
    requires
        file_from_result(r1, path, sep),
        file_from_result(r2, path, sep),
    ensures
        r1 is Ok <==> r2 is Ok,
        r1 matches Ok(f1) ==> r2 matches Ok(f2) && {
            &&& f1.name@ == f2.name@
            &&& f1.path@ == f2.path@
            &&& f1.file_type.deep_view() == f2.file_type.deep_view()
            &&& f1.id == f2.id
            &&& f1.favorite == f2.favorite
            &&& f1.tags@ == f2.tags@
        },
        r1 matches Err(e1) ==> r2 matches Err(e2) && e1.0@ == e2.0@,
{
    if let (Ok(f1), Ok(f2)) = (r1, r2) {
        assert(f1.tags@ =~= f2.tags@);
    }
}

impl File {
    /// The new record for the file at `path` under the rules of `sep`; a
    /// path without a file name (empty, a root or prefix alone, or one
    /// ending in `..`) is refused.
    pub fn from_with(path: &str, sep: char) -> (r: Result<File, Error>)
        requires
            sep == '/' || sep == '\\',
        ensures
            file_from_result(r, path@, sep),
    {
        let name = match file_name_with(path, sep) {
            Some(n) => n,
            None => {
                return Err(Error::msg("invalid file name"));
            },
        };
        let file_type = extension_with(path, sep);
        Ok(File { id: None, name, path: path.to_owned(), file_type, favorite: false, tags: Vec::new() })
    }

    /// The new record for the file at `path` on this platform.
    pub fn from(path: &str) -> (r: Result<File, Error>)
        ensures
            file_from_result(r, path@, '/') || file_from_result(r, path@, '\\'),
    {
        File::from_with(path, main_separator())
    }
}

/// A folder record: the entries found in the directory.
#[derive(Debug)]
pub struct Folder {
    pub id: Option<String>,
    pub contents: Vec<FolderContent>,
}

/// One entry of a folder.
#[derive(Debug)]
pub struct FolderContent {
    pub name: String,
    pub path: String,
    pub is_dir: bool,
}

/// One step of the navigation trail shown above a file or folder.
#[derive(Debug)]
pub struct BreadCrumb {
    pub path: String,
    pub name: String,
    pub is_dir: bool,
}

/// Settings read from the configuration file.
#[derive(Debug)]
pub struct Config {
    pub allowed_paths: Vec<String>,
    pub thumbnail_dir: String,
}

} // verus!
