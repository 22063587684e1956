//! The folder page.

use vstd::prelude::*;

use crate::types::{Error, Folder, FolderContent};
use crate::paths::{is_verbatim, main_separator};
use crate::utils::{get_thumbnail_path_with, thumbnail_path_of};
use crate::text::copy_string;

verus! {

/// The folder that the page shows once a new record was stored: the record
/// the database gave back, or the error "failed to save folder" where it
/// gave back none.
pub fn saved_folder(saved: Option<Folder>) -> (r: Result<Folder, Error>)
    ensures
        match saved {
            Some(f) => r == Ok::<Folder, Error>(f),
            None => r matches Err(e) && e.0@ == "failed to save folder"@,
        },
{
    match saved {
        Some(f) => Ok(f),
        None => Err(Error::msg("failed to save folder")),
    }
}

/// The entries that are not directories, in order.
pub open spec fn file_entries(s: Seq<FolderContent>) -> Seq<FolderContent>
    decreases s.len(),
{
    if s.len() == 0 {
        Seq::empty()
    } else if s.last().is_dir {
        file_entries(s.drop_last())
    } else {
        file_entries(s.drop_last()).push(s.last())
    }
}

/// The test that keeps an entry of a listing among its files: it is not a
/// directory.
pub open spec fn not_a_directory() -> spec_fn(FolderContent) -> bool {
    |c: FolderContent| !c.is_dir
}

/// The files of a listing are exactly its entries that are not directories,
/// kept in their order.
pub proof fn lemma_file_entries_are_the_non_directories(s: Seq<FolderContent>)
    ensures
        file_entries(s) == s.filter(not_a_directory()),
    decreases s.len(),
{
    reveal(Seq::filter);
    if s.len() > 0 {
        lemma_file_entries_are_the_non_directories(s.drop_last());
    }
}

/// A list of thumbnail candidates for a listing has one candidate for each
/// entry that is not a directory: every such entry has a candidate with its
/// path, every candidate carries the path of such an entry, and there are as
/// many candidates as such entries.
pub proof fn lemma_candidates_cover_every_file(
    r: Seq<(String, String)>,
    contents: Seq<FolderContent>,
    thumbnail_dir: Seq<char>,
    sep: char,
)
    requires
        candidates_match(r, contents, thumbnail_dir, sep),
    ensures
        r.len() == contents.filter(not_a_directory()).len(),
        forall|i: int| 0 <= i < contents.len() && !(#[trigger] contents[i]).is_dir
            ==> exists|k: int| 0 <= k < r.len() && r[k].0@ == contents[i].path@,
        forall|k: int| 0 <= k < r.len()
            ==> exists|i: int| 0 <= i < contents.len() && !contents[i].is_dir && (#[trigger] r[k]).0@ == contents[i].path@,
{
    lemma_file_entries_are_the_non_directories(contents);
    let f = contents.filter(not_a_directory());
    assert forall|i: int| 0 <= i < contents.len() && !(#[trigger] contents[i]).is_dir
        implies exists|k: int| 0 <= k < r.len() && r[k].0@ == contents[i].path@ by {
        contents.lemma_filter_contains(not_a_directory(), i);
        let k = choose|k: int| 0 <= k < f.len() && f[k] == contents[i];
        assert(candidate_at(r, k, contents, thumbnail_dir, sep));
        assert(r[k].0@ == contents[i].path@);
    }
    assert forall|k: int| 0 <= k < r.len()
        implies exists|i: int| 0 <= i < contents.len() && !contents[i].is_dir && (#[trigger] r[k]).0@ == contents[i].path@ by {
        assert(candidate_at(r, k, contents, thumbnail_dir, sep));
        contents.lemma_filter_pred(not_a_directory(), k);
        assert(f.contains(f[k]));
        contents.lemma_filter_contains_rev(not_a_directory(), f[k]);
        let i = choose|i: int| 0 <= i < contents.len() && contents[i] == f[k];
        assert(!contents[i].is_dir && r[k].0@ == contents[i].path@);
    }
}

/// What the folder page does for a folder: show the stored record, or list
/// the directory and store the listing first.
#[derive(Debug)]
pub enum FolderStep {
    Show(Folder),
    ListAndStore,
}

/// The step of the folder page: the stored record where there is one,
/// otherwise listing the directory (then `saved_folder` takes over).
pub fn folder_for_view(stored: Option<Folder>) -> (r: FolderStep)
    ensures
        match stored {
            Some(f) => r == FolderStep::Show(f),
            None => r == FolderStep::ListAndStore,
        },
{
    match stored {
        Some(f) => FolderStep::Show(f),
        None => FolderStep::ListAndStore,
    }
}

/// For each entry of the folder that is not a directory, in order, its path
/// and the location of its cached thumbnail below `thumbnail_dir`. The page
/// shows those of them whose thumbnail exists.
pub fn thumbnail_candidates_with(contents: &Vec<FolderContent>, thumbnail_dir: &str, sep: char) -> (r: Vec<(String, String)>)
    requires
        sep == '/' || sep == '\\',
    ensures
        candidates_match(r@, contents@, thumbnail_dir@, sep),
        r@.len() == contents@.filter(not_a_directory()).len(),
        forall|i: int| 0 <= i < contents@.len() && !(#[trigger] contents@[i]).is_dir
            ==> exists|k: int| 0 <= k < r@.len() && r@[k].0@ == contents@[i].path@,
        forall|k: int| 0 <= k < r@.len()
            ==> exists|i: int| 0 <= i < contents@.len() && !contents@[i].is_dir && (#[trigger] r@[k]).0@ == contents@[i].path@,
{
    let mut r: Vec<(String, String)> = Vec::new();
    let mut i: usize = 0;
    while i < contents.len()
        invariant
            sep == '/' || sep == '\\',
            i <= contents.len(),
            candidates_match(r@, contents@.take(i as int), thumbnail_dir@, sep),
        decreases contents.len() - i,
    {
        let ghost pre = contents@.take(i as int);
        let ghost post = contents@.take(i + 1);
        assert(post.drop_last() =~= pre);
        let entry = &contents[i];
        let ghost old_r = r@;
        if !entry.is_dir {
            let thumb = get_thumbnail_path_with(thumbnail_dir, entry.path.as_str(), sep);
            match thumb {
                Ok(t) => {
                    r.push((copy_string(&entry.path), t));
                    assert(file_entries(post) == file_entries(pre).push(contents@[i as int]));
                    assert forall|k: int| 0 <= k < r@.len() implies #[trigger] candidate_at(r@, k, post, thumbnail_dir@, sep) by {
                        if k < old_r.len() {
                            assert(r@[k] == old_r[k]);
                            assert(candidate_at(old_r, k, pre, thumbnail_dir@, sep));
                        }
                    }
                    assert(old_r.len() == file_entries(pre).len());
                    assert(r@.len() == file_entries(post).len());
                    assert(candidates_match(r@, post, thumbnail_dir@, sep));
                },
                Err(_) => {
                    assert(false);
                },
            }
        } else {
            assert(file_entries(post) == file_entries(pre));
            assert forall|k: int| 0 <= k < r@.len() implies #[trigger] candidate_at(r@, k, post, thumbnail_dir@, sep) by {
                assert(candidate_at(r@, k, pre, thumbnail_dir@, sep));
            }
            assert(candidates_match(r@, post, thumbnail_dir@, sep));
        }
        i = i + 1;
    }
    assert(contents@.take(contents.len() as int) =~= contents@);
    proof {
        lemma_candidates_cover_every_file(r@, contents@, thumbnail_dir@, sep);
    }
    r
}

/// Whether `r` lists, for each entry that is not a directory, in order, its
/// path and its thumbnail location under the rules of `sep` (exact unless
/// `thumbnail_dir` has a verbatim prefix).
pub open spec fn candidates_match(r: Seq<(String, String)>, contents: Seq<FolderContent>, thumbnail_dir: Seq<char>, sep: char) -> bool {
    &&& r.len() == file_entries(contents).len()
    &&& forall|k: int| 0 <= k < r.len() ==> #[trigger] candidate_at(r, k, contents, thumbnail_dir, sep)
}

/// Whether the `k`-th candidate is the path of the `k`-th file entry and its
/// thumbnail location (exact unless `thumbnail_dir` is verbatim).
pub open spec fn candidate_at(r: Seq<(String, String)>, k: int, contents: Seq<FolderContent>, thumbnail_dir: Seq<char>, sep: char) -> bool {
    let c = file_entries(contents)[k];
    &&& r[k].0@ == c.path@
    &&& (is_verbatim(thumbnail_dir, sep) || r[k].1@ == thumbnail_path_of(thumbnail_dir, c.path@, sep))
}

/// For each entry of the folder that is not a directory, in order, its path
/// and the location of its cached thumbnail below `thumbnail_dir`, on this
/// platform. The page shows those of them whose thumbnail exists.
pub fn thumbnail_candidates(contents: &Vec<FolderContent>, thumbnail_dir: &str) -> (r: Vec<(String, String)>)
    ensures
        candidates_match(r@, contents@, thumbnail_dir@, '/') || candidates_match(r@, contents@, thumbnail_dir@, '\\'),
        r@.len() == contents@.filter(not_a_directory()).len(),
        forall|i: int| 0 <= i < contents@.len() && !(#[trigger] contents@[i]).is_dir
            ==> exists|k: int| 0 <= k < r@.len() && r@[k].0@ == contents@[i].path@,
        forall|k: int| 0 <= k < r@.len()
            ==> exists|i: int| 0 <= i < contents@.len() && !contents@[i].is_dir && (#[trigger] r@[k]).0@ == contents@[i].path@,
{
    thumbnail_candidates_with(contents, thumbnail_dir, main_separator())
}

} // verus!
