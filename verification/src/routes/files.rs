//! The file page and the editing of a file's tags.

use vstd::prelude::*;

use crate::paths::main_separator;
use crate::text::{contains_string, copy_opt_string, copy_string, join_strings, join_with, opt_string_eq, string_views};
use crate::types::{file_from_result, Error, File, Tag, TagView};

verus! {

// ---------------------------------------------------------------- tag sets

/// The values of a sequence of tags.
pub open spec fn tag_views(tags: Seq<Tag>) -> Seq<TagView> {
    Seq::new(tags.len(), |i: int| tags[i]@)
}

/// The ids of the tags that have one, in order.
pub open spec fn tag_ids(tags: Seq<TagView>) -> Seq<Seq<char>>
    decreases tags.len(),
{
    if tags.len() == 0 {
        Seq::empty()
    } else {
        match tags.last().0 {
            Some(id) => tag_ids(tags.drop_last()).push(id),
            None => tag_ids(tags.drop_last()),
        }
    }
}

/// Whether a tag of the file stays when the tags named in `removed` are
/// taken off: with no removal every tag stays; otherwise the tags that
/// have an id outside `removed` stay, and tags without an id go.
pub open spec fn stays_after_removal(t: TagView, removed: Option<Seq<Seq<char>>>) -> bool {
    match removed {
        None => true,
        Some(ids) => match t.0 {
            Some(id) => !ids.contains(id),
            None => false,
        },
    }
}

/// With no removal every tag of the file stays; with a removal, a tag stays
/// exactly when it has an id and that id is none of the removed ids, at
/// whatever position they stand.
pub proof fn lemma_removal_keeps_exactly_untouched_ids(t: TagView, removed: Option<Seq<Seq<char>>>)
    ensures
        stays_after_removal(t, removed) <==> match removed {
            None => true,
            Some(ids) => t.0 is Some && forall|k: int| 0 <= k < ids.len() ==> ids[k] != t.0->0,
        },
{
    if let Some(ids) = removed {
        if let Some(id) = t.0 {
            if ids.contains(id) {
                let k = choose|k: int| 0 <= k < ids.len() && ids[k] == id;
                assert(ids[k] == id);
            }
        }
    }
}

/// The id list holds the id of every tag that has one, in the tags' order,
/// and nothing else: it is the tags' optional ids with the missing ones
/// left out.
pub proof fn lemma_tag_ids_are_all_ids(tags: Seq<TagView>)
    ensures
        tag_ids(tags) == tags.filter_map(|t: TagView| t.0),
        forall|i: int| 0 <= i < tags.len() && tags[i].0 is Some ==> #[trigger] tag_ids(tags).contains(tags[i].0->0),
        forall|x: Seq<char>| tag_ids(tags).contains(x) ==> exists|i: int| 0 <= i < tags.len() && tags[i].0 == Some(x),
    decreases tags.len(),
{
    if tags.len() > 0 {
        let pre = tags.drop_last();
        lemma_tag_ids_are_all_ids(pre);
        let f = |t: TagView| t.0;
        match tags.last().0 {
            Some(id) => {
                assert(pre.filter_map(f) + seq![id] =~= pre.filter_map(f).push(id));
            },
            None => {},
        }
        assert(tag_ids(tags) == tags.filter_map(f));
        assert forall|i: int| 0 <= i < tags.len() && tags[i].0 is Some implies #[trigger] tag_ids(tags).contains(tags[i].0->0) by {
            if i < tags.len() - 1 {
                assert(pre[i] == tags[i]);
                assert(tag_ids(pre).contains(pre[i].0->0));
                let k = choose|k: int| 0 <= k < tag_ids(pre).len() && tag_ids(pre)[k] == pre[i].0->0;
                assert(tag_ids(tags)[k] == tag_ids(pre)[k]);
            } else {
                assert(tag_ids(tags).last() == tags[i].0->0);
                assert(tag_ids(tags)[tag_ids(tags).len() - 1] == tags[i].0->0);
            }
        }
        assert forall|x: Seq<char>| tag_ids(tags).contains(x) implies exists|i: int| 0 <= i < tags.len() && tags[i].0 == Some(x) by {
            let k = choose|k: int| 0 <= k < tag_ids(tags).len() && tag_ids(tags)[k] == x;
            if k < tag_ids(pre).len() {
                assert(tag_ids(pre)[k] == x);
                assert(tag_ids(pre).contains(x));
                let i = choose|i: int| 0 <= i < pre.len() && pre[i].0 == Some(x);
                assert(tags[i] == pre[i]);
            } else {
                assert(tags[tags.len() - 1].0 == Some(x));
            }
        }
    }
}

/// A copy of the tag.
pub fn copy_tag(t: &Tag) -> (r: Tag)
    ensures
        r@ == t@,
{
    Tag { id: copy_opt_string(&t.id), name: copy_string(&t.name), tag_type: copy_opt_string(&t.tag_type) }
}

/// Whether two tags are equal.
pub fn tag_eq(a: &Tag, b: &Tag) -> (r: bool)
    ensures
        r == (a@ == b@),
{
    opt_string_eq(&a.id, &b.id) && a.name.eq(&b.name) && opt_string_eq(&a.tag_type, &b.tag_type)
}

/// Whether `set` holds a tag equal to `t`.
pub fn contains_tag(set: &Vec<Tag>, t: &Tag) -> (r: bool)
    ensures
        r == tag_views(set@).contains(t@),
{
    let mut i: usize = 0;
    while i < set.len()
        invariant
            i <= set.len(),
            forall|j: int| 0 <= j < i ==> tag_views(set@)[j] != t@,
        decreases set.len() - i,
    {
        if tag_eq(&set[i], t) {
            assert(tag_views(set@)[i as int] == t@);
            return true;
        }
        i = i + 1;
    }
    false
}

/// Adds `t` to the set of tags `set`, unless an equal tag is there.
pub fn insert_tag(set: &mut Vec<Tag>, t: Tag)
    requires
        tag_views(old(set)@).no_duplicates(),
    ensures
        tag_views(final(set)@).no_duplicates(),
        forall|x: TagView| #[trigger] tag_views(final(set)@).contains(x) <==> (tag_views(old(set)@).contains(x) || x == t@),
{
    if !contains_tag(set, &t) {
        let ghost before = tag_views(set@);
        let ghost tv = t@;
        set.push(t);
        assert(tag_views(set@) =~= before.push(tv));
        assert forall|x: TagView| #[trigger] tag_views(set@).contains(x) <==> (before.contains(x) || x == tv) by {
            if before.contains(x) {
                let j = choose|j: int| 0 <= j < before.len() && before[j] == x;
                assert(tag_views(set@)[j] == x);
            }
            if x == tv {
                assert(tag_views(set@)[before.len() as int] == x);
            }
        }
    }
}

/// The tags of a file after an edit: the set of the file's tags without
/// those that the removal takes off (see `stays_after_removal`), together
/// with the added tags. No tag occurs twice; the order is not meaningful.
pub fn edit_tag_set(current: &Vec<Tag>, removed: &Option<Vec<String>>, added: &Vec<Tag>) -> (r: Vec<Tag>)
    ensures
        tag_views(r@).no_duplicates(),
        forall|t: TagView| #[trigger] tag_views(r@).contains(t) <==> (
            (tag_views(current@).contains(t) && stays_after_removal(t, removed.deep_view()))
            || tag_views(added@).contains(t)),
        forall|t: TagView| #[trigger] tag_views(r@).contains(t) <==> (
            (tag_views(current@).contains(t) && match removed.deep_view() {
                None => true,
                Some(ids) => t.0 is Some && forall|k: int| 0 <= k < ids.len() ==> ids[k] != t.0->0,
            })
            || tag_views(added@).contains(t)),
{
    proof {
        assert forall|t: TagView| #[trigger] stays_after_removal(t, removed.deep_view()) == match removed.deep_view() {
            None => true,
            Some(ids) => t.0 is Some && forall|k: int| 0 <= k < ids.len() ==> ids[k] != t.0->0,
        } by {
            lemma_removal_keeps_exactly_untouched_ids(t, removed.deep_view());
        }
    }
    let mut set: Vec<Tag> = Vec::new();
    let mut i: usize = 0;
    while i < current.len()
        invariant
            i <= current.len(),
            tag_views(set@).no_duplicates(),
            forall|t: TagView| #[trigger] tag_views(set@).contains(t) <==> (
                tag_views(current@).take(i as int).contains(t) && stays_after_removal(t, removed.deep_view())),
        decreases current.len() - i,
    {
        let tag = &current[i];
        let stays = match removed {
            None => true,
            Some(ids) => match &tag.id {
                Some(id) => !contains_string(ids, id),
                None => false,
            },
        };
        proof {
            if removed is Some {
                assert(string_views(removed->0@) =~= removed.deep_view()->0);
            }
        }
        assert(stays == stays_after_removal(tag@, removed.deep_view()));
        let ghost pre = tag_views(current@).take(i as int);
        let ghost post = tag_views(current@).take(i + 1);
        assert(post =~= pre.push(tag@));
        let ghost old_set = tag_views(set@);
        if stays {
            insert_tag(&mut set, copy_tag(tag));
        }
        assert forall|t: TagView| #[trigger] tag_views(set@).contains(t) <==> (
            post.contains(t) && stays_after_removal(t, removed.deep_view())) by {
            assert(post[i as int] == tag@);
            if post.contains(t) && !pre.contains(t) {
                let j = choose|j: int| 0 <= j < post.len() && post[j] == t;
                assert(j == i);
            }
            if pre.contains(t) {
                let j = choose|j: int| 0 <= j < pre.len() && pre[j] == t;
                assert(post[j] == t);
            }
        }
        i = i + 1;
    }
    assert(tag_views(current@).take(current.len() as int) =~= tag_views(current@));
    let mut k: usize = 0;
    while k < added.len()
        invariant
            k <= added.len(),
            tag_views(set@).no_duplicates(),
            forall|t: TagView| #[trigger] tag_views(set@).contains(t) <==> (
                (tag_views(current@).contains(t) && stays_after_removal(t, removed.deep_view()))
                || tag_views(added@).take(k as int).contains(t)),
        decreases added.len() - k,
    {
        let ghost pre = tag_views(added@).take(k as int);
        let ghost post = tag_views(added@).take(k + 1);
        assert(post =~= pre.push(added@[k as int]@));
        insert_tag(&mut set, copy_tag(&added[k]));
        assert forall|t: TagView| #[trigger] tag_views(set@).contains(t) <==> (
            (tag_views(current@).contains(t) && stays_after_removal(t, removed.deep_view()))
            || post.contains(t)) by {
            assert(post[k as int] == added@[k as int]@);
            if post.contains(t) && !pre.contains(t) {
                let j = choose|j: int| 0 <= j < post.len() && post[j] == t;
                assert(j == k);
            }
            if pre.contains(t) {
                let j = choose|j: int| 0 <= j < pre.len() && pre[j] == t;
                assert(post[j] == t);
            }
        }
        k = k + 1;
    }
    assert(tag_views(added@).take(added.len() as int) =~= tag_views(added@));
    set
}

// ---------------------------------------------------------------- queries

/// The ids of the tags that have one, in order.
pub fn tag_id_list(tags: &Vec<Tag>) -> (r: Vec<String>)
    ensures
        string_views(r@) == tag_ids(tag_views(tags@)),
{
    let mut r: Vec<String> = Vec::new();
    let mut i: usize = 0;
    while i < tags.len()
        invariant
            i <= tags.len(),
            string_views(r@) == tag_ids(tag_views(tags@).take(i as int)),
        decreases tags.len() - i,
    {
        let ghost post = tag_views(tags@).take(i + 1);
        assert(post.drop_last() =~= tag_views(tags@).take(i as int));
        assert(post.last() == tags@[i as int]@);
        match &tags[i].id {
            Some(id) => {
                r.push(copy_string(id));
                assert(string_views(r@) =~= tag_ids(post));
            },
            None => {},
        }
        i = i + 1;
    }
    assert(tag_views(tags@).take(tags.len() as int) =~= tag_views(tags@));
    r
}

/// The query for the stored tags that are not attached to a file with
/// these tags.
pub fn unassigned_tags_query(tags: &Vec<Tag>) -> (r: String)
    ensures
        r@ == "SELECT * FROM tag WHERE id NOT IN ["@ + join_with(tag_ids(tag_views(tags@)), ", "@) + "]"@,
        r@ == "SELECT * FROM tag WHERE id NOT IN ["@ + join_with(
            tag_views(tags@).filter_map(|t: TagView| t.0),
            ", "@,
        ) + "]"@,
{
    proof {
        lemma_tag_ids_are_all_ids(tag_views(tags@));
    }
    let ids = tag_id_list(tags);
    let mut q = "SELECT * FROM tag WHERE id NOT IN [".to_owned();
    let joined = join_strings(&ids, ", ");
    q.append(joined.as_str());
    q.append("]");
    q
}

/// The query for the records with the given ids.
pub fn records_query(ids: &Vec<String>) -> (r: String)
    ensures
        r@ == "SELECT * FROM ["@ + join_with(string_views(ids@), ", "@) + "]"@,
{
    let mut q = "SELECT * FROM [".to_owned();
    let joined = join_strings(ids, ", ");
    q.append(joined.as_str());
    q.append("]");
    q
}

/// The address of the page of the file at `file_path`.
pub fn file_page_url(file_path: &str) -> (r: String)
    ensures
        r@ == "/file?path="@ + file_path@,
{
    let mut u = "/file?path=".to_owned();
    u.append(file_path);
    u
}

/// Whether a tag edit asks for nothing: neither a removal nor an addition.
pub fn tag_edit_is_empty(removed: &Option<Vec<String>>, added: &Option<Vec<String>>) -> (r: bool)
    ensures
        r == (removed is None && added is None),
{
    removed.is_none() && added.is_none()
}

/// The file whose tags are edited: the stored record, or the error "file
/// not found" where there is none.
pub fn file_to_edit(stored: Option<File>) -> (r: Result<File, Error>)
    ensures
        match stored {
            Some(f) => r == Ok::<File, Error>(f),
            None => r matches Err(e) && e.0@ == "file not found"@,
        },
{
    match stored {
        Some(f) => Ok(f),
        None => Err(Error::msg("file not found")),
    }
}

/// Whether `r` is the file record the page shows for `path` under the
/// rules of `sep`: the stored record where there is one (`false`: nothing
/// to store), or else the new record made from the path (`true`: it is to
/// be stored), or the error of making it.
pub open spec fn file_view_result(stored: Option<File>, r: Result<(File, bool), Error>, path: Seq<char>, sep: char) -> bool {
    match stored {
        Some(f) => r == Ok::<(File, bool), Error>((f, false)),
        None => match r {
            Ok((f, store)) => store && file_from_result(Ok(f), path, sep),
            Err(e) => file_from_result(Err(e), path, sep),
        },
    }
}

/// The file record the page shows for `path` under the rules of `sep`.
pub fn file_for_view_with(stored: Option<File>, path: &str, sep: char) -> (r: Result<(File, bool), Error>)
    requires
        sep == '/' || sep == '\\',
    ensures
        file_view_result(stored, r, path@, sep),
{
    match stored {
        Some(f) => Ok((f, false)),
        None => match File::from_with(path, sep) {
            Ok(f) => Ok((f, true)),
            Err(e) => Err(e),
        },
    }
}

/// The file record the page shows for `path` on this platform.
pub fn file_for_view(stored: Option<File>, path: &str) -> (r: Result<(File, bool), Error>)
    ensures
        file_view_result(stored, r, path@, '/') || file_view_result(stored, r, path@, '\\'),
{
    file_for_view_with(stored, path, main_separator())
}

} // verus!
