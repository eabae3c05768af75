//! Browsing the directories of the server.
use vstd::prelude::*;

use crate::error::{status_error, ApiError};
use crate::sorting::{stable_order, TextKey};
use crate::text::{chars_of, lowercase};

verus! {

/// Which directory to list.
#[derive(Debug, PartialEq, Eq)]
pub struct DirectoryRequestDto {
    pub path: String,
    pub show_files: bool,
}

impl Default for DirectoryRequestDto {
    fn default() -> (r: Self)
        ensures
            r.path@ == Seq::<char>::empty(),
            !r.show_files,
    {
        DirectoryRequestDto { path: String::new(), show_files: false }
    }
}

/// A directory's contents.
#[derive(Debug, PartialEq, Eq)]
pub struct DirectoryListingDto {
    pub parent: Option<String>,
    pub directories: Vec<PathDto>,
    pub files: Vec<PathDto>,
}

/// A file or a directory.
#[derive(Debug, PartialEq, Eq)]
pub struct PathDto {
    pub type_: String,
    pub name: String,
    pub path: String,
}

/// A [`PathDto`] by its texts.
#[verifier::ext_equal]
pub struct PathView {
    pub type_: Seq<char>,
    pub name: Seq<char>,
    pub path: Seq<char>,
}

impl DeepView for PathDto {
    type V = PathView;

    open spec fn deep_view(&self) -> PathView {
        PathView { type_: self.type_@, name: self.name@, path: self.path@ }
    }
}

/// What is found in a directory: its path, the last part of the path where it has one, and whether
/// it is a directory.
#[derive(Debug, PartialEq, Eq)]
pub struct Entry {
    pub path: String,
    pub file_name: Option<String>,
    pub is_dir: bool,
}

/// Whether a file name starts with a dot.
pub open spec fn hidden_name(file_name: Option<Seq<char>>) -> bool {
    file_name is Some && file_name->0.len() > 0 && file_name->0[0] == '.'
}

/// Whether a file is hidden, given its name.
pub fn is_hidden(file_name: &Option<String>) -> (r: bool)
    ensures
        r == hidden_name(file_name.deep_view()),
{
    match file_name {
        Some(n) => {
            let v: Vec<char> = chars_of(n.as_str());
            v.len() > 0 && v[0] == '.'
        },
        None => false,
    }
}

/// How an entry is shown. One without a name is shown by its path.
pub open spec fn path_view(e: Entry) -> PathView {
    PathView {
        type_: if e.is_dir {
            "directory"@
        } else {
            "file"@
        },
        name: match e.file_name {
            Some(n) => n@,
            None => e.path@,
        },
        path: e.path@,
    }
}

/// Shows an entry.
pub fn path_dto(e: &Entry) -> (r: PathDto)
    ensures
        r.deep_view() == path_view(*e),
{
    PathDto {
        type_: if e.is_dir {
            "directory".to_owned()
        } else {
            "file".to_owned()
        },
        name: match &e.file_name {
            Some(n) => n.clone(),
            None => e.path.clone(),
        },
        path: e.path.clone(),
    }
}

/// What a request without a path is answered: the root directory.
pub fn root_listing() -> (r: DirectoryListingDto)
    ensures
        r.parent is None,
        r.directories.deep_view() == seq![
            PathView { type_: "directory"@, name: "/"@, path: "/"@ },
        ],
        r.files.deep_view() == Seq::<PathView>::empty(),
{
    let mut directories: Vec<PathDto> = Vec::new();
    directories.push(path_dto(&Entry { path: "/".to_owned(), file_name: None, is_dir: true }));
    assert(directories.deep_view() =~= seq![directories[0].deep_view()]);
    let files: Vec<PathDto> = Vec::new();
    assert(files.deep_view() =~= Seq::<PathView>::empty());
    DirectoryListingDto { parent: None, directories, files }
}

/// Refuses a path that is not absolute, or whose directory cannot be read.
pub fn check_path(absolute: bool, readable: bool) -> (r: Result<(), ApiError>)
    ensures
        match r {
            Ok(_) => absolute && readable,
            Err(e) => if !absolute {
                e.deep_view() == status_error(400, "Path must be absolute"@)
            } else {
                !readable && e.deep_view() == status_error(400, "Path does not exist"@)
            },
        },
{
    if !absolute {
        Err(ApiError::bad_request("Path must be absolute"))
    } else if !readable {
        Err(ApiError::bad_request("Path does not exist"))
    } else {
        Ok(())
    }
}

/// Whether an entry is listed: hidden ones never are, files only on request.
pub open spec fn is_listed(e: Entry, show_files: bool) -> bool {
    !hidden_name(e.file_name.deep_view()) && (show_files || e.is_dir)
}

/// The entries that are listed.
pub open spec fn listed(entries: Seq<Entry>, show_files: bool) -> Seq<Entry> {
    entries.filter(|e: Entry| is_listed(e, show_files))
}

/// Whether these are the keys of these entries: their paths in lower case.
pub open spec fn are_keys(keys: Seq<TextKey>, entries: Seq<Entry>) -> bool {
    &&& keys.len() == entries.len()
    &&& forall|i: int|
        0 <= i < keys.len() ==> (#[trigger] keys[i]).chars@ == crate::text::lowercased(
            entries[i].path@,
        )
}

/// The directories among entries, or what is none, as they are shown.
pub open spec fn shown(entries: Seq<Entry>, directories: bool) -> Seq<PathView>
    decreases entries.len(),
{
    if entries.len() == 0 {
        Seq::empty()
    } else if entries.last().is_dir == directories {
        shown(entries.drop_last(), directories).push(path_view(entries.last()))
    } else {
        shown(entries.drop_last(), directories)
    }
}

fn keep_listed(entries: Vec<Entry>, show_files: bool) -> (r: Vec<Entry>)
    ensures
        r@ == listed(entries@, show_files),
{
    let ghost keep = |e: Entry| is_listed(e, show_files);
    let mut r: Vec<Entry> = Vec::new();
    proof {
        reveal(Seq::filter);
        assert(r@ =~= entries@.take(0).filter(keep));
    }
    for e in it: entries
        invariant
            it.seq() == entries@,
            keep == (|e: Entry| is_listed(e, show_files)),
            r@ == entries@.take(it.index()).filter(keep),
    {
        proof {
            assert(entries@.take(it.index() + 1) =~= entries@.take(it.index()).push(e));
            entries@.take(it.index()).lemma_filter_push(e, keep);
        }
        if !is_hidden(&e.file_name) && (show_files || e.is_dir) {
            r.push(e);
        }
    }
    assert(entries@.take(entries@.len() as int) =~= entries@);
    r
}

fn path_keys(entries: &Vec<Entry>) -> (r: Vec<TextKey>)
    ensures
        are_keys(r@, entries@),
{
    let mut r: Vec<TextKey> = Vec::new();
    let mut i: usize = 0;
    while i < entries.len()
        invariant
            i <= entries.len(),
            r.len() == i,
            forall|k: int|
                0 <= k < i ==> (#[trigger] r@[k]).chars@ == crate::text::lowercased(entries@[k].path@),
        decreases entries.len() - i,
    {
        let key: String = lowercase(entries[i].path.as_str());
        r.push(TextKey { chars: chars_of(key.as_str()) });
        i += 1;
    }
    r
}

/// Lists the contents of a directory: what is to be listed, sorted by path without regard to case,
/// directories and files apart.
pub fn directory_listing(parent: Option<String>, entries: Vec<Entry>, show_files: bool) -> (r:
    DirectoryListingDto)
    ensures
        r.parent == parent,
        exists|keys: Seq<TextKey>, order: Seq<usize>|
            #![trigger are_keys(keys, listed(entries@, show_files)), crate::sorting::is_sorting(keys, order)]
            are_keys(keys, listed(entries@, show_files)) && crate::sorting::is_sorting(keys, order)
                && r.directories.deep_view() == shown(
                crate::sorting::arranged(listed(entries@, show_files), order),
                true,
            ) && r.files.deep_view() == shown(
                crate::sorting::arranged(listed(entries@, show_files), order),
                false,
            ),
{
    let kept: Vec<Entry> = keep_listed(entries, show_files);
    let keys: Vec<TextKey> = path_keys(&kept);
    let order: Vec<usize> = stable_order(&keys);
    let ghost all = crate::sorting::arranged(kept@, order@);
    let mut directories: Vec<PathDto> = Vec::new();
    let mut files: Vec<PathDto> = Vec::new();
    let mut i: usize = 0;
    assert(directories.deep_view() =~= Seq::<PathView>::empty());
    assert(files.deep_view() =~= Seq::<PathView>::empty());
    while i < order.len()
        invariant
            i <= order.len(),
            all == crate::sorting::arranged(kept@, order@),
            crate::sorting::is_sorting(keys@, order@),
            keys.len() == kept.len(),
            directories.deep_view() == shown(all.take(i as int), true),
            files.deep_view() == shown(all.take(i as int), false),
        decreases order.len() - i,
    {
        assert(order@[i as int] < keys.len());
        let e: &Entry = &kept[order[i]];
        assert(all.take(i as int + 1).drop_last() =~= all.take(i as int));
        assert(all.take(i as int + 1).last() == *e);
        let dto: PathDto = path_dto(e);
        if e.is_dir {
            let ghost before = directories.deep_view();
            directories.push(dto);
            assert(directories.deep_view() =~= before.push(dto.deep_view()));
        } else {
            let ghost before = files.deep_view();
            files.push(dto);
            assert(files.deep_view() =~= before.push(dto.deep_view()));
        }
        i += 1;
    }
    assert(all.take(all.len() as int) =~= all);
    proof {
        assert(are_keys(keys@, listed(entries@, show_files)));
        assert(crate::sorting::is_sorting(keys@, order@));
    }
    DirectoryListingDto { parent, directories, files }
}

/// What is shown of an entry: its path, its name or else its path, and whether it is a directory.
pub open spec fn shows_entry(v: PathView, e: Entry) -> bool {
    &&& v.path == e.path@
    &&& v.name == (if e.file_name is Some {
        e.file_name->0@
    } else {
        e.path@
    })
    &&& v.type_ == (if e.is_dir {
        "directory"@
    } else {
        "file"@
    })
}

/// Whether this is shown of one of the entries that are, or are not, directories.
pub open spec fn is_shown_of(v: PathView, entries: Seq<Entry>, directories: bool) -> bool {
    exists|i: int|
        0 <= i < entries.len() && entries[i].is_dir == directories && shows_entry(
            v,
            #[trigger] entries[i],
        )
}

/// Whether an entry is among those that are shown.
pub open spec fn is_shown_in(e: Entry, views: Seq<PathView>) -> bool {
    exists|k: int| 0 <= k < views.len() && shows_entry(#[trigger] views[k], e)
}

/// The entries that are not hidden: those whose name does not begin with a dot.
pub open spec fn visible(entries: Seq<Entry>, i: int) -> bool {
    0 <= i < entries.len() && !(entries[i].file_name is Some && entries[i].file_name->0@.len() > 0
        && entries[i].file_name->0@[0] == '.')
}

proof fn lemma_shown(entries: Seq<Entry>, directories: bool)
    ensures
        forall|k: int|
            0 <= k < shown(entries, directories).len() ==> is_shown_of(
                #[trigger] shown(entries, directories)[k],
                entries,
                directories,
            ),
        forall|i: int|
            0 <= i < entries.len() && (#[trigger] entries[i]).is_dir == directories ==> is_shown_in(
                entries[i],
                shown(entries, directories),
            ),
    decreases entries.len(),
{
    if entries.len() > 0 {
        let init = entries.drop_last();
        lemma_shown(init, directories);
        let before = shown(init, directories);
        let now = shown(entries, directories);
        assert forall|k: int| 0 <= k < now.len() implies is_shown_of(
            #[trigger] now[k],
            entries,
            directories,
        ) by {
            if k < before.len() {
                assert(now[k] == before[k]);
                let i = choose|i: int|
                    0 <= i < init.len() && init[i].is_dir == directories && shows_entry(
                        before[k],
                        #[trigger] init[i],
                    );
                assert(entries[i] == init[i]);
            } else {
                assert(shows_entry(now[k], entries[entries.len() - 1]));
            }
        }
        assert forall|i: int|
            0 <= i < entries.len() && (#[trigger] entries[i]).is_dir == directories implies is_shown_in(
            entries[i],
            now,
        ) by {
            if i < init.len() {
                assert(init[i] == entries[i]);
                let k = choose|k: int|
                    0 <= k < before.len() && shows_entry(#[trigger] before[k], init[i]);
                assert(now[k] == before[k]);
            } else {
                assert(shows_entry(now[now.len() - 1], entries[i]));
            }
        }
    }
}

proof fn lemma_listed(entries: Seq<Entry>, show_files: bool, keys: Seq<TextKey>, order: Seq<usize>)
    requires
        entries.len() <= usize::MAX,
        are_keys(keys, listed(entries, show_files)),
        crate::sorting::is_sorting(keys, order),
    ensures
        ({
            let sorted = crate::sorting::arranged(listed(entries, show_files), order);
            &&& forall|j: int|
                0 <= j < sorted.len() ==> is_listed(#[trigger] sorted[j], show_files)
                    && entries.contains(sorted[j])
            &&& forall|i: int|
                0 <= i < entries.len() && is_listed(#[trigger] entries[i], show_files)
                    ==> sorted.contains(entries[i])
        }),
{
    let keep = |e: Entry| is_listed(e, show_files);
    let kept = listed(entries, show_files);
    let sorted = crate::sorting::arranged(kept, order);
    crate::sorting::sorting_is_a_rearrangement(keys, order);
    entries.lemma_filter_len(keep);
    assert forall|j: int| 0 <= j < sorted.len() implies is_listed(#[trigger] sorted[j], show_files)
        && entries.contains(sorted[j]) by {
        assert(order[j] < keys.len());
        let a = order[j] as int;
        entries.lemma_filter_pred(keep, a);
        entries.lemma_filter_contains_rev(keep, kept[a]);
    }
    assert forall|i: int|
        0 <= i < entries.len() && is_listed(#[trigger] entries[i], show_files) implies sorted.contains(
        entries[i],
    ) by {
        entries.lemma_filter_contains(keep, i);
        let a = choose|a: int| 0 <= a < kept.len() && kept[a] == entries[i];
        assert(order.contains(a as usize));
        let j = choose|j: int| 0 <= j < order.len() && order[j] == a as usize;
        assert(sorted[j] == entries[i]);
    }
}

/// A listing shows the directories that are there and are not hidden, and the files too if they are
/// asked for, each for what it is.
pub proof fn listing_shows_what_is_there(
    entries: Seq<Entry>,
    show_files: bool,
    keys: Seq<TextKey>,
    order: Seq<usize>,
    i: int,
)
    requires
        entries.len() <= usize::MAX,
        are_keys(keys, listed(entries, show_files)),
        crate::sorting::is_sorting(keys, order),
        visible(entries, i),
        entries[i].is_dir || show_files,
    ensures
        is_shown_in(
            entries[i],
            shown(
                crate::sorting::arranged(listed(entries, show_files), order),
                entries[i].is_dir,
            ),
        ),
{
    let sorted = crate::sorting::arranged(listed(entries, show_files), order);
    lemma_listed(entries, show_files, keys, order);
    lemma_shown(sorted, entries[i].is_dir);
    assert(is_listed(entries[i], show_files));
    let j = choose|j: int| 0 <= j < sorted.len() && sorted[j] == entries[i];
    assert(sorted[j].is_dir == entries[i].is_dir);
}

/// A listing shows nothing that is hidden or not there, directories as directories only, and files only
/// if they are asked for.
pub proof fn listing_shows_nothing_else(
    entries: Seq<Entry>,
    show_files: bool,
    keys: Seq<TextKey>,
    order: Seq<usize>,
    directories: bool,
    k: int,
)
    requires
        entries.len() <= usize::MAX,
        are_keys(keys, listed(entries, show_files)),
        crate::sorting::is_sorting(keys, order),
        0 <= k < shown(
            crate::sorting::arranged(listed(entries, show_files), order),
            directories,
        ).len(),
    ensures
        directories || show_files,
        exists|i: int| #[trigger]
            visible(entries, i) && entries[i].is_dir == directories && shows_entry(
                shown(
                    crate::sorting::arranged(listed(entries, show_files), order),
                    directories,
                )[k],
                entries[i],
            ),
{
    let sorted = crate::sorting::arranged(listed(entries, show_files), order);
    let v = shown(sorted, directories)[k];
    lemma_listed(entries, show_files, keys, order);
    lemma_shown(sorted, directories);
    assert(is_shown_of(v, sorted, directories));
    let j = choose|j: int|
        0 <= j < sorted.len() && sorted[j].is_dir == directories && shows_entry(
            v,
            #[trigger] sorted[j],
        );
    assert(is_listed(sorted[j], show_files));
    let i = choose|i: int| 0 <= i < entries.len() && entries[i] == sorted[j];
    assert(visible(entries, i));
}

} // verus!
