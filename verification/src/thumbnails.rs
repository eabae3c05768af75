//! Thumbnails: which of several stands for a book, a series or a collection.
use vstd::prelude::*;

use crate::error::{status_error, ApiError};
use crate::text::text_eq;

verus! {

/// A stored thumbnail, as far as the choice among several depends on it.
#[derive(Debug, PartialEq, Eq)]
pub struct Thumbnail {
    pub id: String,
    pub selected: bool,
    /// Whether its picture is stored with it.
    pub stored: bool,
    /// Where it names a file: whether the file is there.
    pub file: Option<bool>,
}

/// Whether a book's thumbnail still has a picture: one of its own or that of its file.
pub open spec fn book_picture(t: Thumbnail) -> bool {
    t.stored || t.file == Some(true)
}

/// Whether the thumbnail of a series has a picture: that of its file, if it names one, and its own
/// otherwise.
pub open spec fn series_picture(t: Thumbnail) -> bool {
    match t.file {
        Some(there) => there,
        None => t.stored,
    }
}

/// A book's thumbnail has a picture if either is there, that of a series the one that it names.
pub proof fn picture_is_stored_or_in_a_file(stored: bool, there: bool, selected: Thumbnail)
    ensures
        book_picture(Thumbnail { stored, file: Some(there), ..selected }) <==> stored || there,
        book_picture(Thumbnail { stored, file: None, ..selected }) <==> stored,
        series_picture(Thumbnail { stored, file: Some(there), ..selected }) <==> there,
        series_picture(Thumbnail { stored, file: None, ..selected }) <==> stored,
{
}

/// Tells whether a book's thumbnail still has a picture.
pub fn thumbnail_exists(t: &Thumbnail) -> (r: bool)
    ensures
        r == book_picture(*t),
{
    if t.stored {
        return true;
    }
    match t.file {
        Some(there) => there,
        None => false,
    }
}

fn has_series_picture(t: &Thumbnail) -> (r: bool)
    ensures
        r == series_picture(*t),
{
    match t.file {
        Some(there) => there,
        None => t.stored,
    }
}

// ---- the one to show ----

/// The thumbnail at `i` is the one to show: the first selected one with a picture or, where no such
/// is selected, the first with a picture.
pub open spec fn is_shown(all: Seq<Thumbnail>, i: int) -> bool {
    &&& 0 <= i < all.len()
    &&& series_picture(all[i])
    &&& if all[i].selected {
        forall|j: int| 0 <= j < i ==> !(series_picture(#[trigger] all[j]) && all[j].selected)
    } else {
        &&& forall|j: int| 0 <= j < i ==> !series_picture(#[trigger] all[j])
        &&& forall|j: int|
            0 <= j < all.len() ==> !(series_picture(#[trigger] all[j]) && all[j].selected)
    }
}

/// Finds the thumbnail to show, as it stands after every one without a picture is passed over.
pub fn effective_thumbnail(all: &Vec<Thumbnail>) -> (r: Option<usize>)
    ensures
        match r {
            Some(i) => is_shown(all@, i as int),
            None => forall|j: int| 0 <= j < all.len() ==> !series_picture(#[trigger] all@[j]),
        },
{
    let mut first: Option<usize> = None;
    let mut i: usize = 0;
    while i < all.len()
        invariant
            i <= all.len(),
            match first {
                Some(k) => k < i && series_picture(all@[k as int]) && forall|j: int|
                    0 <= j < k ==> !series_picture(#[trigger] all@[j]),
                None => forall|j: int| 0 <= j < i ==> !series_picture(#[trigger] all@[j]),
            },
            forall|j: int| 0 <= j < i ==> !(series_picture(#[trigger] all@[j]) && all@[j].selected),
        decreases all.len() - i,
    {
        if has_series_picture(&all[i]) {
            if all[i].selected {
                return Some(i);
            }
            if first.is_none() {
                first = Some(i);
            }
        }
        i += 1;
    }
    first
}

/// There is one thumbnail to show at most.
pub proof fn one_thumbnail_is_shown(all: Seq<Thumbnail>, i: int, j: int)
    requires
        is_shown(all, i),
        is_shown(all, j),
    ensures
        i == j,
{
}

// ---- keeping house ----

/// What is to be done with the thumbnails of a book.
#[derive(Debug, PartialEq, Eq)]
pub struct HouseKeeping {
    /// The ids of those to remove.
    pub remove: Vec<String>,
    /// The one to select, and thereby no other.
    pub select: Option<usize>,
}

/// The ids of a book's thumbnails that have no picture any more.
pub open spec fn gone(all: Seq<Thumbnail>) -> Seq<Seq<char>>
    decreases all.len(),
{
    if all.len() == 0 {
        Seq::empty()
    } else if book_picture(all.last()) {
        gone(all.drop_last())
    } else {
        gone(all.drop_last()).push(all.last().id@)
    }
}

/// Whether the thumbnail at `i` has a picture and is selected.
pub open spec fn is_chosen(all: Seq<Thumbnail>, i: int) -> bool {
    0 <= i < all.len() && book_picture(all[i]) && all[i].selected
}

/// Whether the thumbnail at `i` has a picture.
pub open spec fn is_kept(all: Seq<Thumbnail>, i: int) -> bool {
    0 <= i < all.len() && book_picture(all[i])
}

/// The thumbnail at `i` is the one to select: the first selected where several are, the first of
/// all where none is.
pub open spec fn is_to_select(all: Seq<Thumbnail>, i: int) -> bool {
    if exists|j: int| is_chosen(all, j) {
        &&& is_chosen(all, i)
        &&& forall|j: int| #[trigger] is_chosen(all, j) ==> i <= j
        &&& exists|j: int| i < j && is_chosen(all, j)
    } else {
        &&& is_kept(all, i)
        &&& forall|j: int| #[trigger] is_kept(all, j) ==> i <= j
    }
}

/// Plans what is to be done with the thumbnails of a book: those without a picture are removed, and
/// of the others one is to be selected.
pub fn thumbnails_house_keeping(all: &Vec<Thumbnail>) -> (r: HouseKeeping)
    ensures
        r.remove.deep_view() == gone(all@),
        match r.select {
            Some(i) => is_to_select(all@, i as int),
            None => forall|i: int| !is_to_select(all@, i),
        },
{
    let mut remove: Vec<String> = Vec::new();
    let mut first: Option<usize> = None;
    let mut chosen: Option<usize> = None;
    let mut several: bool = false;
    let mut i: usize = 0;
    assert(remove.deep_view() =~= gone(all@.take(0)));
    while i < all.len()
        invariant
            i <= all.len(),
            remove.deep_view() == gone(all@.take(i as int)),
            match first {
                Some(k) => k < i && is_kept(all@, k as int) && forall|j: int|
                    j < k ==> !#[trigger] is_kept(all@, j),
                None => forall|j: int| j < i ==> !#[trigger] is_kept(all@, j),
            },
            match chosen {
                Some(k) => k < i && is_chosen(all@, k as int) && forall|j: int|
                    j < k ==> !#[trigger] is_chosen(all@, j),
                None => forall|j: int| j < i ==> !#[trigger] is_chosen(all@, j),
            },
            several ==> chosen is Some && exists|j: int| chosen->0 < j && is_chosen(all@, j),
            !several && chosen is Some ==> forall|j: int|
                chosen->0 < j < i ==> !#[trigger] is_chosen(all@, j),
        decreases all.len() - i,
    {
        assert(all@.take(i as int + 1).drop_last() =~= all@.take(i as int));
        assert(all@.take(i as int + 1).last() == all@[i as int]);
        if thumbnail_exists(&all[i]) {
            assert(is_kept(all@, i as int));
            if first.is_none() {
                first = Some(i);
            }
            if all[i].selected {
                assert(is_chosen(all@, i as int));
                if chosen.is_none() {
                    chosen = Some(i);
                } else {
                    several = true;
                }
            }
        } else {
            let ghost before = remove.deep_view();
            remove.push(all[i].id.clone());
            assert(remove.deep_view() =~= before.push(all@[i as int].id@));
        }
        i += 1;
    }
    assert(all@.take(all@.len() as int) =~= all@);
    let select: Option<usize> = match chosen {
        Some(k) => if several {
            Some(k)
        } else {
            None
        },
        None => first,
    };
    proof {
        if select is None {
            assert forall|i: int| !is_to_select(all@, i) by {
                if chosen is Some {
                    assert(is_chosen(all@, chosen->0 as int));
                    if is_to_select(all@, i) {
                        let j = choose|j: int| i < j && is_chosen(all@, j);
                        assert(is_chosen(all@, i));
                    }
                } else {
                    assert(!is_kept(all@, i));
                    assert(!is_chosen(all@, i));
                }
            }
        }
    }
    HouseKeeping { remove, select }
}

/// Whether the thumbnail at `i` is selected once the plan is carried out.
pub open spec fn selected_after(all: Seq<Thumbnail>, select: Option<int>, i: int) -> bool {
    is_kept(all, i) && (match select {
        Some(k) => i == k,
        None => all[i].selected,
    })
}

/// Once the house is kept, exactly one thumbnail of a book is selected, if the book has any with a
/// picture.
pub proof fn exactly_one_is_selected(all: Seq<Thumbnail>, select: Option<int>)
    requires
        exists|i: int| is_kept(all, i),
        match select {
            Some(i) => is_to_select(all, i),
            None => forall|i: int| !is_to_select(all, i),
        },
    ensures
        exists|i: int| #[trigger] selected_after(all, select, i) && forall|j: int| #[trigger]
            selected_after(all, select, j) ==> j == i,
{
    match select {
        Some(k) => {
            assert(is_kept(all, k)) by {
                if exists|j: int| is_chosen(all, j) {
                    assert(is_chosen(all, k));
                }
            }
            assert(selected_after(all, select, k));
        },
        None => {
            if exists|j: int| is_chosen(all, j) {
                let j = choose|j: int| is_chosen(all, j);
                let k = lemma_first_chosen(all, j);
                assert(!is_to_select(all, k));
                assert(selected_after(all, select, k));
                assert forall|i: int| #[trigger] selected_after(all, select, i) implies i == k by {
                    assert(is_chosen(all, i));
                }
            } else {
                let j = choose|j: int| is_kept(all, j);
                let k = lemma_first_kept(all, j);
                assert(is_to_select(all, k));
            }
        },
    }
}

proof fn lemma_first_chosen(all: Seq<Thumbnail>, j: int) -> (k: int)
    requires
        is_chosen(all, j),
    ensures
        is_chosen(all, k),
        forall|i: int| #[trigger] is_chosen(all, i) ==> k <= i,
    decreases j,
{
    if exists|i: int| i < j && is_chosen(all, i) {
        lemma_first_chosen(all, choose|i: int| i < j && is_chosen(all, i))
    } else {
        j
    }
}

proof fn lemma_first_kept(all: Seq<Thumbnail>, j: int) -> (k: int)
    requires
        is_kept(all, j),
    ensures
        is_kept(all, k),
        forall|i: int| #[trigger] is_kept(all, i) ==> k <= i,
    decreases j,
{
    if exists|i: int| i < j && is_kept(all, i) {
        lemma_first_kept(all, choose|i: int| i < j && is_kept(all, i))
    } else {
        j
    }
}

/// Tells whether the house has to be kept before a book's thumbnail is shown: none is selected, or
/// the selected one has no picture any more.
pub fn needs_house_keeping(selected: &Option<Thumbnail>) -> (r: bool)
    ensures
        r == !(selected is Some && book_picture(selected->0)),
{
    match selected {
        Some(t) => !thumbnail_exists(t),
        None => true,
    }
}

// ---- collections ----

/// Lets a request for a collection's thumbnail through if the thumbnail is that collection's.
pub fn check_thumbnail_owner(owner: &str, collection: &str) -> (r: Result<(), ApiError>)
    ensures
        match r {
            Ok(_) => owner@ == collection@,
            Err(e) => owner@ != collection@ && e.deep_view() == status_error(400, ""@),
        },
{
    if text_eq(owner, collection) {
        Ok(())
    } else {
        Err(ApiError::bad_request(""))
    }
}

/// Whether these stand for a collection: its first four series, over again where there are fewer.
pub open spec fn are_covers<T>(covers: Seq<T>, series: Seq<T>) -> bool {
    &&& covers.len() == (if series.len() == 0 {
        0int
    } else {
        4int
    })
    &&& forall|i: int|
        0 <= i < covers.len() ==> #[trigger] covers[i] == series[i % (if series.len() < 4 {
            series.len() as int
        } else {
            4
        })]
}

/// Four covers stand for a collection that is not empty: those of its first series, in their order, each
/// shown as often as the others as far as that goes.
pub proof fn covers_are_of_the_first_series<T>(covers: Seq<T>, series: Seq<T>)
    requires
        are_covers(covers, series),
    ensures
        series.len() == 0 ==> covers.len() == 0,
        series.len() > 0 ==> covers.len() == 4 && covers[0] == series[0],
        series.len() == 1 ==> covers =~= seq![series[0], series[0], series[0], series[0]],
        series.len() == 2 ==> covers =~= seq![series[0], series[1], series[0], series[1]],
        series.len() == 3 ==> covers =~= seq![series[0], series[1], series[2], series[0]],
        series.len() >= 4 ==> covers =~= series.take(4),
{
}

/// The series whose covers stand for a collection: its first four, over again where there are
/// fewer.
pub fn cover_series(series_ids: &Vec<String>) -> (r: Vec<String>)
    ensures
        are_covers(r@, series_ids@),
{
    let mut r: Vec<String> = Vec::new();
    let n: usize = if series_ids.len() < 4 {
        series_ids.len()
    } else {
        4
    };
    if n == 0 {
        return r;
    }
    let mut i: usize = 0;
    while i < 4
        invariant
            i <= 4,
            0 < n <= series_ids.len(),
            r.len() == i,
            forall|k: int| 0 <= k < i ==> #[trigger] r@[k] == series_ids@[k % (n as int)],
        decreases 4 - i,
    {
        let at: usize = i % n;
        r.push(series_ids[at].clone());
        i += 1;
    }
    r
}

/// A thumbnail is removed exactly if nothing is stored for it and its file is not there.
pub proof fn only_lost_thumbnails_are_removed(all: Seq<Thumbnail>, id: Seq<char>)
    ensures
        gone(all).contains(id) <==> exists|i: int|
            0 <= i < all.len() && (#[trigger] all[i]).id@ == id && !all[i].stored && all[i].file
                != Some(true),
    decreases all.len(),
{
    if all.len() > 0 {
        let init = all.drop_last();
        only_lost_thumbnails_are_removed(init, id);
        let (before, now) = (gone(init), gone(all));
        if now.contains(id) {
            let k = choose|k: int| 0 <= k < now.len() && now[k] == id;
            if k < before.len() {
                assert(before[k] == id);
                let i = choose|i: int|
                    0 <= i < init.len() && (#[trigger] init[i]).id@ == id && !init[i].stored
                        && init[i].file != Some(true);
                assert(all[i] == init[i]);
            } else {
                assert(all[all.len() - 1].id@ == id);
            }
        }
        if exists|i: int|
            0 <= i < all.len() && (#[trigger] all[i]).id@ == id && !all[i].stored && all[i].file
                != Some(true) {
            let i = choose|i: int|
                0 <= i < all.len() && (#[trigger] all[i]).id@ == id && !all[i].stored
                    && all[i].file != Some(true);
            if i < init.len() {
                assert(init[i] == all[i]);
                let k = choose|k: int| 0 <= k < before.len() && before[k] == id;
                assert(now[k] == id);
            } else {
                assert(now[now.len() - 1] == id);
            }
        }
    }
}

/// The thumbnail that is shown has a picture, and is one that was selected if there is one with a
/// picture.
pub proof fn selected_thumbnail_is_shown(all: Seq<Thumbnail>, i: int)
    requires
        is_shown(all, i),
    ensures
        all[i].file == Some(true) || (all[i].file is None && all[i].stored),
        (exists|j: int|
            0 <= j < all.len() && (#[trigger] all[j]).selected && (all[j].file == Some(true) || (
            all[j].file is None && all[j].stored))) ==> all[i].selected,
{
    if exists|j: int|
        0 <= j < all.len() && (#[trigger] all[j]).selected && (all[j].file == Some(true) || (
        all[j].file is None && all[j].stored)) {
        let j = choose|j: int|
            0 <= j < all.len() && (#[trigger] all[j]).selected && (all[j].file == Some(true) || (
            all[j].file is None && all[j].stored));
        assert(series_picture(all[j]));
    }
}

} // verus!
