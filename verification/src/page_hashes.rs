//! Pages that occur more than once.
use vstd::prelude::*;

use crate::error::{one_violation, ApiError};
use crate::text::{blank, chars_lt, chars_of, text_eq};

verus! {

/// Refuses to record a page without a hash.
pub fn check_hash(hash: &str) -> (r: Result<(), ApiError>)
    ensures
        match r {
            Ok(_) => !crate::text::is_blank(hash@),
            Err(e) => crate::text::is_blank(hash@) && e.deep_view() == one_violation(
                "hash"@,
                "must not be blank"@,
            ),
        },
{
    if blank(hash) {
        Err(ApiError::one_violation("hash", "must not be blank"))
    } else {
        Ok(())
    }
}

/// A page of a book that has some hash.
#[derive(Debug, PartialEq, Eq)]
pub struct PageHashMatch {
    pub book_id: String,
    pub file_name: String,
    pub media_type: String,
    pub file_size: i64,
    pub page_number: i32,
}

/// A page to be removed from a book.
#[derive(Debug, PartialEq, Eq)]
pub struct BookPageNumbered {
    pub file_name: String,
    pub media_type: String,
    pub file_hash: String,
    pub file_size: Option<i64>,
    pub page_number: i32,
    pub width: Option<i32>,
    pub height: Option<i32>,
}

/// Whether this is the page to be removed for a match.
pub open spec fn is_page_of(p: BookPageNumbered, m: PageHashMatch, hash: Seq<char>) -> bool {
    &&& p.file_name == m.file_name
    &&& p.media_type == m.media_type
    &&& p.file_hash@ == hash
    &&& p.file_size == Some(m.file_size)
    &&& p.page_number == m.page_number
    &&& p.width is None
    &&& p.height is None
}

/// The page to be removed for a match. Its size in pixels does not matter.
pub fn book_page_numbered(m: &PageHashMatch, hash: &str) -> (r: BookPageNumbered)
    ensures
        is_page_of(r, *m, hash@),
{
    BookPageNumbered {
        file_name: m.file_name.clone(),
        media_type: m.media_type.clone(),
        file_hash: hash.to_owned(),
        file_size: Some(m.file_size),
        page_number: m.page_number,
        width: None,
        height: None,
    }
}

/// The matches in one book, in their order.
pub open spec fn matches_in(matches: Seq<PageHashMatch>, book_id: Seq<char>) -> Seq<PageHashMatch> {
    matches.filter(|m: PageHashMatch| m.book_id@ == book_id)
}

/// The pages to be removed from one book.
#[derive(Debug, PartialEq, Eq)]
pub struct BookPages {
    pub book_id: String,
    pub pages: Vec<BookPageNumbered>,
}

/// These are the pages to be removed for these matches, one for one.
pub open spec fn are_pages_of(pages: Seq<BookPageNumbered>, matches: Seq<PageHashMatch>, hash: Seq<char>) -> bool {
    &&& pages.len() == matches.len()
    &&& forall|i: int| 0 <= i < pages.len() ==> is_page_of(#[trigger] pages[i], matches[i], hash)
}

/// Whether these books are sorted by id, each once.
pub open spec fn sorted_books(groups: Seq<BookPages>) -> bool {
    forall|i: int, j: int|
        0 <= i < j < groups.len() ==> crate::text::lex_lt(
            (#[trigger] groups[i]).book_id@,
            (#[trigger] groups[j]).book_id@,
        )
}

/// Whether a book is among these.
pub open spec fn has_group(groups: Seq<BookPages>, book_id: Seq<char>) -> bool {
    exists|i: int| 0 <= i < groups.len() && (#[trigger] groups[i]).book_id@ == book_id
}

/// Whether the matches are grouped by book: the books are sorted by id, every book with a match is
/// there, and every book has the pages of all of its matches, at least one.
pub open spec fn are_groups(groups: Seq<BookPages>, matches: Seq<PageHashMatch>, hash: Seq<char>) -> bool {
    &&& sorted_books(groups)
    &&& forall|i: int|
        0 <= i < groups.len() ==> are_pages_of(
            (#[trigger] groups[i]).pages@,
            matches_in(matches, groups[i].book_id@),
            hash,
        ) && groups[i].pages@.len() > 0
    &&& forall|k: int|
        0 <= k < matches.len() ==> has_group(groups, (#[trigger] matches[k]).book_id@)
}

/// Whether a page of a book is the one that was matched.
pub open spec fn is_matched_page(p: BookPageNumbered, m: PageHashMatch, hash: Seq<char>) -> bool {
    p.page_number == m.page_number && p.file_name == m.file_name && p.media_type == m.media_type
        && p.file_size == Some(m.file_size) && p.file_hash@ == hash && p.width is None && p.height
        is None
}

/// Every page that was matched is removed from its own book.
pub proof fn every_match_is_removed(
    groups: Seq<BookPages>,
    matches: Seq<PageHashMatch>,
    hash: Seq<char>,
    k: int,
)
    requires
        are_groups(groups, matches, hash),
        0 <= k < matches.len(),
    ensures
        exists|i: int, j: int|
            0 <= i < groups.len() && 0 <= j < groups[i].pages@.len() && groups[i].book_id@
                == matches[k].book_id@ && is_matched_page(
                #[trigger] groups[i].pages@[j],
                matches[k],
                hash,
            ),
{
    assert(has_group(groups, matches[k].book_id@));
    let i = choose|i: int|
        0 <= i < groups.len() && (#[trigger] groups[i]).book_id@ == matches[k].book_id@;
    let keep = |m: PageHashMatch| m.book_id@ == groups[i].book_id@;
    let own = matches_in(matches, groups[i].book_id@);
    matches.lemma_filter_contains(keep, k);
    let j = choose|j: int| 0 <= j < own.len() && own[j] == matches[k];
    assert(are_pages_of(groups[i].pages@, own, hash));
    assert(is_page_of(groups[i].pages@[j], own[j], hash));
    assert(is_matched_page(groups[i].pages@[j], matches[k], hash));
}

/// No page is removed from a book but one that was matched in it, and each book stands once.
pub proof fn only_matches_are_removed(
    groups: Seq<BookPages>,
    matches: Seq<PageHashMatch>,
    hash: Seq<char>,
    i: int,
    j: int,
    other: int,
)
    requires
        are_groups(groups, matches, hash),
        0 <= i < groups.len(),
        0 <= j < groups[i].pages@.len(),
        0 <= other < groups.len(),
    ensures
        exists|k: int|
            0 <= k < matches.len() && (#[trigger] matches[k]).book_id@ == groups[i].book_id@
                && is_matched_page(groups[i].pages@[j], matches[k], hash),
        groups[i].book_id@ == groups[other].book_id@ ==> i == other,
{
    let keep = |m: PageHashMatch| m.book_id@ == groups[i].book_id@;
    let own = matches_in(matches, groups[i].book_id@);
    assert(are_pages_of(groups[i].pages@, own, hash));
    assert(is_page_of(groups[i].pages@[j], own[j], hash));
    matches.lemma_filter_pred(keep, j);
    assert(own.contains(own[j]));
    matches.lemma_filter_contains_rev(keep, own[j]);
    let k = choose|k: int| 0 <= k < matches.len() && matches[k] == own[j];
    assert(is_matched_page(groups[i].pages@[j], matches[k], hash));
    if i != other {
        crate::sorting::lemma_lex_irreflexive(groups[i].book_id@);
        if i < other {
            assert(crate::text::lex_lt(groups[i].book_id@, groups[other].book_id@));
        } else {
            assert(crate::text::lex_lt(groups[other].book_id@, groups[i].book_id@));
        }
    }
}

/// The number of groups whose book comes before this one.
fn insertion_point(groups: &Vec<BookPages>, book_id: &str) -> (r: usize)
    requires
        sorted_books(groups@),
    ensures
        r <= groups.len(),
        forall|i: int|
            0 <= i < r ==> crate::text::lex_lt((#[trigger] groups@[i]).book_id@, book_id@),
        forall|i: int|
            r <= i < groups.len() ==> !crate::text::lex_lt((#[trigger] groups@[i]).book_id@, book_id@),
{
    let key: Vec<char> = chars_of(book_id);
    let mut i: usize = 0;
    while i < groups.len()
        invariant
            i <= groups.len(),
            key@ == book_id@,
            sorted_books(groups@),
            forall|k: int|
                0 <= k < i ==> crate::text::lex_lt((#[trigger] groups@[k]).book_id@, book_id@),
        decreases groups.len() - i,
    {
        if !chars_lt(&chars_of(groups[i].book_id.as_str()), &key) {
            proof {
                assert forall|k: int| i <= k < groups.len() implies !crate::text::lex_lt(
                    (#[trigger] groups@[k]).book_id@,
                    book_id@,
                ) by {
                    if k > i && crate::text::lex_lt(groups@[k].book_id@, book_id@) {
                        crate::sorting::lemma_lex_transitive(
                            groups@[i as int].book_id@,
                            groups@[k].book_id@,
                            book_id@,
                        );
                    }
                }
            }
            return i;
        }
        i += 1;
    }
    i
}

/// Groups the matches of a hash by book, for their pages to be removed.
pub fn group_by_book(matches: &Vec<PageHashMatch>, hash: &str) -> (r: Vec<BookPages>)
    ensures
        are_groups(r@, matches@, hash@),
{
    let mut groups: Vec<BookPages> = Vec::new();
    let mut k: usize = 0;
    proof {
        reveal(Seq::filter);
    }
    while k < matches.len()
        invariant
            k <= matches.len(),
            are_groups(groups@, matches@.take(k as int), hash@),
        decreases matches.len() - k,
    {
        let m: &PageHashMatch = &matches[k];
        let page: BookPageNumbered = book_page_numbered(m, hash);
        let at: usize = insertion_point(&groups, m.book_id.as_str());
        let ghost before = groups@;
        let ghost sofar = matches@.take(k as int);
        let ghost next = matches@.take(k as int + 1);
        assert(next =~= sofar.push(*m));
        proof {
            assert forall|id: Seq<char>| #[trigger]
                matches_in(next, id) == (if m.book_id@ == id {
                    matches_in(sofar, id).push(*m)
                } else {
                    matches_in(sofar, id)
                }) by {
                sofar.lemma_filter_push(*m, |m: PageHashMatch| m.book_id@ == id);
            }
        }
        let there: bool = at < groups.len() && text_eq(
            groups[at].book_id.as_str(),
            m.book_id.as_str(),
        );
        if there {
            let mut g: BookPages = groups.remove(at);
            g.pages.push(page);
            groups.insert(at, g);
            proof {
                assert(groups@.len() == before.len());
                assert forall|i: int| 0 <= i < groups@.len() implies (#[trigger] groups@[i]).book_id
                    == before[i].book_id && (i != at ==> groups@[i] == before[i]) by {}
                assert(sorted_books(groups@)) by {
                    assert forall|i: int, j: int| 0 <= i < j < groups@.len() implies crate::text::lex_lt(
                        (#[trigger] groups@[i]).book_id@,
                        (#[trigger] groups@[j]).book_id@,
                    ) by {
                        assert(crate::text::lex_lt(before[i].book_id@, before[j].book_id@));
                    }
                }
                assert forall|i: int| 0 <= i < groups@.len() implies are_pages_of(
                    (#[trigger] groups@[i]).pages@,
                    matches_in(next, groups@[i].book_id@),
                    hash@,
                ) && groups@[i].pages@.len() > 0 by {
                    assert(are_pages_of(
                        before[i].pages@,
                        matches_in(sofar, before[i].book_id@),
                        hash@,
                    ));
                    if i != at {
                        if i < at {
                            assert(crate::text::lex_lt(before[i].book_id@, before[at as int].book_id@));
                        } else {
                            assert(crate::text::lex_lt(before[at as int].book_id@, before[i].book_id@));
                        }
                        crate::sorting::lemma_lex_irreflexive(m.book_id@);
                    }
                }
                assert forall|j: int| 0 <= j < next.len() implies has_group(
                    groups@,
                    (#[trigger] next[j]).book_id@,
                ) by {
                    if j < sofar.len() {
                        assert(next[j] == sofar[j]);
                        assert(has_group(before, sofar[j].book_id@));
                        let i = choose|i: int|
                            0 <= i < before.len() && (#[trigger] before[i]).book_id@ == sofar[j].book_id@;
                        assert(groups@[i].book_id@ == next[j].book_id@);
                    } else {
                        assert(groups@[at as int].book_id@ == next[j].book_id@);
                    }
                }
                assert(are_groups(groups@, next, hash@));
            }
        } else {
            let mut pages: Vec<BookPageNumbered> = Vec::new();
            pages.push(page);
            let g: BookPages = BookPages { book_id: m.book_id.clone(), pages };
            groups.insert(at, g);
            proof {
                assert(groups@ =~= before.insert(at as int, g));
                assert forall|i: int| 0 <= i < before.len() implies (#[trigger] before[i]).book_id@
                    != m.book_id@ by {
                    if i < at {
                        crate::sorting::lemma_lex_irreflexive(m.book_id@);
                    } else if i > at {
                        assert(crate::text::lex_lt(before[at as int].book_id@, before[i].book_id@));
                    }
                }
                assert forall|i: int| at <= i < before.len() implies crate::text::lex_lt(
                    m.book_id@,
                    (#[trigger] before[i]).book_id@,
                ) by {
                    crate::sorting::lex_is_total(m.book_id@, before[i].book_id@);
                }
                assert(sorted_books(groups@)) by {
                    assert forall|i: int, j: int| 0 <= i < j < groups@.len() implies crate::text::lex_lt(
                        (#[trigger] groups@[i]).book_id@,
                        (#[trigger] groups@[j]).book_id@,
                    ) by {
                        let old_i = if i < at { i } else { i - 1 };
                        let old_j = if j < at { j } else { j - 1 };
                        if i != at && j != at {
                            assert(crate::text::lex_lt(before[old_i].book_id@, before[old_j].book_id@));
                        } else if i == at {
                            assert(groups@[j] == before[old_j]);
                        } else {
                            assert(groups@[i] == before[old_i]);
                        }
                    }
                }
                let own = |x: PageHashMatch| x.book_id@ == m.book_id@;
                assert forall|j: int| 0 <= j < sofar.len() implies !own(#[trigger] sofar[j]) by {
                    assert(has_group(before, sofar[j].book_id@));
                    let i = choose|i: int|
                        0 <= i < before.len() && (#[trigger] before[i]).book_id@ == sofar[j].book_id@;
                    assert(before[i].book_id@ != m.book_id@);
                }
                sofar.lemma_all_neg_filter_empty(own);
                assert(matches_in(sofar, m.book_id@).len() == 0);
                assert forall|i: int| 0 <= i < groups@.len() implies are_pages_of(
                    (#[trigger] groups@[i]).pages@,
                    matches_in(next, groups@[i].book_id@),
                    hash@,
                ) && groups@[i].pages@.len() > 0 by {
                    if i < at {
                        assert(groups@[i] == before[i]);
                    } else if i > at {
                        assert(groups@[i] == before[i - 1]);
                    }
                }
                assert forall|j: int| 0 <= j < next.len() implies has_group(
                    groups@,
                    (#[trigger] next[j]).book_id@,
                ) by {
                    if j < sofar.len() {
                        assert(next[j] == sofar[j]);
                        assert(has_group(before, sofar[j].book_id@));
                        let i = choose|i: int|
                            0 <= i < before.len() && (#[trigger] before[i]).book_id@ == sofar[j].book_id@;
                        if i < at {
                            assert(groups@[i].book_id@ == next[j].book_id@);
                        } else {
                            assert(groups@[i + 1].book_id@ == next[j].book_id@);
                        }
                    } else {
                        assert(groups@[at as int].book_id@ == next[j].book_id@);
                    }
                }
                assert(are_groups(groups@, next, hash@));
            }
        }
        k += 1;
    }
    assert(matches@.take(matches@.len() as int) =~= matches@);
    groups
}

} // verus!
