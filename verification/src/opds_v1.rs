//! The OPDS 1.2 catalog: what each feed asks for, and what it shows.
use vstd::prelude::*;

use crate::atom::{AtomEntry, AtomLink, EntryView, Feed, FeedView, LinkView};
use crate::atom::{nav_entry, nav_link, plain_link};
use crate::collections::{
    push_series_text_group, text_leaves, SearchConditionSeries, SeriesLeaf, SeriesText,
};
use crate::datetime::DateTime;
use crate::media::MediaProfile;
use crate::pages::{find_after_last, resource_basename};
use crate::search::{
    all_of, has_search, push_leaf, sort_by, BookLeaf, Condition, MediaStatus, ReadStatus,
    SearchConditionBook, SortOrder,
};
use crate::collections::{lemma_text_group, of_series, one_of, series_meets, SeriesFacts};
use crate::search::{all_hold, group, lemma_all_hold_add, lemma_one, meets, of_book, BookFacts};
use crate::search::{shape, shapes, sorted_on, ConditionView};
use crate::text::{
    chars_of, copy_texts, find_char, lowercase, push_decimal, string_of, text_eq,
};
use crate::url::{encode_path, encode_query_param};

verus! {

// ---- addresses ----

/// A path as it is written in an address.
pub open spec fn path_text(path: Seq<char>) -> Seq<char> {
    crate::url::percent_encoded(crate::url::UrlPart::Path, vstd::utf8::encode_utf8(path))
}

/// The value of a parameter as it is written in an address.
pub open spec fn param_text(value: Seq<char>) -> Seq<char> {
    crate::url::percent_encoded(crate::url::UrlPart::QueryParam, vstd::utf8::encode_utf8(value))
}

/// The address of a feed.
pub open spec fn feed_uri(base: Seq<char>, path: Seq<char>) -> Seq<char> {
    base + "/opds/v1.2"@ + path_text(path)
}

/// Writes the address of a feed.
pub fn uri(base: &str, path: &str) -> (r: String)
    ensures
        r@ == feed_uri(base@, path@),
{
    let mut r: String = base.to_owned();
    r.append("/opds/v1.2");
    r.append(encode_path(path).as_str());
    r
}

/// A parameter of an address.
#[derive(Debug, PartialEq, Eq)]
pub struct Param {
    pub key: String,
    pub value: String,
}

/// Parameters, as they are written.
pub open spec fn query_text(params: Seq<Param>) -> Seq<char>
    decreases params.len(),
{
    if params.len() == 0 {
        Seq::empty()
    } else {
        query_text(params.drop_last()) + (if params.len() == 1 {
            "?"@
        } else {
            "&"@
        }) + params.last().key@ + "="@ + param_text(params.last().value@)
    }
}

/// A parameter behind its mark.
pub open spec fn written_param(mark: Seq<char>, p: Param) -> Seq<char> {
    mark + p.key@ + "="@ + param_text(p.value@)
}

proof fn lemma_last_param(params: Seq<Param>)
    requires
        params.len() > 0,
    ensures
        query_text(params) == query_text(params.drop_last()) + written_param(
            if params.len() == 1 {
                "?"@
            } else {
                "&"@
            },
            params.last(),
        ),
{
    let q = query_text(params.drop_last());
    let mark = if params.len() == 1 {
        "?"@
    } else {
        "&"@
    };
    let key = params.last().key@;
    crate::text::lemma_regrouped(q, mark, key);
    crate::text::lemma_regrouped(q, mark + key, "="@);
    crate::text::lemma_regrouped(q, mark + key + "="@, param_text(params.last().value@));
}

/// Every parameter is written with its name and its value; the first follows a question mark, and any
/// other an ampersand.
pub proof fn parameters_are_written(params: Seq<Param>, i: int)
    requires
        0 <= i < params.len(),
    ensures
        i == 0 ==> crate::text::contains_text(query_text(params), written_param("?"@, params[i])),
        i > 0 ==> crate::text::contains_text(query_text(params), written_param("&"@, params[i])),
        query_text(params.take(1)) == written_param("?"@, params[0]),
    decreases params.len(),
{
    let rest = params.drop_last();
    lemma_last_param(params);
    let last = written_param(
        if params.len() == 1 {
            "?"@
        } else {
            "&"@
        },
        params.last(),
    );
    if i < rest.len() {
        parameters_are_written(rest, i);
        assert(rest[i] == params[i]);
    }
    crate::text::lemma_appended(
        query_text(rest),
        last,
        written_param(
            if i == 0 {
                "?"@
            } else {
                "&"@
            },
            params[i],
        ),
    );
    let one = params.take(1);
    lemma_last_param(one);
    assert(one.drop_last() =~= Seq::<Param>::empty());
    assert(one.last() == params[0]);
    assert(Seq::<char>::empty() + written_param("?"@, params[0]) =~= written_param("?"@, params[0]));
}

/// Adds parameters to an address.
pub fn with_query(url: &str, params: &Vec<Param>) -> (r: String)
    ensures
        r@ == url@ + query_text(params@),
{
    let mut q: String = String::new();
    let mut i: usize = 0;
    while i < params.len()
        invariant
            i <= params.len(),
            q@ == query_text(params@.take(i as int)),
        decreases params.len() - i,
    {
        assert(params@.take(i as int + 1).drop_last() =~= params@.take(i as int));
        q.append(if i == 0 { "?" } else { "&" });
        q.append(params[i].key.as_str());
        q.append("=");
        q.append(encode_query_param(params[i].value.as_str()).as_str());
        i += 1;
    }
    assert(params@.take(params@.len() as int) =~= params@);
    let mut r: String = url.to_owned();
    r.append(q.as_str());
    r
}

/// A file name without semicolons.
pub open spec fn without_semicolons(s: Seq<char>) -> Seq<char> {
    s.filter(|c: char| c != ';')
}

/// A file name loses its semicolons, and nothing else.
pub proof fn only_semicolons_are_taken_out(a: Seq<char>, b: Seq<char>)
    ensures
        !without_semicolons(a).contains(';'),
        !a.contains(';') ==> without_semicolons(a) == a,
        without_semicolons(a + seq![';'] + b) == without_semicolons(a) + without_semicolons(b),
    decreases a.len(), b.len(),
{
    reveal(Seq::filter);
    let keep = |c: char| c != ';';
    if b.len() > 0 {
        only_semicolons_are_taken_out(a, b.drop_last());
        let whole = a + seq![';'] + b;
        assert(whole.drop_last() =~= a + seq![';'] + b.drop_last());
        assert(whole.last() == b.last());
        assert(without_semicolons(whole) =~= without_semicolons(a) + without_semicolons(b));
    } else {
        let whole = a + seq![';'] + b;
        assert(whole.drop_last() =~= a);
        assert(whole.last() == ';');
        assert(without_semicolons(whole) =~= without_semicolons(a) + without_semicolons(b));
        if a.len() > 0 {
            only_semicolons_are_taken_out(a.drop_last(), b);
            let init = without_semicolons(a.drop_last());
            if a.last() != ';' {
                assert(without_semicolons(a) == init.push(a.last()));
                assert forall|k: int| 0 <= k < without_semicolons(a).len() implies #[trigger] without_semicolons(
                    a,
                )[k] != ';' by {
                    if k < init.len() {
                        assert(init.contains(init[k]));
                    }
                }
            }
            if !a.contains(';') {
                assert(a.last() == a[a.len() - 1]);
                assert(a.contains(a[a.len() - 1]));
                assert forall|c: char| a.drop_last().contains(c) implies a.contains(c) by {
                    let k = choose|k: int| 0 <= k < a.drop_last().len() && a.drop_last()[k] == c;
                    assert(a[k] == c);
                }
                assert(a.drop_last().push(a.last()) =~= a);
            }
        }
    }
}

/// Takes the semicolons out of a file name.
pub fn sanitize(file_name: &str) -> (r: String)
    ensures
        r@ == without_semicolons(file_name@),
{
    let v: Vec<char> = chars_of(file_name);
    let ghost keep = |c: char| c != ';';
    let mut r: String = String::new();
    let mut i: usize = 0;
    proof {
        reveal(Seq::filter);
        assert(r@ =~= v@.take(0).filter(keep));
    }
    while i < v.len()
        invariant
            i <= v.len(),
            keep == (|c: char| c != ';'),
            r@ == v@.take(i as int).filter(keep),
        decreases v.len() - i,
    {
        proof {
            assert(v@.take(i as int + 1) =~= v@.take(i as int).push(v@[i as int]));
            v@.take(i as int).lemma_filter_push(v@[i as int], keep);
        }
        if v[i] != ';' {
            r.push(v[i]);
        }
        i += 1;
    }
    assert(v@.take(v@.len() as int) =~= v@);
    r
}

/// The last part of an address.
pub fn file_name_of(url: &str) -> (r: String)
    ensures
        r@ == crate::pages::base_part(url@),
{
    resource_basename(url)
}

/// What follows the last dot of the last part of an address; nothing without a dot.
pub fn extension_of(url: &str) -> (r: String)
    ensures
        r@ == crate::pages::extension_part(crate::pages::base_part(url@)),
{
    let name: Vec<char> = chars_of(file_name_of(url).as_str());
    let i: usize = find_after_last(&name, '.', '.');
    if i == 0 {
        return String::new();
    }
    assert(name@.subrange(i as int, name@.len() as int) =~= name@.skip(i as int));
    string_of(&name, i, name.len())
}

// ---- links ----

/// The link to the catalog.
pub open spec fn start_link(base: Seq<char>) -> LinkView {
    nav_link("start"@, feed_uri(base, "/catalog"@))
}

/// Links to the catalog.
pub fn link_start(base: &str) -> (r: AtomLink)
    ensures
        r.deep_view() == start_link(base@),
{
    AtomLink::nav("start", uri(base, "/catalog"))
}

/// The number of pages of a list; none for pages of no size.
pub open spec fn page_count(total: u64, size: u32) -> int {
    if size == 0 {
        0
    } else {
        total / (size as u64) + (if total % (size as u64) > 0 {
            1int
        } else {
            0int
        })
    }
}

/// The number of pages of a list, as far as the count goes.
pub open spec fn total_pages(total: u64, size: u32) -> u32 {
    page_count(total, size) as u32
}

/// The address of another page of a list. The parameters that the list has already are kept.
pub open spec fn page_uri(url: Seq<char>, page: nat) -> Seq<char> {
    url + ((if url.contains('?') {
        "&"@
    } else {
        "?"@
    }) + "page"@ + "="@ + param_text(crate::text::decimal(page)))
}

/// The links to the pages before and after a page, as far as there are any.
pub open spec fn page_links(url: Seq<char>, total: u64, page: u32, size: u32) -> Seq<LinkView> {
    (if page > 0 {
        seq![nav_link("previous"@, page_uri(url, (page - 1) as nat))]
    } else {
        Seq::empty()
    }) + (if page + 1 < total_pages(total, size) {
        seq![nav_link("next"@, page_uri(url, (page + 1) as nat))]
    } else {
        Seq::empty()
    })
}

fn write_page_uri(url: &str, page: u32) -> (r: String)
    ensures
        r@ == page_uri(url@, page as nat),
{
    let mut value: String = String::new();
    push_decimal(&mut value, page as u64);
    assert(value@ =~= crate::text::decimal(page as nat));
    let v: Vec<char> = chars_of(url);
    let mark: usize = find_char(&v, 0, '?');
    proof {
        assert(mark < v.len() ==> url@[mark as int] == '?');
        assert(url@.contains('?') ==> mark < v.len());
    }
    let mut q: String = if mark < v.len() {
        "&".to_owned()
    } else {
        "?".to_owned()
    };
    q.append("page");
    q.append("=");
    q.append(encode_query_param(value.as_str()).as_str());
    let mut r: String = url.to_owned();
    r.append(q.as_str());
    r
}

/// Links to the pages before and after a page of a list.
pub fn link_page(url: &str, total: u64, page: u32, size: u32) -> (r: Vec<AtomLink>)
    requires
        page < u32::MAX,
    ensures
        r.deep_view() == page_links(url@, total, page, size),
{
    let pages: u32 = if size == 0 {
        0
    } else {
        let q: u64 = total / (size as u64);
        let extra: u64 = if total % (size as u64) > 0 { 1 } else { 0 };
        proof {
            assert(size >= 1 && total % (size as u64) > 0 ==> q < u64::MAX) by (nonlinear_arith)
                requires
                    q == total / (size as u64),
                    size >= 1,
            ;
        }
        (q + extra) as u32
    };
    let mut links: Vec<AtomLink> = Vec::new();
    let ghost url_text = url@;
    assert(links.deep_view() =~= Seq::<LinkView>::empty());
    if page > 0 {
        links.push(AtomLink::nav("previous", write_page_uri(url, page - 1)));
        assert(links.deep_view() =~= seq![
            nav_link("previous"@, page_uri(url_text, (page - 1) as nat)),
        ]);
    }
    let ghost sofar = links.deep_view();
    if page + 1 < pages {
        links.push(AtomLink::nav("next", write_page_uri(url, page + 1)));
        assert(links.deep_view() =~= sofar.push(
            nav_link("next"@, page_uri(url_text, (page + 1) as nat)),
        ));
    }
    assert(links.deep_view() =~= page_links(url@, total, page, size));
    links
}

/// The link to the next page is there exactly if items are left behind this one.
pub proof fn next_page_iff_items_are_left(url: Seq<char>, total: u64, page: u32, size: u32)
    requires
        size > 0,
        page_count(total, size) <= u32::MAX,
    ensures
        page_links(url, total, page, size) == (if page > 0 {
            seq![nav_link("previous"@, page_uri(url, (page - 1) as nat))]
        } else {
            Seq::empty()
        }) + (if (page + 1) * size < total {
            seq![nav_link("next"@, page_uri(url, (page + 1) as nat))]
        } else {
            Seq::empty()
        }),
{
    let q = (total / (size as u64)) as int;
    let rest = (total % (size as u64)) as int;
    let s = size as int;
    vstd::arithmetic::div_mod::lemma_fundamental_div_mod(total as int, s);
    let n = page + 1;
    let pages = page_count(total, size);
    assert(n < pages ==> n * s < total) by (nonlinear_arith)
        requires
            total == s * q + rest,
            0 <= rest < s,
            pages == q + (if rest > 0 {
                1int
            } else {
                0int
            }),
            n >= 0,
    ;
    assert(n * s < total ==> n < pages) by (nonlinear_arith)
        requires
            total == s * q + rest,
            0 <= rest < s,
            pages == q + (if rest > 0 {
                1int
            } else {
                0int
            }),
            n >= 0,
    ;
}

// ---- entries ----

/// What a feed leads to.
#[derive(Clone, Copy, Debug, PartialEq, Eq, Structural)]
pub enum NavKind {
    Series,
    Library,
    Collection,
    ReadList,
}

/// The directory of the feeds of a kind.
pub open spec fn kind_path(kind: NavKind) -> Seq<char> {
    match kind {
        NavKind::Series => "/series/"@,
        NavKind::Library => "/libraries/"@,
        NavKind::Collection => "/collections/"@,
        NavKind::ReadList => "/readlists/"@,
    }
}

/// The address of the feed of an item.
pub open spec fn item_uri(base: Seq<char>, kind: NavKind, id: Seq<char>) -> Seq<char> {
    feed_uri(base, kind_path(kind) + id)
}

/// Writes the address of the feed of an item.
pub fn write_item_uri(base: &str, kind: NavKind, id: &str) -> (r: String)
    ensures
        r@ == item_uri(base@, kind, id@),
{
    let mut path: String = match kind {
        NavKind::Series => "/series/".to_owned(),
        NavKind::Library => "/libraries/".to_owned(),
        NavKind::Collection => "/collections/".to_owned(),
        NavKind::ReadList => "/readlists/".to_owned(),
    };
    path.append(id);
    uri(base, path.as_str())
}

/// A series, library, collection or read list, as a feed shows it.
#[derive(Debug, PartialEq, Eq)]
pub struct NavItem {
    pub id: String,
    pub title: String,
    pub updated: String,
}

/// The entry of an item.
pub open spec fn item_entry(base: Seq<char>, kind: NavKind, item: NavItem) -> EntryView {
    nav_entry(item.title@, item.updated@, item.id@, ""@, item_uri(base, kind, item.id@))
}

/// The entries of several items.
pub open spec fn item_entries(base: Seq<char>, kind: NavKind, items: Seq<NavItem>) -> Seq<EntryView> {
    Seq::new(items.len(), |i: int| item_entry(base, kind, items[i]))
}

/// Writes the entries of items.
pub fn nav_entries(base: &str, kind: NavKind, items: &Vec<NavItem>) -> (r: Vec<AtomEntry>)
    ensures
        r.deep_view() == item_entries(base@, kind, items@),
{
    let ghost all = item_entries(base@, kind, items@);
    let mut r: Vec<AtomEntry> = Vec::new();
    let mut i: usize = 0;
    assert(r.deep_view() =~= all.take(0));
    while i < items.len()
        invariant
            i <= items.len(),
            all == item_entries(base@, kind, items@),
            r.deep_view() == all.take(i as int),
        decreases items.len() - i,
    {
        let it: &NavItem = &items[i];
        let e: AtomEntry = AtomEntry::nav(
            it.title.as_str(),
            it.updated.as_str(),
            it.id.as_str(),
            "",
            write_item_uri(base, kind, it.id.as_str()),
        );
        let ghost before = r.deep_view();
        r.push(e);
        assert(r.deep_view() =~= before.push(e.deep_view()));
        assert(r.deep_view() =~= all.take(i as int + 1));
        i += 1;
    }
    assert(all.take(all.len() as int) =~= all);
    r
}

/// What is known of a book's file.
#[derive(Debug, PartialEq, Eq)]
pub struct BookMedia {
    pub media_type: Option<String>,
    pub profile: Option<MediaProfile>,
    pub page_types: Vec<String>,
    pub page_count: i32,
    pub epub_divina_compatible: bool,
}

/// A book, as a feed shows it.
#[derive(Debug, PartialEq, Eq)]
pub struct BookItem {
    pub id: String,
    pub url: String,
    pub size: String,
    pub title: String,
    pub number: String,
    pub series_title: String,
    pub summary: String,
    pub authors: Vec<String>,
    pub updated: String,
    pub read: Option<(i32, DateTime)>,
    pub media: BookMedia,
}

/// Whether a book can be read page by page.
pub open spec fn has_pages(m: BookMedia) -> bool {
    match m.profile {
        Some(MediaProfile::Divina) => m.page_types@.len() > 0,
        Some(MediaProfile::Pdf) => true,
        Some(MediaProfile::Epub) => m.epub_divina_compatible && m.page_types@.len() > 0,
        None => false,
    }
}

/// The media types that pages are streamed in as they are.
pub open spec fn is_streamable(t: Seq<char>) -> bool {
    t == "image/jpeg"@ || t == "image/png"@ || t == "image/gif"@
}

/// The one media type in which all pages of a book are streamed as they are, if there is one: pages
/// of a PDF are made in it.
pub open spec fn streamed_type(m: BookMedia) -> Option<Seq<char>> {
    if m.profile == Some(MediaProfile::Pdf) {
        Some("image/jpeg"@)
    } else if m.page_types@.len() > 0 && is_streamable(m.page_types@[0]@) && (forall|i: int|
        0 <= i < m.page_types@.len() ==> (#[trigger] m.page_types@[i])@ == m.page_types@[0]@) {
        Some(m.page_types@[0]@)
    } else {
        None
    }
}

/// The link to a book's pages: as they are, or converted where they cannot be streamed as they are.
pub open spec fn streaming_link(base: Seq<char>, b: BookItem) -> LinkView {
    let pages = feed_uri(base, "/books/"@ + b.id@ + "/pages/"@);
    LinkView {
        type_: match streamed_type(b.media) {
            Some(t) => t,
            None => "image/jpeg"@,
        },
        rel: crate::atom::REL_PAGE_STREAMING@,
        href: match streamed_type(b.media) {
            Some(_) => pages + "{pageNumber}"@,
            None => pages + "{pageNumber}?convert=jpeg"@,
        },
        pse_count: Some(b.media.page_count),
        pse_last_read: match b.read {
            Some(r) => Some(r.0),
            None => None,
        },
        pse_last_read_date: match b.read {
            Some(r) => Some(r.1),
            None => None,
        },
    }
}

/// A text with line breaks in place of its line ends.
pub open spec fn with_breaks(s: Seq<char>) -> Seq<char>
    decreases s.len(),
{
    if s.len() == 0 {
        Seq::empty()
    } else if s.last() == '\n' {
        with_breaks(s.drop_last()) + "<br/>"@
    } else {
        with_breaks(s.drop_last()).push(s.last())
    }
}

/// What an entry says of a book: the kind of its file, its size and its summary.
pub open spec fn book_content(b: BookItem) -> Seq<char> {
    let head = crate::text::lowercased(
        crate::pages::extension_part(crate::pages::base_part(b.url@)),
    ) + " - "@ + b.size@;
    with_breaks(
        if b.summary@.len() == 0 {
            head
        } else {
            head + "\n\n"@ + b.summary@
        },
    )
}

/// The entry of a book, with its series and number in front of the title if that is asked for.
pub open spec fn book_entry(base: Seq<char>, b: BookItem, with_series: bool) -> EntryView {
    EntryView {
        title: if with_series {
            b.series_title@ + " "@ + b.number@ + ": "@ + b.title@
        } else {
            b.title@
        },
        updated: b.updated@,
        id: b.id@,
        content: book_content(b),
        authors: b.authors.deep_view(),
        links: seq![
            plain_link(
                "image/jpeg"@,
                crate::atom::REL_IMAGE_THUMBNAIL@,
                feed_uri(base, "/books/"@ + b.id@ + "/thumbnail/small"@),
            ),
            plain_link(
                "image/jpeg"@,
                crate::atom::REL_IMAGE@,
                feed_uri(base, "/books/"@ + b.id@ + "/thumbnail"@),
            ),
            plain_link(
                match b.media.media_type {
                    Some(t) => t@,
                    None => "application/octet-stream"@,
                },
                crate::atom::REL_ACQUISITION@,
                feed_uri(
                    base,
                    "/books/"@ + b.id@ + "/file/"@ + without_semicolons(
                        crate::pages::base_part(b.url@),
                    ),
                ),
            ),
        ] + (if has_pages(b.media) {
            seq![streaming_link(base, b)]
        } else {
            Seq::empty()
        }),
    }
}

fn book_path(id: &str, rest: &str) -> (r: String)
    ensures
        r@ == "/books/"@ + id@ + rest@,
{
    let mut r: String = "/books/".to_owned();
    r.append(id);
    r.append(rest);
    r
}

fn break_lines(s: &str) -> (r: String)
    ensures
        r@ == with_breaks(s@),
{
    let v: Vec<char> = chars_of(s);
    let mut r: String = String::new();
    let mut i: usize = 0;
    while i < v.len()
        invariant
            i <= v.len(),
            r@ == with_breaks(v@.take(i as int)),
        decreases v.len() - i,
    {
        assert(v@.take(i as int + 1).drop_last() =~= v@.take(i as int));
        if v[i] == '\n' {
            r.append("<br/>");
        } else {
            r.push(v[i]);
        }
        i += 1;
    }
    assert(v@.take(v@.len() as int) =~= v@);
    r
}

fn streaming_type(m: &BookMedia) -> (r: Option<String>)
    ensures
        r.deep_view() == streamed_type(*m),
{
    let pdf: bool = match m.profile {
        Some(p) => p == MediaProfile::Pdf,
        None => false,
    };
    if pdf {
        return Some("image/jpeg".to_owned());
    }
    let n: usize = m.page_types.len();
    if n == 0 {
        return None;
    }
    let first: String = m.page_types[0].clone();
    if !(text_eq(first.as_str(), "image/jpeg") || text_eq(first.as_str(), "image/png") || text_eq(
        first.as_str(),
        "image/gif",
    )) {
        return None;
    }
    let mut i: usize = 0;
    while i < n
        invariant
            i <= n == m.page_types.len(),
            first@ == m.page_types@[0]@,
            m.profile != Some(MediaProfile::Pdf),
            forall|k: int| 0 <= k < i ==> (#[trigger] m.page_types@[k])@ == first@,
        decreases n - i,
    {
        if !text_eq(m.page_types[i].as_str(), first.as_str()) {
            assert(m.page_types@[i as int]@ != m.page_types@[0]@);
            return None;
        }
        i += 1;
    }
    Some(first)
}

fn book_streaming_link(base: &str, b: &BookItem) -> (r: AtomLink)
    ensures
        r.deep_view() == streaming_link(base@, *b),
{
    let mut href: String = uri(base, book_path(b.id.as_str(), "/pages/").as_str());
    let (last_read, last_read_date): (Option<i32>, Option<DateTime>) = match b.read {
        Some(r) => (Some(r.0), Some(r.1)),
        None => (None, None),
    };
    match streaming_type(&b.media) {
        Some(t) => {
            href.append("{pageNumber}");
            AtomLink::page_streaming(t.as_str(), href, b.media.page_count, last_read, last_read_date)
        },
        None => {
            href.append("{pageNumber}?convert=jpeg");
            AtomLink::page_streaming(
                "image/jpeg",
                href,
                b.media.page_count,
                last_read,
                last_read_date,
            )
        },
    }
}

fn write_book_content(b: &BookItem) -> (r: String)
    ensures
        r@ == book_content(*b),
{
    let mut content: String = lowercase(extension_of(b.url.as_str()).as_str());
    content.append(" - ");
    content.append(b.size.as_str());
    if !b.summary.as_str().is_empty() {
        content.append("\n\n");
        content.append(b.summary.as_str());
    }
    break_lines(content.as_str())
}

fn book_has_pages(m: &BookMedia) -> (r: bool)
    ensures
        r == has_pages(*m),
{
    match m.profile {
        Some(MediaProfile::Divina) => m.page_types.len() > 0,
        Some(MediaProfile::Pdf) => true,
        Some(MediaProfile::Epub) => m.epub_divina_compatible && m.page_types.len() > 0,
        None => false,
    }
}

/// Writes the entry of a book.
pub fn book_entry_acq(base: &str, b: &BookItem, with_series: bool) -> (r: AtomEntry)
    ensures
        r.deep_view() == book_entry(base@, *b, with_series),
{
    let title: String = if with_series {
        let mut t: String = b.series_title.clone();
        t.append(" ");
        t.append(b.number.as_str());
        t.append(": ");
        t.append(b.title.as_str());
        t
    } else {
        b.title.clone()
    };
    let mut links: Vec<AtomLink> = Vec::new();
    links.push(
        AtomLink::image_thumbnail(
            "image/jpeg",
            uri(base, book_path(b.id.as_str(), "/thumbnail/small").as_str()),
        ),
    );
    links.push(
        AtomLink::image(
            "image/jpeg",
            uri(base, book_path(b.id.as_str(), "/thumbnail").as_str()),
        ),
    );
    let mut file: String = book_path(b.id.as_str(), "/file/");
    file.append(sanitize(file_name_of(b.url.as_str()).as_str()).as_str());
    links.push(AtomLink::file_acquisition(&b.media.media_type, uri(base, file.as_str())));
    let ghost three = links.deep_view();
    assert(three =~= seq![three[0], three[1], three[2]]);
    if book_has_pages(&b.media) {
        let l: AtomLink = book_streaming_link(base, b);
        links.push(l);
        assert(links.deep_view() =~= three.push(l.deep_view()));
    }
    assert(links.deep_view() =~= book_entry(base@, *b, with_series).links);
    AtomEntry {
        title,
        updated: b.updated.clone(),
        id: b.id.clone(),
        content: write_book_content(b),
        authors: copy_texts(&b.authors),
        links,
    }
}

/// Whether the links with a relation all lead there and are of this type, and there is one.
pub open spec fn leads_to(links: Seq<LinkView>, rel: Seq<char>, type_: Seq<char>, href: Seq<char>) -> bool {
    &&& exists|i: int| 0 <= i < links.len() && (#[trigger] links[i]).rel == rel
    &&& forall|i: int|
        0 <= i < links.len() && (#[trigger] links[i]).rel == rel ==> links[i].type_ == type_
            && links[i].href == href
}

/// Whether every page of a book is of this media type.
pub open spec fn all_pages_are(m: BookMedia, t: Seq<char>) -> bool {
    forall|i: int| 0 <= i < m.page_types@.len() ==> (#[trigger] m.page_types@[i])@ == t
}

/// The entry of a book is that book's: its id, its authors and when it changed, its title, behind the
/// series and the number where they are asked for, its picture in both sizes, and its file to download
/// in its own media type. The pages are offered exactly if the book can be read page by page, with how
/// many there are and how far the user has read; they come as they are if all of them are of one type
/// that readers can show, and else as JPEG.
pub proof fn entry_offers_its_book(base: Seq<char>, b: BookItem, with_series: bool)
    ensures
        ({
            let e = book_entry(base, b, with_series);
            let at = |rest: Seq<char>|
                base + "/opds/v1.2"@ + path_text("/books/"@ + b.id@ + rest);
            let streaming = "http://vaemendis.net/opds-pse/stream"@;
            &&& e.id == b.id@
            &&& e.updated == b.updated@
            &&& e.authors == b.authors.deep_view()
            &&& !with_series ==> e.title == b.title@
            &&& with_series ==> e.title == b.series_title@ + " "@ + b.number@ + ": "@ + b.title@
            &&& leads_to(
                e.links,
                "http://opds-spec.org/image/thumbnail"@,
                "image/jpeg"@,
                at("/thumbnail/small"@),
            )
            &&& leads_to(
                e.links,
                "http://opds-spec.org/image"@,
                "image/jpeg"@,
                at("/thumbnail"@),
            )
            &&& leads_to(
                e.links,
                "http://opds-spec.org/acquisition"@,
                if b.media.media_type is Some {
                    b.media.media_type->0@
                } else {
                    "application/octet-stream"@
                },
                at("/file/"@ + without_semicolons(crate::pages::base_part(b.url@))),
            )
            &&& (exists|i: int| 0 <= i < e.links.len() && (#[trigger] e.links[i]).rel == streaming)
                <==> {
                ||| b.media.profile == Some(MediaProfile::Pdf)
                ||| b.media.profile == Some(MediaProfile::Divina) && b.media.page_types@.len() > 0
                ||| b.media.profile == Some(MediaProfile::Epub) && b.media.epub_divina_compatible
                    && b.media.page_types@.len() > 0
            }
            &&& forall|i: int|
                0 <= i < e.links.len() && (#[trigger] e.links[i]).rel == streaming ==> {
                    let l = e.links[i];
                    &&& l.pse_count == Some(b.media.page_count)
                    &&& l.pse_last_read == (if b.read is Some {
                        Some((b.read->0).0)
                    } else {
                        None
                    })
                    &&& l.pse_last_read_date == (if b.read is Some {
                        Some((b.read->0).1)
                    } else {
                        None
                    })
                    &&& b.media.profile == Some(MediaProfile::Pdf) ==> l.type_ == "image/jpeg"@
                        && l.href == at("/pages/"@) + "{pageNumber}"@
                    &&& b.media.profile != Some(MediaProfile::Pdf) && is_streamable(l.type_)
                        && all_pages_are(b.media, l.type_) ==> l.href == at("/pages/"@)
                        + "{pageNumber}"@
                    &&& b.media.profile != Some(MediaProfile::Pdf) && !(exists|t: Seq<char>|
                        is_streamable(t) && #[trigger] all_pages_are(b.media, t)) ==> l.type_
                        == "image/jpeg"@ && l.href == at("/pages/"@)
                        + "{pageNumber}?convert=jpeg"@
                    &&& b.media.profile != Some(MediaProfile::Pdf) ==> forall|t: Seq<char>|
                        is_streamable(t) && #[trigger] all_pages_are(b.media, t) ==> l.type_ == t
                }
        }),
{
    reveal_strlit("http://opds-spec.org/image/thumbnail");
    reveal_strlit("http://opds-spec.org/image");
    reveal_strlit("http://opds-spec.org/acquisition");
    reveal_strlit("http://vaemendis.net/opds-pse/stream");
    assert("http://opds-spec.org/image/thumbnail"@.len() == 36 && "http://opds-spec.org/image"@.len()
        == 26 && "http://opds-spec.org/acquisition"@.len() == 32
        && "http://vaemendis.net/opds-pse/stream"@.len() == 36
        && "http://opds-spec.org/image/thumbnail"@[7] == 'o'
        && "http://vaemendis.net/opds-pse/stream"@[7] == 'v');
    let e = book_entry(base, b, with_series);
    assert(e.links[0].rel == "http://opds-spec.org/image/thumbnail"@);
    assert(e.links[1].rel == "http://opds-spec.org/image"@);
    assert(e.links[2].rel == "http://opds-spec.org/acquisition"@);
    assert("/books/"@ + b.id@ + ("/file/"@ + without_semicolons(crate::pages::base_part(b.url@)))
        =~= "/books/"@ + b.id@ + "/file/"@ + without_semicolons(crate::pages::base_part(b.url@)));
    if has_pages(b.media) {
        assert(e.links[3] == streaming_link(base, b));
        assert(e.links[3].rel == "http://vaemendis.net/opds-pse/stream"@);
        if b.media.page_types@.len() > 0 {
            let t = b.media.page_types@[0]@;
            assert forall|u: Seq<char>| #[trigger] all_pages_are(b.media, u) implies u == t by {
                assert(b.media.page_types@[0]@ == u);
            }
            if streamed_type(b.media) is Some && b.media.profile != Some(MediaProfile::Pdf) {
                assert(all_pages_are(b.media, t));
            }
            if is_streamable(t) && all_pages_are(b.media, t) {
                assert(streamed_type(b.media) is Some);
            }
        }
    }
}

/// A text with line breaks has no line ends, and one that has none stays as it is.
pub proof fn breaks_take_the_place_of_line_ends(s: Seq<char>)
    ensures
        !with_breaks(s).contains('\n'),
        !s.contains('\n') ==> with_breaks(s) == s,
    decreases s.len(),
{
    reveal_strlit("<br/>");
    if s.len() > 0 {
        let init = s.drop_last();
        breaks_take_the_place_of_line_ends(init);
        let whole = with_breaks(s);
        assert forall|i: int| 0 <= i < whole.len() implies #[trigger] whole[i] != '\n' by {
            let before = with_breaks(init);
            if i < before.len() {
                assert(whole[i] == before[i]);
                assert(before.contains(before[i]));
            }
        }
        if !s.contains('\n') {
            assert(s[s.len() - 1] != '\n');
            assert(!init.contains('\n')) by {
                if init.contains('\n') {
                    let k = choose|k: int| 0 <= k < init.len() && init[k] == '\n';
                    assert(s[k] == '\n');
                }
            }
            assert(init.push(s.last()) =~= s);
        }
    } else {
        assert(with_breaks(s) =~= s);
    }
}

/// The entries of several books.
pub open spec fn book_entry_list(base: Seq<char>, books: Seq<BookItem>, with_series: bool) -> Seq<EntryView> {
    Seq::new(books.len(), |i: int| book_entry(base, books[i], with_series))
}

/// Writes the entries of books.
pub fn book_entries(base: &str, books: &Vec<BookItem>, with_series: bool) -> (r: Vec<AtomEntry>)
    ensures
        r.deep_view() == book_entry_list(base@, books@, with_series),
{
    let ghost all = book_entry_list(base@, books@, with_series);
    let mut r: Vec<AtomEntry> = Vec::new();
    let mut i: usize = 0;
    assert(r.deep_view() =~= all.take(0));
    while i < books.len()
        invariant
            i <= books.len(),
            all == book_entry_list(base@, books@, with_series),
            r.deep_view() == all.take(i as int),
        decreases books.len() - i,
    {
        let e: AtomEntry = book_entry_acq(base, &books[i], with_series);
        let ghost before = r.deep_view();
        r.push(e);
        assert(r.deep_view() =~= before.push(e.deep_view()));
        assert(r.deep_view() =~= all.take(i as int + 1));
        i += 1;
    }
    assert(all.take(all.len() as int) =~= all);
    r
}

// ---- feeds ----

/// A feed with the links to itself and to the catalog in front of other links.
pub open spec fn feed_of(
    base: Seq<char>,
    url: Seq<char>,
    id: Seq<char>,
    title: Seq<char>,
    updated: Seq<char>,
    entries: Seq<EntryView>,
    links: Seq<LinkView>,
) -> FeedView {
    FeedView {
        id,
        title,
        updated,
        entries,
        links: seq![nav_link("self"@, url), start_link(base)] + links,
    }
}

/// What a feed is called and where it is.
#[derive(Debug, PartialEq, Eq)]
pub struct FeedHead {
    pub url: String,
    pub id: String,
    pub title: String,
    pub updated: String,
}

proof fn lemma_feed_links(base: Seq<char>, url: Seq<char>, more: Seq<LinkView>)
    requires
        forall|i: int|
            0 <= i < more.len() ==> (#[trigger] more[i]).rel == "previous"@ || more[i].rel
                == "next"@,
    ensures
        ({
            let links = seq![nav_link("self"@, url), start_link(base)] + more;
            &&& leads_to(links, "self"@, crate::atom::TYPE_NAV@, url)
            &&& leads_to(
                links,
                "start"@,
                crate::atom::TYPE_NAV@,
                base + "/opds/v1.2"@ + path_text("/catalog"@),
            )
        }),
{
    reveal_strlit("self");
    reveal_strlit("start");
    reveal_strlit("previous");
    reveal_strlit("next");
    assert("self"@.len() == 4 && "start"@.len() == 5 && "previous"@.len() == 8 && "next"@.len() == 4
        && "self"@[0] == 's' && "next"@[0] == 'n');
    let links = seq![nav_link("self"@, url), start_link(base)] + more;
    assert(links[0].rel == "self"@);
    assert(links[1].rel == "start"@);
    assert forall|i: int| 2 <= i < links.len() implies #[trigger] links[i] == more[i - 2] by {}
}

/// Puts together a feed that shows one page of a list.
pub fn paged_feed(base: &str, head: FeedHead, entries: Vec<AtomEntry>, total: u64, page: u32, size: u32) -> (r:
    Feed)
    requires
        page < u32::MAX,
    ensures
        r.deep_view() == feed_of(
            base@,
            head.url@,
            head.id@,
            head.title@,
            head.updated@,
            entries.deep_view(),
            page_links(head.url@, total, page, size),
        ),
        r.id@ == head.id@,
        r.title@ == head.title@,
        r.updated@ == head.updated@,
        r.entries.deep_view() == entries.deep_view(),
        leads_to(r.links.deep_view(), "self"@, crate::atom::TYPE_NAV@, head.url@),
        leads_to(
            r.links.deep_view(),
            "start"@,
            crate::atom::TYPE_NAV@,
            base@ + "/opds/v1.2"@ + path_text("/catalog"@),
        ),
{
    proof {
        lemma_feed_links(base@, head.url@, page_links(head.url@, total, page, size));
    }
    let mut links: Vec<AtomLink> = Vec::new();
    links.push(AtomLink::nav("self", head.url.clone()));
    links.push(link_start(base));
    let ghost two = links.deep_view();
    assert(two =~= seq![nav_link("self"@, head.url@), start_link(base@)]);
    let mut more: Vec<AtomLink> = link_page(head.url.as_str(), total, page, size);
    let ghost rest = more.deep_view();
    let ghost before = links@;
    let ghost tail = more@;
    links.append(&mut more);
    assert(links@ =~= before + tail);
    assert(links.deep_view() =~= two + rest);
    Feed { id: head.id, title: head.title, updated: head.updated, entries, links }
}

/// Puts together a feed that shows all of a list.
pub fn whole_feed(base: &str, head: FeedHead, entries: Vec<AtomEntry>) -> (r: Feed)
    ensures
        r.deep_view() == feed_of(
            base@,
            head.url@,
            head.id@,
            head.title@,
            head.updated@,
            entries.deep_view(),
            Seq::empty(),
        ),
        r.id@ == head.id@,
        r.title@ == head.title@,
        r.updated@ == head.updated@,
        r.entries.deep_view() == entries.deep_view(),
        leads_to(r.links.deep_view(), "self"@, crate::atom::TYPE_NAV@, head.url@),
        leads_to(
            r.links.deep_view(),
            "start"@,
            crate::atom::TYPE_NAV@,
            base@ + "/opds/v1.2"@ + path_text("/catalog"@),
        ),
{
    proof {
        lemma_feed_links(base@, head.url@, Seq::empty());
    }
    let mut links: Vec<AtomLink> = Vec::new();
    links.push(AtomLink::nav("self", head.url.clone()));
    links.push(link_start(base));
    assert(links.deep_view() =~= seq![nav_link("self"@, head.url@), start_link(base@)]
        + Seq::empty());
    Feed { id: head.id, title: head.title, updated: head.updated, entries, links }
}

/// The lists that the catalog leads to.
#[derive(Clone, Copy, Debug, PartialEq, Eq, Structural)]
pub enum Shelf {
    KeepReading,
    OnDeck,
    AllSeries,
    LatestSeries,
    LatestBooks,
    Libraries,
    Collections,
    ReadLists,
    Publishers,
}

/// What a list is called, by which its feed is known, what the catalog says of it, and where it is.
#[verifier::ext_equal]
pub struct ShelfTexts {
    pub title: Seq<char>,
    pub id: Seq<char>,
    pub content: Seq<char>,
    pub path: Seq<char>,
}

/// The texts of a list.
pub open spec fn shelf_texts(shelf: Shelf) -> ShelfTexts {
    match shelf {
        Shelf::KeepReading => ShelfTexts {
            title: "Keep Reading"@,
            id: "keepReading"@,
            content: "Continue reading your in progress books"@,
            path: "/keep-reading"@,
        },
        Shelf::OnDeck => ShelfTexts {
            title: "On Deck"@,
            id: "ondeck"@,
            content: "Browse what to read next"@,
            path: "/ondeck"@,
        },
        Shelf::AllSeries => ShelfTexts {
            title: "All series"@,
            id: "allSeries"@,
            content: "Browse by series"@,
            path: "/series"@,
        },
        Shelf::LatestSeries => ShelfTexts {
            title: "Latest series"@,
            id: "latestSeries"@,
            content: "Browse latest series"@,
            path: "/series/latest"@,
        },
        Shelf::LatestBooks => ShelfTexts {
            title: "Latest books"@,
            id: "latestBooks"@,
            content: "Browse latest books"@,
            path: "/books/latest"@,
        },
        Shelf::Libraries => ShelfTexts {
            title: "All libraries"@,
            id: "allLibraries"@,
            content: "Browse by library"@,
            path: "/libraries"@,
        },
        Shelf::Collections => ShelfTexts {
            title: "All collections"@,
            id: "allCollections"@,
            content: "Browse by collection"@,
            path: "/collections"@,
        },
        Shelf::ReadLists => ShelfTexts {
            title: "All read lists"@,
            id: "allReadLists"@,
            content: "Browse by read lists"@,
            path: "/readlists"@,
        },
        Shelf::Publishers => ShelfTexts {
            title: "All publishers"@,
            id: "allPublishers"@,
            content: "Browse by publishers"@,
            path: "/publishers"@,
        },
    }
}

fn texts_of(shelf: Shelf) -> (r: (&'static str, &'static str, &'static str, &'static str))
    ensures
        (ShelfTexts { title: r.0@, id: r.1@, content: r.2@, path: r.3@ }) == shelf_texts(shelf),
{
    match shelf {
        Shelf::KeepReading => (
            "Keep Reading",
            "keepReading",
            "Continue reading your in progress books",
            "/keep-reading",
        ),
        Shelf::OnDeck => ("On Deck", "ondeck", "Browse what to read next", "/ondeck"),
        Shelf::AllSeries => ("All series", "allSeries", "Browse by series", "/series"),
        Shelf::LatestSeries => (
            "Latest series",
            "latestSeries",
            "Browse latest series",
            "/series/latest",
        ),
        Shelf::LatestBooks => ("Latest books", "latestBooks", "Browse latest books", "/books/latest"),
        Shelf::Libraries => ("All libraries", "allLibraries", "Browse by library", "/libraries"),
        Shelf::Collections => (
            "All collections",
            "allCollections",
            "Browse by collection",
            "/collections",
        ),
        Shelf::ReadLists => ("All read lists", "allReadLists", "Browse by read lists", "/readlists"),
        Shelf::Publishers => (
            "All publishers",
            "allPublishers",
            "Browse by publishers",
            "/publishers",
        ),
    }
}

/// Whether a feed's head is that of a list.
pub open spec fn is_shelf_head(head: FeedHead, base: Seq<char>, shelf: Shelf, now: Seq<char>) -> bool {
    &&& head.url@ == feed_uri(base, shelf_texts(shelf).path)
    &&& head.id@ == shelf_texts(shelf).id
    &&& head.title@ == shelf_texts(shelf).title
    &&& head.updated@ == now
}

/// Writes the head of the feed of a list.
pub fn shelf_head(base: &str, shelf: Shelf, now: &str) -> (r: FeedHead)
    ensures
        is_shelf_head(r, base@, shelf, now@),
{
    let (title, id, content, path) = texts_of(shelf);
    FeedHead {
        url: uri(base, path),
        id: id.to_owned(),
        title: title.to_owned(),
        updated: now.to_owned(),
    }
}

/// Writes the head of the feed of an item, which is known by what the item is.
pub fn item_head(base: &str, kind: NavKind, item: &NavItem) -> (r: FeedHead)
    ensures
        r.url@ == item_uri(base@, kind, item.id@),
        r.id@ == item.id@,
        r.title@ == item.title@,
        r.updated@ == item.updated@,
{
    FeedHead {
        url: write_item_uri(base, kind, item.id.as_str()),
        id: item.id.clone(),
        title: item.title.clone(),
        updated: item.updated.clone(),
    }
}

/// The entry of a list in the catalog.
pub open spec fn catalog_entry(base: Seq<char>, now: Seq<char>, shelf: Shelf) -> EntryView {
    let t = shelf_texts(shelf);
    nav_entry(t.title, now, t.id, t.content, feed_uri(base, t.path))
}

/// The lists in the order in which the catalog shows them.
pub open spec fn shelves() -> Seq<Shelf> {
    seq![
        Shelf::KeepReading,
        Shelf::OnDeck,
        Shelf::AllSeries,
        Shelf::LatestSeries,
        Shelf::LatestBooks,
        Shelf::Libraries,
        Shelf::Collections,
        Shelf::ReadLists,
        Shelf::Publishers,
    ]
}

/// The entries of the catalog.
pub open spec fn catalog_entries(base: Seq<char>, now: Seq<char>) -> Seq<EntryView> {
    Seq::new(shelves().len(), |i: int| catalog_entry(base, now, shelves()[i]))
}

/// Every list has an entry in the catalog, and the entry leads to the list's feed and calls it as the
/// feed calls itself.
pub proof fn catalog_leads_to_every_list(base: Seq<char>, now: Seq<char>, shelf: Shelf, head: FeedHead)
    requires
        is_shelf_head(head, base, shelf, now),
    ensures
        exists|i: int|
            0 <= i < catalog_entries(base, now).len() && {
                let e = #[trigger] catalog_entries(base, now)[i];
                e.id == head.id@ && e.title == head.title@ && e.links == seq![
                    nav_link("subsection"@, head.url@),
                ]
            },
{
    let i = match shelf {
        Shelf::KeepReading => 0int,
        Shelf::OnDeck => 1,
        Shelf::AllSeries => 2,
        Shelf::LatestSeries => 3,
        Shelf::LatestBooks => 4,
        Shelf::Libraries => 5,
        Shelf::Collections => 6,
        Shelf::ReadLists => 7,
        Shelf::Publishers => 8,
    };
    assert(shelves()[i] == shelf);
    assert(catalog_entries(base, now)[i] == catalog_entry(base, now, shelf));
}

/// The lists that both catalogs have are at the same place in each, and the feed of an item is below
/// the list of its kind.
pub proof fn lists_are_where_their_items_are()
    ensures
        shelf_texts(Shelf::KeepReading).path == crate::opds_v2::list_path(
            crate::opds_v2::ListKind::KeepReading,
        ),
        shelf_texts(Shelf::LatestBooks).path == crate::opds_v2::list_path(
            crate::opds_v2::ListKind::LatestBooks,
        ),
        shelf_texts(Shelf::LatestSeries).path == crate::opds_v2::list_path(
            crate::opds_v2::ListKind::LatestSeries,
        ),
        kind_path(NavKind::Series) == shelf_texts(Shelf::AllSeries).path + "/"@,
        kind_path(NavKind::Library) == shelf_texts(Shelf::Libraries).path + "/"@,
        kind_path(NavKind::Collection) == shelf_texts(Shelf::Collections).path + "/"@,
        kind_path(NavKind::ReadList) == shelf_texts(Shelf::ReadLists).path + "/"@,
        "/"@ + crate::opds_v2::kind_path(crate::opds_v2::TargetKind::Series) == kind_path(
            NavKind::Series,
        ),
        "/"@ + crate::opds_v2::kind_path(crate::opds_v2::TargetKind::Library) == kind_path(
            NavKind::Library,
        ),
        "/"@ + crate::opds_v2::kind_path(crate::opds_v2::TargetKind::Collection) == kind_path(
            NavKind::Collection,
        ),
        "/"@ + crate::opds_v2::kind_path(crate::opds_v2::TargetKind::ReadList) == kind_path(
            NavKind::ReadList,
        ),
{
    reveal_strlit("/");
    reveal_strlit("/series");
    reveal_strlit("/series/");
    reveal_strlit("series/");
    reveal_strlit("/libraries");
    reveal_strlit("/libraries/");
    reveal_strlit("libraries/");
    reveal_strlit("/collections");
    reveal_strlit("/collections/");
    reveal_strlit("collections/");
    reveal_strlit("/readlists");
    reveal_strlit("/readlists/");
    reveal_strlit("readlists/");
    assert(kind_path(NavKind::Series) =~= "/series"@ + "/"@);
    assert(kind_path(NavKind::Library) =~= "/libraries"@ + "/"@);
    assert(kind_path(NavKind::Collection) =~= "/collections"@ + "/"@);
    assert(kind_path(NavKind::ReadList) =~= "/readlists"@ + "/"@);
    assert("/"@ + "series/"@ =~= "/series/"@);
    assert("/"@ + "libraries/"@ =~= "/libraries/"@);
    assert("/"@ + "collections/"@ =~= "/collections/"@);
    assert("/"@ + "readlists/"@ =~= "/readlists/"@);
}

/// The entry of an item leads to the item's feed and calls it as the feed calls itself.
pub proof fn entries_lead_to_their_feeds(base: Seq<char>, kind: NavKind, item: NavItem, head: FeedHead)
    requires
        head.url@ == item_uri(base, kind, item.id@),
        head.id@ == item.id@,
        head.title@ == item.title@,
        head.updated@ == item.updated@,
    ensures
        item_entry(base, kind, item) == nav_entry(
            head.title@,
            head.updated@,
            head.id@,
            ""@,
            head.url@,
        ),
{
}

fn push_catalog_entry(entries: &mut Vec<AtomEntry>, base: &str, now: &str, shelf: Shelf)
    ensures
        final(entries).deep_view() == old(entries).deep_view().push(
            catalog_entry(base@, now@, shelf),
        ),
{
    let ghost before = entries.deep_view();
    let (title, id, content, path) = texts_of(shelf);
    let e: AtomEntry = AtomEntry::nav(title, now, id, content, uri(base, path));
    entries.push(e);
    assert(entries.deep_view() =~= before.push(e.deep_view()));
}

/// Puts together the catalog.
pub fn catalog_feed(base: &str, now: &str) -> (r: Feed)
    ensures
        r.deep_view() == (FeedView {
            id: "root"@,
            title: "Komga OPDS catalog"@,
            updated: now@,
            entries: catalog_entries(base@, now@),
            links: seq![
                nav_link("self"@, feed_uri(base@, "/catalog"@)),
                start_link(base@),
                plain_link(
                    "application/opensearchdescription+xml"@,
                    "search"@,
                    feed_uri(base@, "/search"@),
                ),
                plain_link("application/opds+json"@, "alternate"@, base@ + "/opds/v2/catalog"@),
            ],
        }),
{
    let mut entries: Vec<AtomEntry> = Vec::new();
    assert(entries.deep_view() =~= Seq::<EntryView>::empty());
    push_catalog_entry(&mut entries, base, now, Shelf::KeepReading);
    push_catalog_entry(&mut entries, base, now, Shelf::OnDeck);
    push_catalog_entry(&mut entries, base, now, Shelf::AllSeries);
    push_catalog_entry(&mut entries, base, now, Shelf::LatestSeries);
    push_catalog_entry(&mut entries, base, now, Shelf::LatestBooks);
    push_catalog_entry(&mut entries, base, now, Shelf::Libraries);
    push_catalog_entry(&mut entries, base, now, Shelf::Collections);
    push_catalog_entry(&mut entries, base, now, Shelf::ReadLists);
    push_catalog_entry(&mut entries, base, now, Shelf::Publishers);
    assert(entries.deep_view() =~= catalog_entries(base@, now@));
    let mut alternate: String = base.to_owned();
    alternate.append("/opds/v2/catalog");
    let mut links: Vec<AtomLink> = Vec::new();
    links.push(AtomLink::nav("self", uri(base, "/catalog")));
    links.push(link_start(base));
    links.push(
        AtomLink::plain("application/opensearchdescription+xml", "search", uri(base, "/search")),
    );
    links.push(AtomLink::plain("application/opds+json", "alternate", alternate));
    assert(links.deep_view() =~= seq![
        links@[0].deep_view(),
        links@[1].deep_view(),
        links@[2].deep_view(),
        links@[3].deep_view(),
    ]);
    Feed {
        id: "root".to_owned(),
        title: "Komga OPDS catalog".to_owned(),
        updated: now.to_owned(),
        entries,
        links,
    }
}

/// The address with which clients search for series.
pub fn search_template(base: &str) -> (r: String)
    ensures
        r@ == feed_uri(base@, "/series"@) + "?search={searchTerms}"@,
{
    let mut r: String = uri(base, "/series");
    r.append("?search={searchTerms}");
    r
}

// ---- what a feed asks for ----

/// Books that can be read and are not deleted.
pub open spec fn readable(first: Seq<ConditionView<BookLeaf>>) -> ConditionView<BookLeaf> {
    ConditionView::AllOf(
        first + seq![
            ConditionView::Leaf(BookLeaf::MediaStatus(MediaStatus::Ready)),
            ConditionView::Leaf(BookLeaf::Deleted(false)),
        ],
    )
}

/// The feeds of books that a search fills.
#[derive(Debug, PartialEq, Eq)]
pub enum BookFeed {
    KeepReading,
    Latest,
    OfSeries(String),
    OfReadList { id: String, ordered: bool },
}

/// The books that a feed asks for.
pub open spec fn book_feed_condition(feed: BookFeed) -> ConditionView<BookLeaf> {
    match feed {
        BookFeed::KeepReading => readable(
            seq![ConditionView::Leaf(BookLeaf::ReadStatus(ReadStatus::InProgress))],
        ),
        BookFeed::Latest => readable(Seq::empty()),
        BookFeed::OfSeries(id) => readable(seq![ConditionView::Leaf(BookLeaf::SeriesId(id))]),
        BookFeed::OfReadList { id, ordered } => readable(
            seq![ConditionView::Leaf(BookLeaf::ReadListId(id))],
        ),
    }
}

/// The order of the books of a feed.
pub open spec fn book_feed_sort(feed: BookFeed) -> Seq<crate::search::SortView> {
    match feed {
        BookFeed::KeepReading => sorted_on("readProgress.readDate"@, true),
        BookFeed::Latest => sorted_on("createdDate"@, true),
        BookFeed::OfSeries(_) => sorted_on("metadata.numberSort"@, false),
        BookFeed::OfReadList { id, ordered } => if ordered {
            sorted_on("readList.number"@, false)
        } else {
            sorted_on("metadata.releaseDate"@, false)
        },
    }
}

/// A search and the order of what it finds.
#[derive(Debug, PartialEq, Eq)]
pub struct BookQuery {
    pub condition: SearchConditionBook,
    pub sort: Vec<SortOrder>,
}

/// A search and the order of what it finds.
#[derive(Debug, PartialEq, Eq)]
pub struct SeriesQuery {
    pub condition: SearchConditionSeries,
    pub sort: Vec<SortOrder>,
}

spec fn leaf_or_none(first: Option<BookLeaf>) -> Seq<ConditionView<BookLeaf>> {
    match first {
        Some(l) => seq![ConditionView::Leaf(l)],
        None => Seq::empty(),
    }
}

fn readable_books(first: Option<BookLeaf>) -> (r: SearchConditionBook)
    ensures
        shape(r) == readable(leaf_or_none(first)),
{
    let ghost wanted = readable(leaf_or_none(first));
    let mut c: Vec<SearchConditionBook> = Vec::new();
    assert(shapes(c@) =~= Seq::<ConditionView<BookLeaf>>::empty());
    match first {
        Some(l) => {
            push_leaf(&mut c, l);
        },
        None => {},
    }
    push_leaf(&mut c, BookLeaf::MediaStatus(MediaStatus::Ready));
    push_leaf(&mut c, BookLeaf::Deleted(false));
    assert(shapes(c@) =~= wanted->AllOf_0);
    all_of(c)
}

/// The entries of a feed name the series of each book, but for the feed of one series.
pub open spec fn names_series(feed: BookFeed) -> bool {
    !(feed is OfSeries)
}

/// Writes the entries of a feed of books.
pub fn book_feed_entries(base: &str, feed: &BookFeed, books: &Vec<BookItem>) -> (r: Vec<AtomEntry>)
    ensures
        r.deep_view() == book_entry_list(base@, books@, names_series(*feed)),
{
    let with_series: bool = match feed {
        BookFeed::OfSeries(_) => false,
        _ => true,
    };
    book_entries(base, books, with_series)
}

/// Makes the search that fills a feed of books.
pub fn book_feed_query(feed: &BookFeed) -> (r: BookQuery)
    ensures
        shape(r.condition) == book_feed_condition(*feed),
        r.sort.deep_view() == book_feed_sort(*feed),
        forall|b: BookFacts| #[trigger]
            meets(shape(r.condition), b) <==> belongs_on(*feed, b) && b.media_status
                == MediaStatus::Ready && !b.deleted,
{
    proof {
        assert forall|b: BookFacts| #[trigger]
            meets(book_feed_condition(*feed), b) <==> belongs_on(*feed, b) && b.media_status
                == MediaStatus::Ready && !b.deleted by {
            feed_shows_the_books_that_belong(*feed, b);
        }
    }
    match feed {
        BookFeed::KeepReading => BookQuery {
            condition: readable_books(Some(BookLeaf::ReadStatus(ReadStatus::InProgress))),
            sort: sort_by("readProgress.readDate", true),
        },
        BookFeed::Latest => BookQuery {
            condition: readable_books(None),
            sort: sort_by("createdDate", true),
        },
        BookFeed::OfSeries(id) => BookQuery {
            condition: readable_books(Some(BookLeaf::SeriesId(id.clone()))),
            sort: sort_by("metadata.numberSort", false),
        },
        BookFeed::OfReadList { id, ordered } => BookQuery {
            condition: readable_books(Some(BookLeaf::ReadListId(id.clone()))),
            sort: if *ordered {
                sort_by("readList.number", false)
            } else {
                sort_by("metadata.releaseDate", false)
            },
        },
    }
}

/// Whether a book belongs on a feed, apart from being readable.
pub open spec fn belongs_on(feed: BookFeed, b: BookFacts) -> bool {
    match feed {
        BookFeed::KeepReading => b.read_status == ReadStatus::InProgress,
        BookFeed::Latest => true,
        BookFeed::OfSeries(id) => b.series_id == id@,
        BookFeed::OfReadList { id, ordered } => b.read_lists.contains(id@),
    }
}

pub(crate) proof fn lemma_readable(first: Seq<ConditionView<BookLeaf>>, b: BookFacts)
    ensures
        meets(readable(first), b) <==> all_hold(first, of_book(b)) && b.media_status
            == MediaStatus::Ready && !b.deleted,
{
    let leaf = of_book(b);
    let ready = ConditionView::Leaf(BookLeaf::MediaStatus(MediaStatus::Ready));
    let there = ConditionView::Leaf(BookLeaf::Deleted(false));
    assert(seq![ready, there] =~= seq![ready] + seq![there]);
    lemma_all_hold_add(seq![ready], seq![there], leaf);
    lemma_all_hold_add(first, seq![ready, there], leaf);
    lemma_one(ready, leaf);
    lemma_one(there, leaf);
}

/// A feed shows exactly the books that belong on it, are ready to be read and are not deleted: the
/// feed of books to keep reading those that are in progress, the feed of the latest all of them, and
/// the others those of their series or read list.
pub proof fn feed_shows_the_books_that_belong(feed: BookFeed, b: BookFacts)
    ensures
        meets(book_feed_condition(feed), b) <==> belongs_on(feed, b) && b.media_status
            == MediaStatus::Ready && !b.deleted,
{
    let leaf = of_book(b);
    let first = match feed {
        BookFeed::KeepReading => seq![
            ConditionView::Leaf(BookLeaf::ReadStatus(ReadStatus::InProgress)),
        ],
        BookFeed::Latest => Seq::empty(),
        BookFeed::OfSeries(id) => seq![ConditionView::Leaf(BookLeaf::SeriesId(id))],
        BookFeed::OfReadList { id, ordered } => seq![ConditionView::Leaf(BookLeaf::ReadListId(id))],
    };
    lemma_readable(first, b);
    if first.len() > 0 {
        lemma_one(first[0], leaf);
        assert(first =~= seq![first[0]]);
    }
}

/// The latest books come first in the order of when they were added, and books to keep reading in the
/// order of when they were read. The books of a series follow their numbers, and those of a read list
/// its own order if it has one and else their release.
pub proof fn feed_has_its_order(feed: BookFeed)
    ensures
        book_feed_sort(feed).len() == 1,
        feed is Latest || feed is KeepReading <==> book_feed_sort(feed)[0].descending,
        feed is KeepReading ==> book_feed_sort(feed)[0].property == "readProgress.readDate"@,
        feed is Latest ==> book_feed_sort(feed)[0].property == "createdDate"@,
        feed is OfSeries ==> book_feed_sort(feed)[0].property == "metadata.numberSort"@,
        feed is OfReadList ==> book_feed_sort(feed)[0].property == (if feed->ordered {
            "readList.number"@
        } else {
            "metadata.releaseDate"@
        }),
{
}

/// No feed of books shows one that is deleted or cannot be read.
pub proof fn feeds_show_readable_books_only(feed: BookFeed)
    ensures
        book_feed_condition(feed) is AllOf,
        book_feed_condition(feed)->AllOf_0.contains(ConditionView::Leaf(BookLeaf::Deleted(false))),
        book_feed_condition(feed)->AllOf_0.contains(
            ConditionView::Leaf(BookLeaf::MediaStatus(MediaStatus::Ready)),
        ),
{
    let all = book_feed_condition(feed)->AllOf_0;
    let n = all.len() as int;
    assert(all[n - 1] == ConditionView::Leaf(BookLeaf::Deleted(false)));
    assert(all[n - 2] == ConditionView::Leaf(BookLeaf::MediaStatus(MediaStatus::Ready)));
}

/// The feeds of series that a search fills.
#[derive(Debug, PartialEq, Eq)]
pub enum SeriesFeed {
    All { term: Option<String>, publishers: Vec<String> },
    Latest,
    OfLibrary(String),
    OfCollection { id: String, ordered: bool },
}

/// The series that a feed asks for.
pub open spec fn series_feed_condition(feed: SeriesFeed) -> ConditionView<SeriesLeaf> {
    let not_deleted = ConditionView::Leaf(SeriesLeaf::Deleted(false));
    match feed {
        SeriesFeed::All { term, publishers } => ConditionView::AllOf(
            (match term {
                Some(t) => seq![ConditionView::Leaf(SeriesLeaf::TitleContains(t))],
                None => Seq::empty(),
            }) + group(text_leaves(SeriesText::Publisher, publishers@)) + seq![not_deleted],
        ),
        SeriesFeed::Latest => not_deleted,
        SeriesFeed::OfLibrary(id) => ConditionView::AllOf(
            seq![ConditionView::Leaf(SeriesLeaf::LibraryId(id)), not_deleted],
        ),
        SeriesFeed::OfCollection { id, ordered } => ConditionView::AllOf(
            seq![ConditionView::Leaf(SeriesLeaf::CollectionId(id)), not_deleted],
        ),
    }
}

/// Whether a series belongs on a feed, apart from not being deleted.
pub open spec fn series_belongs_on(feed: SeriesFeed, s: SeriesFacts) -> bool {
    match feed {
        SeriesFeed::All { term, publishers } => (term is Some ==> (s.title_contains)(term->0@)) && (
        publishers@.len() > 0 ==> one_of(publishers@, s.publisher)),
        SeriesFeed::Latest => true,
        SeriesFeed::OfLibrary(id) => s.library_id == id@,
        SeriesFeed::OfCollection { id, ordered } => s.collections.contains(id@),
    }
}

/// A feed shows exactly the series that belong on it and are not deleted: the list of all those whose
/// title has the term and whose publisher is one of those that are given, and the others those of
/// their library or collection.
pub proof fn feed_shows_the_series_that_belong(feed: SeriesFeed, s: SeriesFacts)
    ensures
        series_meets(series_feed_condition(feed), s) <==> series_belongs_on(feed, s) && !s.deleted,
{
    let leaf = of_series(s);
    let there = ConditionView::Leaf(SeriesLeaf::Deleted(false));
    lemma_one(there, leaf);
    match feed {
        SeriesFeed::All { term, publishers } => {
            let first = match term {
                Some(t) => seq![ConditionView::Leaf(SeriesLeaf::TitleContains(t))],
                None => Seq::empty(),
            };
            let of = group(text_leaves(SeriesText::Publisher, publishers@));
            lemma_all_hold_add(first, of, leaf);
            lemma_all_hold_add(first + of, seq![there], leaf);
            lemma_text_group(SeriesText::Publisher, publishers@, s);
            if term is Some {
                lemma_one(first[0], leaf);
                assert(first =~= seq![first[0]]);
            }
        },
        SeriesFeed::Latest => {},
        SeriesFeed::OfLibrary(id) => {
            let first = ConditionView::Leaf(SeriesLeaf::LibraryId(id));
            assert(seq![first, there] =~= seq![first] + seq![there]);
            lemma_all_hold_add(seq![first], seq![there], leaf);
            lemma_one(first, leaf);
        },
        SeriesFeed::OfCollection { id, ordered } => {
            let first = ConditionView::Leaf(SeriesLeaf::CollectionId(id));
            assert(seq![first, there] =~= seq![first] + seq![there]);
            lemma_all_hold_add(seq![first], seq![there], leaf);
            lemma_one(first, leaf);
        },
    }
}

/// The series that were changed last come first; other lists are by title, but for a text search,
/// whose best matches come first, and a collection with an order of its own.
pub proof fn series_feed_has_its_order(feed: SeriesFeed)
    ensures
        series_feed_sort(feed).len() == 1,
        series_feed_sort(feed)[0].descending <==> feed is Latest,
        feed is Latest ==> series_feed_sort(feed)[0].property == "lastModified"@,
        feed is OfLibrary ==> series_feed_sort(feed)[0].property == "metadata.titleSort"@,
        feed is OfCollection ==> series_feed_sort(feed)[0].property == (if feed->ordered {
            "collection.number"@
        } else {
            "metadata.titleSort"@
        }),
        feed is All ==> series_feed_sort(feed)[0].property == (if feed->term is Some && exists|i: int|
            0 <= i < feed->term->0@.len() && !crate::text::is_space(#[trigger] feed->term->0@[i]) {
            "relevance"@
        } else {
            "metadata.titleSort"@
        }),
{
}

/// The order of the series of a feed: by relevance for a text search, else by title.
pub open spec fn series_feed_sort(feed: SeriesFeed) -> Seq<crate::search::SortView> {
    match feed {
        SeriesFeed::All { term, publishers } => if crate::search::has_search_term(
            term.deep_view(),
        ) {
            sorted_on("relevance"@, false)
        } else {
            sorted_on("metadata.titleSort"@, false)
        },
        SeriesFeed::Latest => sorted_on("lastModified"@, true),
        SeriesFeed::OfLibrary(_) => sorted_on("metadata.titleSort"@, false),
        SeriesFeed::OfCollection { id, ordered } => if ordered {
            sorted_on("collection.number"@, false)
        } else {
            sorted_on("metadata.titleSort"@, false)
        },
    }
}

fn series_in(leaf: SeriesLeaf) -> (r: SearchConditionSeries)
    ensures
        shape(r) == ConditionView::AllOf(
            seq![ConditionView::Leaf(leaf), ConditionView::Leaf(SeriesLeaf::Deleted(false))],
        ),
{
    let mut c: Vec<SearchConditionSeries> = Vec::new();
    assert(shapes(c@) =~= Seq::<ConditionView<SeriesLeaf>>::empty());
    push_leaf(&mut c, leaf);
    push_leaf(&mut c, SeriesLeaf::Deleted(false));
    assert(shapes(c@) =~= seq![
        ConditionView::Leaf(leaf),
        ConditionView::Leaf(SeriesLeaf::Deleted(false)),
    ]);
    all_of(c)
}

/// Makes the search that fills a feed of series.
pub fn series_feed_query(feed: &SeriesFeed) -> (r: SeriesQuery)
    ensures
        shape(r.condition) == series_feed_condition(*feed),
        r.sort.deep_view() == series_feed_sort(*feed),
        forall|s: SeriesFacts| #[trigger]
            series_meets(shape(r.condition), s) <==> series_belongs_on(*feed, s) && !s.deleted,
{
    proof {
        assert forall|s: SeriesFacts| #[trigger]
            series_meets(series_feed_condition(*feed), s) <==> series_belongs_on(*feed, s)
                && !s.deleted by {
            feed_shows_the_series_that_belong(*feed, s);
        }
    }
    match feed {
        SeriesFeed::All { term, publishers } => {
            let mut c: Vec<SearchConditionSeries> = Vec::new();
            assert(shapes(c@) =~= Seq::<ConditionView<SeriesLeaf>>::empty());
            match term {
                Some(t) => {
                    push_leaf(&mut c, SeriesLeaf::TitleContains(t.clone()));
                },
                None => {},
            }
            push_series_text_group(&mut c, SeriesText::Publisher, publishers);
            push_leaf(&mut c, SeriesLeaf::Deleted(false));
            assert(shapes(c@) =~= series_feed_condition(*feed)->AllOf_0);
            SeriesQuery {
                condition: all_of(c),
                sort: if has_search(term) {
                    sort_by("relevance", false)
                } else {
                    sort_by("metadata.titleSort", false)
                },
            }
        },
        SeriesFeed::Latest => SeriesQuery {
            condition: Condition::Leaf(SeriesLeaf::Deleted(false)),
            sort: sort_by("lastModified", true),
        },
        SeriesFeed::OfLibrary(id) => SeriesQuery {
            condition: series_in(SeriesLeaf::LibraryId(id.clone())),
            sort: sort_by("metadata.titleSort", false),
        },
        SeriesFeed::OfCollection { id, ordered } => SeriesQuery {
            condition: series_in(SeriesLeaf::CollectionId(id.clone())),
            sort: if *ordered {
                sort_by("collection.number", false)
            } else {
                sort_by("metadata.titleSort", false)
            },
        },
    }
}

/// The parameters of the address of a list of series: the term and the publishers, as far as given.
pub open spec fn are_series_params(params: Seq<Param>, term: Option<Seq<char>>, publishers: Seq<Seq<char>>) -> bool {
    let n = if term is Some {
        1int
    } else {
        0int
    };
    &&& params.len() == n + publishers.len()
    &&& term is Some ==> params[0].key@ == "search"@ && params[0].value@ == term->0
    &&& forall|i: int|
        n <= i < params.len() ==> (#[trigger] params[i]).key@ == "publisher"@ && params[i].value@
            == publishers[i - n]
}

/// Writes the head of the list of all series, or of those that a search finds.
pub fn all_series_head(base: &str, term: &Option<String>, publishers: &Vec<String>, now: &str) -> (r:
    FeedHead)
    ensures
        exists|params: Seq<Param>|
            #![trigger query_text(params)]
            are_series_params(params, term.deep_view(), publishers.deep_view()) && r.url@
                == feed_uri(base@, "/series"@) + query_text(params),
        r.id@ == "allSeries"@,
        r.title@ == (if crate::search::has_search_term(term.deep_view()) {
            "Series search for: "@ + term.deep_view()->0
        } else {
            "All series"@
        }),
        r.updated@ == now@,
        term is None && publishers@.len() == 0 ==> is_shelf_head(r, base@, Shelf::AllSeries, now@),
{
    let mut params: Vec<Param> = Vec::new();
    match term {
        Some(t) => {
            params.push(Param { key: "search".to_owned(), value: t.clone() });
        },
        None => {},
    }
    let ghost n = params@.len() as int;
    let mut i: usize = 0;
    while i < publishers.len()
        invariant
            i <= publishers.len(),
            n == (if term is Some {
                1int
            } else {
                0int
            }),
            params@.len() == n + i,
            term is Some ==> params@[0].key@ == "search"@ && params@[0].value@ == term.deep_view()->0,
            forall|k: int|
                n <= k < params@.len() ==> (#[trigger] params@[k]).key@ == "publisher"@
                    && params@[k].value@ == publishers.deep_view()[k - n],
        decreases publishers.len() - i,
    {
        params.push(Param { key: "publisher".to_owned(), value: publishers[i].clone() });
        i += 1;
    }
    assert(are_series_params(params@, term.deep_view(), publishers.deep_view()));
    let url: String = with_query(uri(base, "/series").as_str(), &params);
    let title: String = if has_search(term) {
        let mut t: String = "Series search for: ".to_owned();
        match term {
            Some(s) => {
                t.append(s.as_str());
            },
            None => {},
        }
        t
    } else {
        "All series".to_owned()
    };
    FeedHead { url, id: "allSeries".to_owned(), title, updated: now.to_owned() }
}

/// The other pages of a list keep the parameters of the list: the number of the page is one more
/// parameter of the same address.
pub proof fn other_pages_keep_the_parameters(
    base: Seq<char>,
    path: Seq<char>,
    params: Seq<Param>,
    page: nat,
    number: Param,
)
    requires
        !base.contains('?'),
        number.key@ == "page"@,
        number.value@ == crate::text::decimal(page),
    ensures
        page_uri(feed_uri(base, path) + query_text(params), page) == feed_uri(base, path)
            + query_text(params.push(number)),
{
    let list = feed_uri(base, path);
    let url = list + query_text(params);
    reveal_strlit("/opds/v1.2");
    crate::url::encoded_path_has_no_parameters(vstd::utf8::encode_utf8(path));
    assert forall|i: int| 0 <= i < list.len() implies #[trigger] list[i] != '?' by {
        let n = base.len() as int;
        if i < n {
            assert(base.contains(base[i]));
        } else if i >= n + 10 {
            assert(path_text(path).contains(path_text(path)[i - n - 10]));
        }
    }
    lemma_first_mark(params);
    if params.len() > 0 {
        assert(url[list.len() as int] == '?');
    } else {
        assert(url =~= list);
    }
    assert(params.push(number).drop_last() =~= params);
    assert(query_text(params.push(number)) == query_text(params) + (if params.len() == 0 {
        "?"@
    } else {
        "&"@
    }) + "page"@ + "="@ + param_text(crate::text::decimal(page)));
    assert(page_uri(url, page) =~= list + query_text(params.push(number)));
}

proof fn lemma_first_mark(params: Seq<Param>)
    ensures
        params.len() > 0 ==> query_text(params).len() > 0 && query_text(params)[0] == '?',
    decreases params.len(),
{
    reveal_strlit("?");
    if params.len() > 1 {
        lemma_first_mark(params.drop_last());
    } else if params.len() == 1 {
        assert(query_text(params.drop_last()) =~= Seq::empty());
    }
}

// ---- publishers ----

/// The items of a list on one page.
pub open spec fn page_items<T>(list: Seq<T>, page: int, size: int) -> Seq<T> {
    let from = if page * size < list.len() {
        page * size
    } else {
        list.len() as int
    };
    let to = if from + size < list.len() {
        from + size
    } else {
        list.len() as int
    };
    list.subrange(from, to)
}

/// Every item of a list is on exactly the page that its index belongs to.
pub proof fn every_item_is_on_its_page<T>(list: Seq<T>, i: int, size: int)
    requires
        0 <= i < list.len(),
        size > 0,
    ensures
        0 <= i % size < page_items(list, i / size, size).len(),
        page_items(list, i / size, size)[i % size] == list[i],
{
    vstd::arithmetic::div_mod::lemma_fundamental_div_mod(i, size);
    let p = i / size;
    assert(p * size == size * p) by (nonlinear_arith);
    assert(p * size + i % size == i);
}

/// Takes the publishers on one page of a list of them. Pages of no size are taken to be of size one.
pub fn publishers_page(publishers: &Vec<String>, page: u32, size: u32) -> (r: Vec<String>)
    ensures
        r.deep_view() == page_items(
            publishers.deep_view(),
            page as int,
            if size == 0 {
                1
            } else {
                size as int
            },
        ),
{
    let ghost all = publishers.deep_view();
    let n: u64 = publishers.len() as u64;
    let s: u64 = if size == 0 { 1 } else { size as u64 };
    proof {
        assert((page as u64) * s <= 0xffff_ffff * 0xffff_ffff) by (nonlinear_arith)
            requires
                page <= 0xffff_ffff,
                s <= 0xffff_ffff,
        ;
    }
    let offset: u64 = (page as u64) * s;
    let from: u64 = if offset < n { offset } else { n };
    let to: u64 = if s < n - from { from + s } else { n };
    let ghost wanted = page_items(all, page as int, s as int);
    assert(wanted == all.subrange(from as int, to as int));
    let mut r: Vec<String> = Vec::new();
    let mut i: usize = from as usize;
    assert(r.deep_view() =~= all.subrange(from as int, i as int));
    while i < to as usize
        invariant
            from <= i <= to <= n == publishers.len(),
            all == publishers.deep_view(),
            r.deep_view() == all.subrange(from as int, i as int),
        decreases to - i,
    {
        let ghost before = r.deep_view();
        r.push(publishers[i].clone());
        assert(r.deep_view() =~= before.push(all[i as int]));
        assert(r.deep_view() =~= all.subrange(from as int, i as int + 1));
        i += 1;
    }
    r
}

/// The entry of a publisher, which leads to the list of their series.
pub open spec fn publisher_entry(base: Seq<char>, now: Seq<char>, publisher: Seq<char>) -> EntryView {
    nav_entry(
        publisher,
        now,
        "publisher:"@ + param_text(publisher),
        ""@,
        feed_uri(base, "/series"@) + ("?"@ + "publisher"@ + "="@ + param_text(publisher)),
    )
}

/// The entry of a publisher leads to the list of series with just that publisher chosen, and is called
/// as the publisher is.
pub proof fn publisher_leads_to_their_series(
    base: Seq<char>,
    now: Seq<char>,
    publisher: Seq<char>,
    params: Seq<Param>,
)
    requires
        are_series_params(params, None, seq![publisher]),
    ensures
        publisher_entry(base, now, publisher).title == publisher,
        publisher_entry(base, now, publisher).updated == now,
        publisher_entry(base, now, publisher).links.len() == 1,
        publisher_entry(base, now, publisher).links[0].href == feed_uri(base, "/series"@)
            + query_text(params),
{
    assert(params[0].key@ == "publisher"@ && params[0].value@ == publisher);
    assert(query_text(params.drop_last()) =~= Seq::<char>::empty());
    assert(query_text(params) == Seq::<char>::empty() + "?"@ + "publisher"@ + "="@ + param_text(
        publisher,
    ));
    assert(query_text(params) =~= "?"@ + "publisher"@ + "="@ + param_text(publisher));
}

/// Writes the entries of publishers.
pub fn publisher_entries(base: &str, now: &str, publishers: &Vec<String>) -> (r: Vec<AtomEntry>)
    ensures
        r.deep_view() == Seq::new(
            publishers@.len(),
            |i: int| publisher_entry(base@, now@, publishers@[i]@),
        ),
{
    let ghost all = Seq::new(
        publishers@.len(),
        |i: int| publisher_entry(base@, now@, publishers@[i]@),
    );
    let mut r: Vec<AtomEntry> = Vec::new();
    let mut i: usize = 0;
    assert(r.deep_view() =~= all.take(0));
    while i < publishers.len()
        invariant
            i <= publishers.len(),
            all == Seq::new(
                publishers@.len(),
                |i: int| publisher_entry(base@, now@, publishers@[i]@),
            ),
            r.deep_view() == all.take(i as int),
        decreases publishers.len() - i,
    {
        let p: &str = publishers[i].as_str();
        let encoded: String = encode_query_param(p);
        let mut id: String = "publisher:".to_owned();
        id.append(encoded.as_str());
        let mut q: String = "?".to_owned();
        q.append("publisher");
        q.append("=");
        q.append(encoded.as_str());
        let mut href: String = uri(base, "/series");
        href.append(q.as_str());
        let e: AtomEntry = AtomEntry::nav(p, now, id.as_str(), "", href);
        let ghost before = r.deep_view();
        r.push(e);
        assert(r.deep_view() =~= before.push(e.deep_view()));
        assert(r.deep_view() =~= all.take(i as int + 1));
        i += 1;
    }
    assert(all.take(all.len() as int) =~= all);
    r
}

// ---- thumbnails and pages ----

/// The edge to which a small thumbnail is resized: one that was generated has its size already.
pub fn small_thumbnail_edge(generated: bool, max_edge: u32) -> (r: Option<u32>)
    ensures
        r == (if generated {
            None::<u32>
        } else {
            Some(max_edge)
        }),
{
    if generated {
        None
    } else {
        Some(max_edge)
    }
}

} // verus!
