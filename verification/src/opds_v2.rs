//! The OPDS 2 catalog: its feeds, as they are before they are written as JSON.
use vstd::prelude::*;

use crate::atom::push_at_least;
use crate::collections::{SearchConditionSeries, SeriesLeaf, SeriesText};
use crate::collections::{series_text_leaves, text_leaves};
use crate::datetime::DateTime;
use crate::error::{status_error, ApiError};
use crate::collections::{of_series, series_meets, SeriesFacts};
use crate::opds_v1::{BookFeed, BookQuery, SeriesFeed, SeriesQuery};
use crate::opds_v1::{lemma_readable, readable};
use crate::search::{
    all_hold, holds, lemma_all_hold, lemma_all_hold_add, lemma_leaves_hold, lemma_one, meets, of_book,
    BookFacts,
};
use crate::search::{
    all_of, leaf_conditions, push_leaf, sort_by, BookLeaf, MediaStatus, ReadStatus,
    SearchConditionBook,
};
use crate::search::{leaves, shape, shapes, sorted_on, ConditionView};
use crate::text::{blank, push_decimal, push_padded, split_words, text_eq};

verus! {

/// The media type of a feed.
pub const MEDIATYPE_OPDS_JSON: &'static str = "application/opds+json";

/// The number of items that a group of recommendations shows.
pub const RECOMMENDED_ITEMS_NUMBER: u32 = 5;

/// The number of items of each kind that a search shows.
pub const SEARCH_ITEMS_NUMBER: u32 = 20;

// ---- the model ----

/// A link.
#[derive(Debug, PartialEq, Eq)]
pub struct WPLinkDto {
    pub title: Option<String>,
    pub rel: Option<String>,
    pub href: Option<String>,
    pub type_: Option<String>,
    pub templated: Option<bool>,
}

/// A [`WPLinkDto`] by its texts.
#[verifier::ext_equal]
pub struct WpLinkView {
    pub title: Option<Seq<char>>,
    pub rel: Option<Seq<char>>,
    pub href: Option<Seq<char>>,
    pub type_: Option<Seq<char>>,
    pub templated: Option<bool>,
}

impl DeepView for WPLinkDto {
    type V = WpLinkView;

    open spec fn deep_view(&self) -> WpLinkView {
        WpLinkView {
            title: self.title.deep_view(),
            rel: self.rel.deep_view(),
            href: self.href.deep_view(),
            type_: self.type_.deep_view(),
            templated: self.templated,
        }
    }
}

/// What a feed or a part of it says of itself.
#[derive(Debug, PartialEq, Eq)]
pub struct FeedMetadataDto {
    pub title: String,
    pub sub_title: Option<String>,
    pub type_: Option<String>,
    pub identifier: Option<String>,
    pub modified: Option<DateTime>,
    pub description: Option<String>,
    pub items_per_page: Option<u32>,
    pub current_page: Option<u32>,
    pub number_of_items: Option<i64>,
}

/// A [`FeedMetadataDto`] by its texts.
#[verifier::ext_equal]
pub struct MetadataView {
    pub title: Seq<char>,
    pub sub_title: Option<Seq<char>>,
    pub type_: Option<Seq<char>>,
    pub identifier: Option<Seq<char>>,
    pub modified: Option<DateTime>,
    pub description: Option<Seq<char>>,
    pub items_per_page: Option<u32>,
    pub current_page: Option<u32>,
    pub number_of_items: Option<i64>,
}

impl DeepView for FeedMetadataDto {
    type V = MetadataView;

    open spec fn deep_view(&self) -> MetadataView {
        MetadataView {
            title: self.title@,
            sub_title: self.sub_title.deep_view(),
            type_: self.type_.deep_view(),
            identifier: self.identifier.deep_view(),
            modified: self.modified,
            description: self.description.deep_view(),
            items_per_page: self.items_per_page,
            current_page: self.current_page,
            number_of_items: self.number_of_items,
        }
    }
}

/// A choice among the items of a feed.
#[derive(Debug, PartialEq, Eq)]
pub struct FacetDto {
    pub metadata: FeedMetadataDto,
    pub links: Vec<WPLinkDto>,
}

/// A [`FacetDto`] by its texts.
#[verifier::ext_equal]
pub struct FacetView {
    pub metadata: MetadataView,
    pub links: Seq<WpLinkView>,
}

impl DeepView for FacetDto {
    type V = FacetView;

    open spec fn deep_view(&self) -> FacetView {
        FacetView { metadata: self.metadata.deep_view(), links: self.links.deep_view() }
    }
}

/// A part of a feed. `P` is a publication.
#[derive(Debug, PartialEq, Eq)]
pub struct FeedGroupDto<P> {
    pub metadata: FeedMetadataDto,
    pub links: Vec<WPLinkDto>,
    pub navigation: Vec<WPLinkDto>,
    pub publications: Vec<P>,
}

/// A [`FeedGroupDto`] by its texts.
#[verifier::ext_equal]
#[verifier::reject_recursive_types(P)]
pub struct GroupView<P> {
    pub metadata: MetadataView,
    pub links: Seq<WpLinkView>,
    pub navigation: Seq<WpLinkView>,
    pub publications: Seq<P>,
}

impl<P> DeepView for FeedGroupDto<P> {
    type V = GroupView<P>;

    open spec fn deep_view(&self) -> GroupView<P> {
        GroupView {
            metadata: self.metadata.deep_view(),
            links: self.links.deep_view(),
            navigation: self.navigation.deep_view(),
            publications: self.publications@,
        }
    }
}

/// A feed. `P` is a publication.
#[derive(Debug, PartialEq, Eq)]
pub struct FeedDto<P> {
    pub metadata: FeedMetadataDto,
    pub links: Vec<WPLinkDto>,
    pub navigation: Vec<WPLinkDto>,
    pub facets: Vec<FacetDto>,
    pub groups: Vec<FeedGroupDto<P>>,
    pub publications: Vec<P>,
}

/// A [`FeedDto`] by its texts.
#[verifier::ext_equal]
#[verifier::reject_recursive_types(P)]
pub struct FeedView<P> {
    pub metadata: MetadataView,
    pub links: Seq<WpLinkView>,
    pub navigation: Seq<WpLinkView>,
    pub facets: Seq<FacetView>,
    pub groups: Seq<GroupView<P>>,
    pub publications: Seq<P>,
}

impl<P> DeepView for FeedDto<P> {
    type V = FeedView<P>;

    open spec fn deep_view(&self) -> FeedView<P> {
        FeedView {
            metadata: self.metadata.deep_view(),
            links: self.links.deep_view(),
            navigation: self.navigation.deep_view(),
            facets: self.facets.deep_view(),
            groups: self.groups.deep_view(),
            publications: self.publications@,
        }
    }
}

// ---- times ----

/// A fraction of a second without the zeros at its end.
pub open spec fn without_trailing_zeros(digits: Seq<char>) -> Seq<char>
    decreases digits.len(),
{
    if digits.len() > 0 && digits.last() == '0' {
        without_trailing_zeros(digits.drop_last())
    } else {
        digits
    }
}

/// A fraction of a second, if there is one.
pub open spec fn fraction_text(nanosecond: u32) -> Seq<char> {
    if nanosecond == 0 {
        Seq::empty()
    } else {
        "."@ + without_trailing_zeros(crate::text::padded(nanosecond as nat, 9))
    }
}

/// How far a clock is ahead of UTC, in hours and minutes.
pub open spec fn offset_text(seconds: int) -> Seq<char> {
    let total = if seconds < 0 {
        -seconds
    } else {
        seconds
    };
    if seconds == 0 {
        "Z"@
    } else {
        (if seconds < 0 {
            "-"@
        } else {
            "+"@
        }) + crate::atom::at_least_digits((total / 3600) as nat, 2) + ":"@ + crate::atom::at_least_digits(
            (total % 3600 / 60) as nat,
            2,
        )
    }
}

/// A point in time with the offset of its clock.
pub open spec fn zoned_text(d: DateTime) -> Seq<char> {
    crate::atom::year_text(d.date.year as int) + "-"@ + crate::atom::at_least_digits(
        d.date.month as nat,
        2,
    ) + "-"@ + crate::atom::at_least_digits(d.date.day as nat, 2) + "T"@ + crate::atom::at_least_digits(
        d.hour as nat,
        2,
    ) + ":"@ + crate::atom::at_least_digits(d.minute as nat, 2) + ":"@ + crate::atom::at_least_digits(
        d.second as nat,
        2,
    ) + fraction_text(d.nanosecond) + offset_text(d.offset_seconds as int)
}

proof fn lemma_without_trailing_zeros(digits: Seq<char>)
    ensures
        without_trailing_zeros(digits).len() <= digits.len(),
        without_trailing_zeros(digits) == digits.take(without_trailing_zeros(digits).len() as int),
        without_trailing_zeros(digits).len() > 0 ==> without_trailing_zeros(digits).last() != '0',
        forall|k: int|
            without_trailing_zeros(digits).len() <= k < digits.len() ==> #[trigger] digits[k] == '0',
    decreases digits.len(),
{
    if digits.len() > 0 && digits.last() == '0' {
        let init = digits.drop_last();
        lemma_without_trailing_zeros(init);
        let n = without_trailing_zeros(digits).len() as int;
        assert(init.take(n) =~= digits.take(n));
        assert forall|k: int| n <= k < digits.len() implies #[trigger] digits[k] == '0' by {
            if k < init.len() {
                assert(init[k] == digits[k]);
            }
        }
    } else {
        assert(digits.take(digits.len() as int) =~= digits);
    }
}

/// A fraction of a second is told to the nanosecond, with no zero at its end: zeros after it make the
/// nine digits of its nanoseconds. A full second has none.
pub proof fn fraction_is_told_without_zeros(nanosecond: u32, k: int)
    ensures
        fraction_text(0).len() == 0,
        nanosecond > 0 ==> fraction_text(nanosecond)[0] == '.',
        nanosecond > 0 && fraction_text(nanosecond).len() > 1 ==> fraction_text(nanosecond).last()
            != '0',
        nanosecond > 0 && 0 <= k < 9 ==> crate::text::padded(nanosecond as nat, 9)[k] == (if k + 1
            < fraction_text(nanosecond).len() {
            fraction_text(nanosecond)[k + 1]
        } else {
            '0'
        }),
{
    reveal_strlit(".");
    let digits = crate::text::padded(nanosecond as nat, 9);
    crate::text::padded_number_is_read_back(nanosecond as nat, 9);
    lemma_without_trailing_zeros(digits);
    let kept = without_trailing_zeros(digits);
    if nanosecond > 0 {
        let f = fraction_text(nanosecond);
        assert(f.len() == kept.len() + 1);
        if kept.len() > 0 {
            assert(f.last() == kept.last());
        }
        if 0 <= k < 9 && k + 1 < f.len() {
            assert(f[k + 1] == kept[k]);
        }
    }
}

/// A clock ahead of UTC is told with a plus, one behind it with a minus, by its hours and minutes; UTC is
/// told by its letter.
pub proof fn offset_is_told_in_hours_and_minutes(hours: int, minutes: int)
    requires
        0 <= hours < 100,
        0 <= minutes < 60,
        hours > 0 || minutes > 0,
    ensures
        offset_text(0) == "Z"@,
        offset_text(hours * 3600 + minutes * 60).len() == 6,
        offset_text(hours * 3600 + minutes * 60)[0] == '+',
        crate::text::digits_value(offset_text(hours * 3600 + minutes * 60).subrange(1, 3)) == hours,
        offset_text(hours * 3600 + minutes * 60)[3] == ':',
        crate::text::digits_value(offset_text(hours * 3600 + minutes * 60).subrange(4, 6)) == minutes,
        offset_text(-(hours * 3600 + minutes * 60)) == seq!['-'] + offset_text(
            hours * 3600 + minutes * 60,
        ).skip(1),
{
    reveal_strlit("+");
    reveal_strlit("-");
    reveal_strlit(":");
    let total = hours * 3600 + minutes * 60;
    assert(total / 3600 == hours);
    assert(total % 3600 / 60 == minutes);
    crate::atom::lemma_field(hours as nat, 2);
    crate::atom::lemma_field(minutes as nat, 2);
    let s = offset_text(total);
    let h = crate::atom::at_least_digits(hours as nat, 2);
    let m = crate::atom::at_least_digits(minutes as nat, 2);
    assert(s =~= "+"@ + h + ":"@ + m);
    assert(s.subrange(1, 3) =~= h);
    assert(s.subrange(4, 6) =~= m);
    assert(offset_text(-total) =~= seq!['-'] + s.skip(1));
}

/// A point in time is told like its second, then its fraction of a second and the offset of its clock.
pub proof fn time_is_told_with_its_clock(d: DateTime)
    requires
        0 <= d.date.year <= 9999,
        d.date.month < 100,
        d.date.day < 100,
        d.hour < 100,
        d.minute < 100,
        d.second < 100,
    ensures
        zoned_text(d) == crate::atom::utc_second(d).take(19) + fraction_text(d.nanosecond)
            + offset_text(d.offset_seconds as int),
{
    crate::atom::written_time_is_read_back(d);
    reveal_strlit("Z");
    let s = crate::atom::utc_second(d);
    let body = crate::atom::year_text(d.date.year as int) + "-"@ + crate::atom::at_least_digits(
        d.date.month as nat,
        2,
    ) + "-"@ + crate::atom::at_least_digits(d.date.day as nat, 2) + "T"@ + crate::atom::at_least_digits(
        d.hour as nat,
        2,
    ) + ":"@ + crate::atom::at_least_digits(d.minute as nat, 2) + ":"@ + crate::atom::at_least_digits(
        d.second as nat,
        2,
    );
    assert(s == body + "Z"@);
    assert(s.take(19) =~= body);
}

fn write_fraction(nanosecond: u32) -> (r: String)
    ensures
        r@ == fraction_text(nanosecond),
{
    if nanosecond == 0 {
        return String::new();
    }
    let mut digits: String = String::new();
    push_padded(&mut digits, nanosecond as u64, 9);
    assert(digits@ =~= crate::text::padded(nanosecond as nat, 9));
    let v: Vec<char> = crate::text::chars_of(digits.as_str());
    let mut n: usize = v.len();
    assert(v@.take(v@.len() as int) =~= v@);
    while n > 0 && v[n - 1] == '0'
        invariant
            n <= v.len(),
            without_trailing_zeros(v@) == without_trailing_zeros(v@.take(n as int)),
        decreases n,
    {
        assert(v@.take(n as int).drop_last() =~= v@.take(n as int - 1));
        n -= 1;
    }
    assert(n > 0 ==> v@.take(n as int).last() == v@[n as int - 1]);
    assert(v@.subrange(0, n as int) =~= v@.take(n as int));
    let mut r: String = ".".to_owned();
    r.append(crate::text::string_of(&v, 0, n).as_str());
    r
}

fn write_offset(seconds: i32) -> (r: String)
    ensures
        r@ == offset_text(seconds as int),
{
    if seconds == 0 {
        return "Z".to_owned();
    }
    let total: u64 = if seconds < 0 {
        (-(seconds as i64)) as u64
    } else {
        seconds as u64
    };
    let mut r: String = if seconds < 0 {
        "-".to_owned()
    } else {
        "+".to_owned()
    };
    push_at_least(&mut r, total / 3600, 2);
    r.append(":");
    push_at_least(&mut r, total % 3600 / 60, 2);
    r
}

/// Writes a point in time with the offset of its clock: the fraction of a second as far as there is
/// one, and `Z` for UTC.
pub fn format_zoned(d: &DateTime) -> (r: String)
    ensures
        r@ == zoned_text(*d),
{
    let mut r: String = String::new();
    crate::atom::push_year(&mut r, d.date.year);
    assert(r@ =~= crate::atom::year_text(d.date.year as int));
    r.append("-");
    push_at_least(&mut r, d.date.month as u64, 2);
    r.append("-");
    push_at_least(&mut r, d.date.day as u64, 2);
    r.append("T");
    push_at_least(&mut r, d.hour as u64, 2);
    r.append(":");
    push_at_least(&mut r, d.minute as u64, 2);
    r.append(":");
    push_at_least(&mut r, d.second as u64, 2);
    r.append(write_fraction(d.nanosecond).as_str());
    r.append(write_offset(d.offset_seconds).as_str());
    r
}

// ---- links ----

/// The address of a feed.
pub open spec fn feed_url(base: Seq<char>, path: Seq<char>) -> Seq<char> {
    base + "/opds/v2/"@ + path
}

/// Writes the address of a feed.
pub fn url_builder(base: &str, path: &str) -> (r: String)
    ensures
        r@ == feed_url(base@, path@),
{
    let mut r: String = base.to_owned();
    r.append("/opds/v2/");
    r.append(path);
    r
}

/// A text, unless it is blank.
pub fn non_empty(value: String) -> (r: Option<String>)
    ensures
        r == (if crate::text::is_blank(value@) {
            None::<String>
        } else {
            Some(value)
        }),
{
    if blank(value.as_str()) {
        None
    } else {
        Some(value)
    }
}

/// A link with a title, a relation and a type.
pub open spec fn full_link(title: Seq<char>, rel: Seq<char>, href: Seq<char>, type_: Seq<char>) -> WpLinkView {
    WpLinkView {
        title: Some(title),
        rel: Some(rel),
        href: Some(href),
        type_: Some(type_),
        templated: None,
    }
}

/// Makes a link with a title, a relation and a type.
pub fn wp_link(title: &str, rel: &str, href: String, type_: &str) -> (r: WPLinkDto)
    ensures
        r.deep_view() == full_link(title@, rel@, href@, type_@),
{
    WPLinkDto {
        title: Some(title.to_owned()),
        rel: Some(rel.to_owned()),
        href: Some(href),
        type_: Some(type_.to_owned()),
        templated: None,
    }
}

/// A link with a relation only.
pub open spec fn rel_link(rel: Seq<char>, href: Seq<char>) -> WpLinkView {
    WpLinkView { title: None, rel: Some(rel), href: Some(href), type_: None, templated: None }
}

fn link_with_rel(rel: &str, href: String) -> (r: WPLinkDto)
    ensures
        r.deep_view() == rel_link(rel@, href@),
{
    WPLinkDto {
        title: None,
        rel: Some(rel.to_owned()),
        href: Some(href),
        type_: None,
        templated: None,
    }
}

/// The link to the catalog.
pub open spec fn home_link(base: Seq<char>) -> WpLinkView {
    full_link("Home"@, "start"@, feed_url(base, "catalog"@), MEDIATYPE_OPDS_JSON@)
}

/// Links to the catalog.
pub fn link_start(base: &str) -> (r: WPLinkDto)
    ensures
        r.deep_view() == home_link(base@),
{
    wp_link("Home", "start", url_builder(base, "catalog"), MEDIATYPE_OPDS_JSON)
}

/// The link with which clients search.
pub open spec fn search_link(base: Seq<char>) -> WpLinkView {
    WpLinkView {
        templated: Some(true),
        ..full_link(
            "Search"@,
            "search"@,
            feed_url(base, "search"@) + "{?query}"@,
            MEDIATYPE_OPDS_JSON@,
        )
    }
}

/// Links to the search.
pub fn link_search(base: &str) -> (r: WPLinkDto)
    ensures
        r.deep_view() == search_link(base@),
{
    let mut href: String = url_builder(base, "search");
    href.append("{?query}");
    let mut r: WPLinkDto = wp_link("Search", "search", href, MEDIATYPE_OPDS_JSON);
    r.templated = Some(true);
    r
}

/// Links to the feed itself.
pub fn link_self_href(href: String) -> (r: WPLinkDto)
    ensures
        r.deep_view() == rel_link("self"@, href@),
{
    link_with_rel("self", href)
}

/// A link with a title and a type, to a feed further down.
pub open spec fn down_link(title: Seq<char>, href: Seq<char>) -> WpLinkView {
    WpLinkView {
        title: Some(title),
        rel: None,
        href: Some(href),
        type_: Some(MEDIATYPE_OPDS_JSON@),
        templated: None,
    }
}

fn link_down(title: &str, href: String) -> (r: WPLinkDto)
    ensures
        r.deep_view() == down_link(title@, href@),
{
    WPLinkDto {
        title: Some(title.to_owned()),
        rel: None,
        href: Some(href),
        type_: Some(MEDIATYPE_OPDS_JSON.to_owned()),
        templated: None,
    }
}

/// The number of items on a page. Pages of no size are taken to be of size one.
pub open spec fn page_size(size: u32) -> int {
    if size == 0 {
        1
    } else {
        size as int
    }
}

/// The number of pages of a list.
pub open spec fn pages_of(total: i64, size: u32) -> int {
    let s = page_size(size);
    if total <= 0 {
        0
    } else {
        total as int / s + (if total as int % s > 0 {
            1int
        } else {
            0int
        })
    }
}

/// The address of another page of a list.
pub open spec fn page_url(url: Seq<char>, page: nat) -> Seq<char> {
    url + "?page="@ + crate::text::decimal(page)
}

/// The links to the pages before and after a page, as far as there are any.
pub open spec fn page_links(url: Seq<char>, page: u32, size: u32, total: i64) -> Seq<WpLinkView> {
    (if page > 0 {
        seq![rel_link("previous"@, page_url(url, (page - 1) as nat))]
    } else {
        Seq::empty()
    }) + (if page + 1 < pages_of(total, size) {
        seq![rel_link("next"@, page_url(url, (page + 1) as nat))]
    } else {
        Seq::empty()
    })
}

fn write_page_url(url: &str, page: u64) -> (r: String)
    ensures
        r@ == page_url(url@, page as nat),
{
    let mut r: String = url.to_owned();
    r.append("?page=");
    push_decimal(&mut r, page);
    r
}

/// Links to the pages before and after a page of a list.
pub fn link_page(url: &str, page: u32, size: u32, total: i64) -> (r: Vec<WPLinkDto>)
    ensures
        r.deep_view() == page_links(url@, page, size, total),
{
    let s: u64 = if size == 0 { 1 } else { size as u64 };
    let pages: u64 = if total <= 0 {
        0
    } else {
        let t: u64 = total as u64;
        let q: u64 = t / s;
        proof {
            assert(q <= t) by (nonlinear_arith)
                requires
                    q == t / s,
                    s >= 1,
            ;
        }
        if t % s > 0 {
            q + 1
        } else {
            q
        }
    };
    let mut links: Vec<WPLinkDto> = Vec::new();
    assert(links.deep_view() =~= Seq::<WpLinkView>::empty());
    if page > 0 {
        links.push(link_with_rel("previous", write_page_url(url, page as u64 - 1)));
        assert(links.deep_view() =~= seq![
            rel_link("previous"@, page_url(url@, (page - 1) as nat)),
        ]);
    }
    let ghost sofar = links.deep_view();
    if page as u64 + 1 < pages {
        links.push(link_with_rel("next", write_page_url(url, page as u64 + 1)));
        assert(links.deep_view() =~= sofar.push(
            rel_link("next"@, page_url(url@, (page + 1) as nat)),
        ));
    }
    assert(links.deep_view() =~= page_links(url@, page, size, total));
    links
}

/// The link to the next page is there exactly if items are left behind this one.
pub proof fn next_page_iff_items_are_left(url: Seq<char>, page: u32, size: u32, total: i64)
    ensures
        page_links(url, page, size, total) == (if page > 0 {
            seq![rel_link("previous"@, page_url(url, (page - 1) as nat))]
        } else {
            Seq::empty()
        }) + (if (page + 1) * page_size(size) < total {
            seq![rel_link("next"@, page_url(url, (page + 1) as nat))]
        } else {
            Seq::empty()
        }),
{
    let s = page_size(size);
    let n = page + 1;
    if total <= 0 {
        assert(n * s >= 0) by (nonlinear_arith)
            requires
                n >= 0,
                s >= 0,
        ;
    } else {
        let q = total as int / s;
        let rest = total as int % s;
        vstd::arithmetic::div_mod::lemma_fundamental_div_mod(total as int, s);
        let pages = pages_of(total, size);
        assert(n < pages ==> n * s < total) by (nonlinear_arith)
            requires
                total == s * q + rest,
                0 <= rest < s,
                pages == q + (if rest > 0 {
                    1int
                } else {
                    0int
                }),
                n >= 0,
        ;
        assert(n * s < total ==> n < pages) by (nonlinear_arith)
            requires
                total == s * q + rest,
                0 <= rest < s,
                pages == q + (if rest > 0 {
                    1int
                } else {
                    0int
                }),
                n >= 0,
        ;
    }
}

// ---- signing in ----

/// How a user is asked to sign in.
#[derive(Debug, PartialEq, Eq)]
pub struct LabelsDto {
    pub login: Option<String>,
    pub password: Option<String>,
}

/// A way to sign in.
#[derive(Debug, PartialEq, Eq)]
pub struct AuthenticationFlowDto {
    pub type_: String,
    pub labels: Option<LabelsDto>,
    pub links: Vec<WPLinkDto>,
}

/// How to sign in.
#[derive(Debug, PartialEq, Eq)]
pub struct AuthenticationDocumentDto {
    pub authentication: Vec<AuthenticationFlowDto>,
    pub title: String,
    pub id: String,
    pub description: Option<String>,
    pub links: Vec<WPLinkDto>,
}

/// Tells how to sign in: with an email address and a password.
pub fn generate_opds_auth_document(base: &str) -> (r: AuthenticationDocumentDto)
    ensures
        r.authentication@.len() == 1,
        r.authentication@[0].type_@ == "http://opds-spec.org/auth/basic"@,
        r.authentication@[0].labels is Some,
        r.authentication@[0].labels->0.login.deep_view() == Some("Email"@),
        r.authentication@[0].labels->0.password.deep_view() == Some("Password"@),
        r.authentication@[0].links@.len() == 0,
        r.title@ == "Komga"@,
        r.id@ == feed_url(base@, "auth"@),
        r.description.deep_view() == Some("Enter your email and password to authenticate."@),
        r.links.deep_view() == seq![
            rel_link("help"@, "https://komga.org"@),
            rel_link("logo"@, base@ + "/android-chrome-512x512.png"@),
        ],
{
    let mut authentication: Vec<AuthenticationFlowDto> = Vec::new();
    authentication.push(
        AuthenticationFlowDto {
            type_: "http://opds-spec.org/auth/basic".to_owned(),
            labels: Some(
                LabelsDto {
                    login: Some("Email".to_owned()),
                    password: Some("Password".to_owned()),
                },
            ),
            links: Vec::new(),
        },
    );
    let mut logo: String = base.to_owned();
    logo.append("/android-chrome-512x512.png");
    let mut links: Vec<WPLinkDto> = Vec::new();
    links.push(link_with_rel("help", "https://komga.org".to_owned()));
    links.push(link_with_rel("logo", logo));
    assert(links.deep_view() =~= seq![links@[0].deep_view(), links@[1].deep_view()]);
    AuthenticationDocumentDto {
        authentication,
        title: "Komga".to_owned(),
        id: url_builder(base, "auth"),
        description: Some("Enter your email and password to authenticate.".to_owned()),
        links,
    }
}

/// The header that leads a client without credentials to the document on how to sign in.
pub fn auth_link_header(base: &str) -> (r: String)
    ensures
        r@ == "<"@ + base@
            + "/opds/v2/auth>; rel=\"http://opds-spec.org/auth/document\"; type=\"application/opds-authentication+json\""@,
{
    let mut r: String = "<".to_owned();
    r.append(base);
    r.append(
        "/opds/v2/auth>; rel=\"http://opds-spec.org/auth/document\"; type=\"application/opds-authentication+json\"",
    );
    r
}

// ---- metadata ----

/// Metadata with a title only.
pub open spec fn titled(title: Seq<char>) -> MetadataView {
    MetadataView {
        title,
        sub_title: None,
        type_: None,
        identifier: None,
        modified: None,
        description: None,
        items_per_page: None,
        current_page: None,
        number_of_items: None,
    }
}

/// Metadata of one page of a list. Pages count from one.
pub open spec fn titled_page(title: Seq<char>, page: u32, size: u32, total: i64) -> MetadataView {
    MetadataView {
        items_per_page: Some(size),
        current_page: Some((page + 1) as u32),
        number_of_items: Some(total),
        ..titled(title)
    }
}

fn metadata_titled(title: &str) -> (r: FeedMetadataDto)
    ensures
        r.deep_view() == titled(title@),
{
    FeedMetadataDto {
        title: title.to_owned(),
        sub_title: None,
        type_: None,
        identifier: None,
        modified: None,
        description: None,
        items_per_page: None,
        current_page: None,
        number_of_items: None,
    }
}

/// Makes the metadata of one page of a list.
pub fn feed_metadata_page(title: &str, page: u32, size: u32, total: i64) -> (r: FeedMetadataDto)
    requires
        page < u32::MAX,
    ensures
        r.deep_view() == titled_page(title@, page, size, total),
{
    let mut r: FeedMetadataDto = metadata_titled(title);
    r.items_per_page = Some(size);
    r.current_page = Some(page + 1);
    r.number_of_items = Some(total);
    r
}

// ---- places of the catalog ----

/// A library, as far as its feeds speak of it.
#[derive(Debug, PartialEq, Eq)]
pub struct LibraryRef {
    pub id: String,
    pub name: String,
    pub modified: DateTime,
}

/// Something that has a feed of its own.
#[derive(Debug, PartialEq, Eq)]
pub struct Target {
    pub id: String,
    pub title: String,
}

/// The kinds of things that have feeds of their own.
#[derive(Clone, Copy, Debug, PartialEq, Eq, Structural)]
pub enum TargetKind {
    Library,
    Series,
    Collection,
    ReadList,
}

/// Where the feeds of a kind are.
pub open spec fn kind_path(kind: TargetKind) -> Seq<char> {
    match kind {
        TargetKind::Library => "libraries/"@,
        TargetKind::Series => "series/"@,
        TargetKind::Collection => "collections/"@,
        TargetKind::ReadList => "readlists/"@,
    }
}

/// The address of the feed of one thing.
pub open spec fn target_url(base: Seq<char>, kind: TargetKind, id: Seq<char>) -> Seq<char> {
    feed_url(base, kind_path(kind) + id)
}

/// Links to the feeds of several things.
pub open spec fn target_links(base: Seq<char>, kind: TargetKind, v: Seq<Target>) -> Seq<WpLinkView> {
    Seq::new(v.len(), |i: int| down_link(v[i].title@, target_url(base, kind, v[i].id@)))
}

fn write_target_url(base: &str, kind: TargetKind, id: &str) -> (r: String)
    ensures
        r@ == target_url(base@, kind, id@),
{
    let mut path: String = match kind {
        TargetKind::Library => "libraries/".to_owned(),
        TargetKind::Series => "series/".to_owned(),
        TargetKind::Collection => "collections/".to_owned(),
        TargetKind::ReadList => "readlists/".to_owned(),
    };
    path.append(id);
    url_builder(base, path.as_str())
}

/// Links to the feeds of several things.
pub fn links_to(base: &str, kind: TargetKind, v: &Vec<Target>) -> (r: Vec<WPLinkDto>)
    ensures
        r.deep_view() == target_links(base@, kind, v@),
{
    let mut r: Vec<WPLinkDto> = Vec::new();
    let mut i: usize = 0;
    assert(r.deep_view() =~= target_links(base@, kind, v@).take(0));
    while i < v.len()
        invariant
            i <= v.len(),
            r.deep_view() == target_links(base@, kind, v@).take(i as int),
        decreases v.len() - i,
    {
        let ghost before = r.deep_view();
        let link: WPLinkDto = link_down(
            v[i].title.as_str(),
            write_target_url(base, kind, v[i].id.as_str()),
        );
        let ghost view = link.deep_view();
        r.push(link);
        assert(r.deep_view() =~= before.push(view));
        assert(r.deep_view() =~= target_links(base@, kind, v@).take(i as int + 1));
        i += 1;
    }
    assert(target_links(base@, kind, v@).take(v@.len() as int) =~= target_links(base@, kind, v@));
    r
}

/// The address of a feed of a library, or of all libraries.
pub open spec fn library_url(base: Seq<char>, library: Option<LibraryRef>, rest: Seq<char>) -> Seq<char> {
    feed_url(
        base,
        (match library {
            Some(l) => "libraries"@ + "/"@ + l.id@,
            None => "libraries"@,
        }) + rest,
    )
}

fn write_library_url(base: &str, library: &Option<LibraryRef>, rest: &str) -> (r: String)
    ensures
        r@ == library_url(base@, *library, rest@),
{
    let mut path: String = "libraries".to_owned();
    match library {
        Some(l) => {
            path.append("/");
            path.append(l.id.as_str());
        },
        None => {},
    }
    path.append(rest);
    url_builder(base, path.as_str())
}

/// What a feed of a library, or of all libraries, is called.
pub open spec fn library_name(library: Option<LibraryRef>) -> Seq<char> {
    match library {
        Some(l) => l.name@,
        None => "All libraries"@,
    }
}

/// When a feed of a library, or of all libraries, changed.
pub open spec fn library_modified(library: Option<LibraryRef>, now: DateTime) -> DateTime {
    match library {
        Some(l) => l.modified,
        None => now,
    }
}

fn write_library_title(library: &Option<LibraryRef>, rest: &str) -> (r: String)
    ensures
        r@ == library_name(*library) + rest@,
{
    let mut r: String = match library {
        Some(l) => l.name.clone(),
        None => "All libraries".to_owned(),
    };
    r.append(rest);
    r
}

fn modified_of(library: &Option<LibraryRef>, now: DateTime) -> (r: DateTime)
    ensures
        r == library_modified(*library, now),
{
    match library {
        Some(l) => l.modified,
        None => now,
    }
}

/// A link to a section of a library.
pub open spec fn section_link(title: Seq<char>, href: Seq<char>) -> WpLinkView {
    full_link(title, "subsection"@, href, MEDIATYPE_OPDS_JSON@)
}

/// The sections of a library, or of all libraries: collections and read lists only if there are
/// any.
pub open spec fn sections(
    base: Seq<char>,
    library: Option<LibraryRef>,
    has_collections: bool,
    has_read_lists: bool,
) -> Seq<WpLinkView> {
    seq![
        section_link("Recommended"@, library_url(base, library, ""@)),
        section_link("Browse"@, library_url(base, library, "/browse"@)),
    ] + (if has_collections {
        seq![section_link("Collections"@, library_url(base, library, "/collections"@))]
    } else {
        Seq::empty()
    }) + (if has_read_lists {
        seq![section_link("Read lists"@, library_url(base, library, "/readlists"@))]
    } else {
        Seq::empty()
    })
}

fn push_link(out: &mut Vec<WPLinkDto>, link: WPLinkDto)
    ensures
        final(out).deep_view() == old(out).deep_view().push(link.deep_view()),
{
    let ghost before = out.deep_view();
    let ghost view = link.deep_view();
    out.push(link);
    assert(out.deep_view() =~= before.push(view));
}

/// Links to the sections of a library, or of all libraries.
pub fn get_library_navigation(
    base: &str,
    library: &Option<LibraryRef>,
    has_collections: bool,
    has_read_lists: bool,
) -> (r: Vec<WPLinkDto>)
    ensures
        r.deep_view() == sections(base@, *library, has_collections, has_read_lists),
{
    let mut r: Vec<WPLinkDto> = Vec::new();
    assert(r.deep_view() =~= Seq::<WpLinkView>::empty());
    push_link(
        &mut r,
        wp_link("Recommended", "subsection", write_library_url(base, library, ""), MEDIATYPE_OPDS_JSON),
    );
    push_link(
        &mut r,
        wp_link("Browse", "subsection", write_library_url(base, library, "/browse"), MEDIATYPE_OPDS_JSON),
    );
    if has_collections {
        push_link(
            &mut r,
            wp_link(
                "Collections",
                "subsection",
                write_library_url(base, library, "/collections"),
                MEDIATYPE_OPDS_JSON,
            ),
        );
    }
    if has_read_lists {
        push_link(
            &mut r,
            wp_link(
                "Read lists",
                "subsection",
                write_library_url(base, library, "/readlists"),
                MEDIATYPE_OPDS_JSON,
            ),
        );
    }
    assert(r.deep_view() =~= sections(base@, *library, has_collections, has_read_lists));
    r
}

// ---- groups ----

/// A group with a title and links only.
pub open spec fn link_group<P>(title: Seq<char>, navigation: Seq<WpLinkView>) -> GroupView<P> {
    GroupView {
        metadata: titled(title),
        links: Seq::empty(),
        navigation,
        publications: Seq::empty(),
    }
}

fn group_of_links<P>(title: &str, navigation: Vec<WPLinkDto>) -> (r: FeedGroupDto<P>)
    ensures
        r.deep_view() == link_group::<P>(title@, navigation.deep_view()),
{
    let r: FeedGroupDto<P> = FeedGroupDto {
        metadata: metadata_titled(title),
        links: Vec::new(),
        navigation,
        publications: Vec::new(),
    };
    assert(r.deep_view() =~= link_group::<P>(title@, navigation.deep_view()));
    r
}

/// The group of all libraries.
pub open spec fn libraries_group<P>(base: Seq<char>, libraries: Seq<Target>) -> GroupView<P> {
    GroupView {
        links: seq![rel_link("self"@, feed_url(base, "libraries"@))],
        ..link_group("Libraries"@, target_links(base, TargetKind::Library, libraries))
    }
}

/// Groups the libraries that a user sees.
pub fn libraries_feed_group<P>(base: &str, libraries: &Vec<Target>) -> (r: FeedGroupDto<P>)
    ensures
        r.deep_view() == libraries_group::<P>(base@, libraries@),
{
    let mut r: FeedGroupDto<P> = group_of_links(
        "Libraries",
        links_to(base, TargetKind::Library, libraries),
    );
    r.links.push(link_self_href(url_builder(base, "libraries")));
    assert(r.deep_view() =~= libraries_group::<P>(base@, libraries@));
    r
}

/// Some of the items of a list, and how many there are in all.
#[derive(Debug, PartialEq, Eq)]
pub struct Found<T> {
    pub items: Vec<T>,
    pub total: i64,
}

/// A group of recommendations: the first page of a list, with a link to the list. No group where
/// there is nothing to show.
pub open spec fn recommended_group<P>(
    title: Seq<char>,
    href: Seq<char>,
    total: i64,
    navigation: Seq<WpLinkView>,
    publications: Seq<P>,
) -> Seq<GroupView<P>> {
    if navigation.len() == 0 && publications.len() == 0 {
        Seq::empty()
    } else {
        seq![
            GroupView {
                metadata: titled_page(title, 0, RECOMMENDED_ITEMS_NUMBER, total),
                links: seq![full_link(title, "self"@, href, MEDIATYPE_OPDS_JSON@)],
                navigation,
                publications,
            },
        ]
    }
}

fn push_recommended<P>(
    out: &mut Vec<FeedGroupDto<P>>,
    title: &str,
    href: String,
    total: i64,
    navigation: Vec<WPLinkDto>,
    publications: Vec<P>,
)
    ensures
        final(out).deep_view() == old(out).deep_view() + recommended_group(
            title@,
            href@,
            total,
            navigation.deep_view(),
            publications@,
        ),
{
    let ghost before = out.deep_view();
    let ghost shown = recommended_group(
        title@,
        href@,
        total,
        navigation.deep_view(),
        publications@,
    );
    if navigation.len() > 0 || publications.len() > 0 {
        let mut links: Vec<WPLinkDto> = Vec::new();
        links.push(wp_link(title, "self", href, MEDIATYPE_OPDS_JSON));
        assert(links.deep_view() =~= seq![
            full_link(title@, "self"@, href@, MEDIATYPE_OPDS_JSON@),
        ]);
        let group: FeedGroupDto<P> = FeedGroupDto {
            metadata: feed_metadata_page(title, 0, RECOMMENDED_ITEMS_NUMBER, total),
            links,
            navigation,
            publications,
        };
        assert(group.deep_view() == shown[0]);
        out.push(group);
        assert(out.deep_view() =~= before.push(shown[0]));
    }
    assert(out.deep_view() =~= before + shown);
}

/// A group with a title only, unless there is nothing to show.
pub open spec fn result_group<P>(
    title: Seq<char>,
    navigation: Seq<WpLinkView>,
    publications: Seq<P>,
) -> Seq<GroupView<P>> {
    if navigation.len() == 0 && publications.len() == 0 {
        Seq::empty()
    } else {
        seq![
            GroupView { metadata: titled(title), links: Seq::empty(), navigation, publications },
        ]
    }
}

fn push_results<P>(
    out: &mut Vec<FeedGroupDto<P>>,
    title: &str,
    navigation: Vec<WPLinkDto>,
    publications: Vec<P>,
)
    ensures
        final(out).deep_view() == old(out).deep_view() + result_group(
            title@,
            navigation.deep_view(),
            publications@,
        ),
{
    let ghost before = out.deep_view();
    let ghost shown = result_group(title@, navigation.deep_view(), publications@);
    if navigation.len() > 0 || publications.len() > 0 {
        let group: FeedGroupDto<P> = FeedGroupDto {
            metadata: metadata_titled(title),
            links: Vec::new(),
            navigation,
            publications,
        };
        assert(group.deep_view() =~= shown[0]);
        out.push(group);
        assert(out.deep_view() =~= before.push(shown[0]));
    }
    assert(out.deep_view() =~= before + shown);
}

// ---- what the feeds ask for ----

/// The condition to be in a library, if it is about one.
pub open spec fn book_in_library(library: Option<LibraryRef>) -> Seq<ConditionView<BookLeaf>> {
    match library {
        Some(l) => seq![ConditionView::Leaf(BookLeaf::LibraryId(l.id))],
        None => Seq::empty(),
    }
}

/// The condition to be in a library, if it is about one.
pub open spec fn series_in_library(library: Option<LibraryRef>) -> Seq<ConditionView<SeriesLeaf>> {
    match library {
        Some(l) => seq![ConditionView::Leaf(SeriesLeaf::LibraryId(l.id))],
        None => Seq::empty(),
    }
}

fn readable_in(library: &Option<LibraryRef>, in_progress: bool) -> (r: SearchConditionBook)
    ensures
        shape(r) == readable(
            book_in_library(*library) + (if in_progress {
                seq![ConditionView::Leaf(BookLeaf::ReadStatus(ReadStatus::InProgress))]
            } else {
                Seq::empty()
            }),
        ),
{
    let ghost wanted = readable(
        book_in_library(*library) + (if in_progress {
            seq![ConditionView::Leaf(BookLeaf::ReadStatus(ReadStatus::InProgress))]
        } else {
            Seq::empty()
        }),
    );
    let mut c: Vec<SearchConditionBook> = Vec::new();
    assert(shapes(c@) =~= Seq::<ConditionView<BookLeaf>>::empty());
    match library {
        Some(l) => {
            push_leaf(&mut c, BookLeaf::LibraryId(l.id.clone()));
        },
        None => {},
    }
    if in_progress {
        push_leaf(&mut c, BookLeaf::ReadStatus(ReadStatus::InProgress));
    }
    push_leaf(&mut c, BookLeaf::MediaStatus(MediaStatus::Ready));
    push_leaf(&mut c, BookLeaf::Deleted(false));
    assert(shapes(c@) =~= wanted->AllOf_0);
    all_of(c)
}

/// The books of a library, or of all, that the user has begun to read.
pub open spec fn keep_reading_condition(library: Option<LibraryRef>) -> ConditionView<BookLeaf> {
    readable(
        book_in_library(library) + seq![
            ConditionView::Leaf(BookLeaf::ReadStatus(ReadStatus::InProgress)),
        ],
    )
}

/// The series of a library, or of all, that are no books that stand alone.
pub open spec fn latest_series_condition(library: Option<LibraryRef>) -> ConditionView<SeriesLeaf> {
    ConditionView::AllOf(
        series_in_library(library) + seq![
            ConditionView::Leaf(SeriesLeaf::Deleted(false)),
            ConditionView::Leaf(SeriesLeaf::OneShot(false)),
        ],
    )
}

/// The series of a library, or of all, with the publishers that were chosen.
pub open spec fn browse_condition(library: Option<LibraryRef>, publishers: Seq<String>) -> ConditionView<
    SeriesLeaf,
> {
    ConditionView::AllOf(
        series_in_library(library) + of_publishers(publishers) + seq![
            ConditionView::Leaf(SeriesLeaf::Deleted(false)),
        ],
    )
}

/// The books of a series, with a tag if one was chosen.
pub open spec fn series_books_condition(series_id: String, tag: Option<String>) -> ConditionView<
    BookLeaf,
> {
    ConditionView::AllOf(
        seq![
            ConditionView::Leaf(BookLeaf::SeriesId(series_id)),
            ConditionView::Leaf(BookLeaf::MediaStatus(MediaStatus::Ready)),
            ConditionView::Leaf(BookLeaf::Deleted(false)),
        ] + (match tag {
            Some(t) => seq![ConditionView::Leaf(BookLeaf::Tag(t))],
            None => Seq::empty(),
        }),
    )
}

/// The series with every word of a search in the title.
pub open spec fn search_series_condition(terms: Seq<String>) -> ConditionView<SeriesLeaf> {
    ConditionView::AllOf(
        seq![
            ConditionView::Leaf(SeriesLeaf::OneShot(false)),
            ConditionView::Leaf(SeriesLeaf::Deleted(false)),
        ] + series_titled(terms),
    )
}

/// The books with every word of a search in the title.
pub open spec fn search_books_condition(terms: Seq<String>) -> ConditionView<BookLeaf> {
    ConditionView::AllOf(
        seq![ConditionView::Leaf(BookLeaf::Deleted(false))] + books_titled(terms),
    )
}

/// Whether a book is in a library; each is in the libraries taken together.
pub open spec fn is_in(library: Option<LibraryRef>, id: Seq<char>) -> bool {
    library is Some ==> id == library->0.id@
}

proof fn lemma_in_library(library: Option<LibraryRef>, b: BookFacts, s: SeriesFacts)
    ensures
        all_hold(book_in_library(library), of_book(b)) <==> is_in(library, b.library_id),
        all_hold(series_in_library(library), of_series(s)) <==> is_in(library, s.library_id),
{
    match library {
        Some(l) => {
            lemma_one(ConditionView::Leaf(BookLeaf::LibraryId(l.id)), of_book(b));
            lemma_one(ConditionView::Leaf(SeriesLeaf::LibraryId(l.id)), of_series(s));
        },
        None => {},
    }
}

/// The books to keep reading are those of the library that are in progress, ready to be read and not
/// deleted, and the latest books all of the library that are ready and not deleted.
pub proof fn recommended_books_are_readable(library: Option<LibraryRef>, b: BookFacts)
    ensures
        meets(keep_reading_condition(library), b) <==> is_in(library, b.library_id) && b.read_status
            == ReadStatus::InProgress && b.media_status == MediaStatus::Ready && !b.deleted,
        meets(readable(book_in_library(library)), b) <==> is_in(library, b.library_id)
            && b.media_status == MediaStatus::Ready && !b.deleted,
{
    let reading = ConditionView::Leaf(BookLeaf::ReadStatus(ReadStatus::InProgress));
    let any: SeriesFacts = arbitrary();
    lemma_in_library(library, b, any);
    lemma_readable(book_in_library(library), b);
    lemma_readable(book_in_library(library) + seq![reading], b);
    lemma_all_hold_add(book_in_library(library), seq![reading], of_book(b));
    lemma_one(reading, of_book(b));
}

/// The latest series are those of the library that are not deleted and are no books that stand alone.
pub proof fn latest_series_are_series(library: Option<LibraryRef>, s: SeriesFacts)
    ensures
        series_meets(latest_series_condition(library), s) <==> is_in(library, s.library_id)
            && !s.deleted && !s.one_shot,
{
    let leaf = of_series(s);
    let there = ConditionView::Leaf(SeriesLeaf::Deleted(false));
    let more = ConditionView::Leaf(SeriesLeaf::OneShot(false));
    let any: BookFacts = arbitrary();
    lemma_in_library(library, any, s);
    assert(seq![there, more] =~= seq![there] + seq![more]);
    lemma_all_hold_add(seq![there], seq![more], leaf);
    lemma_all_hold_add(series_in_library(library), seq![there, more], leaf);
    lemma_one(there, leaf);
    lemma_one(more, leaf);
}

/// Who browses is shown the series of the library that are not deleted and whose publisher is that
/// which was chosen, where one was.
pub proof fn browsing_shows_the_chosen(library: Option<LibraryRef>, publishers: Seq<String>, s: SeriesFacts)
    ensures
        series_meets(browse_condition(library, publishers), s) <==> is_in(library, s.library_id)
            && !s.deleted && forall|i: int|
            0 <= i < publishers.len() ==> s.publisher == (#[trigger] publishers[i])@,
{
    let leaf = of_series(s);
    let there = ConditionView::Leaf(SeriesLeaf::Deleted(false));
    let chosen = text_leaves(SeriesText::Publisher, publishers);
    let any: BookFacts = arbitrary();
    lemma_in_library(library, any, s);
    lemma_all_hold_add(series_in_library(library), of_publishers(publishers), leaf);
    lemma_all_hold_add(
        series_in_library(library) + of_publishers(publishers),
        seq![there],
        leaf,
    );
    lemma_one(there, leaf);
    lemma_leaves_hold(chosen, leaf);
    if publishers.len() > 0 {
        lemma_one(ConditionView::AllOf(leaves(chosen)), leaf);
    }
    if all_hold(of_publishers(publishers), leaf) {
        assert forall|i: int| 0 <= i < publishers.len() implies s.publisher == (
        #[trigger] publishers[i])@ by {
            assert(leaf(chosen[i]));
        }
    }
    if forall|i: int| 0 <= i < publishers.len() ==> s.publisher == (#[trigger] publishers[i])@ {
        assert forall|i: int| 0 <= i < chosen.len() implies leaf(#[trigger] chosen[i]) by {
            assert(s.publisher == publishers[i]@);
        }
    }
}

/// The feed of a series shows its books that are ready to be read and not deleted, and of those the
/// ones with the tag, where one was chosen.
pub proof fn series_feed_shows_its_books(series_id: String, tag: Option<String>, b: BookFacts)
    ensures
        meets(series_books_condition(series_id, tag), b) <==> b.series_id == series_id@
            && b.media_status == MediaStatus::Ready && !b.deleted && (tag is Some ==> b.tags.contains(
            tag->0@,
        )),
{
    let leaf = of_book(b);
    let of = ConditionView::Leaf(BookLeaf::SeriesId(series_id));
    let ready = ConditionView::Leaf(BookLeaf::MediaStatus(MediaStatus::Ready));
    let there = ConditionView::Leaf(BookLeaf::Deleted(false));
    let last: Seq<ConditionView<BookLeaf>> = match tag {
        Some(t) => seq![ConditionView::Leaf(BookLeaf::Tag(t))],
        None => Seq::empty(),
    };
    assert(seq![of, ready, there] =~= seq![of] + seq![ready] + seq![there]);
    lemma_all_hold_add(seq![of], seq![ready], leaf);
    lemma_all_hold_add(seq![of] + seq![ready], seq![there], leaf);
    lemma_all_hold_add(seq![of, ready, there], last, leaf);
    lemma_one(of, leaf);
    lemma_one(ready, leaf);
    lemma_one(there, leaf);
    if tag is Some {
        lemma_one(ConditionView::Leaf(BookLeaf::Tag(tag->0)), leaf);
    }
}

/// A search finds what has every word in the title and is not deleted; books that stand alone are
/// found as books, not as series.
pub proof fn search_finds_every_word(terms: Seq<String>, b: BookFacts, s: SeriesFacts)
    ensures
        meets(search_books_condition(terms), b) <==> !b.deleted && forall|i: int|
            0 <= i < terms.len() ==> (b.title_contains)((#[trigger] terms[i])@),
        series_meets(search_series_condition(terms), s) <==> !s.deleted && !s.one_shot && forall|
            i: int,
        |
            0 <= i < terms.len() ==> (s.title_contains)((#[trigger] terms[i])@),
{
    let book = of_book(b);
    let series = of_series(s);
    let there = ConditionView::Leaf(BookLeaf::Deleted(false));
    let more = ConditionView::Leaf(SeriesLeaf::OneShot(false));
    let also = ConditionView::Leaf(SeriesLeaf::Deleted(false));
    lemma_all_hold_add(seq![there], books_titled(terms), book);
    lemma_one(there, book);
    assert(seq![more, also] =~= seq![more] + seq![also]);
    lemma_all_hold_add(seq![more], seq![also], series);
    lemma_all_hold_add(seq![more, also], series_titled(terms), series);
    lemma_one(more, series);
    lemma_one(also, series);
    lemma_all_hold(books_titled(terms), book);
    lemma_all_hold(series_titled(terms), series);
    assert forall|i: int| 0 <= i < terms.len() implies holds(
        #[trigger] books_titled(terms)[i],
        book,
    ) == (b.title_contains)(terms[i]@) by {}
    assert forall|i: int| 0 <= i < terms.len() implies holds(
        #[trigger] series_titled(terms)[i],
        series,
    ) == (s.title_contains)(terms[i]@) by {}
    if all_hold(books_titled(terms), book) {
        assert forall|i: int| 0 <= i < terms.len() implies (b.title_contains)(
            (#[trigger] terms[i])@,
        ) by {
            assert(holds(books_titled(terms)[i], book));
        }
    }
    if all_hold(series_titled(terms), series) {
        assert forall|i: int| 0 <= i < terms.len() implies (s.title_contains)(
            (#[trigger] terms[i])@,
        ) by {
            assert(holds(series_titled(terms)[i], series));
        }
    }
}

/// The books of a library, or of all, that the user has begun to read, by when they did so last.
pub fn keep_reading_query(library: &Option<LibraryRef>) -> (r: BookQuery)
    ensures
        shape(r.condition) == keep_reading_condition(*library),
        r.sort.deep_view() == sorted_on("readProgress.readDate"@, true),
        r.sort.deep_view() == crate::opds_v1::book_feed_sort(BookFeed::KeepReading),
        forall|b: BookFacts| #[trigger]
            meets(shape(r.condition), b) <==> is_in(*library, b.library_id) && b.read_status
                == ReadStatus::InProgress && b.media_status == MediaStatus::Ready && !b.deleted,
{
    proof {
        assert forall|b: BookFacts| #[trigger]
            meets(keep_reading_condition(*library), b) <==> is_in(*library, b.library_id)
                && b.read_status == ReadStatus::InProgress && b.media_status == MediaStatus::Ready
                && !b.deleted by {
            recommended_books_are_readable(*library, b);
        }
    }
    BookQuery {
        condition: readable_in(library, true),
        sort: sort_by("readProgress.readDate", true),
    }
}

/// The books of a library, or of all, the latest first.
pub fn latest_books_query(library: &Option<LibraryRef>) -> (r: BookQuery)
    ensures
        shape(r.condition) == readable(book_in_library(*library)),
        r.sort.deep_view() == sorted_on("createdDate"@, true),
        r.sort.deep_view() == crate::opds_v1::book_feed_sort(BookFeed::Latest),
        forall|b: BookFacts| #[trigger]
            meets(shape(r.condition), b) <==> is_in(*library, b.library_id) && b.media_status
                == MediaStatus::Ready && !b.deleted,
{
    proof {
        assert forall|b: BookFacts| #[trigger]
            meets(readable(book_in_library(*library)), b) <==> is_in(*library, b.library_id)
                && b.media_status == MediaStatus::Ready && !b.deleted by {
            recommended_books_are_readable(*library, b);
        }
    }
    assert(book_in_library(*library) + Seq::empty() =~= book_in_library(*library));
    BookQuery { condition: readable_in(library, false), sort: sort_by("createdDate", true) }
}

/// The series of a library, or of all, that were changed last. Books that stand alone are no
/// series.
pub fn latest_series_query(library: &Option<LibraryRef>) -> (r: SeriesQuery)
    ensures
        shape(r.condition) == latest_series_condition(*library),
        r.sort.deep_view() == sorted_on("lastModified"@, true),
        r.sort.deep_view() == crate::opds_v1::series_feed_sort(SeriesFeed::Latest),
        forall|s: SeriesFacts| #[trigger]
            series_meets(shape(r.condition), s) <==> is_in(*library, s.library_id) && !s.deleted
                && !s.one_shot,
{
    proof {
        assert forall|s: SeriesFacts| #[trigger]
            series_meets(latest_series_condition(*library), s) <==> is_in(*library, s.library_id)
                && !s.deleted && !s.one_shot by {
            latest_series_are_series(*library, s);
        }
    }
    let mut c: Vec<SearchConditionSeries> = Vec::new();
    assert(shapes(c@) =~= Seq::<ConditionView<SeriesLeaf>>::empty());
    match library {
        Some(l) => {
            push_leaf(&mut c, SeriesLeaf::LibraryId(l.id.clone()));
        },
        None => {},
    }
    push_leaf(&mut c, SeriesLeaf::Deleted(false));
    push_leaf(&mut c, SeriesLeaf::OneShot(false));
    assert(shapes(c@) =~= series_in_library(*library) + seq![
        ConditionView::Leaf(SeriesLeaf::Deleted(false)),
        ConditionView::Leaf(SeriesLeaf::OneShot(false)),
    ]);
    SeriesQuery { condition: all_of(c), sort: sort_by("lastModified", true) }
}

/// The condition to have every one of several publishers; none if there are none.
pub open spec fn of_publishers(publishers: Seq<String>) -> Seq<ConditionView<SeriesLeaf>> {
    if publishers.len() == 0 {
        Seq::empty()
    } else {
        seq![ConditionView::AllOf(leaves(text_leaves(SeriesText::Publisher, publishers)))]
    }
}

/// The series of a library, or of all, by title.
pub fn browse_query(library: &Option<LibraryRef>, publishers: &Vec<String>) -> (r: SeriesQuery)
    ensures
        shape(r.condition) == browse_condition(*library, publishers@),
        r.sort.deep_view() == sorted_on("metadata.titleSort"@, false),
        *library is Some ==> r.sort.deep_view() == crate::opds_v1::series_feed_sort(
            SeriesFeed::OfLibrary(library->0.id),
        ),
        forall|s: SeriesFacts| #[trigger]
            series_meets(shape(r.condition), s) <==> is_in(*library, s.library_id) && !s.deleted
                && forall|i: int|
                0 <= i < publishers@.len() ==> s.publisher == (#[trigger] publishers@[i])@,
{
    proof {
        assert forall|s: SeriesFacts| #[trigger]
            series_meets(browse_condition(*library, publishers@), s) <==> is_in(
                *library,
                s.library_id,
            ) && !s.deleted && forall|i: int|
                0 <= i < publishers@.len() ==> s.publisher == (#[trigger] publishers@[i])@ by {
            browsing_shows_the_chosen(*library, publishers@, s);
        }
    }
    let mut c: Vec<SearchConditionSeries> = Vec::new();
    assert(shapes(c@) =~= Seq::<ConditionView<SeriesLeaf>>::empty());
    match library {
        Some(l) => {
            push_leaf(&mut c, SeriesLeaf::LibraryId(l.id.clone()));
        },
        None => {},
    }
    if publishers.len() > 0 {
        let ghost before = c@;
        let every: SearchConditionSeries = all_of(
            leaf_conditions(series_text_leaves(SeriesText::Publisher, publishers)),
        );
        c.push(every);
        assert(shapes(c@) =~= shapes(before).push(shape(every)));
    }
    push_leaf(&mut c, SeriesLeaf::Deleted(false));
    assert(shapes(c@) =~= series_in_library(*library) + of_publishers(publishers@) + seq![
        ConditionView::Leaf(SeriesLeaf::Deleted(false)),
    ]);
    SeriesQuery { condition: all_of(c), sort: sort_by("metadata.titleSort", false) }
}

/// The books of a series, by number, with a tag if one was chosen.
pub fn series_books_query(series_id: &String, tag: &Option<String>) -> (r: BookQuery)
    ensures
        shape(r.condition) == series_books_condition(*series_id, *tag),
        r.sort.deep_view() == sorted_on("metadata.numberSort"@, false),
        r.sort.deep_view() == crate::opds_v1::book_feed_sort(BookFeed::OfSeries(*series_id)),
        forall|b: BookFacts| #[trigger]
            meets(shape(r.condition), b) <==> b.series_id == series_id@ && b.media_status
                == MediaStatus::Ready && !b.deleted && (*tag is Some ==> b.tags.contains(tag->0@)),
{
    proof {
        assert forall|b: BookFacts| #[trigger]
            meets(series_books_condition(*series_id, *tag), b) <==> b.series_id == series_id@
                && b.media_status == MediaStatus::Ready && !b.deleted && (*tag is Some
                ==> b.tags.contains(tag->0@)) by {
            series_feed_shows_its_books(*series_id, *tag, b);
        }
    }
    let mut c: Vec<SearchConditionBook> = Vec::new();
    assert(shapes(c@) =~= Seq::<ConditionView<BookLeaf>>::empty());
    push_leaf(&mut c, BookLeaf::SeriesId(series_id.clone()));
    push_leaf(&mut c, BookLeaf::MediaStatus(MediaStatus::Ready));
    push_leaf(&mut c, BookLeaf::Deleted(false));
    match tag {
        Some(t) => {
            push_leaf(&mut c, BookLeaf::Tag(t.clone()));
        },
        None => {},
    }
    assert(shapes(c@) =~= seq![
        ConditionView::Leaf(BookLeaf::SeriesId(*series_id)),
        ConditionView::Leaf(BookLeaf::MediaStatus(MediaStatus::Ready)),
        ConditionView::Leaf(BookLeaf::Deleted(false)),
    ] + (match *tag {
        Some(t) => seq![ConditionView::Leaf(BookLeaf::Tag(t))],
        None => Seq::empty(),
    }));
    BookQuery { condition: all_of(c), sort: sort_by("metadata.numberSort", false) }
}

/// The words of a search.
pub fn query_terms(query: &Option<String>) -> (r: Vec<String>)
    ensures
        r.deep_view() == (match *query {
            Some(q) => crate::text::words(q@),
            None => Seq::empty(),
        }),
{
    match query {
        Some(q) => split_words(q.as_str()),
        None => {
            let r: Vec<String> = Vec::new();
            assert(r.deep_view() =~= Seq::<Seq<char>>::empty());
            r
        },
    }
}

/// The conditions to have each of several words in the title.
pub open spec fn series_titled(terms: Seq<String>) -> Seq<ConditionView<SeriesLeaf>> {
    Seq::new(terms.len(), |i: int| ConditionView::Leaf(SeriesLeaf::TitleContains(terms[i])))
}

/// The conditions to have each of several words in the title.
pub open spec fn books_titled(terms: Seq<String>) -> Seq<ConditionView<BookLeaf>> {
    Seq::new(terms.len(), |i: int| ConditionView::Leaf(BookLeaf::TitleContains(terms[i])))
}

/// The series that a search finds: those with every word in the title, the most relevant first.
pub fn search_series_query(terms: &Vec<String>) -> (r: SeriesQuery)
    ensures
        shape(r.condition) == search_series_condition(terms@),
        r.sort.deep_view() == sorted_on("relevance"@, false),
        r.sort.deep_view() == crate::search::requested_or_relevance(Seq::empty(), true),
        forall|s: SeriesFacts| #[trigger]
            series_meets(shape(r.condition), s) <==> !s.deleted && !s.one_shot && forall|i: int|
                0 <= i < terms@.len() ==> (s.title_contains)((#[trigger] terms@[i])@),
{
    proof {
        assert forall|s: SeriesFacts| #[trigger]
            series_meets(search_series_condition(terms@), s) <==> !s.deleted && !s.one_shot
                && forall|i: int|
                0 <= i < terms@.len() ==> (s.title_contains)((#[trigger] terms@[i])@) by {
            search_finds_every_word(terms@, arbitrary(), s);
        }
    }
    let mut c: Vec<SearchConditionSeries> = Vec::new();
    assert(shapes(c@) =~= Seq::<ConditionView<SeriesLeaf>>::empty());
    push_leaf(&mut c, SeriesLeaf::OneShot(false));
    push_leaf(&mut c, SeriesLeaf::Deleted(false));
    let ghost first = seq![
        ConditionView::Leaf(SeriesLeaf::OneShot(false)),
        ConditionView::Leaf(SeriesLeaf::Deleted(false)),
    ];
    let mut i: usize = 0;
    assert(shapes(c@) =~= first + series_titled(terms@).take(0));
    while i < terms.len()
        invariant
            i <= terms.len(),
            shapes(c@) == first + series_titled(terms@).take(i as int),
        decreases terms.len() - i,
    {
        push_leaf(&mut c, SeriesLeaf::TitleContains(terms[i].clone()));
        assert(shapes(c@) =~= first + series_titled(terms@).take(i as int + 1));
        i += 1;
    }
    assert(series_titled(terms@).take(terms@.len() as int) =~= series_titled(terms@));
    SeriesQuery { condition: all_of(c), sort: sort_by("relevance", false) }
}

/// The books that a search finds: those with every word in the title, the most relevant first.
pub fn search_books_query(terms: &Vec<String>) -> (r: BookQuery)
    ensures
        shape(r.condition) == search_books_condition(terms@),
        r.sort.deep_view() == sorted_on("relevance"@, false),
        r.sort.deep_view() == crate::search::requested_or_relevance(Seq::empty(), true),
        forall|b: BookFacts| #[trigger]
            meets(shape(r.condition), b) <==> !b.deleted && forall|i: int|
                0 <= i < terms@.len() ==> (b.title_contains)((#[trigger] terms@[i])@),
{
    proof {
        assert forall|b: BookFacts| #[trigger]
            meets(search_books_condition(terms@), b) <==> !b.deleted && forall|i: int|
                0 <= i < terms@.len() ==> (b.title_contains)((#[trigger] terms@[i])@) by {
            search_finds_every_word(terms@, b, arbitrary());
        }
    }
    let mut c: Vec<SearchConditionBook> = Vec::new();
    assert(shapes(c@) =~= Seq::<ConditionView<BookLeaf>>::empty());
    push_leaf(&mut c, BookLeaf::Deleted(false));
    let ghost first = seq![ConditionView::Leaf(BookLeaf::Deleted(false))];
    let mut i: usize = 0;
    assert(shapes(c@) =~= first + books_titled(terms@).take(0));
    while i < terms.len()
        invariant
            i <= terms.len(),
            shapes(c@) == first + books_titled(terms@).take(i as int),
        decreases terms.len() - i,
    {
        push_leaf(&mut c, BookLeaf::TitleContains(terms[i].clone()));
        assert(shapes(c@) =~= first + books_titled(terms@).take(i as int + 1));
        i += 1;
    }
    assert(books_titled(terms@).take(terms@.len() as int) =~= books_titled(terms@));
    BookQuery { condition: all_of(c), sort: sort_by("relevance", false) }
}

// ---- feeds ----

/// The links that feeds begin with: to themselves, to the catalog, and to the search.
pub open spec fn common_links(base: Seq<char>, url: Seq<char>) -> Seq<WpLinkView> {
    seq![rel_link("self"@, url), home_link(base), search_link(base)]
}

fn write_common_links(base: &str, url: String) -> (r: Vec<WPLinkDto>)
    ensures
        r.deep_view() == common_links(base@, url@),
{
    let mut r: Vec<WPLinkDto> = Vec::new();
    assert(r.deep_view() =~= Seq::<WpLinkView>::empty());
    push_link(&mut r, link_self_href(url));
    push_link(&mut r, link_start(base));
    push_link(&mut r, link_search(base));
    assert(r.deep_view() =~= common_links(base@, url@));
    r
}

/// The page of a list that a feed shows.
#[derive(Debug, PartialEq, Eq)]
pub struct FeedPage {
    pub page: u32,
    pub size: u32,
    pub total: i64,
}

/// A feed that shows one page of a list, with nothing on it yet.
pub open spec fn page_feed<P>(
    base: Seq<char>,
    url: Seq<char>,
    title: Seq<char>,
    modified: DateTime,
    at: FeedPage,
) -> FeedView<P> {
    FeedView {
        metadata: MetadataView {
            modified: Some(modified),
            ..titled_page(title, at.page, at.size, at.total)
        },
        links: common_links(base, url) + page_links(url, at.page, at.size, at.total),
        navigation: Seq::empty(),
        facets: Seq::empty(),
        groups: Seq::empty(),
        publications: Seq::empty(),
    }
}

fn feed_of_page<P>(base: &str, url: String, title: &str, modified: DateTime, at: &FeedPage) -> (r:
    FeedDto<P>)
    requires
        at.page < u32::MAX,
    ensures
        r.deep_view() == page_feed::<P>(base@, url@, title@, modified, *at),
{
    let mut more: Vec<WPLinkDto> = link_page(url.as_str(), at.page, at.size, at.total);
    let mut links: Vec<WPLinkDto> = write_common_links(base, url);
    let ghost first = links.deep_view();
    let ghost second = more.deep_view();
    links.append(&mut more);
    assert(links.deep_view() =~= first + second);
    let mut metadata: FeedMetadataDto = feed_metadata_page(title, at.page, at.size, at.total);
    metadata.modified = Some(modified);
    let r: FeedDto<P> = FeedDto {
        metadata,
        links,
        navigation: Vec::new(),
        facets: Vec::new(),
        groups: Vec::new(),
        publications: Vec::new(),
    };
    assert(r.deep_view() =~= page_feed::<P>(base@, url@, title@, modified, *at));
    r
}

/// What a library, or all of them, recommend.
#[derive(Debug, PartialEq, Eq)]
pub struct Recommended<P> {
    pub libraries: Vec<Target>,
    pub keep_reading: Found<P>,
    pub on_deck: Found<P>,
    pub latest_books: Found<P>,
    pub latest_series: Found<Target>,
}

/// The groups of recommendations. The libraries are shown only where the feed is about all of
/// them.
pub open spec fn recommended_groups<P>(
    base: Seq<char>,
    library: Option<LibraryRef>,
    r: Recommended<P>,
) -> Seq<GroupView<P>> {
    (if library is None {
        seq![libraries_group(base, r.libraries@)]
    } else {
        Seq::empty()
    }) + recommended_group(
        "Keep Reading"@,
        library_url(base, library, "/keep-reading"@),
        r.keep_reading.total,
        Seq::empty(),
        r.keep_reading.items@,
    ) + recommended_group(
        "On Deck"@,
        library_url(base, library, "/on-deck"@),
        r.on_deck.total,
        Seq::empty(),
        r.on_deck.items@,
    ) + recommended_group(
        "Latest Books"@,
        library_url(base, library, "/books/latest"@),
        r.latest_books.total,
        Seq::empty(),
        r.latest_books.items@,
    ) + recommended_group(
        "Latest Series"@,
        library_url(base, library, "/series/latest"@),
        r.latest_series.total,
        target_links(base, TargetKind::Series, r.latest_series.items@),
        Seq::empty(),
    )
}

fn no_links() -> (r: Vec<WPLinkDto>)
    ensures
        r.deep_view() == Seq::<WpLinkView>::empty(),
{
    let r: Vec<WPLinkDto> = Vec::new();
    assert(r.deep_view() =~= Seq::<WpLinkView>::empty());
    r
}

/// The feed of what a library, or all of them, recommend.
pub open spec fn recommended_feed<P>(
    base: Seq<char>,
    library: Option<LibraryRef>,
    now: DateTime,
    navigation: Seq<WpLinkView>,
    r: Recommended<P>,
) -> FeedView<P> {
    FeedView {
        metadata: MetadataView {
            modified: Some(library_modified(library, now)),
            ..titled(library_name(library) + " - Recommended"@)
        },
        links: common_links(base, library_url(base, library, ""@)),
        navigation,
        facets: Seq::empty(),
        groups: recommended_groups(base, library, r),
        publications: Seq::empty(),
    }
}

/// Makes the feed of what a library, or all of them, recommend.
pub fn libraries_recommended<P>(
    base: &str,
    library: &Option<LibraryRef>,
    now: DateTime,
    navigation: Vec<WPLinkDto>,
    recommended: Recommended<P>,
) -> (r: FeedDto<P>)
    ensures
        r.deep_view() == recommended_feed(
            base@,
            *library,
            now,
            navigation.deep_view(),
            recommended,
        ),
{
    let ghost shown = recommended_groups(base@, *library, recommended);
    let mut groups: Vec<FeedGroupDto<P>> = Vec::new();
    assert(groups.deep_view() =~= Seq::<GroupView<P>>::empty());
    match library {
        None => {
            groups.push(libraries_feed_group(base, &recommended.libraries));
            assert(groups.deep_view() =~= seq![
                libraries_group::<P>(base@, recommended.libraries@),
            ]);
        },
        Some(_) => {},
    }
    let series: Vec<WPLinkDto> = links_to(base, TargetKind::Series, &recommended.latest_series.items);
    push_recommended(
        &mut groups,
        "Keep Reading",
        write_library_url(base, library, "/keep-reading"),
        recommended.keep_reading.total,
        no_links(),
        recommended.keep_reading.items,
    );
    push_recommended(
        &mut groups,
        "On Deck",
        write_library_url(base, library, "/on-deck"),
        recommended.on_deck.total,
        no_links(),
        recommended.on_deck.items,
    );
    push_recommended(
        &mut groups,
        "Latest Books",
        write_library_url(base, library, "/books/latest"),
        recommended.latest_books.total,
        no_links(),
        recommended.latest_books.items,
    );
    push_recommended(
        &mut groups,
        "Latest Series",
        write_library_url(base, library, "/series/latest"),
        recommended.latest_series.total,
        series,
        Vec::new(),
    );
    assert(groups.deep_view() == shown);
    let mut metadata: FeedMetadataDto = metadata_titled(
        write_library_title(library, " - Recommended").as_str(),
    );
    metadata.modified = Some(modified_of(library, now));
    let r: FeedDto<P> = FeedDto {
        metadata,
        links: write_common_links(base, write_library_url(base, library, "")),
        navigation,
        facets: Vec::new(),
        groups,
        publications: Vec::new(),
    };
    assert(r.facets.deep_view() =~= Seq::<FacetView>::empty());
    r
}

/// The lists of a library, or of all of them.
#[derive(Clone, Copy, Debug, PartialEq, Eq, Structural)]
pub enum ListKind {
    KeepReading,
    OnDeck,
    LatestBooks,
    LatestSeries,
}

/// Where a list is.
pub open spec fn list_path(kind: ListKind) -> Seq<char> {
    match kind {
        ListKind::KeepReading => "/keep-reading"@,
        ListKind::OnDeck => "/on-deck"@,
        ListKind::LatestBooks => "/books/latest"@,
        ListKind::LatestSeries => "/series/latest"@,
    }
}

/// What a list is called, after the library.
pub open spec fn list_title(kind: ListKind) -> Seq<char> {
    match kind {
        ListKind::KeepReading => " - Keep Reading"@,
        ListKind::OnDeck => " - On Deck"@,
        ListKind::LatestBooks => " - Latest Books"@,
        ListKind::LatestSeries => " - Latest Series"@,
    }
}

/// What fills a list.
#[derive(Debug, PartialEq, Eq)]
pub enum ListQuery {
    Books(BookQuery),
    Series(SeriesQuery),
    /// The books that come next in series that the user reads.
    OnDeck,
}

/// Makes the search that fills a list. The books that a user has begun to read are those of all
/// libraries.
pub fn list_query(kind: ListKind, library: &Option<LibraryRef>) -> (r: ListQuery)
    ensures
        match kind {
            ListKind::KeepReading => r is Books && shape(r->Books_0.condition) == readable(
                seq![ConditionView::Leaf(BookLeaf::ReadStatus(ReadStatus::InProgress))],
            ) && r->Books_0.sort.deep_view() == sorted_on("readProgress.readDate"@, true),
            ListKind::OnDeck => r is OnDeck,
            ListKind::LatestBooks => r is Books && shape(r->Books_0.condition) == readable(
                book_in_library(*library),
            ) && r->Books_0.sort.deep_view() == sorted_on("createdDate"@, true),
            ListKind::LatestSeries => r is Series && shape(r->Series_0.condition)
                == latest_series_condition(*library) && r->Series_0.sort.deep_view() == sorted_on(
                "lastModified"@,
                true,
            ),
        },
        kind == ListKind::KeepReading ==> r is Books && forall|b: BookFacts| #[trigger]
            meets(shape(r->Books_0.condition), b) <==> b.read_status == ReadStatus::InProgress
                && b.media_status == MediaStatus::Ready && !b.deleted,
        kind == ListKind::LatestBooks ==> r is Books && forall|b: BookFacts| #[trigger]
            meets(shape(r->Books_0.condition), b) <==> is_in(*library, b.library_id)
                && b.media_status == MediaStatus::Ready && !b.deleted,
        kind == ListKind::LatestSeries ==> r is Series && forall|s: SeriesFacts| #[trigger]
            series_meets(shape(r->Series_0.condition), s) <==> is_in(*library, s.library_id)
                && !s.deleted && !s.one_shot,
        kind == ListKind::KeepReading ==> r->Books_0.sort.deep_view()
            == crate::opds_v1::book_feed_sort(BookFeed::KeepReading),
        kind == ListKind::LatestBooks ==> r->Books_0.sort.deep_view()
            == crate::opds_v1::book_feed_sort(BookFeed::Latest),
        kind == ListKind::LatestSeries ==> r->Series_0.sort.deep_view()
            == crate::opds_v1::series_feed_sort(SeriesFeed::Latest),
{
    match kind {
        ListKind::KeepReading => {
            let reading: BookQuery = keep_reading_query(&None);
            assert(book_in_library(None) + seq![
                ConditionView::Leaf(BookLeaf::ReadStatus(ReadStatus::InProgress)),
            ] =~= seq![ConditionView::Leaf(BookLeaf::ReadStatus(ReadStatus::InProgress))]);
            ListQuery::Books(reading)
        },
        ListKind::OnDeck => ListQuery::OnDeck,
        ListKind::LatestBooks => ListQuery::Books(latest_books_query(library)),
        ListKind::LatestSeries => ListQuery::Series(latest_series_query(library)),
    }
}

/// The feed of a list: books are shown as publications, series as links.
pub open spec fn list_view<P>(
    kind: ListKind,
    base: Seq<char>,
    library: Option<LibraryRef>,
    now: DateTime,
    at: FeedPage,
    books: Seq<P>,
    series: Seq<Target>,
) -> FeedView<P> {
    let feed = page_feed::<P>(
        base,
        library_url(base, library, list_path(kind)),
        library_name(library) + list_title(kind),
        library_modified(library, now),
        at,
    );
    if kind == ListKind::LatestSeries {
        FeedView { navigation: target_links(base, TargetKind::Series, series), ..feed }
    } else {
        FeedView { publications: books, ..feed }
    }
}

/// Makes the feed of a list.
pub fn list_feed<P>(
    kind: ListKind,
    base: &str,
    library: &Option<LibraryRef>,
    now: DateTime,
    at: &FeedPage,
    books: Vec<P>,
    series: &Vec<Target>,
) -> (r: FeedDto<P>)
    requires
        at.page < u32::MAX,
    ensures
        r.deep_view() == list_view(kind, base@, *library, now, *at, books@, series@),
{
    let path: &str = match kind {
        ListKind::KeepReading => "/keep-reading",
        ListKind::OnDeck => "/on-deck",
        ListKind::LatestBooks => "/books/latest",
        ListKind::LatestSeries => "/series/latest",
    };
    let title: &str = match kind {
        ListKind::KeepReading => " - Keep Reading",
        ListKind::OnDeck => " - On Deck",
        ListKind::LatestBooks => " - Latest Books",
        ListKind::LatestSeries => " - Latest Series",
    };
    let mut r: FeedDto<P> = feed_of_page(
        base,
        write_library_url(base, library, path),
        write_library_title(library, title).as_str(),
        modified_of(library, now),
        at,
    );
    match kind {
        ListKind::LatestSeries => {
            r.navigation = links_to(base, TargetKind::Series, series);
        },
        _ => {
            r.publications = books;
        },
    }
    r
}

/// The links to what each publisher published.
pub open spec fn publisher_links(url: Seq<char>, publishers: Seq<String>) -> Seq<WpLinkView> {
    Seq::new(
        publishers.len(),
        |i: int| down_link(publishers[i]@, url + "?publisher="@ + publishers[i]@),
    )
}

fn links_to_publishers(url: &str, publishers: &Vec<String>) -> (r: Vec<WPLinkDto>)
    ensures
        r.deep_view() == publisher_links(url@, publishers@),
{
    let mut r: Vec<WPLinkDto> = Vec::new();
    let mut i: usize = 0;
    assert(r.deep_view() =~= publisher_links(url@, publishers@).take(0));
    while i < publishers.len()
        invariant
            i <= publishers.len(),
            r.deep_view() == publisher_links(url@, publishers@).take(i as int),
        decreases publishers.len() - i,
    {
        let mut href: String = url.to_owned();
        href.append("?publisher=");
        href.append(publishers[i].as_str());
        push_link(&mut r, link_down(publishers[i].as_str(), href));
        assert(r.deep_view() =~= publisher_links(url@, publishers@).take(i as int + 1));
        i += 1;
    }
    assert(publisher_links(url@, publishers@).take(publishers@.len() as int) =~= publisher_links(
        url@,
        publishers@,
    ));
    r
}

/// The feed of the series of a library, or of all of them, with the publishers among whom to
/// choose.
pub open spec fn browse_view<P>(
    base: Seq<char>,
    library: Option<LibraryRef>,
    now: DateTime,
    navigation: Seq<WpLinkView>,
    at: FeedPage,
    series: Seq<Target>,
    publishers: Seq<String>,
) -> FeedView<P> {
    let url = library_url(base, library, "/browse"@);
    FeedView {
        navigation,
        groups: seq![
            link_group::<P>("Series"@, target_links(base, TargetKind::Series, series)),
        ] + result_group("Publisher"@, publisher_links(url, publishers), Seq::<P>::empty()),
        ..page_feed::<P>(base, url, library_name(library), library_modified(library, now), at)
    }
}

/// Makes the feed of the series of a library, or of all of them.
pub fn libraries_browse<P>(
    base: &str,
    library: &Option<LibraryRef>,
    now: DateTime,
    navigation: Vec<WPLinkDto>,
    at: &FeedPage,
    series: &Vec<Target>,
    publishers: &Vec<String>,
) -> (r: FeedDto<P>)
    requires
        at.page < u32::MAX,
    ensures
        r.deep_view() == browse_view::<P>(
            base@,
            *library,
            now,
            navigation.deep_view(),
            *at,
            series@,
            publishers@,
        ),
{
    let url: String = write_library_url(base, library, "/browse");
    let mut groups: Vec<FeedGroupDto<P>> = Vec::new();
    groups.push(group_of_links("Series", links_to(base, TargetKind::Series, series)));
    assert(groups.deep_view() =~= seq![
        link_group::<P>("Series"@, target_links(base@, TargetKind::Series, series@)),
    ]);
    push_results(&mut groups, "Publisher", links_to_publishers(url.as_str(), publishers), Vec::new());
    let title: String = match library {
        Some(l) => l.name.clone(),
        None => "All libraries".to_owned(),
    };
    let mut r: FeedDto<P> = feed_of_page(
        base,
        url,
        title.as_str(),
        modified_of(library, now),
        at,
    );
    r.navigation = navigation;
    r.groups = groups;
    r
}

/// The feed of the collections or the read lists of a library, or of all of them.
pub open spec fn lists_feed<P>(
    base: Seq<char>,
    library: Option<LibraryRef>,
    now: DateTime,
    navigation: Seq<WpLinkView>,
    at: FeedPage,
    kind: TargetKind,
    path: Seq<char>,
    heading: Seq<char>,
    lists: Seq<Target>,
) -> FeedView<P> {
    FeedView {
        navigation,
        groups: seq![link_group::<P>(heading, target_links(base, kind, lists))],
        ..page_feed::<P>(
            base,
            library_url(base, library, path),
            library_name(library) + " - "@ + heading,
            library_modified(library, now),
            at,
        )
    }
}

fn feed_of_lists<P>(
    base: &str,
    library: &Option<LibraryRef>,
    now: DateTime,
    navigation: Vec<WPLinkDto>,
    at: &FeedPage,
    kind: TargetKind,
    path: &str,
    heading: &str,
    lists: &Vec<Target>,
) -> (r: FeedDto<P>)
    requires
        at.page < u32::MAX,
    ensures
        r.deep_view() == lists_feed::<P>(
            base@,
            *library,
            now,
            navigation.deep_view(),
            *at,
            kind,
            path@,
            heading@,
            lists@,
        ),
{
    let mut groups: Vec<FeedGroupDto<P>> = Vec::new();
    groups.push(group_of_links(heading, links_to(base, kind, lists)));
    assert(groups.deep_view() =~= seq![
        link_group::<P>(heading@, target_links(base@, kind, lists@)),
    ]);
    let mut title: String = write_library_title(library, " - ");
    title.append(heading);
    let mut r: FeedDto<P> = feed_of_page(
        base,
        write_library_url(base, library, path),
        title.as_str(),
        modified_of(library, now),
        at,
    );
    r.navigation = navigation;
    r.groups = groups;
    r
}

/// The feed of the collections of a library, or of all of them.
pub fn libraries_collections<P>(
    base: &str,
    library: &Option<LibraryRef>,
    now: DateTime,
    navigation: Vec<WPLinkDto>,
    at: &FeedPage,
    collections: &Vec<Target>,
) -> (r: FeedDto<P>)
    requires
        at.page < u32::MAX,
    ensures
        r.deep_view() == lists_feed::<P>(
            base@,
            *library,
            now,
            navigation.deep_view(),
            *at,
            TargetKind::Collection,
            "/collections"@,
            "Collections"@,
            collections@,
        ),
{
    feed_of_lists(
        base,
        library,
        now,
        navigation,
        at,
        TargetKind::Collection,
        "/collections",
        "Collections",
        collections,
    )
}

/// The feed of the read lists of a library, or of all of them.
pub fn libraries_readlists<P>(
    base: &str,
    library: &Option<LibraryRef>,
    now: DateTime,
    navigation: Vec<WPLinkDto>,
    at: &FeedPage,
    read_lists: &Vec<Target>,
) -> (r: FeedDto<P>)
    requires
        at.page < u32::MAX,
    ensures
        r.deep_view() == lists_feed::<P>(
            base@,
            *library,
            now,
            navigation.deep_view(),
            *at,
            TargetKind::ReadList,
            "/readlists"@,
            "Read Lists"@,
            read_lists@,
        ),
{
    feed_of_lists(
        base,
        library,
        now,
        navigation,
        at,
        TargetKind::ReadList,
        "/readlists",
        "Read Lists",
        read_lists,
    )
}

/// The feed of one collection: its series.
pub open spec fn collection_view<P>(
    base: Seq<char>,
    collection: Target,
    modified: DateTime,
    at: FeedPage,
    series: Seq<Target>,
) -> FeedView<P> {
    FeedView {
        navigation: target_links(base, TargetKind::Series, series),
        ..page_feed::<P>(
            base,
            target_url(base, TargetKind::Collection, collection.id@),
            collection.title@,
            modified,
            at,
        )
    }
}

/// Makes the feed of one collection.
pub fn get_one_collection<P>(
    base: &str,
    collection: &Target,
    modified: DateTime,
    at: &FeedPage,
    series: &Vec<Target>,
) -> (r: FeedDto<P>)
    requires
        at.page < u32::MAX,
    ensures
        r.deep_view() == collection_view::<P>(base@, *collection, modified, *at, series@),
{
    let mut r: FeedDto<P> = feed_of_page(
        base,
        write_target_url(base, TargetKind::Collection, collection.id.as_str()),
        collection.title.as_str(),
        modified,
        at,
    );
    r.navigation = links_to(base, TargetKind::Series, series);
    r
}

/// The feed of one read list: its books.
pub open spec fn read_list_view<P>(
    base: Seq<char>,
    read_list: Target,
    modified: DateTime,
    at: FeedPage,
    books: Seq<P>,
) -> FeedView<P> {
    FeedView {
        publications: books,
        ..page_feed::<P>(
            base,
            target_url(base, TargetKind::ReadList, read_list.id@),
            read_list.title@,
            modified,
            at,
        )
    }
}

/// Makes the feed of one read list.
pub fn get_one_readlist<P>(
    base: &str,
    read_list: &Target,
    modified: DateTime,
    at: &FeedPage,
    books: Vec<P>,
) -> (r: FeedDto<P>)
    requires
        at.page < u32::MAX,
    ensures
        r.deep_view() == read_list_view(base@, *read_list, modified, *at, books@),
{
    let mut r: FeedDto<P> = feed_of_page(
        base,
        write_target_url(base, TargetKind::ReadList, read_list.id.as_str()),
        read_list.title.as_str(),
        modified,
        at,
    );
    r.publications = books;
    r
}

/// The link to the books of a series with a tag; the one that is shown links to itself.
pub open spec fn tag_link(url: Seq<char>, tag: Seq<char>, current: Option<Seq<char>>) -> WpLinkView {
    WpLinkView {
        rel: if current == Some(tag) {
            Some("self"@)
        } else {
            None
        },
        ..down_link(tag, url + "?tag="@ + tag)
    }
}

/// The tags among which to choose; none where there are none.
pub open spec fn tag_facets(url: Seq<char>, tags: Seq<String>, current: Option<Seq<char>>) -> Seq<FacetView> {
    if tags.len() == 0 {
        Seq::empty()
    } else {
        seq![
            FacetView {
                metadata: titled("Tag"@),
                links: Seq::new(tags.len(), |i: int| tag_link(url, tags[i]@, current)),
            },
        ]
    }
}

fn facets_of_tags(url: &str, tags: &Vec<String>, current: &Option<String>) -> (r: Vec<FacetDto>)
    ensures
        r.deep_view() == tag_facets(url@, tags@, current.deep_view()),
{
    let mut links: Vec<WPLinkDto> = Vec::new();
    let ghost all = Seq::new(tags@.len(), |i: int| tag_link(url@, tags@[i]@, current.deep_view()));
    let mut i: usize = 0;
    assert(links.deep_view() =~= all.take(0));
    while i < tags.len()
        invariant
            i <= tags.len(),
            all == Seq::new(
                tags@.len(),
                |i: int| tag_link(url@, tags@[i]@, current.deep_view()),
            ),
            links.deep_view() == all.take(i as int),
        decreases tags.len() - i,
    {
        let mut href: String = url.to_owned();
        href.append("?tag=");
        href.append(tags[i].as_str());
        let mut link: WPLinkDto = link_down(tags[i].as_str(), href);
        let is_current: bool = match current {
            Some(c) => text_eq(c.as_str(), tags[i].as_str()),
            None => false,
        };
        if is_current {
            link.rel = Some("self".to_owned());
        }
        push_link(&mut links, link);
        assert(links.deep_view() =~= all.take(i as int + 1));
        i += 1;
    }
    assert(all.take(tags@.len() as int) =~= all);
    let mut r: Vec<FacetDto> = Vec::new();
    if tags.len() > 0 {
        r.push(FacetDto { metadata: metadata_titled("Tag"), links });
    }
    assert(r.deep_view() =~= tag_facets(url@, tags@, current.deep_view()));
    r
}

/// A series, as far as its feed speaks of it.
#[derive(Debug, PartialEq, Eq)]
pub struct SeriesRef {
    pub id: String,
    pub title: String,
    pub summary: String,
    pub books_summary: String,
    pub modified: DateTime,
}

/// What is said of a series: its own summary or, where that is blank, that of its books.
pub open spec fn series_description(s: SeriesRef) -> Option<Seq<char>> {
    if !crate::text::is_blank(s.summary@) {
        Some(s.summary@)
    } else if !crate::text::is_blank(s.books_summary@) {
        Some(s.books_summary@)
    } else {
        None
    }
}

/// The feed of one series: its books, with the tags among which to choose.
pub open spec fn series_view<P>(
    base: Seq<char>,
    series: SeriesRef,
    tag: Option<Seq<char>>,
    at: FeedPage,
    books: Seq<P>,
    tags: Seq<String>,
) -> FeedView<P> {
    let url = target_url(base, TargetKind::Series, series.id@);
    let feed = page_feed::<P>(base, url, series.title@, series.modified, at);
    FeedView {
        metadata: MetadataView { description: series_description(series), ..feed.metadata },
        facets: tag_facets(url, tags, tag),
        publications: books,
        ..feed
    }
}

/// Makes the feed of one series.
pub fn get_one_series<P>(
    base: &str,
    series: &SeriesRef,
    tag: &Option<String>,
    at: &FeedPage,
    books: Vec<P>,
    tags: &Vec<String>,
) -> (r: FeedDto<P>)
    requires
        at.page < u32::MAX,
    ensures
        r.deep_view() == series_view(base@, *series, tag.deep_view(), *at, books@, tags@),
{
    let url: String = write_target_url(base, TargetKind::Series, series.id.as_str());
    let facets: Vec<FacetDto> = facets_of_tags(url.as_str(), tags, tag);
    let mut r: FeedDto<P> = feed_of_page(
        base,
        url,
        series.title.as_str(),
        series.modified,
        at,
    );
    let description: Option<String> = if blank(series.summary.as_str()) {
        non_empty(series.books_summary.clone())
    } else {
        Some(series.summary.clone())
    };
    r.metadata.description = description;
    r.facets = facets;
    r.publications = books;
    r
}

/// What a search found.
#[derive(Debug, PartialEq, Eq)]
pub struct SearchResults<P> {
    pub series: Vec<Target>,
    pub books: Vec<P>,
    pub collections: Vec<Target>,
    pub read_lists: Vec<Target>,
}

/// The feed of what a search found: one group for each kind of which something was found.
pub open spec fn search_view<P>(base: Seq<char>, now: DateTime, found: SearchResults<P>) -> FeedView<P> {
    FeedView {
        metadata: MetadataView { modified: Some(now), ..titled("Search results"@) },
        links: seq![home_link(base), search_link(base)],
        navigation: Seq::empty(),
        facets: Seq::empty(),
        groups: result_group(
            "Series"@,
            target_links(base, TargetKind::Series, found.series@),
            Seq::<P>::empty(),
        ) + result_group("Books"@, Seq::empty(), found.books@) + result_group(
            "Collections"@,
            target_links(base, TargetKind::Collection, found.collections@),
            Seq::<P>::empty(),
        ) + result_group(
            "Read Lists"@,
            target_links(base, TargetKind::ReadList, found.read_lists@),
            Seq::<P>::empty(),
        ),
        publications: Seq::empty(),
    }
}

/// Makes the feed of what a search found.
pub fn get_search_results<P>(base: &str, now: DateTime, found: SearchResults<P>) -> (r: FeedDto<P>)
    ensures
        r.deep_view() == search_view(base@, now, found),
{
    let mut groups: Vec<FeedGroupDto<P>> = Vec::new();
    assert(groups.deep_view() =~= Seq::<GroupView<P>>::empty());
    push_results(
        &mut groups,
        "Series",
        links_to(base, TargetKind::Series, &found.series),
        Vec::new(),
    );
    let ghost first = result_group(
        "Series"@,
        target_links(base@, TargetKind::Series, found.series@),
        Seq::<P>::empty(),
    );
    assert(groups.deep_view() =~= first);
    push_results(&mut groups, "Books", no_links(), found.books);
    push_results(
        &mut groups,
        "Collections",
        links_to(base, TargetKind::Collection, &found.collections),
        Vec::new(),
    );
    push_results(
        &mut groups,
        "Read Lists",
        links_to(base, TargetKind::ReadList, &found.read_lists),
        Vec::new(),
    );
    let mut links: Vec<WPLinkDto> = no_links();
    push_link(&mut links, link_start(base));
    push_link(&mut links, link_search(base));
    assert(links.deep_view() =~= seq![home_link(base@), search_link(base@)]);
    let mut metadata: FeedMetadataDto = metadata_titled("Search results");
    metadata.modified = Some(now);
    let r: FeedDto<P> = FeedDto {
        metadata,
        links,
        navigation: no_links(),
        facets: Vec::new(),
        groups,
        publications: Vec::new(),
    };
    assert(r.facets.deep_view() =~= Seq::<FacetView>::empty());
    r
}

/// Every page of a list leads back to the catalog and to the search, whatever else it shows.
pub proof fn every_page_leads_home<P>(
    base: Seq<char>,
    url: Seq<char>,
    title: Seq<char>,
    modified: DateTime,
    at: FeedPage,
)
    ensures
        page_feed::<P>(base, url, title, modified, at).links.contains(home_link(base)),
        page_feed::<P>(base, url, title, modified, at).links.contains(search_link(base)),
{
    let links = page_feed::<P>(base, url, title, modified, at).links;
    assert(links[1] == home_link(base));
    assert(links[2] == search_link(base));
}

/// The recommendations show no group without items, but that of all libraries.
pub proof fn recommendations_are_never_empty<P>(
    base: Seq<char>,
    library: Option<LibraryRef>,
    r: Recommended<P>,
    i: int,
)
    requires
        0 <= i < recommended_groups(base, library, r).len(),
    ensures
        recommended_groups(base, library, r)[i].navigation.len() > 0 || recommended_groups(
            base,
            library,
            r,
        )[i].publications.len() > 0 || (library is None && i == 0),
{
}

/// A group of recommendations leads to the list that it is the beginning of, and is called as the
/// list is, after the library.
pub proof fn recommendations_lead_to_their_lists<P>(
    base: Seq<char>,
    library: Option<LibraryRef>,
    r: Recommended<P>,
    i: int,
)
    requires
        0 <= i < recommended_groups(base, library, r).len(),
        !(library is None && i == 0),
    ensures
        exists|kind: ListKind|
            {
                let group = recommended_groups(base, library, r)[i];
                &&& group.links == seq![
                    full_link(
                        group.metadata.title,
                        "self"@,
                        library_url(base, library, #[trigger] list_path(kind)),
                        MEDIATYPE_OPDS_JSON@,
                    ),
                ]
                &&& list_title(kind) == " - "@ + group.metadata.title
            },
{
    reveal_strlit(" - ");
    reveal_strlit("Keep Reading");
    reveal_strlit(" - Keep Reading");
    reveal_strlit("On Deck");
    reveal_strlit(" - On Deck");
    reveal_strlit("Latest Books");
    reveal_strlit(" - Latest Books");
    reveal_strlit("Latest Series");
    reveal_strlit(" - Latest Series");
    assert(list_title(ListKind::KeepReading) =~= " - "@ + "Keep Reading"@);
    assert(list_title(ListKind::OnDeck) =~= " - "@ + "On Deck"@);
    assert(list_title(ListKind::LatestBooks) =~= " - "@ + "Latest Books"@);
    assert(list_title(ListKind::LatestSeries) =~= " - "@ + "Latest Series"@);
    assert(list_path(ListKind::KeepReading) == "/keep-reading"@);
    assert(list_path(ListKind::OnDeck) == "/on-deck"@);
    assert(list_path(ListKind::LatestBooks) == "/books/latest"@);
    assert(list_path(ListKind::LatestSeries) == "/series/latest"@);
}

// ---- what the feeds show ----

/// Whether one of the groups has this title.
pub open spec fn has_group<P>(groups: Seq<GroupView<P>>, title: Seq<char>) -> bool {
    exists|i: int| 0 <= i < groups.len() && (#[trigger] groups[i]).metadata.title == title
}

/// Whether these links are called as these things are, in their order, and lead to their ids.
pub open spec fn are_links_to(links: Seq<WpLinkView>, place: Seq<char>, v: Seq<Target>) -> bool {
    &&& links.len() == v.len()
    &&& forall|i: int|
        0 <= i < v.len() ==> (#[trigger] links[i]).title == Some(v[i].title@) && links[i].href == Some(
            place + v[i].id@,
        )
}

/// Whether a link among several is marked with this relation, and every one that is leads there.
pub open spec fn leads_to(links: Seq<WpLinkView>, rel: Seq<char>, href: Seq<char>) -> bool {
    &&& exists|i: int| 0 <= i < links.len() && (#[trigger] links[i]).rel == Some(rel)
    &&& forall|i: int|
        0 <= i < links.len() && (#[trigger] links[i]).rel == Some(rel) ==> links[i].href == Some(
            href,
        )
}

proof fn lemma_targets(base: Seq<char>, v: Seq<Target>)
    ensures
        are_links_to(
            target_links(base, TargetKind::Library, v),
            base + "/opds/v2/libraries/"@,
            v,
        ),
        are_links_to(target_links(base, TargetKind::Series, v), base + "/opds/v2/series/"@, v),
        are_links_to(
            target_links(base, TargetKind::Collection, v),
            base + "/opds/v2/collections/"@,
            v,
        ),
        are_links_to(target_links(base, TargetKind::ReadList, v), base + "/opds/v2/readlists/"@, v),
{
    reveal_strlit("/opds/v2/");
    reveal_strlit("libraries/");
    reveal_strlit("/opds/v2/libraries/");
    reveal_strlit("series/");
    reveal_strlit("/opds/v2/series/");
    reveal_strlit("collections/");
    reveal_strlit("/opds/v2/collections/");
    reveal_strlit("readlists/");
    reveal_strlit("/opds/v2/readlists/");
    assert forall|i: int| 0 <= i < v.len() implies {
        &&& target_url(base, TargetKind::Library, (#[trigger] v[i]).id@) == base
            + "/opds/v2/libraries/"@ + v[i].id@
        &&& target_url(base, TargetKind::Series, v[i].id@) == base + "/opds/v2/series/"@ + v[i].id@
        &&& target_url(base, TargetKind::Collection, v[i].id@) == base + "/opds/v2/collections/"@
            + v[i].id@
        &&& target_url(base, TargetKind::ReadList, v[i].id@) == base + "/opds/v2/readlists/"@
            + v[i].id@
    } by {
        let id = v[i].id@;
        assert(target_url(base, TargetKind::Library, id) =~= base + "/opds/v2/libraries/"@ + id);
        assert(target_url(base, TargetKind::Series, id) =~= base + "/opds/v2/series/"@ + id);
        assert(target_url(base, TargetKind::Collection, id) =~= base + "/opds/v2/collections/"@
            + id);
        assert(target_url(base, TargetKind::ReadList, id) =~= base + "/opds/v2/readlists/"@ + id);
    }
}

proof fn lemma_titles_differ()
    ensures
        "Libraries"@ != "Keep Reading"@,
        "Libraries"@ != "On Deck"@,
        "Libraries"@ != "Latest Books"@,
        "Libraries"@ != "Latest Series"@,
        "Keep Reading"@ != "On Deck"@,
        "Keep Reading"@ != "Latest Books"@,
        "Keep Reading"@ != "Latest Series"@,
        "On Deck"@ != "Latest Books"@,
        "On Deck"@ != "Latest Series"@,
        "Latest Books"@ != "Latest Series"@,
        "Series"@ != "Books"@,
        "Series"@ != "Collections"@,
        "Series"@ != "Read Lists"@,
        "Series"@ != "Publisher"@,
        "Books"@ != "Collections"@,
        "Books"@ != "Read Lists"@,
        "Collections"@ != "Read Lists"@,
{
    reveal_strlit("Libraries");
    reveal_strlit("Keep Reading");
    reveal_strlit("On Deck");
    reveal_strlit("Latest Books");
    reveal_strlit("Latest Series");
    reveal_strlit("Series");
    reveal_strlit("Books");
    reveal_strlit("Collections");
    reveal_strlit("Read Lists");
    reveal_strlit("Publisher");
    assert("Libraries"@.len() == 9 && "Keep Reading"@.len() == 12 && "On Deck"@.len() == 7
        && "Latest Books"@.len() == 12 && "Latest Series"@.len() == 13 && "Series"@.len() == 6
        && "Books"@.len() == 5 && "Collections"@.len() == 11 && "Read Lists"@.len() == 10
        && "Publisher"@.len() == 9);
    assert("Keep Reading"@[0] == 'K' && "Latest Books"@[0] == 'L');
}

/// The group of recommendations with a title shows the items that were found for it, in their order,
/// and says how many there are of them; it is there exactly if some were found. Only the feed of all
/// libraries shows the libraries.
pub proof fn recommendations_show_what_was_found<P>(
    base: Seq<char>,
    library: Option<LibraryRef>,
    now: DateTime,
    navigation: Seq<WpLinkView>,
    r: Recommended<P>,
)
    ensures
        ({
            let feed = recommended_feed(base, library, now, navigation, r);
            let groups = feed.groups;
            &&& feed.navigation == navigation
            &&& feed.publications.len() == 0
            &&& has_group(groups, "Keep Reading"@) <==> r.keep_reading.items@.len() > 0
            &&& forall|i: int|
                0 <= i < groups.len() && (#[trigger] groups[i]).metadata.title == "Keep Reading"@
                    ==> groups[i].publications == r.keep_reading.items@
                    && groups[i].navigation.len() == 0 && groups[i].metadata.number_of_items == Some(
                    r.keep_reading.total,
                )
            &&& has_group(groups, "On Deck"@) <==> r.on_deck.items@.len() > 0
            &&& forall|i: int|
                0 <= i < groups.len() && (#[trigger] groups[i]).metadata.title == "On Deck"@
                    ==> groups[i].publications == r.on_deck.items@ && groups[i].navigation.len() == 0
                    && groups[i].metadata.number_of_items == Some(r.on_deck.total)
            &&& has_group(groups, "Latest Books"@) <==> r.latest_books.items@.len() > 0
            &&& forall|i: int|
                0 <= i < groups.len() && (#[trigger] groups[i]).metadata.title == "Latest Books"@
                    ==> groups[i].publications == r.latest_books.items@
                    && groups[i].navigation.len() == 0 && groups[i].metadata.number_of_items == Some(
                    r.latest_books.total,
                )
            &&& has_group(groups, "Latest Series"@) <==> r.latest_series.items@.len() > 0
            &&& forall|i: int|
                0 <= i < groups.len() && (#[trigger] groups[i]).metadata.title == "Latest Series"@
                    ==> groups[i].publications.len() == 0 && are_links_to(
                    groups[i].navigation,
                    base + "/opds/v2/series/"@,
                    r.latest_series.items@,
                ) && groups[i].metadata.number_of_items == Some(r.latest_series.total)
            &&& has_group(groups, "Libraries"@) <==> library is None
            &&& forall|i: int|
                0 <= i < groups.len() && (#[trigger] groups[i]).metadata.title == "Libraries"@
                    ==> groups[i].publications.len() == 0 && are_links_to(
                    groups[i].navigation,
                    base + "/opds/v2/libraries/"@,
                    r.libraries@,
                )
        }),
{
    lemma_titles_differ();
    lemma_targets(base, r.latest_series.items@);
    lemma_targets(base, r.libraries@);
    let groups = recommended_groups(base, library, r);
    let none: Seq<WpLinkView> = Seq::empty();
    let g0: Seq<GroupView<P>> = if library is None {
        seq![libraries_group(base, r.libraries@)]
    } else {
        Seq::empty()
    };
    let g1 = recommended_group(
        "Keep Reading"@,
        library_url(base, library, "/keep-reading"@),
        r.keep_reading.total,
        none,
        r.keep_reading.items@,
    );
    let g2 = recommended_group(
        "On Deck"@,
        library_url(base, library, "/on-deck"@),
        r.on_deck.total,
        none,
        r.on_deck.items@,
    );
    let g3 = recommended_group(
        "Latest Books"@,
        library_url(base, library, "/books/latest"@),
        r.latest_books.total,
        none,
        r.latest_books.items@,
    );
    let g4 = recommended_group::<P>(
        "Latest Series"@,
        library_url(base, library, "/series/latest"@),
        r.latest_series.total,
        target_links(base, TargetKind::Series, r.latest_series.items@),
        Seq::empty(),
    );
    assert(groups =~= g0 + g1 + g2 + g3 + g4);
    let (n0, n1, n2, n3) = (
        g0.len() as int,
        (g0.len() + g1.len()) as int,
        (g0.len() + g1.len() + g2.len()) as int,
        (g0.len() + g1.len() + g2.len() + g3.len()) as int,
    );
    if library is None {
        assert(groups[0] == g0[0]);
    }
    if g1.len() > 0 {
        assert(groups[n0] == g1[0]);
    }
    if g2.len() > 0 {
        assert(groups[n1] == g2[0]);
    }
    if g3.len() > 0 {
        assert(groups[n2] == g3[0]);
    }
    if g4.len() > 0 {
        assert(groups[n3] == g4[0]);
    }
    assert forall|i: int| 0 <= i < groups.len() implies (i < n0 && #[trigger] groups[i] == g0[0]) || (
    n0 <= i < n1 && groups[i] == g1[0]) || (n1 <= i < n2 && groups[i] == g2[0]) || (n2 <= i < n3
        && groups[i] == g3[0]) || (n3 <= i && groups[i] == g4[0]) by {}
}

/// The groups of a search show what was found of their kind, in its order; each is there exactly if
/// something was found.
pub proof fn search_shows_what_was_found<P>(base: Seq<char>, now: DateTime, found: SearchResults<P>)
    ensures
        ({
            let groups = search_view(base, now, found).groups;
            &&& has_group(groups, "Series"@) <==> found.series@.len() > 0
            &&& forall|i: int|
                0 <= i < groups.len() && (#[trigger] groups[i]).metadata.title == "Series"@
                    ==> groups[i].publications.len() == 0 && are_links_to(
                    groups[i].navigation,
                    base + "/opds/v2/series/"@,
                    found.series@,
                )
            &&& has_group(groups, "Books"@) <==> found.books@.len() > 0
            &&& forall|i: int|
                0 <= i < groups.len() && (#[trigger] groups[i]).metadata.title == "Books"@
                    ==> groups[i].publications == found.books@ && groups[i].navigation.len() == 0
            &&& has_group(groups, "Collections"@) <==> found.collections@.len() > 0
            &&& forall|i: int|
                0 <= i < groups.len() && (#[trigger] groups[i]).metadata.title == "Collections"@
                    ==> groups[i].publications.len() == 0 && are_links_to(
                    groups[i].navigation,
                    base + "/opds/v2/collections/"@,
                    found.collections@,
                )
            &&& has_group(groups, "Read Lists"@) <==> found.read_lists@.len() > 0
            &&& forall|i: int|
                0 <= i < groups.len() && (#[trigger] groups[i]).metadata.title == "Read Lists"@
                    ==> groups[i].publications.len() == 0 && are_links_to(
                    groups[i].navigation,
                    base + "/opds/v2/readlists/"@,
                    found.read_lists@,
                )
        }),
{
    lemma_titles_differ();
    lemma_targets(base, found.series@);
    lemma_targets(base, found.collections@);
    lemma_targets(base, found.read_lists@);
    let groups = search_view(base, now, found).groups;
    let none = Seq::<P>::empty();
    let g1 = result_group(
        "Series"@,
        target_links(base, TargetKind::Series, found.series@),
        none,
    );
    let g2 = result_group("Books"@, Seq::empty(), found.books@);
    let g3 = result_group(
        "Collections"@,
        target_links(base, TargetKind::Collection, found.collections@),
        none,
    );
    let g4 = result_group(
        "Read Lists"@,
        target_links(base, TargetKind::ReadList, found.read_lists@),
        none,
    );
    assert(groups =~= g1 + g2 + g3 + g4);
    let (n1, n2, n3) = (
        g1.len() as int,
        (g1.len() + g2.len()) as int,
        (g1.len() + g2.len() + g3.len()) as int,
    );
    if g1.len() > 0 {
        assert(groups[0] == g1[0]);
    }
    if g2.len() > 0 {
        assert(groups[n1] == g2[0]);
    }
    if g3.len() > 0 {
        assert(groups[n2] == g3[0]);
    }
    if g4.len() > 0 {
        assert(groups[n3] == g4[0]);
    }
    assert forall|i: int| 0 <= i < groups.len() implies (i < n1 && #[trigger] groups[i] == g1[0]) || (
    n1 <= i < n2 && groups[i] == g2[0]) || (n2 <= i < n3 && groups[i] == g3[0]) || (n3 <= i
        && groups[i] == g4[0]) by {}
}

/// A page of a list says what it is called, when it changed, which page it is, counted from one, how
/// many items are on a page and how many there are; it leads to itself, to the catalog and to the
/// search; and it leads to the page before it unless it is the first.
pub proof fn page_tells_of_itself<P>(
    base: Seq<char>,
    url: Seq<char>,
    title: Seq<char>,
    modified: DateTime,
    at: FeedPage,
)
    requires
        at.page < u32::MAX,
    ensures
        ({
            let feed = page_feed::<P>(base, url, title, modified, at);
            &&& feed.metadata.title == title
            &&& feed.metadata.modified == Some(modified)
            &&& feed.metadata.current_page is Some && feed.metadata.current_page->0 == at.page + 1
            &&& feed.metadata.items_per_page == Some(at.size)
            &&& feed.metadata.number_of_items == Some(at.total)
            &&& leads_to(feed.links, "self"@, url)
            &&& leads_to(feed.links, "start"@, base + "/opds/v2/catalog"@)
            &&& leads_to(feed.links, "search"@, base + "/opds/v2/search{?query}"@)
            &&& at.page > 0 <==> exists|i: int|
                0 <= i < feed.links.len() && (#[trigger] feed.links[i]).rel == Some("previous"@)
            &&& at.page > 0 ==> leads_to(
                feed.links,
                "previous"@,
                url + "?page="@ + crate::text::decimal((at.page - 1) as nat),
            )
            &&& (at.page + 1) * page_size(at.size) < at.total <==> exists|i: int|
                0 <= i < feed.links.len() && (#[trigger] feed.links[i]).rel == Some("next"@)
            &&& (at.page + 1) * page_size(at.size) < at.total ==> leads_to(
                feed.links,
                "next"@,
                url + "?page="@ + crate::text::decimal((at.page + 1) as nat),
            )
        }),
{
    reveal_strlit("self");
    reveal_strlit("start");
    reveal_strlit("search");
    reveal_strlit("previous");
    reveal_strlit("next");
    assert("self"@.len() == 4 && "start"@.len() == 5 && "search"@.len() == 6 && "previous"@.len()
        == 8 && "next"@.len() == 4 && "self"@[0] == 's' && "next"@[0] == 'n');
    reveal_strlit("/opds/v2/");
    reveal_strlit("catalog");
    reveal_strlit("/opds/v2/catalog");
    reveal_strlit("{?query}");
    reveal_strlit("/opds/v2/search{?query}");
    next_page_iff_items_are_left(url, at.page, at.size, at.total);
    let links = page_feed::<P>(base, url, title, modified, at).links;
    let more = page_links(url, at.page, at.size, at.total);
    assert(feed_url(base, "catalog"@) =~= base + "/opds/v2/catalog"@);
    assert(feed_url(base, "search"@) + "{?query}"@ =~= base + "/opds/v2/search{?query}"@);
    assert(links[0] == rel_link("self"@, url));
    assert(links[1] == home_link(base));
    assert(links[2] == search_link(base));
    assert forall|i: int| 3 <= i < links.len() implies #[trigger] links[i] == more[i - 3] by {}
    assert forall|i: int| 0 <= i < more.len() implies links[i + 3] == #[trigger] more[i] by {}
    let previous = rel_link("previous"@, page_url(url, (at.page - 1) as nat));
    let next = rel_link("next"@, page_url(url, (at.page + 1) as nat));
    if at.page > 0 {
        assert(more[0] == previous);
        assert(links[3] == previous);
    }
    if (at.page + 1) * page_size(at.size) < at.total {
        let k = more.len() - 1;
        assert(more[k] == next);
        assert(links[k + 3] == next);
    }
    assert forall|i: int| 0 <= i < more.len() implies (at.page > 0 && #[trigger] more[i] == previous)
        || ((at.page + 1) * page_size(at.size) < at.total && more[i] == next) by {}
}

/// The list of the latest series shows the series as links to them, every other list shows the books;
/// each is about its library, if it is about one.
pub proof fn list_shows_its_items<P>(
    kind: ListKind,
    base: Seq<char>,
    library: Option<LibraryRef>,
    now: DateTime,
    at: FeedPage,
    books: Seq<P>,
    series: Seq<Target>,
)
    ensures
        ({
            let feed = list_view(kind, base, library, now, at, books, series);
            &&& kind != ListKind::LatestSeries ==> feed.publications == books
                && feed.navigation.len() == 0
            &&& kind == ListKind::LatestSeries ==> feed.publications.len() == 0 && are_links_to(
                feed.navigation,
                base + "/opds/v2/series/"@,
                series,
            )
            &&& feed.groups.len() == 0
            &&& library is Some ==> feed.metadata.modified == Some(library->0.modified)
                && library->0.name@.is_prefix_of(feed.metadata.title)
            &&& library is None ==> feed.metadata.modified == Some(now)
                && "All libraries"@.is_prefix_of(feed.metadata.title)
        }),
{
    lemma_targets(base, series);
    let feed = list_view(kind, base, library, now, at, books, series);
    assert(library_name(library).is_prefix_of(feed.metadata.title));
}

/// A link to something leads to the address that its own feed gives for itself.
pub proof fn links_lead_to_the_feeds<P>(
    base: Seq<char>,
    v: Seq<Target>,
    i: int,
    series: SeriesRef,
    tag: Option<Seq<char>>,
    modified: DateTime,
    at: FeedPage,
    books: Seq<P>,
    tags: Seq<String>,
    members: Seq<Target>,
)
    requires
        0 <= i < v.len(),
        series.id@ == v[i].id@,
        at.page < u32::MAX,
    ensures
        leads_to(
            series_view(base, series, tag, at, books, tags).links,
            "self"@,
            target_links(base, TargetKind::Series, v)[i].href->0,
        ),
        leads_to(
            collection_view::<P>(base, v[i], modified, at, members).links,
            "self"@,
            target_links(base, TargetKind::Collection, v)[i].href->0,
        ),
        leads_to(
            read_list_view(base, v[i], modified, at, books).links,
            "self"@,
            target_links(base, TargetKind::ReadList, v)[i].href->0,
        ),
{
    let series_url = target_url(base, TargetKind::Series, series.id@);
    page_tells_of_itself::<P>(base, series_url, series.title@, series.modified, at);
    let collection_url = target_url(base, TargetKind::Collection, v[i].id@);
    page_tells_of_itself::<P>(base, collection_url, v[i].title@, modified, at);
    let list_url = target_url(base, TargetKind::ReadList, v[i].id@);
    page_tells_of_itself::<P>(base, list_url, v[i].title@, modified, at);
}

/// The feed of a series shows its books, that of a read list its books, and that of a collection links
/// to its series, each under its own title.
pub proof fn feeds_show_their_own<P>(
    base: Seq<char>,
    series: SeriesRef,
    tag: Option<Seq<char>>,
    list: Target,
    modified: DateTime,
    at: FeedPage,
    books: Seq<P>,
    tags: Seq<String>,
    members: Seq<Target>,
)
    ensures
        series_view(base, series, tag, at, books, tags).publications == books,
        series_view(base, series, tag, at, books, tags).metadata.title == series.title@,
        series_view(base, series, tag, at, books, tags).metadata.modified == Some(series.modified),
        read_list_view(base, list, modified, at, books).publications == books,
        read_list_view(base, list, modified, at, books).navigation.len() == 0,
        read_list_view(base, list, modified, at, books).metadata.title == list.title@,
        collection_view::<P>(base, list, modified, at, members).publications.len() == 0,
        are_links_to(
            collection_view::<P>(base, list, modified, at, members).navigation,
            base + "/opds/v2/series/"@,
            members,
        ),
        collection_view::<P>(base, list, modified, at, members).metadata.title == list.title@,
        crate::text::is_blank(series.summary@) && crate::text::is_blank(series.books_summary@)
            <==> series_view(base, series, tag, at, books, tags).metadata.description is None,
        !crate::text::is_blank(series.summary@) ==> series_view(
            base,
            series,
            tag,
            at,
            books,
            tags,
        ).metadata.description == Some(series.summary@),
        crate::text::is_blank(series.summary@) && !crate::text::is_blank(series.books_summary@)
            ==> series_view(base, series, tag, at, books, tags).metadata.description == Some(
            series.books_summary@,
        ),
{
    lemma_targets(base, members);
}

/// The feed of a series offers its tags to choose from, each by its name and in their order, and marks
/// exactly the one that is chosen. It offers nothing where there are no tags.
pub proof fn tags_are_offered<P>(
    base: Seq<char>,
    series: SeriesRef,
    tag: Option<Seq<char>>,
    at: FeedPage,
    books: Seq<P>,
    tags: Seq<String>,
)
    ensures
        ({
            let facets = series_view(base, series, tag, at, books, tags).facets;
            &&& facets.len() == 0 <==> tags.len() == 0
            &&& tags.len() > 0 ==> facets.len() == 1 && facets[0].links.len() == tags.len() && forall|
                i: int,
            |
                0 <= i < tags.len() ==> (#[trigger] facets[0].links[i]).title == Some(tags[i]@)
                    && facets[0].links[i].href == Some(
                    base + "/opds/v2/series/"@ + series.id@ + "?tag="@ + tags[i]@,
                ) && (facets[0].links[i].rel == Some("self"@) <==> tag == Some(tags[i]@)) && (
                facets[0].links[i].rel is Some <==> tag == Some(tags[i]@))
        }),
{
    reveal_strlit("/opds/v2/");
    reveal_strlit("series/");
    reveal_strlit("/opds/v2/series/");
    let url = target_url(base, TargetKind::Series, series.id@);
    assert(url =~= base + "/opds/v2/series/"@ + series.id@);
}

/// Who browses is shown links to the series, in their order, and links to what each publisher
/// published, where there are publishers.
pub proof fn browsing_shows_series_and_publishers<P>(
    base: Seq<char>,
    library: Option<LibraryRef>,
    now: DateTime,
    navigation: Seq<WpLinkView>,
    at: FeedPage,
    series: Seq<Target>,
    publishers: Seq<String>,
)
    ensures
        ({
            let feed = browse_view::<P>(base, library, now, navigation, at, series, publishers);
            let url = library_url(base, library, "/browse"@);
            &&& feed.navigation == navigation
            &&& feed.publications.len() == 0
            &&& has_group(feed.groups, "Series"@)
            &&& forall|i: int|
                0 <= i < feed.groups.len() && (#[trigger] feed.groups[i]).metadata.title == "Series"@
                    ==> are_links_to(
                    feed.groups[i].navigation,
                    base + "/opds/v2/series/"@,
                    series,
                )
            &&& has_group(feed.groups, "Publisher"@) <==> publishers.len() > 0
            &&& forall|i: int|
                0 <= i < feed.groups.len() && (#[trigger] feed.groups[i]).metadata.title
                    == "Publisher"@ ==> feed.groups[i].navigation.len() == publishers.len() && forall|
                    k: int,
                |
                    0 <= k < publishers.len() ==> (#[trigger] feed.groups[i].navigation[k]).title
                        == Some(publishers[k]@) && feed.groups[i].navigation[k].href == Some(
                        url + "?publisher="@ + publishers[k]@,
                    )
        }),
{
    lemma_titles_differ();
    lemma_targets(base, series);
    let groups = browse_view::<P>(base, library, now, navigation, at, series, publishers).groups;
    assert(groups[0].metadata.title == "Series"@);
    if publishers.len() > 0 {
        assert(groups[1].metadata.title == "Publisher"@);
    }
}

/// The feeds of collections and of read lists show links to them, in their order.
pub proof fn lists_show_their_lists<P>(
    base: Seq<char>,
    library: Option<LibraryRef>,
    now: DateTime,
    navigation: Seq<WpLinkView>,
    at: FeedPage,
    path: Seq<char>,
    heading: Seq<char>,
    lists: Seq<Target>,
)
    ensures
        ({
            let collections = lists_feed::<P>(
                base,
                library,
                now,
                navigation,
                at,
                TargetKind::Collection,
                path,
                heading,
                lists,
            );
            let read_lists = lists_feed::<P>(
                base,
                library,
                now,
                navigation,
                at,
                TargetKind::ReadList,
                path,
                heading,
                lists,
            );
            &&& collections.navigation == navigation && read_lists.navigation == navigation
            &&& collections.groups.len() == 1 && read_lists.groups.len() == 1
            &&& collections.groups[0].metadata.title == heading
            &&& read_lists.groups[0].metadata.title == heading
            &&& are_links_to(
                collections.groups[0].navigation,
                base + "/opds/v2/collections/"@,
                lists,
            )
            &&& are_links_to(
                read_lists.groups[0].navigation,
                base + "/opds/v2/readlists/"@,
                lists,
            )
        }),
{
    lemma_targets(base, lists);
}

/// A library's sections lead to what it recommends and to all its series, and to its collections and
/// its read lists exactly if it has any.
pub proof fn sections_lead_to_what_is_there(
    base: Seq<char>,
    library: Option<LibraryRef>,
    has_collections: bool,
    has_read_lists: bool,
)
    ensures
        ({
            let links = sections(base, library, has_collections, has_read_lists);
            let at = |rest: Seq<char>|
                exists|i: int|
                    0 <= i < links.len() && (#[trigger] links[i]).href == Some(
                        library_url(base, library, rest),
                    );
            &&& at(""@)
            &&& at("/browse"@)
            &&& at("/collections"@) <==> has_collections
            &&& at("/readlists"@) <==> has_read_lists
            &&& links.len() == 2 + (if has_collections {
                1int
            } else {
                0
            }) + (if has_read_lists {
                1int
            } else {
                0
            })
        }),
{
    reveal_strlit("");
    reveal_strlit("/browse");
    reveal_strlit("/collections");
    reveal_strlit("/readlists");
    let links = sections(base, library, has_collections, has_read_lists);
    let start = library_url(base, library, ""@);
    let lens = |rest: Seq<char>| library_url(base, library, rest).len() == start.len() + rest.len();
    assert(lens("/browse"@) && lens("/collections"@) && lens("/readlists"@));
    assert("/browse"@.len() == 7 && "/collections"@.len() == 12 && "/readlists"@.len() == 10);
    assert(links[0].href == Some(start));
    assert(links[1].href == Some(library_url(base, library, "/browse"@)));
    if has_collections {
        assert(links[2].href == Some(library_url(base, library, "/collections"@)));
    }
    if has_read_lists {
        assert(links[links.len() - 1].href == Some(library_url(base, library, "/readlists"@)));
    }
}

// ---- manifests ----

/// How the manifest of a book is made.
#[derive(Clone, Copy, Debug, PartialEq, Eq, Structural)]
pub enum ManifestKind {
    Divina,
    Pdf,
    Epub,
}

/// What a file is read as.
#[derive(Clone, Copy, Debug, PartialEq, Eq, Structural)]
pub enum FileProfile {
    Divina,
    Pdf,
    Epub,
    Mobi,
}

/// Tells how the manifest of a book is made, from what its file is read as. A book whose file is
/// not understood has none.
pub fn manifest_kind(profile: Option<FileProfile>) -> (r: Result<ManifestKind, ApiError>)
    ensures
        match profile {
            Some(FileProfile::Divina) => r == Ok::<ManifestKind, ApiError>(ManifestKind::Divina),
            Some(FileProfile::Pdf) => r == Ok::<ManifestKind, ApiError>(ManifestKind::Pdf),
            Some(FileProfile::Epub) | Some(FileProfile::Mobi) => r == Ok::<ManifestKind, ApiError>(
                ManifestKind::Epub,
            ),
            None => r is Err && r->Err_0.deep_view() == status_error(
                404,
                "Book analysis failed"@,
            ),
        },
{
    match profile {
        Some(FileProfile::Divina) => Ok(ManifestKind::Divina),
        Some(FileProfile::Pdf) => Ok(ManifestKind::Pdf),
        Some(FileProfile::Epub) => Ok(ManifestKind::Epub),
        Some(FileProfile::Mobi) => Ok(ManifestKind::Epub),
        None => Err(ApiError::not_found("Book analysis failed")),
    }
}

/// Checks that a book can be described in the way that was asked for.
pub fn check_manifest_profile(profile: &str, wanted: &str, media_type: &str) -> (r: Result<
    (),
    ApiError,
>)
    ensures
        profile@ == wanted@ ==> r == Ok::<(), ApiError>(()),
        profile@ != wanted@ ==> r is Err && r->Err_0.deep_view() == status_error(
            400,
            "Book media type '"@ + media_type@ + "' not compatible with requested profile"@,
        ),
{
    if text_eq(profile, wanted) {
        Ok(())
    } else {
        let mut m: String = "Book media type '".to_owned();
        m.append(media_type);
        m.append("' not compatible with requested profile");
        Err(ApiError::bad_request(m.as_str()))
    }
}

} // verus!
