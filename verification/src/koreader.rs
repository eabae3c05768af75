//! KOReader sync: how a place in a book is written and read.
use vstd::prelude::*;

use crate::error::{status_error, ApiError, ErrorView};
use crate::media::MediaProfile;
use crate::progress::{resource_locator, Location, Locator};
use crate::text::{
    chars_of, char_is_digit, contains, has_text, lowered_chars, matches_at, parse_digits, parse_i32,
    push_decimal, push_decimal_i64, text_eq,
};

verus! {

/// KOReader's own media type for answers.
pub const KOREADER_JSON: &'static str = "application/vnd.koreader.v1+json";

/// The media type of an answer: KOReader's own where the client accepts it.
pub fn content_type(accept: &Option<String>) -> (r: &'static str)
    ensures
        r@ == (if accept is Some && crate::text::contains_text(
            accept.deep_view()->0,
            KOREADER_JSON@,
        ) {
            KOREADER_JSON@
        } else {
            "application/json"@
        }),
{
    match accept {
        Some(a) => if contains(a.as_str(), KOREADER_JSON) {
            KOREADER_JSON
        } else {
            "application/json"
        },
        None => "application/json",
    }
}

/// A file's hash must name exactly one book.
pub fn check_single_book(found: usize) -> (r: Result<(), ApiError>)
    ensures
        match r {
            Ok(_) => found == 1,
            Err(e) => found != 1 && e.deep_view() == (if found == 0 {
                status_error(404, "Book not found"@)
            } else {
                status_error(409, "More than 1 book found with the same hash"@)
            }),
        },
{
    if found == 0 {
        Err(ApiError::not_found("Book not found"))
    } else if found == 1 {
        Ok(())
    } else {
        Err(ApiError::conflict("More than 1 book found with the same hash"))
    }
}

/// The distinct items of a list, in the order in which they first appear.
pub open spec fn distinct(s: Seq<Seq<char>>) -> Seq<Seq<char>>
    decreases s.len(),
{
    if s.len() == 0 {
        s
    } else {
        let init = distinct(s.drop_last());
        if init.contains(s.last()) {
            init
        } else {
            init.push(s.last())
        }
    }
}

/// The resources of a book's positions, each once.
pub fn position_hrefs(positions: &Vec<String>) -> (r: Vec<String>)
    ensures
        r.deep_view() == distinct(positions.deep_view()),
{
    let mut keys: Vec<String> = Vec::new();
    let mut i: usize = 0;
    let ghost all = positions.deep_view();
    assert(keys.deep_view() =~= all.take(0));
    while i < positions.len()
        invariant
            i <= positions.len(),
            all == positions.deep_view(),
            keys.deep_view() == distinct(all.take(i as int)),
        decreases positions.len() - i,
    {
        assert(all.take(i as int + 1).drop_last() =~= all.take(i as int));
        assert(all.take(i as int + 1).last() == positions@[i as int]@);
        if !has_text(&keys, positions[i].as_str()) {
            let ghost before = keys.deep_view();
            keys.push(positions[i].clone());
            assert(keys.deep_view() =~= before.push(positions@[i as int]@));
        }
        i += 1;
    }
    assert(all.take(all.len() as int) =~= all);
    keys
}

/// Distinct items are distinct, and all of them are there.
pub proof fn distinct_keeps_each_once(s: Seq<Seq<char>>)
    ensures
        forall|x: Seq<char>| s.contains(x) <==> distinct(s).contains(x),
        distinct(s).no_duplicates(),
    decreases s.len(),
{
    if s.len() > 0 {
        let init = s.drop_last();
        distinct_keeps_each_once(init);
        let d = distinct(init);
        assert forall|x: Seq<char>| s.contains(x) implies distinct(s).contains(x) by {
            let k = choose|k: int| 0 <= k < s.len() && s[k] == x;
            if k < init.len() {
                assert(init[k] == x);
                assert(init.contains(x));
                let j = choose|j: int| 0 <= j < d.len() && d[j] == x;
                assert(distinct(s)[j] == x);
            } else if !d.contains(x) {
                assert(distinct(s)[d.len() as int] == x);
            }
        }
        assert forall|x: Seq<char>| distinct(s).contains(x) implies s.contains(x) by {
            let j = choose|j: int| 0 <= j < distinct(s).len() && distinct(s)[j] == x;
            if j < d.len() {
                assert(d[j] == x);
                assert(d.contains(x));
                assert(init.contains(x));
                let k = choose|k: int| 0 <= k < init.len() && init[k] == x;
                assert(s[k] == x);
            } else {
                assert(s[s.len() - 1] == x);
            }
        }
    }
}

/// Resources stand in the order in which they are first met: what follows in a book neither moves nor
/// removes one, and one that is met for the first time comes last.
pub proof fn resources_are_in_reading_order(s: Seq<Seq<char>>, t: Seq<Seq<char>>, x: Seq<char>)
    ensures
        distinct(s).len() <= distinct(s + t).len(),
        distinct(s + t).take(distinct(s).len() as int) == distinct(s),
        !s.contains(x) ==> distinct(s.push(x)) == distinct(s).push(x),
        s.contains(x) ==> distinct(s.push(x)) == distinct(s),
    decreases t.len(),
{
    distinct_keeps_each_once(s);
    assert(s.push(x).drop_last() =~= s);
    if t.len() == 0 {
        assert(s + t =~= s);
    } else {
        resources_are_in_reading_order(s, t.drop_last(), x);
        assert((s + t).drop_last() =~= s + t.drop_last());
    }
    assert(distinct(s + t).take(distinct(s).len() as int) =~= distinct(s));
}

// ---- reading a place ----

/// The end of the run of digits that starts at `from`.
pub open spec fn digit_run_end(s: Seq<char>, from: int) -> int
    decreases s.len() - from,
{
    if 0 <= from < s.len() && crate::text::is_digit(s[from]) {
        digit_run_end(s, from + 1)
    } else {
        from
    }
}

/// Whether `prefix`, at least one digit and `close` stand at index `i`.
pub open spec fn fragment_at(s: Seq<char>, prefix: Seq<char>, close: char, i: int) -> bool {
    let start = i + prefix.len();
    let end = digit_run_end(s, start);
    crate::text::occurs_at(s, prefix, i) && start < end < s.len() && s[end] == close
}

/// The number of the first fragment at or after index `i`, if it fits.
pub open spec fn fragment_from(s: Seq<char>, prefix: Seq<char>, close: char, i: int) -> Option<i32>
    decreases s.len() - i,
{
    if i >= s.len() {
        None
    } else if fragment_at(s, prefix, close, i) {
        let start = i + prefix.len();
        match crate::text::number_upto(s.subrange(start, digit_run_end(s, start)), 0x7fff_ffff) {
            Some(n) => Some(n as i32),
            None => None,
        }
    } else {
        fragment_from(s, prefix, close, i + 1)
    }
}

/// The number in the first `DocFragment[number]` of a text, in any case.
pub open spec fn doc_fragment_index(progress: Seq<char>) -> Option<i32> {
    fragment_from(crate::text::ascii_lowered(progress), "docfragment["@, ']', 0)
}

/// The number in the first `#_doc_fragment_number_` of a text, in any case.
pub open spec fn doc_fragment_index_v2(progress: Seq<char>) -> Option<i32> {
    fragment_from(crate::text::ascii_lowered(progress), "#_doc_fragment_"@, '_', 0)
}

fn digits_end(v: &Vec<char>, from: usize) -> (r: usize)
    requires
        from <= v.len(),
    ensures
        r == digit_run_end(v@, from as int),
        from <= r <= v.len(),
{
    let mut i: usize = from;
    while i < v.len() && char_is_digit(v[i])
        invariant
            from <= i <= v.len(),
            digit_run_end(v@, from as int) == digit_run_end(v@, i as int),
        decreases v.len() - i,
    {
        i += 1;
    }
    i
}

fn find_fragment(v: &Vec<char>, prefix: &Vec<char>, close: char) -> (r: Option<i32>)
    ensures
        r == fragment_from(v@, prefix@, close, 0),
{
    let mut i: usize = 0;
    while i < v.len()
        invariant
            i <= v.len(),
            fragment_from(v@, prefix@, close, 0) == fragment_from(v@, prefix@, close, i as int),
        decreases v.len() - i,
    {
        if matches_at(v, prefix, i) {
            let start: usize = i + prefix.len();
            let end: usize = digits_end(v, start);
            if end > start && end < v.len() && v[end] == close {
                return match parse_digits(v, start, end, 0x7fff_ffff) {
                    Some(n) => Some(n as i32),
                    None => None,
                };
            }
        }
        i += 1;
    }
    None
}

/// Reads the number in `DocFragment[number]`.
pub fn parse_doc_fragment_index(progress: &str) -> (r: Option<i32>)
    ensures
        r == doc_fragment_index(progress@),
        r is Some ==> r->0 >= 0,
{
    let r: Option<i32> = find_fragment(
        &lowered_chars(progress),
        &chars_of("docfragment["),
        ']',
    );
    proof {
        lemma_fragment_natural(crate::text::ascii_lowered(progress@), "docfragment["@, ']', 0);
    }
    r
}

/// Reads the number in `#_doc_fragment_number_`.
pub fn parse_doc_fragment_index_v2(progress: &str) -> (r: Option<i32>)
    ensures
        r == doc_fragment_index_v2(progress@),
        r is Some ==> r->0 >= 0,
{
    let r: Option<i32> = find_fragment(
        &lowered_chars(progress),
        &chars_of("#_doc_fragment_"),
        '_',
    );
    proof {
        lemma_fragment_natural(crate::text::ascii_lowered(progress@), "#_doc_fragment_"@, '_', 0);
    }
    r
}

proof fn lemma_fragment_natural(s: Seq<char>, prefix: Seq<char>, close: char, i: int)
    requires
        i >= 0,
    ensures
        fragment_from(s, prefix, close, i) is Some ==> fragment_from(s, prefix, close, i)->0 >= 0,
    decreases s.len() - i,
{
    if i < s.len() && !fragment_at(s, prefix, close, i) {
        lemma_fragment_natural(s, prefix, close, i + 1);
    }
}

/// The index of the resource that a place names: the bracketed form counts from one, the anchor
/// form from zero.
pub open spec fn resource_index(progress: Seq<char>) -> Option<int> {
    match doc_fragment_index(progress) {
        Some(i) => Some(i - 1),
        None => match doc_fragment_index_v2(progress) {
            Some(i) => Some(i as int),
            None => None,
        },
    }
}

/// Finds the resource that a place in an EPUB names.
pub fn epub_resource(progress: &str, hrefs: usize) -> (r: Result<usize, ApiError>)
    ensures
        match (r, resource_index(progress@)) {
            (Ok(i), Some(k)) => i == k && k < hrefs,
            (Err(e), Some(k)) => !(0 <= k < hrefs) && e.deep_view() == ErrorView::Internal(
                "Index: "@ + crate::text::decimal_int(k) + ", Size: "@ + crate::text::decimal(
                    hrefs as nat,
                ),
            ),
            (Err(e), None) => e.deep_view() == status_error(
                400,
                "Could not get Epub resource index from progress: "@ + progress@,
            ),
            _ => false,
        },
{
    let index: i64 = match parse_doc_fragment_index(progress) {
        Some(i) => i as i64 - 1,
        None => match parse_doc_fragment_index_v2(progress) {
            Some(i) => i as i64,
            None => {
                let mut m: String = "Could not get Epub resource index from progress: ".to_owned();
                m.append(progress);
                return Err(ApiError::bad_request(m.as_str()));
            },
        },
    };
    if index >= 0 && (index as u64) < hrefs as u64 {
        return Ok(index as usize);
    }
    let mut m: String = "Index: ".to_owned();
    push_decimal_i64(&mut m, index);
    m.append(", Size: ");
    push_decimal(&mut m, hrefs as u64);
    Err(ApiError::internal(m.as_str()))
}

/// Reads the page that a place in a book of pages names.
pub fn page_position(progress: &str) -> (r: Result<i32, ApiError>)
    ensures
        match (r, crate::text::parsed_i32(progress@)) {
            (Ok(p), Some(n)) => p == n,
            (Err(e), None) => e.deep_view() == ErrorView::Internal(
                "For input string: \""@ + progress@ + "\""@,
            ),
            _ => false,
        },
{
    match parse_i32(progress) {
        Some(p) => Ok(p),
        None => {
            let mut m: String = "For input string: \"".to_owned();
            m.append(progress);
            m.append("\"");
            Err(ApiError::internal(m.as_str()))
        },
    }
}

/// Refuses a book that can be read in no known way.
pub fn require_profile(profile: Option<MediaProfile>) -> (r: Result<MediaProfile, ApiError>)
    ensures
        match (r, profile) {
            (Ok(p), Some(q)) => p == q,
            (Err(e), None) => e.deep_view() == status_error(404, "Book has no media profile"@),
            _ => false,
        },
{
    match profile {
        Some(p) => Ok(p),
        None => Err(ApiError::not_found("Book has no media profile")),
    }
}

/// Where a device says that a user is.
#[derive(Debug, PartialEq, Eq)]
pub enum ReportedPlace {
    Page(i32),
    /// At the start of a resource.
    Resource(String),
}

/// A [`ReportedPlace`] by its texts.
#[verifier::ext_equal]
pub enum ReportedPlaceView {
    Page(i32),
    Resource(Seq<char>),
}

impl DeepView for ReportedPlace {
    type V = ReportedPlaceView;

    open spec fn deep_view(&self) -> ReportedPlaceView {
        match self {
            ReportedPlace::Page(page) => ReportedPlaceView::Page(*page),
            ReportedPlace::Resource(href) => ReportedPlaceView::Resource(href@),
        }
    }
}

/// The place that a device's text names: a page in a book of pages, a resource in an EPUB. The
/// positions are given by their resources, and are missing where they could not be read.
pub open spec fn place_of(
    profile: Option<MediaProfile>,
    progress: Seq<char>,
    positions: Option<Seq<Seq<char>>>,
) -> Result<ReportedPlaceView, ErrorView> {
    match profile {
        None => Err(status_error(404, "Book has no media profile"@)),
        Some(MediaProfile::Epub) => match (resource_index(progress), positions) {
            (None, _) => Err(
                status_error(400, "Could not get Epub resource index from progress: "@ + progress),
            ),
            (Some(_), None) => Err(status_error(400, "Epub extension not found"@)),
            (Some(k), Some(p)) => if 0 <= k < distinct(p).len() {
                Ok(ReportedPlaceView::Resource(distinct(p)[k]))
            } else {
                Err(
                    ErrorView::Internal(
                        "Index: "@ + crate::text::decimal_int(k) + ", Size: "@
                            + crate::text::decimal(distinct(p).len()),
                    ),
                )
            },
        },
        Some(_) => match crate::text::parsed_i32(progress) {
            Some(page) => Ok(ReportedPlaceView::Page(page)),
            None => Err(ErrorView::Internal("For input string: \""@ + progress + "\""@)),
        },
    }
}

/// Reads the place that a device reports, by the text in which it names it.
pub fn reported_place(
    profile: Option<MediaProfile>,
    progress: &str,
    positions: &Option<Vec<String>>,
) -> (r: Result<ReportedPlace, ApiError>)
    ensures
        match (r, place_of(profile, progress@, positions.deep_view())) {
            (Ok(place), Ok(v)) => place.deep_view() == v,
            (Err(e), Err(v)) => e.deep_view() == v,
            _ => false,
        },
{
    let needed: MediaProfile = match require_profile(profile) {
        Ok(p) => p,
        Err(e) => {
            return Err(e);
        },
    };
    if needed != MediaProfile::Epub {
        return match page_position(progress) {
            Ok(page) => Ok(ReportedPlace::Page(page)),
            Err(e) => Err(e),
        };
    }
    match positions {
        None => {
            match epub_resource(progress, 0) {
                Err(ApiError::Status { status, message }) => Err(
                    ApiError::Status { status, message },
                ),
                _ => Err(ApiError::bad_request("Epub extension not found")),
            }
        },
        Some(p) => {
            let hrefs: Vec<String> = position_hrefs(p);
            assert(hrefs.deep_view().len() == hrefs.len());
            match epub_resource(progress, hrefs.len()) {
                Ok(k) => {
                    let href: String = hrefs[k].clone();
                    assert(hrefs.deep_view()[k as int] == href@);
                    Ok(ReportedPlace::Resource(href))
                },
                Err(e) => Err(e),
            }
        },
    }
}

/// A place on a page, of which no more is known than how much of the book is before it.
pub open spec fn is_on_page<F, T>(l: Locator<F, T>, page: i32, total_progression: F) -> bool {
    &&& l.href@ == ""@
    &&& l.type_@ == ""@
    &&& l.title is None
    &&& l.text is None
    &&& l.kobo_span is None
    &&& l.locations is Some
    &&& l.locations->0.fragments@.len() == 0
    &&& l.locations->0.progression is None
    &&& l.locations->0.position == Some(page)
    &&& l.locations->0.total_progression == Some(total_progression)
}

/// Puts together a place on a page.
pub fn locator_of<F, T>(position: i32, total_progression: F) -> (r: Locator<F, T>)
    ensures
        is_on_page(r, position, total_progression),
{
    Locator {
        href: "".to_owned(),
        type_: "".to_owned(),
        title: None,
        locations: Some(
            Location {
                fragments: Vec::new(),
                progression: None,
                position: Some(position),
                total_progression: Some(total_progression),
            },
        ),
        text: None,
        kobo_span: None,
    }
}

/// Whether a place in a book stands for the one that a device names: the page, or the start of the
/// resource. `start` is the share of a resource that is before its start.
pub open spec fn stands_for<F, T>(
    l: Locator<F, T>,
    place: ReportedPlaceView,
    percentage: F,
    start: F,
) -> bool {
    match place {
        ReportedPlaceView::Page(page) => is_on_page(l, page, percentage),
        ReportedPlaceView::Resource(href) => crate::progress::is_in_resource(
            l,
            href,
            None,
            Some(start),
            Some(percentage),
        ),
    }
}

/// What a device reports is taken as far as it says: at its page, or at the start of its resource, with
/// the share of the whole book that it gives.
pub proof fn reported_place_is_taken<F, T>(
    l: Locator<F, T>,
    place: ReportedPlaceView,
    percentage: F,
    start: F,
)
    requires
        stands_for(l, place, percentage, start),
    ensures
        l.locations is Some,
        l.locations->0.total_progression == Some(percentage),
        place is Page ==> l.locations->0.position == Some(place->Page_0)
            && l.locations->0.progression is None && l.href@.len() == 0,
        place is Resource ==> l.href@ == place->Resource_0 && l.locations->0.progression == Some(start)
            && l.locations->0.position is None && l.type_@ == "application/xhtml+xml"@,
        l.kobo_span is None,
        l.title is None,
        l.text is None,
{
    reveal_strlit("");
}

/// A place is read by the kind of the book: a number is a page of a book of pages and of a PDF, and a
/// resource of an EPUB is one of the book's own. What cannot be read is told.
pub proof fn place_is_read_by_the_kind_of_book(
    profile: Option<MediaProfile>,
    progress: Seq<char>,
    positions: Option<Seq<Seq<char>>>,
)
    ensures
        profile is None ==> place_of(profile, progress, positions) == Err::<
            ReportedPlaceView,
            ErrorView,
        >(status_error(404, "Book has no media profile"@)),
        profile == Some(MediaProfile::Divina) || profile == Some(MediaProfile::Pdf) ==> (place_of(
            profile,
            progress,
            positions,
        ) is Ok <==> crate::text::parsed_i32(progress) is Some) && place_of(
            profile,
            progress,
            positions,
        ) == place_of(Some(MediaProfile::Divina), progress, None),
        profile == Some(MediaProfile::Divina) && crate::text::parsed_i32(progress) is Some
            ==> place_of(profile, progress, positions) == Ok::<ReportedPlaceView, ErrorView>(
            ReportedPlaceView::Page(crate::text::parsed_i32(progress)->0),
        ),
        profile == Some(MediaProfile::Divina) && crate::text::parsed_i32(progress) is None
            ==> place_of(profile, progress, positions) == Err::<ReportedPlaceView, ErrorView>(
            ErrorView::Internal("For input string: \""@ + progress + "\""@),
        ),
        profile == Some(MediaProfile::Epub) && place_of(profile, progress, positions) is Ok
            ==> positions is Some && place_of(profile, progress, positions)->Ok_0 is Resource
            && positions->0.contains(place_of(profile, progress, positions)->Ok_0->Resource_0),
        profile == Some(MediaProfile::Epub) && resource_index(progress) is None ==> place_of(
            profile,
            progress,
            positions,
        ) == Err::<ReportedPlaceView, ErrorView>(
            status_error(400, "Could not get Epub resource index from progress: "@ + progress),
        ),
        profile == Some(MediaProfile::Epub) && resource_index(progress) is Some && positions is Some
            && !(0 <= resource_index(progress)->0 < distinct(positions->0).len()) ==> place_of(
            profile,
            progress,
            positions,
        ) == Err::<ReportedPlaceView, ErrorView>(
            ErrorView::Internal(
                "Index: "@ + crate::text::decimal_int(resource_index(progress)->0) + ", Size: "@
                    + crate::text::decimal(distinct(positions->0).len()),
            ),
        ),
        profile == Some(MediaProfile::Epub) && resource_index(progress) is Some && positions is None
            ==> place_of(profile, progress, positions) == Err::<ReportedPlaceView, ErrorView>(
            status_error(400, "Epub extension not found"@),
        ),
{
    if profile == Some(MediaProfile::Epub) && place_of(profile, progress, positions) is Ok {
        distinct_keeps_each_once(positions->0);
        let k = resource_index(progress)->0;
        assert(distinct(positions->0).contains(distinct(positions->0)[k]));
    }
}

/// Takes what a device reports: the place that its text names, and how much of the book is before it.
pub fn update_progress<F, T>(
    profile: Option<MediaProfile>,
    progress: &str,
    positions: &Option<Vec<String>>,
    percentage: F,
    start: F,
) -> (r: Result<Locator<F, T>, ApiError>)
    ensures
        match (r, place_of(profile, progress@, positions.deep_view())) {
            (Ok(l), Ok(place)) => stands_for(l, place, percentage, start),
            (Err(e), Err(v)) => e.deep_view() == v,
            _ => false,
        },
{
    match reported_place(profile, progress, positions) {
        Ok(ReportedPlace::Page(page)) => Ok(locator_of(page, percentage)),
        Ok(ReportedPlace::Resource(href)) => Ok(
            resource_locator(href, None, Some(start), Some(percentage)),
        ),
        Err(e) => Err(e),
    }
}

// ---- writing a place ----

/// How the resource with this number is written.
pub open spec fn fragment_text(number: nat) -> Seq<char> {
    "/body/DocFragment["@ + crate::text::decimal(number) + "].0"@
}

/// The number of a resource among the resources of a book: its index counted from one, or zero
/// where it is not there.
pub open spec fn is_resource_number(hrefs: Seq<Seq<char>>, href: Option<Seq<char>>, n: nat) -> bool {
    if n == 0 {
        href is None || !hrefs.contains(href->0)
    } else {
        n <= hrefs.len() && href == Some(hrefs[n - 1]) && !hrefs.take(n - 1).contains(hrefs[n - 1])
    }
}

/// A resource that the book has is numbered by where it is, any other place by zero.
pub proof fn resource_is_numbered_by_its_place(
    hrefs: Seq<Seq<char>>,
    href: Option<Seq<char>>,
    n: nat,
)
    requires
        is_resource_number(hrefs, href, n),
    ensures
        href is None ==> n == 0,
        href is Some && !hrefs.contains(href->0) ==> n == 0,
        href is Some && hrefs.contains(href->0) ==> 1 <= n <= hrefs.len() && hrefs[n - 1] == href->0,
        forall|k: int| 0 <= k < n - 1 ==> href != Some(#[trigger] hrefs[k]),
{
    if n > 0 {
        assert(hrefs.contains(hrefs[n - 1]));
        assert forall|k: int| 0 <= k < n - 1 implies href != Some(#[trigger] hrefs[k]) by {
            assert(hrefs.take(n - 1)[k] == hrefs[k]);
        }
    }
}

/// Writes the place of a resource in a book.
pub fn fragment_of(hrefs: &Vec<String>, href: &Option<String>) -> (r: String)
    ensures
        exists|n: nat|
            is_resource_number(hrefs.deep_view(), href.deep_view(), n) && r@ == fragment_text(n),
{
    let ghost all = hrefs.deep_view();
    let mut number: u64 = 0;
    match href {
        Some(h) => {
            let mut i: usize = 0;
            while i < hrefs.len() && number == 0
                invariant
                    i <= hrefs.len(),
                    all == hrefs.deep_view(),
                    number == 0 ==> !all.take(i as int).contains(h@),
                    number > 0 ==> number <= hrefs.len() && all[number - 1] == h@ && !all.take(
                        number - 1,
                    ).contains(h@),
                decreases hrefs.len() - i,
            {
                let ghost next = all.take(i as int + 1);
                if text_eq(hrefs[i].as_str(), h.as_str()) {
                    number = i as u64 + 1;
                } else {
                    assert forall|k: int| 0 <= k < i + 1 implies #[trigger] next[k] != h@ by {
                        if k < i {
                            assert(next[k] == all.take(i as int)[k]);
                            assert(all.take(i as int).contains(next[k]));
                        }
                    }
                }
                i += 1;
            }
            assert(all.take(all.len() as int) =~= all);
        },
        None => {},
    }
    let mut r: String = "/body/DocFragment[".to_owned();
    push_decimal(&mut r, number);
    r.append("].0");
    proof {
        let n = number as nat;
        assert(is_resource_number(all, href.deep_view(), n));
        assert(r@ == fragment_text(n));
    }
    r
}

/// Writes where a user is in a book, for a device to read: the page in a book of pages, the resource
/// in an EPUB. The positions are given by their resources, and are missing where they could not be
/// read.
pub fn get_progress(
    profile: Option<MediaProfile>,
    page: i32,
    positions: &Option<Vec<String>>,
    href: &Option<String>,
) -> (r: Result<String, ApiError>)
    ensures
        match (profile, positions.deep_view()) {
            (None, _) => r is Err && r->Err_0.deep_view() == status_error(
                404,
                "Book has no media profile"@,
            ),
            (Some(MediaProfile::Epub), None) => r is Err && r->Err_0.deep_view() == status_error(
                400,
                "Epub extension not found"@,
            ),
            (Some(MediaProfile::Epub), Some(p)) => r is Ok && exists|n: nat|
                is_resource_number(distinct(p), href.deep_view(), n) && r->Ok_0@ == fragment_text(n),
            (Some(_), _) => r is Ok && r->Ok_0@ == crate::text::decimal_int(page as int),
        },
{
    let needed: MediaProfile = match require_profile(profile) {
        Ok(p) => p,
        Err(e) => {
            return Err(e);
        },
    };
    if needed != MediaProfile::Epub {
        let mut text: String = String::new();
        push_decimal_i64(&mut text, page as i64);
        assert(text@ =~= crate::text::decimal_int(page as int));
        return Ok(text);
    }
    match positions {
        None => Err(ApiError::bad_request("Epub extension not found")),
        Some(p) => Ok(fragment_of(&position_hrefs(p), href)),
    }
}

proof fn lemma_digit_run_is(s: Seq<char>, from: int, end: int)
    requires
        0 <= from <= end < s.len(),
        forall|k: int| from <= k < end ==> crate::text::is_digit(#[trigger] s[k]),
        !crate::text::is_digit(s[end]),
    ensures
        digit_run_end(s, from) == end,
    decreases end - from,
{
    if from < end {
        lemma_digit_run_is(s, from + 1, end);
    }
}

/// A place that is written for a device is read back as the same resource.
pub proof fn written_fragment_is_read_back(number: nat)
    requires
        number <= 0x7fff_ffff,
    ensures
        doc_fragment_index(fragment_text(number)) == Some(number as i32),
        number > 0 ==> resource_index(fragment_text(number)) == Some(number - 1),
{
    reveal_strlit("/body/DocFragment[");
    reveal_strlit("].0");
    reveal_strlit("docfragment[");
    let digits = crate::text::decimal(number);
    crate::text::lemma_decimal(number);
    let s = crate::text::ascii_lowered(fragment_text(number));
    let prefix = "docfragment["@;
    let n = digits.len() as int;
    assert(fragment_text(number).len() == 18 + n + 3);
    assert forall|k: int| 18 <= k < 18 + n implies crate::text::is_digit(#[trigger] s[k]) by {
        assert(fragment_text(number)[k] == digits[k - 18]);
    }
    assert(fragment_text(number)[18 + n] == ']');
    assert(s[18 + n] == ']');
    assert(s[0] == '/' && s[1] == 'b' && s[2] == 'o' && s[3] == 'd' && s[4] == 'y' && s[5] == '/');
    assert(s.subrange(6, 18) =~= prefix);
    lemma_digit_run_is(s, 18, 18 + n);
    assert(s.subrange(18, 18 + n) =~= digits) by {
        assert forall|k: int| 0 <= k < n implies s.subrange(18, 18 + n)[k] == digits[k] by {
            assert(fragment_text(number)[18 + k] == digits[k]);
            assert(crate::text::is_digit(digits[k]));
        }
    }
    assert forall|i: int| 0 <= i < 6 implies !#[trigger] fragment_at(s, prefix, ']', i) by {
        if crate::text::occurs_at(s, prefix, i) {
            assert(s.subrange(i, i + 12)[0] == s[i]);
            assert(s.subrange(i, i + 12)[1] == s[i + 1]);
        }
    }
    assert(fragment_at(s, prefix, ']', 6));
    assert(fragment_from(s, prefix, ']', 6) == Some(number as i32));
    assert(!fragment_at(s, prefix, ']', 5));
    assert(fragment_from(s, prefix, ']', 5) == Some(number as i32));
    assert(!fragment_at(s, prefix, ']', 4));
    assert(fragment_from(s, prefix, ']', 4) == Some(number as i32));
    assert(!fragment_at(s, prefix, ']', 3));
    assert(fragment_from(s, prefix, ']', 3) == Some(number as i32));
    assert(!fragment_at(s, prefix, ']', 2));
    assert(fragment_from(s, prefix, ']', 2) == Some(number as i32));
    assert(!fragment_at(s, prefix, ']', 1));
    assert(fragment_from(s, prefix, ']', 1) == Some(number as i32));
    assert(!fragment_at(s, prefix, ']', 0));
}

/// A device that sends back the text that it got for a book of pages is taken to be on the same page.
pub proof fn written_page_is_read_back(
    profile: MediaProfile,
    page: i32,
    positions: Option<Seq<Seq<char>>>,
)
    requires
        profile != MediaProfile::Epub,
    ensures
        place_of(Some(profile), crate::text::decimal_int(page as int), positions) == Ok::<
            ReportedPlaceView,
            ErrorView,
        >(ReportedPlaceView::Page(page)),
{
    crate::text::written_number_is_read_back(page);
}

/// How the resource with this index is written as an anchor.
pub open spec fn anchor_text(index: nat) -> Seq<char> {
    "#_doc_fragment_"@ + crate::text::decimal(index) + "_"@
}

proof fn lemma_no_bracket(s: Seq<char>, i: int)
    requires
        i >= 0,
        !s.contains('['),
    ensures
        fragment_from(s, "docfragment["@, ']', i) is None,
    decreases s.len() - i,
{
    reveal_strlit("docfragment[");
    if i < s.len() {
        if crate::text::occurs_at(s, "docfragment["@, i) {
            assert(s.subrange(i, i + 12)[11] == s[i + 11]);
            assert(s.contains(s[i + 11]));
        }
        lemma_no_bracket(s, i + 1);
    }
}

/// An anchor is read as the resource that it is written for.
pub proof fn written_anchor_is_read_back(index: nat)
    requires
        index <= 0x7fff_ffff,
    ensures
        doc_fragment_index_v2(anchor_text(index)) == Some(index as i32),
        resource_index(anchor_text(index)) == Some(index as int),
{
    reveal_strlit("#_doc_fragment_");
    reveal_strlit("_");
    let digits = crate::text::decimal(index);
    crate::text::lemma_decimal(index);
    let text = anchor_text(index);
    let s = crate::text::ascii_lowered(text);
    let prefix = "#_doc_fragment_"@;
    let n = digits.len() as int;
    assert(text.len() == 15 + n + 1);
    assert forall|k: int| 15 <= k < 15 + n implies crate::text::is_digit(#[trigger] s[k]) by {
        assert(text[k] == digits[k - 15]);
    }
    assert(text[15 + n] == '_');
    assert(s[15 + n] == '_');
    assert(s.subrange(0, 15) =~= prefix);
    lemma_digit_run_is(s, 15, 15 + n);
    assert(s.subrange(15, 15 + n) =~= digits) by {
        assert forall|k: int| 0 <= k < n implies s.subrange(15, 15 + n)[k] == digits[k] by {
            assert(text[15 + k] == digits[k]);
            assert(crate::text::is_digit(digits[k]));
        }
    }
    assert(fragment_at(s, prefix, '_', 0));
    assert(!s.contains('[')) by {
        assert forall|k: int| 0 <= k < s.len() implies #[trigger] s[k] != '[' by {
            if k < 15 {
                assert(s.subrange(0, 15)[k] == s[k]);
            } else if k < 15 + n {
                assert(crate::text::is_digit(s[k]));
            }
        }
    }
    lemma_no_bracket(s, 0);
}

/// A device that is told that a user is at the resource at `index` gets its number, counted from one.
/// When it sends that text back, or the anchor with the index, it is taken to be at the same resource.
pub proof fn written_resource_is_read_back(positions: Seq<Seq<char>>, index: int, number: nat)
    requires
        0 <= index < distinct(positions).len(),
        is_resource_number(distinct(positions), Some(distinct(positions)[index]), number),
    ensures
        number == index + 1,
        number <= 0x7fff_ffff ==> place_of(
            Some(MediaProfile::Epub),
            fragment_text(number),
            Some(positions),
        ) == Ok::<ReportedPlaceView, ErrorView>(
            ReportedPlaceView::Resource(distinct(positions)[index]),
        ),
        index <= 0x7fff_ffff ==> place_of(
            Some(MediaProfile::Epub),
            anchor_text(index as nat),
            Some(positions),
        ) == Ok::<ReportedPlaceView, ErrorView>(
            ReportedPlaceView::Resource(distinct(positions)[index]),
        ),
{
    let hrefs = distinct(positions);
    distinct_keeps_each_once(positions);
    assert(hrefs.contains(hrefs[index]));
    if number <= 0x7fff_ffff {
        written_fragment_is_read_back(number);
    }
    if index <= 0x7fff_ffff {
        written_anchor_is_read_back(index as nat);
    }
}

} // verus!
