//! Reading progress: where in a book a reported place is.
use vstd::prelude::*;

use crate::error::{one_violation, status_error, ApiError, ErrorView, Violation};
use crate::media::MediaProfile;
use crate::text::{chars_of, find_char, has_text, push_decimal_i64, string_of, text_eq};
use crate::url::url_decode;

verus! {

// ---- when a report counts ----

/// Refuses a report that is not newer than what is stored. Times are in nanoseconds.
pub fn check_newer(modified: i128, saved: Option<i128>) -> (r: Result<(), ApiError>)
    ensures
        match r {
            Ok(_) => saved is None || modified > saved->0,
            Err(e) => saved is Some && modified <= saved->0 && e.deep_view() == status_error(
                409,
                "Progression is older than existing"@,
            ),
        },
{
    match saved {
        Some(s) => if modified <= s {
            Err(ApiError::conflict("Progression is older than existing"))
        } else {
            Ok(())
        },
        None => Ok(()),
    }
}

/// Refuses a book that can be read in no known way.
pub fn require_profile(profile: Option<MediaProfile>) -> (r: Result<MediaProfile, ApiError>)
    ensures
        match (r, profile) {
            (Ok(p), Some(q)) => p == q,
            (Err(e), None) => e.deep_view() == status_error(400, "Media has no profile"@),
            _ => false,
        },
{
    match profile {
        Some(p) => Ok(p),
        None => Err(ApiError::bad_request("Media has no profile")),
    }
}

// ---- books of pages ----

/// A position, or `null` where there is none.
pub open spec fn position_text(position: Option<i32>) -> Seq<char> {
    match position {
        Some(p) => crate::text::decimal_int(p as int),
        None => "null"@,
    }
}

/// The message for a page that the book does not have.
pub open spec fn page_range_message(position: Option<i32>, page_count: i32) -> Seq<char> {
    "Page argument ("@ + position_text(position) + ") must be within 1 and book page count ("@
        + crate::text::decimal_int(page_count as int) + ")"@
}

/// How far a book was read: up to a page, and whether that is the last.
#[derive(Clone, Copy, Debug, PartialEq, Eq, Structural)]
pub struct ReadMark {
    pub page: i32,
    pub completed: bool,
}

/// How far a book was read by a user who is on this page.
pub open spec fn read_up_to(page: i32, page_count: i32) -> ReadMark {
    ReadMark { page, completed: page == page_count }
}

/// A user on a page has read up to it, and has read the whole book exactly if it is the last.
pub proof fn last_page_completes_a_book(page: i32, page_count: i32)
    ensures
        read_up_to(page, page_count).page == page,
        read_up_to(page_count, page_count).completed,
        page < page_count ==> !read_up_to(page, page_count).completed,
{
}

/// Takes a page for how far a book was read, if the book has that page.
pub fn mark_page(position: Option<i32>, page_count: i32) -> (r: Result<ReadMark, ApiError>)
    ensures
        match r {
            Ok(m) => position is Some && 1 <= position->0 <= page_count && m == read_up_to(
                position->0,
                page_count,
            ),
            Err(e) => !(position is Some && 1 <= position->0 <= page_count) && e.deep_view()
                == status_error(400, page_range_message(position, page_count)),
        },
{
    match position {
        Some(p) => {
            if 1 <= p && p <= page_count {
                return Ok(ReadMark { page: p, completed: p == page_count });
            }
        },
        None => {},
    }
    let mut m: String = "Page argument (".to_owned();
    match position {
        Some(p) => {
            push_decimal_i64(&mut m, p as i64);
        },
        None => {
            m.append("null");
        },
    }
    m.append(") must be within 1 and book page count (");
    push_decimal_i64(&mut m, page_count as i64);
    m.append(")");
    Err(ApiError::bad_request(m.as_str()))
}

/// The mark of a book that is read to its end.
pub fn mark_completed(page_count: i32) -> (r: ReadMark)
    ensures
        r.page == page_count,
        r.completed,
        r == read_up_to(page_count, page_count),
{
    ReadMark { page: page_count, completed: true }
}

/// Lets a page stand for a place in an EPUB only if the EPUB is one of pages.
pub fn check_epub_pages(divina_compatible: bool) -> (r: Result<(), ApiError>)
    ensures
        match r {
            Ok(_) => divina_compatible,
            Err(e) => !divina_compatible && e.deep_view() == status_error(
                400,
                "epub book is not Divina compatible"@,
            ),
        },
{
    if divina_compatible {
        Ok(())
    } else {
        Err(ApiError::bad_request("epub book is not Divina compatible"))
    }
}

/// The index of the position that a page of an EPUB stands for.
pub fn page_position(page: i32, positions: usize) -> (r: Result<usize, ApiError>)
    requires
        page >= 1,
    ensures
        match r {
            Ok(i) => i == page - 1 && i < positions,
            Err(e) => page - 1 >= positions && e.deep_view() == ErrorView::Internal(
                "no position for page "@ + crate::text::decimal_int(page as int),
            ),
        },
{
    let i: usize = (page - 1) as usize;
    if i < positions {
        Ok(i)
    } else {
        let mut m: String = "no position for page ".to_owned();
        push_decimal_i64(&mut m, page as i64);
        Err(ApiError::internal(m.as_str()))
    }
}

/// How far a book was read up to a page, and at which known position that is in an EPUB.
#[derive(Clone, Copy, Debug, PartialEq, Eq, Structural)]
pub struct PageMark {
    pub mark: ReadMark,
    pub position: Option<usize>,
}

/// Why a book cannot be marked as read up to a page, if it cannot. The positions of an EPUB are
/// counted, where they could be read.
pub open spec fn page_refusal(
    page: i32,
    page_count: i32,
    profile: Option<MediaProfile>,
    divina_compatible: bool,
    positions: Option<usize>,
) -> Option<ErrorView> {
    if !(1 <= page <= page_count) {
        Some(status_error(400, page_range_message(Some(page), page_count)))
    } else if profile != Some(MediaProfile::Epub) {
        None
    } else if !divina_compatible {
        Some(status_error(400, "epub book is not Divina compatible"@))
    } else if positions is None {
        Some(status_error(400, "Epub extension not found"@))
    } else if page > positions->0 {
        Some(
            ErrorView::Internal("no position for page "@ + crate::text::decimal_int(page as int)),
        )
    } else {
        None
    }
}

/// A book can be marked as read up to each of its pages, and up to no other; an EPUB only if its pages
/// are positions that are known.
pub proof fn book_is_marked_up_to_a_page_of_its_own(
    page: i32,
    page_count: i32,
    profile: Option<MediaProfile>,
    divina_compatible: bool,
    positions: Option<usize>,
)
    ensures
        page < 1 || page > page_count ==> page_refusal(
            page,
            page_count,
            profile,
            divina_compatible,
            positions,
        ) == Some(
            status_error(
                400,
                "Page argument ("@ + crate::text::decimal_int(page as int)
                    + ") must be within 1 and book page count ("@ + crate::text::decimal_int(
                    page_count as int,
                ) + ")"@,
            ),
        ),
        1 <= page <= page_count && (profile is None || profile == Some(MediaProfile::Divina)
            || profile == Some(MediaProfile::Pdf)) ==> page_refusal(
            page,
            page_count,
            profile,
            divina_compatible,
            positions,
        ) is None,
        1 <= page <= page_count && profile == Some(MediaProfile::Epub) && !divina_compatible
            ==> page_refusal(page, page_count, profile, divina_compatible, positions) == Some(
            status_error(400, "epub book is not Divina compatible"@),
        ),
        1 <= page <= page_count && profile == Some(MediaProfile::Epub) && divina_compatible
            && positions is None ==> page_refusal(
            page,
            page_count,
            profile,
            divina_compatible,
            positions,
        ) == Some(status_error(400, "Epub extension not found"@)),
        1 <= page <= page_count && profile == Some(MediaProfile::Epub) && divina_compatible
            && positions is Some && page <= positions->0 ==> page_refusal(
            page,
            page_count,
            profile,
            divina_compatible,
            positions,
        ) is None,
        1 <= page <= page_count && profile == Some(MediaProfile::Epub) && divina_compatible
            && positions is Some && page > positions->0 ==> page_refusal(
            page,
            page_count,
            profile,
            divina_compatible,
            positions,
        ) == Some(
            ErrorView::Internal("no position for page "@ + crate::text::decimal_int(page as int)),
        ),
{
}

/// Marks a book as read up to a page. In an EPUB the page has to be one of its positions.
pub fn mark_read_progress(
    page: i32,
    page_count: i32,
    profile: Option<MediaProfile>,
    divina_compatible: bool,
    positions: Option<usize>,
) -> (r: Result<PageMark, ApiError>)
    ensures
        match (r, page_refusal(page, page_count, profile, divina_compatible, positions)) {
            (Ok(m), None) => {
                &&& m.mark == read_up_to(page, page_count)
                &&& match m.position {
                    Some(i) => profile == Some(MediaProfile::Epub) && i == page - 1,
                    None => profile != Some(MediaProfile::Epub),
                }
            },
            (Err(e), Some(v)) => e.deep_view() == v,
            _ => false,
        },
{
    let mark: ReadMark = match mark_page(Some(page), page_count) {
        Ok(m) => m,
        Err(e) => {
            return Err(e);
        },
    };
    let is_epub: bool = match profile {
        Some(p) => p == MediaProfile::Epub,
        None => false,
    };
    if !is_epub {
        return Ok(PageMark { mark, position: None });
    }
    match check_epub_pages(divina_compatible) {
        Ok(_) => {},
        Err(e) => {
            return Err(e);
        },
    }
    match positions {
        None => Err(ApiError::bad_request("Epub extension not found")),
        Some(n) => match page_position(page, n) {
            Ok(i) => Ok(PageMark { mark, position: Some(i) }),
            Err(e) => Err(e),
        },
    }
}

/// Refuses a request to mark a book that says nothing, or names a page before the first.
pub fn check_mark_request(valid: bool, page: Option<i32>) -> (r: Result<(), ApiError>)
    ensures
        match r {
            Ok(_) => valid && (page is None || page->0 > 0),
            Err(e) => if !valid {
                e.deep_view() == ErrorView::Violations(Seq::empty())
            } else {
                page is Some && page->0 <= 0 && e.deep_view() == one_violation(
                    "page"@,
                    "must be greater than 0"@,
                )
            },
        },
{
    if !valid {
        let none: Vec<Violation> = Vec::new();
        assert(none.deep_view() =~= Seq::empty());
        return Err(ApiError::Violations(none));
    }
    match page {
        Some(p) => if p <= 0 {
            Err(ApiError::one_violation("page", "must be greater than 0"))
        } else {
            Ok(())
        },
        None => Ok(()),
    }
}

/// What a request to mark a book asks for.
#[derive(Clone, Copy, Debug, PartialEq, Eq, Structural)]
pub enum MarkRequest {
    Completed,
    Page(i32),
}

/// Takes a request to mark a book: as completed if it says so, else up to its page.
pub fn mark_request(completed: Option<bool>, page: Option<i32>) -> (r: MarkRequest)
    requires
        completed == Some(true) || page is Some,
    ensures
        r == (if completed == Some(true) {
            MarkRequest::Completed
        } else {
            MarkRequest::Page(page->0)
        }),
{
    match completed {
        Some(true) => MarkRequest::Completed,
        _ => MarkRequest::Page(page.unwrap()),
    }
}

// ---- EPUB ----

/// What stands before the first `#` of a reference.
pub open spec fn without_fragment(href: Seq<char>) -> Seq<char> {
    href.take(crate::text::first_at(href, '#'))
}

/// A reference leads to the resource that it names, whichever place in it is meant.
pub proof fn fragment_names_no_resource(path: Seq<char>, fragment: Seq<char>)
    requires
        !path.contains('#'),
    ensures
        without_fragment(path) == path,
        without_fragment(path + seq!['#'] + fragment) == path,
{
    crate::text::lemma_first_at(path, '#');
    crate::text::lemma_first_at(path + seq!['#'] + fragment, '#');
    let i = crate::text::first_at(path, '#');
    if i < path.len() {
        assert(path.contains(path[i]));
    }
    let s = path + seq!['#'] + fragment;
    let k = crate::text::first_at(s, '#');
    assert(s[path.len() as int] == '#');
    if k < path.len() {
        assert(s[k] == path[k]);
        assert(path.contains(path[k]));
    }
    assert(path.take(path.len() as int) =~= path);
    assert(s.take(path.len() as int) =~= path);
}

/// The bytes of the name of the resource that a reference leads to.
pub open spec fn resource_bytes(href: Seq<char>) -> Seq<u8> {
    crate::url::percent_decoded(vstd::utf8::encode_utf8(without_fragment(href)))
}

/// The name of the resource that a reference leads to.
pub fn resource_of(href: &str) -> (r: String)
    ensures
        r@ == crate::url::utf8_lossy(resource_bytes(href@)),
        vstd::utf8::valid_utf8(resource_bytes(href@)) ==> r@ == vstd::utf8::decode_utf8(
            resource_bytes(href@),
        ),
{
    let v: Vec<char> = chars_of(href);
    let i: usize = find_char(&v, 0, '#');
    assert(v@.skip(0) =~= v@);
    assert(v@.subrange(0, i as int) =~= v@.take(i as int));
    let stripped: String = string_of(&v, 0, i);
    url_decode(stripped.as_str())
}

/// Refuses a report on a resource that the book does not hold.
pub fn check_resource(href: &str, files: &Vec<String>) -> (r: Result<(), ApiError>)
    ensures
        match r {
            Ok(_) => files.deep_view().contains(href@),
            Err(e) => !files.deep_view().contains(href@) && e.deep_view() == status_error(
                400,
                "Resource does not exist in book: "@ + href@,
            ),
        },
{
    if has_text(files, href) {
        return Ok(());
    }
    let mut m: String = "Resource does not exist in book: ".to_owned();
    m.append(href);
    Err(ApiError::bad_request(m.as_str()))
}

/// Refuses a report that does not say how far into the resource it is.
pub fn check_has_progression(given: bool) -> (r: Result<(), ApiError>)
    ensures
        match r {
            Ok(_) => given,
            Err(e) => !given && e.deep_view() == status_error(
                400,
                "location.progression is required"@,
            ),
        },
{
    if given {
        Ok(())
    } else {
        Err(ApiError::bad_request("location.progression is required"))
    }
}

/// Where a known position is, seen from the reported place in the same resource.
#[derive(Clone, Copy, Debug, PartialEq, Eq, Structural)]
pub enum Side {
    Before,
    Here,
    After,
    /// The position does not say how far into the resource it is.
    Unknown,
}

/// A known position of a book, seen from a report. Shares of a length are of type `F`.
#[derive(Debug, PartialEq, Eq)]
pub struct PositionMark<F> {
    pub href: String,
    pub type_: String,
    pub position: Option<i32>,
    /// How much of the whole book is before it.
    pub total_progression: Option<F>,
    pub kobo_span: Option<String>,
    pub side: Side,
    /// How far a user who is there has read the book.
    pub read: ReadMark,
}

/// The number of a position, zero where it has none.
pub open spec fn number_of<F>(m: PositionMark<F>) -> int {
    match m.position {
        Some(p) => p as int,
        None => 0,
    }
}

/// Whether the position at `i` is in the resource, on this side of the reported place.
pub open spec fn on_side<F>(marks: Seq<PositionMark<F>>, href: Seq<char>, side: Side, i: int) -> bool {
    0 <= i < marks.len() && marks[i].href@ == href && marks[i].side == side
}

/// Whether the position at `i` is in the resource.
pub open spec fn in_resource<F>(marks: Seq<PositionMark<F>>, href: Seq<char>, i: int) -> bool {
    0 <= i < marks.len() && marks[i].href@ == href
}

/// The position at `i` is the only one in the resource.
pub open spec fn is_only<F>(marks: Seq<PositionMark<F>>, href: Seq<char>, i: int) -> bool {
    &&& in_resource(marks, href, i)
    &&& forall|j: int| #[trigger] in_resource(marks, href, j) ==> j == i
}

/// The position at `i` is the first that is where the report is.
pub open spec fn is_first_here<F>(marks: Seq<PositionMark<F>>, href: Seq<char>, i: int) -> bool {
    &&& on_side(marks, href, Side::Here, i)
    &&& forall|j: int| #[trigger] on_side(marks, href, Side::Here, j) ==> i <= j
}

/// The position at `i` is the last before the report: the one with the highest number, the later
/// of two with the same.
pub open spec fn is_last_before<F>(marks: Seq<PositionMark<F>>, href: Seq<char>, i: int) -> bool {
    &&& on_side(marks, href, Side::Before, i)
    &&& forall|j: int| #[trigger]
        on_side(marks, href, Side::Before, j) ==> number_of(marks[j]) < number_of(marks[i]) || (
        number_of(marks[j]) == number_of(marks[i]) && j <= i)
}

/// The position at `i` is the first after the report: the one with the lowest number, the earlier
/// of two with the same.
pub open spec fn is_first_after<F>(marks: Seq<PositionMark<F>>, href: Seq<char>, i: int) -> bool {
    &&& on_side(marks, href, Side::After, i)
    &&& forall|j: int| #[trigger]
        on_side(marks, href, Side::After, j) ==> number_of(marks[i]) < number_of(marks[j]) || (
        number_of(marks[i]) == number_of(marks[j]) && i <= j)
}

/// Whether a report has to be placed between two known positions.
pub open spec fn needs_neighbours<F>(marks: Seq<PositionMark<F>>, href: Seq<char>, fixed_layout: bool) -> bool {
    &&& !(fixed_layout && exists|i: int| is_only(marks, href, i))
    &&& !exists|i: int| is_first_here(marks, href, i)
}

/// The positions between which a report is placed say their numbers.
pub open spec fn neighbours_are_numbered<F>(
    marks: Seq<PositionMark<F>>,
    href: Seq<char>,
    fixed_layout: bool,
) -> bool {
    needs_neighbours(marks, href, fixed_layout) ==> forall|i: int, j: int|
        is_last_before(marks, href, i) && is_first_after(marks, href, j)
            ==> marks[i].position is Some && marks[j].position is Some
}

/// A report is at the position at `i`: the only one in the resource for a book with a fixed layout,
/// else the first at the very place, else the one right before it.
pub open spec fn is_match<F>(
    marks: Seq<PositionMark<F>>,
    href: Seq<char>,
    fixed_layout: bool,
    i: int,
) -> bool {
    if fixed_layout && is_only(marks, href, i) {
        true
    } else if is_first_here(marks, href, i) {
        !fixed_layout || forall|k: int| !is_only(marks, href, k)
    } else {
        &&& needs_neighbours(marks, href, fixed_layout)
        &&& is_last_before(marks, href, i)
        &&& exists|j: int|
            is_first_after(marks, href, j) && number_of(marks[i]) <= number_of(marks[j])
    }
}

/// A report is at no position: it is not between two, or between two in the wrong order.
pub open spec fn has_no_match<F>(marks: Seq<PositionMark<F>>, href: Seq<char>, fixed_layout: bool) -> bool {
    &&& needs_neighbours(marks, href, fixed_layout)
    &&& forall|i: int, j: int|
        is_last_before(marks, href, i) && is_first_after(marks, href, j) ==> number_of(marks[i])
            > number_of(marks[j])
}

/// A report is at one position at most, and it is at one unless it is refused.
pub proof fn a_report_is_at_one_position<F>(
    marks: Seq<PositionMark<F>>,
    href: Seq<char>,
    fixed_layout: bool,
    i: int,
    j: int,
)
    requires
        is_match(marks, href, fixed_layout, i),
    ensures
        is_match(marks, href, fixed_layout, j) ==> i == j,
        !has_no_match(marks, href, fixed_layout),
        in_resource(marks, href, i),
{
    if is_match(marks, href, fixed_layout, j) {
        if fixed_layout && is_only(marks, href, i) {
            assert(in_resource(marks, href, j));
        } else if fixed_layout && is_only(marks, href, j) {
            assert(in_resource(marks, href, i));
        } else if is_first_here(marks, href, i) && is_first_here(marks, href, j) {
            assert(on_side(marks, href, Side::Here, i));
            assert(on_side(marks, href, Side::Here, j));
        } else if !is_first_here(marks, href, i) && !is_first_here(marks, href, j) {
            assert(on_side(marks, href, Side::Before, i));
            assert(on_side(marks, href, Side::Before, j));
        }
    }
}

/// A report is at a place in its resource that the reader has reached: at the very place where some
/// position is there, and then at the first such, else at a position before it, with no other before it
/// that has a higher number, and with one after it that has no lower number. Only in a book with a fixed
/// layout, for a resource with one position, the place within the resource does not matter.
pub proof fn report_is_at_the_nearest_position<F>(
    marks: Seq<PositionMark<F>>,
    href: Seq<char>,
    fixed_layout: bool,
    i: int,
    j: int,
)
    requires
        is_match(marks, href, fixed_layout, i),
        0 <= j < marks.len(),
        marks[j].href@ == href,
    ensures
        0 <= i < marks.len(),
        marks[i].href@ == href,
        i != j ==> marks[i].side == Side::Here || marks[i].side == Side::Before,
        i != j && marks[j].side == Side::Here ==> marks[i].side == Side::Here && i < j,
        i != j && marks[i].side == Side::Before && marks[j].side == Side::Before ==> number_of(
            marks[j],
        ) <= number_of(marks[i]),
        i != j && marks[i].side == Side::Before && marks[j].side == Side::Before && i < j
            ==> number_of(marks[j]) < number_of(marks[i]),
        !fixed_layout ==> marks[i].side == Side::Here || marks[i].side == Side::Before,
        !fixed_layout && marks[i].side == Side::Before ==> exists|k: int|
            0 <= k < marks.len() && (#[trigger] marks[k]).href@ == href && marks[k].side == Side::After
                && number_of(marks[i]) <= number_of(marks[k]),
{
    assert(in_resource(marks, href, j));
    assert(on_side(marks, href, marks[j].side, j));
    if fixed_layout && is_only(marks, href, i) {
        assert(j == i);
    } else if is_first_here(marks, href, i) {
        assert(on_side(marks, href, Side::Here, i));
    } else {
        assert(on_side(marks, href, Side::Before, i));
        let a = choose|a: int|
            is_first_after(marks, href, a) && number_of(marks[i]) <= number_of(marks[a]);
        assert(on_side(marks, href, Side::After, a));
        assert(marks[a].href@ == href);
        if marks[j].side == Side::Here {
            lemma_first_here(marks, href, j);
        }
    }
}

/// Where some position is where the report is, there is a first such.
proof fn lemma_first_here<F>(marks: Seq<PositionMark<F>>, href: Seq<char>, j: int)
    requires
        on_side(marks, href, Side::Here, j),
    ensures
        exists|i: int| is_first_here(marks, href, i),
    decreases j,
{
    if is_first_here(marks, href, j) {
    } else {
        let k = choose|k: int| #[trigger] on_side(marks, href, Side::Here, k) && k < j;
        lemma_first_here(marks, href, k);
    }
}

/// A report is refused for its place only if no position of its resource is at it, and it is not in a
/// book with a fixed layout whose resource has a single position.
pub proof fn report_at_a_position_has_a_place<F>(
    marks: Seq<PositionMark<F>>,
    href: Seq<char>,
    fixed_layout: bool,
    j: int,
)
    requires
        has_no_match(marks, href, fixed_layout),
        0 <= j < marks.len(),
        marks[j].href@ == href,
    ensures
        marks[j].side != Side::Here,
        fixed_layout ==> exists|k: int|
            0 <= k < marks.len() && k != j && (#[trigger] marks[k]).href@ == href,
{
    if marks[j].side == Side::Here {
        assert(on_side(marks, href, Side::Here, j));
        lemma_first_here(marks, href, j);
    }
    if fixed_layout && !(exists|k: int|
        0 <= k < marks.len() && k != j && (#[trigger] marks[k]).href@ == href) {
        assert(in_resource(marks, href, j));
        assert forall|k: int| #[trigger] in_resource(marks, href, k) implies k == j by {
            assert(marks[k].href@ == href);
        }
        assert(is_only(marks, href, j));
    }
}

/// The position at `i` is the last before the report among the first `n`.
spec fn best_before<F>(marks: Seq<PositionMark<F>>, href: Seq<char>, n: int, i: int) -> bool {
    &&& on_side(marks, href, Side::Before, i)
    &&& i < n
    &&& forall|j: int|
        j < n && #[trigger] on_side(marks, href, Side::Before, j) ==> number_of(marks[j]) < number_of(
            marks[i],
        ) || (number_of(marks[j]) == number_of(marks[i]) && j <= i)
}

proof fn lemma_best_before<F>(marks: Seq<PositionMark<F>>, href: Seq<char>, n: int, b: int) -> (i: int)
    requires
        0 <= n <= marks.len(),
        on_side(marks, href, Side::Before, b),
        b < n,
    ensures
        best_before(marks, href, n, i),
    decreases n,
{
    let last = n - 1;
    if forall|k: int| k < last ==> !#[trigger] on_side(marks, href, Side::Before, k) {
        last
    } else {
        let k = choose|k: int| k < last && #[trigger] on_side(marks, href, Side::Before, k);
        let i = lemma_best_before(marks, href, last, k);
        if on_side(marks, href, Side::Before, last) && number_of(marks[last]) >= number_of(marks[i]) {
            last
        } else {
            i
        }
    }
}

/// The position at `i` is the first after the report among the first `n`.
spec fn best_after<F>(marks: Seq<PositionMark<F>>, href: Seq<char>, n: int, i: int) -> bool {
    &&& on_side(marks, href, Side::After, i)
    &&& i < n
    &&& forall|j: int|
        j < n && #[trigger] on_side(marks, href, Side::After, j) ==> number_of(marks[i]) < number_of(
            marks[j],
        ) || (number_of(marks[i]) == number_of(marks[j]) && i <= j)
}

proof fn lemma_best_after<F>(marks: Seq<PositionMark<F>>, href: Seq<char>, n: int, a: int) -> (i: int)
    requires
        0 <= n <= marks.len(),
        on_side(marks, href, Side::After, a),
        a < n,
    ensures
        best_after(marks, href, n, i),
    decreases n,
{
    let last = n - 1;
    if forall|k: int| k < last ==> !#[trigger] on_side(marks, href, Side::After, k) {
        last
    } else {
        let k = choose|k: int| k < last && #[trigger] on_side(marks, href, Side::After, k);
        let i = lemma_best_after(marks, href, last, k);
        if on_side(marks, href, Side::After, last) && number_of(marks[last]) < number_of(marks[i]) {
            last
        } else {
            i
        }
    }
}

/// A report between two positions of its resource, all of those before it having no higher numbers than
/// all of those after it, is taken.
pub proof fn report_between_positions_is_taken<F>(
    marks: Seq<PositionMark<F>>,
    href: Seq<char>,
    fixed_layout: bool,
    b: int,
    a: int,
)
    requires
        0 <= b < marks.len(),
        0 <= a < marks.len(),
        marks[b].href@ == href && marks[b].side == Side::Before,
        marks[a].href@ == href && marks[a].side == Side::After,
        forall|i: int, j: int|
            #![trigger marks[i], marks[j]]
            0 <= i < marks.len() && 0 <= j < marks.len() && marks[i].href@ == href && marks[i].side
                == Side::Before && marks[j].href@ == href && marks[j].side == Side::After ==> number_of(
                marks[i],
            ) <= number_of(marks[j]),
    ensures
        !has_no_match(marks, href, fixed_layout),
{
    let n = marks.len() as int;
    let i = lemma_best_before(marks, href, n, b);
    let k = lemma_best_after(marks, href, n, a);
    assert(is_last_before(marks, href, i));
    assert(is_first_after(marks, href, k));
    assert(number_of(marks[i]) <= number_of(marks[k]));
}

/// The two known positions that a report is between.
#[derive(Debug, PartialEq, Eq)]
pub struct Neighbours {
    pub before: Option<usize>,
    pub after: Option<usize>,
}

fn mark_number<F>(m: &PositionMark<F>) -> (r: i32)
    ensures
        r == number_of(*m),
{
    match m.position {
        Some(p) => p,
        None => 0,
    }
}

/// Finds the known positions right before and right after a report.
pub fn neighbours<F>(marks: &Vec<PositionMark<F>>, href: &str) -> (r: Neighbours)
    ensures
        match r.before {
            Some(i) => is_last_before(marks@, href@, i as int),
            None => forall|j: int| !#[trigger] on_side(marks@, href@, Side::Before, j),
        },
        match r.after {
            Some(i) => is_first_after(marks@, href@, i as int),
            None => forall|j: int| !#[trigger] on_side(marks@, href@, Side::After, j),
        },
{
    let mut before: Option<usize> = None;
    let mut after: Option<usize> = None;
    let mut i: usize = 0;
    while i < marks.len()
        invariant
            i <= marks.len(),
            match before {
                Some(b) => b < i && on_side(marks@, href@, Side::Before, b as int) && (forall|j: int|
                    j < i && #[trigger] on_side(marks@, href@, Side::Before, j) ==> number_of(marks@[j])
                        < number_of(marks@[b as int]) || (number_of(marks@[j]) == number_of(
                        marks@[b as int],
                    ) && j <= b)),
                None => forall|j: int|
                    j < i ==> !#[trigger] on_side(marks@, href@, Side::Before, j),
            },
            match after {
                Some(b) => b < i && on_side(marks@, href@, Side::After, b as int) && (forall|j: int|
                    j < i && #[trigger] on_side(marks@, href@, Side::After, j) ==> number_of(
                        marks@[b as int],
                    ) < number_of(marks@[j]) || (number_of(marks@[b as int]) == number_of(marks@[j])
                        && b <= j)),
                None => forall|j: int|
                    j < i ==> !#[trigger] on_side(marks@, href@, Side::After, j),
            },
        decreases marks.len() - i,
    {
        if text_eq(marks[i].href.as_str(), href) {
            let n: i32 = mark_number(&marks[i]);
            match marks[i].side {
                Side::Before => {
                    let better: bool = match before {
                        Some(b) => n >= mark_number(&marks[b]),
                        None => true,
                    };
                    if better {
                        before = Some(i);
                    }
                },
                Side::After => {
                    let better: bool = match after {
                        Some(b) => n < mark_number(&marks[b]),
                        None => true,
                    };
                    if better {
                        after = Some(i);
                    }
                },
                _ => {},
            }
        }
        i += 1;
    }
    Neighbours { before, after }
}

fn find_only<F>(marks: &Vec<PositionMark<F>>, href: &str) -> (r: Option<usize>)
    ensures
        match r {
            Some(i) => is_only(marks@, href@, i as int),
            None => forall|i: int| !is_only(marks@, href@, i),
        },
{
    let mut found: Option<usize> = None;
    let mut i: usize = 0;
    while i < marks.len()
        invariant
            i <= marks.len(),
            match found {
                Some(k) => k < i && in_resource(marks@, href@, k as int) && (forall|j: int|
                    j < i && #[trigger] in_resource(marks@, href@, j) ==> j == k),
                None => forall|j: int| j < i ==> !#[trigger] in_resource(marks@, href@, j),
            },
        decreases marks.len() - i,
    {
        if text_eq(marks[i].href.as_str(), href) {
            match found {
                Some(k) => {
                    assert(in_resource(marks@, href@, i as int));
                    assert(in_resource(marks@, href@, k as int));
                    return None;
                },
                None => {
                    found = Some(i);
                },
            }
        }
        i += 1;
    }
    found
}

fn find_first_here<F>(marks: &Vec<PositionMark<F>>, href: &str) -> (r: Option<usize>)
    ensures
        match r {
            Some(i) => is_first_here(marks@, href@, i as int),
            None => forall|i: int| !#[trigger] on_side(marks@, href@, Side::Here, i),
        },
{
    let mut i: usize = 0;
    while i < marks.len()
        invariant
            i <= marks.len(),
            forall|j: int| j < i ==> !#[trigger] on_side(marks@, href@, Side::Here, j),
        decreases marks.len() - i,
    {
        if marks[i].side == Side::Here && text_eq(marks[i].href.as_str(), href) {
            return Some(i);
        }
        i += 1;
    }
    None
}

/// Finds the known position that a report is at: the only one in the resource for a book with a
/// fixed layout, else the first at the very place, else the one right before it. A place that is not
/// between two positions, or between two in the wrong order, is refused.
pub fn match_position<F>(marks: &Vec<PositionMark<F>>, href: &str, fixed_layout: bool) -> (r: Result<
    usize,
    ApiError,
>)
    requires
        neighbours_are_numbered(marks@, href@, fixed_layout),
    ensures
        match r {
            Ok(i) => is_match(marks@, href@, fixed_layout, i as int),
            Err(e) => e.deep_view() == status_error(400, "Invalid progression"@) && has_no_match(
                marks@,
                href@,
                fixed_layout,
            ),
        },
{
    if fixed_layout {
        match find_only(marks, href) {
            Some(i) => {
                return Ok(i);
            },
            None => {},
        }
    }
    match find_first_here(marks, href) {
        Some(i) => {
            return Ok(i);
        },
        None => {},
    }
    proof {
        assert forall|i: int| !is_first_here(marks@, href@, i) by {
            assert(!on_side(marks@, href@, Side::Here, i));
        }
        assert(needs_neighbours(marks@, href@, fixed_layout));
    }
    let n: Neighbours = neighbours(marks, href);
    match (n.before, n.after) {
        (Some(b), Some(a)) => {
            proof {
                lemma_neighbours_unique(marks@, href@, b as int, a as int);
            }
            if mark_number(&marks[b]) > mark_number(&marks[a]) {
                Err(ApiError::bad_request("Invalid progression"))
            } else {
                assert(!on_side(marks@, href@, Side::Here, b as int));
                Ok(b)
            }
        },
        _ => {
            proof {
                assert forall|i: int, j: int|
                    is_last_before(marks@, href@, i) && is_first_after(
                        marks@,
                        href@,
                        j,
                    ) implies number_of(marks@[i]) > number_of(marks@[j]) by {
                    assert(on_side(marks@, href@, Side::Before, i));
                    assert(on_side(marks@, href@, Side::After, j));
                }
            }
            Err(ApiError::bad_request("Invalid progression"))
        },
    }
}

proof fn lemma_neighbours_unique<F>(marks: Seq<PositionMark<F>>, href: Seq<char>, b: int, a: int)
    requires
        is_last_before(marks, href, b),
        is_first_after(marks, href, a),
    ensures
        forall|i: int| is_last_before(marks, href, i) ==> i == b,
        forall|j: int| is_first_after(marks, href, j) ==> j == a,
{
    assert forall|i: int| is_last_before(marks, href, i) implies i == b by {
        assert(on_side(marks, href, Side::Before, i));
        assert(on_side(marks, href, Side::Before, b));
    }
    assert forall|j: int| is_first_after(marks, href, j) implies j == a by {
        assert(on_side(marks, href, Side::After, j));
        assert(on_side(marks, href, Side::After, a));
    }
}

// ---- a whole report ----

/// Where a place is in its resource, and in the whole book. Shares of a length are of type `F`.
#[derive(Debug, PartialEq, Eq)]
pub struct Location<F> {
    pub fragments: Vec<String>,
    pub progression: Option<F>,
    pub position: Option<i32>,
    pub total_progression: Option<F>,
}

/// A place in a book. What is quoted there is of type `T`.
#[derive(Debug, PartialEq, Eq)]
pub struct Locator<F, T> {
    pub href: String,
    pub type_: String,
    pub title: Option<String>,
    pub locations: Option<Location<F>>,
    pub text: Option<T>,
    pub kobo_span: Option<String>,
}

/// A report on how far a user is in a book. Its place is of type `L`.
#[derive(Debug, PartialEq, Eq)]
pub struct Progression<L> {
    /// When it was made, in nanoseconds.
    pub modified: i128,
    pub device_id: String,
    pub device_name: String,
    pub locator: L,
}

/// What is stored of how far a user is in a book.
#[derive(Debug, PartialEq, Eq)]
pub struct StoredProgress<L> {
    pub page: i32,
    pub completed: bool,
    /// When it was reported, in nanoseconds.
    pub read_date: i128,
    pub device_id: String,
    pub device_name: String,
    pub locator: Option<L>,
}

/// The known positions of an EPUB, seen from a report.
#[derive(Debug, PartialEq, Eq)]
pub struct KnownPositions<F> {
    pub marks: Vec<PositionMark<F>>,
    pub fixed_layout: bool,
}

/// A book that a report is about. An EPUB's positions are missing where they could not be read.
#[derive(Debug, PartialEq, Eq)]
pub struct ReportedBook<F> {
    pub profile: Option<MediaProfile>,
    pub page_count: i32,
    pub files: Vec<String>,
    pub positions: Option<KnownPositions<F>>,
}

/// The number of a place, if it has one.
pub open spec fn position_at<F, T>(locator: Locator<F, T>) -> Option<i32> {
    match locator.locations {
        Some(l) => l.position,
        None => None,
    }
}

/// Whether a place says how far into its resource it is.
pub open spec fn has_progression<F, T>(locator: Locator<F, T>) -> bool {
    locator.locations is Some && locator.locations->0.progression is Some
}

/// A place in a resource of an EPUB, as a device that knows no more of it reports it.
pub open spec fn is_in_resource<F, T>(
    l: Locator<F, T>,
    href: Seq<char>,
    kobo_span: Option<Seq<char>>,
    progression: Option<F>,
    total_progression: Option<F>,
) -> bool {
    &&& l.href@ == href
    &&& l.type_@ == "application/xhtml+xml"@
    &&& l.title is None
    &&& l.text is None
    &&& l.kobo_span.deep_view() == kobo_span
    &&& l.locations is Some
    &&& l.locations->0.fragments@.len() == 0
    &&& l.locations->0.progression == progression
    &&& l.locations->0.position is None
    &&& l.locations->0.total_progression == total_progression
}

/// Puts together a place in a resource of an EPUB.
pub fn resource_locator<F, T>(
    href: String,
    kobo_span: Option<String>,
    progression: Option<F>,
    total_progression: Option<F>,
) -> (r: Locator<F, T>)
    ensures
        is_in_resource(r, href@, kobo_span.deep_view(), progression, total_progression),
{
    Locator {
        href,
        type_: "application/xhtml+xml".to_owned(),
        title: None,
        locations: Some(
            Location { fragments: Vec::new(), progression, position: None, total_progression },
        ),
        text: None,
        kobo_span,
    }
}

/// Why a report is refused before its place is looked for, if it is. `resource` is the name of the
/// resource that it is about.
pub open spec fn report_refusal<F, T>(
    saved: Option<i128>,
    new: Progression<Locator<F, T>>,
    resource: Seq<char>,
    book: ReportedBook<F>,
) -> Option<ErrorView> {
    if saved is Some && new.modified <= saved->0 {
        Some(status_error(409, "Progression is older than existing"@))
    } else if book.profile is None {
        Some(status_error(400, "Media has no profile"@))
    } else if book.profile != Some(MediaProfile::Epub) {
        if position_at(new.locator) is Some && 1 <= position_at(new.locator)->0
            <= book.page_count {
            None
        } else {
            Some(status_error(400, page_range_message(position_at(new.locator), book.page_count)))
        }
    } else if !book.files.deep_view().contains(resource) {
        Some(status_error(400, "Resource does not exist in book: "@ + resource))
    } else if !has_progression(new.locator) {
        Some(status_error(400, "location.progression is required"@))
    } else if book.positions is None {
        Some(status_error(400, "Epub extension not found"@))
    } else {
        None
    }
}

/// A report is taken only if it is newer than what is stored and fits its book: it names a page of a
/// book of pages, or a place in a file of an EPUB whose positions are known.
pub proof fn taken_report_fits_its_book<F, T>(
    saved: Option<i128>,
    new: Progression<Locator<F, T>>,
    resource: Seq<char>,
    book: ReportedBook<F>,
)
    requires
        report_refusal(saved, new, resource, book) is None,
    ensures
        saved is Some ==> saved->0 < new.modified,
        book.profile is Some,
        new.locator.locations is Some,
        book.profile->0 != MediaProfile::Epub ==> new.locator.locations->0.position is Some && 1
            <= new.locator.locations->0.position->0 <= book.page_count,
        book.profile->0 == MediaProfile::Epub ==> book.files.deep_view().contains(resource)
            && new.locator.locations->0.progression is Some && book.positions is Some,
{
}

/// A report that is refused before its place is looked for is told the first thing that is wrong: it is
/// old, the book has no profile; the book of pages has no such page; the EPUB has no such file, the
/// report does not say how far into it, nothing is known of its positions.
pub proof fn refused_report_is_told_what_is_wrong<F, T>(
    saved: Option<i128>,
    new: Progression<Locator<F, T>>,
    resource: Seq<char>,
    book: ReportedBook<F>,
    given: Location<F>,
)
    ensures
        saved is Some && new.modified <= saved->0 ==> report_refusal(saved, new, resource, book)
            == Some(status_error(409, "Progression is older than existing"@)),
        (saved is None || saved->0 < new.modified) && book.profile is None ==> report_refusal(
            saved,
            new,
            resource,
            book,
        ) == Some(status_error(400, "Media has no profile"@)),
        (saved is None || saved->0 < new.modified) && book.profile == Some(MediaProfile::Epub)
            && !book.files.deep_view().contains(resource) ==> report_refusal(
            saved,
            new,
            resource,
            book,
        ) == Some(status_error(400, "Resource does not exist in book: "@ + resource)),
        (saved is None || saved->0 < new.modified) && book.profile == Some(MediaProfile::Epub)
            && book.files.deep_view().contains(resource) && new.locator.locations == Some(given)
            && given.progression is None ==> report_refusal(saved, new, resource, book) == Some(
            status_error(400, "location.progression is required"@),
        ),
        (saved is None || saved->0 < new.modified) && book.profile == Some(MediaProfile::Epub)
            && book.files.deep_view().contains(resource) && new.locator.locations == Some(given)
            && given.progression is Some && book.positions is None ==> report_refusal(
            saved,
            new,
            resource,
            book,
        ) == Some(status_error(400, "Epub extension not found"@)),
        (saved is None || saved->0 < new.modified) && book.profile is Some && book.profile->0
            != MediaProfile::Epub && new.locator.locations == Some(given) && given.position is Some
            && !(1 <= given.position->0 <= book.page_count) ==> report_refusal(
            saved,
            new,
            resource,
            book,
        ) == Some(
            status_error(
                400,
                "Page argument ("@ + crate::text::decimal_int(given.position->0 as int)
                    + ") must be within 1 and book page count ("@ + crate::text::decimal_int(
                    book.page_count as int,
                ) + ")"@,
            ),
        ),
        (saved is None || saved->0 < new.modified) && book.profile is Some && book.profile->0
            != MediaProfile::Epub && new.locator.locations == Some(given) && given.position is Some
            && 1 <= given.position->0 <= book.page_count ==> report_refusal(
            saved,
            new,
            resource,
            book,
        ) is None,
        (saved is None || saved->0 < new.modified) && book.profile == Some(MediaProfile::Epub)
            && book.files.deep_view().contains(resource) && new.locator.locations == Some(given)
            && given.progression is Some && book.positions is Some ==> report_refusal(
            saved,
            new,
            resource,
            book,
        ) is None,
{
}

/// The place that is stored for a report that is at a known position: the reported one, with the type
/// and the share of the whole book of the position, and with its span where none is reported.
pub open spec fn is_stored_locator<F, T>(
    reported: Locator<F, T>,
    matched: PositionMark<F>,
    stored: Locator<F, T>,
) -> bool {
    &&& stored.href == reported.href
    &&& stored.type_@ == matched.type_@
    &&& stored.title == reported.title
    &&& stored.text == reported.text
    &&& stored.kobo_span.deep_view() == (if reported.kobo_span is Some {
        reported.kobo_span.deep_view()
    } else {
        matched.kobo_span.deep_view()
    })
    &&& stored.locations == (match reported.locations {
        Some(l) => Some(Location { total_progression: matched.total_progression, ..l }),
        None => None,
    })
}

/// What is stored for a report: its moment and its device; of a book of pages the page and the
/// reported place, of an EPUB what the position at `i` says.
pub open spec fn is_stored_at<F, T>(
    new: Progression<Locator<F, T>>,
    book: ReportedBook<F>,
    i: int,
    stored: StoredProgress<Locator<F, T>>,
) -> bool {
    &&& stored.read_date == new.modified
    &&& stored.device_id == new.device_id
    &&& stored.device_name == new.device_name
    &&& if book.profile == Some(MediaProfile::Epub) {
        let matched = book.positions->0.marks@[i];
        &&& stored.page == matched.read.page
        &&& stored.completed == matched.read.completed
        &&& stored.locator is Some
        &&& is_stored_locator(new.locator, matched, stored.locator->0)
    } else {
        &&& position_at(new.locator) == Some(stored.page)
        &&& stored.completed == (stored.page == book.page_count)
        &&& stored.locator == Some(new.locator)
    }
}

/// The report on an EPUB is at the known position at `i`.
pub open spec fn is_at<F>(book: ReportedBook<F>, resource: Seq<char>, i: int) -> bool {
    is_match(book.positions->0.marks@, resource, book.positions->0.fixed_layout, i)
}

/// What is stored for a report that is not refused.
pub open spec fn is_stored<F, T>(
    new: Progression<Locator<F, T>>,
    resource: Seq<char>,
    book: ReportedBook<F>,
    stored: StoredProgress<Locator<F, T>>,
) -> bool {
    exists|i: int| #[trigger]
        is_stored_at(new, book, i, stored) && (book.profile == Some(MediaProfile::Epub) ==> is_at(
            book,
            resource,
            i,
        ))
}

/// Puts together the place that is stored for a report that is at a known position.
pub fn stored_locator<F: Copy, T>(reported: Locator<F, T>, matched: &PositionMark<F>) -> (r: Locator<
    F,
    T,
>)
    ensures
        is_stored_locator(reported, *matched, r),
{
    let kobo_span: Option<String> = stored_kobo_span(&reported.kobo_span, &matched.kobo_span);
    let locations: Option<Location<F>> = match reported.locations {
        Some(l) => Some(
            Location {
                fragments: l.fragments,
                progression: l.progression,
                position: l.position,
                total_progression: matched.total_progression,
            },
        ),
        None => None,
    };
    Locator {
        href: reported.href,
        type_: matched.type_.clone(),
        title: reported.title,
        locations,
        text: reported.text,
        kobo_span,
    }
}

fn position_of<F, T>(locator: &Locator<F, T>) -> (r: Option<i32>)
    ensures
        r == position_at(*locator),
{
    match &locator.locations {
        Some(l) => l.position,
        None => None,
    }
}

fn says_progression<F, T>(locator: &Locator<F, T>) -> (r: bool)
    ensures
        r == has_progression(*locator),
{
    match &locator.locations {
        Some(l) => l.progression.is_some(),
        None => false,
    }
}

/// Takes a report, and puts together what is stored for it: the user is on a page of a book of pages,
/// at a known position of an EPUB. A report that is old, or that does not fit the book, is refused.
/// `resource` is the name of the resource that the report is about.
pub fn mark_progression<F: Copy, T>(
    saved: Option<i128>,
    new: Progression<Locator<F, T>>,
    resource: &str,
    book: &ReportedBook<F>,
) -> (r: Result<StoredProgress<Locator<F, T>>, ApiError>)
    requires
        book.profile == Some(MediaProfile::Epub) && report_refusal(saved, new, resource@, *book)
            is None ==> neighbours_are_numbered(
            book.positions->0.marks@,
            resource@,
            book.positions->0.fixed_layout,
        ),
    ensures
        match (r, report_refusal(saved, new, resource@, *book)) {
            (Err(e), Some(v)) => e.deep_view() == v,
            (Ok(stored), None) => is_stored(new, resource@, *book, stored),
            (Err(e), None) => book.profile == Some(MediaProfile::Epub) && e.deep_view()
                == status_error(400, "Invalid progression"@) && has_no_match(
                book.positions->0.marks@,
                resource@,
                book.positions->0.fixed_layout,
            ),
            (Ok(_), Some(_)) => false,
        },
{
    match check_newer(new.modified, saved) {
        Ok(_) => {},
        Err(e) => {
            return Err(e);
        },
    }
    let profile: MediaProfile = match require_profile(book.profile) {
        Ok(p) => p,
        Err(e) => {
            return Err(e);
        },
    };
    if profile != MediaProfile::Epub {
        return match mark_page(position_of(&new.locator), book.page_count) {
            Ok(m) => {
                let stored: StoredProgress<Locator<F, T>> = StoredProgress {
                    page: m.page,
                    completed: m.completed,
                    read_date: new.modified,
                    device_id: new.device_id,
                    device_name: new.device_name,
                    locator: Some(new.locator),
                };
                assert(is_stored_at(new, *book, 0, stored));
                Ok(stored)
            },
            Err(e) => Err(e),
        };
    }
    match check_resource(resource, &book.files) {
        Ok(_) => {},
        Err(e) => {
            return Err(e);
        },
    }
    match check_has_progression(says_progression(&new.locator)) {
        Ok(_) => {},
        Err(e) => {
            return Err(e);
        },
    }
    match &book.positions {
        None => Err(ApiError::bad_request("Epub extension not found")),
        Some(known) => match match_position(&known.marks, resource, known.fixed_layout) {
            Ok(i) => {
                proof {
                    a_report_is_at_one_position(
                        known.marks@,
                        resource@,
                        known.fixed_layout,
                        i as int,
                        i as int,
                    );
                }
                let matched: &PositionMark<F> = &known.marks[i];
                let stored: StoredProgress<Locator<F, T>> = StoredProgress {
                    page: matched.read.page,
                    completed: matched.read.completed,
                    read_date: new.modified,
                    device_id: new.device_id,
                    device_name: new.device_name,
                    locator: Some(stored_locator(new.locator, matched)),
                };
                assert(is_stored_at(new, *book, i as int, stored));
                Ok(stored)
            },
            Err(e) => Err(e),
        },
    }
}

/// What is stored when a user marks a book, by its texts.
pub open spec fn is_marked<L>(
    r: StoredProgress<L>,
    mark: ReadMark,
    now: i128,
    locator: Option<L>,
) -> bool {
    &&& r.page == mark.page
    &&& r.completed == mark.completed
    &&& r.read_date == now
    &&& r.device_id@ == ""@
    &&& r.device_name@ == ""@
    &&& r.locator == locator
}

/// A book that a user marks is told to be read at that moment, by no device, at the place that was given;
/// one that is marked as completed is completed at its last page.
pub proof fn marked_book_is_told_back<L>(
    r: StoredProgress<L>,
    page: i32,
    page_count: i32,
    now: i128,
    locator: Option<L>,
    otherwise: L,
)
    requires
        is_marked(r, read_up_to(page, page_count), now, locator),
    ensures
        r.page == page,
        r.completed <==> page == page_count,
        progression_of(r, otherwise).modified == now,
        progression_of(r, otherwise).device_id@.len() == 0,
        progression_of(r, otherwise).device_name@.len() == 0,
        locator is Some ==> progression_of(r, otherwise).locator == locator->0,
        locator is None ==> progression_of(r, otherwise).locator == otherwise,
{
    reveal_strlit("");
}

/// What is stored when a user marks a book: no device says so.
pub fn marked<L>(mark: ReadMark, now: i128, locator: Option<L>) -> (r: StoredProgress<L>)
    ensures
        is_marked(r, mark, now, locator),
{
    StoredProgress {
        page: mark.page,
        completed: mark.completed,
        read_date: now,
        device_id: "".to_owned(),
        device_name: "".to_owned(),
        locator,
    }
}

/// What is told of what is stored. `otherwise` stands for a place that is not known.
pub open spec fn progression_of<L>(stored: StoredProgress<L>, otherwise: L) -> Progression<L> {
    Progression {
        modified: stored.read_date,
        device_id: stored.device_id,
        device_name: stored.device_name,
        locator: match stored.locator {
            Some(l) => l,
            None => otherwise,
        },
    }
}

/// Tells how far a user is in a book, as it is stored.
pub fn get_progression<L>(stored: StoredProgress<L>, otherwise: L) -> (r: Progression<L>)
    ensures
        r == progression_of(stored, otherwise),
{
    Progression {
        modified: stored.read_date,
        device_id: stored.device_id,
        device_name: stored.device_name,
        locator: match stored.locator {
            Some(l) => l,
            None => otherwise,
        },
    }
}

/// What a reader reports is told back: its moment, its device and its resource, and of a book of
/// pages the report as it was made.
pub proof fn stored_report_is_told_back<F, T>(
    new: Progression<Locator<F, T>>,
    resource: Seq<char>,
    book: ReportedBook<F>,
    stored: StoredProgress<Locator<F, T>>,
    otherwise: Locator<F, T>,
)
    requires
        is_stored(new, resource, book, stored),
    ensures
        progression_of(stored, otherwise).modified == new.modified,
        progression_of(stored, otherwise).device_id == new.device_id,
        progression_of(stored, otherwise).device_name == new.device_name,
        progression_of(stored, otherwise).locator.href == new.locator.href,
        book.profile != Some(MediaProfile::Epub) ==> progression_of(stored, otherwise) == new,
{
}

/// A report on an EPUB that is taken at a known position is stored with how far the position is read,
/// and whether that is the end; one on a book of pages with the page that it names, which ends the book
/// exactly if it is the last.
pub proof fn stored_report_is_as_far_as_its_place<F, T>(
    new: Progression<Locator<F, T>>,
    resource: Seq<char>,
    book: ReportedBook<F>,
    i: int,
    stored: StoredProgress<Locator<F, T>>,
)
    requires
        is_stored(new, resource, book, stored),
    ensures
        book.profile == Some(MediaProfile::Epub) && is_at(book, resource, i) ==> stored.page
            == book.positions->0.marks@[i].read.page && stored.completed
            == book.positions->0.marks@[i].read.completed,
        book.profile == Some(MediaProfile::Epub) && is_at(book, resource, i) ==> stored.locator
            is Some && stored.locator->0.type_@ == book.positions->0.marks@[i].type_@ && (
        new.locator.locations is Some ==> stored.locator->0.locations is Some
            && stored.locator->0.locations->0.total_progression
            == book.positions->0.marks@[i].total_progression && stored.locator->0.locations->0.position
            == new.locator.locations->0.position && stored.locator->0.locations->0.progression
            == new.locator.locations->0.progression),
        book.profile == Some(MediaProfile::Epub) && is_at(book, resource, i)
            && new.locator.kobo_span is None ==> stored.locator->0.kobo_span.deep_view()
            == book.positions->0.marks@[i].kobo_span.deep_view(),
        new.locator.kobo_span is Some ==> stored.locator is Some
            && stored.locator->0.kobo_span.deep_view() == new.locator.kobo_span.deep_view(),
        book.profile != Some(MediaProfile::Epub) ==> new.locator.locations is Some
            && new.locator.locations->0.position == Some(stored.page) && (stored.completed
            <==> stored.page == book.page_count),
{
    let k = choose|k: int| #[trigger]
        is_stored_at(new, book, k, stored) && (book.profile == Some(MediaProfile::Epub) ==> is_at(
            book,
            resource,
            k,
        ));
    if book.profile == Some(MediaProfile::Epub) && is_at(book, resource, i) {
        a_report_is_at_one_position(
            book.positions->0.marks@,
            resource,
            book.positions->0.fixed_layout,
            k,
            i,
        );
    }
}

/// A report that is not newer than the one that is stored is refused, whatever it says and whatever
/// the book is: so what is stored of a user is the newest that was taken.
pub proof fn stored_report_is_the_newest<F, T>(
    new: Progression<Locator<F, T>>,
    resource: Seq<char>,
    book: ReportedBook<F>,
    stored: StoredProgress<Locator<F, T>>,
    later: Progression<Locator<F, T>>,
    later_resource: Seq<char>,
    later_book: ReportedBook<F>,
)
    requires
        is_stored(new, resource, book, stored),
        later.modified <= new.modified,
    ensures
        report_refusal(Some(stored.read_date), later, later_resource, later_book) == Some(
            status_error(409, "Progression is older than existing"@),
        ),
{
}

/// The span that a stored place keeps: the reported one, else that of the matched position.
pub fn stored_kobo_span(reported: &Option<String>, matched: &Option<String>) -> (r: Option<String>)
    ensures
        r.deep_view() == (if reported is Some {
            reported.deep_view()
        } else {
            matched.deep_view()
        }),
{
    match reported {
        Some(s) => Some(s.clone()),
        None => match matched {
            Some(s) => Some(s.clone()),
            None => None,
        },
    }
}

// ---- what is known of an EPUB's positions ----

/// What `flate2::read::GzDecoder` makes of bytes, if it can read them to the end.
pub uninterp spec fn gunzipped(bytes: Seq<u8>) -> Option<Seq<u8>>;

/// `flate2::read::GzDecoder`, read to its end: the bytes that a gzip stream holds, or nothing where
/// the stream cannot be read. Which streams those are is left to its name.
#[verifier::external_body]
fn gunzip(bytes: &Vec<u8>) -> (r: Option<Vec<u8>>)
    ensures
        crate::kobo::bytes_of(r) == gunzipped(bytes@),
{
    let mut out: Vec<u8> = Vec::new();
    let mut decoder = flate2::read::GzDecoder::new(bytes.as_slice());
    std::io::Read::read_to_end(&mut decoder, &mut out).ok().map(|_| out)
}

/// The truth value at a member of a JSON document, as `serde_json` reads it: nothing where the bytes
/// are no JSON, and nothing in there where the member is missing or is no truth value.
pub uninterp spec fn json_flag_at(json: Seq<u8>, member: Seq<char>) -> Option<Option<bool>>;

/// `serde_json::from_slice` into a `Value`, then `Value::get` and `Value::as_bool`.
#[verifier::external_body]
fn json_flag(json: &Vec<u8>, member: &str) -> (r: Option<Option<bool>>)
    ensures
        r == json_flag_at(json@, member@),
{
    let value: Option<serde_json::Value> = serde_json::from_slice(json.as_slice()).ok();
    value.map(|v| v.get(member).and_then(|m| m.as_bool()))
}

/// What is stored about an EPUB: the JSON document and whether the layout is fixed.
#[derive(Debug, PartialEq, Eq)]
pub struct EpubExtension {
    pub json: Vec<u8>,
    pub is_fixed_layout: bool,
}

/// What a stored document says, given the document and its flag for a fixed layout.
pub open spec fn epub_extension_of(
    json: Option<Seq<u8>>,
    flag: Option<Option<bool>>,
) -> Option<(Seq<u8>, bool)> {
    match (json, flag) {
        (Some(json), Some(flag)) => Some((json, flag == Some(true))),
        _ => None,
    }
}

/// Takes what a stored document says, or refuses the request where nothing can be read.
pub fn read_epub_extension(json: Option<Vec<u8>>, flag: Option<Option<bool>>) -> (r: Result<
    EpubExtension,
    ApiError,
>)
    ensures
        match (r, epub_extension_of(crate::kobo::bytes_of(json), flag)) {
            (Ok(x), Some(v)) => x.json@ == v.0 && x.is_fixed_layout == v.1,
            (Err(e), None) => e.deep_view() == status_error(400, "Epub extension not found"@),
            _ => false,
        },
{
    match (json, flag) {
        (Some(json), Some(flag)) => {
            let is_fixed_layout: bool = match flag {
                Some(b) => b,
                None => false,
            };
            Ok(EpubExtension { json, is_fixed_layout })
        },
        _ => Err(ApiError::bad_request("Epub extension not found")),
    }
}

/// Reads what is stored about an EPUB: a compressed JSON document.
pub fn decode_epub_extension(blob: &Option<Vec<u8>>) -> (r: Result<EpubExtension, ApiError>)
    ensures
        ({
            let json = match blob {
                Some(b) => gunzipped(b@),
                None => None,
            };
            let flag = match json {
                Some(j) => json_flag_at(j, "isFixedLayout"@),
                None => None,
            };
            match (r, epub_extension_of(json, flag)) {
                (Ok(x), Some(v)) => x.json@ == v.0 && x.is_fixed_layout == v.1,
                (Err(e), None) => e.deep_view() == status_error(400, "Epub extension not found"@),
                _ => false,
            }
        }),
{
    let json: Option<Vec<u8>> = match blob {
        Some(b) => gunzip(b),
        None => None,
    };
    let flag: Option<Option<bool>> = match &json {
        Some(j) => json_flag(j, "isFixedLayout"),
        None => None,
    };
    read_epub_extension(json, flag)
}

} // verus!
