//! Sorting, paging and the conditions of a search for books or series.
use vstd::prelude::*;

use crate::datetime::{Date, DateTime};
use crate::error::{status_error, ApiError, ErrorView};
use crate::text::{blank, text_eq};

verus! {

// ---- sorting and paging ----

/// One criterion of an order.
#[derive(Debug, PartialEq, Eq)]
pub struct SortOrder {
    pub property: String,
    pub descending: bool,
}

/// A [`SortOrder`] by its texts.
#[verifier::ext_equal]
pub struct SortView {
    pub property: Seq<char>,
    pub descending: bool,
}

impl DeepView for SortOrder {
    type V = SortView;

    open spec fn deep_view(&self) -> SortView {
        SortView { property: self.property@, descending: self.descending }
    }
}

/// The order by one property.
pub open spec fn sorted_on(property: Seq<char>, descending: bool) -> Seq<SortView> {
    seq![SortView { property, descending }]
}

/// The order by one property.
pub fn sort_by(property: &str, descending: bool) -> (r: Vec<SortOrder>)
    ensures
        r.deep_view() == sorted_on(property@, descending),
{
    let mut r: Vec<SortOrder> = Vec::new();
    r.push(SortOrder { property: property.to_owned(), descending });
    assert(r.deep_view() =~= sorted_on(property@, descending));
    r
}

/// No order at all.
pub fn unsorted() -> (r: Vec<SortOrder>)
    ensures
        r.deep_view() == Seq::<SortView>::empty(),
{
    let r: Vec<SortOrder> = Vec::new();
    assert(r.deep_view() =~= Seq::<SortView>::empty());
    r
}

/// A copy of an order.
pub fn copy_sort(sort: &Vec<SortOrder>) -> (r: Vec<SortOrder>)
    ensures
        r.deep_view() == sort.deep_view(),
{
    let mut r: Vec<SortOrder> = Vec::new();
    let mut i: usize = 0;
    while i < sort.len()
        invariant
            i <= sort.len(),
            r.len() == i,
            forall|k: int| 0 <= k < i ==> #[trigger] r@[k] == sort@[k],
        decreases sort.len() - i,
    {
        r.push(SortOrder { property: sort[i].property.clone(), descending: sort[i].descending });
        i += 1;
    }
    assert(r.deep_view() =~= sort.deep_view());
    r
}

// ---- conditions ----

/// A condition made of simple ones.
#[derive(Debug, PartialEq, Eq)]
pub enum Condition<L> {
    AllOf(Vec<Condition<L>>),
    AnyOf(Vec<Condition<L>>),
    Leaf(L),
}

/// A [`Condition`] as a tree of sequences.
#[verifier::reject_recursive_types(L)]
pub enum ConditionView<L> {
    AllOf(Seq<ConditionView<L>>),
    AnyOf(Seq<ConditionView<L>>),
    Leaf(L),
}

/// The tree that a condition is.
pub open spec fn shape<L>(c: Condition<L>) -> ConditionView<L>
    decreases c,
{
    match c {
        Condition::AllOf(v) => ConditionView::AllOf(
            Seq::new(
                v@.len(),
                |i: int|
                    if 0 <= i < v@.len() {
                        shape(v@[i])
                    } else {
                        arbitrary()
                    },
            ),
        ),
        Condition::AnyOf(v) => ConditionView::AnyOf(
            Seq::new(
                v@.len(),
                |i: int|
                    if 0 <= i < v@.len() {
                        shape(v@[i])
                    } else {
                        arbitrary()
                    },
            ),
        ),
        Condition::Leaf(l) => ConditionView::Leaf(l),
    }
}

/// The trees of several conditions.
pub open spec fn shapes<L>(v: Seq<Condition<L>>) -> Seq<ConditionView<L>> {
    Seq::new(v.len(), |i: int| shape(v[i]))
}

/// Simple conditions as trees.
pub open spec fn leaves<L>(v: Seq<L>) -> Seq<ConditionView<L>> {
    Seq::new(v.len(), |i: int| ConditionView::Leaf(v[i]))
}

/// All of several conditions.
pub fn all_of<L>(conditions: Vec<Condition<L>>) -> (r: Condition<L>)
    ensures
        shape(r) == ConditionView::AllOf(shapes(conditions@)),
{
    let r: Condition<L> = Condition::AllOf(conditions);
    assert(shape(r)->AllOf_0 =~= shapes(conditions@));
    r
}

/// Any of several conditions.
pub fn any_of<L>(conditions: Vec<Condition<L>>) -> (r: Condition<L>)
    ensures
        shape(r) == ConditionView::AnyOf(shapes(conditions@)),
{
    let r: Condition<L> = Condition::AnyOf(conditions);
    assert(shape(r)->AnyOf_0 =~= shapes(conditions@));
    r
}

/// Simple conditions, each on its own.
pub fn leaf_conditions<L>(simple: Vec<L>) -> (r: Vec<Condition<L>>)
    ensures
        shapes(r@) == leaves(simple@),
{
    let mut r: Vec<Condition<L>> = Vec::new();
    for l in it: simple
        invariant
            it.seq() == simple@,
            shapes(r@) == leaves(simple@.take(it.index())),
    {
        let ghost before = r@;
        r.push(Condition::Leaf(l));
        assert(shapes(r@) =~= shapes(before).push(ConditionView::Leaf(l)));
        assert(leaves(simple@.take(it.index() + 1)) =~= leaves(simple@.take(it.index())).push(
            ConditionView::Leaf(l),
        ));
    }
    assert(simple@.take(simple@.len() as int) =~= simple@);
    r
}

/// The group that several simple conditions of one kind make: any of them, or nothing if there
/// are none.
pub open spec fn group<L>(simple: Seq<L>) -> Seq<ConditionView<L>> {
    if simple.len() == 0 {
        Seq::empty()
    } else {
        seq![ConditionView::AnyOf(leaves(simple))]
    }
}

/// Adds a group of simple conditions.
pub fn push_group<L>(out: &mut Vec<Condition<L>>, simple: Vec<L>)
    ensures
        shapes(final(out)@) == shapes(old(out)@) + group(simple@),
{
    let ghost before = out@;
    if simple.len() > 0 {
        let c: Condition<L> = any_of(leaf_conditions(simple));
        out.push(c);
        assert(shapes(out@) =~= shapes(before).push(shape(c)));
    }
    assert(shapes(out@) =~= shapes(before) + group(simple@));
}

/// Adds one simple condition.
pub fn push_leaf<L>(out: &mut Vec<Condition<L>>, leaf: L)
    ensures
        shapes(final(out)@) == shapes(old(out)@).push(ConditionView::Leaf(leaf)),
{
    let ghost before = out@;
    out.push(Condition::Leaf(leaf));
    assert(shapes(out@) =~= shapes(before).push(ConditionView::Leaf(leaf)));
}

/// A parameter's text, and what it was read as.
#[derive(Debug, PartialEq, Eq)]
pub struct Parsed<T> {
    pub raw: String,
    pub value: Option<T>,
}

/// The values of parameters that can all be read, or the text of the first that cannot.
pub open spec fn parsed_all<T>(v: Seq<Parsed<T>>) -> Result<Seq<T>, Seq<char>>
    decreases v.len(),
{
    if v.len() == 0 {
        Ok(Seq::empty())
    } else {
        match parsed_all(v.drop_last()) {
            Err(raw) => Err(raw),
            Ok(values) => match v.last().value {
                Some(value) => Ok(values.push(value)),
                None => Err(v.last().raw@),
            },
        }
    }
}

proof fn lemma_parsed_all_fails<T>(v: Seq<Parsed<T>>, k: int)
    requires
        0 <= k <= v.len(),
        parsed_all(v.take(k)) is Err,
    ensures
        parsed_all(v) == parsed_all(v.take(k)),
    decreases v.len() - k,
{
    if k == v.len() {
        assert(v.take(k) =~= v);
    } else {
        assert(v.take(k + 1).drop_last() =~= v.take(k));
        lemma_parsed_all_fails(v, k + 1);
    }
}

/// Parameters are taken if every one can be read, each for its value; else the first that cannot be is
/// the one that is told.
pub proof fn parameters_are_taken_together<T>(v: Seq<Parsed<T>>)
    ensures
        match parsed_all(v) {
            Ok(values) => values.len() == v.len() && forall|i: int|
                0 <= i < v.len() ==> (#[trigger] v[i]).value == Some(values[i]),
            Err(raw) => exists|k: int|
                0 <= k < v.len() && (#[trigger] v[k]).value is None && v[k].raw@ == raw && (forall|
                    j: int,
                | 0 <= j < k ==> (#[trigger] v[j]).value is Some),
        },
    decreases v.len(),
{
    if v.len() > 0 {
        let init = v.drop_last();
        parameters_are_taken_together(init);
        match parsed_all(init) {
            Err(raw) => {
                let k = choose|k: int|
                    0 <= k < init.len() && (#[trigger] init[k]).value is None && init[k].raw@ == raw
                        && (forall|j: int| 0 <= j < k ==> (#[trigger] init[j]).value is Some);
                assert(v[k] == init[k]);
                assert forall|j: int| 0 <= j < k implies (#[trigger] v[j]).value is Some by {
                    assert(init[j].value is Some);
                }
            },
            Ok(values) => {
                assert forall|j: int| 0 <= j < init.len() implies (#[trigger] v[j]).value == Some(
                    values[j],
                ) by {
                    assert(init[j].value == Some(values[j]));
                }
                if v.last().value is None {
                    assert(v[v.len() - 1].value is None);
                }
            },
        }
    }
}

/// Takes the values of parameters, or the text of the first that could not be read.
pub fn collect_parsed<T: Copy>(v: &Vec<Parsed<T>>) -> (r: Result<Vec<T>, String>)
    ensures
        match (r, parsed_all(v@)) {
            (Ok(values), Ok(s)) => values@ == s,
            (Err(raw), Err(s)) => raw@ == s,
            _ => false,
        },
{
    let mut values: Vec<T> = Vec::new();
    let mut i: usize = 0;
    while i < v.len()
        invariant
            i <= v.len(),
            parsed_all(v@.take(i as int)) == Ok::<Seq<T>, Seq<char>>(values@),
        decreases v.len() - i,
    {
        assert(v@.take(i as int + 1).drop_last() =~= v@.take(i as int));
        assert(v@.take(i as int + 1).last() == v@[i as int]);
        match v[i].value {
            Some(value) => {
                values.push(value);
            },
            None => {
                proof {
                    lemma_parsed_all_fails(v@, i as int + 1);
                }
                return Err(v[i].raw.clone());
            },
        }
        i += 1;
    }
    assert(v@.take(v@.len() as int) =~= v@);
    Ok(values)
}

// ---- parameter values ----

/// Whether a user has read something.
#[derive(Clone, Copy, Debug, PartialEq, Eq, Structural)]
pub enum ReadStatus {
    Unread,
    Read,
    InProgress,
}

/// How far the analysis of a book got.
#[derive(Clone, Copy, Debug, PartialEq, Eq, Structural)]
pub enum MediaStatus {
    Unknown,
    Error,
    Ready,
    Unsupported,
    Outdated,
}

/// The publication status of a series.
#[derive(Clone, Copy, Debug, PartialEq, Eq, Structural)]
pub enum SeriesStatus {
    Ended,
    Ongoing,
    Abandoned,
    Hiatus,
}

/// The read status that a text names.
pub open spec fn read_status_of(s: Seq<char>) -> Option<ReadStatus> {
    if s == "UNREAD"@ {
        Some(ReadStatus::Unread)
    } else if s == "READ"@ {
        Some(ReadStatus::Read)
    } else if s == "IN_PROGRESS"@ {
        Some(ReadStatus::InProgress)
    } else {
        None
    }
}

/// Reads a read status.
pub fn parse_read_status(s: &str) -> (r: Option<ReadStatus>)
    ensures
        r == read_status_of(s@),
{
    if text_eq(s, "UNREAD") {
        Some(ReadStatus::Unread)
    } else if text_eq(s, "READ") {
        Some(ReadStatus::Read)
    } else if text_eq(s, "IN_PROGRESS") {
        Some(ReadStatus::InProgress)
    } else {
        None
    }
}

/// How a read status is named.
pub open spec fn read_status_name(s: ReadStatus) -> Seq<char> {
    match s {
        ReadStatus::Unread => "UNREAD"@,
        ReadStatus::Read => "READ"@,
        ReadStatus::InProgress => "IN_PROGRESS"@,
    }
}

/// A read status is read by its own name, and by no other text.
pub proof fn read_status_is_read_by_its_name(text: Seq<char>, s: ReadStatus)
    ensures
        read_status_of(text) == Some(s) <==> text == read_status_name(s),
{
    reveal_strlit("UNREAD");
    reveal_strlit("READ");
    reveal_strlit("IN_PROGRESS");
    assert("UNREAD"@.len() == 6 && "READ"@.len() == 4 && "IN_PROGRESS"@.len() == 11);
}

/// Parameters with the read statuses that they name.
pub open spec fn read_statuses(v: Seq<String>) -> Seq<Parsed<ReadStatus>> {
    Seq::new(v.len(), |i: int| Parsed { raw: v[i], value: read_status_of(v[i]@) })
}

/// Reads parameters that name read statuses.
pub fn parse_read_statuses(v: &Vec<String>) -> (r: Vec<Parsed<ReadStatus>>)
    ensures
        r@ == read_statuses(v@),
{
    let mut r: Vec<Parsed<ReadStatus>> = Vec::new();
    let mut i: usize = 0;
    while i < v.len()
        invariant
            i <= v.len(),
            r@ == read_statuses(v@).take(i as int),
        decreases v.len() - i,
    {
        let raw: String = v[i].clone();
        let value: Option<ReadStatus> = parse_read_status(raw.as_str());
        let ghost before = r@;
        r.push(Parsed { raw, value });
        assert(r@ =~= read_statuses(v@).take(i as int + 1));
        i += 1;
    }
    assert(read_statuses(v@).take(v@.len() as int) =~= read_statuses(v@));
    r
}

/// The message for a parameter that cannot be read.
pub open spec fn invalid_param_message(name: Seq<char>, value: Seq<char>) -> Seq<char> {
    "Invalid value '"@ + value + "' for parameter '"@ + name + "'"@
}

/// Refuses a parameter that cannot be read.
pub fn invalid_param(name: &str, value: &str) -> (r: ApiError)
    ensures
        r.deep_view() == status_error(400, invalid_param_message(name@, value@)),
{
    let mut m: String = "Invalid value '".to_owned();
    m.append(value);
    m.append("' for parameter '");
    m.append(name);
    m.append("'");
    ApiError::bad_request(m.as_str())
}

/// The message for a parameter that names no constant of an enumeration.
pub open spec fn enum_conversion_message(fqn: Seq<char>, value: Seq<char>) -> Seq<char> {
    "Failed to convert value of type 'java.lang.String' to required type '"@ + fqn
        + "'; nested exception is java.lang.IllegalArgumentException: No enum constant "@ + fqn
        + "."@ + value
}

/// Refuses a parameter that names no constant of an enumeration.
pub fn enum_conversion_error(fqn: &str, value: &str) -> (r: ApiError)
    ensures
        r.deep_view() == status_error(400, enum_conversion_message(fqn@, value@)),
{
    let mut m: String = "Failed to convert value of type 'java.lang.String' to required type '".to_owned();
    m.append(fqn);
    m.append("'; nested exception is java.lang.IllegalArgumentException: No enum constant ");
    m.append(fqn);
    m.append(".");
    m.append(value);
    ApiError::bad_request(m.as_str())
}

/// Whether a search looks for text: there is a term, and it is not blank.
pub open spec fn has_search_term(term: Option<Seq<char>>) -> bool {
    term is Some && !crate::text::is_blank(term->0)
}

/// A search looks for text if there is any, and white space is none.
pub proof fn blank_term_is_no_search(term: Seq<char>)
    ensures
        !has_search_term(None),
        crate::text::trimmed(term).len() == 0 <==> !has_search_term(Some(term)),
{
    crate::text::blank_iff_trimmed_empty(term);
}

/// Tells whether a search looks for text.
pub fn has_search(term: &Option<String>) -> (r: bool)
    ensures
        r == has_search_term(term.deep_view()),
{
    match term {
        Some(t) => !blank(t.as_str()),
        None => false,
    }
}

/// The order of a list: as requested; if nothing is, by relevance for a text search.
pub open spec fn requested_or_relevance(requested: Seq<SortView>, has_search: bool) -> Seq<SortView> {
    if requested.len() > 0 {
        requested
    } else if has_search {
        sorted_on("relevance"@, false)
    } else {
        Seq::empty()
    }
}

/// Takes the order of a list: as requested; if nothing is, by relevance for a text search.
pub fn sort_or_relevance(requested: &Vec<SortOrder>, has_search: bool) -> (r: Vec<SortOrder>)
    ensures
        r.deep_view() == requested_or_relevance(requested.deep_view(), has_search),
{
    if requested.len() > 0 {
        copy_sort(requested)
    } else if has_search {
        sort_by("relevance", false)
    } else {
        unsorted()
    }
}

/// The order of a list: as requested; if nothing is, by `property`.
pub open spec fn requested_or(requested: Seq<SortView>, property: Seq<char>, descending: bool) -> Seq<
    SortView,
> {
    if requested.len() > 0 {
        requested
    } else {
        sorted_on(property, descending)
    }
}

/// An order that is requested is kept. Where none is, a list has its own, and a text search shows the
/// most relevant first.
pub proof fn requested_order_is_kept(
    requested: Seq<SortView>,
    has_search: bool,
    property: Seq<char>,
    descending: bool,
)
    ensures
        requested.len() > 0 ==> requested_or(requested, property, descending) == requested
            && requested_or_relevance(requested, has_search) == requested,
        requested.len() == 0 ==> {
            let own = requested_or(requested, property, descending);
            let relevant = requested_or_relevance(requested, has_search);
            &&& own.len() == 1 && own[0].property == property && own[0].descending == descending
            &&& !has_search ==> relevant.len() == 0
            &&& has_search ==> relevant.len() == 1 && relevant[0].property == "relevance"@
                && !relevant[0].descending
        },
{
}

/// Takes the order of a list: as requested; if nothing is, by `property`.
pub fn sort_or(requested: &Vec<SortOrder>, property: &str, descending: bool) -> (r: Vec<SortOrder>)
    ensures
        r.deep_view() == requested_or(requested.deep_view(), property@, descending),
{
    if requested.len() > 0 {
        copy_sort(requested)
    } else {
        sort_by(property, descending)
    }
}

/// The order of a list by name: as requested; if nothing is, by relevance for a text search and by name
/// otherwise.
pub open spec fn requested_or_relevance_or_name(requested: Seq<SortView>, has_search: bool) -> Seq<
    SortView,
> {
    if requested.len() > 0 || has_search {
        requested_or_relevance(requested, has_search)
    } else {
        sorted_on("name"@, false)
    }
}

/// The order of duplicate books.
pub open spec fn duplicates_order(requested: Seq<SortView>, unpaged: bool) -> Seq<SortView> {
    if unpaged {
        Seq::empty()
    } else {
        requested_or(requested, "fileHash"@, false)
    }
}

/// An order that is requested is kept for collections and for duplicates. Where none is, collections go
/// by name unless they are searched, and then the most relevant come first; duplicates go by the hash of
/// their files, so that equal books stand together. A list that is not paged goes in no order.
pub proof fn lists_have_an_order_of_their_own(requested: Seq<SortView>, has_search: bool)
    ensures
        requested.len() > 0 ==> requested_or_relevance_or_name(requested, has_search) == requested
            && duplicates_order(requested, false) == requested,
        duplicates_order(requested, true).len() == 0,
        requested.len() == 0 ==> {
            let collections = requested_or_relevance_or_name(requested, has_search);
            let duplicates = duplicates_order(requested, false);
            &&& collections.len() == 1 && !collections[0].descending
            &&& collections[0].property == "relevance"@ <==> has_search
            &&& collections[0].property == "name"@ <==> !has_search
            &&& duplicates.len() == 1 && duplicates[0].property == "fileHash"@
                && !duplicates[0].descending
        },
{
    reveal_strlit("name");
    reveal_strlit("relevance");
    assert("name"@.len() == 4 && "relevance"@.len() == 9);
}

/// The order of collections: as requested; if nothing is, by relevance for a text search and by
/// name otherwise.
pub fn sort_or_relevance_or_name(requested: &Vec<SortOrder>, has_search: bool) -> (r: Vec<SortOrder>)
    ensures
        r.deep_view() == requested_or_relevance_or_name(requested.deep_view(), has_search),
{
    if requested.len() > 0 || has_search {
        sort_or_relevance(requested, has_search)
    } else {
        sort_by("name", false)
    }
}

/// The order of duplicate books: as requested, by file hash if nothing is; none at all for a list
/// that is not paged.
pub fn duplicates_sort(requested: &Vec<SortOrder>, unpaged: bool) -> (r: Vec<SortOrder>)
    ensures
        r.deep_view() == duplicates_order(requested.deep_view(), unpaged),
{
    if unpaged {
        unsorted()
    } else {
        sort_or(requested, "fileHash", false)
    }
}

/// The order that an answer tells of: the one that was asked for, if the list was sorted at all.
pub fn echoed_sort(sorted: bool, sort: &Vec<SortOrder>) -> (r: Vec<SortOrder>)
    ensures
        r.deep_view() == (if sorted {
            sort.deep_view()
        } else {
            Seq::<SortView>::empty()
        }),
{
    if sorted {
        copy_sort(sort)
    } else {
        unsorted()
    }
}

/// The page of a list that a request asks for.
#[derive(Debug, PartialEq, Eq)]
pub struct Pageable {
    pub page: u32,
    pub size: u32,
    pub unpaged: bool,
    pub sort: Vec<SortOrder>,
}

/// A [`Pageable`] by its texts.
#[verifier::ext_equal]
pub struct PageableView {
    pub page: u32,
    pub size: u32,
    pub unpaged: bool,
    pub sort: Seq<SortView>,
}

impl DeepView for Pageable {
    type V = PageableView;

    open spec fn deep_view(&self) -> PageableView {
        PageableView {
            page: self.page,
            size: self.size,
            unpaged: self.unpaged,
            sort: self.sort.deep_view(),
        }
    }
}

impl Pageable {
    /// The same page of the same list in another order.
    pub fn sorted(&self, sort: Vec<SortOrder>) -> (r: Pageable)
        ensures
            r.deep_view() == (PageableView { sort: sort.deep_view(), ..self.deep_view() }),
    {
        Pageable { page: self.page, size: self.size, unpaged: self.unpaged, sort }
    }

    /// The request for this page, in the order it names.
    pub fn to_page_request(&self) -> (r: Pageable)
        ensures
            r.deep_view() == self.deep_view(),
    {
        self.sorted(copy_sort(&self.sort))
    }
}

/// The number of items of a list, where it is known; a negative count stands for none.
pub fn total_elements(total: i64) -> (r: u64)
    ensures
        r == (if total < 0 {
            0
        } else {
            total as int
        }),
{
    if total < 0 {
        0
    } else {
        total as u64
    }
}

// ---- what a condition means ----

/// Whether a condition holds, where it is known which simple ones do.
pub open spec fn holds<L>(c: ConditionView<L>, leaf: spec_fn(L) -> bool) -> bool
    decreases c,
{
    match c {
        ConditionView::AllOf(v) => all_hold(v, leaf),
        ConditionView::AnyOf(v) => any_holds(v, leaf),
        ConditionView::Leaf(l) => leaf(l),
    }
}

/// Whether each of several conditions holds.
pub open spec fn all_hold<L>(v: Seq<ConditionView<L>>, leaf: spec_fn(L) -> bool) -> bool
    decreases v,
{
    v.len() == 0 || (holds(v[v.len() - 1], leaf) && all_hold(v.subrange(0, v.len() - 1), leaf))
}

/// Whether one of several conditions holds.
pub open spec fn any_holds<L>(v: Seq<ConditionView<L>>, leaf: spec_fn(L) -> bool) -> bool
    decreases v,
{
    v.len() > 0 && (holds(v[v.len() - 1], leaf) || any_holds(v.subrange(0, v.len() - 1), leaf))
}

/// Whether one of several simple conditions holds.
pub open spec fn one_holds<L>(simple: Seq<L>, leaf: spec_fn(L) -> bool) -> bool {
    exists|i: int| 0 <= i < simple.len() && leaf(#[trigger] simple[i])
}

pub(crate) proof fn lemma_all_hold<L>(v: Seq<ConditionView<L>>, leaf: spec_fn(L) -> bool)
    ensures
        all_hold(v, leaf) == (forall|i: int| 0 <= i < v.len() ==> holds(#[trigger] v[i], leaf)),
    decreases v.len(),
{
    if v.len() > 0 {
        let init = v.subrange(0, v.len() - 1);
        lemma_all_hold(init, leaf);
        assert forall|i: int| 0 <= i < v.len() - 1 implies v[i] == #[trigger] init[i] by {}
        if all_hold(v, leaf) {
            assert forall|i: int| 0 <= i < v.len() implies holds(#[trigger] v[i], leaf) by {
                if i < v.len() - 1 {
                    assert(v[i] == init[i]);
                }
            }
        }
        if forall|i: int| 0 <= i < v.len() ==> holds(#[trigger] v[i], leaf) {
            assert forall|i: int| 0 <= i < init.len() implies holds(#[trigger] init[i], leaf) by {
                assert(v[i] == init[i]);
            }
        }
    }
}

pub(crate) proof fn lemma_any_holds<L>(v: Seq<ConditionView<L>>, leaf: spec_fn(L) -> bool)
    ensures
        any_holds(v, leaf) == (exists|i: int| 0 <= i < v.len() && holds(#[trigger] v[i], leaf)),
    decreases v.len(),
{
    if v.len() > 0 {
        let init = v.subrange(0, v.len() - 1);
        lemma_any_holds(init, leaf);
        if any_holds(init, leaf) {
            let i = choose|i: int| 0 <= i < init.len() && holds(#[trigger] init[i], leaf);
            assert(v[i] == init[i]);
        }
        if exists|i: int| 0 <= i < v.len() && holds(#[trigger] v[i], leaf) {
            let i = choose|i: int| 0 <= i < v.len() && holds(#[trigger] v[i], leaf);
            if i < v.len() - 1 {
                assert(v[i] == init[i]);
            }
        }
    }
}

pub(crate) proof fn lemma_one<L>(c: ConditionView<L>, leaf: spec_fn(L) -> bool)
    ensures
        all_hold(seq![c], leaf) == holds(c, leaf),
{
    lemma_all_hold(seq![c], leaf);
    assert(seq![c][0] == c);
}

pub(crate) proof fn lemma_all_hold_add<L>(
    a: Seq<ConditionView<L>>,
    b: Seq<ConditionView<L>>,
    leaf: spec_fn(L) -> bool,
)
    ensures
        all_hold(a + b, leaf) == (all_hold(a, leaf) && all_hold(b, leaf)),
{
    let both = a + b;
    lemma_all_hold(a, leaf);
    lemma_all_hold(b, leaf);
    lemma_all_hold(both, leaf);
    if all_hold(both, leaf) {
        assert forall|i: int| 0 <= i < a.len() implies holds(#[trigger] a[i], leaf) by {
            assert(both[i] == a[i]);
        }
        assert forall|i: int| 0 <= i < b.len() implies holds(#[trigger] b[i], leaf) by {
            assert(both[a.len() + i] == b[i]);
        }
    }
}

pub(crate) proof fn lemma_leaves_hold<L>(simple: Seq<L>, leaf: spec_fn(L) -> bool)
    ensures
        all_hold(leaves(simple), leaf) == (forall|i: int|
            0 <= i < simple.len() ==> leaf(#[trigger] simple[i])),
        any_holds(leaves(simple), leaf) == one_holds(simple, leaf),
{
    let v = leaves(simple);
    lemma_all_hold(v, leaf);
    lemma_any_holds(v, leaf);
    assert forall|i: int| 0 <= i < v.len() implies holds(#[trigger] v[i], leaf) == leaf(
        simple[i],
    ) by {}
    if all_hold(v, leaf) {
        assert forall|i: int| 0 <= i < simple.len() implies leaf(#[trigger] simple[i]) by {
            assert(holds(v[i], leaf));
        }
    }
    if any_holds(v, leaf) {
        let i = choose|i: int| 0 <= i < v.len() && holds(#[trigger] v[i], leaf);
        assert(leaf(simple[i]));
    }
    if one_holds(simple, leaf) {
        let i = choose|i: int| 0 <= i < simple.len() && leaf(#[trigger] simple[i]);
        assert(holds(v[i], leaf));
    }
}

pub(crate) proof fn lemma_group_holds<L>(simple: Seq<L>, leaf: spec_fn(L) -> bool)
    ensures
        all_hold(group(simple), leaf) == (simple.len() == 0 || one_holds(simple, leaf)),
{
    lemma_leaves_hold(simple, leaf);
    if simple.len() > 0 {
        lemma_one(ConditionView::AnyOf(leaves(simple)), leaf);
    }
}

// ---- books ----

/// What a single book must meet.
#[derive(Debug, PartialEq, Eq)]
pub enum BookLeaf {
    LibraryId(String),
    SeriesId(String),
    ReadListId(String),
    MediaStatus(MediaStatus),
    ReadStatus(ReadStatus),
    Tag(String),
    TitleContains(String),
    Deleted(bool),
    ReleasedAfter(DateTime),
}

pub type SearchConditionBook = Condition<BookLeaf>;

/// What a search can ask about a book. How a title is compared with a text, and a day of release with
/// a moment, is up to the search.
pub struct BookFacts {
    pub library_id: Seq<char>,
    pub series_id: Seq<char>,
    pub read_lists: Set<Seq<char>>,
    pub media_status: MediaStatus,
    pub read_status: ReadStatus,
    pub tags: Set<Seq<char>>,
    pub title_contains: spec_fn(Seq<char>) -> bool,
    pub deleted: bool,
    pub released_after: spec_fn(DateTime) -> bool,
}

/// Whether a book is as a simple condition asks.
pub open spec fn book_is(b: BookFacts, l: BookLeaf) -> bool {
    match l {
        BookLeaf::LibraryId(id) => b.library_id == id@,
        BookLeaf::SeriesId(id) => b.series_id == id@,
        BookLeaf::ReadListId(id) => b.read_lists.contains(id@),
        BookLeaf::MediaStatus(s) => b.media_status == s,
        BookLeaf::ReadStatus(s) => b.read_status == s,
        BookLeaf::Tag(t) => b.tags.contains(t@),
        BookLeaf::TitleContains(t) => (b.title_contains)(t@),
        BookLeaf::Deleted(d) => b.deleted == d,
        BookLeaf::ReleasedAfter(d) => (b.released_after)(d),
    }
}

/// The simple conditions that a book meets.
pub open spec fn of_book(b: BookFacts) -> spec_fn(BookLeaf) -> bool {
    |l: BookLeaf| book_is(b, l)
}

/// Whether a book meets a condition.
pub open spec fn meets(c: ConditionView<BookLeaf>, b: BookFacts) -> bool {
    holds(c, of_book(b))
}

/// The parameters that filter a list of books.
#[derive(Debug, PartialEq, Eq)]
pub struct BookFilter {
    pub library_ids: Vec<String>,
    pub media_status: Vec<Parsed<MediaStatus>>,
    pub read_status: Vec<String>,
    pub tags: Vec<String>,
    pub released_after: Option<Parsed<Date>>,
}

/// The library ids as conditions.
pub open spec fn book_libraries(v: Seq<String>) -> Seq<BookLeaf> {
    Seq::new(v.len(), |i: int| BookLeaf::LibraryId(v[i]))
}

/// The tags as conditions.
pub open spec fn book_tags(v: Seq<String>) -> Seq<BookLeaf> {
    Seq::new(v.len(), |i: int| BookLeaf::Tag(v[i]))
}

/// The analysis statuses as conditions.
pub open spec fn book_media(v: Seq<MediaStatus>) -> Seq<BookLeaf> {
    Seq::new(v.len(), |i: int| BookLeaf::MediaStatus(v[i]))
}

/// The read statuses as conditions.
pub open spec fn book_read(v: Seq<ReadStatus>) -> Seq<BookLeaf> {
    Seq::new(v.len(), |i: int| BookLeaf::ReadStatus(v[i]))
}

/// What a filter of books asks for: any of the values of each parameter, and all of the
/// parameters; nothing where no parameter is given. The first value that cannot be read is refused.
pub open spec fn book_filter_condition(f: BookFilter) -> Result<
    Option<ConditionView<BookLeaf>>,
    ErrorView,
> {
    match (parsed_all(f.media_status@), parsed_all(read_statuses(f.read_status@))) {
        (Err(raw), _) => Err(status_error(400, invalid_param_message("media_status"@, raw))),
        (Ok(_), Err(raw)) => Err(status_error(400, invalid_param_message("read_status"@, raw))),
        (Ok(media), Ok(read)) => {
            let sofar = group(book_libraries(f.library_ids@)) + group(book_media(media)) + group(
                book_read(read),
            ) + group(book_tags(f.tags@));
            match f.released_after {
                Some(Parsed { raw, value: None }) => Err(
                    status_error(400, invalid_param_message("released_after"@, raw@)),
                ),
                Some(Parsed { raw, value: Some(date) }) => Ok(
                    Some(
                        ConditionView::AllOf(
                            sofar.push(
                                ConditionView::Leaf(
                                    BookLeaf::ReleasedAfter(crate::datetime::utc_hour(date, 0)),
                                ),
                            ),
                        ),
                    ),
                ),
                None => Ok(
                    if sofar.len() == 0 {
                        None
                    } else {
                        Some(ConditionView::AllOf(sofar))
                    },
                ),
            }
        },
    }
}

fn book_text_leaves(v: &Vec<String>, tags: bool) -> (r: Vec<BookLeaf>)
    ensures
        r@ == (if tags {
            book_tags(v@)
        } else {
            book_libraries(v@)
        }),
{
    let mut r: Vec<BookLeaf> = Vec::new();
    let mut i: usize = 0;
    let ghost all = if tags {
        book_tags(v@)
    } else {
        book_libraries(v@)
    };
    while i < v.len()
        invariant
            i <= v.len(),
            all == (if tags {
                book_tags(v@)
            } else {
                book_libraries(v@)
            }),
            r@ == all.take(i as int),
        decreases v.len() - i,
    {
        let s: String = v[i].clone();
        r.push(if tags { BookLeaf::Tag(s) } else { BookLeaf::LibraryId(s) });
        assert(r@ =~= all.take(i as int + 1));
        i += 1;
    }
    assert(all.take(v@.len() as int) =~= all);
    r
}

fn book_media_leaves(v: &Vec<MediaStatus>) -> (r: Vec<BookLeaf>)
    ensures
        r@ == book_media(v@),
{
    let mut r: Vec<BookLeaf> = Vec::new();
    let mut i: usize = 0;
    while i < v.len()
        invariant
            i <= v.len(),
            r@ == book_media(v@).take(i as int),
        decreases v.len() - i,
    {
        r.push(BookLeaf::MediaStatus(v[i]));
        assert(r@ =~= book_media(v@).take(i as int + 1));
        i += 1;
    }
    assert(r@ =~= book_media(v@));
    r
}

fn book_read_leaves(v: &Vec<ReadStatus>) -> (r: Vec<BookLeaf>)
    ensures
        r@ == book_read(v@),
{
    let mut r: Vec<BookLeaf> = Vec::new();
    let mut i: usize = 0;
    while i < v.len()
        invariant
            i <= v.len(),
            r@ == book_read(v@).take(i as int),
        decreases v.len() - i,
    {
        r.push(BookLeaf::ReadStatus(v[i]));
        assert(r@ =~= book_read(v@).take(i as int + 1));
        i += 1;
    }
    assert(r@ =~= book_read(v@));
    r
}

/// An optional condition by its tree.
pub open spec fn optional_shape<L>(c: Option<Condition<L>>) -> Option<ConditionView<L>> {
    match c {
        Some(c) => Some(shape(c)),
        None => None,
    }
}

/// The condition that the parameters of a list of books make.
pub fn books_deprecated_condition(f: &BookFilter) -> (r: Result<
    Option<SearchConditionBook>,
    ApiError,
>)
    ensures
        match (r, book_filter_condition(*f)) {
            (Ok(c), Ok(v)) => optional_shape(c) == v,
            (Err(e), Err(v)) => e.deep_view() == v,
            _ => false,
        },
        r is Ok ==> forall|b: BookFacts| #[trigger]
            shows_book(optional_shape(r->Ok_0), b) <==> book_passes(*f, b),
{
    proof {
        if book_filter_condition(*f) is Ok {
            assert forall|b: BookFacts| #[trigger]
                shows_book(book_filter_condition(*f)->Ok_0, b) <==> book_passes(*f, b) by {
                filtered_list_shows_what_passes(*f, b);
            }
        }
    }
    let mut conditions: Vec<SearchConditionBook> = Vec::new();
    let media: Vec<MediaStatus> = match collect_parsed(&f.media_status) {
        Ok(m) => m,
        Err(raw) => {
            return Err(invalid_param("media_status", raw.as_str()));
        },
    };
    let read: Vec<ReadStatus> = match collect_parsed(&parse_read_statuses(&f.read_status)) {
        Ok(m) => m,
        Err(raw) => {
            return Err(invalid_param("read_status", raw.as_str()));
        },
    };
    assert(shapes(conditions@) =~= Seq::<ConditionView<BookLeaf>>::empty());
    push_group(&mut conditions, book_text_leaves(&f.library_ids, false));
    assert(shapes(conditions@) =~= group(book_libraries(f.library_ids@)));
    push_group(&mut conditions, book_media_leaves(&media));
    push_group(&mut conditions, book_read_leaves(&read));
    push_group(&mut conditions, book_text_leaves(&f.tags, true));
    let ghost sofar = group(book_libraries(f.library_ids@)) + group(book_media(media@)) + group(
        book_read(read@),
    ) + group(book_tags(f.tags@));
    assert(shapes(conditions@) =~= sofar);
    match &f.released_after {
        Some(p) => match p.value {
            Some(date) => {
                push_leaf(
                    &mut conditions,
                    BookLeaf::ReleasedAfter(DateTime::at_utc_hour(date, 0)),
                );
            },
            None => {
                return Err(invalid_param("released_after", p.raw.as_str()));
            },
        },
        None => {},
    }
    if conditions.len() == 0 {
        assert(shapes(conditions@).len() == 0);
        Ok(None)
    } else {
        Ok(Some(all_of(conditions)))
    }
}

/// Whether a list with this condition shows a book; one without a condition shows all.
pub open spec fn shows_book(c: Option<ConditionView<BookLeaf>>, b: BookFacts) -> bool {
    match c {
        Some(c) => meets(c, b),
        None => true,
    }
}

/// Whether a book has one of the values of each parameter that is given.
pub open spec fn book_passes(f: BookFilter, b: BookFacts) -> bool {
    &&& f.library_ids@.len() > 0 ==> f.library_ids.deep_view().contains(b.library_id)
    &&& f.media_status@.len() > 0 ==> exists|i: int|
        0 <= i < f.media_status@.len() && (#[trigger] f.media_status@[i]).value == Some(
            b.media_status,
        )
    &&& f.read_status@.len() > 0 ==> f.read_status.deep_view().contains(
        read_status_name(b.read_status),
    )
    &&& f.tags@.len() > 0 ==> exists|i: int|
        0 <= i < f.tags@.len() && b.tags.contains((#[trigger] f.tags@[i])@)
    &&& f.released_after is Some && f.released_after->0.value is Some ==> (b.released_after)(
        DateTime {
            date: f.released_after->0.value->0,
            hour: 0,
            minute: 0,
            second: 0,
            nanosecond: 0,
            offset_seconds: 0,
        },
    )
}

/// A filtered list shows exactly the books that have one of the values of each parameter that is
/// given. It has no condition exactly if no parameter is given.
pub proof fn filtered_list_shows_what_passes(f: BookFilter, b: BookFacts)
    requires
        book_filter_condition(f) is Ok,
    ensures
        shows_book(book_filter_condition(f)->Ok_0, b) <==> book_passes(f, b),
        book_filter_condition(f)->Ok_0 is None <==> f.library_ids@.len() == 0
            && f.media_status@.len() == 0 && f.read_status@.len() == 0 && f.tags@.len() == 0
            && f.released_after is None,
{
    let leaf = of_book(b);
    let named = read_statuses(f.read_status@);
    parameters_are_taken_together(f.media_status@);
    parameters_are_taken_together(named);
    let media = parsed_all(f.media_status@)->Ok_0;
    let read = parsed_all(named)->Ok_0;
    let libraries = book_libraries(f.library_ids@);
    let tags = book_tags(f.tags@);
    lemma_group_holds(libraries, leaf);
    lemma_group_holds(book_media(media), leaf);
    lemma_group_holds(book_read(read), leaf);
    lemma_group_holds(tags, leaf);
    lemma_all_hold_add(group(libraries), group(book_media(media)), leaf);
    lemma_all_hold_add(group(libraries) + group(book_media(media)), group(book_read(read)), leaf);
    lemma_all_hold_add(
        group(libraries) + group(book_media(media)) + group(book_read(read)),
        group(tags),
        leaf,
    );
    let sofar = group(libraries) + group(book_media(media)) + group(book_read(read)) + group(tags);
    if f.released_after is Some {
        let last = ConditionView::Leaf(
            BookLeaf::ReleasedAfter(crate::datetime::utc_hour(f.released_after->0.value->0, 0)),
        );
        assert(sofar.push(last) =~= sofar + seq![last]);
        lemma_all_hold_add(sofar, seq![last], leaf);
        lemma_one(last, leaf);
    }
    assert(one_holds(libraries, leaf) <==> f.library_ids.deep_view().contains(b.library_id)) by {
        let all = f.library_ids.deep_view();
        if one_holds(libraries, leaf) {
            let i = choose|i: int| 0 <= i < libraries.len() && leaf(#[trigger] libraries[i]);
            assert(all[i] == b.library_id);
        }
        if all.contains(b.library_id) {
            let i = choose|i: int| 0 <= i < all.len() && all[i] == b.library_id;
            assert(leaf(libraries[i]));
        }
    }
    assert(one_holds(book_media(media), leaf) <==> exists|i: int|
        0 <= i < f.media_status@.len() && (#[trigger] f.media_status@[i]).value == Some(
            b.media_status,
        )) by {
        let all = book_media(media);
        if one_holds(all, leaf) {
            let i = choose|i: int| 0 <= i < all.len() && leaf(#[trigger] all[i]);
            assert(f.media_status@[i].value == Some(b.media_status));
        }
        if exists|i: int|
            0 <= i < f.media_status@.len() && (#[trigger] f.media_status@[i]).value == Some(
                b.media_status,
            ) {
            let i = choose|i: int|
                0 <= i < f.media_status@.len() && (#[trigger] f.media_status@[i]).value == Some(
                    b.media_status,
                );
            assert(leaf(all[i]));
        }
    }
    assert(one_holds(book_read(read), leaf) <==> f.read_status.deep_view().contains(
        read_status_name(b.read_status),
    )) by {
        let all = book_read(read);
        let texts = f.read_status.deep_view();
        if one_holds(all, leaf) {
            let i = choose|i: int| 0 <= i < all.len() && leaf(#[trigger] all[i]);
            assert(named[i].value == Some(read[i]));
            read_status_is_read_by_its_name(texts[i], b.read_status);
        }
        if texts.contains(read_status_name(b.read_status)) {
            let i = choose|i: int|
                0 <= i < texts.len() && texts[i] == read_status_name(b.read_status);
            read_status_is_read_by_its_name(texts[i], b.read_status);
            assert(named[i].value == Some(read[i]));
            assert(leaf(all[i]));
        }
    }
    assert(one_holds(tags, leaf) <==> exists|i: int|
        0 <= i < f.tags@.len() && b.tags.contains((#[trigger] f.tags@[i])@)) by {
        if one_holds(tags, leaf) {
            let i = choose|i: int| 0 <= i < tags.len() && leaf(#[trigger] tags[i]);
            assert(b.tags.contains(f.tags@[i]@));
        }
        if exists|i: int| 0 <= i < f.tags@.len() && b.tags.contains((#[trigger] f.tags@[i])@) {
            let i = choose|i: int|
                0 <= i < f.tags@.len() && b.tags.contains((#[trigger] f.tags@[i])@);
            assert(leaf(tags[i]));
        }
    }
}

/// A filtered list is refused exactly if a value cannot be read, and then it is told which parameter
/// that is.
pub proof fn filter_is_refused_for_what_cannot_be_read(f: BookFilter)
    ensures
        book_filter_condition(f) is Err <==> {
            ||| exists|i: int|
                0 <= i < f.media_status@.len() && (#[trigger] f.media_status@[i]).value is None
            ||| exists|i: int|
                0 <= i < f.read_status@.len() && forall|s: ReadStatus|
                    (#[trigger] f.read_status@[i])@ != read_status_name(s)
            ||| f.released_after is Some && f.released_after->0.value is None
        },
        book_filter_condition(f) is Err ==> exists|name: Seq<char>, raw: Seq<char>|
            #![trigger invalid_param_message(name, raw)]
            book_filter_condition(f)->Err_0 == status_error(400, invalid_param_message(name, raw))
                && (name == "media_status"@ && (exists|i: int|
                0 <= i < f.media_status@.len() && (#[trigger] f.media_status@[i]).value is None
                    && f.media_status@[i].raw@ == raw) || name == "read_status"@
                && f.read_status.deep_view().contains(raw) && read_status_of(raw) is None || name
                == "released_after"@ && f.released_after is Some && f.released_after->0.value is None
                && f.released_after->0.raw@ == raw),
{
    let named = read_statuses(f.read_status@);
    parameters_are_taken_together(f.media_status@);
    parameters_are_taken_together(named);
    assert forall|i: int| 0 <= i < named.len() implies ((#[trigger] named[i]).value is None <==> forall|
        s: ReadStatus,
    | f.read_status@[i]@ != read_status_name(s)) by {
        let text = f.read_status@[i]@;
        read_status_is_read_by_its_name(text, ReadStatus::Unread);
        read_status_is_read_by_its_name(text, ReadStatus::Read);
        read_status_is_read_by_its_name(text, ReadStatus::InProgress);
        if named[i].value is None {
            assert forall|s: ReadStatus| text != read_status_name(s) by {
                read_status_is_read_by_its_name(text, s);
            }
        } else {
            assert(text == read_status_name(named[i].value->0));
        }
    }
    match (parsed_all(f.media_status@), parsed_all(named)) {
        (Err(raw), _) => {
            assert(book_filter_condition(f)->Err_0 == status_error(
                400,
                invalid_param_message("media_status"@, raw),
            ));
        },
        (Ok(_), Err(raw)) => {
            let k = choose|k: int|
                0 <= k < named.len() && (#[trigger] named[k]).value is None && named[k].raw@ == raw
                    && (forall|j: int| 0 <= j < k ==> (#[trigger] named[j]).value is Some);
            assert(f.read_status.deep_view()[k] == raw);
            assert(f.read_status@[k]@ == raw);
            assert(book_filter_condition(f)->Err_0 == status_error(
                400,
                invalid_param_message("read_status"@, raw),
            ));
        },
        (Ok(_), Ok(_)) => {
            assert forall|i: int| 0 <= i < f.media_status@.len() implies (
            #[trigger] f.media_status@[i]).value is Some by {}
            assert forall|i: int| 0 <= i < f.read_status@.len() implies !(forall|s: ReadStatus|
                (#[trigger] f.read_status@[i])@ != read_status_name(s)) by {
                assert(named[i].value is Some);
            }
            if f.released_after is Some && f.released_after->0.value is None {
                assert(book_filter_condition(f)->Err_0 == status_error(
                    400,
                    invalid_param_message("released_after"@, f.released_after->0.raw@),
                ));
            }
        },
    }
}

} // verus!
