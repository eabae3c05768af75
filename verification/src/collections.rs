//! Collections: which series a list of a collection shows, and the picture that stands for it.
use vstd::prelude::*;

use crate::datetime::{Date, DateTime};
use crate::error::{status_error, ApiError, ErrorView};
use crate::search::{
    all_of, any_of, collect_parsed, enum_conversion_error, parse_read_statuses, push_group, push_leaf,
    sort_by, Condition, Parsed, ReadStatus, SeriesStatus, SortOrder,
};
use crate::search::{enum_conversion_message, group, parsed_all, read_statuses, shape, shapes, sorted_on, ConditionView};
use crate::search::{
    all_hold, holds, lemma_all_hold_add, lemma_any_holds, lemma_group_holds, lemma_one,
    one_holds, parameters_are_taken_together, read_status_is_read_by_its_name, read_status_name,
};
use crate::text::parse_i32;

verus! {

// ---- which series ----

/// A person and what they did for a series.
#[derive(Debug, PartialEq, Eq)]
pub struct Author {
    pub name: String,
    pub role: String,
}

/// What a single series must meet.
#[derive(Debug, PartialEq, Eq)]
pub enum SeriesLeaf {
    CollectionId(String),
    LibraryId(String),
    Publisher(String),
    Language(String),
    Tag(String),
    Genre(String),
    TitleContains(String),
    Deleted(bool),
    Complete(bool),
    OneShot(bool),
    Status(SeriesStatus),
    /// An age rating, or none.
    AgeRating(Option<i32>),
    ReleasedAfter(DateTime),
    ReleasedBefore(DateTime),
    ReadStatus(ReadStatus),
    Author { name: String, role: String },
}

pub type SearchConditionSeries = Condition<SeriesLeaf>;

/// What a search can ask about a series. How a title is compared with a text, and a day of release
/// with a moment, is up to the search.
pub struct SeriesFacts {
    pub collections: Set<Seq<char>>,
    pub library_id: Seq<char>,
    pub publisher: Seq<char>,
    pub language: Seq<char>,
    pub tags: Set<Seq<char>>,
    pub genres: Set<Seq<char>>,
    pub title_contains: spec_fn(Seq<char>) -> bool,
    pub deleted: bool,
    pub complete: bool,
    pub one_shot: bool,
    pub status: SeriesStatus,
    pub age_rating: Option<i32>,
    pub released_after: spec_fn(DateTime) -> bool,
    pub released_before: spec_fn(DateTime) -> bool,
    pub read_status: ReadStatus,
    /// The authors, by name and role.
    pub authors: Set<(Seq<char>, Seq<char>)>,
}

/// Whether a series is as a simple condition asks.
pub open spec fn series_is(s: SeriesFacts, l: SeriesLeaf) -> bool {
    match l {
        SeriesLeaf::CollectionId(id) => s.collections.contains(id@),
        SeriesLeaf::LibraryId(id) => s.library_id == id@,
        SeriesLeaf::Publisher(p) => s.publisher == p@,
        SeriesLeaf::Language(l) => s.language == l@,
        SeriesLeaf::Tag(t) => s.tags.contains(t@),
        SeriesLeaf::Genre(g) => s.genres.contains(g@),
        SeriesLeaf::TitleContains(t) => (s.title_contains)(t@),
        SeriesLeaf::Deleted(d) => s.deleted == d,
        SeriesLeaf::Complete(c) => s.complete == c,
        SeriesLeaf::OneShot(o) => s.one_shot == o,
        SeriesLeaf::Status(st) => s.status == st,
        SeriesLeaf::AgeRating(a) => s.age_rating == a,
        SeriesLeaf::ReleasedAfter(d) => (s.released_after)(d),
        SeriesLeaf::ReleasedBefore(d) => (s.released_before)(d),
        SeriesLeaf::ReadStatus(r) => s.read_status == r,
        SeriesLeaf::Author { name, role } => s.authors.contains((name@, role@)),
    }
}

/// The simple conditions that a series meets.
pub open spec fn of_series(s: SeriesFacts) -> spec_fn(SeriesLeaf) -> bool {
    |l: SeriesLeaf| series_is(s, l)
}

/// Whether a series meets a condition.
pub open spec fn series_meets(c: ConditionView<SeriesLeaf>, s: SeriesFacts) -> bool {
    holds(c, of_series(s))
}

/// The parameters that filter the series of a collection.
#[derive(Debug, PartialEq, Eq)]
pub struct SeriesFilter {
    pub library_ids: Vec<String>,
    pub deleted: Option<bool>,
    pub complete: Option<bool>,
    pub status: Vec<Parsed<SeriesStatus>>,
    pub publishers: Vec<String>,
    pub languages: Vec<String>,
    pub tags: Vec<String>,
    pub genres: Vec<String>,
    pub age_ratings: Vec<String>,
    pub release_years: Vec<String>,
    pub read_status: Vec<String>,
    pub authors: Vec<Author>,
}

/// The parameters whose values are taken as they are.
#[derive(Clone, Copy, Debug, PartialEq, Eq, Structural)]
pub enum SeriesText {
    Library,
    Publisher,
    Language,
    Tag,
    Genre,
}

/// The condition that a value of such a parameter makes.
pub open spec fn text_leaf(kind: SeriesText, value: String) -> SeriesLeaf {
    match kind {
        SeriesText::Library => SeriesLeaf::LibraryId(value),
        SeriesText::Publisher => SeriesLeaf::Publisher(value),
        SeriesText::Language => SeriesLeaf::Language(value),
        SeriesText::Tag => SeriesLeaf::Tag(value),
        SeriesText::Genre => SeriesLeaf::Genre(value),
    }
}

/// The conditions that the values of such a parameter make.
pub open spec fn text_leaves(kind: SeriesText, v: Seq<String>) -> Seq<SeriesLeaf> {
    Seq::new(v.len(), |i: int| text_leaf(kind, v[i]))
}

/// Age ratings: a number stands for itself, anything else for having none.
pub open spec fn age_leaves(v: Seq<String>) -> Seq<SeriesLeaf> {
    Seq::new(v.len(), |i: int| SeriesLeaf::AgeRating(crate::text::parsed_i32(v[i]@)))
}

/// Publication statuses as conditions.
pub open spec fn status_leaves(v: Seq<SeriesStatus>) -> Seq<SeriesLeaf> {
    Seq::new(v.len(), |i: int| SeriesLeaf::Status(v[i]))
}

/// Read statuses as conditions.
pub open spec fn read_leaves(v: Seq<ReadStatus>) -> Seq<SeriesLeaf> {
    Seq::new(v.len(), |i: int| SeriesLeaf::ReadStatus(v[i]))
}

/// Authors as conditions.
pub open spec fn author_leaves(v: Seq<Author>) -> Seq<SeriesLeaf> {
    Seq::new(v.len(), |i: int| SeriesLeaf::Author { name: v[i].name, role: v[i].role })
}

/// The years among the values: what is no number is passed over.
pub open spec fn years_of(v: Seq<String>) -> Seq<i32>
    decreases v.len(),
{
    if v.len() == 0 {
        Seq::empty()
    } else {
        match crate::text::parsed_i32(v.last()@) {
            Some(y) => years_of(v.drop_last()).push(y),
            None => years_of(v.drop_last()),
        }
    }
}

/// Noon of a day, in UTC.
pub open spec fn noon(year: int, month: u8, day: u8) -> DateTime {
    crate::datetime::utc_hour(Date { year: year as i32, month, day }, 12)
}

/// Released in a year: after noon of the last day before it and before noon of the first day after
/// it.
pub open spec fn year_condition(y: int) -> ConditionView<SeriesLeaf> {
    ConditionView::AllOf(
        seq![
            ConditionView::Leaf(SeriesLeaf::ReleasedAfter(noon(y - 1, 12, 31))),
            ConditionView::Leaf(SeriesLeaf::ReleasedBefore(noon(y + 1, 1, 1))),
        ],
    )
}

/// Released in one of several years; nothing if there is none.
pub open spec fn year_group(years: Seq<i32>) -> Seq<ConditionView<SeriesLeaf>> {
    if years.len() == 0 {
        Seq::empty()
    } else {
        seq![
            ConditionView::AnyOf(Seq::new(years.len(), |i: int| year_condition(years[i] as int))),
        ]
    }
}

/// A yes-or-no parameter as a condition.
pub open spec fn flag_group(flag: Option<bool>, complete: bool) -> Seq<ConditionView<SeriesLeaf>> {
    match flag {
        Some(b) => seq![
            ConditionView::Leaf(
                if complete {
                    SeriesLeaf::Complete(b)
                } else {
                    SeriesLeaf::Deleted(b)
                },
            ),
        ],
        None => Seq::empty(),
    }
}

/// The name that a refusal gives to the publication statuses.
pub const SERIES_STATUS: &'static str = "org.gotson.komga.domain.model.SeriesMetadata$Status";

/// The name that a refusal gives to the read statuses.
pub const READ_STATUS: &'static str = "org.gotson.komga.domain.model.ReadStatus";

/// What a list of a collection's series asks for: to be in the collection, any of the values of
/// each parameter, and all of the parameters. The first status that does not exist is refused.
pub open spec fn collection_condition(id: String, f: SeriesFilter) -> Result<
    ConditionView<SeriesLeaf>,
    ErrorView,
> {
    match (parsed_all(f.status@), parsed_all(read_statuses(f.read_status@))) {
        (Err(raw), _) => Err(status_error(400, enum_conversion_message(SERIES_STATUS@, raw))),
        (Ok(_), Err(raw)) => Err(status_error(400, enum_conversion_message(READ_STATUS@, raw))),
        (Ok(status), Ok(read)) => Ok(
            ConditionView::AllOf(
                seq![ConditionView::Leaf(SeriesLeaf::CollectionId(id))]
                    + group(text_leaves(SeriesText::Library, f.library_ids@))
                    + flag_group(f.deleted, false)
                    + flag_group(f.complete, true)
                    + group(status_leaves(status))
                    + group(text_leaves(SeriesText::Publisher, f.publishers@))
                    + group(text_leaves(SeriesText::Language, f.languages@))
                    + group(text_leaves(SeriesText::Tag, f.tags@))
                    + group(text_leaves(SeriesText::Genre, f.genres@))
                    + group(age_leaves(f.age_ratings@))
                    + year_group(years_of(f.release_years@))
                    + group(read_leaves(read))
                    + group(author_leaves(f.authors@)),
            ),
        ),
    }
}

/// The conditions that the values of such a parameter make.
pub fn series_text_leaves(kind: SeriesText, v: &Vec<String>) -> (r: Vec<SeriesLeaf>)
    ensures
        r@ == text_leaves(kind, v@),
{
    let mut r: Vec<SeriesLeaf> = Vec::new();
    let mut i: usize = 0;
    while i < v.len()
        invariant
            i <= v.len(),
            r@ == text_leaves(kind, v@).take(i as int),
        decreases v.len() - i,
    {
        let s: String = v[i].clone();
        r.push(
            match kind {
                SeriesText::Library => SeriesLeaf::LibraryId(s),
                SeriesText::Publisher => SeriesLeaf::Publisher(s),
                SeriesText::Language => SeriesLeaf::Language(s),
                SeriesText::Tag => SeriesLeaf::Tag(s),
                SeriesText::Genre => SeriesLeaf::Genre(s),
            },
        );
        assert(r@ =~= text_leaves(kind, v@).take(i as int + 1));
        i += 1;
    }
    assert(r@ =~= text_leaves(kind, v@));
    r
}

/// Adds the group of conditions that the values of a parameter make.
pub fn push_series_text_group(out: &mut Vec<SearchConditionSeries>, kind: SeriesText, v: &Vec<String>)
    ensures
        shapes(final(out)@) == shapes(old(out)@) + group(text_leaves(kind, v@)),
{
    push_group(out, series_text_leaves(kind, v));
}

fn series_age_leaves(v: &Vec<String>) -> (r: Vec<SeriesLeaf>)
    ensures
        r@ == age_leaves(v@),
{
    let mut r: Vec<SeriesLeaf> = Vec::new();
    let mut i: usize = 0;
    while i < v.len()
        invariant
            i <= v.len(),
            r@ == age_leaves(v@).take(i as int),
        decreases v.len() - i,
    {
        r.push(SeriesLeaf::AgeRating(parse_i32(v[i].as_str())));
        assert(r@ =~= age_leaves(v@).take(i as int + 1));
        i += 1;
    }
    assert(r@ =~= age_leaves(v@));
    r
}

fn series_status_leaves(v: &Vec<SeriesStatus>) -> (r: Vec<SeriesLeaf>)
    ensures
        r@ == status_leaves(v@),
{
    let mut r: Vec<SeriesLeaf> = Vec::new();
    let mut i: usize = 0;
    while i < v.len()
        invariant
            i <= v.len(),
            r@ == status_leaves(v@).take(i as int),
        decreases v.len() - i,
    {
        r.push(SeriesLeaf::Status(v[i]));
        assert(r@ =~= status_leaves(v@).take(i as int + 1));
        i += 1;
    }
    assert(r@ =~= status_leaves(v@));
    r
}

fn series_read_leaves(v: &Vec<ReadStatus>) -> (r: Vec<SeriesLeaf>)
    ensures
        r@ == read_leaves(v@),
{
    let mut r: Vec<SeriesLeaf> = Vec::new();
    let mut i: usize = 0;
    while i < v.len()
        invariant
            i <= v.len(),
            r@ == read_leaves(v@).take(i as int),
        decreases v.len() - i,
    {
        r.push(SeriesLeaf::ReadStatus(v[i]));
        assert(r@ =~= read_leaves(v@).take(i as int + 1));
        i += 1;
    }
    assert(r@ =~= read_leaves(v@));
    r
}

fn series_author_leaves(v: &Vec<Author>) -> (r: Vec<SeriesLeaf>)
    ensures
        r@ == author_leaves(v@),
{
    let mut r: Vec<SeriesLeaf> = Vec::new();
    let mut i: usize = 0;
    while i < v.len()
        invariant
            i <= v.len(),
            r@ == author_leaves(v@).take(i as int),
        decreases v.len() - i,
    {
        r.push(SeriesLeaf::Author { name: v[i].name.clone(), role: v[i].role.clone() });
        assert(r@ =~= author_leaves(v@).take(i as int + 1));
        i += 1;
    }
    assert(r@ =~= author_leaves(v@));
    r
}

/// The years that a filter by release year names.
pub fn release_years(v: &Vec<String>) -> (r: Vec<i32>)
    ensures
        r@ == years_of(v@),
{
    let mut r: Vec<i32> = Vec::new();
    let mut i: usize = 0;
    while i < v.len()
        invariant
            i <= v.len(),
            r@ == years_of(v@.take(i as int)),
        decreases v.len() - i,
    {
        assert(v@.take(i as int + 1).drop_last() =~= v@.take(i as int));
        assert(v@.take(i as int + 1).last() == v@[i as int]);
        match parse_i32(v[i].as_str()) {
            Some(y) => {
                r.push(y);
            },
            None => {},
        }
        i += 1;
    }
    assert(v@.take(v@.len() as int) =~= v@);
    r
}

/// Noon of a day, in UTC.
fn year_boundary(year: i32, month: u8, day: u8) -> (r: DateTime)
    ensures
        r == noon(year as int, month, day),
{
    DateTime::at_utc_hour(Date { year, month, day }, 12)
}

fn push_years(out: &mut Vec<SearchConditionSeries>, years: &Vec<i32>)
    requires
        forall|i: int| 0 <= i < years.len() ==> i32::MIN < #[trigger] years@[i] < i32::MAX,
    ensures
        shapes(final(out)@) == shapes(old(out)@) + year_group(years@),
{
    let ghost start = out@;
    let mut options: Vec<SearchConditionSeries> = Vec::new();
    let mut i: usize = 0;
    let ghost all = Seq::new(years@.len(), |i: int| year_condition(years@[i] as int));
    assert(shapes(options@) =~= all.take(0));
    while i < years.len()
        invariant
            i <= years.len(),
            all == Seq::new(years@.len(), |i: int| year_condition(years@[i] as int)),
            forall|i: int| 0 <= i < years.len() ==> i32::MIN < #[trigger] years@[i] < i32::MAX,
            shapes(options@) == all.take(i as int),
        decreases years.len() - i,
    {
        let y: i32 = years[i];
        assert(i32::MIN < years@[i as int] < i32::MAX);
        let mut both: Vec<SearchConditionSeries> = Vec::new();
        assert(shapes(both@) =~= Seq::<ConditionView<SeriesLeaf>>::empty());
        push_leaf(&mut both, SeriesLeaf::ReleasedAfter(year_boundary(y - 1, 12, 31)));
        push_leaf(&mut both, SeriesLeaf::ReleasedBefore(year_boundary(y + 1, 1, 1)));
        let ghost pair = both@;
        let c: SearchConditionSeries = all_of(both);
        assert(shapes(pair) =~= year_condition(y as int)->AllOf_0);
        let ghost before = options@;
        options.push(c);
        assert(shapes(options@) =~= shapes(before).push(year_condition(y as int)));
        assert(shapes(options@) =~= all.take(i as int + 1));
        i += 1;
    }
    assert(all.take(years@.len() as int) =~= all);
    if years.len() > 0 {
        let c: SearchConditionSeries = any_of(options);
        out.push(c);
        assert(shapes(out@) =~= shapes(start).push(shape(c)));
    }
    assert(shapes(out@) =~= shapes(start) + year_group(years@));
}

fn push_flag(out: &mut Vec<SearchConditionSeries>, flag: Option<bool>, complete: bool)
    ensures
        shapes(final(out)@) == shapes(old(out)@) + flag_group(flag, complete),
{
    let ghost start = out@;
    match flag {
        Some(b) => {
            push_leaf(
                out,
                if complete {
                    SeriesLeaf::Complete(b)
                } else {
                    SeriesLeaf::Deleted(b)
                },
            );
        },
        None => {},
    }
    assert(shapes(out@) =~= shapes(start) + flag_group(flag, complete));
}

/// The years that the calendar can hold, and whose neighbours it can hold.
pub open spec fn calendar_years(years: Seq<i32>) -> bool {
    forall|i: int| 0 <= i < years.len() ==> -9999 < #[trigger] years[i] < 9999
}

/// The condition that the parameters of a list of a collection's series make.
pub fn collection_series_condition(collection_id: &String, f: &SeriesFilter) -> (r: Result<
    SearchConditionSeries,
    ApiError,
>)
    requires
        parsed_all(f.status@) is Ok ==> calendar_years(years_of(f.release_years@)),
    ensures
        match (r, collection_condition(*collection_id, *f)) {
            (Ok(c), Ok(v)) => shape(c) == v,
            (Err(e), Err(v)) => e.deep_view() == v,
            _ => false,
        },
        r is Ok ==> forall|s: SeriesFacts| #[trigger]
            series_meets(shape(r->Ok_0), s) <==> series_passes(collection_id@, *f, s),
{
    proof {
        if collection_condition(*collection_id, *f) is Ok {
            assert forall|s: SeriesFacts| #[trigger]
                series_meets(collection_condition(*collection_id, *f)->Ok_0, s) <==> series_passes(
                    collection_id@,
                    *f,
                    s,
                ) by {
                collection_shows_what_passes(*collection_id, *f, s);
            }
        }
    }
    let status: Vec<SeriesStatus> = match collect_parsed(&f.status) {
        Ok(s) => s,
        Err(raw) => {
            return Err(enum_conversion_error(SERIES_STATUS, raw.as_str()));
        },
    };
    let read: Vec<ReadStatus> = match collect_parsed(&parse_read_statuses(&f.read_status)) {
        Ok(s) => s,
        Err(raw) => {
            return Err(enum_conversion_error(READ_STATUS, raw.as_str()));
        },
    };
    let years: Vec<i32> = release_years(&f.release_years);
    let mut c: Vec<SearchConditionSeries> = Vec::new();
    assert(shapes(c@) =~= Seq::<ConditionView<SeriesLeaf>>::empty());
    push_leaf(&mut c, SeriesLeaf::CollectionId(collection_id.clone()));
    assert(shapes(c@) =~= seq![ConditionView::Leaf(SeriesLeaf::CollectionId(*collection_id))]);
    push_series_text_group(&mut c, SeriesText::Library, &f.library_ids);
    push_flag(&mut c, f.deleted, false);
    push_flag(&mut c, f.complete, true);
    push_group(&mut c, series_status_leaves(&status));
    push_series_text_group(&mut c, SeriesText::Publisher, &f.publishers);
    push_series_text_group(&mut c, SeriesText::Language, &f.languages);
    push_series_text_group(&mut c, SeriesText::Tag, &f.tags);
    push_series_text_group(&mut c, SeriesText::Genre, &f.genres);
    push_group(&mut c, series_age_leaves(&f.age_ratings));
    push_years(&mut c, &years);
    push_group(&mut c, series_read_leaves(&read));
    push_group(&mut c, series_author_leaves(&f.authors));
    Ok(all_of(c))
}

/// Whether one of several texts is given for a series.
pub open spec fn one_of(v: Seq<String>, text: Seq<char>) -> bool {
    exists|i: int| 0 <= i < v.len() && (#[trigger] v[i])@ == text
}

/// Whether a series has one of several texts.
pub open spec fn has_one_of(texts: Set<Seq<char>>, v: Seq<String>) -> bool {
    exists|i: int| 0 <= i < v.len() && texts.contains((#[trigger] v[i])@)
}

/// Whether a series was released in one of the years that are named: after noon of the last day of the
/// year before, and before noon of the first day of the year after.
pub open spec fn released_in_one_of(s: SeriesFacts, v: Seq<String>) -> bool {
    exists|i: int|
        0 <= i < v.len() && crate::text::parsed_i32((#[trigger] v[i])@) is Some && {
            let year = crate::text::parsed_i32(v[i]@)->0;
            let noon_of = |date: Date|
                DateTime { date, hour: 12, minute: 0, second: 0, nanosecond: 0, offset_seconds: 0 };
            &&& (s.released_after)(
                noon_of(Date { year: (year - 1) as i32, month: 12, day: 31 }),
            )
            &&& (s.released_before)(noon_of(Date { year: (year + 1) as i32, month: 1, day: 1 }))
        }
}

/// Whether a series is in a collection and has one of the values of each parameter that is given.
pub open spec fn series_passes(id: Seq<char>, f: SeriesFilter, s: SeriesFacts) -> bool {
    &&& s.collections.contains(id)
    &&& f.library_ids@.len() > 0 ==> one_of(f.library_ids@, s.library_id)
    &&& f.deleted is Some ==> s.deleted == f.deleted->0
    &&& f.complete is Some ==> s.complete == f.complete->0
    &&& f.status@.len() > 0 ==> exists|i: int|
        0 <= i < f.status@.len() && (#[trigger] f.status@[i]).value == Some(s.status)
    &&& f.publishers@.len() > 0 ==> one_of(f.publishers@, s.publisher)
    &&& f.languages@.len() > 0 ==> one_of(f.languages@, s.language)
    &&& f.tags@.len() > 0 ==> has_one_of(s.tags, f.tags@)
    &&& f.genres@.len() > 0 ==> has_one_of(s.genres, f.genres@)
    &&& f.age_ratings@.len() > 0 ==> exists|i: int|
        0 <= i < f.age_ratings@.len() && crate::text::parsed_i32((#[trigger] f.age_ratings@[i])@)
            == s.age_rating
    &&& (exists|i: int|
        0 <= i < f.release_years@.len() && crate::text::parsed_i32(
            (#[trigger] f.release_years@[i])@,
        ) is Some) ==> released_in_one_of(s, f.release_years@)
    &&& f.read_status@.len() > 0 ==> one_of(f.read_status@, read_status_name(s.read_status))
    &&& f.authors@.len() > 0 ==> exists|i: int|
        0 <= i < f.authors@.len() && s.authors.contains(
            ((#[trigger] f.authors@[i]).name@, f.authors@[i].role@),
        )
}

proof fn lemma_years(v: Seq<String>)
    ensures
        forall|k: int|
            0 <= k < years_of(v).len() ==> exists|i: int|
                0 <= i < v.len() && crate::text::parsed_i32((#[trigger] v[i])@) == Some(
                    #[trigger] years_of(v)[k],
                ),
        forall|i: int|
            0 <= i < v.len() && crate::text::parsed_i32((#[trigger] v[i])@) is Some
                ==> years_of(v).contains(crate::text::parsed_i32(v[i]@)->0),
    decreases v.len(),
{
    if v.len() > 0 {
        let init = v.drop_last();
        lemma_years(init);
        let years = years_of(v);
        let before = years_of(init);
        assert forall|k: int| 0 <= k < years.len() implies exists|i: int|
            0 <= i < v.len() && crate::text::parsed_i32((#[trigger] v[i])@) == Some(
                #[trigger] years[k],
            ) by {
            if k < before.len() {
                assert(years[k] == before[k]);
                let i = choose|i: int|
                    0 <= i < init.len() && crate::text::parsed_i32((#[trigger] init[i])@) == Some(
                        before[k],
                    );
                assert(v[i] == init[i]);
            } else {
                assert(v[v.len() - 1] == v.last());
            }
        }
        assert forall|i: int|
            0 <= i < v.len() && crate::text::parsed_i32((#[trigger] v[i])@) is Some implies years.contains(
            crate::text::parsed_i32(v[i]@)->0,
        ) by {
            if i < init.len() {
                assert(init[i] == v[i]);
                let y = crate::text::parsed_i32(v[i]@)->0;
                let k = choose|k: int| 0 <= k < before.len() && before[k] == y;
                assert(years[k] == y);
            } else {
                assert(years[years.len() - 1] == crate::text::parsed_i32(v[i]@)->0);
            }
        }
    }
}

proof fn lemma_year_group(v: Seq<String>, s: SeriesFacts)
    requires
        calendar_years(years_of(v)),
    ensures
        all_hold(year_group(years_of(v)), of_series(s)) <==> ((exists|i: int|
            0 <= i < v.len() && crate::text::parsed_i32((#[trigger] v[i])@) is Some)
            ==> released_in_one_of(s, v)),
{
    let leaf = of_series(s);
    let years = years_of(v);
    lemma_years(v);
    let options = Seq::new(years.len(), |i: int| year_condition(years[i] as int));
    lemma_any_holds(options, leaf);
    assert forall|k: int| 0 <= k < years.len() implies holds(#[trigger] options[k], leaf) == ((
    s.released_after)(noon(years[k] - 1, 12, 31)) && (s.released_before)(
        noon(years[k] + 1, 1, 1),
    )) by {
        let after = ConditionView::Leaf(SeriesLeaf::ReleasedAfter(noon(years[k] - 1, 12, 31)));
        let before = ConditionView::Leaf(SeriesLeaf::ReleasedBefore(noon(years[k] + 1, 1, 1)));
        assert(seq![after, before] =~= seq![after] + seq![before]);
        lemma_all_hold_add(seq![after], seq![before], leaf);
        lemma_one(after, leaf);
        lemma_one(before, leaf);
    }
    if years.len() == 0 {
        assert(!(exists|i: int|
            0 <= i < v.len() && crate::text::parsed_i32((#[trigger] v[i])@) is Some)) by {
            if exists|i: int|
                0 <= i < v.len() && crate::text::parsed_i32((#[trigger] v[i])@) is Some {
                let i = choose|i: int|
                    0 <= i < v.len() && crate::text::parsed_i32((#[trigger] v[i])@) is Some;
                assert(years.contains(crate::text::parsed_i32(v[i]@)->0));
            }
        }
    } else {
        lemma_one(ConditionView::AnyOf(options), leaf);
        let first = choose|i: int|
            0 <= i < v.len() && crate::text::parsed_i32((#[trigger] v[i])@) == Some(years[0]);
        assert(crate::text::parsed_i32(v[first]@) is Some);
        if holds(ConditionView::AnyOf(options), leaf) {
            let k = choose|k: int| 0 <= k < options.len() && holds(#[trigger] options[k], leaf);
            let i = choose|i: int|
                0 <= i < v.len() && crate::text::parsed_i32((#[trigger] v[i])@) == Some(years[k]);
            assert(crate::text::parsed_i32(v[i]@)->0 == years[k]);
        }
        if released_in_one_of(s, v) {
            let i = choose|i: int|
                0 <= i < v.len() && crate::text::parsed_i32((#[trigger] v[i])@) is Some && {
                    let year = crate::text::parsed_i32(v[i]@)->0;
                    let noon_of = |date: Date|
                        DateTime {
                            date,
                            hour: 12,
                            minute: 0,
                            second: 0,
                            nanosecond: 0,
                            offset_seconds: 0,
                        };
                    &&& (s.released_after)(
                        noon_of(Date { year: (year - 1) as i32, month: 12, day: 31 }),
                    )
                    &&& (s.released_before)(
                        noon_of(Date { year: (year + 1) as i32, month: 1, day: 1 }),
                    )
                };
            let y = crate::text::parsed_i32(v[i]@)->0;
            let k = choose|k: int| 0 <= k < years.len() && years[k] == y;
            assert(holds(options[k], leaf));
        }
    }
}

pub(crate) proof fn lemma_text_group(kind: SeriesText, v: Seq<String>, s: SeriesFacts)
    ensures
        all_hold(group(text_leaves(kind, v)), of_series(s)) <==> (v.len() > 0 ==> match kind {
            SeriesText::Library => one_of(v, s.library_id),
            SeriesText::Publisher => one_of(v, s.publisher),
            SeriesText::Language => one_of(v, s.language),
            SeriesText::Tag => has_one_of(s.tags, v),
            SeriesText::Genre => has_one_of(s.genres, v),
        }),
{
    let leaf = of_series(s);
    let all = text_leaves(kind, v);
    lemma_group_holds(all, leaf);
    if one_holds(all, leaf) {
        let i = choose|i: int| 0 <= i < all.len() && leaf(#[trigger] all[i]);
        assert(series_is(s, text_leaf(kind, v[i])));
    }
    assert forall|i: int| 0 <= i < v.len() && series_is(s, text_leaf(kind, #[trigger] v[i])) implies one_holds(
        all,
        leaf,
    ) by {
        assert(leaf(all[i]));
    }
    match kind {
        SeriesText::Library => {
            if one_of(v, s.library_id) {
                let i = choose|i: int| 0 <= i < v.len() && (#[trigger] v[i])@ == s.library_id;
                assert(series_is(s, text_leaf(kind, v[i])));
            }
        },
        SeriesText::Publisher => {
            if one_of(v, s.publisher) {
                let i = choose|i: int| 0 <= i < v.len() && (#[trigger] v[i])@ == s.publisher;
                assert(series_is(s, text_leaf(kind, v[i])));
            }
        },
        SeriesText::Language => {
            if one_of(v, s.language) {
                let i = choose|i: int| 0 <= i < v.len() && (#[trigger] v[i])@ == s.language;
                assert(series_is(s, text_leaf(kind, v[i])));
            }
        },
        SeriesText::Tag => {
            if has_one_of(s.tags, v) {
                let i = choose|i: int| 0 <= i < v.len() && s.tags.contains((#[trigger] v[i])@);
                assert(series_is(s, text_leaf(kind, v[i])));
            }
        },
        SeriesText::Genre => {
            if has_one_of(s.genres, v) {
                let i = choose|i: int| 0 <= i < v.len() && s.genres.contains((#[trigger] v[i])@);
                assert(series_is(s, text_leaf(kind, v[i])));
            }
        },
    }
}

proof fn lemma_flag_group(flag: Option<bool>, complete: bool, s: SeriesFacts)
    ensures
        all_hold(flag_group(flag, complete), of_series(s)) <==> (flag is Some ==> (if complete {
            s.complete
        } else {
            s.deleted
        }) == flag->0),
{
    if flag is Some {
        lemma_one(flag_group(flag, complete)[0], of_series(s));
        assert(flag_group(flag, complete) =~= seq![flag_group(flag, complete)[0]]);
    }
}

/// A filtered list of a collection shows exactly the series of the collection that have one of the
/// values of each parameter that is given.
#[verifier::spinoff_prover]
pub proof fn collection_shows_what_passes(id: String, f: SeriesFilter, s: SeriesFacts)
    requires
        collection_condition(id, f) is Ok,
        calendar_years(years_of(f.release_years@)),
    ensures
        series_meets(collection_condition(id, f)->Ok_0, s) <==> series_passes(id@, f, s),
{
    let leaf = of_series(s);
    let named = read_statuses(f.read_status@);
    parameters_are_taken_together(f.status@);
    parameters_are_taken_together(named);
    let status = parsed_all(f.status@)->Ok_0;
    let read = parsed_all(named)->Ok_0;
    let g0 = seq![ConditionView::Leaf(SeriesLeaf::CollectionId(id))];
    let g1 = group(text_leaves(SeriesText::Library, f.library_ids@));
    let g2 = flag_group(f.deleted, false);
    let g3 = flag_group(f.complete, true);
    let g4 = group(status_leaves(status));
    let g5 = group(text_leaves(SeriesText::Publisher, f.publishers@));
    let g6 = group(text_leaves(SeriesText::Language, f.languages@));
    let g7 = group(text_leaves(SeriesText::Tag, f.tags@));
    let g8 = group(text_leaves(SeriesText::Genre, f.genres@));
    let g9 = group(age_leaves(f.age_ratings@));
    let ga = year_group(years_of(f.release_years@));
    let gb = group(read_leaves(read));
    let gc = group(author_leaves(f.authors@));
    lemma_all_hold_add(g0, g1, leaf);
    lemma_all_hold_add(g0 + g1, g2, leaf);
    lemma_all_hold_add(g0 + g1 + g2, g3, leaf);
    lemma_all_hold_add(g0 + g1 + g2 + g3, g4, leaf);
    lemma_all_hold_add(g0 + g1 + g2 + g3 + g4, g5, leaf);
    lemma_all_hold_add(g0 + g1 + g2 + g3 + g4 + g5, g6, leaf);
    lemma_all_hold_add(g0 + g1 + g2 + g3 + g4 + g5 + g6, g7, leaf);
    lemma_all_hold_add(g0 + g1 + g2 + g3 + g4 + g5 + g6 + g7, g8, leaf);
    lemma_all_hold_add(g0 + g1 + g2 + g3 + g4 + g5 + g6 + g7 + g8, g9, leaf);
    lemma_all_hold_add(g0 + g1 + g2 + g3 + g4 + g5 + g6 + g7 + g8 + g9, ga, leaf);
    lemma_all_hold_add(g0 + g1 + g2 + g3 + g4 + g5 + g6 + g7 + g8 + g9 + ga, gb, leaf);
    lemma_all_hold_add(g0 + g1 + g2 + g3 + g4 + g5 + g6 + g7 + g8 + g9 + ga + gb, gc, leaf);
    lemma_one(g0[0], leaf);
    lemma_text_group(SeriesText::Library, f.library_ids@, s);
    lemma_flag_group(f.deleted, false, s);
    lemma_flag_group(f.complete, true, s);
    lemma_text_group(SeriesText::Publisher, f.publishers@, s);
    lemma_text_group(SeriesText::Language, f.languages@, s);
    lemma_text_group(SeriesText::Tag, f.tags@, s);
    lemma_text_group(SeriesText::Genre, f.genres@, s);
    lemma_year_group(f.release_years@, s);
    lemma_group_holds(status_leaves(status), leaf);
    lemma_group_holds(age_leaves(f.age_ratings@), leaf);
    lemma_group_holds(read_leaves(read), leaf);
    lemma_group_holds(author_leaves(f.authors@), leaf);
    assert(one_holds(status_leaves(status), leaf) <==> exists|i: int|
        0 <= i < f.status@.len() && (#[trigger] f.status@[i]).value == Some(s.status)) by {
        let all = status_leaves(status);
        if one_holds(all, leaf) {
            let i = choose|i: int| 0 <= i < all.len() && leaf(#[trigger] all[i]);
            assert(f.status@[i].value == Some(s.status));
        }
        if exists|i: int|
            0 <= i < f.status@.len() && (#[trigger] f.status@[i]).value == Some(s.status) {
            let i = choose|i: int|
                0 <= i < f.status@.len() && (#[trigger] f.status@[i]).value == Some(s.status);
            assert(leaf(all[i]));
        }
    }
    assert(one_holds(age_leaves(f.age_ratings@), leaf) <==> exists|i: int|
        0 <= i < f.age_ratings@.len() && crate::text::parsed_i32((#[trigger] f.age_ratings@[i])@)
            == s.age_rating) by {
        let all = age_leaves(f.age_ratings@);
        if one_holds(all, leaf) {
            let i = choose|i: int| 0 <= i < all.len() && leaf(#[trigger] all[i]);
            assert(crate::text::parsed_i32(f.age_ratings@[i]@) == s.age_rating);
        }
        if exists|i: int|
            0 <= i < f.age_ratings@.len() && crate::text::parsed_i32(
                (#[trigger] f.age_ratings@[i])@,
            ) == s.age_rating {
            let i = choose|i: int|
                0 <= i < f.age_ratings@.len() && crate::text::parsed_i32(
                    (#[trigger] f.age_ratings@[i])@,
                ) == s.age_rating;
            assert(leaf(all[i]));
        }
    }
    assert(one_holds(read_leaves(read), leaf) <==> one_of(
        f.read_status@,
        read_status_name(s.read_status),
    )) by {
        let all = read_leaves(read);
        if one_holds(all, leaf) {
            let i = choose|i: int| 0 <= i < all.len() && leaf(#[trigger] all[i]);
            assert(named[i].value == Some(read[i]));
            read_status_is_read_by_its_name(f.read_status@[i]@, s.read_status);
        }
        if one_of(f.read_status@, read_status_name(s.read_status)) {
            let i = choose|i: int|
                0 <= i < f.read_status@.len() && (#[trigger] f.read_status@[i])@
                    == read_status_name(s.read_status);
            read_status_is_read_by_its_name(f.read_status@[i]@, s.read_status);
            assert(named[i].value == Some(read[i]));
            assert(leaf(all[i]));
        }
    }
    assert(one_holds(author_leaves(f.authors@), leaf) <==> exists|i: int|
        0 <= i < f.authors@.len() && s.authors.contains(
            ((#[trigger] f.authors@[i]).name@, f.authors@[i].role@),
        )) by {
        let all = author_leaves(f.authors@);
        if one_holds(all, leaf) {
            let i = choose|i: int| 0 <= i < all.len() && leaf(#[trigger] all[i]);
            assert(s.authors.contains((f.authors@[i].name@, f.authors@[i].role@)));
        }
        if exists|i: int|
            0 <= i < f.authors@.len() && s.authors.contains(
                ((#[trigger] f.authors@[i]).name@, f.authors@[i].role@),
            ) {
            let i = choose|i: int|
                0 <= i < f.authors@.len() && s.authors.contains(
                    ((#[trigger] f.authors@[i]).name@, f.authors@[i].role@),
                );
            assert(leaf(all[i]));
        }
    }
}

/// Whatever the parameters, the list shows series of the collection only.
pub proof fn collection_condition_starts_with_membership(id: String, f: SeriesFilter)
    requires
        collection_condition(id, f) is Ok,
    ensures
        collection_condition(id, f)->Ok_0 is AllOf,
        collection_condition(id, f)->Ok_0->AllOf_0[0] == ConditionView::Leaf(
            SeriesLeaf::CollectionId(id),
        ),
{
}

/// The order of a collection's series: its own, if it has one, and by title otherwise.
pub fn collection_series_sort(ordered: bool) -> (r: Vec<SortOrder>)
    ensures
        r.deep_view() == sorted_on(
            if ordered {
                "collection.number"@
            } else {
                "metadata.titleSort"@
            },
            false,
        ),
{
    if ordered {
        sort_by("collection.number", false)
    } else {
        sort_by("metadata.titleSort", false)
    }
}

} // verus!
