use komga_api::atom::{
    esc_attr, esc_text, push_at_least, push_pse_last_read_date, push_year, write_feed,
    write_open_search, AtomEntry, AtomLink, Feed,
};
use komga_api::collections::SeriesLeaf;
use komga_api::datetime::{Date, DateTime};
use komga_api::error::ApiError;
use komga_api::media::MediaProfile;
use komga_api::opds_v1;
use komga_api::opds_v1::{
    all_series_head, book_entries, book_entry_acq, book_feed_entries, book_feed_query,
    catalog_feed, item_head, nav_entries, paged_feed, publisher_entries, publishers_page,
    search_template, series_feed_query, shelf_head, small_thumbnail_edge, whole_feed, with_query,
    write_item_uri, BookFeed, BookItem, BookMedia, FeedHead, NavItem, NavKind, Param, SeriesFeed,
    Shelf,
};
use komga_api::opds_v2;
use komga_api::opds_v2::{
    auth_link_header, browse_query, check_manifest_profile, feed_metadata_page, format_zoned,
    generate_opds_auth_document, get_library_navigation, get_one_collection, get_one_readlist,
    get_one_series, get_search_results, keep_reading_query, latest_books_query,
    latest_series_query, libraries_browse, libraries_collections, libraries_feed_group,
    libraries_readlists, libraries_recommended, link_search, link_self_href, links_to, list_feed,
    list_query, manifest_kind, non_empty, query_terms, search_books_query, search_series_query,
    series_books_query, url_builder, wp_link, FeedDto, FeedGroupDto, FeedPage, FileProfile, Found,
    LibraryRef, ListKind, ListQuery, ManifestKind, Recommended, SearchResults, SeriesRef, Target,
    TargetKind, MEDIATYPE_OPDS_JSON,
};
use komga_api::search::{BookLeaf, Condition, MediaStatus, ReadStatus, SortOrder};

const BASE: &str = "http://localhost";

fn text(s: &str) -> String {
    s.to_string()
}

fn texts(v: &[&str]) -> Vec<String> {
    v.iter().map(|s| s.to_string()).collect()
}

fn refused(e: ApiError) -> (u16, String) {
    match e {
        ApiError::Status { status, message } => (status, message),
        other => panic!("{other:?}"),
    }
}

fn utc(year: i32, month: u8, day: u8) -> DateTime {
    DateTime {
        date: Date { year, month, day },
        hour: 0,
        minute: 0,
        second: 0,
        nanosecond: 0,
        offset_seconds: 0,
    }
}

/// The same moment in the library's own type.
fn moment(dt: time::OffsetDateTime) -> DateTime {
    DateTime {
        date: Date { year: dt.year(), month: u8::from(dt.month()), day: dt.day() },
        hour: dt.hour(),
        minute: dt.minute(),
        second: dt.second(),
        nanosecond: dt.nanosecond(),
        offset_seconds: dt.offset().whole_seconds(),
    }
}

#[test]
fn zoned_datetime_format() {
    let dt = time::OffsetDateTime::from_unix_timestamp(1577836800).unwrap();
    assert_eq!(format_zoned(&moment(dt)), "2020-01-01T00:00:00Z");
    let millis = dt + time::Duration::milliseconds(120);
    assert_eq!(format_zoned(&moment(millis)), "2020-01-01T00:00:00.12Z");
    let offset_dt = dt.to_offset(time::UtcOffset::from_hms(8, 0, 0).unwrap());
    assert_eq!(format_zoned(&moment(offset_dt)), "2020-01-01T08:00:00+08:00");
    let west = dt.to_offset(time::UtcOffset::from_hms(-3, -30, 0).unwrap());
    let suffix = format_zoned(&moment(west));
    assert_eq!(suffix, "2019-12-31T20:30:00-03:30");
    assert!(!suffix.is_empty());
}

#[test]
fn dates_are_written_with_their_digits() {
    let mut s = String::new();
    push_pse_last_read_date(&mut s, &utc(2024, 3, 7));
    assert_eq!(s, "2024-03-07T00:00:00Z");
    let mut s = String::new();
    push_year(&mut s, 33);
    assert_eq!(s, "0033");
    let mut s = String::new();
    push_year(&mut s, 12345);
    assert_eq!(s, "12345");
    let mut s = String::new();
    push_at_least(&mut s, 7, 2);
    assert_eq!(s, "07");
}

// ---- OPDS 1.2 ----

#[test]
fn markup_is_escaped() {
    assert_eq!(esc_text("a<b>&\"c\""), "a&lt;b&gt;&amp;\"c\"");
    assert_eq!(esc_attr("a<b>&\"c\""), "a&lt;b&gt;&amp;&quot;c&quot;");
    assert_eq!(esc_text("plain"), "plain");
}

#[test]
fn catalog_is_a_navigation_feed() {
    let xml = write_feed(&catalog_feed("http://localhost:25600", "2020-01-01T00:00:00Z"));
    assert!(xml.starts_with("<feed xmlns=\"http://www.w3.org/2005/Atom\">"));
    assert!(!xml.contains("xmlns:pse"));
    assert!(xml.contains("<id>root</id>"));
    assert!(xml.contains("<title>Komga OPDS catalog</title>"));
    assert!(xml.contains(
        "<author><name>Komga</name><uri>https://github.com/gotson/komga</uri></author>"
    ));
    assert!(xml.contains("<link type=\"application/atom+xml;profile=opds-catalog;kind=navigation\" rel=\"self\" href=\"http://localhost:25600/opds/v1.2/catalog\"/>"));
    assert!(xml.contains("<link type=\"application/atom+xml;profile=opds-catalog;kind=navigation\" rel=\"start\" href=\"http://localhost:25600/opds/v1.2/catalog\"/>"));
    assert!(xml.contains("<link type=\"application/opensearchdescription+xml\" rel=\"search\" href=\"http://localhost:25600/opds/v1.2/search\"/>"));
    assert!(xml.contains("<link type=\"application/opds+json\" rel=\"alternate\" href=\"http://localhost:25600/opds/v2/catalog\"/>"));
    assert_eq!(xml.matches("<entry>").count(), 9);
    assert!(xml.contains("<id>keepReading</id>"));
    assert!(xml.contains("<id>allPublishers</id>"));
    assert!(xml.contains("<content>Continue reading your in progress books</content>"));
    assert!(xml.contains("<updated>2020-01-01T00:00:00Z</updated>"));
}

#[test]
fn open_search_description() {
    let xml = write_open_search(&search_template("http://localhost:25600"));
    assert!(xml.starts_with("<OpenSearchDescription xmlns=\"http://a9.com/-/spec/opensearch/1.1/\">"));
    assert!(!xml.contains("xmlns:pse"));
    assert!(xml.contains("<ShortName>Search</ShortName>"));
    assert!(xml.contains("<Description>Search for series</Description>"));
    assert!(xml.contains("<InputEncoding>UTF-8</InputEncoding>"));
    assert!(xml.contains("<OutputEncoding>UTF-8</OutputEncoding>"));
    assert!(xml.contains("<Url template=\"http://localhost:25600/opds/v1.2/series?search={searchTerms}\" type=\"application/atom+xml;profile=opds-catalog;kind=acquisition\"/>"));
}

fn book(id: &str, title: &str, page_types: &[&str], read: Option<(i32, DateTime)>) -> BookItem {
    BookItem {
        id: text(id),
        url: format!("file:/books/{title}.cbz"),
        size: text("0 B"),
        title: text(title),
        number: text("1"),
        series_title: text("Berserk"),
        summary: text(""),
        authors: texts(&["Kentaro Miura"]),
        updated: text("2020-01-01T00:00:00Z"),
        read,
        media: BookMedia {
            media_type: Some(text("application/zip")),
            profile: Some(MediaProfile::Divina),
            page_types: texts(page_types),
            page_count: page_types.len() as i32,
            epub_divina_compatible: false,
        },
    }
}

#[test]
fn books_are_streamed_and_acquired() {
    let books = vec![
        book("b1", "Berserk v01", &["image/png", "image/png"], Some((1, utc(2020, 1, 2)))),
        book("b2", "Berserk v02", &["image/png", "image/gif"], None),
    ];
    let head = FeedHead {
        url: opds_v1::uri(BASE, "/series/s1"),
        id: text("s1"),
        title: text("Berserk"),
        updated: text("2020-01-01T00:00:00Z"),
    };
    let xml = write_feed(&whole_feed(BASE, head, book_entries(BASE, &books, false)));
    assert!(xml.contains("<feed xmlns=\"http://www.w3.org/2005/Atom\">"));
    assert!(xml.contains("<title>Berserk v01</title>"));
    assert!(xml.contains("<title>Berserk v02</title>"));
    assert!(xml.contains("<link href=\"http://localhost/opds/v1.2/books/b1/pages/{pageNumber}\" xmlns:pse=\"http://vaemendis.net/opds-pse/ns\" pse:count=\"2\" pse:lastRead=\"1\" pse:lastReadDate=\"2020-01-02T00:00:00Z\""));
    assert!(xml.contains("<link href=\"http://localhost/opds/v1.2/books/b2/pages/{pageNumber}?convert=jpeg\" xmlns:pse=\"http://vaemendis.net/opds-pse/ns\" pse:count=\"2\" type=\"image/jpeg\" rel=\"http://vaemendis.net/opds-pse/stream\"/>"));
    assert!(xml.contains("<id>s1</id>"));
    assert!(xml.contains("<title>Berserk</title>"));
    assert!(xml.contains("rel=\"http://opds-spec.org/image/thumbnail\" href=\"http://localhost/opds/v1.2/books/b1/thumbnail/small\""));
    assert!(xml.contains("rel=\"http://opds-spec.org/image\" href=\"http://localhost/opds/v1.2/books/b1/thumbnail\""));
    assert!(xml.contains("rel=\"http://opds-spec.org/acquisition\" href=\"http://localhost/opds/v1.2/books/b1/file/Berserk%20v01.cbz\""));
    assert!(xml.contains("cbz - 0 B"));
}

#[test]
fn book_without_pages_is_not_streamed() {
    let entry = book_entry_acq(BASE, &book("b1", "v01", &[], None), false);
    assert!(entry.links.iter().all(|l| l.rel != "http://vaemendis.net/opds-pse/stream"));
    let with = book_entry_acq(BASE, &book("b1", "v01", &["image/png"], None), true);
    assert_eq!(with.title, "Berserk 1: v01");
    let mut upper = book("b1", "v01", &[], None);
    upper.url = text("file:/books/v01.CBZ");
    assert!(book_entry_acq(BASE, &upper, false).content.starts_with("cbz - 0 B"));
    assert!(with.links.iter().any(|l| l.rel == "http://vaemendis.net/opds-pse/stream"));
}

fn hrefs(feed: &Feed, rel: &str) -> Vec<String> {
    feed.links.iter().filter(|l| l.rel == rel).map(|l| l.href.clone()).collect()
}

#[test]
fn pages_are_linked_as_far_as_there_are_any() {
    let head = || all_series_head(BASE, &None, &vec![], "now");
    let only = paged_feed(BASE, head(), vec![], 3, 0, 20);
    assert!(hrefs(&only, "next").is_empty() && hrefs(&only, "previous").is_empty());
    let first = paged_feed(BASE, head(), vec![], 3, 0, 2);
    assert_eq!(hrefs(&first, "next"), ["http://localhost/opds/v1.2/series?page=1"]);
    assert!(hrefs(&first, "previous").is_empty());
    let last = paged_feed(BASE, head(), vec![], 3, 1, 2);
    assert_eq!(hrefs(&last, "previous"), ["http://localhost/opds/v1.2/series?page=0"]);
    assert!(hrefs(&last, "next").is_empty());
    assert_eq!(opds_v1::link_page("u", 3, 1, 2).len(), 1);
    assert_eq!(opds_v1::link_page("u?a=b", 5, 1, 2).len(), 2);
}

#[test]
fn search_is_in_the_title_of_the_feed() {
    let plain = all_series_head(BASE, &None, &vec![], "now");
    assert_eq!(plain.title, "All series");
    let found = all_series_head(BASE, &Some(text("ber")), &vec![], "now");
    assert_eq!(found.title, "Series search for: ber");
    assert!(found.url.ends_with("/opds/v1.2/series?search=ber"), "{}", found.url);
    let publisher = all_series_head(BASE, &None, &texts(&["A&B"]), "now");
    assert!(publisher.url.ends_with("?publisher=A%26B"), "{}", publisher.url);
}

#[test]
fn search_is_carried_into_the_links() {
    let links = |term: Option<&str>, publishers: &[&str], page: u32| {
        let head = all_series_head(BASE, &term.map(text), &texts(publishers), "now");
        paged_feed(BASE, head, vec![], 5, page, 2)
    };
    let found = links(Some("ber"), &[], 0);
    assert_eq!(hrefs(&found, "self"), texts(&["http://localhost/opds/v1.2/series?search=ber"]));
    assert_eq!(
        hrefs(&found, "next"),
        texts(&["http://localhost/opds/v1.2/series?search=ber&page=1"])
    );
    assert!(write_feed(&found).contains("series?search=ber&amp;page=1"));
    let second = links(Some("ber"), &["A", "B"], 1);
    let list = "http://localhost/opds/v1.2/series?search=ber&publisher=A&publisher=B";
    assert_eq!(hrefs(&second, "previous"), vec![format!("{list}&page=0")]);
    assert_eq!(hrefs(&second, "next"), vec![format!("{list}&page=2")]);
    let all = links(None, &[], 1);
    assert_eq!(hrefs(&all, "next"), texts(&["http://localhost/opds/v1.2/series?page=2"]));
}

#[test]
fn addresses_of_opds_1() {
    assert_eq!(opds_v1::uri(BASE, "/catalog"), "http://localhost/opds/v1.2/catalog");
    assert_eq!(
        with_query("u", &vec![Param { key: text("k"), value: text("a b") }]),
        "u?k=a%20b"
    );
    assert_eq!(with_query("u", &vec![]), "u");
    assert_eq!(opds_v1::sanitize("a;b;c"), "abc");
    assert_eq!(opds_v1::file_name_of("file:/books/a b.cbz"), "a b.cbz");
    assert_eq!(opds_v1::extension_of("file:/books/a.CBZ"), "CBZ");
    assert_eq!(
        write_item_uri(BASE, NavKind::Library, "l1"),
        "http://localhost/opds/v1.2/libraries/l1"
    );
    let entries = nav_entries(
        BASE,
        NavKind::Series,
        &vec![NavItem { id: text("s1"), title: text("S"), updated: text("now") }],
    );
    assert_eq!(entries[0].id, "s1");
    assert_eq!(entries[0].links[0].href, "http://localhost/opds/v1.2/series/s1");
    assert_eq!(opds_v1::link_start(BASE).rel, "start");
}

#[test]
fn publishers_come_in_pages() {
    let all = texts(&["a", "b", "c", "d", "e"]);
    assert_eq!(publishers_page(&all, 0, 2), texts(&["a", "b"]));
    assert_eq!(publishers_page(&all, 2, 2), texts(&["e"]));
    assert_eq!(publishers_page(&all, 3, 2), texts(&[]));
    let entries = publisher_entries(BASE, "now", &texts(&["Dark Horse"]));
    assert_eq!(entries[0].title, "Dark Horse");
    assert!(entries[0].links[0].href.contains("publisher=Dark%20Horse"));
}

#[test]
fn small_thumbnails_are_generated_ones_scaled() {
    assert_eq!(small_thumbnail_edge(true, 300), None);
    assert_eq!(small_thumbnail_edge(false, 300), Some(300));
}

#[test]
fn feeds_of_books_ask_for_readable_ones() {
    let q = book_feed_query(&BookFeed::OfReadList { id: text("r1"), ordered: true });
    assert_eq!(q.sort, vec![SortOrder { property: text("readList.number"), descending: false }]);
    assert_eq!(
        q.condition,
        Condition::AllOf(vec![
            Condition::Leaf(BookLeaf::ReadListId(text("r1"))),
            Condition::Leaf(BookLeaf::MediaStatus(MediaStatus::Ready)),
            Condition::Leaf(BookLeaf::Deleted(false)),
        ])
    );
    for feed in [
        BookFeed::KeepReading,
        BookFeed::Latest,
        BookFeed::OfSeries(text("s1")),
        BookFeed::OfReadList { id: text("r1"), ordered: false },
    ] {
        match book_feed_query(&feed).condition {
            Condition::AllOf(c) => {
                assert!(c.contains(&Condition::Leaf(BookLeaf::Deleted(false))));
                assert!(c.contains(&Condition::Leaf(BookLeaf::MediaStatus(MediaStatus::Ready))));
            }
            other => panic!("{other:?}"),
        }
    }
}

#[test]
fn feeds_of_series_are_sorted() {
    let q = series_feed_query(&SeriesFeed::All {
        term: Some(text("ber")),
        publishers: texts(&["A", "B"]),
    });
    assert_eq!(q.sort[0].property, "relevance");
    assert_eq!(
        q.condition,
        Condition::AllOf(vec![
            Condition::Leaf(SeriesLeaf::TitleContains(text("ber"))),
            Condition::AnyOf(vec![
                Condition::Leaf(SeriesLeaf::Publisher(text("A"))),
                Condition::Leaf(SeriesLeaf::Publisher(text("B"))),
            ]),
            Condition::Leaf(SeriesLeaf::Deleted(false)),
        ])
    );
    let blank = series_feed_query(&SeriesFeed::All { term: Some(text(" ")), publishers: vec![] });
    assert_eq!(blank.sort[0].property, "metadata.titleSort");
    assert!(series_feed_query(&SeriesFeed::Latest).sort[0].descending);
    let c = series_feed_query(&SeriesFeed::OfCollection { id: text("c1"), ordered: true });
    assert_eq!(c.sort[0].property, "collection.number");
    let l = series_feed_query(&SeriesFeed::OfLibrary(text("l1")));
    assert_eq!(l.sort[0].property, "metadata.titleSort");
}

#[test]
fn atom_links_have_their_relations() {
    assert_eq!(AtomLink::plain("t", "r", text("h")).type_, "t");
    assert_eq!(
        AtomLink::nav("self", text("h")).type_,
        "application/atom+xml;profile=opds-catalog;kind=navigation"
    );
    assert_eq!(AtomLink::image("image/jpeg", text("h")).rel, "http://opds-spec.org/image");
    assert_eq!(
        AtomLink::image_thumbnail("image/jpeg", text("h")).rel,
        "http://opds-spec.org/image/thumbnail"
    );
    assert_eq!(AtomLink::file_acquisition(&None, text("h")).type_, "application/octet-stream");
    assert_eq!(
        AtomLink::page_streaming("image/png", text("h"), 3, Some(1), None).pse_count,
        Some(3)
    );
    assert_eq!(AtomEntry::nav("t", "u", "i", "c", text("h")).content, "c");
}

// ---- OPDS 2 ----

fn library() -> Option<LibraryRef> {
    Some(LibraryRef { id: text("l1"), name: text("Manga"), modified: utc(2021, 5, 6) })
}

fn target(id: &str, title: &str) -> Target {
    Target { id: text(id), title: text(title) }
}

fn none() -> Found<String> {
    Found { items: vec![], total: 0 }
}

fn titles(groups: &[FeedGroupDto<String>]) -> Vec<String> {
    groups.iter().map(|g| g.metadata.title.clone()).collect()
}

fn rels(feed: &FeedDto<String>) -> Vec<String> {
    feed.links.iter().map(|l| l.rel.clone().unwrap_or_default()).collect()
}

#[test]
fn recommendations_come_in_groups() {
    let feed = libraries_recommended(
        BASE,
        &None,
        utc(2020, 1, 1),
        get_library_navigation(BASE, &None, true, false),
        Recommended {
            libraries: vec![target("l1", "Manga")],
            keep_reading: Found { items: texts(&["b3"]), total: 1 },
            on_deck: Found { items: texts(&["b2"]), total: 7 },
            latest_books: Found { items: texts(&["b1", "b2"]), total: 2 },
            latest_series: Found { items: vec![target("s1", "Berserk")], total: 1 },
        },
    );
    assert_eq!(feed.metadata.title, "All libraries - Recommended");
    assert_eq!(feed.metadata.modified, Some(utc(2020, 1, 1)));
    assert_eq!(rels(&feed), ["self", "start", "search"]);
    assert_eq!(feed.links[2].templated, Some(true));
    assert_eq!(feed.links[2].href.as_deref(), Some("http://localhost/opds/v2/search{?query}"));
    let nav: Vec<&str> = feed.navigation.iter().map(|l| l.title.as_deref().unwrap()).collect();
    assert_eq!(nav, ["Recommended", "Browse", "Collections"]);
    assert_eq!(
        titles(&feed.groups),
        ["Libraries", "Keep Reading", "On Deck", "Latest Books", "Latest Series"]
    );
    assert_eq!(feed.groups[1].metadata.items_per_page, Some(5));
    assert_eq!(feed.groups[1].metadata.current_page, Some(1));
    assert_eq!(feed.groups[2].metadata.number_of_items, Some(7));
    assert_eq!(
        feed.groups[2].links[0].href.as_deref(),
        Some("http://localhost/opds/v2/libraries/on-deck")
    );
    assert_eq!(feed.groups[3].publications, texts(&["b1", "b2"]));
    assert_eq!(
        feed.groups[4].navigation[0].href.as_deref(),
        Some("http://localhost/opds/v2/series/s1")
    );
}

#[test]
fn recommendations_of_a_library_leave_out_what_is_empty() {
    let feed = libraries_recommended(
        BASE,
        &library(),
        utc(2020, 1, 1),
        vec![],
        Recommended {
            libraries: vec![target("l1", "Manga")],
            keep_reading: none(),
            on_deck: none(),
            latest_books: Found { items: texts(&["b1"]), total: 1 },
            latest_series: Found { items: vec![], total: 0 },
        },
    );
    assert_eq!(feed.metadata.title, "Manga - Recommended");
    assert_eq!(feed.metadata.modified, Some(utc(2021, 5, 6)));
    assert_eq!(titles(&feed.groups), ["Latest Books"]);
    assert_eq!(
        feed.groups[0].links[0].href.as_deref(),
        Some("http://localhost/opds/v2/libraries/l1/books/latest")
    );
}

#[test]
fn lists_are_paged_feeds() {
    let at = FeedPage { page: 1, size: 2, total: 5 };
    let feed = list_feed(
        ListKind::KeepReading,
        BASE,
        &library(),
        utc(2020, 1, 1),
        &at,
        texts(&["b3", "b4"]),
        &vec![],
    );
    assert_eq!(feed.metadata.title, "Manga - Keep Reading");
    assert_eq!(feed.metadata.current_page, Some(2));
    assert_eq!(feed.metadata.number_of_items, Some(5));
    assert_eq!(rels(&feed), ["self", "start", "search", "previous", "next"]);
    assert_eq!(
        feed.links[4].href.as_deref(),
        Some("http://localhost/opds/v2/libraries/l1/keep-reading?page=2")
    );
    assert_eq!(feed.publications.len(), 2);

    let series: FeedDto<String> = list_feed(
        ListKind::LatestSeries,
        BASE,
        &None,
        utc(2020, 1, 1),
        &at,
        vec![],
        &vec![target("s1", "Berserk")],
    );
    assert_eq!(series.metadata.title, "All libraries - Latest Series");
    assert_eq!(series.navigation.len(), 1);
    assert!(series.publications.is_empty());
}

#[test]
fn next_page_only_while_items_are_left() {
    let next = |page: u32, size: u32, total: i64| {
        opds_v2::link_page("u", page, size, total)
            .iter()
            .any(|l| l.rel.as_deref() == Some("next"))
    };
    for page in 0..5u32 {
        for total in 0..12i64 {
            assert_eq!(next(page, 3, total), i64::from(page + 1) * 3 < total);
        }
    }
    assert!(!next(0, 3, -1));
    assert!(next(0, 0, 2));
    assert!(next(0, 1, i64::MAX));
}

#[test]
fn list_queries() {
    match list_query(ListKind::KeepReading, &library()) {
        ListQuery::Books(q) => assert_eq!(
            q.condition,
            Condition::AllOf(vec![
                Condition::Leaf(BookLeaf::ReadStatus(ReadStatus::InProgress)),
                Condition::Leaf(BookLeaf::MediaStatus(MediaStatus::Ready)),
                Condition::Leaf(BookLeaf::Deleted(false)),
            ])
        ),
        other => panic!("{other:?}"),
    }
    assert_eq!(list_query(ListKind::OnDeck, &None), ListQuery::OnDeck);
    match list_query(ListKind::LatestBooks, &library()) {
        ListQuery::Books(q) => assert_eq!(q, latest_books_query(&library())),
        other => panic!("{other:?}"),
    }
    match list_query(ListKind::LatestSeries, &library()) {
        ListQuery::Series(q) => assert_eq!(q, latest_series_query(&library())),
        other => panic!("{other:?}"),
    }
    match keep_reading_query(&library()).condition {
        Condition::AllOf(c) => {
            assert_eq!(c[0], Condition::Leaf(BookLeaf::LibraryId(text("l1"))));
        }
        other => panic!("{other:?}"),
    }
    assert_eq!(
        latest_series_query(&None).condition,
        Condition::AllOf(vec![
            Condition::Leaf(SeriesLeaf::Deleted(false)),
            Condition::Leaf(SeriesLeaf::OneShot(false)),
        ])
    );
}

#[test]
fn browsing_shows_series_and_publishers() {
    let at = FeedPage { page: 0, size: 20, total: 1 };
    let feed: FeedDto<String> = libraries_browse(
        BASE,
        &None,
        utc(2020, 1, 1),
        vec![],
        &at,
        &vec![target("s1", "Berserk")],
        &texts(&["Dark Horse"]),
    );
    assert_eq!(feed.metadata.title, "All libraries");
    assert_eq!(titles(&feed.groups), ["Series", "Publisher"]);
    assert_eq!(
        feed.groups[1].navigation[0].href.as_deref(),
        Some("http://localhost/opds/v2/libraries/browse?publisher=Dark Horse")
    );
    let bare: FeedDto<String> =
        libraries_browse(BASE, &None, utc(2020, 1, 1), vec![], &at, &vec![], &vec![]);
    assert_eq!(titles(&bare.groups), ["Series"]);
    assert_eq!(
        browse_query(&library(), &texts(&["A", "B"])).condition,
        Condition::AllOf(vec![
            Condition::Leaf(SeriesLeaf::LibraryId(text("l1"))),
            Condition::AllOf(vec![
                Condition::Leaf(SeriesLeaf::Publisher(text("A"))),
                Condition::Leaf(SeriesLeaf::Publisher(text("B"))),
            ]),
            Condition::Leaf(SeriesLeaf::Deleted(false)),
        ])
    );
    assert_eq!(
        browse_query(&None, &vec![]).condition,
        Condition::AllOf(vec![Condition::Leaf(SeriesLeaf::Deleted(false))])
    );
}

#[test]
fn collections_and_read_lists_have_feeds() {
    let at = FeedPage { page: 0, size: 20, total: 1 };
    let now = utc(2020, 1, 1);
    let all: FeedDto<String> =
        libraries_collections(BASE, &library(), now, vec![], &at, &vec![target("c1", "C")]);
    assert_eq!(all.metadata.title, "Manga - Collections");
    assert_eq!(
        all.groups[0].navigation[0].href.as_deref(),
        Some("http://localhost/opds/v2/collections/c1")
    );
    let all: FeedDto<String> =
        libraries_readlists(BASE, &None, now, vec![], &at, &vec![target("r1", "R")]);
    assert_eq!(all.metadata.title, "All libraries - Read Lists");
    assert_eq!(all.links[0].href.as_deref(), Some("http://localhost/opds/v2/libraries/readlists"));
    let one: FeedDto<String> =
        get_one_collection(BASE, &target("c1", "C"), now, &at, &vec![target("s1", "S")]);
    assert_eq!(one.metadata.title, "C");
    assert_eq!(one.links[0].href.as_deref(), Some("http://localhost/opds/v2/collections/c1"));
    assert_eq!(one.navigation[0].title.as_deref(), Some("S"));
    let one = get_one_readlist(BASE, &target("r1", "R"), now, &at, texts(&["b1"]));
    assert_eq!(one.publications, texts(&["b1"]));
}

#[test]
fn series_has_tags_to_choose_from() {
    let at = FeedPage { page: 0, size: 20, total: 1 };
    let series = SeriesRef {
        id: text("s1"),
        title: text("Berserk"),
        summary: text(" "),
        books_summary: text("of the books"),
        modified: utc(2020, 1, 1),
    };
    let feed = get_one_series(
        BASE,
        &series,
        &Some(text("dark")),
        &at,
        texts(&["b1"]),
        &texts(&["dark", "light"]),
    );
    assert_eq!(feed.metadata.description.as_deref(), Some("of the books"));
    assert_eq!(feed.facets[0].metadata.title, "Tag");
    assert_eq!(feed.facets[0].links[0].rel.as_deref(), Some("self"));
    assert_eq!(feed.facets[0].links[1].rel, None);
    assert_eq!(
        feed.facets[0].links[1].href.as_deref(),
        Some("http://localhost/opds/v2/series/s1?tag=light")
    );
    let bare = get_one_series(BASE, &series, &None, &at, texts(&["b1"]), &vec![]);
    assert!(bare.facets.is_empty());
    assert_eq!(
        series_books_query(&text("s1"), &Some(text("dark"))).condition,
        Condition::AllOf(vec![
            Condition::Leaf(BookLeaf::SeriesId(text("s1"))),
            Condition::Leaf(BookLeaf::MediaStatus(MediaStatus::Ready)),
            Condition::Leaf(BookLeaf::Deleted(false)),
            Condition::Leaf(BookLeaf::Tag(text("dark"))),
        ])
    );
}

#[test]
fn search_groups_what_it_finds() {
    let feed = get_search_results(
        BASE,
        utc(2020, 1, 1),
        SearchResults {
            series: vec![target("s1", "Berserk")],
            books: texts(&["b1"]),
            collections: vec![],
            read_lists: vec![target("r1", "R")],
        },
    );
    assert_eq!(feed.metadata.title, "Search results");
    assert_eq!(rels(&feed), ["start", "search"]);
    assert_eq!(titles(&feed.groups), ["Series", "Books", "Read Lists"]);
    let terms = query_terms(&Some(text(" dark  horse ")));
    assert_eq!(terms, texts(&["dark", "horse"]));
    assert!(query_terms(&None).is_empty());
    assert_eq!(
        search_series_query(&terms).condition,
        Condition::AllOf(vec![
            Condition::Leaf(SeriesLeaf::OneShot(false)),
            Condition::Leaf(SeriesLeaf::Deleted(false)),
            Condition::Leaf(SeriesLeaf::TitleContains(text("dark"))),
            Condition::Leaf(SeriesLeaf::TitleContains(text("horse"))),
        ])
    );
    assert_eq!(
        search_books_query(&terms).condition,
        Condition::AllOf(vec![
            Condition::Leaf(BookLeaf::Deleted(false)),
            Condition::Leaf(BookLeaf::TitleContains(text("dark"))),
            Condition::Leaf(BookLeaf::TitleContains(text("horse"))),
        ])
    );
}

#[test]
fn every_feed_leads_home() {
    let at = FeedPage { page: 3, size: 2, total: 5 };
    let feed: FeedDto<String> =
        libraries_collections(BASE, &None, utc(2020, 1, 1), vec![], &at, &vec![]);
    assert!(feed.links.contains(&opds_v2::link_start(BASE)));
    assert!(feed.links.contains(&link_search(BASE)));
}

#[test]
fn signing_in_is_described() {
    let doc = generate_opds_auth_document(BASE);
    assert_eq!(doc.title, "Komga");
    assert_eq!(doc.id, "http://localhost/opds/v2/auth");
    assert_eq!(doc.authentication[0].type_, "http://opds-spec.org/auth/basic");
    let labels = doc.authentication[0].labels.as_ref().unwrap();
    assert_eq!(labels.login.as_deref(), Some("Email"));
    assert_eq!(labels.password.as_deref(), Some("Password"));
    assert_eq!(doc.links[0].rel.as_deref(), Some("help"));
    assert_eq!(
        doc.links[1].href.as_deref(),
        Some("http://localhost/android-chrome-512x512.png")
    );
    assert_eq!(
        auth_link_header(BASE),
        "<http://localhost/opds/v2/auth>; rel=\"http://opds-spec.org/auth/document\"; type=\"application/opds-authentication+json\""
    );
}

#[test]
fn links_of_opds_2() {
    assert_eq!(url_builder(BASE, "catalog"), "http://localhost/opds/v2/catalog");
    assert_eq!(non_empty(text(" ")), None);
    assert_eq!(non_empty(text("a")), Some(text("a")));
    assert_eq!(wp_link("t", "r", text("h"), "y").type_.as_deref(), Some("y"));
    assert_eq!(link_self_href(text("h")).rel.as_deref(), Some("self"));
    assert_eq!(opds_v2::link_start(BASE).title.as_deref(), Some("Home"));
    assert_eq!(
        links_to(BASE, TargetKind::Library, &vec![target("l1", "L")])[0].type_.as_deref(),
        Some(MEDIATYPE_OPDS_JSON)
    );
    assert_eq!(feed_metadata_page("t", 2, 20, 50).current_page, Some(3));
    let group: FeedGroupDto<String> = libraries_feed_group(BASE, &vec![target("l1", "L")]);
    assert_eq!(group.navigation[0].title.as_deref(), Some("L"));
    let nav = get_library_navigation(BASE, &library(), false, true);
    assert_eq!(nav[2].title.as_deref(), Some("Read lists"));
    assert_eq!(nav[2].href.as_deref(), Some("http://localhost/opds/v2/libraries/l1/readlists"));
}

#[test]
fn manifests_follow_the_profile() {
    assert_eq!(manifest_kind(Some(FileProfile::Divina)).unwrap(), ManifestKind::Divina);
    assert_eq!(manifest_kind(Some(FileProfile::Pdf)).unwrap(), ManifestKind::Pdf);
    assert_eq!(manifest_kind(Some(FileProfile::Epub)).unwrap(), ManifestKind::Epub);
    assert_eq!(manifest_kind(Some(FileProfile::Mobi)).unwrap(), ManifestKind::Epub);
    assert_eq!(
        refused(manifest_kind(None).unwrap_err()),
        (404, text("Book analysis failed"))
    );
    assert!(check_manifest_profile("EPUB", "EPUB", "x").is_ok());
    assert_eq!(
        refused(check_manifest_profile("DIVINA", "EPUB", "application/zip").unwrap_err()),
        (400, text("Book media type 'application/zip' not compatible with requested profile"))
    );
}

#[test]
fn catalog_leads_to_the_feeds() {
    let now = "2020-01-01T00:00:00Z";
    let catalog = catalog_feed(BASE, now);
    let shelves = [
        (Shelf::KeepReading, "/opds/v1.2/keep-reading", "keepReading", "Keep Reading"),
        (Shelf::OnDeck, "/opds/v1.2/ondeck", "ondeck", "On Deck"),
        (Shelf::AllSeries, "/opds/v1.2/series", "allSeries", "All series"),
        (Shelf::LatestSeries, "/opds/v1.2/series/latest", "latestSeries", "Latest series"),
        (Shelf::LatestBooks, "/opds/v1.2/books/latest", "latestBooks", "Latest books"),
        (Shelf::Libraries, "/opds/v1.2/libraries", "allLibraries", "All libraries"),
        (Shelf::Collections, "/opds/v1.2/collections", "allCollections", "All collections"),
        (Shelf::ReadLists, "/opds/v1.2/readlists", "allReadLists", "All read lists"),
        (Shelf::Publishers, "/opds/v1.2/publishers", "allPublishers", "All publishers"),
    ];
    assert_eq!(catalog.entries.len(), shelves.len());
    for (entry, (shelf, path, id, title)) in catalog.entries.iter().zip(shelves) {
        let head = shelf_head(BASE, shelf, now);
        assert_eq!(head.url, format!("{BASE}{path}"));
        assert_eq!((head.id.as_str(), head.title.as_str()), (id, title));
        assert_eq!(head.updated, now);
        assert_eq!((entry.id.as_str(), entry.title.as_str()), (id, title));
        assert_eq!(entry.links, vec![AtomLink::nav("subsection", head.url)]);
    }
    assert_eq!(all_series_head(BASE, &None, &vec![], now), shelf_head(BASE, Shelf::AllSeries, now));
}

#[test]
fn entries_lead_to_the_feeds_of_items() {
    for kind in [NavKind::Series, NavKind::Library, NavKind::Collection, NavKind::ReadList] {
        let item = NavItem { id: text("x1"), title: text("X"), updated: text("u") };
        let head = item_head(BASE, kind, &item);
        assert_eq!(head.url, write_item_uri(BASE, kind, "x1"));
        assert_eq!((head.id, head.title, head.updated), (text("x1"), text("X"), text("u")));
        let entries = nav_entries(BASE, kind, &vec![item]);
        assert_eq!(entries[0].links[0].href, head.url);
    }
}

#[test]
fn series_is_named_but_in_its_own_feed() {
    let books = vec![book("b1", "Berserk v01", &["image/jpeg"], None)];
    let prefix = format!("{} {}: ", books[0].series_title, books[0].number);
    let own = book_feed_entries(BASE, &BookFeed::OfSeries(text("s1")), &books);
    assert_eq!(own[0].title, "Berserk v01");
    let read_list = BookFeed::OfReadList { id: text("r1"), ordered: true };
    for feed in [BookFeed::KeepReading, BookFeed::Latest, read_list] {
        let entries = book_feed_entries(BASE, &feed, &books);
        assert_eq!(entries[0].title, format!("{prefix}Berserk v01"));
    }
}

#[test]
fn recommendations_lead_to_lists() {
    let library = Some(LibraryRef { id: text("l1"), name: text("Comics"), modified: utc(2020, 1, 1) });
    let found = || Found { items: vec![1u8], total: 9 };
    let recommended = Recommended {
        libraries: vec![],
        keep_reading: found(),
        on_deck: found(),
        latest_books: found(),
        latest_series: Found { items: vec![Target { id: text("s1"), title: text("S") }], total: 1 },
    };
    let now = utc(2020, 1, 2);
    let feed = libraries_recommended(BASE, &library, now, vec![], recommended);
    let kinds =
        [ListKind::KeepReading, ListKind::OnDeck, ListKind::LatestBooks, ListKind::LatestSeries];
    assert_eq!(feed.groups.len(), kinds.len());
    for (group, kind) in feed.groups.iter().zip(kinds) {
        let at = FeedPage { page: 0, size: 20, total: 9 };
        let list: FeedDto<u8> = list_feed(kind, BASE, &library, now, &at, vec![], &vec![]);
        assert_eq!(list.metadata.title, format!("Comics - {}", group.metadata.title));
        assert_eq!(group.links[0].href, list.links[0].href);
        assert_eq!(list.links[0].rel, Some(text("self")));
    }
}

#[test]
fn pages_of_no_size_hold_one_item() {
    let next = |page: u32, total: i64| {
        opds_v2::link_page("u", page, 0, total)
            .into_iter()
            .find(|l| l.rel == Some(text("next")))
            .and_then(|l| l.href)
    };
    assert_eq!(next(0, 2), Some(text("u?page=1")));
    assert_eq!(next(1, 2), None);
    assert_eq!(next(0, 0), None);
}
