use komga_api::error::ApiError;
use komga_api::koreader;
use komga_api::media::MediaProfile;
use komga_api::progress::{
    check_epub_pages, check_has_progression, check_mark_request, check_newer, check_resource,
    decode_epub_extension, get_progression, mark_completed, mark_page, mark_progression,
    mark_read_progress, mark_request, marked, match_position, neighbours, page_position,
    read_epub_extension, require_profile, resource_locator, resource_of, stored_kobo_span,
    stored_locator, KnownPositions, Location, Locator, MarkRequest, PositionMark, Progression,
    ReadMark, ReportedBook, Side, StoredProgress,
};
use std::io::Write;

fn text(s: &str) -> String {
    s.to_string()
}

fn texts(v: &[&str]) -> Vec<String> {
    v.iter().map(|s| s.to_string()).collect()
}

fn refused(e: ApiError) -> (u16, String) {
    match e {
        ApiError::Status { status, message } => (status, message),
        other => panic!("{other:?}"),
    }
}

type Place = Locator<f32, String>;

fn mark(href: &str, position: i32, side: Side) -> PositionMark<f32> {
    PositionMark {
        href: text(href),
        type_: text("application/xhtml+xml"),
        position: Some(position),
        total_progression: Some(position as f32 / 8.0),
        kobo_span: Some(format!("kobo.{position}")),
        side,
        read: ReadMark { page: position * 10, completed: false },
    }
}

fn known(marks: Vec<PositionMark<f32>>, fixed_layout: bool) -> Option<KnownPositions<f32>> {
    Some(KnownPositions { marks, fixed_layout })
}

fn place(href: &str, position: Option<i32>, progression: Option<f32>) -> Place {
    Locator {
        href: text(href),
        type_: text("reported"),
        title: Some(text("Title")),
        locations: Some(Location {
            fragments: texts(&["f"]),
            progression,
            position,
            total_progression: Some(0.75),
        }),
        text: Some(text("quoted")),
        kobo_span: None,
    }
}

fn report() -> Progression<Place> {
    Progression {
        modified: 10,
        device_id: text("dev1"),
        device_name: text("Tablet"),
        locator: place("a.xhtml", Some(3), Some(0.5)),
    }
}

fn book(
    profile: Option<MediaProfile>,
    positions: Option<KnownPositions<f32>>,
) -> ReportedBook<f32> {
    ReportedBook { profile, page_count: 3, files: texts(&["a.xhtml"]), positions }
}

fn take(
    saved: Option<i128>,
    new: Progression<Place>,
    b: &ReportedBook<f32>,
) -> Result<StoredProgress<Place>, ApiError> {
    let resource = resource_of(&new.locator.href);
    mark_progression(saved, new, &resource, b)
}

#[test]
fn old_report_is_refused() {
    let b = book(Some(MediaProfile::Divina), None);
    let stored = take(Some(9), report(), &b).unwrap();
    assert_eq!((stored.page, stored.completed), (3, true));
    for saved in [10, 11] {
        assert_eq!(
            refused(take(Some(saved), report(), &b).unwrap_err()),
            (409, text("Progression is older than existing"))
        );
    }
    // what is stored is the newest
    assert!(take(Some(stored.read_date), report(), &b).is_err());
    assert!(check_newer(1, None).is_ok());
}

#[test]
fn report_is_stored_and_told_back() {
    // 2024-01-02T03:04:05Z
    let modified: i128 = 1_704_164_645_000_000_000;
    let locator = |position: i32| -> Place {
        Locator {
            href: text("b1.cbz"),
            type_: text("application/zip"),
            title: None,
            locations: Some(Location {
                fragments: vec![],
                progression: None,
                position: Some(position),
                total_progression: None,
            }),
            text: None,
            kobo_span: None,
        }
    };
    let new = |modified: i128, position: i32| Progression {
        modified,
        device_id: text("dev1"),
        device_name: text("Tablet"),
        locator: locator(position),
    };
    let b = book(Some(MediaProfile::Divina), None);
    let stored = take(None, new(modified, 2), &b).unwrap();
    assert_eq!(
        stored,
        StoredProgress {
            page: 2,
            completed: false,
            read_date: modified,
            device_id: text("dev1"),
            device_name: text("Tablet"),
            locator: Some(locator(2)),
        }
    );
    let read_date = stored.read_date;
    assert_eq!(get_progression(stored, locator(9)), new(modified, 2));

    let older = new(modified - 86_400_000_000_000, 3);
    assert_eq!(
        refused(take(Some(read_date), older, &b).unwrap_err()),
        (409, text("Progression is older than existing"))
    );
    let bad = new(modified + 1, 99);
    assert_eq!(
        refused(take(Some(read_date), bad, &b).unwrap_err()),
        (400, text("Page argument (99) must be within 1 and book page count (3)"))
    );
}

#[test]
fn book_that_is_marked_names_no_device() {
    let stored: StoredProgress<Place> = marked(mark_completed(3), 7, None);
    assert_eq!((stored.page, stored.completed, stored.read_date), (3, true, 7));
    assert_eq!((stored.device_id.as_str(), stored.device_name.as_str()), ("", ""));
    let otherwise = || place("x", None, None);
    assert_eq!(get_progression(stored, otherwise()).locator, otherwise());
    let there = || place("a", Some(1), None);
    let stored = marked(ReadMark { page: 1, completed: false }, 7, Some(there()));
    assert_eq!(get_progression(stored, otherwise()).locator, there());
}

#[test]
fn report_on_a_page_has_to_name_one_of_the_book() {
    let b = book(Some(MediaProfile::Pdf), None);
    let at = |position| Progression { locator: place("a.xhtml", position, None), ..report() };
    assert_eq!(
        refused(take(None, at(Some(4)), &b).unwrap_err()),
        (400, text("Page argument (4) must be within 1 and book page count (3)"))
    );
    assert_eq!(
        refused(take(None, at(None), &b).unwrap_err()),
        (400, text("Page argument (null) must be within 1 and book page count (3)"))
    );
    let mut nowhere = report();
    nowhere.locator.locations = None;
    assert_eq!(
        refused(take(None, nowhere, &b).unwrap_err()),
        (400, text("Page argument (null) must be within 1 and book page count (3)"))
    );
    assert_eq!(
        refused(take(None, at(None), &book(None, None)).unwrap_err()),
        (400, text("Media has no profile"))
    );
    assert_eq!(mark_page(Some(1), 3).unwrap(), ReadMark { page: 1, completed: false });
    assert_eq!(mark_completed(3), ReadMark { page: 3, completed: true });
    assert!(require_profile(Some(MediaProfile::Epub)).is_ok());
}

#[test]
fn report_on_an_epub_is_placed_between_positions() {
    let epub = Some(MediaProfile::Epub);
    let marks = || {
        vec![
            mark("a.xhtml", 1, Side::Before),
            mark("a.xhtml", 2, Side::Before),
            mark("a.xhtml", 3, Side::After),
            mark("b.xhtml", 4, Side::Before),
        ]
    };
    let b = book(epub, known(marks(), false));
    let stored = take(None, report(), &b).unwrap();
    assert_eq!((stored.page, stored.completed, stored.read_date), (20, false, 10));
    assert_eq!((stored.device_id.as_str(), stored.device_name.as_str()), ("dev1", "Tablet"));
    let n = neighbours(&marks(), "a.xhtml");
    assert_eq!((n.before, n.after), (Some(1), Some(2)));

    // the type, the share of the book and the span are those of the position
    let kept = stored.locator.unwrap();
    let mut expected = place("a.xhtml", Some(3), Some(0.5));
    expected.type_ = text("application/xhtml+xml");
    expected.kobo_span = Some(text("kobo.2"));
    expected.locations.as_mut().unwrap().total_progression = Some(0.25);
    assert_eq!(kept, expected);

    // a span that is reported stays
    let mut spanned = place("a.xhtml#p1", None, None);
    spanned.kobo_span = Some(text("kobo.9"));
    let kept = stored_locator(spanned, &marks()[0]);
    assert_eq!(kept.kobo_span, Some(text("kobo.9")));
    assert_eq!(kept.href, "a.xhtml#p1");

    // the very place wins
    let mut here = marks();
    here[0].side = Side::Here;
    assert_eq!(take(None, report(), &book(epub, known(here, false))).unwrap().page, 10);

    // nothing behind
    let mut open = marks();
    open[2].side = Side::Before;
    assert_eq!(
        refused(take(None, report(), &book(epub, known(open, false))).unwrap_err()),
        (400, text("Invalid progression"))
    );

    // positions in the wrong order
    let crossed = vec![mark("a.xhtml", 5, Side::Before), mark("a.xhtml", 2, Side::After)];
    assert_eq!(
        refused(match_position(&crossed, "a.xhtml", false).unwrap_err()),
        (400, text("Invalid progression"))
    );

    // the only position of a page with a fixed layout
    let only = vec![mark("b.xhtml", 1, Side::Unknown), mark("a.xhtml", 2, Side::Unknown)];
    assert_eq!(match_position(&only, "a.xhtml", true).unwrap(), 1);
    assert!(match_position(&only, "a.xhtml", false).is_err());
}

#[test]
fn report_on_an_epub_has_to_fit_it() {
    let epub = Some(MediaProfile::Epub);
    let r = Progression { locator: place("x.xhtml", None, Some(0.5)), ..report() };
    assert_eq!(
        refused(take(None, r, &book(epub, known(vec![], false))).unwrap_err()),
        (400, text("Resource does not exist in book: x.xhtml"))
    );
    let r = Progression { locator: place("a.xhtml", None, None), ..report() };
    assert_eq!(
        refused(take(None, r, &book(epub, known(vec![], false))).unwrap_err()),
        (400, text("location.progression is required"))
    );
    assert_eq!(
        refused(take(None, report(), &book(epub, None)).unwrap_err()),
        (400, text("Epub extension not found"))
    );
    assert!(check_resource("a", &texts(&["a"])).is_ok());
    assert!(check_has_progression(true).is_ok());
}

#[test]
fn page_of_an_epub_is_a_position() {
    let m = mark_read_progress(2, 3, Some(MediaProfile::Epub), true, Some(3)).unwrap();
    assert_eq!((m.mark.page, m.mark.completed, m.position), (2, false, Some(1)));
    let m = mark_read_progress(3, 3, Some(MediaProfile::Divina), false, None).unwrap();
    assert_eq!((m.mark.completed, m.position), (true, None));
    assert_eq!(
        refused(mark_read_progress(0, 3, None, false, None).unwrap_err()),
        (400, text("Page argument (0) must be within 1 and book page count (3)"))
    );
    assert_eq!(
        refused(mark_read_progress(1, 3, Some(MediaProfile::Epub), false, None).unwrap_err()),
        (400, text("epub book is not Divina compatible"))
    );
    assert_eq!(
        refused(mark_read_progress(1, 3, Some(MediaProfile::Epub), true, None).unwrap_err()),
        (400, text("Epub extension not found"))
    );
    assert_eq!(
        mark_read_progress(2, 3, Some(MediaProfile::Epub), true, Some(1)).unwrap_err(),
        ApiError::Internal(text("no position for page 2"))
    );
    assert_eq!(page_position(1, 1).unwrap(), 0);
    assert!(check_epub_pages(true).is_ok());
}

#[test]
fn mark_requests_say_something() {
    assert_eq!(check_mark_request(false, None).unwrap_err(), ApiError::Violations(vec![]));
    match check_mark_request(true, Some(0)).unwrap_err() {
        ApiError::Violations(v) => {
            assert_eq!(v.len(), 1);
            assert_eq!(v[0].field_name, "page");
            assert_eq!(v[0].message, "must be greater than 0");
        }
        other => panic!("{other:?}"),
    }
    assert!(check_mark_request(true, Some(1)).is_ok());
    assert_eq!(mark_request(Some(true), Some(4)), MarkRequest::Completed);
    assert_eq!(mark_request(Some(false), Some(4)), MarkRequest::Page(4));
    assert_eq!(mark_request(None, Some(4)), MarkRequest::Page(4));
}

#[test]
fn resource_is_decoded_and_loses_its_fragment() {
    assert_eq!(resource_of("OEBPS/ch%201.xhtml#p1"), "OEBPS/ch 1.xhtml");
    assert_eq!(resource_of("#p1"), "");
    assert_eq!(stored_kobo_span(&None, &Some(text("k"))), Some(text("k")));
    assert_eq!(stored_kobo_span(&Some(text("r")), &Some(text("k"))), Some(text("r")));
}

fn gzip(bytes: &[u8]) -> Vec<u8> {
    let mut e = flate2::write::GzEncoder::new(Vec::new(), flate2::Compression::default());
    e.write_all(bytes).unwrap();
    e.finish().unwrap()
}

#[test]
fn epub_extension_is_compressed_json() {
    let json = br#"{"positions":[],"isFixedLayout":true}"#;
    let x = decode_epub_extension(&Some(gzip(json))).unwrap();
    assert_eq!(x.json, json.to_vec());
    assert!(x.is_fixed_layout);
    let x = decode_epub_extension(&Some(gzip(b"{}"))).unwrap();
    assert!(!x.is_fixed_layout);
    for blob in [None, Some(vec![1, 2, 3]), Some(gzip(b"no json"))] {
        assert_eq!(
            refused(decode_epub_extension(&blob).unwrap_err()),
            (400, text("Epub extension not found"))
        );
    }
    assert!(read_epub_extension(Some(b"{}".to_vec()), Some(Some(true))).unwrap().is_fixed_layout);
    assert!(read_epub_extension(Some(b"{}".to_vec()), None).is_err());
}

#[test]
fn koreader_places_are_read() {
    assert_eq!(koreader::parse_doc_fragment_index("/body/DocFragment[10].0"), Some(10));
    assert_eq!(
        koreader::parse_doc_fragment_index("/body/DocFragment[10]/body/div/p[1]/text().0"),
        Some(10)
    );
    assert_eq!(koreader::parse_doc_fragment_index("#_doc_fragment_3_ c1"), None);
    assert_eq!(koreader::parse_doc_fragment_index_v2("#_doc_fragment_44_ c37"), Some(44));
    assert_eq!(koreader::epub_resource("/body/DocFragment[2].0", 3).unwrap(), 1);
    assert_eq!(koreader::epub_resource("#_doc_fragment_2_", 3).unwrap(), 2);
    assert_eq!(
        refused(koreader::epub_resource("nothing", 3).unwrap_err()),
        (400, text("Could not get Epub resource index from progress: nothing"))
    );
    assert_eq!(
        koreader::epub_resource("/body/DocFragment[9].0", 3).unwrap_err(),
        ApiError::Internal(text("Index: 8, Size: 3"))
    );
    assert_eq!(koreader::page_position("5").unwrap(), 5);
    assert_eq!(
        koreader::page_position("x").unwrap_err(),
        ApiError::Internal(text("For input string: \"x\""))
    );
}

#[test]
fn koreader_place_is_written_and_read_back() {
    let hrefs = koreader::position_hrefs(&texts(&["a", "a", "b", "a", "c"]));
    assert_eq!(hrefs, texts(&["a", "b", "c"]));
    for (i, h) in hrefs.iter().enumerate() {
        let place = koreader::fragment_of(&hrefs, &Some(h.clone()));
        assert_eq!(place, format!("/body/DocFragment[{}].0", i + 1));
        assert_eq!(koreader::epub_resource(&place, hrefs.len()).unwrap(), i);
    }
    assert_eq!(koreader::fragment_of(&hrefs, &None), "/body/DocFragment[0].0");
    assert_eq!(koreader::fragment_of(&hrefs, &Some(text("x"))), "/body/DocFragment[0].0");
}

fn sent_by_device(
    profile: Option<MediaProfile>,
    progress: &str,
    positions: &Option<Vec<String>>,
) -> Result<Place, ApiError> {
    koreader::update_progress(profile, progress, positions, 0.5, 0.0)
}

#[test]
fn koreader_progress_is_sent_and_taken_back() {
    let positions = Some(texts(&["a", "a", "b", "c"]));
    for profile in [MediaProfile::Divina, MediaProfile::Pdf] {
        for page in [0, 7, -3, i32::MAX, i32::MIN] {
            let sent = koreader::get_progress(Some(profile), page, &None, &None).unwrap();
            assert_eq!(sent, page.to_string());
            assert_eq!(
                sent_by_device(Some(profile), &sent, &None).unwrap(),
                koreader::locator_of(page, 0.5)
            );
        }
    }
    let epub = Some(MediaProfile::Epub);
    for (k, href) in ["a", "b", "c"].iter().enumerate() {
        let sent = koreader::get_progress(epub, 1, &positions, &Some(text(href))).unwrap();
        assert_eq!(sent, format!("/body/DocFragment[{}].0", k + 1));
        for progress in [sent, format!("#_doc_fragment_{k}_")] {
            assert_eq!(
                koreader::reported_place(epub, &progress, &positions).unwrap(),
                koreader::ReportedPlace::Resource(text(href))
            );
            assert_eq!(
                sent_by_device(epub, &progress, &positions).unwrap(),
                resource_locator(text(href), None, Some(0.0), Some(0.5))
            );
        }
    }
    let lost = koreader::get_progress(epub, 1, &positions, &Some(text("x"))).unwrap();
    assert_eq!(
        sent_by_device(epub, &lost, &positions).unwrap_err(),
        ApiError::Internal(text("Index: -1, Size: 3"))
    );
}

#[test]
fn devices_report_bare_places() {
    let page: Place = koreader::locator_of(4, 0.5);
    assert_eq!(
        page,
        Locator {
            href: text(""),
            type_: text(""),
            title: None,
            locations: Some(Location {
                fragments: vec![],
                progression: None,
                position: Some(4),
                total_progression: Some(0.5),
            }),
            text: None,
            kobo_span: None,
        }
    );
    let there: Place = resource_locator(text("a"), Some(text("kobo.1")), Some(0.25), None);
    assert_eq!(
        there,
        Locator {
            href: text("a"),
            type_: text("application/xhtml+xml"),
            title: None,
            locations: Some(Location {
                fragments: vec![],
                progression: Some(0.25),
                position: None,
                total_progression: None,
            }),
            text: None,
            kobo_span: Some(text("kobo.1")),
        }
    );
}

#[test]
fn koreader_progress_is_refused() {
    let no_profile = (404, text("Book has no media profile"));
    let no_positions = (400, text("Epub extension not found"));
    let get = |profile| refused(koreader::get_progress(profile, 1, &None, &None).unwrap_err());
    assert_eq!(get(None), no_profile);
    assert_eq!(get(Some(MediaProfile::Epub)), no_positions);
    let put = |profile, progress| sent_by_device(profile, progress, &None).unwrap_err();
    assert_eq!(refused(put(None, "1")), no_profile);
    assert_eq!(refused(put(Some(MediaProfile::Epub), "/body/DocFragment[1].0")), no_positions);
    assert_eq!(
        refused(put(Some(MediaProfile::Epub), "nothing")),
        (400, text("Could not get Epub resource index from progress: nothing"))
    );
    assert_eq!(
        put(Some(MediaProfile::Divina), "x"),
        ApiError::Internal(text("For input string: \"x\""))
    );
}

#[test]
fn koreader_finds_one_book() {
    assert!(koreader::check_single_book(1).is_ok());
    assert_eq!(
        refused(koreader::check_single_book(0).unwrap_err()),
        (404, text("Book not found"))
    );
    assert_eq!(
        refused(koreader::check_single_book(2).unwrap_err()),
        (409, text("More than 1 book found with the same hash"))
    );
    assert_eq!(
        koreader::content_type(&Some(text("application/vnd.koreader.v1+json"))),
        "application/vnd.koreader.v1+json"
    );
    assert_eq!(koreader::content_type(&None), "application/json");
    assert_eq!(
        refused(koreader::require_profile(None).unwrap_err()),
        (404, text("Book has no media profile"))
    );
}
