use komga_api::collections::{
    collection_series_condition, collection_series_sort, release_years, Author, SeriesFilter,
    SeriesLeaf,
};
use komga_api::datetime::{Date, DateTime};
use komga_api::error::ApiError;
use komga_api::media::{
    check_profile, check_ready, map_media_error, map_media_error_raw, map_resource_error,
    missing_media, MediaError, MediaProfile,
};
use komga_api::mosaic::{create_mosaic, lay_out, mosaic_file, width_of, Picture};
use komga_api::pages::{
    check_resource_access, check_resource_exists, compatible, is_font, page_file_name, page_index,
    page_params, parse_accept, parse_convert, requested_page, resource_basename,
    resource_extension, resource_name, sends_raw_pdf, sort_by_specificity, ImageType,
};
use komga_api::search::{
    books_deprecated_condition, duplicates_sort, echoed_sort, enum_conversion_error, has_search,
    invalid_param, parse_read_status, sort_by, sort_or, sort_or_relevance,
    sort_or_relevance_or_name, total_elements, unsorted, BookFilter, BookLeaf, Condition,
    MediaStatus, Pageable, Parsed, ReadStatus, SeriesStatus,
};
use komga_api::thumbnails::{
    check_thumbnail_owner, cover_series, effective_thumbnail, needs_house_keeping,
    thumbnail_exists, thumbnails_house_keeping, Thumbnail,
};

fn text(s: &str) -> String {
    s.to_string()
}

fn texts(v: &[&str]) -> Vec<String> {
    v.iter().map(|s| s.to_string()).collect()
}

fn refused(e: ApiError) -> (u16, String) {
    match e {
        ApiError::Status { status, message } => (status, message),
        other => panic!("{other:?}"),
    }
}

fn known<T>(raw: &str, value: T) -> Parsed<T> {
    Parsed { raw: text(raw), value: Some(value) }
}

fn unknown<T>(raw: &str) -> Parsed<T> {
    Parsed { raw: text(raw), value: None }
}

// ---- searching ----

#[test]
fn orders_fall_back() {
    let asked = sort_by("metadata.title", true);
    assert_eq!(sort_or_relevance(&asked, true), asked);
    assert_eq!(sort_or_relevance(&unsorted(), true)[0].property, "relevance");
    assert!(sort_or_relevance(&unsorted(), false).is_empty());
    assert_eq!(sort_or(&unsorted(), "timestamp", true), sort_by("timestamp", true));
    assert_eq!(sort_or_relevance_or_name(&unsorted(), false), sort_by("name", false));
    assert_eq!(sort_or_relevance_or_name(&unsorted(), true), sort_by("relevance", false));
    assert_eq!(duplicates_sort(&unsorted(), false), sort_by("fileHash", false));
    assert!(duplicates_sort(&asked, true).is_empty());
    assert_eq!(echoed_sort(true, &asked), asked);
    assert!(echoed_sort(false, &asked).is_empty());
    let page = Pageable { page: 2, size: 20, unpaged: false, sort: asked };
    assert_eq!(page.to_page_request(), page);
    assert!(page.sorted(unsorted()).sort.is_empty());
    assert_eq!(total_elements(-1), 0);
    assert_eq!(total_elements(7), 7);
    assert!(has_search(&Some(text("a"))) && !has_search(&Some(text(" "))) && !has_search(&None));
}

fn book_filter() -> BookFilter {
    BookFilter {
        library_ids: vec![],
        media_status: vec![],
        read_status: vec![],
        tags: vec![],
        released_after: None,
    }
}

#[test]
fn books_are_filtered_by_parameters() {
    assert_eq!(books_deprecated_condition(&book_filter()).unwrap(), None);
    let mut f = book_filter();
    f.library_ids = texts(&["l1", "l2"]);
    f.media_status = vec![known("READY", MediaStatus::Ready)];
    f.read_status = texts(&["UNREAD"]);
    f.released_after = Some(known("2020-01-02", Date { year: 2020, month: 1, day: 2 }));
    assert_eq!(
        books_deprecated_condition(&f).unwrap(),
        Some(Condition::AllOf(vec![
            Condition::AnyOf(vec![
                Condition::Leaf(BookLeaf::LibraryId(text("l1"))),
                Condition::Leaf(BookLeaf::LibraryId(text("l2"))),
            ]),
            Condition::AnyOf(vec![Condition::Leaf(BookLeaf::MediaStatus(MediaStatus::Ready))]),
            Condition::AnyOf(vec![Condition::Leaf(BookLeaf::ReadStatus(ReadStatus::Unread))]),
            Condition::Leaf(BookLeaf::ReleasedAfter(DateTime::at_utc_hour(
                Date { year: 2020, month: 1, day: 2 },
                0
            ))),
        ]))
    );
}

#[test]
fn unreadable_parameters_are_refused() {
    let mut f = book_filter();
    f.media_status = vec![known("READY", MediaStatus::Ready), unknown("NOPE")];
    assert_eq!(
        refused(books_deprecated_condition(&f).unwrap_err()),
        (400, text("Invalid value 'NOPE' for parameter 'media_status'"))
    );
    let mut f = book_filter();
    f.read_status = texts(&["nope"]);
    assert_eq!(
        refused(books_deprecated_condition(&f).unwrap_err()),
        (400, text("Invalid value 'nope' for parameter 'read_status'"))
    );
    let mut f = book_filter();
    f.released_after = Some(unknown("soon"));
    assert_eq!(
        refused(books_deprecated_condition(&f).unwrap_err()),
        (400, text("Invalid value 'soon' for parameter 'released_after'"))
    );
    assert_eq!(parse_read_status("IN_PROGRESS"), Some(ReadStatus::InProgress));
    assert_eq!(parse_read_status("in_progress"), None);
    assert_eq!(refused(invalid_param("p", "v")).0, 400);
    assert_eq!(
        refused(enum_conversion_error("a.B", "X")).1,
        "Failed to convert value of type 'java.lang.String' to required type 'a.B'; nested exception is java.lang.IllegalArgumentException: No enum constant a.B.X"
    );
}

// ---- collections ----

fn series_filter() -> SeriesFilter {
    SeriesFilter {
        library_ids: vec![],
        deleted: None,
        complete: None,
        status: vec![],
        publishers: vec![],
        languages: vec![],
        tags: vec![],
        genres: vec![],
        age_ratings: vec![],
        release_years: vec![],
        read_status: vec![],
        authors: vec![],
    }
}

fn conditions(f: &SeriesFilter) -> Vec<Condition<SeriesLeaf>> {
    match collection_series_condition(&text("c1"), f).unwrap() {
        Condition::AllOf(c) => c,
        other => panic!("{other:?}"),
    }
}

fn noon(year: i32, month: u8, day: u8) -> DateTime {
    DateTime::at_utc_hour(Date { year, month, day }, 12)
}

#[test]
fn collection_shows_its_own_series_only() {
    let member = Condition::Leaf(SeriesLeaf::CollectionId(text("c1")));
    assert_eq!(conditions(&series_filter()), vec![member]);
    let mut f = series_filter();
    f.deleted = Some(false);
    f.complete = Some(true);
    f.status = vec![known("ENDED", SeriesStatus::Ended)];
    f.age_ratings = texts(&["16", "None"]);
    f.release_years = texts(&["2020", "soon"]);
    f.authors = vec![Author { name: text("n"), role: text("r") }];
    assert_eq!(
        conditions(&f),
        vec![
            Condition::Leaf(SeriesLeaf::CollectionId(text("c1"))),
            Condition::Leaf(SeriesLeaf::Deleted(false)),
            Condition::Leaf(SeriesLeaf::Complete(true)),
            Condition::AnyOf(vec![Condition::Leaf(SeriesLeaf::Status(SeriesStatus::Ended))]),
            Condition::AnyOf(vec![
                Condition::Leaf(SeriesLeaf::AgeRating(Some(16))),
                Condition::Leaf(SeriesLeaf::AgeRating(None)),
            ]),
            Condition::AnyOf(vec![Condition::AllOf(vec![
                Condition::Leaf(SeriesLeaf::ReleasedAfter(noon(2019, 12, 31))),
                Condition::Leaf(SeriesLeaf::ReleasedBefore(noon(2021, 1, 1))),
            ])]),
            Condition::AnyOf(vec![Condition::Leaf(SeriesLeaf::Author {
                name: text("n"),
                role: text("r")
            })]),
        ]
    );
    assert_eq!(release_years(&f.release_years), vec![2020]);
    assert_eq!(collection_series_sort(true), sort_by("collection.number", false));
    assert_eq!(collection_series_sort(false), sort_by("metadata.titleSort", false));
}

#[test]
fn unknown_status_of_a_series_is_refused() {
    let mut f = series_filter();
    f.status = vec![unknown("NOPE")];
    let (status, message) = refused(collection_series_condition(&text("c1"), &f).unwrap_err());
    assert_eq!(status, 400);
    assert!(message.ends_with(
        "No enum constant org.gotson.komga.domain.model.SeriesMetadata$Status.NOPE"
    ));
    let mut f = series_filter();
    f.read_status = texts(&["NOPE"]);
    let (_, message) = refused(collection_series_condition(&text("c1"), &f).unwrap_err());
    assert!(message.ends_with("org.gotson.komga.domain.model.ReadStatus.NOPE"));
}

// ---- media and pages ----

#[test]
fn media_errors_are_answered() {
    assert_eq!(
        refused(map_media_error(MediaError::NotReady)),
        (404, text("Book analysis failed"))
    );
    assert_eq!(
        refused(map_media_error(MediaError::PageOutOfBounds)),
        (400, text("Page number does not exist"))
    );
    assert_eq!(refused(map_media_error(MediaError::Conversion(text("c")))), (404, text("c")));
    assert_eq!(
        refused(map_media_error(MediaError::NoSuchFile(text("f")))),
        (404, text("File not found, it may have moved"))
    );
    assert_eq!(
        map_media_error(MediaError::Unsupported(text("u"))),
        ApiError::Internal(text("u"))
    );
    assert_eq!(
        map_media_error(MediaError::EntryNotFound(text("e"))),
        ApiError::Internal(text("e"))
    );
    assert_eq!(map_media_error(MediaError::Other(text("o"))), ApiError::Internal(text("o")));
    assert_eq!(refused(map_media_error_raw(MediaError::Unsupported(text("u")))), (400, text("u")));
    assert_eq!(refused(map_resource_error(MediaError::EntryNotFound(text("e")))), (404, text("")));
    assert_eq!(missing_media("b1"), ApiError::Internal(text("no media for book b1")));
}

#[test]
fn only_ready_books_show_their_pages() {
    assert!(check_ready(MediaStatus::Ready).is_ok());
    for (status, message) in [
        (MediaStatus::Unknown, "Book has not been analyzed yet"),
        (MediaStatus::Outdated, "Book is outdated and must be re-analyzed"),
        (MediaStatus::Error, "Book analysis failed"),
        (MediaStatus::Unsupported, "Book format is not supported"),
    ] {
        assert_eq!(refused(check_ready(status).unwrap_err()), (404, text(message)));
    }
    assert!(check_profile(Some(MediaProfile::Epub), MediaProfile::Epub, &None).is_ok());
    assert_eq!(
        refused(check_profile(None, MediaProfile::Epub, &None).unwrap_err()),
        (400, text("Book media type 'null' not compatible with requested profile"))
    );
}

#[test]
fn most_specific_range_decides() {
    let accepted = parse_accept("image/*;q=0.8, */*, application/pdf;a=b;c=d, nonsense, /x");
    assert_eq!(accepted.len(), 3);
    let sorted = sort_by_specificity(&accepted);
    assert_eq!(sorted[0].subtype, "pdf");
    assert_eq!(sorted[0].param_count, 2);
    assert_eq!(sorted[1].type_, "image");
    assert_eq!(sorted[2].type_, "*");
    assert!(compatible(&sorted[2], "application", "pdf"));
    assert!(compatible(&sorted[1], "image", "png") && !compatible(&sorted[1], "text", "png"));
    assert!(sends_raw_pdf(true, false, &Some(text("application/pdf"))));
    assert!(!sends_raw_pdf(false, false, &Some(text("application/pdf"))));
    assert!(!sends_raw_pdf(true, true, &Some(text("application/pdf"))));
    assert!(!sends_raw_pdf(true, false, &None));
}

#[test]
fn page_requests_are_read() {
    let p = page_params(None, None, None);
    assert_eq!((p.zero_based, p.content_negotiation), (false, true));
    assert_eq!(parse_convert(&None).unwrap(), None);
    assert_eq!(parse_convert(&Some(text(""))).unwrap(), None);
    assert_eq!(parse_convert(&Some(text("JPEG"))).unwrap(), Some(ImageType::Jpeg));
    assert_eq!(parse_convert(&Some(text("png"))).unwrap(), Some(ImageType::Png));
    assert_eq!(
        refused(parse_convert(&Some(text("gif"))).unwrap_err()),
        (400, text("Invalid conversion format: gif"))
    );
    assert_eq!(requested_page(0, true), 1);
    assert_eq!(requested_page(3, false), 3);
    assert_eq!(page_index(-1), usize::MAX);
    assert_eq!(page_index(4), 4);
    assert_eq!(page_file_name("Berserk v01", 3, ".png"), "Berserk v01-3.png");
}

#[test]
fn resources_of_a_book() {
    assert_eq!(resource_name("/OEBPS/a.css"), "OEBPS/a.css");
    assert_eq!(resource_name("a.css"), "a.css");
    assert_eq!(resource_extension("fonts/A.WOFF2"), "woff2");
    assert_eq!(resource_extension("none"), "");
    assert_eq!(resource_basename("a\\b/c.txt"), "c.txt");
    assert!(is_font("otf") && is_font("svg") && !is_font("css"));
    assert!(check_resource_access(true, false).is_ok());
    assert_eq!(refused(check_resource_access(false, false).unwrap_err()), (401, text("")));
    assert!(check_resource_exists("a", &texts(&["a"])).is_ok());
    assert_eq!(refused(check_resource_exists("b", &texts(&["a"])).unwrap_err()), (404, text("")));
}

// ---- thumbnails ----

fn thumbnail(id: &str, selected: bool, stored: bool, file: Option<bool>) -> Thumbnail {
    Thumbnail { id: text(id), selected, stored, file }
}

#[test]
fn house_is_kept() {
    let plan = thumbnails_house_keeping(&vec![
        thumbnail("gone", true, false, Some(false)),
        thumbnail("a", false, true, None),
        thumbnail("b", false, false, Some(true)),
    ]);
    assert_eq!(plan.remove, texts(&["gone"]));
    assert_eq!(plan.select, Some(1));
    let several = thumbnails_house_keeping(&vec![
        thumbnail("a", false, true, None),
        thumbnail("b", true, true, None),
        thumbnail("c", true, true, None),
    ]);
    assert!(several.remove.is_empty());
    assert_eq!(several.select, Some(1));
    let one = thumbnails_house_keeping(&vec![
        thumbnail("a", false, true, None),
        thumbnail("b", true, true, None),
    ]);
    assert_eq!(one.select, None);
    assert_eq!(thumbnails_house_keeping(&vec![]).select, None);
    assert!(needs_house_keeping(&None));
    assert!(needs_house_keeping(&Some(thumbnail("a", true, false, Some(false)))));
    assert!(!needs_house_keeping(&Some(thumbnail("a", true, true, Some(false)))));
    assert!(thumbnail_exists(&thumbnail("a", true, false, Some(true))));
}

#[test]
fn selected_thumbnail_is_shown_if_it_is_there() {
    let all = vec![
        thumbnail("a", false, true, None),
        thumbnail("b", true, true, Some(false)),
        thumbnail("c", true, false, Some(true)),
    ];
    assert_eq!(effective_thumbnail(&all), Some(2));
    assert_eq!(effective_thumbnail(&vec![thumbnail("a", false, true, None)]), Some(0));
    assert_eq!(effective_thumbnail(&vec![thumbnail("a", true, true, Some(false))]), None);
    assert!(check_thumbnail_owner("c1", "c1").is_ok());
    assert_eq!(refused(check_thumbnail_owner("c2", "c1").unwrap_err()), (400, text("")));
}

#[test]
fn covers_are_repeated_to_four() {
    assert_eq!(cover_series(&texts(&["a"])), texts(&["a", "a", "a", "a"]));
    assert_eq!(cover_series(&texts(&["a", "b", "c"])), texts(&["a", "b", "c", "a"]));
    assert_eq!(
        cover_series(&texts(&["a", "b", "c", "d", "e"])),
        texts(&["a", "b", "c", "d"])
    );
    assert!(cover_series(&vec![]).is_empty());
}

// ---- the mosaic ----

fn png(width: u32, height: u32, color: [u8; 3]) -> Vec<u8> {
    let img = image::RgbImage::from_pixel(width, height, image::Rgb(color));
    let mut out = std::io::Cursor::new(Vec::new());
    image::DynamicImage::ImageRgb8(img).write_to(&mut out, image::ImageFormat::Png).unwrap();
    out.into_inner()
}

#[test]
fn mosaic_is_narrower_than_high() {
    for (height, width) in [(0, 0), (1, 1), (300, 212), (600, 424), (900, 636), (1200, 848)] {
        assert_eq!(width_of(height), width);
        assert_eq!(width_of(height), (f64::from(height) * 0.7066666667).round() as u32);
    }
}

#[test]
fn pictures_are_laid_in_their_cells() {
    let cell = |v: u8| Picture { width: 1, height: 2, pixels: vec![v; 6] };
    let m = lay_out(&vec![cell(1), cell(2), cell(3)], 4);
    assert_eq!((m.width, m.height), (3, 4));
    let at = |x: usize, y: usize| m.pixels[(y * 3 + x) * 3];
    assert_eq!((at(0, 0), at(0, 1)), (1, 1));
    assert_eq!((at(1, 0), at(1, 1)), (2, 2));
    assert_eq!((at(0, 2), at(0, 3)), (3, 3));
    // what is behind no picture is black
    assert_eq!((at(2, 0), at(1, 2), at(2, 3)), (0, 0, 0));
    // what stands out is cut off
    let wide = Picture { width: 9, height: 9, pixels: vec![7; 243] };
    let m = lay_out(&vec![wide], 4);
    assert!(m.pixels.iter().all(|b| *b == 7));
    assert_eq!(m.pixels.len(), 36);
}

#[test]
fn mosaic_is_a_jpeg() {
    let images = vec![png(40, 60, [255, 0, 0]), png(40, 60, [0, 255, 0])];
    let jpeg = create_mosaic(&images, 300).unwrap();
    assert_ne!(jpeg, images[0]);
    assert_eq!(image::guess_format(&jpeg).unwrap(), image::ImageFormat::Jpeg);
    let m = image::load_from_memory(&jpeg).unwrap().to_rgb8();
    assert_eq!((m.width(), m.height()), (212, 300));
    // the first cell holds the first picture, the second the second, the others nothing
    assert!(m.get_pixel(20, 20).0[0] > 200 && m.get_pixel(20, 20).0[1] < 60);
    assert!(m.get_pixel(130, 20).0[1] > 200 && m.get_pixel(130, 20).0[0] < 60);
    assert!(m.get_pixel(20, 200).0.iter().all(|b| *b < 40));
    assert_eq!(
        create_mosaic(&vec![], 300).unwrap(),
        create_mosaic(&vec![png(1, 1, [0, 0, 0])], 300).unwrap()
    );
}

#[test]
fn unreadable_picture_is_reported() {
    let images = vec![png(1, 1, [0, 0, 0]), b"no picture".to_vec()];
    match create_mosaic(&images, 300).unwrap_err() {
        ApiError::Internal(m) => {
            assert!(m.starts_with("could not decode mosaic image: "), "{m}");
            assert!(m.len() > "could not decode mosaic image: ".len());
        }
        other => panic!("{other:?}"),
    }
    assert_eq!(
        mosaic_file(Err(text("no"))).unwrap_err(),
        ApiError::Internal(text("could not encode mosaic: no"))
    );
    // a fifth picture does not matter
    let five = vec![
        png(1, 1, [0, 0, 0]),
        png(1, 1, [0, 0, 0]),
        png(1, 1, [0, 0, 0]),
        png(1, 1, [0, 0, 0]),
        b"no picture".to_vec(),
    ];
    assert!(create_mosaic(&five, 300).is_ok());
}

#[test]
fn pictures_are_made_smaller_only() {
    let white = [255, 255, 255];
    let shown = |bytes: Vec<u8>| {
        let jpeg = create_mosaic(&vec![bytes], 300).unwrap();
        image::load_from_memory(&jpeg).unwrap().to_rgb8()
    };
    let light = |m: &image::RgbImage, x: u32, y: u32| m.get_pixel(x, y).0[0] > 200;
    let dark = |m: &image::RgbImage, x: u32, y: u32| m.get_pixel(x, y).0[0] < 60;
    // one that fits half the height stays as it is
    let small = shown(png(40, 60, white));
    assert!(light(&small, 20, 30) && dark(&small, 60, 30) && dark(&small, 20, 80));
    // one that does not is made to fit, with its proportions
    let large = shown(png(300, 600, white));
    assert!(light(&large, 60, 130) && dark(&large, 90, 130) && dark(&large, 60, 170));
    let broad = shown(png(600, 300, white));
    assert!(light(&broad, 130, 60) && dark(&broad, 130, 90) && dark(&broad, 170, 60));
    // a pixel is left where there is no room
    assert!(create_mosaic(&vec![png(2, 2, white)], 1).is_ok());
}
