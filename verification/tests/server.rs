use komga_api::actuator::{
    base_unit_static, block_bytes, database_status, description_static, find_metric, get_metric,
    health, metric_body, metric_info, metric_names, name_static, os_arch, os_display_name, parse_disk_blocks, scheduled_tasks,
    shows_details, Gauge, Metric, ScanRegistration,
};
use komga_api::announcements::{require_feed, FeedItemDto, JsonFeedDto};
use komga_api::claim::{
    check_claim, claim, claim_status, claiming_user, is_valid_email, ClaimStatus, UserRole,
};
use komga_api::client_settings::{
    check_keys, store_settings, valid_key, SettingUpdate, KEY_PATTERN_MESSAGE,
};
use komga_api::error::{violation, ApiError, Violation};
use komga_api::filesystem::{
    check_path, directory_listing, is_hidden, path_dto, root_listing, DirectoryRequestDto, Entry,
};
use komga_api::fonts;
use komga_api::fonts::{
    font_family_css, font_media_type, FontFamily, FontFile, FontRegistry, EMBEDDED_FAMILY,
};
use komga_api::history::{history_sort, HistoricalEvent, HistoricalEventDto};
use komga_api::libraries::{
    blank_violation, check_creation, check_library, check_update, cover_book, create_library,
    map_library_error, shown_root, update_library, visible_libraries, FileSettings, FileUpdate,
    ImportSettings, ImportUpdate, Library, LibraryAccess, LibraryCreationDto, LibraryError,
    LibraryUpdateDto, ScanInterval, ScanSettings, ScanUpdate, SeriesCover,
};
use komga_api::login::{expired_cookie, read_cookie, session_of};
use komga_api::oauth2::{
    activity_source, authorization_url, callback, find_registration, merge_endpoints,
    new_state_key, password_of, plan_endpoints, random_password, redirect_uri, refusal_location,
    session_cookie, sign_up, signed_up_user, CallbackAction, CallbackRun, CallbackSettings,
    EndpointPlan, Endpoints, GithubEmail, OAuth2ClientRegistration, SignInStates,
    UserInfoClaims,
};
use komga_api::search::SortOrder;
use komga_api::page_hashes::{book_page_numbered, check_hash, group_by_book, PageHashMatch};

fn text(s: &str) -> String {
    s.to_string()
}

fn texts(v: &[&str]) -> Vec<String> {
    v.iter().map(|s| s.to_string()).collect()
}

fn refused(e: ApiError) -> (u16, String) {
    match e {
        ApiError::Status { status, message } => (status, message),
        other => panic!("{other:?}"),
    }
}

fn violations(e: ApiError) -> Vec<(String, String)> {
    match e {
        ApiError::Violations(v) => {
            v.into_iter().map(|Violation { field_name, message }| (field_name, message)).collect()
        }
        other => panic!("{other:?}"),
    }
}

// ---- actuator ----

#[test]
fn metrics_are_listed_and_found() {
    let names = metric_names();
    assert_eq!(
        names,
        [
            "jvm.memory.used",
            "komga.books",
            "komga.books.filesize",
            "komga.collections",
            "komga.libraries",
            "komga.readlists",
            "komga.series",
            "komga.sidecars",
            "process.cpu.usage",
            "process.start.time",
            "process.uptime"
        ]
    );
    for name in names {
        let info = metric_info(find_metric(name).unwrap());
        assert_eq!(info.name, name);
        assert!(!info.base_unit.is_empty());
    }
    assert_eq!(
        metric_info(Metric::Uptime).description,
        "The uptime of the Java virtual machine"
    );
    assert_eq!(metric_info(Metric::StartTime).base_unit, "milliseconds");
    assert_eq!(metric_info(Metric::MemoryUsed).base_unit, "bytes");
    assert!(find_metric("nope").is_err());
    let books = metric_info(Metric::Contents(Gauge::Books));
    assert_eq!(name_static(books.name), books.name);
    assert_eq!(description_static(books.description), books.description);
    assert_eq!(base_unit_static(books.base_unit), books.base_unit);
}

#[test]
fn metric_has_one_measurement_and_no_tags() {
    let value = |m: Metric| match m {
        Metric::Contents(Gauge::Books) => 7.0,
        _ => 0.5,
    };
    for name in metric_names() {
        let body = get_metric(name, value).unwrap();
        assert_eq!(body.name, name);
        assert!(!body.description.is_empty() && !body.base_unit.is_empty());
        assert_eq!(body.measurements.len(), 1);
        assert_eq!(body.measurements[0].statistic, "VALUE");
        let expected = if name == "komga.books" { 7.0 } else { 0.5 };
        assert_eq!(body.measurements[0].value, expected);
        assert!(body.available_tags.is_empty());
    }
    for name in ["nope", "komga.nope", ""] {
        match get_metric(name, value).unwrap_err() {
            ApiError::Status { status, message } => assert_eq!((status, message), (404, text(""))),
            other => panic!("{other:?}"),
        }
    }
    let body = metric_body(Metric::Uptime, 3u8);
    assert_eq!((body.name, body.base_unit), ("process.uptime", "seconds"));
    assert_eq!(body.measurements[0].value, 3);
}

#[test]
fn root_is_shown_to_administrators_only() {
    assert_eq!(shown_root("/data/alpha", true), "/data/alpha");
    assert_eq!(shown_root("/data/alpha", false), "");
}

#[test]
fn health_is_read_from_answers() {
    assert_eq!(database_status(Some(1)), "UP");
    assert_eq!(database_status(Some(2)), "DOWN");
    assert_eq!(database_status(None), "DOWN");
    assert!(shows_details(true, true));
    assert!(!shows_details(true, false) && !shows_details(false, true));
    let df = "Filesystem 1024-blocks Used Available Capacity Mounted on\n/dev/sda1 1000 400 600 40% /\n";
    assert_eq!(parse_disk_blocks(df), Some((1000, 600)));
    assert_eq!(parse_disk_blocks("Filesystem"), None);
    assert_eq!(parse_disk_blocks("h\na b c d"), None);
    assert_eq!(block_bytes(1000), 1_024_000);
    assert_eq!(os_display_name("macos"), "Mac OS X");
    assert_eq!(os_display_name("freebsd"), "freebsd");
    assert_eq!(os_arch("x86_64"), "amd64");
    assert_eq!(os_arch("aarch64"), "aarch64");
}

#[test]
fn scans_come_before_standing_tasks() {
    let tasks = scheduled_tasks(&vec![ScanRegistration {
        library_name: text("Manga"),
        period_millis: 3_600_000,
    }]);
    assert_eq!(tasks[0].target, "ScanScheduler for library 'Manga'");
    assert_eq!((tasks[0].initial_delay, tasks[0].interval), (3_600_000, 3_600_000));
    let standing = scheduled_tasks(&vec![]);
    let targets: Vec<&str> = standing.iter().map(|t| t.target.as_str()).collect();
    assert_eq!(
        targets,
        [
            "SseController.heartbeat",
            "SseController.taskCount",
            "AuthenticationActivityCleanupController.cleanup"
        ]
    );
    assert_eq!(standing[0].initial_delay, 15_000);
    assert_eq!(standing[0].interval, 15_000);
    assert_eq!(standing[2].interval, 86_400_000);
}

// ---- announcements ----

fn item(id: &str) -> FeedItemDto<i64> {
    FeedItemDto {
        id: text(id),
        url: None,
        title: None,
        summary: None,
        content_html: None,
        date_modified: Some(7),
        author: None,
        tags: texts(&["news"]),
        komga_extension: None,
    }
}

fn feed() -> JsonFeedDto<i64> {
    JsonFeedDto {
        version: text("1"),
        title: text("Announcements"),
        home_page_url: None,
        description: None,
        items: vec![item("a"), item("b")],
    }
}

#[test]
fn read_announcements_are_marked() {
    let marked = feed().mark_read(&texts(&["b"]));
    let read: Vec<bool> =
        marked.items.iter().map(|i| i.komga_extension.as_ref().unwrap().read).collect();
    assert_eq!(read, [false, true]);
    assert_eq!(marked.items[0].date_modified, Some(7));
    assert_eq!(marked.items[0].tags, texts(&["news"]));
    // marking twice is marking once
    let again = feed().mark_read(&texts(&["b"])).mark_read(&texts(&["b"]));
    assert_eq!(again, marked);
    assert!(require_feed(Some(1)).is_ok());
    assert!(require_feed::<i32>(None).is_err());
}

// ---- claim ----

#[test]
fn server_is_claimed_once() {
    assert_eq!(claim_status(0), ClaimStatus { is_claimed: false });
    assert_eq!(claim_status(2), ClaimStatus { is_claimed: true });
    let user = claim("admin@example.org", "secret", 0).unwrap();
    assert_eq!(user.email, "admin@example.org");
    assert!(user.shared_all_libraries);
    assert_eq!(user.roles[0], UserRole::Admin);
    assert_eq!(user.roles.len(), 5);
    assert_ne!(user.password, "secret");
    assert!(user.password.starts_with("$2b$10$"));
    assert!(bcrypt::verify("secret", &user.password).unwrap());
    assert_eq!(
        refused(claim("admin@example.org", "secret", 1).unwrap_err()),
        (400, text("This server has already been claimed"))
    );
    assert_eq!(
        violations(check_claim("nope", " ", 1).unwrap_err()),
        vec![
            (text("claimServer.email"), text("must be a well-formed email address")),
            (text("claimServer.password"), text("must not be blank")),
        ]
    );
    assert_eq!(
        claiming_user("a@b.c", Err(text("no"))).unwrap_err(),
        ApiError::Internal(text("no"))
    );
}

#[test]
fn email_has_an_at_and_a_dot() {
    let matching = [
        "a@b.c", "a.b@c.d", "a@b@c.d", "a@b..c", "a@b.c.", "@a@b.c", "@@b.c", "a@.b.c", "a@b.c@",
    ];
    for e in matching {
        assert!(is_valid_email(e), "{e}");
    }
    for e in ["", "a", "@", "a@b", "@b.c", "a@.c", "a@b.", "a.b@c", "a@", "a.b@", "@.a"] {
        assert!(!is_valid_email(e), "{e}");
    }
}

// ---- client settings ----

#[test]
fn keys_of_settings_match_the_pattern() {
    for k in ["a", "app.theme", "a_b-c.1d", "abc"] {
        assert!(valid_key(k), "{k}");
    }
    for k in ["", "1a", "A", "a.", ".a", "a..b", "a_", "a.b-", "_a", "a b"] {
        assert!(!valid_key(k), "{k}");
    }
    assert!(check_keys(&texts(&["a", "b.c"])).is_ok());
    assert_eq!(
        violations(check_keys(&texts(&["a", "B", "C"])).unwrap_err()),
        vec![(text("B"), text(KEY_PATTERN_MESSAGE))]
    );
}

#[test]
fn settings_are_stored_up_to_the_first_refused() {
    let s = |k: &str, v: &str| SettingUpdate { key: text(k), value: text(v) };
    let all = store_settings(&vec![s("a", "1"), s("b", "2")]);
    assert_eq!(all.stored, 2);
    assert!(all.answer.is_ok());
    let some = store_settings(&vec![s("a", "1"), s("b", ""), s("c", "3")]);
    assert_eq!(some.stored, 1);
    assert!(some.answer.is_err());
}

// ---- file system ----

fn entry(path: &str, is_dir: bool) -> Entry {
    Entry { path: text(path), file_name: path.rsplit('/').next().map(text), is_dir }
}

#[test]
fn directories_are_listed() {
    let entries = || {
        vec![
            entry("/data/b", true),
            entry("/data/A", true),
            entry("/data/.hidden", true),
            entry("/data/x.cbz", false),
        ]
    };
    let l = directory_listing(Some(text("/")), entries(), false);
    let names: Vec<&str> = l.directories.iter().map(|d| d.name.as_str()).collect();
    assert_eq!(names, ["A", "b"]);
    assert!(l.files.is_empty());
    assert_eq!(l.parent.as_deref(), Some("/"));
    let l = directory_listing(None, entries(), true);
    assert_eq!(l.files[0].path, "/data/x.cbz");
    assert_eq!(l.files[0].type_, "file");
    let root = root_listing();
    assert_eq!(root.directories[0].path, "/");
    assert!(root.parent.is_none());
    assert!(is_hidden(&Some(text(".x"))) && !is_hidden(&Some(text("x"))) && !is_hidden(&None));
    assert_eq!(path_dto(&entry("/data/b", true)).type_, "directory");
    assert!(check_path(true, true).is_ok());
    assert_eq!(
        refused(check_path(false, true).unwrap_err()),
        (400, text("Path must be absolute"))
    );
    assert_eq!(
        refused(check_path(true, false).unwrap_err()),
        (400, text("Path does not exist"))
    );
    let request = DirectoryRequestDto::default();
    assert_eq!((request.path.as_str(), request.show_files), ("", false));
}

// ---- fonts ----

fn font(name: &str) -> FontFile<u8> {
    FontFile { name: text(name), source: 1 }
}

#[test]
fn fonts_are_registered_by_family() {
    let registry = FontRegistry::load(
        vec![font("OpenDyslexic-Bold.woff"), font("OpenDyslexic-Regular.woff2")],
        vec![
            FontFamily {
                name: text("Custom"),
                files: vec![font("Custom-Regular.ttf"), font("notes.txt")],
            },
            FontFamily { name: text("Empty"), files: vec![font("notes.txt")] },
        ],
    );
    let names: Vec<&str> = registry.get().iter().map(|f| f.name.as_str()).collect();
    assert_eq!(names, ["Custom", EMBEDDED_FAMILY]);
    let custom = registry.family("Custom").unwrap();
    assert_eq!(custom.file("Custom-Regular.ttf").unwrap().source, 1);
    assert!(custom.file("notes.txt").is_err());
    assert!(registry.family("Nope").is_err());
    assert_eq!(font_media_type("Custom-Regular.TTF"), "font/ttf");
    assert_eq!(fonts::extension_of("a.b.woff"), Some(text("woff")));
    assert_eq!(fonts::extension_of(".woff"), None);
}

#[test]
fn style_sheet_has_a_rule_for_each_style() {
    let files = vec![
        font("OpenDyslexic-Bold.woff"),
        font("OpenDyslexic-Bold-Italic.woff"),
        font("OpenDyslexic-Regular.woff2"),
    ];
    let css = font_family_css("OpenDyslexic", &files);
    assert!(css.contains("font-family: 'OpenDyslexic';"));
    assert!(css.contains("font-weight: bold;"));
    assert!(css.contains("font-weight: normal;"));
    assert!(css.contains("font-style: italic;"));
    assert!(css.contains("url('OpenDyslexic-Bold.woff') format('woff')"));
    assert!(css.contains("url('OpenDyslexic-Regular.woff2') format('woff2')"));
    assert_eq!(css.matches("@font-face").count(), 3);
    assert!(font_family_css("X", &vec![font("x.ttf")]).contains("format('truetype')"));
}

// ---- libraries ----

fn import() -> ImportSettings {
    ImportSettings {
        comicinfo_book: true,
        comicinfo_series: true,
        comicinfo_collection: true,
        comicinfo_readlist: true,
        comicinfo_series_append_volume: true,
        epub_book: true,
        epub_series: true,
        mylar_series: true,
        local_artwork: true,
        barcode_isbn: false,
    }
}

fn scan() -> ScanSettings {
    ScanSettings {
        force_modified_time: false,
        on_startup: false,
        interval: ScanInterval::Every6h,
        cbx: true,
        pdf: true,
        epub: true,
    }
}

fn file_settings() -> FileSettings {
    FileSettings {
        repair_extensions: false,
        convert_to_cbz: false,
        empty_trash_after_scan: false,
        series_cover: SeriesCover::First,
        hash_files: true,
        hash_pages: false,
        hash_koreader: false,
        analyze_dimensions: true,
    }
}

fn creation(name: &str, root: &str, oneshots: Option<&str>) -> LibraryCreationDto {
    LibraryCreationDto {
        name: text(name),
        root: text(root),
        import: import(),
        scan: scan(),
        files: file_settings(),
        scan_directory_exclusions: texts(&["@eaDir"]),
        oneshots_directory: oneshots.map(text),
    }
}

fn library() -> Library<i32> {
    create_library(creation("Manga", "/manga", Some("shots")), text("file:/manga"), 5)
}

fn no_update() -> LibraryUpdateDto {
    LibraryUpdateDto {
        name: None,
        root: None,
        import: ImportUpdate {
            comicinfo_book: None,
            comicinfo_series: None,
            comicinfo_collection: None,
            comicinfo_readlist: None,
            comicinfo_series_append_volume: None,
            epub_book: None,
            epub_series: None,
            mylar_series: None,
            local_artwork: None,
            barcode_isbn: None,
        },
        scan: ScanUpdate {
            force_modified_time: None,
            on_startup: None,
            interval: None,
            cbx: None,
            pdf: None,
            epub: None,
        },
        files: FileUpdate {
            repair_extensions: None,
            convert_to_cbz: None,
            empty_trash_after_scan: None,
            series_cover: None,
            hash_files: None,
            hash_pages: None,
            hash_koreader: None,
            analyze_dimensions: None,
        },
        scan_directory_exclusions: None,
        oneshots_directory: None,
    }
}

#[test]
fn library_is_created() {
    let l = library();
    assert_eq!((l.id.as_str(), l.name.as_str(), l.root.as_str()), ("", "Manga", "file:/manga"));
    assert_eq!(l.oneshots_directory.as_deref(), Some("shots"));
    assert_eq!((l.created_date, l.last_modified_date, l.unavailable_date), (5, 5, None));
    let blank = create_library(creation("Manga", "/m", Some(" ")), text("file:/m"), 5);
    assert_eq!(blank.oneshots_directory, None);
    assert!(check_creation(&creation("Manga", "/m", None)).is_ok());
    assert_eq!(
        violations(check_creation(&creation(" ", "", None)).unwrap_err()),
        vec![
            (text("name"), text("must not be blank")),
            (text("root"), text("must not be blank")),
        ]
    );
}

#[test]
fn update_changes_what_it_gives() {
    // nothing given, nothing changed
    assert_eq!(update_library(library(), no_update(), None), library());

    let update = || {
        let mut u = no_update();
        u.name = Some(text("Comics"));
        u.scan.interval = Some(ScanInterval::Daily);
        u.files.hash_pages = Some(true);
        u.import.barcode_isbn = Some(true);
        u.scan_directory_exclusions = Some(None);
        u.oneshots_directory = Some(None);
        u
    };
    let l = update_library(library(), update(), None);
    assert_eq!(l.name, "Comics");
    assert_eq!(l.root, "file:/manga");
    assert_eq!(l.scan.interval, ScanInterval::Daily);
    assert!(l.files.hash_pages && l.files.hash_files && l.import.barcode_isbn);
    assert!(l.scan_directory_exclusions.is_empty());
    assert_eq!(l.oneshots_directory, None);
    // twice is once
    assert_eq!(update_library(l, update(), None), update_library(library(), update(), None));

    let moved = update_library(library(), no_update(), Some(text("file:/new")));
    assert_eq!(moved.root, "file:/new");
    let mut blank = no_update();
    blank.name = Some(text(""));
    assert_eq!(
        violations(check_update(&blank).unwrap_err()),
        vec![(text("name"), text("Must be null or not blank"))]
    );
    assert!(check_update(&no_update()).is_ok());
    assert_eq!(blank_violation("f", "m"), violation("f", "m"));
}

#[test]
fn libraries_are_for_their_users() {
    assert!(LibraryAccess::All.can_access("l1"));
    let only = LibraryAccess::Only(texts(&["l2"]));
    assert!(only.can_access("l2") && !only.can_access("l1"));
    assert_eq!(refused(check_library(false, true).unwrap_err()).0, 404);
    assert_eq!(refused(check_library(true, false).unwrap_err()).0, 403);
    assert!(check_library(true, true).is_ok());
    let named = |id: &str, name: &str| {
        let mut l = library();
        l.id = text(id);
        l.name = text(name);
        l
    };
    let all = vec![named("l1", "zeta"), named("l2", "Alpha"), named("l3", "beta")];
    assert_eq!(visible_libraries(&all, &LibraryAccess::All), vec![1, 2, 0]);
    assert_eq!(visible_libraries(&all, &only), vec![1]);
    assert_eq!(
        refused(map_library_error(LibraryError { validation: true, message: text("m") })),
        (400, text("m"))
    );
    assert_eq!(
        map_library_error(LibraryError { validation: false, message: text("m") }),
        ApiError::Internal(text("m"))
    );
}

#[test]
fn cover_follows_the_rule_of_the_library() {
    let (f, u, l) = (Some(text("f")), Some(text("u")), Some(text("l")));
    let cover = |rule, unread: Option<String>| cover_book(rule, f.clone(), unread, l.clone());
    assert_eq!(cover(SeriesCover::First, u.clone()), f);
    assert_eq!(cover(SeriesCover::Last, u.clone()), l);
    assert_eq!(cover(SeriesCover::FirstUnreadOrFirst, u.clone()), u);
    assert_eq!(cover(SeriesCover::FirstUnreadOrFirst, None), f);
    assert_eq!(cover(SeriesCover::FirstUnreadOrLast, None), l);
}

// ---- cookies ----

#[test]
fn sessions_are_in_a_header_or_a_cookie() {
    assert_eq!(read_cookie("a=1; KOMGA-SESSION=x=y; b=2", "KOMGA-SESSION"), Some(text("x=y")));
    assert_eq!(read_cookie("a=1", "b"), None);
    let cookies = Some(text("s=c"));
    assert_eq!(session_of(&Some(text("h")), &cookies, "s"), Some(text("h")));
    assert_eq!(session_of(&None, &cookies, "s"), Some(text("c")));
    assert_eq!(session_of(&None, &None, "s"), None);
    assert_eq!(expired_cookie("s"), "s=; Path=/; Max-Age=0; HttpOnly; SameSite=Lax");
    assert_eq!(session_cookie("s", "id"), "s=id; Path=/; HttpOnly; SameSite=Lax");
}

// ---- OAuth2 ----

fn registration(id: &str, oidc: bool) -> OAuth2ClientRegistration {
    OAuth2ClientRegistration {
        registration_id: text(id),
        client_id: text("cid"),
        scopes: texts(&["user:email"]),
        oidc,
        redirect_uri: None,
        authorization_uri: Some(text("http://p/authorize")),
        token_uri: Some(text("http://p/token")),
        user_info_uri: Some(text("http://p/user")),
        issuer_uri: None,
    }
}

#[test]
fn user_is_sent_to_the_provider() {
    let all = vec![registration("github", false), registration("keycloak", true)];
    let r = find_registration(&all, "github").unwrap();
    assert!(find_registration(&all, "nope").is_none());
    assert_eq!(redirect_uri(r, "http://localhost"), "http://localhost/login/oauth2/code/github");
    assert_eq!(
        authorization_url(r, "http://p/authorize", "http://localhost", "key"),
        "http://p/authorize?response_type=code&client_id=cid&scope=user%3Aemail&state=key&redirect_uri=http%3A%2F%2Flocalhost%2Flogin%2Foauth2%2Fcode%2Fgithub"
    );
    let key = new_state_key();
    assert_eq!(key.len(), 36);
    for (i, c) in key.chars().enumerate() {
        match i {
            8 | 13 | 18 | 23 => assert_eq!(c, '-'),
            14 => assert_eq!(c, '4'),
            19 => assert!("89ab".contains(c), "{key}"),
            _ => assert!("0123456789abcdef".contains(c), "{key}"),
        }
    }
    assert_ne!(new_state_key(), new_state_key());
    assert_eq!(refusal_location("ERR_1024"), "/login?server_redirect=Y&error=ERR_1024");
    assert_eq!(activity_source("GitHub"), "OAuth2:GitHub");
}

#[test]
fn state_is_taken_once() {
    assert_eq!(komga_api::oauth2::STATE_SECONDS, 600);
    let mut states = SignInStates::new();
    let github = states.begin("github");
    let google = states.begin("google");
    assert_ne!(github, google);
    assert_eq!(states.take(&None), None);
    assert_eq!(states.take(&Some(text("unknown"))), None);
    // the first time the sign-in goes on, the second time it is refused
    let mut run = back("github");
    run.remembered = states.take(&Some(github.clone()));
    assert_eq!(run.remembered, Some(text("github")));
    assert!(!matches!(
        callback(&settings("github", false), &run),
        CallbackAction::Refuse { .. }
    ));
    run.remembered = states.take(&Some(github));
    assert_eq!(run.remembered, None);
    assert_eq!(code_of(callback(&settings("github", false), &run)), "invalid_state");
    assert_eq!(states.take(&Some(google)), Some(text("google")));
}

#[test]
fn endpoints_are_configured_or_discovered() {
    match plan_endpoints(&registration("github", false)) {
        EndpointPlan::Known(e) => assert_eq!(e.token, "http://p/token"),
        other => panic!("{other:?}"),
    }
    let mut r = registration("keycloak", true);
    r.token_uri = None;
    assert_eq!(plan_endpoints(&r), EndpointPlan::Unknown);
    r.issuer_uri = Some(text("http://issuer"));
    assert!(matches!(plan_endpoints(&r), EndpointPlan::Discover(_)));
    let merged = merge_endpoints(
        &r,
        Endpoints { authorization: text("d/a"), token: text("d/t"), user_info: text("d/u") },
    );
    assert_eq!(merged.token, "d/t");
    assert_eq!(merged.authorization, "http://p/authorize");
}

fn settings(id: &str, oidc: bool) -> CallbackSettings {
    CallbackSettings {
        registration_id: text(id),
        oidc,
        scopes: texts(&["user:email"]),
        oidc_email_verification: true,
        account_creation: false,
    }
}

fn back(id: &str) -> CallbackRun {
    CallbackRun {
        remembered: Some(text(id)),
        code: Some(text("abc")),
        endpoints: Some(Some((text("t"), text("u")))),
        token: Some(Ok(Some(text("token")))),
        claims: None,
        github_emails: None,
        user_found: None,
        user_created: None,
    }
}

fn code_of(a: CallbackAction) -> String {
    match a {
        CallbackAction::Refuse { error_code, .. } => text(error_code),
        other => panic!("{other:?}"),
    }
}

#[test]
fn callback_takes_step_after_step() {
    let s = settings("github", false);
    let mut run = back("github");
    run.endpoints = None;
    run.token = None;
    assert_eq!(callback(&s, &run), CallbackAction::ResolveEndpoints);
    run.endpoints = Some(Some((text("t"), text("u"))));
    assert_eq!(
        callback(&s, &run),
        CallbackAction::ExchangeToken { token_uri: text("t"), code: text("abc") }
    );
    run.token = Some(Ok(Some(text("token"))));
    assert_eq!(
        callback(&s, &run),
        CallbackAction::LoadUserInfo { user_info_uri: text("u"), access_token: text("token") }
    );
    run.claims = Some(Ok(UserInfoClaims { email: None, email_verified: None }));
    assert_eq!(
        callback(&s, &run),
        CallbackAction::LoadGithubEmails { url: text("u/emails"), access_token: text("token") }
    );
    run.github_emails = Some(Some(vec![
        GithubEmail { email: Some(text("other@x.io")), primary: Some(false), verified: Some(true) },
        GithubEmail { email: Some(text("octo@x.io")), primary: Some(true), verified: Some(true) },
    ]));
    assert_eq!(callback(&s, &run), CallbackAction::FindUser { email: text("octo@x.io") });
    run.user_found = Some(true);
    assert_eq!(callback(&s, &run), CallbackAction::SignIn);
}

#[test]
fn callback_refuses_with_a_code() {
    let s = settings("keycloak", true);
    let with = |email: Option<&str>, verified: Option<bool>| {
        let mut run = back("keycloak");
        run.claims =
            Some(Ok(UserInfoClaims { email: email.map(text), email_verified: verified }));
        run
    };
    assert_eq!(code_of(callback(&s, &with(None, None))), "ERR_1028");
    assert_eq!(code_of(callback(&s, &with(Some("x@y.io"), None))), "ERR_1027");
    assert_eq!(code_of(callback(&s, &with(Some("x@y.io"), Some(false)))), "ERR_1026");
    assert_eq!(
        callback(&s, &with(Some("x@y.io"), Some(true))),
        CallbackAction::FindUser { email: text("x@y.io") }
    );
    let plain = settings("other", false);
    let mut run = back("other");
    run.claims = Some(Ok(UserInfoClaims { email: None, email_verified: None }));
    assert_eq!(code_of(callback(&plain, &run)), "ERR_1024");
    run.claims = Some(Ok(UserInfoClaims { email: Some(text("a@b.c")), email_verified: None }));
    run.user_found = Some(false);
    assert_eq!(code_of(callback(&plain, &run)), "ERR_1025");
    let mut open = settings("other", false);
    open.account_creation = true;
    assert_eq!(callback(&open, &run), CallbackAction::CreateUser { email: text("a@b.c") });
    run.user_created = Some(Ok(true));
    assert_eq!(callback(&open, &run), CallbackAction::SignIn);
    // the state must be the remembered one
    let mut other = back("github");
    other.user_found = Some(true);
    assert_eq!(code_of(callback(&plain, &other)), "invalid_state");
    let mut bare = back("other");
    bare.code = None;
    assert_eq!(code_of(callback(&plain, &bare)), "invalid_request");
    let mut failed = back("other");
    failed.token = Some(Err(text("no")));
    assert_eq!(code_of(callback(&plain, &failed)), "invalid_token_response");
    let mut failed = back("other");
    failed.claims = Some(Err(text("no")));
    assert_eq!(code_of(callback(&plain, &failed)), "invalid_user_info_response");
}

#[test]
fn new_user_gets_a_password_of_their_own() {
    let p = random_password();
    assert_ne!(p, random_password());
    assert!(p.len() >= 12);
    assert_eq!(password_of(&vec![0; 16]).len(), p.len());
    let user = sign_up("a@b.c").unwrap();
    assert_eq!(user.email, "a@b.c");
    assert!(user.password.starts_with("$2b$10$"));
    assert_eq!(user.password.len(), 60);
    assert!(signed_up_user("a@b.c", Err(text("no"))).is_none());
}

// ---- page hashes ----

fn found(book: &str, page: i32) -> PageHashMatch {
    PageHashMatch {
        book_id: text(book),
        file_name: format!("{page}.png"),
        media_type: text("image/png"),
        file_size: 10,
        page_number: page,
    }
}

#[test]
fn matches_are_grouped_by_book() {
    let groups = group_by_book(&vec![found("b2", 1), found("b1", 4), found("b2", 3)], "h");
    let ids: Vec<&str> = groups.iter().map(|g| g.book_id.as_str()).collect();
    assert_eq!(ids, ["b1", "b2"]);
    let pages: Vec<i32> = groups[1].pages.iter().map(|p| p.page_number).collect();
    assert_eq!(pages, [1, 3]);
    let page = book_page_numbered(&found("b1", 4), "h");
    assert_eq!((page.file_hash.as_str(), page.file_size, page.width), ("h", Some(10), None));
    assert!(group_by_book(&vec![], "h").is_empty());
    assert!(check_hash("h").is_ok());
    assert_eq!(
        violations(check_hash(" ").unwrap_err()),
        vec![(text("hash"), text("must not be blank"))]
    );
}

#[test]
fn history_shows_the_latest_first() {
    let latest_first = history_sort(&vec![]);
    assert_eq!(latest_first.len(), 1);
    assert_eq!(latest_first[0].property, "timestamp");
    assert!(latest_first[0].descending);
    let by_type = SortOrder { property: text("type"), descending: false };
    assert_eq!(history_sort(&vec![by_type])[0].property, "type");
    let shown = HistoricalEventDto::of(HistoricalEvent {
        id: text("e1"),
        type_: text("BookFileDeleted"),
        timestamp: 12u64,
        book_id: Some(text("b1")),
        series_id: Some(text("s1")),
        properties: vec![(text("name"), text("/l/b.cbz"))],
    });
    assert_eq!(shown.id, "e1");
    assert_eq!(shown.type_, "BookFileDeleted");
    assert_eq!(shown.timestamp, 12);
    assert_eq!(shown.book_id, Some(text("b1")));
    assert_eq!(shown.series_id, Some(text("s1")));
    assert_eq!(shown.properties, vec![(text("name"), text("/l/b.cbz"))]);
}

#[test]
fn health_of_the_parts_is_for_administrators() {
    for (signed_in, admin) in [(false, false), (true, false), (false, true)] {
        let shown = health(signed_in, admin, Some(1), Some(1), 5, 3);
        assert_eq!(shown.status, "UP");
        assert!(shown.components.is_none());
    }
    let shown = health(true, true, Some(1), None, 5, 3);
    assert_eq!(shown.status, "UP");
    let parts = shown.components.unwrap();
    assert_eq!(parts.db_status, "UP");
    let sources: Vec<(&str, &str, bool)> =
        parts.data_sources.iter().map(|s| (s.name, s.status, s.details.is_some())).collect();
    assert_eq!(
        sources,
        vec![
            ("sqliteDataSourceRO", "UP", true),
            ("sqliteDataSourceRW", "UP", true),
            ("tasksDataSourceRO", "DOWN", false),
            ("tasksDataSourceRW", "DOWN", false),
        ]
    );
    let details = parts.data_sources[0].details.as_ref().unwrap();
    assert_eq!((details.database, details.validation_query), ("SQLite", "isValid()"));
    let disk = parts.disk_space;
    assert_eq!((disk.total, disk.free, disk.threshold), (5, 3, 10_485_760));
    assert_eq!((disk.status, disk.exists), ("UP", true));
}
