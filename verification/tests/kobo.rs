use komga_api::error::ApiError;
use komga_api::kobo::{
    alphanumeric_char, api_key_of_path, auth_device, check_api_key, check_conversion, download_url_base,
    end_sync, finished_position, image_resources, is_finished, is_own_sync_point, kobo_span,
    metadata_for_removed_book, or_unknown, random_alphanumeric, start_sync, sync_items, tag_items,
    update_state, with_download_urls, FormatDto, KoboBookMetadataDto, KoboLocation,
    KomgaSyncToken, ReadListBook, StatePlace, StateUpdate, SyncKind, SyncPages, SyncRun, SyncStage,
    TokenForm, KOMGA_TOKEN_PREFIX,
};

fn text(s: &str) -> String {
    s.to_string()
}

fn texts(v: &[&str]) -> Vec<String> {
    v.iter().map(|s| s.to_string()).collect()
}

fn refused(e: ApiError) -> (u16, String) {
    match e {
        ApiError::Status { status, message } => (status, message),
        other => panic!("{other:?}"),
    }
}

/// The JSON of a token, as the server around the library writes it.
fn token_json(t: &KomgaSyncToken) -> Vec<u8> {
    let mut m = serde_json::Map::new();
    m.insert(text("version"), serde_json::Value::from(t.version));
    m.insert(
        text("rawKoboSyncToken"),
        serde_json::Value::from(t.raw_kobo_sync_token.clone()),
    );
    m.insert(
        text("ongoingSyncPointId"),
        serde_json::Value::from(t.ongoing_sync_point_id.clone()),
    );
    m.insert(
        text("lastSuccessfulSyncPointId"),
        serde_json::Value::from(t.last_successful_sync_point_id.clone()),
    );
    serde_json::to_vec(&serde_json::Value::Object(m)).unwrap()
}

fn token_of_json(json: &[u8]) -> Option<KomgaSyncToken> {
    let v: serde_json::Value = serde_json::from_slice(json).ok()?;
    let m = v.as_object()?;
    let at = |k: &str| m.get(k).and_then(|x| x.as_str()).map(|s| s.to_string());
    Some(KomgaSyncToken {
        version: m.get("version").and_then(|x| x.as_i64()).unwrap_or(1) as i32,
        raw_kobo_sync_token: at("rawKoboSyncToken").unwrap_or_default(),
        ongoing_sync_point_id: at("ongoingSyncPointId"),
        last_successful_sync_point_id: at("lastSuccessfulSyncPointId"),
    })
}

fn read(b64: &str) -> KomgaSyncToken {
    let form = KomgaSyncToken::read_form(b64);
    let own = match &form {
        TokenForm::Own(json) => token_of_json(json),
        _ => None,
    };
    KomgaSyncToken::from_base64(form, own)
}

#[test]
fn sync_token_roundtrip() {
    let token = KomgaSyncToken {
        ongoing_sync_point_id: Some("sp1".to_string()),
        last_successful_sync_point_id: Some("sp0".to_string()),
        ..Default::default()
    };
    let b64 = KomgaSyncToken::to_base64(&token_json(&token));
    assert!(b64.starts_with(KOMGA_TOKEN_PREFIX));
    assert_eq!(read(&b64), token);

    // a token of the store, of two parts, is kept as it is
    let store = read("abc.def");
    assert_eq!(store.raw_kobo_sync_token, "abc.def");
    assert!(store.ongoing_sync_point_id.is_none());

    // what cannot be read stands for a fresh token
    assert_eq!(read("KOMGA.not-json"), KomgaSyncToken::default());
}

#[test]
fn token_text_is_base64_without_padding() {
    assert_eq!(KomgaSyncToken::to_base64(b"{}"), "KOMGA.e30");
    assert_eq!(KomgaSyncToken::read_form("KOMGA.e30"), TokenForm::Own(b"{}".to_vec()));
    assert_eq!(KomgaSyncToken::read_form("KOMGA.e30="), TokenForm::Unknown);
}

#[test]
fn old_token_carries_the_token_of_the_store() {
    // {"data":{"raw_kobo_store_token":"tok"}}
    let form =
        KomgaSyncToken::read_form("eyJkYXRhIjp7InJhd19rb2JvX3N0b3JlX3Rva2VuIjoidG9rIn19");
    assert_eq!(form, TokenForm::Store(text("tok")));
    assert_eq!(KomgaSyncToken::read_form("e30"), TokenForm::Unknown);
    assert_eq!(KomgaSyncToken::read_form("***"), TokenForm::Unknown);
}

#[test]
fn api_key_is_the_second_part_of_the_path() {
    assert_eq!(api_key_of_path("/kobo/secret/v1/library/sync").unwrap(), "secret");
    assert_eq!(refused(api_key_of_path("/kobo").unwrap_err()), (401, text("")));
    assert_eq!(refused(api_key_of_path("/kobo//v1").unwrap_err()), (401, text("")));
    assert!(check_api_key(true, true).is_ok());
    assert_eq!(refused(check_api_key(false, true).unwrap_err()), (401, text("")));
    assert_eq!(refused(check_api_key(true, false).unwrap_err()), (403, text("")));
    assert!(is_own_sync_point("u1", "u1"));
    assert!(!is_own_sync_point("u1", "u2"));
}

#[test]
fn first_sync_fetches_books_then_read_lists() {
    let mut run = SyncRun::start(false, 100);
    assert_eq!(run.next(), Some((SyncStage::Books, 100)));
    run.absorb(30, false);
    assert_eq!(run.next(), Some((SyncStage::ReadLists, 70)));
    run.absorb(5, false);
    assert_eq!(run.next(), None);
    assert!(!run.more);
}

#[test]
fn sync_stops_at_its_limit() {
    let mut run = SyncRun::start(true, 10);
    assert_eq!(run.next(), Some((SyncStage::BooksAdded, 10)));
    run.absorb(10, true);
    assert_eq!(run.next(), None);
    assert!(run.more);
}

#[test]
fn incremental_sync_takes_seven_steps() {
    let mut run = SyncRun::start(true, 100);
    let mut stages = vec![];
    while let Some((stage, limit)) = run.next() {
        assert!(limit <= 100);
        stages.push(stage);
        run.absorb(1, false);
    }
    assert_eq!(
        stages,
        vec![
            SyncStage::BooksAdded,
            SyncStage::BooksChanged,
            SyncStage::BooksRemoved,
            SyncStage::ProgressChanged,
            SyncStage::ReadListsAdded,
            SyncStage::ReadListsChanged,
            SyncStage::ReadListsRemoved,
        ]
    );
}

fn pages() -> SyncPages {
    SyncPages {
        added: texts(&["b1"]),
        changed: texts(&["b2"]),
        removed: texts(&["b3"]),
        progressed: texts(&["b4", "b5"]),
        tags_added: texts(&["r1"]),
        tags_changed: texts(&["r2"]),
        tags_removed: texts(&["r3"]),
    }
}

#[test]
fn sync_answer_lists_what_changed() {
    let items = sync_items(&pages(), &texts(&["b1", "b4"]));
    let kinds: Vec<(SyncKind, String, bool)> =
        items.into_iter().map(|i| (i.kind, i.id, i.with_progress)).collect();
    assert!(kinds.contains(&(SyncKind::NewEntitlement, text("b1"), true)));
    assert!(kinds.contains(&(SyncKind::ChangedReadingState, text("b4"), true)));
    // without a progress there is nothing to tell of it
    assert!(!kinds.iter().any(|k| k.1 == "b5"));
    assert_eq!(kinds.last().unwrap(), &(SyncKind::DeletedTag, text("r3"), false));
    assert!(kinds.iter().filter(|k| k.2).all(|k| k.1 == "b1" || k.1 == "b4"));
}

#[test]
fn tags_list_the_books_of_a_read_list() {
    let rows = vec![
        ReadListBook { readlist_id: text("r1"), book_id: text("b1") },
        ReadListBook { readlist_id: text("r2"), book_id: text("b9") },
        ReadListBook { readlist_id: text("r1"), book_id: text("b2") },
    ];
    let items = tag_items(&rows, "r1").unwrap();
    let ids: Vec<&str> = items.iter().map(|i| i.revision_id.as_str()).collect();
    assert_eq!(ids, ["b1", "b2"]);
    assert!(items.iter().all(|i| i.type_ == "ProductRevisionTagItem"));
    assert!(tag_items(&rows, "r3").is_none());
}

#[test]
fn unfinished_sync_is_resumed_and_finished_one_moves_on() {
    let received = KomgaSyncToken {
        last_successful_sync_point_id: Some(text("sp0")),
        ..Default::default()
    };
    let end = end_sync(received, "sp1", true, true);
    assert!(end.continues);
    assert!(!end.drop_previous);
    assert_eq!(end.token.ongoing_sync_point_id, Some(text("sp1")));
    assert_eq!(end.token.last_successful_sync_point_id, Some(text("sp0")));

    let done = end_sync(end.token, "sp1", true, false);
    assert!(!done.continues);
    assert!(done.drop_previous);
    assert_eq!(done.token.ongoing_sync_point_id, None);
    assert_eq!(done.token.last_successful_sync_point_id, Some(text("sp1")));
}

#[test]
fn next_sync_takes_up_the_points_of_its_user() {
    let owner = |id: &str| Some(text(id));
    let fresh = start_sync(&KomgaSyncToken::default(), &None, &None, "u1");
    assert_eq!((fresh.resumed, fresh.from), (None, None));

    let received = KomgaSyncToken {
        last_successful_sync_point_id: Some(text("sp0")),
        ..Default::default()
    };
    let first = start_sync(&received, &None, &owner("u1"), "u1");
    assert_eq!((first.resumed, first.from), (None, Some(text("sp0"))));

    // told to go on: the same two points, and none is made
    let unfinished = end_sync(received, "sp1", true, true);
    let second = start_sync(&unfinished.token, &owner("u1"), &owner("u1"), "u1");
    assert_eq!((second.resumed, second.from), (Some(text("sp1")), Some(text("sp0"))));

    // done: a new point is made, and changes are told against the one that was reached
    let done = end_sync(unfinished.token, "sp1", true, false);
    let third = start_sync(&done.token, &None, &owner("u1"), "u1");
    assert_eq!((third.resumed, third.from), (None, Some(text("sp1"))));

    // told to go on with one point as both: it stays both
    let both = KomgaSyncToken {
        ongoing_sync_point_id: Some(text("sp1")),
        last_successful_sync_point_id: Some(text("sp1")),
        ..Default::default()
    };
    let again = end_sync(both, "sp1", true, true);
    let next = start_sync(&again.token, &owner("u1"), &owner("u1"), "u1");
    assert_eq!((next.resumed, next.from), (Some(text("sp1")), Some(text("sp1"))));

    // points of others, and points that are gone, do not count
    let token = KomgaSyncToken {
        ongoing_sync_point_id: Some(text("sp1")),
        last_successful_sync_point_id: Some(text("sp0")),
        ..Default::default()
    };
    let foreign = start_sync(&token, &owner("u2"), &None, "u1");
    assert_eq!((foreign.resumed, foreign.from), (None, None));
}

fn metadata() -> KoboBookMetadataDto<(), ()> {
    let mut m: KoboBookMetadataDto<(), ()> = metadata_for_removed_book("b1", "dummy");
    m.is_kepub = false;
    m.is_pre_paginated = false;
    m.file_size = 42;
    m
}

#[test]
fn removed_book_has_bare_metadata() {
    let m = metadata();
    assert_eq!(m.genre, "dummy");
    assert_eq!(m.entitlement_id, "b1");
    assert_eq!(m.revision_id, "b1");
    assert_eq!(m.work_id, "b1");
    assert_eq!(m.cross_revision_id, "b1");
    assert!(m.download_urls.is_empty());
}

#[test]
fn download_urls_follow_the_format() {
    let base = download_url_base("http://localhost", "key");
    assert!(base.starts_with("http://localhost/kobo/key/"), "{base}");
    let m = with_download_urls(metadata(), &base);
    assert_eq!(m.download_urls[0].format, FormatDto::Epub3);
    assert_eq!(m.download_urls[0].size, 42);
    assert!(m.download_urls[0].url.contains("/file/epub?convert_kepub=false"));
    let mut kepub = metadata();
    kepub.is_kepub = true;
    assert_eq!(with_download_urls(kepub, &base).download_urls[0].format, FormatDto::Kepub);
    let mut fixed = metadata();
    fixed.is_pre_paginated = true;
    assert_eq!(with_download_urls(fixed, &base).download_urls[0].format, FormatDto::Epub3fl);
}

#[test]
fn image_resources_point_here() {
    let r = image_resources("http://localhost", "key");
    assert!(!r.is_empty());
    assert!(r.iter().all(|(_, v)| v.starts_with("http://localhost")));
}

#[test]
fn random_text_is_alphanumeric() {
    let a = random_alphanumeric(24);
    let b = random_alphanumeric(24);
    assert_eq!(a.len(), 24);
    assert!(a.chars().all(|c| c.is_ascii_alphanumeric()));
    assert_ne!(a, b);
    assert_eq!(random_alphanumeric(0), "");
    assert!(alphanumeric_char(0).is_ascii_alphanumeric());
}

#[test]
fn device_gets_keys_and_its_user_key_back() {
    let auth = auth_device(Some(text("uk")));
    for key in [&auth.access_token, &auth.refresh_token] {
        assert_eq!(key.len(), 24);
        assert!(key.chars().all(|c| c.is_ascii_alphanumeric()));
    }
    assert_ne!(auth.access_token, auth.refresh_token);
    assert_eq!(auth.token_type, "Bearer");
    assert_eq!(auth.tracking_id.len(), 36);
    assert_eq!(auth.tracking_id.matches('-').count(), 4);
    assert_eq!(auth.user_key, "uk");
    let other = auth_device(None);
    assert_eq!(other.user_key, "");
    assert_ne!(other.tracking_id, auth.tracking_id);
}

#[test]
fn state_updates_say_where_and_how_far() {
    let location = || KoboLocation {
        source: text("OEBPS/c1.xhtml"),
        type_: Some(text("KoboSpan")),
        value: Some(text("kobo.1.1")),
    };
    let update = |location: Option<KoboLocation>, has_percent: bool, status: &str| {
        Some(StateUpdate { location, has_percent, status: text(status) })
    };
    let reading = update(Some(location()), true, "Reading");
    assert!(!is_finished(&reading));
    assert_eq!(
        update_state(&reading, 0).unwrap(),
        StatePlace::Resource {
            href: text("OEBPS/c1.xhtml"),
            kobo_span: Some(text("kobo.1.1")),
        }
    );
    let finished = update(Some(location()), true, "Finished");
    assert!(is_finished(&finished));
    assert_eq!(update_state(&finished, 7).unwrap(), StatePlace::Position(6));
    assert_eq!(
        update_state(&finished, 0).unwrap_err(),
        ApiError::Internal(text("Epub extension not found"))
    );
    let bad_request = ApiError::Status { status: 400, message: text("") };
    assert_eq!(update_state(&None, 7).unwrap_err(), bad_request);
    assert_eq!(update_state(&update(None, true, "Finished"), 7).unwrap_err(), bad_request);
    let without_percent = update(Some(location()), false, "Finished");
    assert!(!is_finished(&without_percent));
    assert_eq!(update_state(&without_percent, 7).unwrap_err(), bad_request);
    assert_eq!(
        kobo_span(&Some(text("KoboSpan")), &Some(text("kobo.1.1"))),
        Some(text("kobo.1.1"))
    );
    assert_eq!(kobo_span(&Some(text("Other")), &Some(text("kobo.1.1"))), None);
    assert_eq!(kobo_span(&None, &Some(text("kobo.1.1"))), None);
    assert_eq!(or_unknown(&None), "unknown");
    assert_eq!(or_unknown(&Some(text("dev"))), "dev");
    assert_eq!(finished_position(7).unwrap(), 6);
    assert!(finished_position(0).is_err());
    assert!(check_conversion(&None).is_ok());
}
