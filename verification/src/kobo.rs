//! Kobo device sync: the sync token, which pages a sync fetches and what it answers with them.
use base64::Engine;
use vstd::prelude::*;

use crate::error::{ApiError, ErrorView};
use crate::oauth2::random_uuid;
use crate::text::{
    chars_of, eq_ignore_case, find_char, has_text, matches_at, split_at, string_of,
    text_eq,
};

verus! {

/// What a sync token of this server starts with.
pub const KOMGA_TOKEN_PREFIX: &'static str = "KOMGA.";

// ---- the sync token ----

/// Where a device stands between two syncs.
#[derive(Debug, PartialEq, Eq)]
pub struct KomgaSyncToken {
    pub version: i32,
    pub raw_kobo_sync_token: String,
    pub ongoing_sync_point_id: Option<String>,
    pub last_successful_sync_point_id: Option<String>,
}

/// A [`KomgaSyncToken`] by its texts.
#[verifier::ext_equal]
pub struct TokenView {
    pub version: i32,
    pub raw: Seq<char>,
    pub ongoing: Option<Seq<char>>,
    pub last: Option<Seq<char>>,
}

impl DeepView for KomgaSyncToken {
    type V = TokenView;

    open spec fn deep_view(&self) -> TokenView {
        TokenView {
            version: self.version,
            raw: self.raw_kobo_sync_token@,
            ongoing: self.ongoing_sync_point_id.deep_view(),
            last: self.last_successful_sync_point_id.deep_view(),
        }
    }
}

/// The token of a device that has never synced, with what the store's own token was.
pub open spec fn fresh_token(raw: Seq<char>) -> TokenView {
    TokenView { version: 1, raw, ongoing: None, last: None }
}

/// The version of a token that names none.
pub fn token_version() -> (r: i32)
    ensures
        r == 1,
{
    1
}

impl Default for KomgaSyncToken {
    fn default() -> (r: Self)
        ensures
            r.deep_view() == fresh_token(Seq::empty()),
    {
        KomgaSyncToken {
            version: token_version(),
            raw_kobo_sync_token: String::new(),
            ongoing_sync_point_id: None,
            last_successful_sync_point_id: None,
        }
    }
}

/// What `STANDARD_NO_PAD.encode` gives for these bytes.
pub uninterp spec fn base64_encoded(bytes: Seq<u8>) -> Seq<char>;

/// What `STANDARD_NO_PAD.decode` gives for this text, if it accepts it.
pub uninterp spec fn base64_decoded(text: Seq<char>) -> Option<Seq<u8>>;

/// Optional bytes by their contents.
pub open spec fn bytes_of(bytes: Option<Vec<u8>>) -> Option<Seq<u8>> {
    match bytes {
        Some(b) => Some(b@),
        None => None,
    }
}

/// `base64::engine::general_purpose::STANDARD_NO_PAD.encode`: base64 without padding, which the
/// same engine decodes to the bytes it was given.
#[verifier::external_body]
fn base64_encode(bytes: &[u8]) -> (r: String)
    ensures
        r@ == base64_encoded(bytes@),
        base64_decoded(r@) == Some(bytes@),
{
    base64::engine::general_purpose::STANDARD_NO_PAD.encode(bytes)
}

/// `base64::engine::general_purpose::STANDARD_NO_PAD.decode`: the bytes that a text encodes, or
/// nothing where the engine refuses the text. Which texts it refuses is left to its name.
#[verifier::external_body]
fn base64_decode(text: &str) -> (r: Option<Vec<u8>>)
    ensures
        bytes_of(r) == base64_decoded(text@),
{
    base64::engine::general_purpose::STANDARD_NO_PAD.decode(text).ok()
}

/// The text at `outer` and then `inner` in a JSON document, as `serde_json` reads it.
pub uninterp spec fn json_text_at(json: Seq<u8>, outer: Seq<char>, inner: Seq<char>) -> Option<
    Seq<char>,
>;

/// `serde_json::from_slice` into a `Value`, then `Value::get` twice and `Value::as_str`: nothing
/// where the bytes are no JSON, a member is missing or the value is no text.
#[verifier::external_body]
fn json_text(json: &[u8], outer: &str, inner: &str) -> (r: Option<String>)
    ensures
        r.deep_view() == json_text_at(json@, outer@, inner@),
{
    let value: serde_json::Value = serde_json::from_slice(json).ok()?;
    value.get(outer)?.get(inner)?.as_str().map(str::to_string)
}

/// What the text of a token turns out to be.
#[derive(Debug, PartialEq, Eq)]
pub enum TokenForm {
    /// A token of this server: the JSON it carries.
    Own(Vec<u8>),
    /// A token of the store, kept as it is.
    Store(String),
    /// Nothing that can be read.
    Unknown,
}

/// A [`TokenForm`] by its contents.
#[verifier::ext_equal]
pub enum TokenFormView {
    Own(Seq<u8>),
    Store(Seq<char>),
    Unknown,
}

impl DeepView for TokenForm {
    type V = TokenFormView;

    open spec fn deep_view(&self) -> TokenFormView {
        match self {
            TokenForm::Own(json) => TokenFormView::Own(json@),
            TokenForm::Store(raw) => TokenFormView::Store(raw@),
            TokenForm::Unknown => TokenFormView::Unknown,
        }
    }
}

/// How the text of a token is read.
pub open spec fn token_form(token: Seq<char>) -> TokenFormView {
    if token.len() >= 6 && token.take(6) == KOMGA_TOKEN_PREFIX@ {
        match base64_decoded(token.skip(6)) {
            Some(json) => TokenFormView::Own(json),
            None => TokenFormView::Unknown,
        }
    } else if !token.contains('.') {
        match base64_decoded(token) {
            Some(json) => match json_text_at(json, "data"@, "raw_kobo_store_token"@) {
                Some(raw) => TokenFormView::Store(raw),
                None => TokenFormView::Unknown,
            },
            None => TokenFormView::Unknown,
        }
    } else {
        TokenFormView::Store(token)
    }
}

/// The text that carries a token whose JSON is given.
pub open spec fn written_token(json: Seq<u8>) -> Seq<char> {
    KOMGA_TOKEN_PREFIX@ + base64_encoded(json)
}

impl KomgaSyncToken {
    /// The text that carries a token, given the token's JSON.
    pub fn to_base64(json: &[u8]) -> (r: String)
        ensures
            r@ == written_token(json@),
            token_form(r@) == TokenFormView::Own(json@),
    {
        let mut r: String = KOMGA_TOKEN_PREFIX.to_owned();
        let body: String = base64_encode(json);
        r.append(body.as_str());
        proof {
            reveal_strlit("KOMGA.");
            assert(r@.take(6) =~= KOMGA_TOKEN_PREFIX@);
            assert(r@.skip(6) =~= body@);
        }
        r
    }

    /// Finds out what the text of a token is.
    pub fn read_form(token: &str) -> (r: TokenForm)
        ensures
            r.deep_view() == token_form(token@),
    {
        let v: Vec<char> = chars_of(token);
        let p: Vec<char> = chars_of(KOMGA_TOKEN_PREFIX);
        let n: usize = v.len();
        proof {
            reveal_strlit("KOMGA.");
            if v@.len() >= 6 {
                assert(v@.take(6) =~= v@.subrange(0, 6));
            }
        }
        if matches_at(&v, &p, 0) {
            assert(v@.skip(6) =~= v@.subrange(6, n as int));
            let rest: String = string_of(&v, 6, n);
            return match base64_decode(rest.as_str()) {
                Some(json) => TokenForm::Own(json),
                None => TokenForm::Unknown,
            };
        }
        let dot: usize = find_char(&v, 0, '.');
        proof {
            assert(dot < n ==> token@[dot as int] == '.');
            assert(token@.contains('.') ==> dot < n);
        }
        if dot < n {
            return TokenForm::Store(token.to_owned());
        }
        match base64_decode(token) {
            Some(json) => match json_text(json.as_slice(), "data", "raw_kobo_store_token") {
                Some(raw) => TokenForm::Store(raw),
                None => TokenForm::Unknown,
            },
            None => TokenForm::Unknown,
        }
    }

    /// The token that a text stands for, given its form and, for a token of this server, what
    /// its JSON was read as, if it could be read.
    pub fn from_base64(form: TokenForm, own: Option<KomgaSyncToken>) -> (r: KomgaSyncToken)
        ensures
            r.deep_view() == read_token(form.deep_view(), own.deep_view()),
    {
        match form {
            TokenForm::Own(_) => match own {
                Some(token) => token,
                None => KomgaSyncToken::default(),
            },
            TokenForm::Store(raw) => KomgaSyncToken {
                version: token_version(),
                raw_kobo_sync_token: raw,
                ongoing_sync_point_id: None,
                last_successful_sync_point_id: None,
            },
            TokenForm::Unknown => KomgaSyncToken::default(),
        }
    }
}

/// The token that a text of this form stands for.
pub open spec fn read_token(form: TokenFormView, own: Option<TokenView>) -> TokenView {
    match form {
        TokenFormView::Own(_) => match own {
            Some(token) => token,
            None => fresh_token(Seq::empty()),
        },
        TokenFormView::Store(raw) => fresh_token(raw),
        TokenFormView::Unknown => fresh_token(Seq::empty()),
    }
}

/// A token that comes from Kobo's store is kept as it is, for the store, and with it a device syncs for
/// the first time. A token of the library's own is taken as it was written.
pub proof fn tokens_are_taken_for_what_they_are(token: Seq<char>, own: Option<TokenView>)
    ensures
        token.contains('.') && !"KOMGA."@.is_prefix_of(token) ==> read_token(token_form(token), own)
            == (TokenView { version: 1, raw: token, ongoing: None, last: None }),
        token_form(token) is Own && own is Some ==> read_token(token_form(token), own) == own->0,
        token_form(token) is Own ==> "KOMGA."@.is_prefix_of(token),
{
    reveal_strlit("KOMGA.");
    if token.len() >= 6 {
        assert(token.take(6) == token.subrange(0, 6));
    }
}

/// A token of the store that came through another server is the one that it carries.
pub proof fn carried_store_token_is_taken(
    token: Seq<char>,
    json: Seq<u8>,
    own: Option<TokenView>,
)
    requires
        !token.contains('.'),
        base64_decoded(token) == Some(json),
    ensures
        json_text_at(json, "data"@, "raw_kobo_store_token"@) is Some ==> read_token(
            token_form(token),
            own,
        ) == (TokenView {
            version: 1,
            raw: json_text_at(json, "data"@, "raw_kobo_store_token"@)->0,
            ongoing: None,
            last: None,
        }),
        json_text_at(json, "data"@, "raw_kobo_store_token"@) is None ==> token_form(token) is Unknown,
{
    reveal_strlit("KOMGA.");
    if token.len() >= 6 && token.take(6) == KOMGA_TOKEN_PREFIX@ {
        assert(token.take(6)[5] == '.');
        assert(token.contains(token[5]));
    }
}

// ---- who may sync ----

/// The API key in a path `/kobo/{key}/..`, if there is one.
pub open spec fn path_api_key(path: Seq<char>) -> Option<Seq<char>> {
    let parts = crate::text::split(path, '/');
    if parts.len() > 2 && parts[2].len() > 0 {
        Some(parts[2])
    } else {
        None
    }
}

/// The key of a request stands between the second slash and the next, and only there.
pub proof fn api_key_stands_in_the_path(key: Seq<char>, rest: Seq<char>)
    requires
        key.len() > 0,
        !key.contains('/'),
    ensures
        path_api_key("/kobo/"@ + key + seq!['/'] + rest) == Some(key),
        path_api_key("/kobo/"@ + key) == Some(key),
        path_api_key("/kobo/"@ + seq!['/'] + rest) is None,
        path_api_key(key) is None,
{
    reveal_strlit("/kobo/");
    let none = Seq::<char>::empty();
    let word = seq!['k', 'o', 'b', 'o'];
    let tail = key + seq!['/'] + rest;
    let slashed = none + seq!['/'] + rest;
    crate::text::parts_stand_between_separators(key, '/', rest);
    crate::text::parts_stand_between_separators(none, '/', rest);
    crate::text::parts_stand_between_separators(word, '/', tail);
    crate::text::parts_stand_between_separators(word, '/', key);
    crate::text::parts_stand_between_separators(word, '/', slashed);
    crate::text::parts_stand_between_separators(none, '/', word + seq!['/'] + tail);
    crate::text::parts_stand_between_separators(none, '/', word + seq!['/'] + key);
    crate::text::parts_stand_between_separators(none, '/', word + seq!['/'] + slashed);
    assert("/kobo/"@ + key + seq!['/'] + rest =~= none + seq!['/'] + (word + seq!['/'] + tail));
    assert("/kobo/"@ + key =~= none + seq!['/'] + (word + seq!['/'] + key));
    assert("/kobo/"@ + seq!['/'] + rest =~= none + seq!['/'] + (word + seq!['/'] + slashed));
}

/// Takes the API key from a request's path; without one the request is unauthorized.
pub fn api_key_of_path(path: &str) -> (r: Result<String, ApiError>)
    ensures
        match (r, path_api_key(path@)) {
            (Ok(key), Some(k)) => key@ == k,
            (Err(e), None) => e.deep_view() == crate::error::status_error(401, ""@),
            _ => false,
        },
{
    let parts: Vec<String> = split_at(path, '/');
    if parts.len() > 2 {
        let key: String = parts[2].clone();
        assert(parts.deep_view()[2] == key@);
        if !key.as_str().is_empty() {
            return Ok(key);
        }
    }
    Err(ApiError::unauthorized())
}

/// Lets a request through if its API key is known and the key's user may sync Kobo devices.
pub fn check_api_key(known: bool, kobo_sync_role: bool) -> (r: Result<(), ApiError>)
    ensures
        match r {
            Ok(_) => known && kobo_sync_role,
            Err(e) => e.deep_view() == (if !known {
                crate::error::status_error(401, ""@)
            } else {
                crate::error::status_error(403, ""@)
            }) && !(known && kobo_sync_role),
        },
{
    if !known {
        Err(ApiError::unauthorized())
    } else if !kobo_sync_role {
        Err(ApiError::forbidden(""))
    } else {
        Ok(())
    }
}

/// A sync point counts only for the user it was made for.
pub fn is_own_sync_point(owner: &str, user_id: &str) -> (r: bool)
    ensures
        r == (owner@ == user_id@),
{
    text_eq(owner, user_id)
}

/// Where a sync starts.
#[derive(Debug, PartialEq, Eq)]
pub struct SyncStart {
    /// The sync point to which the device is already on its way; without one a new one is made.
    pub resumed: Option<String>,
    /// The sync point that the device has reached, against which changes are told; without one
    /// everything is.
    pub from: Option<String>,
}

/// A [`SyncStart`] by its texts.
#[verifier::ext_equal]
pub struct StartView {
    pub resumed: Option<Seq<char>>,
    pub from: Option<Seq<char>>,
}

impl DeepView for SyncStart {
    type V = StartView;

    open spec fn deep_view(&self) -> StartView {
        StartView { resumed: self.resumed.deep_view(), from: self.from.deep_view() }
    }
}

/// A sync point that a token names, given whom the stored sync point of that id belongs to, if there
/// is one: it counts only for its owner.
pub open spec fn own_point(id: Option<Seq<char>>, owner: Option<Seq<char>>, user: Seq<char>) -> Option<
    Seq<char>,
> {
    if owner == Some(user) {
        id
    } else {
        None
    }
}

/// A sync point counts for the user that it was made for, and for nobody else.
pub proof fn sync_point_is_its_owners(id: Seq<char>, owner: Option<Seq<char>>, user: Seq<char>)
    ensures
        own_point(Some(id), Some(user), user) == Some(id),
        owner is None || owner->0 != user ==> own_point(Some(id), owner, user) is None,
        own_point(None, owner, user) is None,
{
}

fn take_own_point(id: &Option<String>, owner: &Option<String>, user_id: &str) -> (r: Option<String>)
    ensures
        r.deep_view() == own_point(id.deep_view(), owner.deep_view(), user_id@),
{
    let own: bool = match owner {
        Some(o) => is_own_sync_point(o.as_str(), user_id),
        None => false,
    };
    match id {
        Some(i) => if own {
            Some(i.clone())
        } else {
            None
        },
        None => None,
    }
}

/// Decides where a sync starts, from the token that the device sends and whom the stored sync points
/// that it names belong to.
pub fn start_sync(
    received: &KomgaSyncToken,
    ongoing_owner: &Option<String>,
    last_owner: &Option<String>,
    user_id: &str,
) -> (r: SyncStart)
    ensures
        r.deep_view() == (StartView {
            resumed: own_point(
                received.deep_view().ongoing,
                ongoing_owner.deep_view(),
                user_id@,
            ),
            from: own_point(received.deep_view().last, last_owner.deep_view(), user_id@),
        }),
{
    SyncStart {
        resumed: take_own_point(&received.ongoing_sync_point_id, ongoing_owner, user_id),
        from: take_own_point(&received.last_successful_sync_point_id, last_owner, user_id),
    }
}

// ---- which pages a sync fetches ----

/// What a page of a sync holds.
#[derive(Clone, Copy, Debug, PartialEq, Eq, Structural)]
pub enum SyncStage {
    BooksAdded,
    BooksChanged,
    BooksRemoved,
    ProgressChanged,
    ReadListsAdded,
    ReadListsChanged,
    ReadListsRemoved,
    Books,
    ReadLists,
}

/// The pages of a sync, in the order they are fetched: what changed since the last sync point, or
/// everything if there is none.
pub open spec fn stages(incremental: bool) -> Seq<SyncStage> {
    if incremental {
        seq![
            SyncStage::BooksAdded,
            SyncStage::BooksChanged,
            SyncStage::BooksRemoved,
            SyncStage::ProgressChanged,
            SyncStage::ReadListsAdded,
            SyncStage::ReadListsChanged,
            SyncStage::ReadListsRemoved,
        ]
    } else {
        seq![SyncStage::Books, SyncStage::ReadLists]
    }
}

/// A sync on its way through its pages.
#[derive(Clone, Copy, Debug, PartialEq, Eq)]
pub struct SyncRun {
    /// Whether the device has synced before.
    pub incremental: bool,
    /// How many pages were fetched or passed over.
    pub passed: u8,
    /// How many items may still be sent.
    pub remaining: u32,
    /// Whether the page fetched last was the last of its kind.
    pub last: bool,
    /// Whether any page left items for a later sync.
    pub more: bool,
}

/// The index of the page to fetch next. The first is always fetched. After that, a page is fetched
/// only while items may be sent, and the one right after an unfinished page is passed over.
pub open spec fn upcoming(run: SyncRun) -> Option<int> {
    let k = if run.passed == 0 || run.last {
        run.passed as int
    } else {
        run.passed + 1
    };
    if (run.passed > 0 && run.remaining == 0) || k >= stages(run.incremental).len() {
        None
    } else {
        Some(k)
    }
}

/// The run after its next page came back with so many items.
pub open spec fn after_page(run: SyncRun, elements: u32, has_next: bool) -> SyncRun {
    SyncRun {
        incremental: run.incremental,
        passed: (upcoming(run)->0 + 1) as u8,
        remaining: if elements >= run.remaining {
            0
        } else {
            (run.remaining - elements) as u32
        },
        last: !has_next,
        more: run.more || has_next,
    }
}

/// A run at its start.
pub open spec fn first_run(incremental: bool, limit: u32) -> SyncRun {
    SyncRun { incremental, passed: 0, remaining: limit, last: true, more: false }
}

impl SyncRun {
    /// Starts a sync of at most `limit` items.
    pub fn start(incremental: bool, limit: u32) -> (r: SyncRun)
        ensures
            r == first_run(incremental, limit),
    {
        SyncRun { incremental, passed: 0, remaining: limit, last: true, more: false }
    }

    /// The page to fetch next, and how many items to ask for.
    pub fn next(&self) -> (r: Option<(SyncStage, u32)>)
        ensures
            r == (match upcoming(*self) {
                Some(k) => Some((stages(self.incremental)[k], self.remaining)),
                None => None,
            }),
            match r {
                Some((stage, limit)) => limit == self.remaining && stages(
                    self.incremental,
                ).contains(stage),
                None => self.passed > 0,
            },
    {
        if self.passed > 0 && self.remaining == 0 {
            return None;
        }
        let p: u16 = self.passed as u16;
        let k: u16 = if self.passed == 0 || self.last { p } else { p + 1 };
        let stage: SyncStage = if self.incremental {
            match k {
                0 => SyncStage::BooksAdded,
                1 => SyncStage::BooksChanged,
                2 => SyncStage::BooksRemoved,
                3 => SyncStage::ProgressChanged,
                4 => SyncStage::ReadListsAdded,
                5 => SyncStage::ReadListsChanged,
                6 => SyncStage::ReadListsRemoved,
                _ => {
                    return None;
                },
            }
        } else {
            match k {
                0 => SyncStage::Books,
                1 => SyncStage::ReadLists,
                _ => {
                    return None;
                },
            }
        };
        Some((stage, self.remaining))
    }

    /// Takes note of the page that `next` asked for: how many items it held, and whether more of
    /// its kind are left.
    pub fn absorb(&mut self, elements: u32, has_next: bool)
        requires
            upcoming(*old(self)) is Some,
        ensures
            *final(self) == after_page(*old(self), elements, has_next),
    {
        let k: u8 = if self.passed == 0 || self.last { self.passed } else { self.passed + 1 };
        self.passed = k + 1;
        self.remaining = if elements >= self.remaining { 0 } else { self.remaining - elements };
        self.last = !has_next;
        self.more = self.more || has_next;
    }
}

/// The run after pages came back, each as its number of items and whether more are left.
pub open spec fn run_after(run: SyncRun, pages: Seq<(u32, bool)>) -> SyncRun
    decreases pages.len(),
{
    if pages.len() == 0 {
        run
    } else {
        let r = run_after(run, pages.drop_last());
        after_page(r, pages.last().0, pages.last().1)
    }
}

/// These pages can have come back: each was asked for, and held no more than was asked for.
pub open spec fn answers(run: SyncRun, pages: Seq<(u32, bool)>) -> bool
    decreases pages.len(),
{
    pages.len() > 0 ==> {
        let r = run_after(run, pages.drop_last());
        &&& answers(run, pages.drop_last())
        &&& upcoming(r) is Some
        &&& pages.last().0 <= r.remaining
    }
}

/// The number of items on these pages.
pub open spec fn items_sent(pages: Seq<(u32, bool)>) -> int
    decreases pages.len(),
{
    if pages.len() == 0 {
        0
    } else {
        items_sent(pages.drop_last()) + pages.last().0
    }
}

/// One sync sends at most as many items as its limit, whatever the pages hold.
pub proof fn sync_keeps_to_its_limit(incremental: bool, limit: u32, pages: Seq<(u32, bool)>)
    requires
        answers(first_run(incremental, limit), pages),
    ensures
        items_sent(pages) + run_after(first_run(incremental, limit), pages).remaining == limit,
        items_sent(pages) <= limit,
    decreases pages.len(),
{
    if pages.len() > 0 {
        sync_keeps_to_its_limit(incremental, limit, pages.drop_last());
    }
}

/// A sync fetches every kind of page at most once, in order, so it comes to an end.
pub proof fn sync_moves_forward(run: SyncRun, elements: u32, has_next: bool)
    requires
        upcoming(run) is Some,
    ensures
        match upcoming(after_page(run, elements, has_next)) {
            Some(k) => upcoming(run)->0 < k < stages(run.incremental).len(),
            None => true,
        },
{
}

/// A sync is told to go on exactly if some page left items behind.
pub proof fn sync_goes_on_iff_some_page_is_unfinished(
    incremental: bool,
    limit: u32,
    pages: Seq<(u32, bool)>,
)
    ensures
        run_after(first_run(incremental, limit), pages).more <==> (exists|i: int|
            0 <= i < pages.len() && (#[trigger] pages[i]).1),
    decreases pages.len(),
{
    if pages.len() > 0 {
        let init = pages.drop_last();
        sync_goes_on_iff_some_page_is_unfinished(incremental, limit, init);
        if exists|i: int| 0 <= i < init.len() && (#[trigger] init[i]).1 {
            let i = choose|i: int| 0 <= i < init.len() && (#[trigger] init[i]).1;
            assert(pages[i].1);
        }
        if exists|i: int| 0 <= i < pages.len() && (#[trigger] pages[i]).1 {
            let i = choose|i: int| 0 <= i < pages.len() && (#[trigger] pages[i]).1;
            if i < init.len() {
                assert(init[i].1);
            }
        }
    }
}

/// A sync against an earlier one asks for what was added, changed and removed, of books, of reading
/// states and of read lists; a first sync asks for the books and the read lists.
pub proof fn sync_knows_all_stages(incremental: bool, stage: SyncStage)
    ensures
        stages(incremental).contains(stage) <==> (incremental <==> stage != SyncStage::Books && stage
            != SyncStage::ReadLists),
        stages(incremental).no_duplicates(),
{
    let all = stages(incremental);
    if incremental {
        assert(all[0] == SyncStage::BooksAdded && all[1] == SyncStage::BooksChanged && all[2]
            == SyncStage::BooksRemoved && all[3] == SyncStage::ProgressChanged && all[4]
            == SyncStage::ReadListsAdded && all[5] == SyncStage::ReadListsChanged && all[6]
            == SyncStage::ReadListsRemoved);
    } else {
        assert(all[0] == SyncStage::Books && all[1] == SyncStage::ReadLists);
    }
}

/// A sync whose pages are all the last of their stage, and which has not reached its limit, asks for
/// one stage after the other until it has asked for all of them.
pub proof fn sync_asks_for_every_stage(incremental: bool, limit: u32, pages: Seq<(u32, bool)>)
    requires
        limit > 0,
        pages.len() <= stages(incremental).len(),
        forall|i: int| 0 <= i < pages.len() ==> !(#[trigger] pages[i]).1,
        items_sent(pages) < limit,
    ensures
        upcoming(run_after(first_run(incremental, limit), pages)) == (if pages.len() < stages(
            incremental,
        ).len() {
            Some(pages.len() as int)
        } else {
            None
        }),
        run_after(first_run(incremental, limit), pages).remaining == limit - items_sent(pages),
        !run_after(first_run(incremental, limit), pages).more,
    decreases pages.len(),
{
    lemma_stages_passed(incremental, limit, pages);
}

proof fn lemma_stages_passed(incremental: bool, limit: u32, pages: Seq<(u32, bool)>)
    requires
        limit > 0,
        pages.len() <= stages(incremental).len(),
        forall|i: int| 0 <= i < pages.len() ==> !(#[trigger] pages[i]).1,
        items_sent(pages) < limit,
    ensures
        ({
            let run = run_after(first_run(incremental, limit), pages);
            &&& run.incremental == incremental
            &&& run.passed == pages.len()
            &&& run.last
            &&& !run.more
            &&& run.remaining == limit - items_sent(pages)
        }),
    decreases pages.len(),
{
    if pages.len() > 0 {
        let init = pages.drop_last();
        assert forall|i: int| 0 <= i < init.len() implies !(#[trigger] init[i]).1 by {
            assert(init[i] == pages[i]);
        }
        assert(!pages[pages.len() - 1].1);
        lemma_stages_passed(incremental, limit, init);
    }
}

// ---- what a sync answers ----

/// The ids on the pages of a sync. An initial sync has its books under `added` and its read lists
/// under `tags_added`.
#[derive(Debug, PartialEq, Eq)]
pub struct SyncPages {
    pub added: Vec<String>,
    pub changed: Vec<String>,
    pub removed: Vec<String>,
    pub progressed: Vec<String>,
    pub tags_added: Vec<String>,
    pub tags_changed: Vec<String>,
    pub tags_removed: Vec<String>,
}

/// The ids on the pages of a sync, by their texts.
#[verifier::ext_equal]
pub struct SyncPagesView {
    pub added: Seq<Seq<char>>,
    pub changed: Seq<Seq<char>>,
    pub removed: Seq<Seq<char>>,
    pub progressed: Seq<Seq<char>>,
    pub tags_added: Seq<Seq<char>>,
    pub tags_changed: Seq<Seq<char>>,
    pub tags_removed: Seq<Seq<char>>,
}

impl DeepView for SyncPages {
    type V = SyncPagesView;

    open spec fn deep_view(&self) -> SyncPagesView {
        SyncPagesView {
            added: self.added.deep_view(),
            changed: self.changed.deep_view(),
            removed: self.removed.deep_view(),
            progressed: self.progressed.deep_view(),
            tags_added: self.tags_added.deep_view(),
            tags_changed: self.tags_changed.deep_view(),
            tags_removed: self.tags_removed.deep_view(),
        }
    }
}

/// What a sync tells the device about one book or read list.
#[derive(Clone, Copy, Debug, PartialEq, Eq, Structural)]
pub enum SyncKind {
    NewEntitlement,
    ChangedProductMetadata,
    ChangedEntitlement,
    ChangedReadingState,
    NewTag,
    ChangedTag,
    DeletedTag,
}

/// One entry of a sync's answer.
#[derive(Debug, PartialEq, Eq)]
pub struct SyncItem {
    pub kind: SyncKind,
    pub id: String,
    /// Whether the entry carries the reading state that is stored for the book. An entitlement
    /// without one carries the state of an unread book.
    pub with_progress: bool,
}

/// A [`SyncItem`] by its texts.
#[verifier::ext_equal]
pub struct SyncItemView {
    pub kind: SyncKind,
    pub id: Seq<char>,
    pub with_progress: bool,
}

impl DeepView for SyncItem {
    type V = SyncItemView;

    open spec fn deep_view(&self) -> SyncItemView {
        SyncItemView { kind: self.kind, id: self.id@, with_progress: self.with_progress }
    }
}

/// Whether entries of this kind carry a reading state.
pub open spec fn has_reading_state(kind: SyncKind) -> bool {
    kind == SyncKind::NewEntitlement || kind == SyncKind::ChangedReadingState
}

/// One entry of this kind for each id.
pub open spec fn entries(
    kind: SyncKind,
    ids: Seq<Seq<char>>,
    progress: Seq<Seq<char>>,
) -> Seq<SyncItemView> {
    Seq::new(
        ids.len(),
        |i: int|
            SyncItemView {
                kind,
                id: ids[i],
                with_progress: has_reading_state(kind) && progress.contains(ids[i]),
            },
    )
}

/// A sync's answer: added and changed books as new, then the metadata of changed books, removed
/// books, the reading states that are stored for changed books and for books whose progress
/// changed, and the read lists added, changed and removed.
pub open spec fn sync_answer(p: SyncPagesView, progress: Seq<Seq<char>>) -> Seq<SyncItemView> {
    entries(SyncKind::NewEntitlement, p.added, progress)
        + entries(SyncKind::NewEntitlement, p.changed, progress)
        + entries(SyncKind::ChangedProductMetadata, p.changed, progress)
        + entries(SyncKind::ChangedEntitlement, p.removed, progress)
        + entries(
        SyncKind::ChangedReadingState,
        p.changed.filter(|id: Seq<char>| progress.contains(id)),
        progress,
    ) + entries(
        SyncKind::ChangedReadingState,
        p.progressed.filter(|id: Seq<char>| progress.contains(id)),
        progress,
    ) + entries(SyncKind::NewTag, p.tags_added, progress)
        + entries(SyncKind::ChangedTag, p.tags_changed, progress)
        + entries(SyncKind::DeletedTag, p.tags_removed, progress)
}

/// Appends one entry for each id; of reading states, only those that are stored.
fn push_entries(
    out: &mut Vec<SyncItem>,
    kind: SyncKind,
    ids: &Vec<String>,
    stored_only: bool,
    progress: &Vec<String>,
)
    ensures
        final(out).deep_view() == old(out).deep_view() + entries(
            kind,
            if stored_only {
                ids.deep_view().filter(|id: Seq<char>| progress.deep_view().contains(id))
            } else {
                ids.deep_view()
            },
            progress.deep_view(),
        ),
{
    let ghost all = ids.deep_view();
    let ghost p = progress.deep_view();
    let ghost keep = |id: Seq<char>| progress.deep_view().contains(id);
    let ghost start = out.deep_view();
    let mut i: usize = 0;
    proof {
        reveal(Seq::filter);
        assert(all.take(0) =~= Seq::<Seq<char>>::empty());
        assert(all.take(0).filter(keep) =~= Seq::<Seq<char>>::empty());
        assert(start =~= start + entries(kind, Seq::<Seq<char>>::empty(), p));
    }
    while i < ids.len()
        invariant
            i <= ids.len(),
            all == ids.deep_view(),
            p == progress.deep_view(),
            keep == (|id: Seq<char>| progress.deep_view().contains(id)),
            out.deep_view() == start + entries(
                kind,
                if stored_only {
                    all.take(i as int).filter(keep)
                } else {
                    all.take(i as int)
                },
                p,
            ),
        decreases ids.len() - i,
    {
        let id: String = ids[i].clone();
        let found: bool = has_text(progress, id.as_str());
        let ghost before = all.take(i as int);
        let ghost sofar = out.deep_view();
        proof {
            assert(id@ == all[i as int]);
            assert(all.take(i as int + 1) =~= before.push(id@));
            before.lemma_filter_push(id@, keep);
        }
        if !stored_only || found {
            let with_progress: bool = found && (kind == SyncKind::NewEntitlement || kind
                == SyncKind::ChangedReadingState);
            out.push(SyncItem { kind, id, with_progress });
            proof {
                let kept = if stored_only {
                    before.filter(keep)
                } else {
                    before
                };
                let item = SyncItemView { kind, id: id@, with_progress };
                assert(out.deep_view() =~= sofar.push(item));
                assert(entries(kind, kept.push(id@), p) =~= entries(kind, kept, p).push(item));
                assert(sofar.push(item) =~= start + entries(kind, kept.push(id@), p));
            }
        }
        i += 1;
    }
    assert(all.take(all.len() as int) =~= all);
}

/// Puts together what a sync answers, given its pages and the ids of the books that have a stored
/// reading state.
pub fn sync_items(pages: &SyncPages, progress: &Vec<String>) -> (r: Vec<SyncItem>)
    ensures
        r.deep_view() == sync_answer(pages.deep_view(), progress.deep_view()),
        tells_everything(r.deep_view(), pages.deep_view(), progress.deep_view()),
{
    proof {
        sync_tells_everything(pages.deep_view(), progress.deep_view());
    }
    let mut out: Vec<SyncItem> = Vec::new();
    push_entries(&mut out, SyncKind::NewEntitlement, &pages.added, false, progress);
    assert(out.deep_view() =~= entries(
        SyncKind::NewEntitlement,
        pages.added.deep_view(),
        progress.deep_view(),
    ));
    push_entries(&mut out, SyncKind::NewEntitlement, &pages.changed, false, progress);
    push_entries(&mut out, SyncKind::ChangedProductMetadata, &pages.changed, false, progress);
    push_entries(&mut out, SyncKind::ChangedEntitlement, &pages.removed, false, progress);
    push_entries(&mut out, SyncKind::ChangedReadingState, &pages.changed, true, progress);
    push_entries(&mut out, SyncKind::ChangedReadingState, &pages.progressed, true, progress);
    push_entries(&mut out, SyncKind::NewTag, &pages.tags_added, false, progress);
    push_entries(&mut out, SyncKind::ChangedTag, &pages.tags_changed, false, progress);
    push_entries(&mut out, SyncKind::DeletedTag, &pages.tags_removed, false, progress);
    out
}

/// Appends copies of strings.
fn push_texts(out: &mut Vec<String>, ids: &Vec<String>)
    ensures
        final(out).deep_view() == old(out).deep_view() + ids.deep_view(),
{
    let ghost start = out.deep_view();
    let mut i: usize = 0;
    assert(start =~= start + ids.deep_view().take(0));
    while i < ids.len()
        invariant
            i <= ids.len(),
            out.deep_view() == start + ids.deep_view().take(i as int),
        decreases ids.len() - i,
    {
        let ghost sofar = out.deep_view();
        out.push(ids[i].clone());
        assert(out.deep_view() =~= sofar.push(ids.deep_view()[i as int]));
        assert(out.deep_view() =~= start + ids.deep_view().take(i as int + 1));
        i += 1;
    }
    assert(ids.deep_view().take(ids.len() as int) =~= ids.deep_view());
}

/// The books whose metadata an answer needs.
pub open spec fn metadata_wanted(p: SyncPagesView) -> Seq<Seq<char>> {
    p.added + p.changed
}

/// The books whose reading state an answer needs.
pub open spec fn progress_wanted(p: SyncPagesView) -> Seq<Seq<char>> {
    p.added + p.changed + p.progressed
}

/// The read lists whose books an answer needs.
pub open spec fn tags_wanted(p: SyncPagesView) -> Seq<Seq<char>> {
    p.tags_added + p.tags_changed
}

/// What an answer needs is looked up, and nothing else: the metadata of the books that it tells of as
/// new or changed, the books of the read lists that it tells of as new or changed, and the reading
/// states of all books that it may tell one of.
pub proof fn answer_finds_what_it_needs(p: SyncPagesView, progress: Seq<Seq<char>>, id: Seq<char>)
    ensures
        metadata_wanted(p).contains(id) <==> tells(
            sync_answer(p, progress),
            SyncKind::NewEntitlement,
            id,
        ) || tells(sync_answer(p, progress), SyncKind::ChangedProductMetadata, id),
        tags_wanted(p).contains(id) <==> tells(sync_answer(p, progress), SyncKind::NewTag, id)
            || tells(sync_answer(p, progress), SyncKind::ChangedTag, id),
        progress_wanted(p).contains(id) <==> tells(
            sync_answer(p, seq![id]),
            SyncKind::NewEntitlement,
            id,
        ) || tells(sync_answer(p, seq![id]), SyncKind::ChangedReadingState, id),
{
    sync_tells_everything(p, progress);
    sync_tells_everything(p, seq![id]);
    assert(seq![id][0] == id);
    lemma_in_either(p.added, p.changed, id);
    lemma_in_either(p.added + p.changed, p.progressed, id);
    lemma_in_either(p.tags_added, p.tags_changed, id);
}

impl SyncPages {
    /// The books whose metadata the answer needs.
    pub fn metadata_ids(&self) -> (r: Vec<String>)
        ensures
            r.deep_view() == metadata_wanted(self.deep_view()),
    {
        let mut out: Vec<String> = Vec::new();
        push_texts(&mut out, &self.added);
        push_texts(&mut out, &self.changed);
        assert(out.deep_view() =~= self.deep_view().added + self.deep_view().changed);
        out
    }

    /// The books whose reading state the answer needs.
    pub fn progress_ids(&self) -> (r: Vec<String>)
        ensures
            r.deep_view() == progress_wanted(self.deep_view()),
    {
        let mut out: Vec<String> = self.metadata_ids();
        push_texts(&mut out, &self.progressed);
        out
    }

    /// The read lists whose books the answer needs.
    pub fn tag_ids(&self) -> (r: Vec<String>)
        ensures
            r.deep_view() == tags_wanted(self.deep_view()),
    {
        let mut out: Vec<String> = Vec::new();
        push_texts(&mut out, &self.tags_added);
        push_texts(&mut out, &self.tags_changed);
        assert(out.deep_view() =~= self.deep_view().tags_added + self.deep_view().tags_changed);
        out
    }
}

/// Whether an entry of this kind tells of an id.
pub open spec fn tells(answer: Seq<SyncItemView>, kind: SyncKind, id: Seq<char>) -> bool {
    exists|i: int| 0 <= i < answer.len() && (#[trigger] answer[i]).kind == kind && answer[i].id == id
}

/// The ids that the entries of one kind tell of, in their order.
pub open spec fn told(answer: Seq<SyncItemView>, kind: SyncKind) -> Seq<Seq<char>>
    decreases answer.len(),
{
    if answer.len() == 0 {
        Seq::empty()
    } else if answer.last().kind == kind {
        told(answer.drop_last(), kind).push(answer.last().id)
    } else {
        told(answer.drop_last(), kind)
    }
}

/// Where the entries of a kind stand in an answer.
pub open spec fn turn(kind: SyncKind) -> int {
    match kind {
        SyncKind::NewEntitlement => 0,
        SyncKind::ChangedProductMetadata => 1,
        SyncKind::ChangedEntitlement => 2,
        SyncKind::ChangedReadingState => 3,
        SyncKind::NewTag => 4,
        SyncKind::ChangedTag => 5,
        SyncKind::DeletedTag => 6,
    }
}

proof fn lemma_told_add(a: Seq<SyncItemView>, b: Seq<SyncItemView>, kind: SyncKind)
    ensures
        told(a + b, kind) == told(a, kind) + told(b, kind),
    decreases b.len(),
{
    if b.len() == 0 {
        assert(a + b =~= a);
        assert(told(a, kind) + told(b, kind) =~= told(a, kind));
    } else {
        lemma_told_add(a, b.drop_last(), kind);
        assert((a + b).drop_last() =~= a + b.drop_last());
        assert((a + b).last() == b.last());
        assert(told(a + b, kind) =~= told(a, kind) + told(b, kind));
    }
}

proof fn lemma_told_entries(
    of: SyncKind,
    ids: Seq<Seq<char>>,
    progress: Seq<Seq<char>>,
    kind: SyncKind,
)
    ensures
        told(entries(of, ids, progress), kind) == (if of == kind {
            ids
        } else {
            Seq::empty()
        }),
    decreases ids.len(),
{
    let all = entries(of, ids, progress);
    if ids.len() > 0 {
        lemma_told_entries(of, ids.drop_last(), progress, kind);
        assert(all.drop_last() =~= entries(of, ids.drop_last(), progress));
        if of == kind {
            assert(ids.drop_last().push(ids.last()) =~= ids);
        }
    } else if of == kind {
        assert(told(all, kind) =~= ids);
    }
}

proof fn lemma_told(answer: Seq<SyncItemView>, kind: SyncKind, id: Seq<char>)
    ensures
        tells(answer, kind, id) <==> told(answer, kind).contains(id),
    decreases answer.len(),
{
    if answer.len() > 0 {
        let init = answer.drop_last();
        lemma_told(init, kind, id);
        let before = told(init, kind);
        let now = told(answer, kind);
        if tells(answer, kind, id) {
            let i = choose|i: int|
                0 <= i < answer.len() && (#[trigger] answer[i]).kind == kind && answer[i].id == id;
            if i < init.len() {
                assert(init[i] == answer[i]);
                let k = choose|k: int| 0 <= k < before.len() && before[k] == id;
                assert(now[k] == id);
            } else {
                assert(now[now.len() - 1] == id);
            }
        }
        if now.contains(id) {
            let k = choose|k: int| 0 <= k < now.len() && now[k] == id;
            if k < before.len() {
                assert(before[k] == id);
                let i = choose|i: int|
                    0 <= i < init.len() && (#[trigger] init[i]).kind == kind && init[i].id == id;
                assert(answer[i] == init[i]);
            } else {
                assert(answer[answer.len() - 1].id == id);
            }
        }
    }
}

proof fn lemma_all_told(p: SyncPagesView, progress: Seq<Seq<char>>, kind: SyncKind)
    ensures
        told(sync_answer(p, progress), kind) == (match kind {
            SyncKind::NewEntitlement => p.added + p.changed,
            SyncKind::ChangedProductMetadata => p.changed,
            SyncKind::ChangedEntitlement => p.removed,
            SyncKind::ChangedReadingState => p.changed.filter(
                |id: Seq<char>| progress.contains(id),
            ) + p.progressed.filter(|id: Seq<char>| progress.contains(id)),
            SyncKind::NewTag => p.tags_added,
            SyncKind::ChangedTag => p.tags_changed,
            SyncKind::DeletedTag => p.tags_removed,
        }),
{
    let keep = |id: Seq<char>| progress.contains(id);
    let e1 = entries(SyncKind::NewEntitlement, p.added, progress);
    let e2 = entries(SyncKind::NewEntitlement, p.changed, progress);
    let e3 = entries(SyncKind::ChangedProductMetadata, p.changed, progress);
    let e4 = entries(SyncKind::ChangedEntitlement, p.removed, progress);
    let e5 = entries(SyncKind::ChangedReadingState, p.changed.filter(keep), progress);
    let e6 = entries(SyncKind::ChangedReadingState, p.progressed.filter(keep), progress);
    let e7 = entries(SyncKind::NewTag, p.tags_added, progress);
    let e8 = entries(SyncKind::ChangedTag, p.tags_changed, progress);
    let e9 = entries(SyncKind::DeletedTag, p.tags_removed, progress);
    lemma_told_add(e1, e2, kind);
    lemma_told_add(e1 + e2, e3, kind);
    lemma_told_add(e1 + e2 + e3, e4, kind);
    lemma_told_add(e1 + e2 + e3 + e4, e5, kind);
    lemma_told_add(e1 + e2 + e3 + e4 + e5, e6, kind);
    lemma_told_add(e1 + e2 + e3 + e4 + e5 + e6, e7, kind);
    lemma_told_add(e1 + e2 + e3 + e4 + e5 + e6 + e7, e8, kind);
    lemma_told_add(e1 + e2 + e3 + e4 + e5 + e6 + e7 + e8, e9, kind);
    lemma_told_entries(SyncKind::NewEntitlement, p.added, progress, kind);
    lemma_told_entries(SyncKind::NewEntitlement, p.changed, progress, kind);
    lemma_told_entries(SyncKind::ChangedProductMetadata, p.changed, progress, kind);
    lemma_told_entries(SyncKind::ChangedEntitlement, p.removed, progress, kind);
    lemma_told_entries(SyncKind::ChangedReadingState, p.changed.filter(keep), progress, kind);
    lemma_told_entries(SyncKind::ChangedReadingState, p.progressed.filter(keep), progress, kind);
    lemma_told_entries(SyncKind::NewTag, p.tags_added, progress, kind);
    lemma_told_entries(SyncKind::ChangedTag, p.tags_changed, progress, kind);
    lemma_told_entries(SyncKind::DeletedTag, p.tags_removed, progress, kind);
    let all = told(sync_answer(p, progress), kind);
    match kind {
        SyncKind::NewEntitlement => {
            assert(all =~= p.added + p.changed);
        },
        SyncKind::ChangedReadingState => {
            assert(all =~= p.changed.filter(keep) + p.progressed.filter(keep));
        },
        SyncKind::ChangedProductMetadata => {
            assert(all =~= p.changed);
        },
        SyncKind::ChangedEntitlement => {
            assert(all =~= p.removed);
        },
        SyncKind::NewTag => {
            assert(all =~= p.tags_added);
        },
        SyncKind::ChangedTag => {
            assert(all =~= p.tags_changed);
        },
        SyncKind::DeletedTag => {
            assert(all =~= p.tags_removed);
        },
    }
}

/// Whether an answer tells a device of everything that is on the pages of a sync, and of nothing else:
/// books that were added or changed come as new, changed ones with their metadata, removed ones as
/// gone, and read lists as new, changed or gone; and of the books that were changed or read, those
/// whose reading state is stored come with it.
pub open spec fn tells_everything(
    answer: Seq<SyncItemView>,
    p: SyncPagesView,
    progress: Seq<Seq<char>>,
) -> bool {
    &&& forall|id: Seq<char>| #[trigger]
        tells(answer, SyncKind::NewEntitlement, id) <==> p.added.contains(id) || p.changed.contains(
            id,
        )
    &&& forall|id: Seq<char>| #[trigger]
        tells(answer, SyncKind::ChangedProductMetadata, id) <==> p.changed.contains(id)
    &&& forall|id: Seq<char>| #[trigger]
        tells(answer, SyncKind::ChangedEntitlement, id) <==> p.removed.contains(id)
    &&& forall|id: Seq<char>| #[trigger]
        tells(answer, SyncKind::ChangedReadingState, id) <==> progress.contains(id) && (
        p.changed.contains(id) || p.progressed.contains(id))
    &&& forall|id: Seq<char>| #[trigger]
        tells(answer, SyncKind::NewTag, id) <==> p.tags_added.contains(id)
    &&& forall|id: Seq<char>| #[trigger]
        tells(answer, SyncKind::ChangedTag, id) <==> p.tags_changed.contains(id)
    &&& forall|id: Seq<char>| #[trigger]
        tells(answer, SyncKind::DeletedTag, id) <==> p.tags_removed.contains(id)
}

/// A sync tells a device of everything that is on its pages, and of nothing else.
pub proof fn sync_tells_everything(p: SyncPagesView, progress: Seq<Seq<char>>)
    ensures
        tells_everything(sync_answer(p, progress), p, progress),
{
    let answer = sync_answer(p, progress);
    let keep = |id: Seq<char>| progress.contains(id);
    assert forall|kind: SyncKind, id: Seq<char>| #[trigger] tells(answer, kind, id) <==> told(
        answer,
        kind,
    ).contains(id) by {
        lemma_told(answer, kind, id);
    }
    lemma_all_told(p, progress, SyncKind::NewEntitlement);
    lemma_all_told(p, progress, SyncKind::ChangedProductMetadata);
    lemma_all_told(p, progress, SyncKind::ChangedEntitlement);
    lemma_all_told(p, progress, SyncKind::ChangedReadingState);
    lemma_all_told(p, progress, SyncKind::NewTag);
    lemma_all_told(p, progress, SyncKind::ChangedTag);
    lemma_all_told(p, progress, SyncKind::DeletedTag);
    assert forall|a: Seq<Seq<char>>, b: Seq<Seq<char>>, id: Seq<char>| #[trigger]
        (a + b).contains(id) <==> a.contains(id) || b.contains(id) by {
        lemma_in_either(a, b, id);
    }
    assert forall|a: Seq<Seq<char>>, id: Seq<char>| #[trigger] a.filter(keep).contains(id) <==> (
    a.contains(id) && progress.contains(id)) by {
        lemma_in_filtered(a, progress, id);
    }
}

proof fn lemma_in_either(a: Seq<Seq<char>>, b: Seq<Seq<char>>, id: Seq<char>)
    ensures
        (a + b).contains(id) <==> a.contains(id) || b.contains(id),
{
    let both = a + b;
    if a.contains(id) {
        let i = choose|i: int| 0 <= i < a.len() && a[i] == id;
        assert(both[i] == id);
    }
    if b.contains(id) {
        let i = choose|i: int| 0 <= i < b.len() && b[i] == id;
        assert(both[a.len() + i] == id);
    }
    if both.contains(id) {
        let i = choose|i: int| 0 <= i < both.len() && both[i] == id;
        if i < a.len() {
            assert(a[i] == id);
        } else {
            assert(b[i - a.len()] == id);
        }
    }
}

proof fn lemma_in_filtered(a: Seq<Seq<char>>, progress: Seq<Seq<char>>, id: Seq<char>)
    ensures
        a.filter(|id: Seq<char>| progress.contains(id)).contains(id) <==> a.contains(id)
            && progress.contains(id),
    decreases a.len(),
{
    let keep = |id: Seq<char>| progress.contains(id);
    reveal(Seq::filter);
    if a.len() > 0 {
        let init = a.drop_last();
        lemma_in_filtered(init, progress, id);
        assert(init.push(a.last()) =~= a);
        init.lemma_filter_push(a.last(), keep);
        lemma_in_either(init, seq![a.last()], id);
        assert(init + seq![a.last()] =~= a);
        assert(seq![a.last()].contains(id) <==> a.last() == id) by {
            assert(seq![a.last()][0] == a.last());
        }
        if keep(a.last()) {
            assert(a.filter(keep) =~= init.filter(keep) + seq![a.last()]);
            lemma_in_either(init.filter(keep), seq![a.last()], id);
        }
    }
}

/// A sync tells of each book and read list as often as it is on a page, in the order of the pages: the
/// books first, then their metadata, the removed ones, the reading states, and the read lists. The
/// stored reading state goes with the entries that carry one.
pub proof fn sync_tells_in_order(p: SyncPagesView, progress: Seq<Seq<char>>)
    ensures
        ({
            let answer = sync_answer(p, progress);
            &&& told(answer, SyncKind::NewEntitlement) == p.added + p.changed
            &&& told(answer, SyncKind::ChangedProductMetadata) == p.changed
            &&& told(answer, SyncKind::ChangedEntitlement) == p.removed
            &&& told(answer, SyncKind::ChangedReadingState) == p.changed.filter(
                |id: Seq<char>| progress.contains(id),
            ) + p.progressed.filter(|id: Seq<char>| progress.contains(id))
            &&& told(answer, SyncKind::NewTag) == p.tags_added
            &&& told(answer, SyncKind::ChangedTag) == p.tags_changed
            &&& told(answer, SyncKind::DeletedTag) == p.tags_removed
            &&& forall|i: int, j: int|
                0 <= i <= j < answer.len() ==> turn((#[trigger] answer[i]).kind) <= turn(
                    (#[trigger] answer[j]).kind,
                )
            &&& forall|i: int|
                0 <= i < answer.len() ==> ((#[trigger] answer[i]).with_progress <==> (
                answer[i].kind == SyncKind::NewEntitlement || answer[i].kind
                    == SyncKind::ChangedReadingState) && progress.contains(answer[i].id))
        }),
{
    lemma_all_told(p, progress, SyncKind::NewEntitlement);
    lemma_all_told(p, progress, SyncKind::ChangedProductMetadata);
    lemma_all_told(p, progress, SyncKind::ChangedEntitlement);
    lemma_all_told(p, progress, SyncKind::ChangedReadingState);
    lemma_all_told(p, progress, SyncKind::NewTag);
    lemma_all_told(p, progress, SyncKind::ChangedTag);
    lemma_all_told(p, progress, SyncKind::DeletedTag);
}

/// Every reading state that an answer asks for is one that was looked up.
pub proof fn answer_asks_only_for_known_progress(p: SyncPagesView, progress: Seq<Seq<char>>, i: int)
    requires
        0 <= i < sync_answer(p, progress).len(),
        sync_answer(p, progress)[i].with_progress,
    ensures
        progress.contains(sync_answer(p, progress)[i].id),
{
}

// ---- books on a read list ----

/// A book that a read list holds.
#[derive(Debug, PartialEq, Eq)]
pub struct ReadListBook {
    pub readlist_id: String,
    pub book_id: String,
}

/// A read list's entry as the device knows it.
#[derive(Debug, PartialEq, Eq)]
pub struct TagItemDto {
    pub revision_id: String,
    pub type_: String,
}

/// The books of one read list, in the order of the rows.
pub open spec fn books_on(rows: Seq<ReadListBook>, readlist_id: Seq<char>) -> Seq<Seq<char>>
    decreases rows.len(),
{
    if rows.len() == 0 {
        Seq::empty()
    } else {
        let init = books_on(rows.drop_last(), readlist_id);
        if rows.last().readlist_id@ == readlist_id {
            init.push(rows.last().book_id@)
        } else {
            init
        }
    }
}

/// The books of a read list are exactly those that a row puts on it.
pub proof fn read_list_has_the_books_on_it(rows: Seq<ReadListBook>, readlist_id: Seq<char>, book: Seq<char>)
    ensures
        books_on(rows, readlist_id).contains(book) <==> exists|i: int|
            0 <= i < rows.len() && (#[trigger] rows[i]).readlist_id@ == readlist_id && rows[i].book_id@
                == book,
    decreases rows.len(),
{
    if rows.len() > 0 {
        let init = rows.drop_last();
        read_list_has_the_books_on_it(init, readlist_id, book);
        let before = books_on(init, readlist_id);
        let now = books_on(rows, readlist_id);
        if now.contains(book) {
            let k = choose|k: int| 0 <= k < now.len() && now[k] == book;
            if k < before.len() {
                assert(before[k] == book);
                let i = choose|i: int|
                    0 <= i < init.len() && (#[trigger] init[i]).readlist_id@ == readlist_id
                        && init[i].book_id@ == book;
                assert(rows[i] == init[i]);
            } else {
                assert(rows[rows.len() - 1].book_id@ == book);
            }
        }
        if exists|i: int|
            0 <= i < rows.len() && (#[trigger] rows[i]).readlist_id@ == readlist_id
                && rows[i].book_id@ == book {
            let i = choose|i: int|
                0 <= i < rows.len() && (#[trigger] rows[i]).readlist_id@ == readlist_id
                    && rows[i].book_id@ == book;
            if i < init.len() {
                assert(init[i] == rows[i]);
                let k = choose|k: int| 0 <= k < before.len() && before[k] == book;
                assert(now[k] == book);
            } else {
                assert(now[now.len() - 1] == book);
            }
        }
    }
}

/// These items stand for these books.
pub open spec fn items_for(items: Seq<TagItemDto>, books: Seq<Seq<char>>) -> bool {
    &&& items.len() == books.len()
    &&& forall|i: int|
        0 <= i < items.len() ==> (#[trigger] items[i]).revision_id@ == books[i] && items[i].type_@
            == "ProductRevisionTagItem"@
}

/// The items of one read list, or nothing where no row speaks of it.
pub fn tag_items(rows: &Vec<ReadListBook>, readlist_id: &str) -> (r: Option<Vec<TagItemDto>>)
    ensures
        match r {
            Some(items) => items.len() > 0 && items_for(items@, books_on(rows@, readlist_id@)),
            None => books_on(rows@, readlist_id@).len() == 0,
        },
{
    let mut items: Vec<TagItemDto> = Vec::new();
    let mut i: usize = 0;
    while i < rows.len()
        invariant
            i <= rows.len(),
            items_for(items@, books_on(rows@.take(i as int), readlist_id@)),
        decreases rows.len() - i,
    {
        assert(rows@.take(i as int + 1).drop_last() =~= rows@.take(i as int));
        if text_eq(rows[i].readlist_id.as_str(), readlist_id) {
            items.push(
                TagItemDto {
                    revision_id: rows[i].book_id.clone(),
                    type_: "ProductRevisionTagItem".to_owned(),
                },
            );
        }
        i += 1;
    }
    assert(rows@.take(rows.len() as int) =~= rows@);
    if items.len() == 0 {
        None
    } else {
        Some(items)
    }
}

// ---- how a sync ends ----

/// What is left to do when the answer of a sync is complete.
#[derive(Debug, PartialEq, Eq)]
pub struct SyncEnd {
    /// The token the device gets.
    pub token: KomgaSyncToken,
    /// Whether the device is told to sync again at once.
    pub continues: bool,
    /// Whether the sync point that the device had is given up.
    pub drop_previous: bool,
}

/// The device's token after a sync to the sync point `to`: while items are left the device stays
/// on the way to `to`, and when none are it has reached it.
pub open spec fn token_after(token: TokenView, to: Seq<char>, more: bool) -> TokenView {
    if more {
        TokenView { ongoing: Some(to), ..token }
    } else {
        TokenView { ongoing: None, last: Some(to), ..token }
    }
}

/// Ends a sync.
pub fn end_sync(received: KomgaSyncToken, to: &str, had_previous: bool, more: bool) -> (r: SyncEnd)
    ensures
        r.token.deep_view() == token_after(received.deep_view(), to@, more),
        r.continues == more,
        r.drop_previous == (had_previous && !more),
{
    let mut token: KomgaSyncToken = received;
    if more {
        token.ongoing_sync_point_id = Some(to.to_owned());
    } else {
        token.ongoing_sync_point_id = None;
        token.last_successful_sync_point_id = Some(to.to_owned());
    }
    SyncEnd { token, continues: more, drop_previous: had_previous && !more }
}

/// A device that is told to go on comes back with the same sync points and so resumes the same
/// sync; one that is done comes back with the sync point it reached.
pub proof fn next_sync_resumes_or_moves_on(token: TokenView, to: Seq<char>, more: bool)
    ensures
        more ==> token_after(token, to, more).ongoing == Some(to) && token_after(token, to, more).last
            == token.last,
        !more ==> token_after(token, to, more).ongoing is None && token_after(token, to, more).last
            == Some(to),
        token_after(token, to, more).raw == token.raw,
        token_after(token_after(token, to, true), to, false) == token_after(token, to, false),
{
}

/// Whom the sync point that a token names belongs to, if there is one among those that are stored.
pub open spec fn owner_among(points: Map<Seq<char>, Seq<char>>, id: Option<Seq<char>>) -> Option<
    Seq<char>,
> {
    if id is Some && points.contains_key(id->0) {
        Some(points[id->0])
    } else {
        None
    }
}

/// Where a sync starts, given the stored sync points with their owners.
pub open spec fn start_among(points: Map<Seq<char>, Seq<char>>, token: TokenView, user: Seq<char>) -> StartView {
    StartView {
        resumed: own_point(token.ongoing, owner_among(points, token.ongoing), user),
        from: own_point(token.last, owner_among(points, token.last), user),
    }
}

/// The sync points that are stored after a sync to `to`: that one is, and the one that the device had
/// is given up when nothing is left to tell.
pub open spec fn points_after(
    points: Map<Seq<char>, Seq<char>>,
    user: Seq<char>,
    to: Seq<char>,
    from: Option<Seq<char>>,
    more: bool,
) -> Map<Seq<char>, Seq<char>> {
    let kept = points.insert(to, user);
    if from is Some && !more {
        kept.remove(from->0)
    } else {
        kept
    }
}

/// A user's device that syncs twice, the second time with the token that it got: exactly if it is told
/// to go on does it resume the same sync point, so that none is made, against the same one that it had.
/// Else it has reached the sync point, the one that it had is gone, and the next sync makes a new one
/// and tells the changes against the one that was reached.
pub proof fn second_sync_goes_on_from_the_first(
    points: Map<Seq<char>, Seq<char>>,
    token: TokenView,
    user: Seq<char>,
    to: Seq<char>,
    more: bool,
)
    requires
        match start_among(points, token, user).resumed {
            Some(resumed) => to == resumed,
            None => !points.contains_key(to),
        },
        !more ==> start_among(points, token, user).from != Some(to),
    ensures
        ({
            let first = start_among(points, token, user);
            let answer = token_after(token, to, more);
            let stored = points_after(points, user, to, first.from, more);
            let second = start_among(stored, answer, user);
            &&& more <==> answer.ongoing == Some(to)
            &&& more <==> second.resumed == Some(to)
            &&& more <==> second.resumed is Some
            &&& more ==> answer.last == token.last
            &&& more && (first.resumed is Some || token.last != Some(to)) ==> second.from
                == first.from
            &&& more && first.from is Some ==> stored.contains_key(first.from->0)
            &&& !more ==> answer.ongoing is None && answer.last == Some(to) && second.from == Some(to)
            &&& !more && first.from is Some ==> !stored.contains_key(first.from->0)
            &&& answer.version == token.version && answer.raw == token.raw
        }),
{
}

// ---- book metadata ----

/// The file formats a device can be offered.
#[derive(Clone, Copy, Debug, PartialEq, Eq, Structural)]
pub enum FormatDto {
    Kepub,
    Epub3fl,
    Epub3,
}

/// Where a device downloads a book.
#[derive(Debug, PartialEq, Eq)]
pub struct DownloadUrlDto {
    pub drm_type: String,
    pub format: FormatDto,
    pub size: i64,
    pub platform: String,
    pub url: String,
}

/// A [`DownloadUrlDto`] by its texts.
#[verifier::ext_equal]
pub struct DownloadUrlView {
    pub drm_type: Seq<char>,
    pub format: FormatDto,
    pub size: i64,
    pub platform: Seq<char>,
    pub url: Seq<char>,
}

impl DeepView for DownloadUrlDto {
    type V = DownloadUrlView;

    open spec fn deep_view(&self) -> DownloadUrlView {
        DownloadUrlView {
            drm_type: self.drm_type@,
            format: self.format,
            size: self.size,
            platform: self.platform@,
            url: self.url@,
        }
    }
}

/// A price.
#[derive(Debug, PartialEq, Eq)]
pub struct AmountDto {
    pub currency_code: Option<String>,
    pub total_amount: i32,
}

/// Someone who contributed to a book.
#[derive(Debug, PartialEq, Eq)]
pub struct ContributorDto {
    pub name: String,
}

/// Who published a book.
#[derive(Debug, PartialEq, Eq)]
pub struct PublisherDto {
    pub imprint: String,
    pub name: String,
}

/// What a device is told about a book. `S` describes the series, `D` is the publication date.
#[derive(Debug, PartialEq, Eq)]
pub struct KoboBookMetadataDto<S, D> {
    pub categories: Vec<String>,
    pub contributor_roles: Vec<ContributorDto>,
    pub contributors: Vec<String>,
    pub cover_image_id: Option<String>,
    pub cross_revision_id: String,
    pub current_display_price: AmountDto,
    pub current_love_display_price: AmountDto,
    pub description: Option<String>,
    pub download_urls: Vec<DownloadUrlDto>,
    pub entitlement_id: String,
    pub external_ids: Vec<String>,
    pub genre: String,
    pub is_eligible_for_kobo_love: bool,
    pub is_internet_archive: bool,
    pub is_pre_order: bool,
    pub is_social_enabled: bool,
    pub isbn: Option<String>,
    pub language: String,
    pub phonetic_pronunciations: Vec<(String, String)>,
    pub publication_date: Option<D>,
    pub publisher: Option<PublisherDto>,
    pub revision_id: String,
    pub series: Option<S>,
    pub slug: Option<String>,
    pub sub_title: Option<String>,
    pub title: String,
    pub work_id: String,
    pub is_kepub: bool,
    pub is_pre_paginated: bool,
    pub file_size: i64,
}

/// The format in which a book is offered: a fixed layout needs no conversion, and what is no
/// Kepub already is offered as EPUB.
pub open spec fn offered_format(is_pre_paginated: bool, is_kepub: bool) -> FormatDto {
    if is_pre_paginated {
        FormatDto::Epub3fl
    } else if is_kepub {
        FormatDto::Kepub
    } else {
        FormatDto::Epub3
    }
}

/// A book with a fixed layout is offered as such, whatever else it is; one that flows is offered in
/// Kobo's own format exactly if it is in it.
pub proof fn format_is_that_of_the_book(is_pre_paginated: bool, is_kepub: bool)
    ensures
        offered_format(is_pre_paginated, is_kepub) == FormatDto::Epub3fl <==> is_pre_paginated,
        offered_format(is_pre_paginated, is_kepub) == FormatDto::Kepub <==> !is_pre_paginated
            && is_kepub,
        offered_format(is_pre_paginated, is_kepub) == FormatDto::Epub3 <==> !is_pre_paginated
            && !is_kepub,
{
}

/// How a book is offered for download.
pub open spec fn download_offer<S, D>(metadata: KoboBookMetadataDto<S, D>, download_base: Seq<char>) -> DownloadUrlView {
    DownloadUrlView {
        drm_type: "None"@,
        format: offered_format(metadata.is_pre_paginated, metadata.is_kepub),
        size: metadata.file_size,
        platform: "Generic"@,
        url: download_base + "/"@ + metadata.entitlement_id@ + "/file/epub?convert_kepub=false"@,
    }
}

/// Where a device downloads books, as it is written.
pub open spec fn download_place(base: Seq<char>, auth_token: Seq<char>) -> Seq<char> {
    base + "/kobo/"@ + auth_token + "/v1/books"@
}

/// A book is offered at its own address below the key of the device, in its own size, for any device and
/// without protection.
pub proof fn book_is_offered_at_its_address<S, D>(
    metadata: KoboBookMetadataDto<S, D>,
    base: Seq<char>,
    auth_token: Seq<char>,
)
    ensures
        download_offer(metadata, download_place(base, auth_token)).url == base + "/kobo/"@ + auth_token
            + "/v1/books"@ + "/"@ + metadata.entitlement_id@ + "/file/epub?convert_kepub=false"@,
        download_offer(metadata, base).size == metadata.file_size,
        download_offer(metadata, base).drm_type == "None"@,
        download_offer(metadata, base).platform == "Generic"@,
        metadata.is_pre_paginated ==> download_offer(metadata, base).format == FormatDto::Epub3fl,
        !metadata.is_pre_paginated && metadata.is_kepub ==> download_offer(metadata, base).format
            == FormatDto::Kepub,
        !metadata.is_pre_paginated && !metadata.is_kepub ==> download_offer(metadata, base).format
            == FormatDto::Epub3,
{
}

/// Offers a book for download, in one format and unconverted. Nothing else of the metadata changes.
pub fn with_download_urls<S, D>(metadata: KoboBookMetadataDto<S, D>, download_base: &str) -> (r:
    KoboBookMetadataDto<S, D>)
    ensures
        r == (KoboBookMetadataDto { download_urls: r.download_urls, ..metadata }),
        r.download_urls.deep_view() == seq![download_offer(metadata, download_base@)],
{
    let format: FormatDto = if metadata.is_pre_paginated {
        FormatDto::Epub3fl
    } else if metadata.is_kepub {
        FormatDto::Kepub
    } else {
        FormatDto::Epub3
    };
    let mut url: String = download_base.to_owned();
    url.append("/");
    url.append(metadata.entitlement_id.as_str());
    url.append("/file/epub?convert_kepub=false");
    let mut urls: Vec<DownloadUrlDto> = Vec::new();
    urls.push(
        DownloadUrlDto {
            drm_type: "None".to_owned(),
            format,
            size: metadata.file_size,
            platform: "Generic".to_owned(),
            url,
        },
    );
    assert(urls.deep_view() =~= seq![urls[0].deep_view()]);
    let mut r: KoboBookMetadataDto<S, D> = metadata;
    r.download_urls = urls;
    r
}

/// What a device is told about a book that is gone: its id wherever an id or a name is due, and
/// `dummy_id` for its genre and category.
pub fn metadata_for_removed_book<S, D>(book_id: &str, dummy_id: &str) -> (r: KoboBookMetadataDto<
    S,
    D,
>)
    ensures
        r.categories.deep_view() == seq![dummy_id@],
        r.contributor_roles@.len() == 0,
        r.contributors@.len() == 0,
        r.cover_image_id.deep_view() == Some(book_id@),
        r.cross_revision_id@ == book_id@,
        r.current_display_price.currency_code.deep_view() == Some("USD"@),
        r.current_display_price.total_amount == 0,
        r.current_love_display_price.currency_code is None,
        r.current_love_display_price.total_amount == 0,
        r.description is None,
        r.download_urls@.len() == 0,
        r.entitlement_id@ == book_id@,
        r.external_ids@.len() == 0,
        r.genre@ == dummy_id@,
        !r.is_eligible_for_kobo_love,
        !r.is_internet_archive,
        !r.is_pre_order,
        r.is_social_enabled,
        r.isbn is None,
        r.language@ == "en"@,
        r.phonetic_pronunciations@.len() == 0,
        r.publication_date is None,
        r.publisher is None,
        r.revision_id@ == book_id@,
        r.series is None,
        r.slug is None,
        r.sub_title is None,
        r.title@ == book_id@,
        r.work_id@ == book_id@,
        !r.is_kepub,
        !r.is_pre_paginated,
        r.file_size == 0,
{
    let mut categories: Vec<String> = Vec::new();
    categories.push(dummy_id.to_owned());
    assert(categories.deep_view() =~= seq![dummy_id@]);
    KoboBookMetadataDto {
        categories,
        contributor_roles: Vec::new(),
        contributors: Vec::new(),
        cover_image_id: Some(book_id.to_owned()),
        cross_revision_id: book_id.to_owned(),
        current_display_price: AmountDto {
            currency_code: Some("USD".to_owned()),
            total_amount: 0,
        },
        current_love_display_price: AmountDto { currency_code: None, total_amount: 0 },
        description: None,
        download_urls: Vec::new(),
        entitlement_id: book_id.to_owned(),
        external_ids: Vec::new(),
        genre: dummy_id.to_owned(),
        is_eligible_for_kobo_love: false,
        is_internet_archive: false,
        is_pre_order: false,
        is_social_enabled: true,
        isbn: None,
        language: "en".to_owned(),
        phonetic_pronunciations: Vec::new(),
        publication_date: None,
        publisher: None,
        revision_id: book_id.to_owned(),
        series: None,
        slug: None,
        sub_title: None,
        title: book_id.to_owned(),
        work_id: book_id.to_owned(),
        is_kepub: false,
        is_pre_paginated: false,
        file_size: 0,
    }
}

/// Where a device downloads books.
pub fn download_url_base(base: &str, auth_token: &str) -> (r: String)
    ensures
        r@ == download_place(base@, auth_token@),
{
    let mut r: String = base.to_owned();
    r.append("/kobo/");
    r.append(auth_token);
    r.append("/v1/books");
    r
}

/// The resources of the store that this server takes the place of, as they are written.
pub open spec fn image_resource_texts(base: Seq<char>, auth_token: Seq<char>) -> Seq<
    (Seq<char>, Seq<char>),
> {
    seq![
        ("image_host"@, base + "/"@),
        (
            "image_url_template"@,
            base + "/kobo/"@ + auth_token
                + "/v1/books/{ImageId}/thumbnail/{Width}/{Height}/false/image.jpg"@,
        ),
        (
            "image_url_quality_template"@,
            base + "/kobo/"@ + auth_token
                + "/v1/books/{ImageId}/thumbnail/{Width}/{Height}/{Quality}/{IsGreyscale}/image.jpg"@,
        ),
    ]
}

/// A device gets its images from this server, below its own key; each of its resources is named once.
pub proof fn images_come_from_this_server(base: Seq<char>, auth_token: Seq<char>)
    ensures
        image_resource_texts(base, auth_token).len() == 3,
        image_resource_texts(base, auth_token).contains(("image_host"@, base + "/"@)),
        image_resource_texts(base, auth_token).contains(
            (
                "image_url_template"@,
                base + "/kobo/"@ + auth_token
                    + "/v1/books/{ImageId}/thumbnail/{Width}/{Height}/false/image.jpg"@,
            ),
        ),
        image_resource_texts(base, auth_token).contains(
            (
                "image_url_quality_template"@,
                base + "/kobo/"@ + auth_token
                    + "/v1/books/{ImageId}/thumbnail/{Width}/{Height}/{Quality}/{IsGreyscale}/image.jpg"@,
            ),
        ),
{
    let all = image_resource_texts(base, auth_token);
    assert(all[0].0 == "image_host"@);
    assert(all[1].0 == "image_url_template"@);
    assert(all[2].0 == "image_url_quality_template"@);
}

/// The resources of the store that this server takes the place of, by name: where a device gets
/// its images.
pub fn image_resources(base: &str, auth_token: &str) -> (r: Vec<(String, String)>)
    ensures
        r.deep_view() == image_resource_texts(base@, auth_token@),
{
    let mut host: String = base.to_owned();
    host.append("/");
    let mut template: String = base.to_owned();
    template.append("/kobo/");
    template.append(auth_token);
    let mut quality: String = template.clone();
    template.append("/v1/books/{ImageId}/thumbnail/{Width}/{Height}/false/image.jpg");
    quality.append(
        "/v1/books/{ImageId}/thumbnail/{Width}/{Height}/{Quality}/{IsGreyscale}/image.jpg",
    );
    let mut r: Vec<(String, String)> = Vec::new();
    r.push(("image_host".to_owned(), host));
    r.push(("image_url_template".to_owned(), template));
    r.push(("image_url_quality_template".to_owned(), quality));
    assert(r.deep_view() =~= seq![r[0].deep_view(), r[1].deep_view(), r[2].deep_view()]);
    r
}

// ---- random keys ----

/// The digit, small letter or capital letter for a number.
pub open spec fn alphanumeric_for(h: u64) -> char {
    let v = h % 62;
    if v < 10 {
        (48 + v) as char
    } else if v < 36 {
        (97 + v - 10) as char
    } else {
        (65 + v - 36) as char
    }
}

/// A letter or a digit.
pub open spec fn is_alphanumeric(c: char) -> bool {
    '0' <= c <= '9' || 'a' <= c <= 'z' || 'A' <= c <= 'Z'
}

/// Keys are made of all letters and digits alike: sixty-two numbers in a row give each of them once.
pub proof fn every_letter_and_digit_can_come(g: u64, h: u64, c: char)
    ensures
        is_alphanumeric(alphanumeric_for(h)),
        alphanumeric_for(g) == alphanumeric_for(h) <==> g % 62 == h % 62,
        is_alphanumeric(c) ==> exists|n: u64| #[trigger] alphanumeric_for(n) == c,
{
    if is_alphanumeric(c) {
        let n: u64 = if '0' <= c <= '9' {
            (c as u32 - 48) as u64
        } else if 'a' <= c <= 'z' {
            (c as u32 - 87) as u64
        } else {
            (c as u32 - 29) as u64
        };
        assert(alphanumeric_for(n) == c);
    }
}

/// Turns a number into a letter or a digit.
pub fn alphanumeric_char(h: u64) -> (r: char)
    ensures
        r == alphanumeric_for(h),
        is_alphanumeric(r),
{
    let v: u8 = (h % 62) as u8;
    if v < 10 {
        (48 + v) as char
    } else if v < 36 {
        (97 + v - 10) as char
    } else {
        (65 + v - 36) as char
    }
}

/// The hash that a `std::collections::hash_map::RandomState` of its own gives for nothing: a
/// number that may differ from call to call.
#[verifier::external_body]
fn random_u64() -> (r: u64) {
    std::hash::BuildHasher::hash_one(&std::collections::hash_map::RandomState::new(), ())
}

/// A key of `n` letters and digits.
pub open spec fn is_key(s: Seq<char>, n: nat) -> bool {
    s.len() == n && forall|i: int| 0 <= i < n ==> is_alphanumeric(#[trigger] s[i])
}

/// A random key of `n` letters and digits.
pub fn random_alphanumeric(n: usize) -> (r: String)
    ensures
        is_key(r@, n as nat),
{
    let mut r: String = String::new();
    let mut i: usize = 0;
    while i < n
        invariant
            i <= n,
            r@.len() == i,
            forall|k: int| 0 <= k < i ==> is_alphanumeric(#[trigger] r@[k]),
        decreases n - i,
    {
        r.push(alphanumeric_char(random_u64()));
        i += 1;
    }
    r
}

/// What a device gets with which it authenticates itself.
#[derive(Debug, PartialEq, Eq)]
pub struct AuthDto {
    pub access_token: String,
    pub refresh_token: String,
    pub token_type: String,
    pub tracking_id: String,
    pub user_key: String,
}

/// Lets a device authenticate itself: it gets new keys, and the user key that it sent.
pub fn auth_device(user_key: Option<String>) -> (r: AuthDto)
    ensures
        is_key(r.access_token@, 24),
        is_key(r.refresh_token@, 24),
        r.token_type@ == "Bearer"@,
        crate::oauth2::is_random_uuid(r.tracking_id@),
        r.user_key@ == (match user_key.deep_view() {
            Some(key) => key,
            None => ""@,
        }),
{
    AuthDto {
        access_token: random_alphanumeric(24),
        refresh_token: random_alphanumeric(24),
        token_type: "Bearer".to_owned(),
        tracking_id: random_uuid(),
        user_key: match user_key {
            Some(key) => key,
            None => "".to_owned(),
        },
    }
}

// ---- reading state ----

/// The span that a location names, if the location is of the kind that names one.
pub open spec fn named_span(location_type: Option<Seq<char>>, value: Option<Seq<char>>) -> Option<
    Seq<char>,
> {
    if location_type is Some && crate::text::ascii_lowered(location_type->0)
        == crate::text::ascii_lowered("kobospan"@) {
        value
    } else {
        None
    }
}

/// Takes the span that a location names.
pub fn kobo_span(location_type: &Option<String>, value: &Option<String>) -> (r: Option<String>)
    ensures
        r.deep_view() == named_span(location_type.deep_view(), value.deep_view()),
{
    match location_type {
        Some(t) => {
            if eq_ignore_case(t.as_str(), "kobospan") {
                match value {
                    Some(v) => Some(v.clone()),
                    None => None,
                }
            } else {
                None
            }
        },
        None => None,
    }
}

/// A text, or `unknown` where there is none.
pub fn or_unknown(text: &Option<String>) -> (r: String)
    ensures
        r@ == (match text.deep_view() {
            Some(t) => t,
            None => "unknown"@,
        }),
{
    match text {
        Some(t) => t.clone(),
        None => "unknown".to_owned(),
    }
}

/// The last of a book's positions, which is where a finished book is taken to be: devices report
/// the first.
pub fn finished_position(positions: usize) -> (r: Result<usize, ApiError>)
    ensures
        match r {
            Ok(i) => positions > 0 && i == positions - 1,
            Err(e) => positions == 0 && e.deep_view() == ErrorView::Internal(
                "Epub extension not found"@,
            ),
        },
{
    if positions == 0 {
        Err(ApiError::internal("Epub extension not found"))
    } else {
        Ok(positions - 1)
    }
}

/// Where a device says that a user is in a book.
#[derive(Debug, PartialEq, Eq)]
pub struct KoboLocation {
    pub source: String,
    pub type_: Option<String>,
    pub value: Option<String>,
}

/// A reading state that a device sends. How far into the resource the user is, is a number that
/// does not matter here; whether it is given does.
#[derive(Debug, PartialEq, Eq)]
pub struct StateUpdate {
    pub location: Option<KoboLocation>,
    pub has_percent: bool,
    pub status: String,
}

/// The place in a book that a reading state stands for.
#[derive(Debug, PartialEq, Eq)]
pub enum StatePlace {
    /// At the last of the book's positions.
    Position(usize),
    /// In a resource, at a span if one is named.
    Resource { href: String, kobo_span: Option<String> },
}

/// A [`StatePlace`] by its texts.
#[verifier::ext_equal]
pub enum StatePlaceView {
    Position(int),
    Resource { href: Seq<char>, kobo_span: Option<Seq<char>> },
}

impl DeepView for StatePlace {
    type V = StatePlaceView;

    open spec fn deep_view(&self) -> StatePlaceView {
        match self {
            StatePlace::Position(i) => StatePlaceView::Position(*i as int),
            StatePlace::Resource { href, kobo_span } => StatePlaceView::Resource {
                href: href@,
                kobo_span: kobo_span.deep_view(),
            },
        }
    }
}

/// What is sent has a state, and the state has a place.
pub open spec fn has_place(update: Option<StateUpdate>) -> bool {
    update is Some && update->0.location is Some && update->0.has_percent
}

/// A reading state that says where the user is, and that the book is finished. The book's positions
/// matter for no other.
pub open spec fn finished(update: Option<StateUpdate>) -> bool {
    has_place(update) && update->0.status@ == "Finished"@
}

/// Tests whether a reading state with a place says that the book is finished.
pub fn is_finished(update: &Option<StateUpdate>) -> (r: bool)
    ensures
        r == finished(*update),
{
    match update {
        Some(u) => u.location.is_some() && u.has_percent && text_eq(u.status.as_str(), "Finished"),
        None => false,
    }
}

/// The place that a reading state stands for: the last position of a finished book, of which there
/// must be some, and where the device says in any other.
pub open spec fn state_place(update: Option<StateUpdate>, positions: usize) -> Result<
    StatePlaceView,
    ErrorView,
> {
    if !has_place(update) {
        Err(crate::error::status_error(400, ""@))
    } else if finished(update) {
        if positions == 0 {
            Err(ErrorView::Internal("Epub extension not found"@))
        } else {
            Ok(StatePlaceView::Position(positions - 1))
        }
    } else {
        let location = update->0.location->0;
        Ok(
            StatePlaceView::Resource {
                href: location.source@,
                kobo_span: named_span(location.type_.deep_view(), location.value.deep_view()),
            },
        )
    }
}

/// A device that reports no place is refused. One that has finished a book is at its last position,
/// whichever place it reports, and any other is in the resource that it reports.
pub proof fn finished_book_is_at_its_end(update: StateUpdate, positions: usize)
    ensures
        state_place(None, positions) is Err,
        update.location is None || !update.has_percent <==> state_place(Some(update), positions)
            == Err::<StatePlaceView, ErrorView>(crate::error::status_error(400, ""@)),
        update.location is Some && update.has_percent && update.status@ == "Finished"@ && positions
            > 0 ==> state_place(Some(update), positions) == Ok::<StatePlaceView, ErrorView>(
            StatePlaceView::Position(positions - 1),
        ),
        update.location is Some && update.has_percent && update.status@ != "Finished"@ ==> (
        match state_place(Some(update), positions) {
            Ok(StatePlaceView::Resource { href, kobo_span }) => href
                == update.location->0.source@ && (kobo_span is Some ==> kobo_span
                == update.location->0.value.deep_view()) && (kobo_span is Some
                <==> update.location->0.value is Some && update.location->0.type_ is Some
                && crate::text::ascii_lowered(update.location->0.type_->0@)
                == crate::text::ascii_lowered("kobospan"@)),
            _ => false,
        }),
{
}

/// Takes the place that a reading state stands for, given the number of the book's known positions.
pub fn update_state(update: &Option<StateUpdate>, positions: usize) -> (r: Result<
    StatePlace,
    ApiError,
>)
    ensures
        match (r, state_place(*update, positions)) {
            (Ok(place), Ok(v)) => place.deep_view() == v,
            (Err(e), Err(v)) => e.deep_view() == v,
            _ => false,
        },
{
    if is_finished(update) {
        return match finished_position(positions) {
            Ok(i) => Ok(StatePlace::Position(i)),
            Err(e) => Err(e),
        };
    }
    match update {
        Some(u) => match (&u.location, u.has_percent) {
            (Some(location), true) => Ok(
                StatePlace::Resource {
                    href: location.source.clone(),
                    kobo_span: kobo_span(&location.type_, &location.value),
                },
            ),
            _ => Err(ApiError::bad_request("")),
        },
        None => Err(ApiError::bad_request("")),
    }
}

/// Refuses a download that asks for a conversion, which is not available.
pub fn check_conversion(convert_kepub: &Option<String>) -> (r: Result<(), ApiError>)
    ensures
        match r {
            Ok(_) => !(convert_kepub is Some && crate::text::ascii_lowered(
                convert_kepub.deep_view()->0,
            ) == crate::text::ascii_lowered("true"@)),
            Err(e) => convert_kepub is Some && crate::text::ascii_lowered(
                convert_kepub.deep_view()->0,
            ) == crate::text::ascii_lowered("true"@) && e.deep_view()
                == crate::error::status_error(503, "Kepub conversion failed"@),
        },
{
    match convert_kepub {
        Some(v) => {
            if eq_ignore_case(v.as_str(), "true") {
                return Err(ApiError::status(503, "Kepub conversion failed"));
            }
        },
        None => {},
    }
    Ok(())
}

} // verus!
