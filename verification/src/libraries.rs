//! Libraries: who sees them, and what may be changed about them.
use vstd::prelude::*;

use crate::error::{status_error, violation, ApiError, ErrorView, Violation, ViolationView};
use crate::sorting::{stable_order, TextKey};
use crate::text::{blank, chars_of, has_text, lowercase};

verus! {

/// How often a library is scanned.
#[derive(Clone, Copy, Debug, PartialEq, Eq, Structural)]
pub enum ScanInterval {
    Disabled,
    Hourly,
    Every6h,
    Every12h,
    Daily,
    Weekly,
}

/// Which book gives a series its cover.
#[derive(Clone, Copy, Debug, PartialEq, Eq, Structural)]
pub enum SeriesCover {
    First,
    FirstUnreadOrFirst,
    FirstUnreadOrLast,
    Last,
}

/// What is imported into a library.
#[derive(Clone, Copy, Debug, PartialEq, Eq, Structural)]
pub struct ImportSettings {
    pub comicinfo_book: bool,
    pub comicinfo_series: bool,
    pub comicinfo_collection: bool,
    pub comicinfo_readlist: bool,
    pub comicinfo_series_append_volume: bool,
    pub epub_book: bool,
    pub epub_series: bool,
    pub mylar_series: bool,
    pub local_artwork: bool,
    pub barcode_isbn: bool,
}

/// How a library is scanned.
#[derive(Clone, Copy, Debug, PartialEq, Eq, Structural)]
pub struct ScanSettings {
    pub force_modified_time: bool,
    pub on_startup: bool,
    pub interval: ScanInterval,
    pub cbx: bool,
    pub pdf: bool,
    pub epub: bool,
}

/// What is done with the files of a library.
#[derive(Clone, Copy, Debug, PartialEq, Eq, Structural)]
pub struct FileSettings {
    pub repair_extensions: bool,
    pub convert_to_cbz: bool,
    pub empty_trash_after_scan: bool,
    pub series_cover: SeriesCover,
    pub hash_files: bool,
    pub hash_pages: bool,
    pub hash_koreader: bool,
    pub analyze_dimensions: bool,
}

/// A change of [`ImportSettings`]: what is not given stays.
#[derive(Clone, Copy, Debug, PartialEq, Eq, Structural)]
pub struct ImportUpdate {
    pub comicinfo_book: Option<bool>,
    pub comicinfo_series: Option<bool>,
    pub comicinfo_collection: Option<bool>,
    pub comicinfo_readlist: Option<bool>,
    pub comicinfo_series_append_volume: Option<bool>,
    pub epub_book: Option<bool>,
    pub epub_series: Option<bool>,
    pub mylar_series: Option<bool>,
    pub local_artwork: Option<bool>,
    pub barcode_isbn: Option<bool>,
}

/// A change of [`ScanSettings`]: what is not given stays.
#[derive(Clone, Copy, Debug, PartialEq, Eq, Structural)]
pub struct ScanUpdate {
    pub force_modified_time: Option<bool>,
    pub on_startup: Option<bool>,
    pub interval: Option<ScanInterval>,
    pub cbx: Option<bool>,
    pub pdf: Option<bool>,
    pub epub: Option<bool>,
}

/// A change of [`FileSettings`]: what is not given stays.
#[derive(Clone, Copy, Debug, PartialEq, Eq, Structural)]
pub struct FileUpdate {
    pub repair_extensions: Option<bool>,
    pub convert_to_cbz: Option<bool>,
    pub empty_trash_after_scan: Option<bool>,
    pub series_cover: Option<SeriesCover>,
    pub hash_files: Option<bool>,
    pub hash_pages: Option<bool>,
    pub hash_koreader: Option<bool>,
    pub analyze_dimensions: Option<bool>,
}

/// A library. `D` is a point in time.
#[derive(Debug, PartialEq, Eq)]
pub struct Library<D> {
    pub id: String,
    pub name: String,
    pub root: String,
    pub import: ImportSettings,
    pub scan: ScanSettings,
    pub files: FileSettings,
    pub scan_directory_exclusions: Vec<String>,
    pub oneshots_directory: Option<String>,
    pub unavailable_date: Option<D>,
    pub created_date: D,
    pub last_modified_date: D,
}

/// What a library is created with.
#[derive(Debug, PartialEq, Eq)]
pub struct LibraryCreationDto {
    pub name: String,
    pub root: String,
    pub import: ImportSettings,
    pub scan: ScanSettings,
    pub files: FileSettings,
    pub scan_directory_exclusions: Vec<String>,
    pub oneshots_directory: Option<String>,
}

/// What is to change about a library: what is not given stays. The directories to exclude and the
/// directory of one-shots can be given as nothing, which clears them.
#[derive(Debug, PartialEq, Eq)]
pub struct LibraryUpdateDto {
    pub name: Option<String>,
    pub root: Option<String>,
    pub import: ImportUpdate,
    pub scan: ScanUpdate,
    pub files: FileUpdate,
    pub scan_directory_exclusions: Option<Option<Vec<String>>>,
    pub oneshots_directory: Option<Option<String>>,
}

/// Builds the violation of a field that must not be blank.
pub fn blank_violation(field: &str, message: &str) -> (r: Violation)
    ensures
        r.deep_view() == (ViolationView { field_name: field@, message: message@ }),
{
    violation(field, message)
}

/// Why a library could not be stored: the request's fault, or the server's.
#[derive(Debug, PartialEq, Eq)]
pub struct LibraryError {
    pub validation: bool,
    pub message: String,
}

/// What a request is answered when a library could not be stored.
pub fn map_library_error(e: LibraryError) -> (r: ApiError)
    ensures
        r.deep_view() == (if e.validation {
            status_error(400, e.message@)
        } else {
            ErrorView::Internal(e.message@)
        }),
{
    if e.validation {
        ApiError::bad_request(e.message.as_str())
    } else {
        ApiError::Internal(e.message)
    }
}

// ---- what may be stored ----

/// What is wrong with a name and a root of which those given must not be blank.
pub open spec fn blank_fields(name: Option<Seq<char>>, root: Option<Seq<char>>, message: Seq<char>) -> Seq<
    ViolationView,
> {
    let first = if name is Some && crate::text::is_blank(name->0) {
        seq![ViolationView { field_name: "name"@, message }]
    } else {
        Seq::empty()
    };
    if root is Some && crate::text::is_blank(root->0) {
        first.push(ViolationView { field_name: "root"@, message })
    } else {
        first
    }
}

/// A name is told of exactly if it is given and blank, and so is a root, and nothing else is.
pub proof fn blank_fields_are_told(name: Option<Seq<char>>, root: Option<Seq<char>>, message: Seq<char>)
    ensures
        ({
            let v = blank_fields(name, root, message);
            let told = |field: Seq<char>|
                exists|i: int| 0 <= i < v.len() && (#[trigger] v[i]).field_name == field;
            &&& told("name"@) <==> name is Some && crate::text::is_blank(name->0)
            &&& told("root"@) <==> root is Some && crate::text::is_blank(root->0)
            &&& forall|i: int| 0 <= i < v.len() ==> (#[trigger] v[i]).message == message
            &&& v.len() == (if told("name"@) {
                1int
            } else {
                0
            }) + (if told("root"@) {
                1int
            } else {
                0
            })
        }),
{
    reveal_strlit("name");
    reveal_strlit("root");
    assert("name"@.len() == 4 && "root"@.len() == 4 && "name"@[0] == 'n' && "root"@[0] == 'r');
    let v = blank_fields(name, root, message);
    if name is Some && crate::text::is_blank(name->0) {
        assert(v[0].field_name == "name"@);
    }
    if root is Some && crate::text::is_blank(root->0) {
        assert(v[v.len() - 1].field_name == "root"@);
    }
}

fn check_blank(name: Option<&String>, root: Option<&String>, message: &str) -> (r: Result<(), ApiError>)
    ensures
        ({
            let wrong = blank_fields(name.deep_view(), root.deep_view(), message@);
            match r {
                Ok(_) => wrong.len() == 0,
                Err(e) => wrong.len() > 0 && e.deep_view() == ErrorView::Violations(wrong),
            }
        }),
{
    let mut violations: Vec<Violation> = Vec::new();
    assert(violations.deep_view() =~= Seq::empty());
    match name {
        Some(n) => {
            if blank(n.as_str()) {
                violations.push(blank_violation("name", message));
                assert(violations.deep_view() =~= seq![violations[0].deep_view()]);
            }
        },
        None => {},
    }
    let ghost sofar = violations.deep_view();
    match root {
        Some(n) => {
            if blank(n.as_str()) {
                let v: Violation = blank_violation("root", message);
                violations.push(v);
                assert(violations.deep_view() =~= sofar.push(v.deep_view()));
            }
        },
        None => {},
    }
    assert(violations.deep_view().len() == violations.len());
    if violations.len() > 0 {
        Err(ApiError::Violations(violations))
    } else {
        Ok(())
    }
}

/// Refuses to create a library without a name or a root.
pub fn check_creation(body: &LibraryCreationDto) -> (r: Result<(), ApiError>)
    ensures
        ({
            let wrong = blank_fields(Some(body.name@), Some(body.root@), "must not be blank"@);
            match r {
                Ok(_) => wrong.len() == 0,
                Err(e) => wrong.len() > 0 && e.deep_view() == ErrorView::Violations(wrong),
            }
        }),
{
    check_blank(Some(&body.name), Some(&body.root), "must not be blank")
}

/// Refuses to take a library's name or root away.
pub fn check_update(body: &LibraryUpdateDto) -> (r: Result<(), ApiError>)
    ensures
        ({
            let wrong = blank_fields(
                body.name.deep_view(),
                body.root.deep_view(),
                "Must be null or not blank"@,
            );
            match r {
                Ok(_) => wrong.len() == 0,
                Err(e) => wrong.len() > 0 && e.deep_view() == ErrorView::Violations(wrong),
            }
        }),
{
    check_blank(body.name.as_ref(), body.root.as_ref(), "Must be null or not blank")
}

/// A directory, unless it is blank.
pub open spec fn not_blank(d: Option<String>) -> Option<String> {
    match d {
        Some(s) => if crate::text::is_blank(s@) {
            None
        } else {
            Some(s)
        },
        None => None,
    }
}

fn drop_blank(d: Option<String>) -> (r: Option<String>)
    ensures
        r == not_blank(d),
{
    match d {
        Some(s) => if blank(s.as_str()) {
            None
        } else {
            Some(s)
        },
        None => None,
    }
}

/// The library that a request creates, with the URL of its root.
pub open spec fn created<D>(body: LibraryCreationDto, id: String, root_url: String, now: D) -> Library<D> {
    Library {
        id,
        name: body.name,
        root: root_url,
        import: body.import,
        scan: body.scan,
        files: body.files,
        scan_directory_exclusions: body.scan_directory_exclusions,
        oneshots_directory: not_blank(body.oneshots_directory),
        unavailable_date: None,
        created_date: now,
        last_modified_date: now,
    }
}

/// Creates a library, which gets its id when it is stored.
pub fn create_library<D: Copy>(body: LibraryCreationDto, root_url: String, now: D) -> (r: Library<D>)
    ensures
        r.id@ == Seq::<char>::empty(),
        r == created(body, r.id, root_url, now),
{
    Library {
        id: String::new(),
        name: body.name,
        root: root_url,
        import: body.import,
        scan: body.scan,
        files: body.files,
        scan_directory_exclusions: body.scan_directory_exclusions,
        oneshots_directory: drop_blank(body.oneshots_directory),
        unavailable_date: None,
        created_date: now,
        last_modified_date: now,
    }
}

/// A text that is given, or else the one that is there.
pub open spec fn text_or(given: Option<String>, there: String) -> String {
    match given {
        Some(v) => v,
        None => there,
    }
}

/// A flag that is given, or else the one that is there.
pub open spec fn flag_or(given: Option<bool>, there: bool) -> bool {
    match given {
        Some(v) => v,
        None => there,
    }
}

fn take_flag(given: Option<bool>, there: bool) -> (r: bool)
    ensures
        r == flag_or(given, there),
{
    match given {
        Some(v) => v,
        None => there,
    }
}

/// The settings after a change.
pub open spec fn import_after(there: ImportSettings, given: ImportUpdate) -> ImportSettings {
    ImportSettings {
        comicinfo_book: flag_or(given.comicinfo_book, there.comicinfo_book),
        comicinfo_series: flag_or(given.comicinfo_series, there.comicinfo_series),
        comicinfo_collection: flag_or(given.comicinfo_collection, there.comicinfo_collection),
        comicinfo_readlist: flag_or(given.comicinfo_readlist, there.comicinfo_readlist),
        comicinfo_series_append_volume: flag_or(given.comicinfo_series_append_volume, there.comicinfo_series_append_volume),
        epub_book: flag_or(given.epub_book, there.epub_book),
        epub_series: flag_or(given.epub_series, there.epub_series),
        mylar_series: flag_or(given.mylar_series, there.mylar_series),
        local_artwork: flag_or(given.local_artwork, there.local_artwork),
        barcode_isbn: flag_or(given.barcode_isbn, there.barcode_isbn),
    }
}

fn update_import(there: ImportSettings, given: &ImportUpdate) -> (r: ImportSettings)
    ensures
        r == import_after(there, *given),
{
    ImportSettings {
        comicinfo_book: take_flag(given.comicinfo_book, there.comicinfo_book),
        comicinfo_series: take_flag(given.comicinfo_series, there.comicinfo_series),
        comicinfo_collection: take_flag(given.comicinfo_collection, there.comicinfo_collection),
        comicinfo_readlist: take_flag(given.comicinfo_readlist, there.comicinfo_readlist),
        comicinfo_series_append_volume: take_flag(given.comicinfo_series_append_volume, there.comicinfo_series_append_volume),
        epub_book: take_flag(given.epub_book, there.epub_book),
        epub_series: take_flag(given.epub_series, there.epub_series),
        mylar_series: take_flag(given.mylar_series, there.mylar_series),
        local_artwork: take_flag(given.local_artwork, there.local_artwork),
        barcode_isbn: take_flag(given.barcode_isbn, there.barcode_isbn),
    }
}

/// The settings after a change.
pub open spec fn scan_after(there: ScanSettings, given: ScanUpdate) -> ScanSettings {
    ScanSettings {
        force_modified_time: flag_or(given.force_modified_time, there.force_modified_time),
        on_startup: flag_or(given.on_startup, there.on_startup),
        interval: match given.interval {
            Some(v) => v,
            None => there.interval,
        },
        cbx: flag_or(given.cbx, there.cbx),
        pdf: flag_or(given.pdf, there.pdf),
        epub: flag_or(given.epub, there.epub),
    }
}

fn update_scan(there: ScanSettings, given: &ScanUpdate) -> (r: ScanSettings)
    ensures
        r == scan_after(there, *given),
{
    ScanSettings {
        force_modified_time: take_flag(given.force_modified_time, there.force_modified_time),
        on_startup: take_flag(given.on_startup, there.on_startup),
        interval: match given.interval {
            Some(v) => v,
            None => there.interval,
        },
        cbx: take_flag(given.cbx, there.cbx),
        pdf: take_flag(given.pdf, there.pdf),
        epub: take_flag(given.epub, there.epub),
    }
}

/// The settings after a change.
pub open spec fn file_after(there: FileSettings, given: FileUpdate) -> FileSettings {
    FileSettings {
        repair_extensions: flag_or(given.repair_extensions, there.repair_extensions),
        convert_to_cbz: flag_or(given.convert_to_cbz, there.convert_to_cbz),
        empty_trash_after_scan: flag_or(given.empty_trash_after_scan, there.empty_trash_after_scan),
        series_cover: match given.series_cover {
            Some(v) => v,
            None => there.series_cover,
        },
        hash_files: flag_or(given.hash_files, there.hash_files),
        hash_pages: flag_or(given.hash_pages, there.hash_pages),
        hash_koreader: flag_or(given.hash_koreader, there.hash_koreader),
        analyze_dimensions: flag_or(given.analyze_dimensions, there.analyze_dimensions),
    }
}

fn update_file(there: FileSettings, given: &FileUpdate) -> (r: FileSettings)
    ensures
        r == file_after(there, *given),
{
    FileSettings {
        repair_extensions: take_flag(given.repair_extensions, there.repair_extensions),
        convert_to_cbz: take_flag(given.convert_to_cbz, there.convert_to_cbz),
        empty_trash_after_scan: take_flag(given.empty_trash_after_scan, there.empty_trash_after_scan),
        series_cover: match given.series_cover {
            Some(v) => v,
            None => there.series_cover,
        },
        hash_files: take_flag(given.hash_files, there.hash_files),
        hash_pages: take_flag(given.hash_pages, there.hash_pages),
        hash_koreader: take_flag(given.hash_koreader, there.hash_koreader),
        analyze_dimensions: take_flag(given.analyze_dimensions, there.analyze_dimensions),
    }
}

/// The directories to exclude after a change: given, cleared, or those that are there.
pub open spec fn exclusions_after(
    given: Option<Option<Vec<String>>>,
    none: Vec<String>,
    there: Vec<String>,
) -> Vec<String> {
    match given {
        Some(Some(v)) => v,
        Some(None) => none,
        None => there,
    }
}

/// The directory of one-shots after a change: given, cleared, or the one that is there.
pub open spec fn oneshots_after(given: Option<Option<String>>, there: Option<String>) -> Option<String> {
    match given {
        Some(d) => not_blank(d),
        None => there,
    }
}

/// The library after a change. `none` is the empty list of directories. The id and the dates stay.
pub open spec fn updated<D>(
    there: Library<D>,
    body: LibraryUpdateDto,
    root_url: Option<String>,
    none: Vec<String>,
) -> Library<D> {
    Library {
        id: there.id,
        name: text_or(body.name, there.name),
        root: text_or(root_url, there.root),
        import: import_after(there.import, body.import),
        scan: scan_after(there.scan, body.scan),
        files: file_after(there.files, body.files),
        scan_directory_exclusions: exclusions_after(
            body.scan_directory_exclusions,
            none,
            there.scan_directory_exclusions,
        ),
        oneshots_directory: oneshots_after(body.oneshots_directory, there.oneshots_directory),
        unavailable_date: there.unavailable_date,
        created_date: there.created_date,
        last_modified_date: there.last_modified_date,
    }
}

fn take_text(given: Option<String>, there: String) -> (r: String)
    ensures
        r == text_or(given, there),
{
    match given {
        Some(v) => v,
        None => there,
    }
}

/// Changes a library. The root comes as the URL of the path that is given for it.
pub fn update_library<D>(there: Library<D>, body: LibraryUpdateDto, root_url: Option<String>) -> (r:
    Library<D>)
    ensures
        exists|none: Vec<String>|
            none@.len() == 0 && r == #[trigger] updated(there, body, root_url, none),
{
    let none: Vec<String> = Vec::new();
    let ghost empty = none;
    let exclusions: Vec<String> = match body.scan_directory_exclusions {
        Some(Some(v)) => v,
        Some(None) => none,
        None => there.scan_directory_exclusions,
    };
    let oneshots: Option<String> = match body.oneshots_directory {
        Some(d) => drop_blank(d),
        None => there.oneshots_directory,
    };
    let r: Library<D> = Library {
        id: there.id,
        name: take_text(body.name, there.name),
        root: take_text(root_url, there.root),
        import: update_import(there.import, &body.import),
        scan: update_scan(there.scan, &body.scan),
        files: update_file(there.files, &body.files),
        scan_directory_exclusions: exclusions,
        oneshots_directory: oneshots,
        unavailable_date: there.unavailable_date,
        created_date: there.created_date,
        last_modified_date: there.last_modified_date,
    };
    assert(r == updated(there, body, root_url, empty));
    r
}

/// A change that gives nothing.
pub open spec fn gives_nothing(body: LibraryUpdateDto) -> bool {
    &&& body.name is None
    &&& body.root is None
    &&& body.import == ImportUpdate {
        comicinfo_book: None,
        comicinfo_series: None,
        comicinfo_collection: None,
        comicinfo_readlist: None,
        comicinfo_series_append_volume: None,
        epub_book: None,
        epub_series: None,
        mylar_series: None,
        local_artwork: None,
        barcode_isbn: None,
    }
    &&& body.scan == ScanUpdate {
        force_modified_time: None,
        on_startup: None,
        interval: None,
        cbx: None,
        pdf: None,
        epub: None,
    }
    &&& body.files == FileUpdate {
        repair_extensions: None,
        convert_to_cbz: None,
        empty_trash_after_scan: None,
        series_cover: None,
        hash_files: None,
        hash_pages: None,
        hash_koreader: None,
        analyze_dimensions: None,
    }
    &&& body.scan_directory_exclusions is None
    &&& body.oneshots_directory is None
}

/// A change that gives nothing leaves a library as it is.
pub proof fn empty_update_changes_nothing<D>(there: Library<D>, body: LibraryUpdateDto, none: Vec<String>)
    requires
        gives_nothing(body),
    ensures
        updated(there, body, None, none) == there,
{
}

proof fn lemma_import_twice(there: ImportSettings, given: ImportUpdate)
    ensures
        import_after(import_after(there, given), given) == import_after(there, given),
{
}

proof fn lemma_scan_twice(there: ScanSettings, given: ScanUpdate)
    ensures
        scan_after(scan_after(there, given), given) == scan_after(there, given),
{
}

proof fn lemma_file_twice(there: FileSettings, given: FileUpdate)
    ensures
        file_after(file_after(there, given), given) == file_after(there, given),
{
}

/// A change that is made twice is made once.
#[verifier::spinoff_prover]
pub proof fn update_twice_is_once<D>(
    there: Library<D>,
    body: LibraryUpdateDto,
    root_url: Option<String>,
    none: Vec<String>,
)
    ensures
        updated(updated(there, body, root_url, none), body, root_url, none) == updated(
            there,
            body,
            root_url,
            none,
        ),
{
    lemma_import_twice(there.import, body.import);
    lemma_scan_twice(there.scan, body.scan);
    lemma_file_twice(there.files, body.files);
}

/// Whether a setting is as given, and as it was where it is not given.
pub open spec fn takes<T>(given: Option<T>, before: T, after: T) -> bool {
    (given is Some ==> after == given->0) && (given is None ==> after == before)
}

/// A change sets what it gives, each to its own value, and leaves everything else as it is: the id and
/// the dates always. Directories to exclude, and the directory of one-shots, can also be cleared, and a
/// blank directory clears it.
pub proof fn update_changes_what_is_given<D>(
    there: Library<D>,
    body: LibraryUpdateDto,
    root_url: Option<String>,
    none: Vec<String>,
)
    ensures
        ({
            let after = updated(there, body, root_url, none);
            &&& after.id == there.id
            &&& after.unavailable_date == there.unavailable_date
            &&& after.created_date == there.created_date
            &&& after.last_modified_date == there.last_modified_date
            &&& takes(body.name, there.name, after.name)
            &&& takes(root_url, there.root, after.root)
            &&& takes(body.import.comicinfo_book, there.import.comicinfo_book, after.import.comicinfo_book)
            &&& takes(body.import.comicinfo_series, there.import.comicinfo_series, after.import.comicinfo_series)
            &&& takes(body.import.comicinfo_collection, there.import.comicinfo_collection, after.import.comicinfo_collection)
            &&& takes(body.import.comicinfo_readlist, there.import.comicinfo_readlist, after.import.comicinfo_readlist)
            &&& takes(body.import.comicinfo_series_append_volume, there.import.comicinfo_series_append_volume, after.import.comicinfo_series_append_volume)
            &&& takes(body.import.epub_book, there.import.epub_book, after.import.epub_book)
            &&& takes(body.import.epub_series, there.import.epub_series, after.import.epub_series)
            &&& takes(body.import.mylar_series, there.import.mylar_series, after.import.mylar_series)
            &&& takes(body.import.local_artwork, there.import.local_artwork, after.import.local_artwork)
            &&& takes(body.import.barcode_isbn, there.import.barcode_isbn, after.import.barcode_isbn)
            &&& takes(body.scan.force_modified_time, there.scan.force_modified_time, after.scan.force_modified_time)
            &&& takes(body.scan.on_startup, there.scan.on_startup, after.scan.on_startup)
            &&& takes(body.scan.interval, there.scan.interval, after.scan.interval)
            &&& takes(body.scan.cbx, there.scan.cbx, after.scan.cbx)
            &&& takes(body.scan.pdf, there.scan.pdf, after.scan.pdf)
            &&& takes(body.scan.epub, there.scan.epub, after.scan.epub)
            &&& takes(body.files.repair_extensions, there.files.repair_extensions, after.files.repair_extensions)
            &&& takes(body.files.convert_to_cbz, there.files.convert_to_cbz, after.files.convert_to_cbz)
            &&& takes(body.files.empty_trash_after_scan, there.files.empty_trash_after_scan, after.files.empty_trash_after_scan)
            &&& takes(body.files.series_cover, there.files.series_cover, after.files.series_cover)
            &&& takes(body.files.hash_files, there.files.hash_files, after.files.hash_files)
            &&& takes(body.files.hash_pages, there.files.hash_pages, after.files.hash_pages)
            &&& takes(body.files.hash_koreader, there.files.hash_koreader, after.files.hash_koreader)
            &&& takes(body.files.analyze_dimensions, there.files.analyze_dimensions, after.files.analyze_dimensions)
            &&& body.scan_directory_exclusions is None ==> after.scan_directory_exclusions
                == there.scan_directory_exclusions
            &&& body.scan_directory_exclusions is Some && body.scan_directory_exclusions->0 is Some
                ==> after.scan_directory_exclusions == body.scan_directory_exclusions->0->0
            &&& body.scan_directory_exclusions is Some && body.scan_directory_exclusions->0 is None
                ==> after.scan_directory_exclusions == none
            &&& body.oneshots_directory is None ==> after.oneshots_directory
                == there.oneshots_directory
            &&& body.oneshots_directory is Some ==> (match body.oneshots_directory->0 {
                Some(d) => if crate::text::is_blank(d@) {
                    after.oneshots_directory is None
                } else {
                    after.oneshots_directory == Some(d)
                },
                None => after.oneshots_directory is None,
            })
        }),
{
}

/// A new library is as it was asked for, is available, and was made and changed when it was asked for.
/// A blank directory of one-shots is none.
pub proof fn created_library_is_as_asked<D>(
    body: LibraryCreationDto,
    id: String,
    root_url: String,
    now: D,
)
    ensures
        ({
            let l = created(body, id, root_url, now);
            &&& l.name == body.name
            &&& l.root == root_url
            &&& l.import.comicinfo_book == body.import.comicinfo_book
            &&& l.import.comicinfo_series == body.import.comicinfo_series
            &&& l.import.comicinfo_collection == body.import.comicinfo_collection
            &&& l.import.comicinfo_readlist == body.import.comicinfo_readlist
            &&& l.import.comicinfo_series_append_volume == body.import.comicinfo_series_append_volume
            &&& l.import.epub_book == body.import.epub_book
            &&& l.import.epub_series == body.import.epub_series
            &&& l.import.mylar_series == body.import.mylar_series
            &&& l.import.local_artwork == body.import.local_artwork
            &&& l.import.barcode_isbn == body.import.barcode_isbn
            &&& l.scan.force_modified_time == body.scan.force_modified_time
            &&& l.scan.on_startup == body.scan.on_startup
            &&& l.scan.interval == body.scan.interval
            &&& l.scan.cbx == body.scan.cbx
            &&& l.scan.pdf == body.scan.pdf
            &&& l.scan.epub == body.scan.epub
            &&& l.files.repair_extensions == body.files.repair_extensions
            &&& l.files.convert_to_cbz == body.files.convert_to_cbz
            &&& l.files.empty_trash_after_scan == body.files.empty_trash_after_scan
            &&& l.files.series_cover == body.files.series_cover
            &&& l.files.hash_files == body.files.hash_files
            &&& l.files.hash_pages == body.files.hash_pages
            &&& l.files.hash_koreader == body.files.hash_koreader
            &&& l.files.analyze_dimensions == body.files.analyze_dimensions
            &&& l.scan_directory_exclusions == body.scan_directory_exclusions
            &&& l.oneshots_directory is Some <==> body.oneshots_directory is Some
                && !crate::text::is_blank(body.oneshots_directory->0@)
            &&& l.oneshots_directory is Some ==> l.oneshots_directory == body.oneshots_directory
            &&& l.unavailable_date is None
            &&& l.created_date == now
            &&& l.last_modified_date == now
        }),
{
}

// ---- who sees a library ----

/// The libraries that a user sees: all of them, or those that are shared with them.
#[derive(Debug, PartialEq, Eq)]
pub enum LibraryAccess {
    All,
    Only(Vec<String>),
}

/// Whether a user sees a library.
pub open spec fn sees(access: LibraryAccess, id: Seq<char>) -> bool {
    match access {
        LibraryAccess::All => true,
        LibraryAccess::Only(ids) => ids.deep_view().contains(id),
    }
}

impl LibraryAccess {
    /// Whether a user sees a library.
    pub fn can_access(&self, id: &str) -> (r: bool)
        ensures
            r == sees(*self, id@),
    {
        match self {
            LibraryAccess::All => true,
            LibraryAccess::Only(ids) => has_text(ids, id),
        }
    }
}

/// The root of a library, as a user sees it: only an administrator sees where it is.
pub fn shown_root(path: &str, admin: bool) -> (r: String)
    ensures
        r@ == (if admin {
            path@
        } else {
            ""@
        }),
{
    if admin {
        path.to_owned()
    } else {
        "".to_owned()
    }
}

/// Lets a request through if the library exists and the user sees it.
pub fn check_library(exists: bool, accessible: bool) -> (r: Result<(), ApiError>)
    ensures
        match r {
            Ok(_) => exists && accessible,
            Err(e) => if !exists {
                e.deep_view() == status_error(404, ""@)
            } else {
                !accessible && e.deep_view() == status_error(403, ""@)
            },
        },
{
    if !exists {
        Err(ApiError::not_found(""))
    } else if !accessible {
        Err(ApiError::forbidden(""))
    } else {
        Ok(())
    }
}

/// The indices of the libraries that a user sees.
pub open spec fn seen<D>(libraries: Seq<Library<D>>, access: LibraryAccess) -> Seq<usize>
    decreases libraries.len(),
{
    if libraries.len() == 0 {
        Seq::empty()
    } else if sees(access, libraries.last().id@) {
        seen(libraries.drop_last(), access).push((libraries.len() - 1) as usize)
    } else {
        seen(libraries.drop_last(), access)
    }
}

/// A user sees exactly the libraries that they have access to, each once and in the order in which they
/// are stored.
pub proof fn user_sees_what_is_shared<D>(libraries: Seq<Library<D>>, access: LibraryAccess)
    requires
        libraries.len() <= usize::MAX,
    ensures
        forall|i: int|
            0 <= i < libraries.len() ==> (seen(libraries, access).contains(i as usize) <==> sees(
                access,
                (#[trigger] libraries[i]).id@,
            )),
        access matches LibraryAccess::Only(ids) ==> forall|i: int|
            0 <= i < libraries.len() ==> (seen(libraries, access).contains(i as usize)
                <==> ids.deep_view().contains((#[trigger] libraries[i]).id@)),
        forall|a: int, b: int|
            0 <= a < b < seen(libraries, access).len() ==> seen(libraries, access)[a] < seen(
                libraries,
                access,
            )[b],
        forall|a: int|
            0 <= a < seen(libraries, access).len() ==> (#[trigger] seen(libraries, access)[a])
                < libraries.len(),
    decreases libraries.len(),
{
    if libraries.len() > 0 {
        let init = libraries.drop_last();
        user_sees_what_is_shared(init, access);
        let before = seen(init, access);
        let now = seen(libraries, access);
        let last = libraries.len() - 1;
        assert forall|a: int| 0 <= a < before.len() implies now[a] == #[trigger] before[a] by {}
        assert forall|i: int| 0 <= i < libraries.len() implies (now.contains(i as usize) <==> sees(
            access,
            (#[trigger] libraries[i]).id@,
        )) by {
            if i < init.len() {
                assert(init[i] == libraries[i]);
                if before.contains(i as usize) {
                    let a = choose|a: int| 0 <= a < before.len() && before[a] == i as usize;
                    assert(now[a] == i as usize);
                }
                if now.contains(i as usize) {
                    let a = choose|a: int| 0 <= a < now.len() && now[a] == i as usize;
                    assert(a < before.len());
                    assert(before[a] == i as usize);
                }
            } else {
                if sees(access, libraries[i].id@) {
                    assert(now[now.len() - 1] == i as usize);
                }
                if now.contains(i as usize) {
                    let a = choose|a: int| 0 <= a < now.len() && now[a] == i as usize;
                    if a < before.len() {
                        assert(before[a] < init.len());
                    }
                }
            }
        }
    }
}

/// A user with access to all libraries sees every one.
pub proof fn user_with_full_access_sees_all<D>(libraries: Seq<Library<D>>, i: int)
    requires
        libraries.len() <= usize::MAX,
        0 <= i < libraries.len(),
    ensures
        seen(libraries, LibraryAccess::All).contains(i as usize),
{
    user_sees_what_is_shared(libraries, LibraryAccess::All);
    assert(sees(LibraryAccess::All, libraries[i].id@));
}

/// Whether these are the keys of these libraries: their names in lower case.
pub open spec fn are_name_keys<D>(keys: Seq<TextKey>, libraries: Seq<Library<D>>, indices: Seq<usize>) -> bool {
    &&& keys.len() == indices.len()
    &&& forall|i: int|
        0 <= i < keys.len() ==> (#[trigger] keys[i]).chars@ == crate::text::lowercased(
            libraries[indices[i] as int].name@,
        )
}

/// Libraries stand by their names, without regard to case: none stands behind one whose name comes later.
pub proof fn libraries_stand_by_their_names<D>(
    keys: Seq<TextKey>,
    order: Seq<usize>,
    libraries: Seq<Library<D>>,
    indices: Seq<usize>,
    i: int,
    j: int,
)
    requires
        are_name_keys(keys, libraries, indices),
        crate::sorting::is_sorting(keys, order),
        0 <= i < j < order.len(),
    ensures
        crate::sorting::arranged(indices, order).len() == indices.len(),
        !crate::text::lex_lt(
            crate::text::lowercased(
                libraries[crate::sorting::arranged(indices, order)[j] as int].name@,
            ),
            crate::text::lowercased(
                libraries[crate::sorting::arranged(indices, order)[i] as int].name@,
            ),
        ),
{
    assert(crate::sorting::goes_before(keys, order[i] as int, order[j] as int));
    assert(order[i] < keys.len() && order[j] < keys.len());
    let a = keys[order[i] as int].chars@;
    let b = keys[order[j] as int].chars@;
    if crate::text::lex_lt(b, a) && crate::text::lex_lt(a, b) {
        crate::sorting::lemma_lex_transitive(a, b, a);
        crate::sorting::lemma_lex_irreflexive(a);
    }
}

/// Lists the libraries that a user sees, by their indices, in the order in which they are stored.
pub fn accessible_libraries<D>(libraries: &Vec<Library<D>>, access: &LibraryAccess) -> (r: Vec<usize>)
    ensures
        r@ == seen(libraries@, *access),
        forall|i: int| 0 <= i < r.len() ==> (#[trigger] r@[i]) < libraries.len(),
{
    let mut indices: Vec<usize> = Vec::new();
    let mut i: usize = 0;
    while i < libraries.len()
        invariant
            i <= libraries.len(),
            indices@ == seen(libraries@.take(i as int), *access),
            forall|k: int| 0 <= k < indices.len() ==> (#[trigger] indices@[k]) < libraries.len(),
        decreases libraries.len() - i,
    {
        assert(libraries@.take(i as int + 1).drop_last() =~= libraries@.take(i as int));
        assert(libraries@.take(i as int + 1).last() == libraries@[i as int]);
        if access.can_access(libraries[i].id.as_str()) {
            indices.push(i);
        }
        i += 1;
    }
    assert(libraries@.take(libraries@.len() as int) =~= libraries@);
    indices
}

/// Lists the libraries that a user sees, by their indices, sorted by name without regard to case.
pub fn visible_libraries<D>(libraries: &Vec<Library<D>>, access: &LibraryAccess) -> (r: Vec<usize>)
    ensures
        forall|i: int| 0 <= i < r.len() ==> (#[trigger] r@[i]) < libraries.len(),
        exists|keys: Seq<TextKey>, order: Seq<usize>|
            #![trigger are_name_keys(keys, libraries@, seen(libraries@, *access)), crate::sorting::is_sorting(keys, order)]
            are_name_keys(keys, libraries@, seen(libraries@, *access)) && crate::sorting::is_sorting(
                keys,
                order,
            ) && r@ == crate::sorting::arranged(seen(libraries@, *access), order),
{
    let indices: Vec<usize> = accessible_libraries(libraries, access);
    let mut keys: Vec<TextKey> = Vec::new();
    let mut i: usize = 0;
    while i < indices.len()
        invariant
            i <= indices.len(),
            are_name_keys(keys@, libraries@, indices@.take(i as int)),
            forall|k: int| 0 <= k < indices.len() ==> (#[trigger] indices@[k]) < libraries.len(),
        decreases indices.len() - i,
    {
        let name: String = lowercase(libraries[indices[i]].name.as_str());
        keys.push(TextKey { chars: chars_of(name.as_str()) });
        i += 1;
    }
    assert(indices@.take(indices@.len() as int) =~= indices@);
    let order: Vec<usize> = stable_order(&keys);
    let ghost all = crate::sorting::arranged(indices@, order@);
    let mut r: Vec<usize> = Vec::new();
    let mut j: usize = 0;
    while j < order.len()
        invariant
            j <= order.len(),
            keys.len() == indices.len(),
            crate::sorting::is_sorting(keys@, order@),
            all == crate::sorting::arranged(indices@, order@),
            r@ == all.take(j as int),
            forall|k: int| 0 <= k < indices.len() ==> (#[trigger] indices@[k]) < libraries.len(),
            forall|k: int| 0 <= k < r.len() ==> (#[trigger] r@[k]) < libraries.len(),
        decreases order.len() - j,
    {
        assert(order@[j as int] < keys.len());
        r.push(indices[order[j]]);
        assert(r@ =~= all.take(j as int + 1));
        j += 1;
    }
    assert(all.take(all.len() as int) =~= all);
    proof {
        assert(are_name_keys(keys@, libraries@, seen(libraries@, *access)));
        assert(crate::sorting::is_sorting(keys@, order@));
    }
    r
}

/// The book that gives a series its cover.
pub open spec fn covering_book<B>(
    rule: SeriesCover,
    first: Option<B>,
    first_unread: Option<B>,
    last: Option<B>,
) -> Option<B> {
    match rule {
        SeriesCover::First => first,
        SeriesCover::FirstUnreadOrFirst => if first_unread is Some {
            first_unread
        } else {
            first
        },
        SeriesCover::FirstUnreadOrLast => if first_unread is Some {
            first_unread
        } else {
            last
        },
        SeriesCover::Last => last,
    }
}

/// A series whose rule looks for unread books has the cover of the first of them as long as there is one;
/// after that, and by any other rule, the cover is that of the first or of the last book, whatever was
/// read.
pub proof fn cover_follows_its_rule<B>(
    first: Option<B>,
    first_unread: Option<B>,
    last: Option<B>,
    unread: B,
)
    ensures
        covering_book(SeriesCover::First, first, first_unread, last) == first,
        covering_book(SeriesCover::Last, first, first_unread, last) == last,
        covering_book(SeriesCover::FirstUnreadOrFirst, first, Some(unread), last) == Some(unread),
        covering_book(SeriesCover::FirstUnreadOrLast, first, Some(unread), last) == Some(unread),
        covering_book(SeriesCover::FirstUnreadOrFirst, first, None, last) == first,
        covering_book(SeriesCover::FirstUnreadOrLast, first, None, last) == last,
{
}

/// Which book gives a series its cover, given the first book, the first unread one and the last, as
/// far as there are any.
pub fn cover_book(
    rule: SeriesCover,
    first: Option<String>,
    first_unread: Option<String>,
    last: Option<String>,
) -> (r: Option<String>)
    ensures
        r == covering_book(rule, first, first_unread, last),
{
    match rule {
        SeriesCover::First => first,
        SeriesCover::FirstUnreadOrFirst => match first_unread {
            Some(b) => Some(b),
            None => first,
        },
        SeriesCover::FirstUnreadOrLast => match first_unread {
            Some(b) => Some(b),
            None => last,
        },
        SeriesCover::Last => last,
    }
}

} // verus!
