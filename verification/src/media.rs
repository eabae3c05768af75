//! What is known of a book's file.
use vstd::prelude::*;

use crate::error::{status_error, ApiError, ErrorView};
use crate::search::MediaStatus;

verus! {

/// The ways a book can be read.
#[derive(Clone, Copy, Debug, PartialEq, Eq, Structural)]
pub enum MediaProfile {
    Divina,
    Pdf,
    Epub,
}

/// Why a page or a file of a book could not be had.
#[derive(Debug, PartialEq, Eq)]
pub enum MediaError {
    NotReady,
    PageOutOfBounds,
    Conversion(String),
    NoSuchFile(String),
    Unsupported(String),
    EntryNotFound(String),
    Other(String),
}

/// What a request is answered when a page could not be had.
pub open spec fn media_error_answer(e: MediaError) -> ErrorView {
    match e {
        MediaError::NotReady => status_error(404, "Book analysis failed"@),
        MediaError::PageOutOfBounds => status_error(400, "Page number does not exist"@),
        MediaError::Conversion(message) => status_error(404, message@),
        MediaError::NoSuchFile(_) => status_error(404, "File not found, it may have moved"@),
        MediaError::Unsupported(message) => ErrorView::Internal(message@),
        MediaError::EntryNotFound(message) => ErrorView::Internal(message@),
        MediaError::Other(message) => ErrorView::Internal(message@),
    }
}

/// What a request for a page as an image is answered when the page could not be had.
pub fn map_media_error(e: MediaError) -> (r: ApiError)
    ensures
        r.deep_view() == media_error_answer(e),
{
    match e {
        MediaError::NotReady => ApiError::not_found("Book analysis failed"),
        MediaError::PageOutOfBounds => ApiError::bad_request("Page number does not exist"),
        MediaError::Conversion(message) => ApiError::not_found(message.as_str()),
        MediaError::NoSuchFile(_) => ApiError::not_found("File not found, it may have moved"),
        MediaError::Unsupported(message) => ApiError::internal(message.as_str()),
        MediaError::EntryNotFound(message) => ApiError::internal(message.as_str()),
        MediaError::Other(message) => ApiError::internal(message.as_str()),
    }
}

/// The same for a page as it is in the file: a format that is not supported is the request's fault.
pub fn map_media_error_raw(e: MediaError) -> (r: ApiError)
    ensures
        r.deep_view() == (match e {
            MediaError::Unsupported(message) => status_error(400, message@),
            _ => media_error_answer(e),
        }),
{
    match e {
        MediaError::Unsupported(message) => ApiError::bad_request(message.as_str()),
        _ => map_media_error(e),
    }
}

/// The same for a resource of an EPUB: one that is not in the file is not found.
pub fn map_resource_error(e: MediaError) -> (r: ApiError)
    ensures
        r.deep_view() == (match e {
            MediaError::EntryNotFound(_) => status_error(404, ""@),
            _ => media_error_answer(e),
        }),
{
    match e {
        MediaError::EntryNotFound(_) => ApiError::not_found(""),
        _ => map_media_error(e),
    }
}

/// Why the pages of a book that is not ready cannot be listed.
pub open spec fn not_ready_message(status: MediaStatus) -> Seq<char> {
    match status {
        MediaStatus::Unknown => "Book has not been analyzed yet"@,
        MediaStatus::Outdated => "Book is outdated and must be re-analyzed"@,
        MediaStatus::Error => "Book analysis failed"@,
        MediaStatus::Unsupported => "Book format is not supported"@,
        MediaStatus::Ready => ""@,
    }
}

/// Lets a request for a book's pages through if the book is ready.
pub fn check_ready(status: MediaStatus) -> (r: Result<(), ApiError>)
    ensures
        match r {
            Ok(_) => status == MediaStatus::Ready,
            Err(e) => status != MediaStatus::Ready && e.deep_view() == status_error(
                404,
                not_ready_message(status),
            ),
        },
{
    match status {
        MediaStatus::Unknown => Err(ApiError::not_found("Book has not been analyzed yet")),
        MediaStatus::Outdated => Err(
            ApiError::not_found("Book is outdated and must be re-analyzed"),
        ),
        MediaStatus::Error => Err(ApiError::not_found("Book analysis failed")),
        MediaStatus::Unsupported => Err(ApiError::not_found("Book format is not supported")),
        MediaStatus::Ready => Ok(()),
    }
}

/// A media type, or `null` where there is none.
pub open spec fn media_type_text(media_type: Option<Seq<char>>) -> Seq<char> {
    match media_type {
        Some(t) => t,
        None => "null"@,
    }
}

/// Lets a request through if the book has the profile that it needs.
pub fn check_profile(profile: Option<MediaProfile>, needed: MediaProfile, media_type: &Option<String>) -> (r:
    Result<(), ApiError>)
    ensures
        match r {
            Ok(_) => profile == Some(needed),
            Err(e) => profile != Some(needed) && e.deep_view() == status_error(
                400,
                "Book media type '"@ + media_type_text(media_type.deep_view())
                    + "' not compatible with requested profile"@,
            ),
        },
{
    let fits: bool = match profile {
        Some(p) => p == needed,
        None => false,
    };
    if fits {
        return Ok(());
    }
    let mut m: String = "Book media type '".to_owned();
    match media_type {
        Some(t) => {
            m.append(t.as_str());
        },
        None => {
            m.append("null");
        },
    }
    m.append("' not compatible with requested profile");
    Err(ApiError::bad_request(m.as_str()))
}

/// Reports a book without the record that every book has.
pub fn missing_media(book_id: &str) -> (r: ApiError)
    ensures
        r.deep_view() == ErrorView::Internal("no media for book "@ + book_id@),
{
    let mut m: String = "no media for book ".to_owned();
    m.append(book_id);
    ApiError::internal(m.as_str())
}

/// A fault of a book's file is told by what it is: what is not there is not found, a page that does not
/// exist is a bad request, and anything else is a fault of the server, with its own message.
pub proof fn media_fault_is_told(e: MediaError)
    ensures
        match media_error_answer(e) {
            ErrorView::Status { status, message } => {
                &&& status == 400 <==> e is PageOutOfBounds
                &&& status == 404 <==> e is NotReady || e is Conversion || e is NoSuchFile
                &&& e matches MediaError::Conversion(m) ==> message == m@
            },
            ErrorView::Internal(message) => match e {
                MediaError::Unsupported(m) => message == m@,
                MediaError::EntryNotFound(m) => message == m@,
                MediaError::Other(m) => message == m@,
                _ => false,
            },
            _ => false,
        },
{
}

/// A book that is not ready says why, in words of its own for each reason; one that is says nothing.
pub proof fn reason_is_told_in_its_own_words(a: MediaStatus, b: MediaStatus)
    ensures
        a == MediaStatus::Ready <==> not_ready_message(a).len() == 0,
        not_ready_message(a) == not_ready_message(b) <==> a == b,
        not_ready_message(MediaStatus::Error) == media_error_message(MediaError::NotReady),
{
    reveal_strlit("Book has not been analyzed yet");
    reveal_strlit("Book is outdated and must be re-analyzed");
    reveal_strlit("Book analysis failed");
    reveal_strlit("Book format is not supported");
    reveal_strlit("");
    assert("Book has not been analyzed yet"@.len() == 30);
    assert("Book is outdated and must be re-analyzed"@.len() == 40);
    assert("Book analysis failed"@.len() == 20);
    assert("Book format is not supported"@.len() == 28);
    assert(""@.len() == 0);
}

/// The message with which a fault of a book's file is told.
pub open spec fn media_error_message(e: MediaError) -> Seq<char> {
    match media_error_answer(e) {
        ErrorView::Status { status, message } => message,
        ErrorView::Internal(message) => message,
        _ => Seq::empty(),
    }
}

} // verus!
