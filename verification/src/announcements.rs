//! Announcements, with a mark for those that a user has read.
use vstd::prelude::*;

use crate::error::{status_error, ApiError};
use crate::text::has_text;

verus! {

/// Who wrote an announcement.
#[derive(Debug, PartialEq, Eq)]
pub struct FeedAuthorDto {
    pub name: Option<String>,
    pub url: Option<String>,
}

/// What this server adds to an announcement.
#[derive(Clone, Copy, Debug, PartialEq, Eq, Structural)]
pub struct KomgaExtensionDto {
    pub read: bool,
}

/// An announcement. `D` is a point in time.
#[derive(Debug, PartialEq, Eq)]
pub struct FeedItemDto<D> {
    pub id: String,
    pub url: Option<String>,
    pub title: Option<String>,
    pub summary: Option<String>,
    pub content_html: Option<String>,
    pub date_modified: Option<D>,
    pub author: Option<FeedAuthorDto>,
    pub tags: Vec<String>,
    pub komga_extension: Option<KomgaExtensionDto>,
}

/// A feed of announcements.
#[derive(Debug, PartialEq, Eq)]
pub struct JsonFeedDto<D> {
    pub version: String,
    pub title: String,
    pub home_page_url: Option<String>,
    pub description: Option<String>,
    pub items: Vec<FeedItemDto<D>>,
}

/// An announcement with its mark. Nothing else about it changes.
pub open spec fn marked<D>(item: FeedItemDto<D>, read: Seq<Seq<char>>) -> FeedItemDto<D> {
    FeedItemDto {
        komga_extension: Some(KomgaExtensionDto { read: read.contains(item.id@) }),
        ..item
    }
}

impl<D> JsonFeedDto<D> {
    /// Marks the announcements that a user has read, given their ids. Nothing else changes.
    pub fn mark_read(self, read: &Vec<String>) -> (r: JsonFeedDto<D>)
        ensures
            r.version == self.version,
            r.title == self.title,
            r.home_page_url == self.home_page_url,
            r.description == self.description,
            r.items@ == Seq::new(
                self.items@.len(),
                |i: int| marked(self.items@[i], read.deep_view()),
            ),
    {
        let ghost there = self.items@;
        let ghost all = Seq::new(there.len(), |i: int| marked(there[i], read.deep_view()));
        let mut items: Vec<FeedItemDto<D>> = Vec::new();
        for item in it: self.items
            invariant
                it.seq() == there,
                all == Seq::new(there.len(), |i: int| marked(there[i], read.deep_view())),
                items@ == all.take(it.index()),
        {
            let is_read: bool = has_text(read, item.id.as_str());
            let mut m: FeedItemDto<D> = item;
            m.komga_extension = Some(KomgaExtensionDto { read: is_read });
            items.push(m);
            assert(items@ =~= all.take(it.index() + 1));
        }
        assert(all.take(all.len() as int) =~= all);
        JsonFeedDto {
            version: self.version,
            title: self.title,
            home_page_url: self.home_page_url,
            description: self.description,
            items,
        }
    }
}

/// Marking a feed again with the same ids changes nothing.
pub proof fn marking_twice_is_once<D>(item: FeedItemDto<D>, read: Seq<Seq<char>>)
    ensures
        marked(marked(item, read), read) == marked(item, read),
{
}

/// Without a feed there is nothing to show.
pub fn require_feed<F>(feed: Option<F>) -> (r: Result<F, ApiError>)
    ensures
        match (r, feed) {
            (Ok(f), Some(g)) => f == g,
            (Err(e), None) => e.deep_view() == status_error(404, ""@),
            _ => false,
        },
{
    match feed {
        Some(f) => Ok(f),
        None => Err(ApiError::not_found("")),
    }
}

/// An announcement is marked as read exactly if its reader has read it, and says what it said.
pub proof fn announcement_is_marked<D>(item: FeedItemDto<D>, read: Seq<Seq<char>>)
    ensures
        ({
            let m = marked(item, read);
            &&& m.komga_extension is Some
            &&& m.komga_extension->0.read <==> exists|i: int|
                0 <= i < read.len() && #[trigger] read[i] == item.id@
            &&& m.id == item.id
            &&& m.url == item.url
            &&& m.title == item.title
            &&& m.summary == item.summary
            &&& m.content_html == item.content_html
            &&& m.date_modified == item.date_modified
            &&& m.author == item.author
            &&& m.tags == item.tags
        }),
{
}

} // verus!
