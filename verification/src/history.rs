//! What happened to books and series.
use vstd::prelude::*;

use crate::search::{sort_or, SortOrder};

verus! {

/// Something that happened. `D` is a point in time.
#[derive(Debug, PartialEq, Eq)]
pub struct HistoricalEvent<D> {
    pub id: String,
    pub type_: String,
    pub timestamp: D,
    pub book_id: Option<String>,
    pub series_id: Option<String>,
    pub properties: Vec<(String, String)>,
}

/// Something that happened, as clients see it.
#[derive(Debug, PartialEq, Eq)]
pub struct HistoricalEventDto<D> {
    pub id: String,
    pub type_: String,
    pub timestamp: D,
    pub book_id: Option<String>,
    pub series_id: Option<String>,
    pub properties: Vec<(String, String)>,
}

impl<D> HistoricalEventDto<D> {
    /// Shows what happened.
    pub fn of(e: HistoricalEvent<D>) -> (r: HistoricalEventDto<D>)
        ensures
            r.id == e.id,
            r.type_ == e.type_,
            r.timestamp == e.timestamp,
            r.book_id == e.book_id,
            r.series_id == e.series_id,
            r.properties == e.properties,
    {
        HistoricalEventDto {
            id: e.id,
            type_: e.type_,
            timestamp: e.timestamp,
            book_id: e.book_id,
            series_id: e.series_id,
            properties: e.properties,
        }
    }
}

/// The order of events: as requested; if nothing is, the latest come first.
pub fn history_sort(requested: &Vec<SortOrder>) -> (r: Vec<SortOrder>)
    ensures
        r.deep_view() == crate::search::requested_or(requested.deep_view(), "timestamp"@, true),
{
    sort_or(requested, "timestamp", true)
}

} // verus!
