//! The track record, the sole entity of the catalog, and its mathematical view.

use crate::text::opt_text;
use vstd::prelude::*;
use vstd::string::*;

verus! {

/// One row of the catalog. The store assigns `id` on insert; `id` and `path`
/// never change afterwards, and `processed` goes from false to true only.
#[derive(Debug, Clone, PartialEq)]
pub struct TrackFile {
    pub id: i32,
    pub barcode: Option<String>,
    pub path: String,
    pub artist: Option<String>,
    pub album: Option<String>,
    pub title: Option<String>,
    pub track_number: Option<i32>,
    pub disc_number: Option<i32>,
    pub disc_total: Option<i32>,
    pub year: Option<i32>,
    pub processed: bool,
}

/// A row that is about to enter the catalog: the store assigns its id.
#[derive(Debug)]
pub struct NewTrackFile<'a> {
    pub barcode: Option<&'a str>,
    pub path: &'a str,
    pub artist: Option<&'a str>,
    pub album: Option<&'a str>,
    pub title: Option<&'a str>,
    pub track_number: Option<i32>,
    pub disc_number: Option<i32>,
    pub disc_total: Option<i32>,
    pub year: Option<i32>,
    pub processed: bool,
}

/// What a [`TrackFile`] holds, with each string as its sequence of characters.
pub struct TrackRecord {
    pub id: i32,
    pub barcode: Option<Seq<char>>,
    pub path: Seq<char>,
    pub artist: Option<Seq<char>>,
    pub album: Option<Seq<char>>,
    pub title: Option<Seq<char>>,
    pub track_number: Option<i32>,
    pub disc_number: Option<i32>,
    pub disc_total: Option<i32>,
    pub year: Option<i32>,
    pub processed: bool,
}

/// What a [`NewTrackFile`] holds, with each string as its sequence of characters.
pub struct NewTrackRecord {
    pub barcode: Option<Seq<char>>,
    pub path: Seq<char>,
    pub artist: Option<Seq<char>>,
    pub album: Option<Seq<char>>,
    pub title: Option<Seq<char>>,
    pub track_number: Option<i32>,
    pub disc_number: Option<i32>,
    pub disc_total: Option<i32>,
    pub year: Option<i32>,
    pub processed: bool,
}

/// Contents of an optional string slice.
pub open spec fn opt_slice(s: Option<&str>) -> Option<Seq<char>> {
    match s {
        Some(t) => Some(t@),
        None => None,
    }
}

/// The row that `new` becomes once the store has given it `id`.
pub open spec fn spec_with_id(new: NewTrackRecord, id: i32) -> TrackRecord {
    TrackRecord {
        id,
        barcode: new.barcode,
        path: new.path,
        artist: new.artist,
        album: new.album,
        title: new.title,
        track_number: new.track_number,
        disc_number: new.disc_number,
        disc_total: new.disc_total,
        year: new.year,
        processed: new.processed,
    }
}

/// The views of a sequence of rows, in the same order.
pub open spec fn records(rows: Seq<TrackFile>) -> Seq<TrackRecord> {
    Seq::new(rows.len(), |i: int| rows[i]@)
}

impl View for TrackFile {
    type V = TrackRecord;

    open spec fn view(&self) -> TrackRecord {
        TrackRecord {
            id: self.id,
            barcode: opt_text(self.barcode),
            path: self.path@,
            artist: opt_text(self.artist),
            album: opt_text(self.album),
            title: opt_text(self.title),
            track_number: self.track_number,
            disc_number: self.disc_number,
            disc_total: self.disc_total,
            year: self.year,
            processed: self.processed,
        }
    }
}

impl<'a> View for NewTrackFile<'a> {
    type V = NewTrackRecord;

    open spec fn view(&self) -> NewTrackRecord {
        NewTrackRecord {
            barcode: opt_slice(self.barcode),
            path: self.path@,
            artist: opt_slice(self.artist),
            album: opt_slice(self.album),
            title: opt_slice(self.title),
            track_number: self.track_number,
            disc_number: self.disc_number,
            disc_total: self.disc_total,
            year: self.year,
            processed: self.processed,
        }
    }
}

/// An owned copy of an optional string.
pub fn copy_opt_text(s: &Option<String>) -> (r: Option<String>)
    ensures
        opt_text(r) == opt_text(*s),
{
    match s {
        Some(t) => Some(t.clone()),
        None => None,
    }
}

/// An owned copy of an optional string slice.
pub fn own_opt_slice(s: Option<&str>) -> (r: Option<String>)
    ensures
        opt_text(r) == opt_slice(s),
{
    match s {
        Some(t) => Some(t.to_owned()),
        None => None,
    }
}

impl TrackFile {
    /// A copy of the row, field by field.
    pub fn duplicate(&self) -> (r: TrackFile)
        ensures
            r@ == self@,
    {
        TrackFile {
            id: self.id,
            barcode: copy_opt_text(&self.barcode),
            path: self.path.clone(),
            artist: copy_opt_text(&self.artist),
            album: copy_opt_text(&self.album),
            title: copy_opt_text(&self.title),
            track_number: self.track_number,
            disc_number: self.disc_number,
            disc_total: self.disc_total,
            year: self.year,
            processed: self.processed,
        }
    }
}

impl<'a> NewTrackFile<'a> {
    /// The row that the store keeps for `self` under `id`.
    pub fn with_id(&self, id: i32) -> (r: TrackFile)
        ensures
            r@ == spec_with_id(self@, id),
    {
        TrackFile {
            id,
            barcode: own_opt_slice(self.barcode),
            path: self.path.to_owned(),
            artist: own_opt_slice(self.artist),
            album: own_opt_slice(self.album),
            title: own_opt_slice(self.title),
            track_number: self.track_number,
            disc_number: self.disc_number,
            disc_total: self.disc_total,
            year: self.year,
            processed: self.processed,
        }
    }
}

} // verus!
