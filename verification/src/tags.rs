//! What the tag extractor hands over for one audio file, as plain values, and
//! the mapping from tag fields to catalog fields.

use crate::models::{opt_slice, NewTrackFile, NewTrackRecord};
use crate::text::opt_text;
use vstd::prelude::*;
use vstd::string::*;

verus! {

/// The tag fields that the catalog reads by key.
#[derive(Clone, Copy, Debug, PartialEq, Eq, Structural)]
pub enum TagKey {
    Barcode,
    AlbumArtist,
    TrackArtist,
    AlbumTitle,
    TrackTitle,
    Other,
}

/// One item of a tag: its key, and its value where that is text.
#[derive(Debug, Clone)]
pub struct TagItem {
    pub key: TagKey,
    pub text: Option<String>,
}

/// A decoded tag container: its items in order, and the numbers that the
/// decoder offers through structured accessors.
#[derive(Debug, Clone)]
pub struct TagContainer {
    pub items: Vec<TagItem>,
    pub year: Option<u32>,
    pub track: Option<u32>,
    pub disk: Option<u32>,
    pub disk_total: Option<u32>,
}

/// What came of decoding one file.
#[derive(Debug, Clone)]
pub enum TagRead {
    /// The file could not be decoded.
    Unreadable,
    /// The file was decoded and holds no tag container.
    Untagged,
    /// The first tag container of the file.
    Tagged(TagContainer),
}

/// View of a [`TagItem`].
pub struct TagItemView {
    pub key: TagKey,
    pub text: Option<Seq<char>>,
}

/// View of a [`TagContainer`].
pub struct TagsView {
    pub items: Seq<TagItemView>,
    pub year: Option<u32>,
    pub track: Option<u32>,
    pub disk: Option<u32>,
    pub disk_total: Option<u32>,
}

impl View for TagItem {
    type V = TagItemView;

    open spec fn view(&self) -> TagItemView {
        TagItemView { key: self.key, text: opt_text(self.text) }
    }
}

impl View for TagContainer {
    type V = TagsView;

    open spec fn view(&self) -> TagsView {
        TagsView {
            items: Seq::new(self.items@.len(), |i: int| self.items@[i]@),
            year: self.year,
            track: self.track,
            disk: self.disk,
            disk_total: self.disk_total,
        }
    }
}

impl View for TagRead {
    type V = Option<TagsView>;

    /// The container, if decoding produced one.
    open spec fn view(&self) -> Option<TagsView> {
        match self {
            TagRead::Tagged(t) => Some(t@),
            _ => None,
        }
    }
}

/// The text of the first item under `key`; nothing when there is no such item
/// or when that item holds no text.
pub open spec fn spec_first_text(items: Seq<TagItemView>, key: TagKey) -> Option<Seq<char>>
    decreases items.len(),
{
    if items.len() == 0 {
        None
    } else if items[0].key == key {
        items[0].text
    } else {
        spec_first_text(items.drop_first(), key)
    }
}

/// The signed 32-bit number with the same bits as `v`.
pub open spec fn spec_wrap_i32(v: u32) -> i32 {
    if v <= 0x7fff_ffff {
        v as i32
    } else {
        (v - 0x1_0000_0000) as i32
    }
}

/// `spec_wrap_i32` under an `Option`.
pub open spec fn spec_wrap_opt(v: Option<u32>) -> Option<i32> {
    match v {
        Some(n) => Some(spec_wrap_i32(n)),
        None => None,
    }
}

/// The album artist, or the track artist where the tag names no album artist.
pub open spec fn spec_artist(items: Seq<TagItemView>) -> Option<Seq<char>> {
    match spec_first_text(items, TagKey::AlbumArtist) {
        Some(a) => Some(a),
        None => spec_first_text(items, TagKey::TrackArtist),
    }
}

/// The catalog row, not yet processed, that a file at `path` with tags `tags` gives.
pub open spec fn spec_new_track(path: Seq<char>, tags: TagsView) -> NewTrackRecord {
    NewTrackRecord {
        barcode: spec_first_text(tags.items, TagKey::Barcode),
        path,
        artist: spec_artist(tags.items),
        album: spec_first_text(tags.items, TagKey::AlbumTitle),
        title: spec_first_text(tags.items, TagKey::TrackTitle),
        track_number: spec_wrap_opt(tags.track),
        disc_number: spec_wrap_opt(tags.disk),
        disc_total: spec_wrap_opt(tags.disk_total),
        year: spec_wrap_opt(tags.year),
        processed: false,
    }
}

/// The signed 32-bit number with the same bits as `v`.
pub fn wrap_i32(v: u32) -> (r: i32)
    ensures
        r == spec_wrap_i32(v),
{
    if v <= 0x7fff_ffff {
        v as i32
    } else {
        (v as i64 - 0x1_0000_0000) as i32
    }
}

/// `wrap_i32` under an `Option`.
pub fn wrap_opt(v: Option<u32>) -> (r: Option<i32>)
    ensures
        r == spec_wrap_opt(v),
{
    match v {
        Some(n) => Some(wrap_i32(n)),
        None => None,
    }
}

impl TagContainer {
    /// The text of the first item under `key`.
    pub fn first_text<'a>(&'a self, key: TagKey) -> (r: Option<&'a str>)
        ensures
            opt_slice(r) == spec_first_text(self@.items, key),
    {
        let ghost all = self@.items;
        let mut i: usize = 0;
        assert(all.skip(0) =~= all);
        while i < self.items.len()
            invariant
                all == self@.items,
                i <= self.items.len(),
                spec_first_text(all, key) == spec_first_text(all.skip(i as int), key),
            decreases self.items.len() - i,
        {
            assert(all.skip(i as int).drop_first() =~= all.skip(i + 1));
            assert(all.skip(i as int)[0] == self.items@[i as int]@);
            if self.items[i].key == key {
                return match &self.items[i].text {
                    Some(t) => Some(t.as_str()),
                    None => None,
                };
            }
            i += 1;
        }
        None
    }

    /// The catalog row that a file at `path` with these tags gives.
    pub fn to_new_track<'a>(&'a self, path: &'a str) -> (r: NewTrackFile<'a>)
        ensures
            r@ == spec_new_track(path@, self@),
    {
        let album_artist = self.first_text(TagKey::AlbumArtist);
        let artist = match album_artist {
            Some(a) => Some(a),
            None => self.first_text(TagKey::TrackArtist),
        };
        NewTrackFile {
            barcode: self.first_text(TagKey::Barcode),
            path,
            artist,
            album: self.first_text(TagKey::AlbumTitle),
            title: self.first_text(TagKey::TrackTitle),
            track_number: wrap_opt(self.track),
            disc_number: wrap_opt(self.disk),
            disc_total: wrap_opt(self.disk_total),
            year: wrap_opt(self.year),
            processed: false,
        }
    }
}

} // verus!
