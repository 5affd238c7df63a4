//! Disc-total back-fill: every album whose tracks reach beyond disc 1 gets its
//! greatest disc number written, as disc total, across all of its tracks.

use crate::catalog::{
    album_key, in_group, lemma_distinct_albums, lemma_max_disc, pair_views, spec_distinct_albums,
    spec_max_disc, spec_set_album_total, spec_with_disc_total,
};
use crate::media_organizer::MediaOrganizer;
use crate::models::TrackRecord;
use vstd::prelude::*;
use vstd::string::*;

verus! {

/// A row after back-fill, given all rows: where artist and album are both
/// present and the album's greatest disc number exceeds 1, that number is the
/// disc total; any other row stays.
pub open spec fn spec_backfilled(rows: Seq<TrackRecord>, row: TrackRecord) -> TrackRecord {
    if row.artist is Some && row.album is Some {
        match spec_max_disc(rows, row.artist->0, row.album->0) {
            Some(m) => if m > 1 {
                spec_with_disc_total(row, m)
            } else {
                row
            },
            None => row,
        }
    } else {
        row
    }
}

/// The rows after back-fill.
pub open spec fn spec_backfill(rows: Seq<TrackRecord>) -> Seq<TrackRecord> {
    Seq::new(rows.len(), |i: int| spec_backfilled(rows, rows[i]))
}

/// Two runs of rows that agree on artist, album and disc number, row by row.
pub open spec fn same_discs(a: Seq<TrackRecord>, b: Seq<TrackRecord>) -> bool {
    &&& a.len() == b.len()
    &&& forall|i: int|
        0 <= i < a.len() ==> (#[trigger] a[i]).artist == b[i].artist && a[i].album == b[i].album
            && a[i].disc_number == b[i].disc_number
}

/// The greatest disc number of an album depends on artist, album and disc
/// number alone.
pub proof fn lemma_max_disc_same(
    a: Seq<TrackRecord>,
    b: Seq<TrackRecord>,
    artist: Seq<char>,
    album: Seq<char>,
)
    requires
        same_discs(a, b),
    ensures
        spec_max_disc(a, artist, album) == spec_max_disc(b, artist, album),
    decreases a.len(),
{
    if a.len() > 0 {
        assert(a.last().artist == b.last().artist);
        assert forall|i: int| 0 <= i < a.drop_last().len() implies (#[trigger] a.drop_last()[i]).artist
            == b.drop_last()[i].artist && a.drop_last()[i].album == b.drop_last()[i].album
            && a.drop_last()[i].disc_number == b.drop_last()[i].disc_number by {
            assert(a.drop_last()[i] == a[i]);
        }
        lemma_max_disc_same(a.drop_last(), b.drop_last(), artist, album);
    }
}

impl MediaOrganizer {
    /// Back-fills the disc totals. For every distinct (artist, album) pair with
    /// both present, the greatest disc number of the album is looked up, and
    /// where it exceeds 1 it is written as disc total to every row of the
    /// album. Nothing else changes.
    pub fn update_disc_totals(&mut self)
        requires
            old(self).wf(),
        ensures
            final(self).wf(),
            final(self)@ == spec_backfill(old(self)@),
    {
        let ghost before = self@;
        let pairs = self.catalog.distinct_albums();
        let ghost keys = pair_views(pairs@);
        proof {
            lemma_distinct_albums(before);
            assert(keys.take(0) =~= Seq::empty());
        }
        let mut k: usize = 0;
        while k < pairs.len()
            invariant
                self.wf(),
                k <= pairs.len(),
                keys == pair_views(pairs@),
                self@.len() == before.len(),
                forall|j: int|
                    0 <= j < before.len() ==> #[trigger] self@[j] == (if keys.take(
                        k as int,
                    ).contains(album_key(before[j])) {
                        spec_backfilled(before, before[j])
                    } else {
                        before[j]
                    }),
            decreases pairs.len() - k,
        {
            let ghost cur = self@;
            let ghost done = keys.take(k as int);
            proof {
                assert forall|j: int| 0 <= j < cur.len() implies (#[trigger] cur[j]).artist
                    == before[j].artist && cur[j].album == before[j].album && cur[j].disc_number
                    == before[j].disc_number by {
                    assert(self@[j] == cur[j]);
                }
                assert(keys[k as int] == (
                    crate::text::opt_text(pairs@[k as int].0),
                    crate::text::opt_text(pairs@[k as int].1),
                ));
                assert(keys.take(k + 1) =~= done.push(keys[k as int]));
            }
            let mut changed = false;
            match (&pairs[k].0, &pairs[k].1) {
                (Some(artist), Some(album)) => {
                    let max = self.catalog.max_disc_number(artist.as_str(), album.as_str());
                    proof {
                        lemma_max_disc_same(cur, before, artist@, album@);
                    }
                    match max {
                        Some(m) => {
                            if m > 1 {
                                self.catalog.set_album_disc_total(
                                    artist.as_str(),
                                    album.as_str(),
                                    m,
                                );
                                changed = true;
                            }
                        },
                        None => {},
                    }
                },
                _ => {},
            }
            proof {
                let key = keys[k as int];
                assert forall|j: int| 0 <= j < before.len() implies #[trigger] self@[j] == (
                if keys.take(k + 1).contains(album_key(before[j])) {
                    spec_backfilled(before, before[j])
                } else {
                    before[j]
                }) by {
                    let mine = album_key(before[j]);
                    let next = keys.take(k + 1);
                    assert(cur[j].artist == before[j].artist && cur[j].album == before[j].album);
                    if done.contains(mine) {
                        let w = choose|w: int| 0 <= w < done.len() && done[w] == mine;
                        assert(next[w] == mine);
                    }
                    if mine == key {
                        assert(next[k as int] == mine);
                    } else if next.contains(mine) {
                        let w = choose|w: int| 0 <= w < next.len() && next[w] == mine;
                        assert(w < k);
                        assert(done[w] == mine);
                    }
                    if changed {
                        assert(self@[j] == spec_set_album_total(
                            cur,
                            key.0->0,
                            key.1->0,
                            spec_max_disc(before, key.0->0, key.1->0)->0,
                        )[j]);
                    } else {
                        assert(self@[j] == cur[j]);
                    }
                }
            }
            k += 1;
        }
        proof {
            assert(keys.take(k as int) =~= keys);
            assert(self@ =~= spec_backfill(before));
        }
    }
}

/// After back-fill, every row of an album that holds a row with a disc number
/// above 1 has, as disc total, the greatest disc number of the album: a disc
/// number of the album that none of the album exceeds.
pub proof fn law_backfill_sets_group_maximum(rows: Seq<TrackRecord>, i: int, j: int)
    requires
        0 <= i < rows.len(),
        0 <= j < rows.len(),
        rows[i].artist is Some,
        rows[i].album is Some,
        album_key(rows[j]) == album_key(rows[i]),
        rows[i].disc_number is Some,
        rows[i].disc_number->0 > 1,
    ensures
        spec_backfill(rows)[j].disc_total == spec_max_disc(
            rows,
            rows[i].artist->0,
            rows[i].album->0,
        ),
        spec_backfill(rows)[j].disc_total matches Some(m) && m >= rows[i].disc_number->0 && (
        forall|k: int|
            0 <= k < rows.len() && album_key(#[trigger] rows[k]) == album_key(rows[i])
                && rows[k].disc_number is Some ==> rows[k].disc_number->0 <= m) && (exists|k: int|
            0 <= k < rows.len() && album_key(#[trigger] rows[k]) == album_key(rows[i])
                && rows[k].disc_number == Some(m)),
{
    let artist = rows[i].artist->0;
    let album = rows[i].album->0;
    lemma_max_disc(rows, artist, album);
    assert(in_group(rows[i], artist, album));
    assert(in_group(rows[j], artist, album));
    let m = spec_max_disc(rows, artist, album)->0;
    assert forall|k: int|
        0 <= k < rows.len() && album_key(#[trigger] rows[k]) == album_key(rows[i])
            && rows[k].disc_number is Some implies rows[k].disc_number->0 <= m by {
        assert(in_group(rows[k], artist, album));
    }
    let w = choose|w: int|
        0 <= w < rows.len() && in_group(#[trigger] rows[w], artist, album) && rows[w].disc_number
            == Some(m);
    assert(album_key(rows[w]) == album_key(rows[i]));
}

/// Back-fill touches the disc total alone, and leaves alone every album whose
/// greatest disc number is absent or at most 1.
pub proof fn law_backfill_changes_disc_total_only(rows: Seq<TrackRecord>, j: int)
    requires
        0 <= j < rows.len(),
    ensures
        spec_backfill(rows).len() == rows.len(),
        spec_backfill(rows)[j] == (TrackRecord {
            disc_total: spec_backfill(rows)[j].disc_total,
            ..rows[j]
        }),
        rows[j].artist is None || rows[j].album is None ==> spec_backfill(rows)[j] == rows[j],
        rows[j].artist is Some && rows[j].album is Some && !(spec_max_disc(
            rows,
            rows[j].artist->0,
            rows[j].album->0,
        ) matches Some(m) && m > 1) ==> spec_backfill(rows)[j] == rows[j],
{
}

} // verus!
