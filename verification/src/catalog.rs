//! The catalog store: one relation of track records, keyed by path, held in
//! memory. It offers the access patterns that the engine needs: lookup by path,
//! insert-if-absent, update by id, and the filtered and grouped selections.

use crate::models::{copy_opt_text, records, spec_with_id, NewTrackFile, TrackFile, TrackRecord};
use crate::text::{opt_text, same_opt_text, same_text};
use vstd::prelude::*;
use vstd::string::*;

verus! {

/// No two rows share a path.
pub open spec fn unique_paths(rows: Seq<TrackRecord>) -> bool {
    forall|i: int, j: int|
        #![trigger rows[i], rows[j]]
        0 <= i < j < rows.len() ==> rows[i].path != rows[j].path
}

/// No two rows share an id.
pub open spec fn unique_ids(rows: Seq<TrackRecord>) -> bool {
    forall|i: int, j: int|
        #![trigger rows[i], rows[j]]
        0 <= i < j < rows.len() ==> rows[i].id != rows[j].id
}

/// Some row lies at `path`.
pub open spec fn has_path(rows: Seq<TrackRecord>, path: Seq<char>) -> bool {
    exists|i: int| 0 <= i < rows.len() && (#[trigger] rows[i]).path == path
}

/// Some row has the id `id`.
pub open spec fn has_id(rows: Seq<TrackRecord>, id: i32) -> bool {
    exists|i: int| 0 <= i < rows.len() && (#[trigger] rows[i]).id == id
}

/// The greatest id in use, and 0 where there is none or none is positive.
pub open spec fn spec_max_id(rows: Seq<TrackRecord>) -> int
    decreases rows.len(),
{
    if rows.len() == 0 {
        0
    } else {
        let rest = spec_max_id(rows.drop_last());
        if rows.last().id > rest {
            rows.last().id as int
        } else {
            rest
        }
    }
}

/// The row belongs to the album `album` of `artist`.
pub open spec fn in_group(row: TrackRecord, artist: Seq<char>, album: Seq<char>) -> bool {
    row.artist == Some(artist) && row.album == Some(album)
}

/// The greatest disc number among the rows of one album that have one.
pub open spec fn spec_max_disc(rows: Seq<TrackRecord>, artist: Seq<char>, album: Seq<char>)
    -> Option<i32>
    decreases rows.len(),
{
    if rows.len() == 0 {
        None
    } else {
        let rest = spec_max_disc(rows.drop_last(), artist, album);
        let row = rows.last();
        if in_group(row, artist, album) && row.disc_number is Some {
            match rest {
                Some(m) => if row.disc_number->0 > m {
                    row.disc_number
                } else {
                    rest
                },
                None => row.disc_number,
            }
        } else {
            rest
        }
    }
}

/// The rows that have not been relocated yet, in catalog order.
pub open spec fn spec_unprocessed(rows: Seq<TrackRecord>) -> Seq<TrackRecord>
    decreases rows.len(),
{
    if rows.len() == 0 {
        rows
    } else if !rows.last().processed {
        spec_unprocessed(rows.drop_last()).push(rows.last())
    } else {
        spec_unprocessed(rows.drop_last())
    }
}

/// The rows without a release year, in catalog order.
pub open spec fn spec_missing_year(rows: Seq<TrackRecord>) -> Seq<TrackRecord>
    decreases rows.len(),
{
    if rows.len() == 0 {
        rows
    } else if rows.last().year is None {
        spec_missing_year(rows.drop_last()).push(rows.last())
    } else {
        spec_missing_year(rows.drop_last())
    }
}

/// The (artist, album) pair of a row.
pub open spec fn album_key(row: TrackRecord) -> (Option<Seq<char>>, Option<Seq<char>>) {
    (row.artist, row.album)
}

/// The distinct (artist, album) pairs of the rows, each at its first occurrence.
pub open spec fn spec_distinct_albums(rows: Seq<TrackRecord>) -> Seq<
    (Option<Seq<char>>, Option<Seq<char>>),
>
    decreases rows.len(),
{
    if rows.len() == 0 {
        Seq::empty()
    } else {
        let front = spec_distinct_albums(rows.drop_last());
        if front.contains(album_key(rows.last())) {
            front
        } else {
            front.push(album_key(rows.last()))
        }
    }
}

/// New values for a subset of a row's fields. A field left at `None` keeps
/// its value; `processed` can be raised, never lowered.
#[derive(Debug, Clone)]
pub struct TrackChanges {
    pub barcode: Option<String>,
    pub artist: Option<String>,
    pub album: Option<String>,
    pub title: Option<String>,
    pub track_number: Option<i32>,
    pub disc_number: Option<i32>,
    pub disc_total: Option<i32>,
    pub year: Option<i32>,
    pub processed: bool,
}

/// View of [`TrackChanges`].
pub struct ChangesView {
    pub barcode: Option<Seq<char>>,
    pub artist: Option<Seq<char>>,
    pub album: Option<Seq<char>>,
    pub title: Option<Seq<char>>,
    pub track_number: Option<i32>,
    pub disc_number: Option<i32>,
    pub disc_total: Option<i32>,
    pub year: Option<i32>,
    pub processed: bool,
}

impl View for TrackChanges {
    type V = ChangesView;

    open spec fn view(&self) -> ChangesView {
        ChangesView {
            barcode: opt_text(self.barcode),
            artist: opt_text(self.artist),
            album: opt_text(self.album),
            title: opt_text(self.title),
            track_number: self.track_number,
            disc_number: self.disc_number,
            disc_total: self.disc_total,
            year: self.year,
            processed: self.processed,
        }
    }
}

/// `new` where it is given, else `old`.
pub open spec fn spec_pick<T>(new: Option<T>, old: Option<T>) -> Option<T> {
    if new is Some {
        new
    } else {
        old
    }
}

/// The row after the changes: id and path stay.
pub open spec fn spec_apply(row: TrackRecord, c: ChangesView) -> TrackRecord {
    TrackRecord {
        id: row.id,
        barcode: spec_pick(c.barcode, row.barcode),
        path: row.path,
        artist: spec_pick(c.artist, row.artist),
        album: spec_pick(c.album, row.album),
        title: spec_pick(c.title, row.title),
        track_number: spec_pick(c.track_number, row.track_number),
        disc_number: spec_pick(c.disc_number, row.disc_number),
        disc_total: spec_pick(c.disc_total, row.disc_total),
        year: spec_pick(c.year, row.year),
        processed: row.processed || c.processed,
    }
}

/// The rows after the row under `id`, if any, took the changes.
pub open spec fn spec_update(rows: Seq<TrackRecord>, id: i32, c: ChangesView) -> Seq<TrackRecord> {
    Seq::new(
        rows.len(),
        |i: int|
            if rows[i].id == id {
                spec_apply(rows[i], c)
            } else {
                rows[i]
            },
    )
}

/// Why the store refused a row.
#[derive(Debug, Clone, Copy, PartialEq, Eq, Structural)]
pub enum CatalogError {
    /// A row with the same path is in the catalog already.
    DuplicatePath,
    /// Every id up to the greatest 32-bit number is taken.
    IdsExhausted,
}

/// The catalog: its rows in insertion order.
#[derive(Debug)]
pub struct Catalog {
    rows: Vec<TrackFile>,
}

impl View for Catalog {
    type V = Seq<TrackRecord>;

    closed spec fn view(&self) -> Seq<TrackRecord> {
        records(self.rows@)
    }
}

/// Tells whether the row belongs to the album `album` of `artist`.
pub fn is_in_group(row: &TrackFile, artist: &str, album: &str) -> (r: bool)
    ensures
        r == in_group(row@, artist@, album@),
{
    match (&row.artist, &row.album) {
        (Some(a), Some(b)) => same_text(a.as_str(), artist) && same_text(b.as_str(), album),
        _ => false,
    }
}

/// `new` where it is given, else a copy of `old`.
fn pick_text(new: &Option<String>, old: &Option<String>) -> (r: Option<String>)
    ensures
        opt_text(r) == spec_pick(opt_text(*new), opt_text(*old)),
{
    match new {
        Some(t) => Some(t.clone()),
        None => copy_opt_text(old),
    }
}

/// `new` where it is given, else `old`.
fn pick_number(new: Option<i32>, old: Option<i32>) -> (r: Option<i32>)
    ensures
        r == spec_pick(new, old),
{
    match new {
        Some(n) => Some(n),
        None => old,
    }
}

impl TrackChanges {
    /// No change at all.
    pub fn none() -> (c: TrackChanges)
        ensures
            c@ == (ChangesView {
                barcode: None,
                artist: None,
                album: None,
                title: None,
                track_number: None,
                disc_number: None,
                disc_total: None,
                year: None,
                processed: false,
            }),
    {
        TrackChanges {
            barcode: None,
            artist: None,
            album: None,
            title: None,
            track_number: None,
            disc_number: None,
            disc_total: None,
            year: None,
            processed: false,
        }
    }

    /// The row after the changes.
    pub fn apply(&self, row: &TrackFile) -> (r: TrackFile)
        ensures
            r@ == spec_apply(row@, self@),
    {
        TrackFile {
            id: row.id,
            barcode: pick_text(&self.barcode, &row.barcode),
            path: row.path.clone(),
            artist: pick_text(&self.artist, &row.artist),
            album: pick_text(&self.album, &row.album),
            title: pick_text(&self.title, &row.title),
            track_number: pick_number(self.track_number, row.track_number),
            disc_number: pick_number(self.disc_number, row.disc_number),
            disc_total: pick_number(self.disc_total, row.disc_total),
            year: pick_number(self.year, row.year),
            processed: row.processed || self.processed,
        }
    }
}

/// Every id is at most `spec_max_id`, which is itself 0 or an id in use.
pub proof fn lemma_max_id(rows: Seq<TrackRecord>)
    ensures
        0 <= spec_max_id(rows) <= i32::MAX,
        forall|i: int| 0 <= i < rows.len() ==> (#[trigger] rows[i]).id <= spec_max_id(rows),
        spec_max_id(rows) == 0 || has_id(rows, spec_max_id(rows) as i32),
    decreases rows.len(),
{
    if rows.len() > 0 {
        let front = rows.drop_last();
        lemma_max_id(front);
        assert forall|i: int| 0 <= i < rows.len() implies (#[trigger] rows[i]).id <= spec_max_id(
            rows,
        ) by {
            if i < front.len() {
                assert(front[i] == rows[i]);
            }
        }
        let m = spec_max_id(rows);
        if m != 0 {
            if rows.last().id > spec_max_id(front) {
                assert(rows[rows.len() - 1].id == m);
            } else {
                let k = choose|k: int| 0 <= k < front.len() && (#[trigger] front[k]).id == m;
                assert(rows[k].id == m);
            }
        }
    }
}

/// What `spec_max_disc` is: nothing when no row of the album has a disc
/// number; else a disc number of the album that none of the album exceeds.
pub proof fn lemma_max_disc(rows: Seq<TrackRecord>, artist: Seq<char>, album: Seq<char>)
    ensures
        spec_max_disc(rows, artist, album) is None <==> forall|i: int|
            0 <= i < rows.len() && in_group(#[trigger] rows[i], artist, album)
                ==> rows[i].disc_number is None,
        spec_max_disc(rows, artist, album) matches Some(m) ==> {
            &&& exists|i: int|
                0 <= i < rows.len() && in_group(#[trigger] rows[i], artist, album)
                    && rows[i].disc_number == Some(m)
            &&& forall|i: int|
                0 <= i < rows.len() && in_group(#[trigger] rows[i], artist, album)
                    && rows[i].disc_number is Some ==> rows[i].disc_number->0 <= m
        },
    decreases rows.len(),
{
    if rows.len() > 0 {
        let front = rows.drop_last();
        let last = rows.len() - 1;
        lemma_max_disc(front, artist, album);
        assert(forall|i: int| 0 <= i < front.len() ==> front[i] == rows[i]);
        let rest = spec_max_disc(front, artist, album);
        let total = spec_max_disc(rows, artist, album);
        if total is None {
            assert forall|i: int|
                0 <= i < rows.len() && in_group(
                    #[trigger] rows[i],
                    artist,
                    album,
                ) implies rows[i].disc_number is None by {
                if i < last {
                    assert(front[i] == rows[i]);
                }
            }
        } else {
            let m = total->0;
            if rest == total {
                let k = choose|k: int|
                    0 <= k < front.len() && in_group(#[trigger] front[k], artist, album)
                        && front[k].disc_number == Some(m);
                assert(in_group(rows[k], artist, album) && rows[k].disc_number == Some(m));
            } else {
                assert(in_group(rows[last], artist, album) && rows[last].disc_number == Some(m));
            }
            assert forall|i: int|
                0 <= i < rows.len() && in_group(#[trigger] rows[i], artist, album)
                    && rows[i].disc_number is Some implies rows[i].disc_number->0 <= m by {
                if i < last {
                    assert(front[i] == rows[i]);
                }
            }
        }
    }
}

impl Catalog {
    /// The catalog is well formed: paths are unique, and so are ids.
    pub open spec fn wf(&self) -> bool {
        unique_paths(self@) && unique_ids(self@)
    }

    /// The empty catalog.
    pub fn new() -> (c: Catalog)
        ensures
            c.wf(),
            c@ == Seq::<TrackRecord>::empty(),
    {
        let c = Catalog { rows: Vec::new() };
        assert(c@ =~= Seq::<TrackRecord>::empty());
        c
    }

    /// The catalog of the given rows, if no two of them share a path or an id.
    pub fn from_rows(rows: Vec<TrackFile>) -> (r: Option<Catalog>)
        ensures
            r is Some <==> unique_paths(records(rows@)) && unique_ids(records(rows@)),
            r matches Some(c) ==> c.wf() && c@ == records(rows@),
    {
        let ghost all = records(rows@);
        let mut j: usize = 0;
        while j < rows.len()
            invariant
                all == records(rows@),
                j <= rows.len(),
                forall|a: int, b: int|
                    #![trigger all[a], all[b]]
                    0 <= a < b < j ==> all[a].path != all[b].path && all[a].id != all[b].id,
            decreases rows.len() - j,
        {
            let mut i: usize = 0;
            while i < j
                invariant
                    all == records(rows@),
                    i <= j < rows.len(),
                    forall|a: int|
                        #![trigger all[a]]
                        0 <= a < i ==> all[a].path != all[j as int].path && all[a].id
                            != all[j as int].id,
                decreases j - i,
            {
                if rows[i].id == rows[j].id || same_text(
                    rows[i].path.as_str(),
                    rows[j].path.as_str(),
                ) {
                    assert(all[i as int].id == all[j as int].id || all[i as int].path
                        == all[j as int].path);
                    return None;
                }
                i += 1;
            }
            j += 1;
        }
        Some(Catalog { rows })
    }

    /// Number of rows.
    pub fn len(&self) -> (n: usize)
        ensures
            n == self@.len(),
    {
        self.rows.len()
    }

    /// The rows, in insertion order.
    pub fn rows(&self) -> (r: &Vec<TrackFile>)
        ensures
            records(r@) == self@,
    {
        &self.rows
    }

    /// Where the row at `path` stands.
    pub fn position_of_path(&self, path: &str) -> (r: Option<usize>)
        ensures
            r is Some <==> has_path(self@, path@),
            r matches Some(i) ==> i < self@.len() && self@[i as int].path == path@,
    {
        let mut i: usize = 0;
        while i < self.rows.len()
            invariant
                i <= self.rows.len(),
                forall|k: int| 0 <= k < i ==> (#[trigger] self@[k]).path != path@,
            decreases self.rows.len() - i,
        {
            if same_text(self.rows[i].path.as_str(), path) {
                assert(self@[i as int].path == path@);
                return Some(i);
            }
            i += 1;
        }
        None
    }

    /// Where the row under `id` stands.
    pub fn position_of_id(&self, id: i32) -> (r: Option<usize>)
        ensures
            r is Some <==> has_id(self@, id),
            r matches Some(i) ==> i < self@.len() && self@[i as int].id == id,
    {
        let mut i: usize = 0;
        while i < self.rows.len()
            invariant
                i <= self.rows.len(),
                forall|k: int| 0 <= k < i ==> (#[trigger] self@[k]).id != id,
            decreases self.rows.len() - i,
        {
            if self.rows[i].id == id {
                assert(self@[i as int].id == id);
                return Some(i);
            }
            i += 1;
        }
        None
    }

    /// Point lookup: the row at `path`, if the catalog has one.
    pub fn find_by_path(&self, path: &str) -> (r: Option<&TrackFile>)
        ensures
            r is Some <==> has_path(self@, path@),
            r matches Some(t) ==> t@.path == path@ && self@.contains(t@),
    {
        match self.position_of_path(path) {
            Some(i) => {
                assert(self@[i as int] == self.rows[i as int]@);
                Some(&self.rows[i])
            },
            None => None,
        }
    }

    /// The id that the next inserted row gets: one more than the greatest in
    /// use; nothing when that does not fit.
    pub fn next_id(&self) -> (r: Option<i32>)
        ensures
            r is Some <==> spec_max_id(self@) < i32::MAX,
            r matches Some(id) ==> id == spec_max_id(self@) + 1,
    {
        let mut best: i32 = 0;
        let mut i: usize = 0;
        assert(self@.take(0) =~= Seq::<TrackRecord>::empty());
        while i < self.rows.len()
            invariant
                i <= self.rows.len(),
                best == spec_max_id(self@.take(i as int)),
            decreases self.rows.len() - i,
        {
            assert(self@.take(i + 1).drop_last() =~= self@.take(i as int));
            assert(self@.take(i + 1).last() == self.rows[i as int]@);
            if self.rows[i].id > best {
                best = self.rows[i].id;
            }
            i += 1;
        }
        assert(self@.take(i as int) =~= self@);
        if best < i32::MAX {
            Some(best + 1)
        } else {
            None
        }
    }

    /// Insert-if-absent. The row enters at the end under a fresh id, which is
    /// returned. A path that is in the catalog already is refused, and so is
    /// any row once the ids are used up; the catalog then stays as it was.
    pub fn insert(&mut self, new: &NewTrackFile) -> (r: Result<i32, CatalogError>)
        requires
            old(self).wf(),
        ensures
            final(self).wf(),
            has_path(old(self)@, new@.path) ==> r == Err::<i32, CatalogError>(
                CatalogError::DuplicatePath,
            ),
            !has_path(old(self)@, new@.path) && spec_max_id(old(self)@) >= i32::MAX ==> r == Err::<
                i32,
                CatalogError,
            >(CatalogError::IdsExhausted),
            !has_path(old(self)@, new@.path) && spec_max_id(old(self)@) < i32::MAX ==> r == Ok::<
                i32,
                CatalogError,
            >((spec_max_id(old(self)@) + 1) as i32),
            r is Err ==> final(self)@ == old(self)@,
            r matches Ok(id) ==> final(self)@ == old(self)@.push(spec_with_id(new@, id)),
    {
        if self.position_of_path(new.path).is_some() {
            return Err(CatalogError::DuplicatePath);
        }
        match self.next_id() {
            None => Err(CatalogError::IdsExhausted),
            Some(id) => {
                let row = new.with_id(id);
                proof {
                    lemma_max_id(self@);
                }
                let ghost before = self@;
                self.rows.push(row);
                assert(self@ =~= before.push(spec_with_id(new@, id)));
                assert forall|i: int, j: int|
                    #![trigger self@[i], self@[j]]
                    0 <= i < j < self@.len() implies self@[i].path != self@[j].path && self@[i].id
                    != self@[j].id by {
                    assert(self@[i] == before[i]);
                    if j < before.len() {
                        assert(self@[j] == before[j]);
                    }
                }
                Ok(id)
            },
        }
    }

    /// Update by id: the row under `id` takes the changes. Tells whether there
    /// is such a row.
    pub fn update(&mut self, id: i32, changes: &TrackChanges) -> (found: bool)
        requires
            old(self).wf(),
        ensures
            final(self).wf(),
            found == has_id(old(self)@, id),
            final(self)@ == spec_update(old(self)@, id, changes@),
    {
        let ghost before = self@;
        match self.position_of_id(id) {
            None => {
                assert(self@ =~= spec_update(before, id, changes@));
                false
            },
            Some(i) => {
                let row = changes.apply(&self.rows[i]);
                self.rows.set(i, row);
                assert forall|k: int| 0 <= k < before.len() implies #[trigger] self@[k]
                    == spec_update(before, id, changes@)[k] by {
                    if k != i {
                        assert(before[k] == self@[k]);
                        if k < i {
                            assert(before[k].id != before[i as int].id);
                        } else {
                            assert(before[i as int].id != before[k].id);
                        }
                    }
                }
                assert(self@ =~= spec_update(before, id, changes@));
                true
            },
        }
    }

    /// Copies of the rows that have not been relocated yet.
    pub fn select_unprocessed(&self) -> (r: Vec<TrackFile>)
        ensures
            records(r@) == spec_unprocessed(self@),
    {
        let mut out: Vec<TrackFile> = Vec::new();
        let mut i: usize = 0;
        assert(self@.take(0) =~= Seq::<TrackRecord>::empty());
        assert(records(out@) =~= Seq::<TrackRecord>::empty());
        while i < self.rows.len()
            invariant
                i <= self.rows.len(),
                records(out@) == spec_unprocessed(self@.take(i as int)),
            decreases self.rows.len() - i,
        {
            assert(self@.take(i + 1).drop_last() =~= self@.take(i as int));
            assert(self@.take(i + 1).last() == self.rows[i as int]@);
            if !self.rows[i].processed {
                let ghost before = records(out@);
                let copy = self.rows[i].duplicate();
                out.push(copy);
                assert(records(out@) =~= before.push(copy@));
            }
            i += 1;
        }
        assert(self@.take(i as int) =~= self@);
        out
    }

    /// Copies of the rows without a release year.
    pub fn select_missing_year(&self) -> (r: Vec<TrackFile>)
        ensures
            records(r@) == spec_missing_year(self@),
    {
        let mut out: Vec<TrackFile> = Vec::new();
        let mut i: usize = 0;
        assert(self@.take(0) =~= Seq::<TrackRecord>::empty());
        assert(records(out@) =~= Seq::<TrackRecord>::empty());
        while i < self.rows.len()
            invariant
                i <= self.rows.len(),
                records(out@) == spec_missing_year(self@.take(i as int)),
            decreases self.rows.len() - i,
        {
            assert(self@.take(i + 1).drop_last() =~= self@.take(i as int));
            assert(self@.take(i + 1).last() == self.rows[i as int]@);
            if self.rows[i].year.is_none() {
                let ghost before = records(out@);
                let copy = self.rows[i].duplicate();
                out.push(copy);
                assert(records(out@) =~= before.push(copy@));
            }
            i += 1;
        }
        assert(self@.take(i as int) =~= self@);
        out
    }

    /// The greatest disc number among the rows of one album that have one.
    pub fn max_disc_number(&self, artist: &str, album: &str) -> (r: Option<i32>)
        ensures
            r == spec_max_disc(self@, artist@, album@),
    {
        let mut best: Option<i32> = None;
        let mut i: usize = 0;
        assert(self@.take(0) =~= Seq::<TrackRecord>::empty());
        while i < self.rows.len()
            invariant
                i <= self.rows.len(),
                best == spec_max_disc(self@.take(i as int), artist@, album@),
            decreases self.rows.len() - i,
        {
            assert(self@.take(i + 1).drop_last() =~= self@.take(i as int));
            assert(self@.take(i + 1).last() == self.rows[i as int]@);
            let row = &self.rows[i];
            if is_in_group(row, artist, album) {
                match (row.disc_number, best) {
                    (Some(d), Some(m)) => {
                        if d > m {
                            best = Some(d);
                        }
                    },
                    (Some(d), None) => {
                        best = Some(d);
                    },
                    (None, _) => {},
                }
            }
            i += 1;
        }
        assert(self@.take(i as int) =~= self@);
        best
    }
}


/// The views of a sequence of (artist, album) pairs.
pub open spec fn pair_views(pairs: Seq<(Option<String>, Option<String>)>) -> Seq<
    (Option<Seq<char>>, Option<Seq<char>>),
> {
    Seq::new(pairs.len(), |i: int| (opt_text(pairs[i].0), opt_text(pairs[i].1)))
}

/// The row with its disc total set.
pub open spec fn spec_with_disc_total(row: TrackRecord, total: i32) -> TrackRecord {
    TrackRecord { disc_total: Some(total), ..row }
}

/// The rows after every row of one album got the disc total `total`.
pub open spec fn spec_set_album_total(
    rows: Seq<TrackRecord>,
    artist: Seq<char>,
    album: Seq<char>,
    total: i32,
) -> Seq<TrackRecord> {
    Seq::new(
        rows.len(),
        |i: int|
            if in_group(rows[i], artist, album) {
                spec_with_disc_total(rows[i], total)
            } else {
                rows[i]
            },
    )
}

/// The distinct pairs are exactly the pairs of the rows, each once.
pub proof fn lemma_distinct_albums(rows: Seq<TrackRecord>)
    ensures
        spec_distinct_albums(rows).no_duplicates(),
        forall|i: int|
            0 <= i < rows.len() ==> spec_distinct_albums(rows).contains(
                album_key(#[trigger] rows[i]),
            ),
        forall|k: int|
            0 <= k < spec_distinct_albums(rows).len() ==> exists|i: int|
                0 <= i < rows.len() && album_key(#[trigger] rows[i]) == (
                #[trigger] spec_distinct_albums(rows)[k]),
    decreases rows.len(),
{
    if rows.len() > 0 {
        let front = rows.drop_last();
        let last = rows.len() - 1;
        lemma_distinct_albums(front);
        let f = spec_distinct_albums(front);
        let d = spec_distinct_albums(rows);
        assert(forall|i: int| 0 <= i < front.len() ==> front[i] == rows[i]);
        assert forall|i: int| 0 <= i < rows.len() implies d.contains(
            album_key(#[trigger] rows[i]),
        ) by {
            if i < last {
                assert(front[i] == rows[i]);
                let k = choose|k: int| 0 <= k < f.len() && f[k] == album_key(front[i]);
                assert(d[k] == album_key(rows[i]));
            } else {
                if f.contains(album_key(rows[last])) {
                } else {
                    assert(d[d.len() - 1] == album_key(rows[i]));
                }
            }
        }
        assert forall|k: int| 0 <= k < d.len() implies exists|i: int|
            0 <= i < rows.len() && album_key(#[trigger] rows[i]) == (#[trigger] d[k]) by {
            if k < f.len() {
                let i = choose|i: int|
                    0 <= i < front.len() && album_key(#[trigger] front[i]) == f[k];
                assert(album_key(rows[i]) == d[k]);
            } else {
                assert(album_key(rows[last]) == d[k]);
            }
        }
    }
}

impl Catalog {
    /// Select distinct: the (artist, album) pairs of the rows, each once, in
    /// the order of their first occurrence.
    pub fn distinct_albums(&self) -> (r: Vec<(Option<String>, Option<String>)>)
        ensures
            pair_views(r@) == spec_distinct_albums(self@),
    {
        let mut out: Vec<(Option<String>, Option<String>)> = Vec::new();
        let mut i: usize = 0;
        assert(self@.take(0) =~= Seq::<TrackRecord>::empty());
        assert(pair_views(out@) =~= spec_distinct_albums(self@.take(0)));
        while i < self.rows.len()
            invariant
                i <= self.rows.len(),
                pair_views(out@) == spec_distinct_albums(self@.take(i as int)),
            decreases self.rows.len() - i,
        {
            assert(self@.take(i + 1).drop_last() =~= self@.take(i as int));
            assert(self@.take(i + 1).last() == self.rows[i as int]@);
            let row = &self.rows[i];
            let ghost key = album_key(row@);
            let ghost seen = pair_views(out@);
            let mut known = false;
            let mut k: usize = 0;
            while k < out.len() && !known
                invariant
                    k <= out.len(),
                    seen == pair_views(out@),
                    key == album_key(row@),
                    known ==> seen.contains(key),
                    !known ==> forall|j: int| 0 <= j < k ==> seen[j] != key,
                decreases out.len() - k + if known { 0int } else { 1int },
            {
                if same_opt_text(&out[k].0, &row.artist) && same_opt_text(&out[k].1, &row.album) {
                    assert(seen[k as int] == key);
                    known = true;
                } else {
                    k += 1;
                }
            }
            if !known {
                out.push((copy_opt_text(&row.artist), copy_opt_text(&row.album)));
                assert(pair_views(out@) =~= seen.push(key));
            }
            i += 1;
        }
        assert(self@.take(i as int) =~= self@);
        out
    }

    /// Update filtered by album: every row of the album gets the disc total
    /// `total`; the other rows stay.
    pub fn set_album_disc_total(&mut self, artist: &str, album: &str, total: i32)
        requires
            old(self).wf(),
        ensures
            final(self).wf(),
            final(self)@ == spec_set_album_total(old(self)@, artist@, album@, total),
    {
        let ghost before = self@;
        let mut i: usize = 0;
        while i < self.rows.len()
            invariant
                i <= self.rows.len(),
                self@.len() == before.len(),
                forall|k: int|
                    0 <= k < i ==> #[trigger] self@[k] == spec_set_album_total(
                        before,
                        artist@,
                        album@,
                        total,
                    )[k],
                forall|k: int| i <= k < before.len() ==> #[trigger] self@[k] == before[k],
            decreases self.rows.len() - i,
        {
            let row = &self.rows[i];
            assert(self@[i as int] == before[i as int]);
            if is_in_group(row, artist, album) {
                let mut changes = TrackChanges::none();
                changes.disc_total = Some(total);
                let ghost cur = self@;
                let next = changes.apply(row);
                self.rows.set(i, next);
                assert(self@ =~= cur.update(i as int, next@));
                assert(next@ == spec_with_disc_total(before[i as int], total));
            }
            i += 1;
        }
        assert(self@ =~= spec_set_album_total(before, artist@, album@, total));
        assert forall|a: int, b: int|
            #![trigger self@[a], self@[b]]
            0 <= a < b < self@.len() implies self@[a].path != self@[b].path && self@[a].id
            != self@[b].id by {
            assert(self@[a].path == before[a].path && self@[a].id == before[a].id);
            assert(self@[b].path == before[b].path && self@[b].id == before[b].id);
        }
    }
}

} // verus!
