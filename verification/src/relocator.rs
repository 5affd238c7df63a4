//! Relocation: the canonical target path of a track, computed from its catalog
//! fields, and the bookkeeping of the processed flag.

use crate::catalog::{spec_unprocessed, unique_ids, TrackChanges};
use crate::media_organizer::MediaOrganizer;
use crate::models::{records, TrackFile, TrackRecord};
use crate::text::{extension_of, spec_extension, spec_zero_padded, zero_padded};
use vstd::prelude::*;
use vstd::string::*;

verus! {

/// What `sanitize_filename::sanitize_with_options` returns for a name under the
/// given options.
pub uninterp spec fn sanitized(
    name: Seq<char>,
    windows: bool,
    truncate: bool,
    replacement: Seq<char>,
) -> Seq<char>;

/// Calls `sanitize_filename::sanitize_with_options`. Its result is a function
/// of the name and the three options, and is named `sanitized`. With the empty
/// replacement every match of the illegal-character class, which holds `/`, is
/// deleted, and the later steps only delete or cut; so the result has no `/`.
#[verifier::external_body]
fn sanitize_with(name: &str, windows: bool, truncate: bool, replacement: &str) -> (r: String)
    ensures
        r@ == sanitized(name@, windows, truncate, replacement@),
        replacement@.len() == 0 ==> !r@.contains('/'),
{
    sanitize_filename::sanitize_with_options(
        name,
        sanitize_filename::Options { windows, truncate, replacement },
    )
}

/// A name as a path segment: sanitized by the rules that hold on every
/// platform, cut to the length limit, with nothing put in place of what is
/// taken out. These are the options that `sanitize_filename::sanitize` takes
/// wherever the target is not Windows.
pub open spec fn spec_segment(name: Seq<char>) -> Seq<char> {
    sanitized(name, false, true, Seq::<char>::empty())
}

/// A name as a path segment, safe for the file system.
pub fn sanitize_segment(name: &str) -> (r: String)
    ensures
        r@ == spec_segment(name@),
        !r@.contains('/'),
{
    proof {
        reveal_strlit("");
        assert(""@ =~= Seq::<char>::empty());
    }
    sanitize_with(name, false, true, "")
}

/// `{base}/{artist}`
pub open spec fn spec_artist_dir(base: Seq<char>, artist: Seq<char>) -> Seq<char> {
    base + seq!['/'] + artist
}

/// `{artist_dir}/{album} ({year:04})`
pub open spec fn spec_album_dir(artist_dir: Seq<char>, album: Seq<char>, year: i32) -> Seq<char> {
    artist_dir + seq!['/'] + album + seq![' ', '('] + spec_zero_padded(year as int, 4) + seq![')']
}

/// `{album_dir}/Disc {disc_number:02}`
pub open spec fn spec_disc_dir(album_dir: Seq<char>, disc_number: i32) -> Seq<char> {
    album_dir + seq!['/', 'D', 'i', 's', 'c', ' '] + spec_zero_padded(disc_number as int, 2)
}

/// `{dir}/{track_number:02} - {title}.{extension}`
pub open spec fn spec_track_file(
    dir: Seq<char>,
    track_number: i32,
    title: Seq<char>,
    extension: Seq<char>,
) -> Seq<char> {
    dir + seq!['/'] + spec_zero_padded(track_number as int, 2) + seq![' ', '-', ' '] + title
        + seq!['.'] + extension
}

/// The directories of a canonical path, outermost first, and the path itself.
#[derive(Debug)]
pub struct Layout {
    pub directories: Vec<String>,
    pub target: String,
}

/// View of a [`Layout`].
pub struct LayoutView {
    pub directories: Seq<Seq<char>>,
    pub target: Seq<char>,
}

impl View for Layout {
    type V = LayoutView;

    open spec fn view(&self) -> LayoutView {
        LayoutView {
            directories: Seq::new(self.directories@.len(), |i: int| self.directories@[i]@),
            target: self.target@,
        }
    }
}

/// The canonical layout of a track:
/// `{base}/{artist}/{album} ({year:04})/[Disc {disc_number:02}/]{track_number:02} - {title}.{extension}`,
/// with the disc directory exactly when the album has more than one disc.
pub open spec fn spec_layout(
    base: Seq<char>,
    artist: Seq<char>,
    album: Seq<char>,
    title: Seq<char>,
    year: i32,
    track_number: i32,
    disc_number: i32,
    disc_total: i32,
    extension: Seq<char>,
) -> LayoutView {
    let artist_dir = spec_artist_dir(base, artist);
    let album_dir = spec_album_dir(artist_dir, album, year);
    if disc_total > 1 {
        let disc_dir = spec_disc_dir(album_dir, disc_number);
        LayoutView {
            directories: seq![artist_dir, album_dir, disc_dir],
            target: spec_track_file(disc_dir, track_number, title, extension),
        }
    } else {
        LayoutView {
            directories: seq![artist_dir, album_dir],
            target: spec_track_file(album_dir, track_number, title, extension),
        }
    }
}

/// Builds the canonical layout from segments that are sanitized already.
pub fn canonical_layout(
    base: &str,
    artist: &str,
    album: &str,
    title: &str,
    year: i32,
    track_number: i32,
    disc_number: i32,
    disc_total: i32,
    extension: &str,
) -> (r: Layout)
    ensures
        r@ == spec_layout(
            base@,
            artist@,
            album@,
            title@,
            year,
            track_number,
            disc_number,
            disc_total,
            extension@,
        ),
{
    proof {
        reveal_strlit("/");
        reveal_strlit(" (");
        reveal_strlit(")");
        reveal_strlit("/Disc ");
        reveal_strlit(" - ");
        reveal_strlit(".");
        assert("/"@ =~= seq!['/']);
        assert(" ("@ =~= seq![' ', '(']);
        assert(")"@ =~= seq![')']);
        assert("/Disc "@ =~= seq!['/', 'D', 'i', 's', 'c', ' ']);
        assert(" - "@ =~= seq![' ', '-', ' ']);
        assert("."@ =~= seq!['.']);
    }
    let mut directories: Vec<String> = Vec::new();

    let mut artist_dir = base.to_owned();
    artist_dir.append("/");
    artist_dir.append(artist);
    assert(artist_dir@ == spec_artist_dir(base@, artist@));

    let mut album_dir = artist_dir.clone();
    album_dir.append("/");
    album_dir.append(album);
    album_dir.append(" (");
    album_dir.append(zero_padded(year, 4).as_str());
    album_dir.append(")");
    assert(album_dir@ == spec_album_dir(artist_dir@, album@, year));

    let mut target = album_dir.clone();
    directories.push(artist_dir);
    directories.push(album_dir);
    if disc_total > 1 {
        target.append("/Disc ");
        target.append(zero_padded(disc_number, 2).as_str());
        directories.push(target.clone());
    }
    let ghost dir = target@;
    target.append("/");
    target.append(zero_padded(track_number, 2).as_str());
    target.append(" - ");
    target.append(title);
    target.append(".");
    target.append(extension);
    assert(target@ == spec_track_file(dir, track_number, title@, extension@));
    let r = Layout { directories, target };
    assert(r@.directories =~= spec_layout(
        base@,
        artist@,
        album@,
        title@,
        year,
        track_number,
        disc_number,
        disc_total,
        extension@,
    ).directories);
    r
}


/// A row can be relocated: it is not processed yet, and artist, album, title,
/// year and track number are all present.
pub open spec fn spec_eligible(row: TrackRecord) -> bool {
    &&& !row.processed
    &&& row.artist is Some
    &&& row.album is Some
    &&& row.title is Some
    &&& row.year is Some
    &&& row.track_number is Some
}

/// A disc number or disc total, taken as 1 where it is absent.
pub open spec fn spec_or_one(v: Option<i32>) -> i32 {
    match v {
        Some(n) => n,
        None => 1,
    }
}

/// One planned move: the row, where its file lies, the directories to create
/// if absent (outermost first), and where the file goes.
#[derive(Debug)]
pub struct Relocation {
    pub id: i32,
    pub source: String,
    pub directories: Vec<String>,
    pub target: String,
}

/// View of a [`Relocation`].
pub struct RelocationView {
    pub id: i32,
    pub source: Seq<char>,
    pub directories: Seq<Seq<char>>,
    pub target: Seq<char>,
}

impl View for Relocation {
    type V = RelocationView;

    open spec fn view(&self) -> RelocationView {
        RelocationView {
            id: self.id,
            source: self.source@,
            directories: Seq::new(self.directories@.len(), |i: int| self.directories@[i]@),
            target: self.target@,
        }
    }
}

/// The views of a sequence of planned moves.
pub open spec fn relocation_views(plan: Seq<Relocation>) -> Seq<RelocationView> {
    Seq::new(plan.len(), |i: int| plan[i]@)
}

/// The move of an eligible row under `base`: artist, album and title go in as
/// sanitized segments, the extension is what follows the last `.` of the path.
pub open spec fn spec_relocation(base: Seq<char>, row: TrackRecord) -> RelocationView {
    let layout = spec_layout(
        base,
        spec_segment(row.artist->0),
        spec_segment(row.album->0),
        spec_segment(row.title->0),
        row.year->0,
        row.track_number->0,
        spec_or_one(row.disc_number),
        spec_or_one(row.disc_total),
        spec_extension(row.path),
    );
    RelocationView {
        id: row.id,
        source: row.path,
        directories: layout.directories,
        target: layout.target,
    }
}

/// The moves of the eligible rows, in catalog order.
pub open spec fn spec_plan(rows: Seq<TrackRecord>, base: Seq<char>) -> Seq<RelocationView>
    decreases rows.len(),
{
    if rows.len() == 0 {
        Seq::empty()
    } else if spec_eligible(rows.last()) {
        spec_plan(rows.drop_last(), base).push(spec_relocation(base, rows.last()))
    } else {
        spec_plan(rows.drop_last(), base)
    }
}

/// The row with the processed flag raised.
pub open spec fn spec_processed(row: TrackRecord) -> TrackRecord {
    TrackRecord { processed: true, ..row }
}

/// The rows after the move of the row under `id` was confirmed: that row is
/// processed if it was eligible; every other row stays.
pub open spec fn spec_confirm(rows: Seq<TrackRecord>, id: i32) -> Seq<TrackRecord> {
    Seq::new(
        rows.len(),
        |i: int|
            if rows[i].id == id && spec_eligible(rows[i]) {
                spec_processed(rows[i])
            } else {
                rows[i]
            },
    )
}

/// The rows after the moves under `ids` were confirmed, one after the other.
pub open spec fn spec_confirm_all(rows: Seq<TrackRecord>, ids: Seq<i32>) -> Seq<TrackRecord>
    decreases ids.len(),
{
    if ids.len() == 0 {
        rows
    } else {
        spec_confirm(spec_confirm_all(rows, ids.drop_last()), ids.last())
    }
}

/// The ids of a plan, in order.
pub open spec fn spec_plan_ids(plan: Seq<RelocationView>) -> Seq<i32> {
    Seq::new(plan.len(), |k: int| plan[k].id)
}

/// Tells whether a row can be relocated.
pub fn is_eligible(track: &TrackFile) -> (r: bool)
    ensures
        r == spec_eligible(track@),
{
    !track.processed && track.artist.is_some() && track.album.is_some() && track.title.is_some()
        && track.year.is_some() && track.track_number.is_some()
}

/// Plans the move of one row under `base_dir`. A row that is processed, or that
/// lacks artist, album, title, year or track number, has no move.
pub fn plan_relocation(track: &TrackFile, base_dir: &str) -> (r: Option<Relocation>)
    ensures
        r is Some <==> spec_eligible(track@),
        r matches Some(p) ==> p@ == spec_relocation(base_dir@, track@),
        r is Some ==> !spec_segment(track@.artist->0).contains('/') && !spec_segment(
            track@.album->0,
        ).contains('/') && !spec_segment(track@.title->0).contains('/'),
        r matches Some(p) ==> forall|k: int|
            base_dir@.len() < k < p@.directories[0].len() ==> p@.directories[0][k] != '/',
{
    if track.processed {
        return None;
    }
    match (&track.artist, &track.album, &track.title, track.year, track.track_number) {
        (Some(artist), Some(album), Some(title), Some(year), Some(track_number)) => {
            let extension = extension_of(track.path.as_str());
            let artist = sanitize_segment(artist.as_str());
            let album = sanitize_segment(album.as_str());
            let title = sanitize_segment(title.as_str());
            let disc_number = match track.disc_number {
                Some(n) => n,
                None => 1,
            };
            let disc_total = match track.disc_total {
                Some(n) => n,
                None => 1,
            };
            let layout = canonical_layout(
                base_dir,
                artist.as_str(),
                album.as_str(),
                title.as_str(),
                year,
                track_number,
                disc_number,
                disc_total,
                extension.as_str(),
            );
            let Layout { directories, target } = layout;
            let p = Relocation { id: track.id, source: track.path.clone(), directories, target };
            proof {
                assert(p@.directories =~= layout@.directories);
                lemma_artist_directory_is_one_level(base_dir@, track@);
            }
            Some(p)
        },
        _ => None,
    }
}

impl MediaOrganizer {
    /// Plans the relocation pass under `base_dir`: one move for every eligible
    /// row, in catalog order. Nothing is changed; each move that succeeds is
    /// to be confirmed with `confirm_relocation`.
    pub fn move_media_by_metadata(&self, base_dir: &str) -> (plan: Vec<Relocation>)
        ensures
            relocation_views(plan@) == spec_plan(self@, base_dir@),
    {
        let tracks = self.catalog.select_unprocessed();
        let ghost pending = records(tracks@);
        let mut plan: Vec<Relocation> = Vec::new();
        let mut i: usize = 0;
        assert(pending.take(0) =~= Seq::<TrackRecord>::empty());
        assert(relocation_views(plan@) =~= Seq::<RelocationView>::empty());
        while i < tracks.len()
            invariant
                i <= tracks.len(),
                pending == records(tracks@),
                relocation_views(plan@) == spec_plan(pending.take(i as int), base_dir@),
            decreases tracks.len() - i,
        {
            assert(pending.take(i + 1).drop_last() =~= pending.take(i as int));
            assert(pending.take(i + 1).last() == tracks[i as int]@);
            match plan_relocation(&tracks[i], base_dir) {
                Some(p) => {
                    let ghost before = relocation_views(plan@);
                    let ghost pv = p@;
                    plan.push(p);
                    assert(relocation_views(plan@) =~= before.push(pv));
                },
                None => {},
            }
            i += 1;
        }
        proof {
            assert(pending.take(i as int) =~= pending);
            lemma_plan_of_unprocessed(self@, base_dir@);
        }
        plan
    }

    /// Records that the file of the row under `id` was moved: the row becomes
    /// processed. Only an eligible row can be confirmed; the result tells
    /// whether `id` names one. Every other row stays as it is, and so does the
    /// row's path: a row keeps the path under which its file was found. A move
    /// that was made and not confirmed is planned again by the next pass.
    pub fn confirm_relocation(&mut self, id: i32) -> (confirmed: bool)
        requires
            old(self).wf(),
        ensures
            final(self).wf(),
            final(self)@ == spec_confirm(old(self)@, id),
            confirmed == (exists|i: int|
                0 <= i < old(self)@.len() && (#[trigger] old(self)@[i]).id == id && spec_eligible(
                    old(self)@[i],
                )),
    {
        let ghost before = self@;
        match self.catalog.position_of_id(id) {
            None => {
                assert(self@ =~= spec_confirm(before, id));
                false
            },
            Some(i) => {
                let rows = self.catalog.rows();
                assert(records(rows@)[i as int] == rows@[i as int]@);
                if is_eligible(&rows[i]) {
                    let mut changes = TrackChanges::none();
                    changes.processed = true;
                    self.catalog.update(id, &changes);
                    assert forall|k: int| 0 <= k < before.len() implies #[trigger] self@[k]
                        == spec_confirm(before, id)[k] by {
                        if before[k].id == id {
                            if k < i {
                                assert(before[k].id != before[i as int].id);
                            } else if k > i {
                                assert(before[i as int].id != before[k].id);
                            }
                        }
                    }
                    assert(self@ =~= spec_confirm(before, id));
                    true
                } else {
                    assert forall|k: int| 0 <= k < before.len() implies !(before[k].id == id
                        && spec_eligible(#[trigger] before[k])) by {
                        if before[k].id == id {
                            if k < i {
                                assert(before[k].id != before[i as int].id);
                            } else if k > i {
                                assert(before[i as int].id != before[k].id);
                            }
                        }
                    }
                    assert(self@ =~= spec_confirm(before, id));
                    false
                }
            },
        }
    }
}

/// Planning over the unprocessed rows is planning over all rows: a processed
/// row has no move.
pub proof fn lemma_plan_of_unprocessed(rows: Seq<TrackRecord>, base: Seq<char>)
    ensures
        spec_plan(spec_unprocessed(rows), base) == spec_plan(rows, base),
    decreases rows.len(),
{
    if rows.len() > 0 {
        lemma_plan_of_unprocessed(rows.drop_last(), base);
        if !rows.last().processed {
            let kept = spec_unprocessed(rows.drop_last()).push(rows.last());
            assert(kept.drop_last() =~= spec_unprocessed(rows.drop_last()));
        }
    }
}

/// What a plan holds: one move for each eligible row and none besides.
pub proof fn lemma_plan(rows: Seq<TrackRecord>, base: Seq<char>)
    ensures
        forall|i: int|
            0 <= i < rows.len() && spec_eligible(#[trigger] rows[i]) ==> spec_plan(
                rows,
                base,
            ).contains(spec_relocation(base, rows[i])),
        forall|k: int|
            0 <= k < spec_plan(rows, base).len() ==> exists|i: int|
                0 <= i < rows.len() && spec_eligible(#[trigger] rows[i]) && spec_relocation(
                    base,
                    rows[i],
                ) == (#[trigger] spec_plan(rows, base)[k]),
    decreases rows.len(),
{
    if rows.len() > 0 {
        let front = rows.drop_last();
        let last = rows.len() - 1;
        lemma_plan(front, base);
        let f = spec_plan(front, base);
        let p = spec_plan(rows, base);
        assert forall|i: int| 0 <= i < rows.len() && spec_eligible(#[trigger] rows[i]) implies p.contains(
            spec_relocation(base, rows[i]),
        ) by {
            if i < last {
                assert(front[i] == rows[i]);
                let k = choose|k: int| 0 <= k < f.len() && f[k] == spec_relocation(base, front[i]);
                assert(p[k] == spec_relocation(base, rows[i]));
            } else {
                assert(p[p.len() - 1] == spec_relocation(base, rows[i]));
            }
        }
        assert forall|k: int| 0 <= k < p.len() implies exists|i: int|
            0 <= i < rows.len() && spec_eligible(#[trigger] rows[i]) && spec_relocation(
                base,
                rows[i],
            ) == (#[trigger] p[k]) by {
            if k < f.len() {
                let i = choose|i: int|
                    0 <= i < front.len() && spec_eligible(#[trigger] front[i]) && spec_relocation(
                        base,
                        front[i],
                    ) == f[k];
                assert(front[i] == rows[i]);
            } else {
                assert(spec_eligible(rows[last]));
                assert(spec_relocation(base, rows[last]) == p[k]);
            }
        }
    } else {
        assert(spec_plan(rows, base).len() == 0);
    }
}

/// What a run of confirmations does: an eligible row whose id is among `ids`
/// becomes processed, and every other row stays as it is.
pub proof fn lemma_confirm_all(rows: Seq<TrackRecord>, ids: Seq<i32>)
    ensures
        spec_confirm_all(rows, ids).len() == rows.len(),
        forall|i: int|
            0 <= i < rows.len() ==> #[trigger] spec_confirm_all(rows, ids)[i] == (if spec_eligible(
                rows[i],
            ) && ids.contains(rows[i].id) {
                spec_processed(rows[i])
            } else {
                rows[i]
            }),
    decreases ids.len(),
{
    if ids.len() > 0 {
        let front = ids.drop_last();
        let last = ids.last();
        lemma_confirm_all(rows, front);
        let prev = spec_confirm_all(rows, front);
        let next = spec_confirm_all(rows, ids);
        assert forall|i: int| 0 <= i < rows.len() implies #[trigger] next[i] == (if spec_eligible(
            rows[i],
        ) && ids.contains(rows[i].id) {
            spec_processed(rows[i])
        } else {
            rows[i]
        }) by {
            let id = rows[i].id;
            if front.contains(id) {
                let w = choose|w: int| 0 <= w < front.len() && front[w] == id;
                assert(ids[w] == id);
            }
            if id == last {
                assert(ids[ids.len() - 1] == id);
            }
            if ids.contains(id) && id != last {
                let w = choose|w: int| 0 <= w < ids.len() && ids[w] == id;
                assert(front[w] == id);
            }
        }
    }
}

/// A row that lacks artist, album, title, year or track number is never
/// relocated: no plan holds a move for it, and no confirmation touches it, so
/// it stays unprocessed.
pub proof fn law_incomplete_row_stays(rows: Seq<TrackRecord>, base: Seq<char>, i: int, ids: Seq<i32>)
    requires
        unique_ids(rows),
        0 <= i < rows.len(),
        rows[i].artist is None || rows[i].album is None || rows[i].title is None
            || rows[i].year is None || rows[i].track_number is None,
    ensures
        forall|k: int|
            0 <= k < spec_plan(rows, base).len() ==> (#[trigger] spec_plan(rows, base)[k]).id
                != rows[i].id,
        spec_confirm_all(rows, ids)[i] == rows[i],
{
    lemma_plan(rows, base);
    lemma_confirm_all(rows, ids);
    let p = spec_plan(rows, base);
    assert forall|k: int| 0 <= k < p.len() implies (#[trigger] p[k]).id != rows[i].id by {
        let j = choose|j: int|
            0 <= j < rows.len() && spec_eligible(#[trigger] rows[j]) && spec_relocation(
                base,
                rows[j],
            ) == p[k];
        if j < i {
            assert(rows[j].id != rows[i].id);
        } else if i < j {
            assert(rows[i].id != rows[j].id);
        }
    }
}

/// After a pass in which every planned move was confirmed, no row is eligible
/// any more: the next plan, under any base, is empty.
pub proof fn law_completed_pass_leaves_nothing(
    rows: Seq<TrackRecord>,
    base: Seq<char>,
    next_base: Seq<char>,
)
    ensures
        spec_plan(
            spec_confirm_all(rows, spec_plan_ids(spec_plan(rows, base))),
            next_base,
        ).len() == 0,
{
    let plan = spec_plan(rows, base);
    let ids = spec_plan_ids(plan);
    let done = spec_confirm_all(rows, ids);
    lemma_plan(rows, base);
    lemma_confirm_all(rows, ids);
    lemma_plan(done, next_base);
    let after = spec_plan(done, next_base);
    if after.len() > 0 {
        let i = choose|i: int|
            0 <= i < done.len() && spec_eligible(#[trigger] done[i]) && spec_relocation(
                next_base,
                done[i],
            ) == after[0];
        assert(done[i] == (if spec_eligible(rows[i]) && ids.contains(rows[i].id) {
            spec_processed(rows[i])
        } else {
            rows[i]
        }));
        assert(spec_eligible(rows[i]));
        let k = choose|k: int| 0 <= k < plan.len() && plan[k] == spec_relocation(base, rows[i]);
        assert(ids[k] == rows[i].id);
    }
}

/// The processed flag only rises: a confirmation never lowers it, and changes
/// no other field.
pub proof fn law_processed_only_rises(rows: Seq<TrackRecord>, id: i32, i: int)
    requires
        0 <= i < rows.len(),
    ensures
        rows[i].processed ==> spec_confirm(rows, id)[i] == rows[i],
        spec_confirm(rows, id)[i] == (TrackRecord {
            processed: spec_confirm(rows, id)[i].processed,
            ..rows[i]
        }),
        rows[i].processed ==> spec_confirm(rows, id)[i].processed,
{
}

/// A segment without `/` does not split the path: the artist directory lies
/// directly under the base.
pub proof fn lemma_artist_directory_is_one_level(base: Seq<char>, row: TrackRecord)
    requires
        spec_eligible(row),
        !spec_segment(row.artist->0).contains('/'),
    ensures
        spec_relocation(base, row).directories[0] == base + seq!['/'] + spec_segment(
            row.artist->0,
        ),
        forall|k: int|
            base.len() < k < spec_relocation(base, row).directories[0].len() ==> spec_relocation(
                base,
                row,
            ).directories[0][k] != '/',
{
    let seg = spec_segment(row.artist->0);
    let dir = spec_relocation(base, row).directories[0];
    assert forall|k: int| base.len() < k < dir.len() implies dir[k] != '/' by {
        assert(dir[k] == seg[k - base.len() - 1]);
        assert(seg.contains(seg[k - base.len() - 1]));
    }
}

} // verus!
