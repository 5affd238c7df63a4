//! Scanning: files are classified by extension, unsupported ones are marked
//! for deletion, and supported ones enter the catalog unless their path is
//! known already.

use crate::catalog::{
    has_path, lemma_max_id, spec_max_id, unique_ids, unique_paths, CatalogError,
};
use crate::media_organizer::MediaOrganizer;
use crate::models::{spec_with_id, TrackRecord};
use crate::tags::{spec_new_track, TagRead, TagsView};
use crate::text::{ends_with, spec_ends_with};
use vstd::prelude::*;
use vstd::string::*;

verus! {

/// The path ends with one of `.mp3`, `.wav`, `.flac`, `.aiff`.
pub open spec fn spec_supported(path: Seq<char>) -> bool {
    ||| spec_ends_with(path, seq!['.', 'm', 'p', '3'])
    ||| spec_ends_with(path, seq!['.', 'w', 'a', 'v'])
    ||| spec_ends_with(path, seq!['.', 'f', 'l', 'a', 'c'])
    ||| spec_ends_with(path, seq!['.', 'a', 'i', 'f', 'f'])
}

/// What is to be done with one entry of a directory.
#[derive(Debug, Clone, Copy, PartialEq, Eq, Structural)]
pub enum ScanStep {
    /// A directory: scan what it holds.
    Descend,
    /// A file outside the allow-list: delete it.
    Purge,
    /// A supported file whose path the catalog knows: leave it.
    Skip,
    /// A supported file that the catalog does not know: decode its tags and
    /// hand them to `parse_file`.
    Decode,
}

/// What came of one file.
#[derive(Debug, Clone, Copy, PartialEq, Eq, Structural)]
pub enum ScanOutcome {
    /// The file is outside the allow-list and is to be deleted.
    Purged,
    /// The catalog has a row for this path already.
    AlreadyCataloged,
    /// No tag container could be had: no row, and the file stays.
    Undecodable,
    /// A row was inserted under this id.
    Inserted(i32),
}

/// One entry of a directory listing.
#[derive(Debug, Clone)]
pub struct ScannedEntry {
    pub path: String,
    pub is_dir: bool,
}

/// What is to be done with an entry, given the rows of the catalog.
pub open spec fn spec_scan_step(rows: Seq<TrackRecord>, path: Seq<char>, is_dir: bool) -> ScanStep {
    if is_dir {
        ScanStep::Descend
    } else if !spec_supported(path) {
        ScanStep::Purge
    } else if has_path(rows, path) {
        ScanStep::Skip
    } else {
        ScanStep::Decode
    }
}

/// The rows after one file was scanned, and what came of the file. `tags` is
/// the tag container, if decoding produced one.
pub open spec fn spec_parse_file(rows: Seq<TrackRecord>, path: Seq<char>, tags: Option<TagsView>)
    -> (Seq<TrackRecord>, Result<ScanOutcome, CatalogError>) {
    if !spec_supported(path) {
        (rows, Ok(ScanOutcome::Purged))
    } else if has_path(rows, path) {
        (rows, Ok(ScanOutcome::AlreadyCataloged))
    } else if tags is None {
        (rows, Ok(ScanOutcome::Undecodable))
    } else if spec_max_id(rows) >= i32::MAX {
        (rows, Err(CatalogError::IdsExhausted))
    } else {
        let id = (spec_max_id(rows) + 1) as i32;
        (rows.push(spec_with_id(spec_new_track(path, tags->0), id)), Ok(ScanOutcome::Inserted(id)))
    }
}

/// The rows after a run of files was scanned, one after the other. A file that
/// the store refuses leaves the rows as they were.
pub open spec fn spec_scan_all(rows: Seq<TrackRecord>, files: Seq<(Seq<char>, Option<TagsView>)>)
    -> Seq<TrackRecord>
    decreases files.len(),
{
    if files.len() == 0 {
        rows
    } else {
        spec_parse_file(
            spec_scan_all(rows, files.drop_last()),
            files.last().0,
            files.last().1,
        ).0
    }
}

/// Every row lies at a supported path.
pub open spec fn all_supported(rows: Seq<TrackRecord>) -> bool {
    forall|i: int| 0 <= i < rows.len() ==> spec_supported((#[trigger] rows[i]).path)
}

/// Tells whether the path ends with a supported extension.
pub fn is_supported(path: &str) -> (r: bool)
    ensures
        r == spec_supported(path@),
{
    proof {
        reveal_strlit(".mp3");
        reveal_strlit(".wav");
        reveal_strlit(".flac");
        reveal_strlit(".aiff");
        assert(".mp3"@ =~= seq!['.', 'm', 'p', '3']);
        assert(".wav"@ =~= seq!['.', 'w', 'a', 'v']);
        assert(".flac"@ =~= seq!['.', 'f', 'l', 'a', 'c']);
        assert(".aiff"@ =~= seq!['.', 'a', 'i', 'f', 'f']);
    }
    ends_with(path, ".mp3") || ends_with(path, ".wav") || ends_with(path, ".flac") || ends_with(
        path,
        ".aiff",
    )
}

impl MediaOrganizer {
    /// Decides what is to be done with one entry of a directory. Nothing is
    /// changed.
    pub fn scan_step(&self, path: &str, is_dir: bool) -> (step: ScanStep)
        ensures
            step == spec_scan_step(self@, path@, is_dir),
    {
        if is_dir {
            ScanStep::Descend
        } else if !is_supported(path) {
            ScanStep::Purge
        } else if self.catalog.position_of_path(path).is_some() {
            ScanStep::Skip
        } else {
            ScanStep::Decode
        }
    }

    /// Decides, entry by entry, what is to be done with the entries of one
    /// directory. Nothing is changed.
    pub fn parse_media_directory(&self, entries: &Vec<ScannedEntry>) -> (steps: Vec<ScanStep>)
        ensures
            steps@.len() == entries@.len(),
            forall|i: int|
                0 <= i < entries@.len() ==> #[trigger] steps@[i] == spec_scan_step(
                    self@,
                    entries@[i].path@,
                    entries@[i].is_dir,
                ),
    {
        let mut steps: Vec<ScanStep> = Vec::new();
        let mut i: usize = 0;
        while i < entries.len()
            invariant
                i <= entries.len(),
                steps@.len() == i,
                forall|k: int|
                    0 <= k < i ==> #[trigger] steps@[k] == spec_scan_step(
                        self@,
                        entries@[k].path@,
                        entries@[k].is_dir,
                    ),
            decreases entries.len() - i,
        {
            let step = self.scan_step(entries[i].path.as_str(), entries[i].is_dir);
            steps.push(step);
            i += 1;
        }
        steps
    }

    /// Scans one file. A file outside the allow-list is to be deleted; a known
    /// path is skipped; a file without a tag container is left alone; any
    /// other enters the catalog under a fresh id. `tags` is what decoding the
    /// file gave: it is read only for a supported file at an unknown path.
    pub fn parse_file(&mut self, file_path: &str, tags: &TagRead) -> (r: Result<
        ScanOutcome,
        CatalogError,
    >)
        requires
            old(self).wf(),
        ensures
            final(self).wf(),
            (final(self)@, r) == spec_parse_file(old(self)@, file_path@, tags@),
    {
        if !is_supported(file_path) {
            return Ok(ScanOutcome::Purged);
        }
        if self.catalog.position_of_path(file_path).is_some() {
            return Ok(ScanOutcome::AlreadyCataloged);
        }
        match tags {
            TagRead::Tagged(container) => {
                let new = container.to_new_track(file_path);
                match self.catalog.insert(&new) {
                    Ok(id) => Ok(ScanOutcome::Inserted(id)),
                    Err(e) => Err(e),
                }
            },
            _ => Ok(ScanOutcome::Undecodable),
        }
    }
}

/// Scanning a file keeps the catalog keyed by path, with unique ids.
pub proof fn lemma_parse_file_keeps_keys(
    rows: Seq<TrackRecord>,
    path: Seq<char>,
    tags: Option<TagsView>,
)
    requires
        unique_paths(rows),
        unique_ids(rows),
    ensures
        unique_paths(spec_parse_file(rows, path, tags).0),
        unique_ids(spec_parse_file(rows, path, tags).0),
        spec_max_id(spec_parse_file(rows, path, tags).0) <= spec_max_id(rows) + 1,
        has_path(rows, path) ==> has_path(spec_parse_file(rows, path, tags).0, path),
        forall|p: Seq<char>|
            has_path(rows, p) ==> has_path(spec_parse_file(rows, path, tags).0, p),
{
    let next = spec_parse_file(rows, path, tags).0;
    lemma_max_id(rows);
    if next != rows {
        let id = (spec_max_id(rows) + 1) as i32;
        let row = spec_with_id(spec_new_track(path, tags->0), id);
        assert(next == rows.push(row));
        assert(next.drop_last() =~= rows);
        assert forall|i: int, j: int|
            #![trigger next[i], next[j]]
            0 <= i < j < next.len() implies next[i].path != next[j].path && next[i].id
            != next[j].id by {
            assert(next[i] == rows[i]);
            if j < rows.len() {
                assert(next[j] == rows[j]);
            }
        }
        assert forall|p: Seq<char>| has_path(rows, p) implies has_path(next, p) by {
            let k = choose|k: int| 0 <= k < rows.len() && (#[trigger] rows[k]).path == p;
            assert(next[k].path == p);
        }
    }
}

/// Idempotence of scanning. After any run of scans the catalog holds at most
/// one row per path. A supported file whose tags decode has exactly one row
/// from its first scan on, however often it is scanned again, as long as the
/// store has an id left for it.
pub proof fn law_scan_idempotent(
    rows: Seq<TrackRecord>,
    files: Seq<(Seq<char>, Option<TagsView>)>,
    k: int,
)
    requires
        unique_paths(rows),
        unique_ids(rows),
        0 <= k < files.len(),
    ensures
        unique_paths(spec_scan_all(rows, files)),
        unique_ids(spec_scan_all(rows, files)),
        spec_max_id(spec_scan_all(rows, files)) <= spec_max_id(rows) + files.len(),
        spec_supported(files[k].0) && files[k].1 is Some && spec_max_id(rows) + files.len()
            <= i32::MAX ==> has_path(spec_scan_all(rows, files), files[k].0),
    decreases files.len(),
{
    let front = files.drop_last();
    let before = spec_scan_all(rows, front);
    lemma_scan_all_keeps_keys(rows, front);
    lemma_parse_file_keeps_keys(before, files.last().0, files.last().1);
    if k < front.len() {
        law_scan_idempotent(rows, front, k);
        assert(front[k] == files[k]);
    }
}

/// A run of scans keeps the catalog keyed by path, with unique ids, and uses
/// at most one id per file.
pub proof fn lemma_scan_all_keeps_keys(
    rows: Seq<TrackRecord>,
    files: Seq<(Seq<char>, Option<TagsView>)>,
)
    requires
        unique_paths(rows),
        unique_ids(rows),
    ensures
        unique_paths(spec_scan_all(rows, files)),
        unique_ids(spec_scan_all(rows, files)),
        spec_max_id(spec_scan_all(rows, files)) <= spec_max_id(rows) + files.len(),
    decreases files.len(),
{
    if files.len() > 0 {
        lemma_scan_all_keeps_keys(rows, files.drop_last());
        lemma_parse_file_keeps_keys(
            spec_scan_all(rows, files.drop_last()),
            files.last().0,
            files.last().1,
        );
    }
}

/// Scanning the same file again changes nothing: once a path is in the
/// catalog, a scan of that path leaves every row as it is.
pub proof fn law_rescan_changes_nothing(
    rows: Seq<TrackRecord>,
    path: Seq<char>,
    first: Option<TagsView>,
    second: Option<TagsView>,
)
    requires
        unique_paths(rows),
        unique_ids(rows),
    ensures
        ({
            let once = spec_parse_file(rows, path, first).0;
            has_path(once, path) || !spec_supported(path) ==> spec_parse_file(once, path, second).0
                == once
        }),
{
}

/// A file outside the allow-list never enters the catalog: scanning it gives
/// `Purged` and leaves the rows alone, and a catalog that scans have filled
/// holds no row at an unsupported path.
pub proof fn law_unsupported_never_cataloged(
    rows: Seq<TrackRecord>,
    files: Seq<(Seq<char>, Option<TagsView>)>,
    path: Seq<char>,
    tags: Option<TagsView>,
)
    requires
        !spec_supported(path),
        all_supported(rows),
    ensures
        spec_parse_file(rows, path, tags) == (rows, Ok::<ScanOutcome, CatalogError>(ScanOutcome::Purged)),
        all_supported(spec_scan_all(rows, files)),
        !has_path(spec_scan_all(rows, files), path),
    decreases files.len(),
{
    if files.len() > 0 {
        let front = files.drop_last();
        law_unsupported_never_cataloged(rows, front, path, tags);
        let before = spec_scan_all(rows, front);
        let after = spec_scan_all(rows, files);
        assert forall|i: int| 0 <= i < after.len() implies spec_supported(
            (#[trigger] after[i]).path,
        ) by {
            if i < before.len() {
                assert(after[i] == before[i]);
            }
        }
    }
}

/// A supported file whose tag container cannot be had produces no row and is
/// not marked for deletion.
pub proof fn law_undecodable_left_alone(rows: Seq<TrackRecord>, path: Seq<char>)
    requires
        spec_supported(path),
    ensures
        spec_parse_file(rows, path, None).0 == rows,
        spec_parse_file(rows, path, None).1 != Ok::<ScanOutcome, CatalogError>(ScanOutcome::Purged),
        spec_parse_file(rows, path, None).1 is Ok,
{
}

} // verus!
