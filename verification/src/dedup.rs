//! Approximate string matching, and the near-duplicate catalog entries that
//! it surfaces. Which of two near-duplicates is to stay is left open.

use crate::media_organizer::MediaOrganizer;
use crate::models::{records, TrackFile, TrackRecord};
use crate::text::opt_text;
use vstd::prelude::*;
use vstd::string::*;

verus! {

/// The least of three numbers.
pub open spec fn spec_min3(a: nat, b: nat, c: nat) -> nat {
    if a <= b && a <= c {
        a
    } else if b <= c {
        b
    } else {
        c
    }
}

/// Edit distance: the least number of single-character insertions, deletions
/// and substitutions that turn `a` into `b`.
pub open spec fn spec_edit_distance(a: Seq<char>, b: Seq<char>) -> nat
    decreases a.len() + b.len(),
{
    if a.len() == 0 {
        b.len()
    } else if b.len() == 0 {
        a.len()
    } else if a.last() == b.last() {
        spec_edit_distance(a.drop_last(), b.drop_last())
    } else {
        1 + spec_min3(
            spec_edit_distance(a.drop_last(), b),
            spec_edit_distance(a, b.drop_last()),
            spec_edit_distance(a.drop_last(), b.drop_last()),
        )
    }
}

/// Calls `strsim::levenshtein`, which its documentation gives as the minimum
/// number of insertions, deletions and substitutions required to change one
/// string into the other, counted on characters. The contract takes that
/// number to be the edit distance of the two character sequences.
#[verifier::external_body]
fn levenshtein_distance(a: &str, b: &str) -> (d: usize)
    ensures
        d == spec_edit_distance(a@, b@),
{
    strsim::levenshtein(a, b)
}

/// Tells whether a measured distance is within the threshold.
pub fn within_threshold(distance: usize, threshold: usize) -> (r: bool)
    ensures
        r == (distance <= threshold),
{
    distance <= threshold
}

/// Tells whether the edit distance of `s1` and `s2` is at most `threshold`.
pub fn is_fuzzy_match(s1: &str, s2: &str, threshold: usize) -> (r: bool)
    ensures
        r == (spec_edit_distance(s1@, s2@) <= threshold),
{
    within_threshold(levenshtein_distance(s1, s2), threshold)
}

/// Equal strings are at distance zero, so they match under every threshold.
pub proof fn lemma_distance_to_self(a: Seq<char>)
    ensures
        spec_edit_distance(a, a) == 0,
    decreases a.len(),
{
    if a.len() > 0 {
        lemma_distance_to_self(a.drop_last());
    }
}

/// The distance does not depend on the order of the two strings, so neither
/// does a match.
pub proof fn lemma_distance_symmetric(a: Seq<char>, b: Seq<char>)
    ensures
        spec_edit_distance(a, b) == spec_edit_distance(b, a),
    decreases a.len() + b.len(),
{
    if a.len() > 0 && b.len() > 0 {
        lemma_distance_symmetric(a.drop_last(), b.drop_last());
        lemma_distance_symmetric(a.drop_last(), b);
        lemma_distance_symmetric(a, b.drop_last());
    }
}

/// The distance is at most the length of the longer string and at least the
/// difference of the two lengths.
pub proof fn law_distance_bounds(a: Seq<char>, b: Seq<char>)
    ensures
        spec_edit_distance(a, b) <= if a.len() >= b.len() {
            a.len()
        } else {
            b.len()
        },
        spec_edit_distance(a, b) >= a.len() - b.len(),
        spec_edit_distance(a, b) >= b.len() - a.len(),
    decreases a.len() + b.len(),
{
    if a.len() > 0 && b.len() > 0 {
        law_distance_bounds(a.drop_last(), b.drop_last());
        law_distance_bounds(a.drop_last(), b);
        law_distance_bounds(a, b.drop_last());
    }
}


/// Two optional fields are near: both are present, and their edit distance is
/// at most `threshold`.
pub open spec fn spec_near(a: Option<Seq<char>>, b: Option<Seq<char>>, threshold: usize) -> bool {
    a is Some && b is Some && spec_edit_distance(a->0, b->0) <= threshold
}

/// Two rows are near-duplicates: artist, album and title are each near.
pub open spec fn spec_near_duplicate(a: TrackRecord, b: TrackRecord, threshold: usize) -> bool {
    spec_near(a.artist, b.artist, threshold) && spec_near(a.album, b.album, threshold) && spec_near(
        a.title,
        b.title,
        threshold,
    )
}

/// The id pairs of the near-duplicates of row `j` among the first `n` rows, in
/// catalog order.
pub open spec fn spec_duplicates_of(rows: Seq<TrackRecord>, j: int, n: int, threshold: usize) -> Seq<
    (i32, i32),
>
    decreases n,
{
    if n <= 0 {
        Seq::empty()
    } else if spec_near_duplicate(rows[n - 1], rows[j], threshold) {
        spec_duplicates_of(rows, j, n - 1, threshold).push((rows[n - 1].id, rows[j].id))
    } else {
        spec_duplicates_of(rows, j, n - 1, threshold)
    }
}

/// The id pairs of all near-duplicates among the first `m` rows: every pair of
/// an earlier and a later row, ordered by the later row, then the earlier.
pub open spec fn spec_duplicates(rows: Seq<TrackRecord>, m: int, threshold: usize) -> Seq<
    (i32, i32),
>
    decreases m,
{
    if m <= 0 {
        Seq::empty()
    } else {
        spec_duplicates(rows, m - 1, threshold) + spec_duplicates_of(rows, m - 1, m - 1, threshold)
    }
}

/// Tells whether two optional fields are near.
pub fn is_near(a: &Option<String>, b: &Option<String>, threshold: usize) -> (r: bool)
    ensures
        r == spec_near(opt_text(*a), opt_text(*b), threshold),
{
    match (a, b) {
        (Some(x), Some(y)) => is_fuzzy_match(x.as_str(), y.as_str(), threshold),
        _ => false,
    }
}

/// Tells whether two rows are near-duplicates.
pub fn is_near_duplicate(a: &TrackFile, b: &TrackFile, threshold: usize) -> (r: bool)
    ensures
        r == spec_near_duplicate(a@, b@, threshold),
{
    is_near(&a.artist, &b.artist, threshold) && is_near(&a.album, &b.album, threshold) && is_near(
        &a.title,
        &b.title,
        threshold,
    )
}

impl MediaOrganizer {
    /// Surfaces the near-duplicate entries: the ids of every two rows whose
    /// artist, album and title are each within `threshold` edits, the earlier
    /// row first. Nothing is changed: which of two entries is to stay is not
    /// decided here.
    pub fn find_duplicates(&self, threshold: usize) -> (pairs: Vec<(i32, i32)>)
        ensures
            pairs@ == spec_duplicates(self@, self@.len() as int, threshold),
    {
        let rows = self.catalog.rows();
        let ghost all = records(rows@);
        let mut pairs: Vec<(i32, i32)> = Vec::new();
        let mut j: usize = 0;
        while j < rows.len()
            invariant
                j <= rows.len(),
                all == records(rows@),
                pairs@ == spec_duplicates(all, j as int, threshold),
            decreases rows.len() - j,
        {
            let ghost done = pairs@;
            let mut i: usize = 0;
            assert(pairs@ =~= done + spec_duplicates_of(all, j as int, 0, threshold));
            while i < j
                invariant
                    i <= j < rows.len(),
                    all == records(rows@),
                    pairs@ == done + spec_duplicates_of(all, j as int, i as int, threshold),
                decreases j - i,
            {
                assert(all[i as int] == rows@[i as int]@);
                assert(all[j as int] == rows@[j as int]@);
                if is_near_duplicate(&rows[i], &rows[j], threshold) {
                    pairs.push((rows[i].id, rows[j].id));
                    assert(pairs@ =~= done + spec_duplicates_of(
                        all,
                        j as int,
                        i + 1,
                        threshold,
                    ));
                }
                i += 1;
            }
            j += 1;
        }
        pairs
    }
}

/// A row with artist, album and title is a near-duplicate of any row that
/// holds the same three, under every threshold.
pub proof fn law_equal_rows_are_near_duplicates(a: TrackRecord, b: TrackRecord, threshold: usize)
    requires
        a.artist is Some,
        a.album is Some,
        a.title is Some,
        a.artist == b.artist,
        a.album == b.album,
        a.title == b.title,
    ensures
        spec_near_duplicate(a, b, threshold),
{
    lemma_distance_to_self(a.artist->0);
    lemma_distance_to_self(a.album->0);
    lemma_distance_to_self(a.title->0);
}

/// Being near-duplicates does not depend on the order of the two rows.
pub proof fn law_near_duplicate_symmetric(a: TrackRecord, b: TrackRecord, threshold: usize)
    ensures
        spec_near_duplicate(a, b, threshold) == spec_near_duplicate(b, a, threshold),
{
    if a.artist is Some && b.artist is Some {
        lemma_distance_symmetric(a.artist->0, b.artist->0);
    }
    if a.album is Some && b.album is Some {
        lemma_distance_symmetric(a.album->0, b.album->0);
    }
    if a.title is Some && b.title is Some {
        lemma_distance_symmetric(a.title->0, b.title->0);
    }
}

} // verus!
