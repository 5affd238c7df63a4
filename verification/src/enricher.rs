//! Metadata enrichment: tracks without a release year get the year of the
//! earliest dated release that a release search returned for them.

use crate::catalog::{spec_missing_year, TrackChanges};
use crate::media_organizer::MediaOrganizer;
use crate::models::{records, TrackRecord};
use crate::text::{chars_of, lex_lt, opt_text, spec_lex_lt};
use vstd::prelude::*;
use vstd::string::*;

verus! {

/// The contents of a run of optional dates.
pub open spec fn date_views(dates: Seq<Option<String>>) -> Seq<Option<Seq<char>>> {
    Seq::new(dates.len(), |i: int| opt_text(dates[i]))
}

/// Where the earliest date stands: among the results that carry a date, the
/// first one whose date no other precedes in lexicographic order. Nothing when
/// no result carries a date.
pub open spec fn spec_earliest(dates: Seq<Option<Seq<char>>>) -> Option<int>
    decreases dates.len(),
{
    if dates.len() == 0 {
        None
    } else {
        let rest = spec_earliest(dates.drop_last());
        match dates.last() {
            None => rest,
            Some(d) => match rest {
                None => Some(dates.len() - 1),
                Some(b) => if spec_lex_lt(d, dates[b]->0) {
                    Some(dates.len() - 1)
                } else {
                    rest
                },
            },
        }
    }
}

/// A decimal digit.
pub open spec fn spec_is_digit(c: char) -> bool {
    '0' <= c <= '9'
}

/// The value of a run of decimal digits.
pub open spec fn spec_number(s: Seq<char>) -> int
    decreases s.len(),
{
    if s.len() == 0 {
        0
    } else {
        spec_number(s.drop_last()) * 10 + (s.last() as int - '0' as int)
    }
}

/// Number of characters before the first `-`; all of them when there is none.
pub open spec fn spec_year_len(date: Seq<char>) -> nat
    decreases date.len(),
{
    if date.len() == 0 || date[0] == '-' {
        0
    } else {
        1 + spec_year_len(date.drop_first())
    }
}

/// The year component of a date such as `1979-11-30`, `1979-11` or `1979`: what
/// stands before the first `-`, read as a decimal number. Nothing when that is
/// empty, holds anything but digits, or exceeds the 32-bit range.
pub open spec fn spec_year_of(date: Seq<char>) -> Option<i32> {
    let y = date.take(spec_year_len(date) as int);
    if y.len() > 0 && (forall|i: int| 0 <= i < y.len() ==> spec_is_digit(#[trigger] y[i]))
        && spec_number(y) <= i32::MAX {
        Some(spec_number(y) as i32)
    } else {
        None
    }
}

/// The year to write for a track, given the dates of the releases found: the
/// year component of the earliest date.
pub open spec fn spec_enriched_year(dates: Seq<Option<Seq<char>>>) -> Option<i32> {
    match spec_earliest(dates) {
        Some(i) => spec_year_of(dates[i]->0),
        None => None,
    }
}

/// The rows after the row under `id`, if it has no year, got the year `year`.
pub open spec fn spec_set_year(rows: Seq<TrackRecord>, id: i32, year: i32) -> Seq<TrackRecord> {
    Seq::new(
        rows.len(),
        |i: int|
            if rows[i].id == id && rows[i].year is None {
                TrackRecord { year: Some(year), ..rows[i] }
            } else {
                rows[i]
            },
    )
}

/// A track to look up: its id, and the artist and album to search for.
#[derive(Debug)]
pub struct YearQuery {
    pub id: i32,
    pub artist: String,
    pub album: String,
}

/// View of a [`YearQuery`].
pub struct YearQueryView {
    pub id: i32,
    pub artist: Seq<char>,
    pub album: Seq<char>,
}

impl View for YearQuery {
    type V = YearQueryView;

    open spec fn view(&self) -> YearQueryView {
        YearQueryView { id: self.id, artist: self.artist@, album: self.album@ }
    }
}

/// The views of a run of queries.
pub open spec fn query_views(queries: Seq<YearQuery>) -> Seq<YearQueryView> {
    Seq::new(queries.len(), |i: int| queries[i]@)
}

/// A row is to be looked up: it has no year, and artist and album to search by.
pub open spec fn spec_needs_year(row: TrackRecord) -> bool {
    row.year is None && row.artist is Some && row.album is Some
}

/// The queries for the rows that are to be looked up, in catalog order.
pub open spec fn spec_year_queries(rows: Seq<TrackRecord>) -> Seq<YearQueryView>
    decreases rows.len(),
{
    if rows.len() == 0 {
        Seq::empty()
    } else if spec_needs_year(rows.last()) {
        spec_year_queries(rows.drop_last()).push(
            YearQueryView {
                id: rows.last().id,
                artist: rows.last().artist->0,
                album: rows.last().album->0,
            },
        )
    } else {
        spec_year_queries(rows.drop_last())
    }
}

/// The queries over the rows without a year are the queries over all rows: a
/// row with a year is not looked up.
pub proof fn lemma_queries_of_missing_year(rows: Seq<TrackRecord>)
    ensures
        spec_year_queries(spec_missing_year(rows)) == spec_year_queries(rows),
    decreases rows.len(),
{
    if rows.len() > 0 {
        lemma_queries_of_missing_year(rows.drop_last());
        if rows.last().year is None {
            let kept = spec_missing_year(rows.drop_last()).push(rows.last());
            assert(kept.drop_last() =~= spec_missing_year(rows.drop_last()));
        }
    }
}

/// The order of dates is transitive.
pub proof fn lemma_lex_lt_transitive(a: Seq<char>, b: Seq<char>, c: Seq<char>)
    requires
        spec_lex_lt(a, b),
        spec_lex_lt(b, c),
    ensures
        spec_lex_lt(a, c),
    decreases a.len(),
{
    if a.len() > 0 && b.len() > 0 && c.len() > 0 && a[0] == b[0] && b[0] == c[0] {
        lemma_lex_lt_transitive(a.drop_first(), b.drop_first(), c.drop_first());
    }
}

/// What `spec_earliest` picks: nothing exactly when no result carries a date;
/// else a dated result that no dated result precedes, and the first such.
pub proof fn law_earliest_is_minimum(dates: Seq<Option<Seq<char>>>)
    ensures
        spec_earliest(dates) is None <==> forall|j: int|
            0 <= j < dates.len() ==> (#[trigger] dates[j]) is None,
        spec_earliest(dates) matches Some(i) ==> {
            &&& 0 <= i < dates.len()
            &&& dates[i] is Some
            &&& forall|j: int|
                0 <= j < dates.len() && (#[trigger] dates[j]) is Some ==> !spec_lex_lt(
                    dates[j]->0,
                    dates[i]->0,
                )
            &&& forall|j: int|
                0 <= j < i && (#[trigger] dates[j]) is Some ==> spec_lex_lt(
                    dates[i]->0,
                    dates[j]->0,
                )
        },
    decreases dates.len(),
{
    if dates.len() > 0 {
        let front = dates.drop_last();
        let last = dates.len() - 1;
        law_earliest_is_minimum(front);
        assert(forall|j: int| 0 <= j < front.len() ==> front[j] == dates[j]);
        let rest = spec_earliest(front);
        match spec_earliest(dates) {
            None => {
                assert forall|j: int| 0 <= j < dates.len() implies (#[trigger] dates[j]) is None by {
                    if j < last {
                        assert(front[j] == dates[j]);
                    }
                }
            },
            Some(i) => {
                if i == last {
                    assert(dates[last] is Some);
                }
                assert forall|j: int|
                    0 <= j < dates.len() && (#[trigger] dates[j]) is Some implies !spec_lex_lt(
                    dates[j]->0,
                    dates[i]->0,
                ) by {
                    if j < last {
                        assert(front[j] == dates[j]);
                        if i == last && rest is Some {
                            let b = rest->0;
                            if spec_lex_lt(dates[j]->0, dates[i]->0) {
                                lemma_lex_lt_transitive(dates[j]->0, dates[i]->0, dates[b]->0);
                            }
                        }
                    } else {
                        lemma_lex_lt_irreflexive(dates[j]->0);
                    }
                }
                assert forall|j: int| 0 <= j < i && (#[trigger] dates[j]) is Some implies spec_lex_lt(
                    dates[i]->0,
                    dates[j]->0,
                ) by {
                    assert(front[j] == dates[j]);
                    if i == last {
                        let b = rest->0;
                        if j != b {
                            if j < b {
                                lemma_lex_lt_transitive(dates[i]->0, dates[b]->0, dates[j]->0);
                            } else {
                                lemma_lex_lt_total(dates[j]->0, dates[b]->0);
                                lemma_lex_lt_total(dates[i]->0, dates[j]->0);
                                if spec_lex_lt(dates[j]->0, dates[i]->0) {
                                    lemma_lex_lt_transitive(dates[j]->0, dates[i]->0, dates[b]->0);
                                }
                            }
                        }
                    }
                }
            },
        }
    }
}

/// No date precedes itself.
pub proof fn lemma_lex_lt_irreflexive(a: Seq<char>)
    ensures
        !spec_lex_lt(a, a),
    decreases a.len(),
{
    if a.len() > 0 {
        lemma_lex_lt_irreflexive(a.drop_first());
    }
}

/// Of two different dates one precedes the other.
pub proof fn lemma_lex_lt_total(a: Seq<char>, b: Seq<char>)
    ensures
        a == b || spec_lex_lt(a, b) || spec_lex_lt(b, a),
    decreases a.len(),
{
    if a.len() == 0 || b.len() == 0 {
        if a.len() == 0 && b.len() == 0 {
            assert(a =~= b);
        }
    } else if a[0] == b[0] {
        lemma_lex_lt_total(a.drop_first(), b.drop_first());
        if a.drop_first() == b.drop_first() {
            assert(a =~= seq![a[0]] + a.drop_first());
            assert(b =~= seq![b[0]] + b.drop_first());
        }
    } else {
        assert(a[0] as int != b[0] as int);
    }
}

/// The value of a run of digits does not shrink when digits follow.
pub proof fn lemma_number_grows(s: Seq<char>, n: int)
    requires
        0 <= n <= s.len(),
        forall|i: int| 0 <= i < s.len() ==> spec_is_digit(#[trigger] s[i]),
    ensures
        0 <= spec_number(s.take(n)) <= spec_number(s),
    decreases s.len() - n,
{
    if n == s.len() {
        assert(s.take(n) =~= s);
        lemma_number_nonnegative(s);
    } else {
        lemma_number_grows(s, n + 1);
        let t = s.take(n + 1);
        assert(t.drop_last() =~= s.take(n));
        assert(t.last() == s[n]);
        lemma_number_nonnegative(s.take(n));
    }
}

/// The value of a run of digits is not negative.
pub proof fn lemma_number_nonnegative(s: Seq<char>)
    requires
        forall|i: int| 0 <= i < s.len() ==> spec_is_digit(#[trigger] s[i]),
    ensures
        0 <= spec_number(s),
    decreases s.len(),
{
    if s.len() > 0 {
        assert forall|i: int| 0 <= i < s.drop_last().len() implies spec_is_digit(
            #[trigger] s.drop_last()[i],
        ) by {
            assert(s.drop_last()[i] == s[i]);
        }
        lemma_number_nonnegative(s.drop_last());
        assert(spec_is_digit(s[s.len() - 1]));
    }
}


/// The value of a decimal digit.
fn digit_value(c: char) -> (v: i64)
    requires
        spec_is_digit(c),
    ensures
        v == c as int - '0' as int,
        0 <= v <= 9,
{
    let v: u32 = c as u32 - 48;
    v as i64
}


/// The year component ends within the date.
pub proof fn lemma_year_len_bound(date: Seq<char>)
    ensures
        spec_year_len(date) <= date.len(),
        forall|k: int| 0 <= k < spec_year_len(date) ==> date[k] != '-',
    decreases date.len(),
{
    if !(date.len() == 0 || date[0] == '-') {
        let rest = date.drop_first();
        lemma_year_len_bound(rest);
        assert forall|k: int| 0 <= k < spec_year_len(date) implies date[k] != '-' by {
            if k > 0 {
                assert(date[k] == rest[k - 1]);
            }
        }
    }
}

/// The year component of a date: what stands before the first `-`, read as a
/// decimal number.
pub fn year_of_date(date: &str) -> (r: Option<i32>)
    ensures
        r == spec_year_of(date@),
{
    let chars = chars_of(date);
    let mut i: usize = 0;
    let mut acc: i64 = 0;
    proof {
        assert(chars@.skip(0) =~= chars@);
        assert(chars@.take(0) =~= Seq::<char>::empty());
        lemma_year_len_bound(chars@);
    }
    while i < chars.len() && chars[i] != '-'
        invariant
            chars@ == date@,
            i <= chars.len(),
            forall|k: int| 0 <= k < i ==> spec_is_digit(#[trigger] chars@[k]),
            acc == spec_number(chars@.take(i as int)),
            0 <= acc <= i32::MAX,
            spec_year_len(chars@) == i + spec_year_len(chars@.skip(i as int)),
            spec_year_len(chars@) <= chars@.len(),
        decreases chars.len() - i,
    {
        let c = chars[i];
        let ghost len = spec_year_len(chars@) as int;
        let ghost y = chars@.take(len);
        proof {
            assert(chars@.skip(i as int)[0] == c);
            assert(chars@.skip(i as int).drop_first() =~= chars@.skip(i + 1));
            assert(len >= i + 1);
            assert(y[i as int] == c);
            assert(chars@.take(i + 1).drop_last() =~= chars@.take(i as int));
            assert(chars@.take(i + 1).last() == c);
        }
        if !(c >= '0' && c <= '9') {
            assert(!spec_is_digit(y[i as int]));
            return None;
        }
        let next: i64 = acc * 10 + digit_value(c);
        if next > 0x7fff_ffff {
            proof {
                if forall|k: int| 0 <= k < y.len() ==> spec_is_digit(#[trigger] y[k]) {
                    lemma_number_grows(y, i + 1);
                    assert(y.take(i + 1) =~= chars@.take(i + 1));
                }
            }
            return None;
        }
        acc = next;
        i += 1;
    }
    proof {
        let rest = chars@.skip(i as int);
        if i < chars.len() {
            assert(rest[0] == chars@[i as int]);
        }
        assert(spec_year_len(rest) == 0);
        let y = chars@.take(i as int);
        assert forall|k: int| 0 <= k < y.len() implies spec_is_digit(#[trigger] y[k]) by {
            assert(y[k] == chars@[k]);
        }
    }
    if i == 0 {
        None
    } else {
        Some(acc as i32)
    }
}

/// Where the earliest date stands among the results.
pub fn earliest_date(dates: &Vec<Option<String>>) -> (r: Option<usize>)
    ensures
        match r {
            Some(i) => spec_earliest(date_views(dates@)) == Some(i as int),
            None => spec_earliest(date_views(dates@)) is None,
        },
{
    let ghost all = date_views(dates@);
    let mut best: Option<usize> = None;
    let mut i: usize = 0;
    assert(all.take(0) =~= Seq::<Option<Seq<char>>>::empty());
    while i < dates.len()
        invariant
            i <= dates.len(),
            all == date_views(dates@),
            match best {
                Some(b) => spec_earliest(all.take(i as int)) == Some(b as int) && b < i,
                None => spec_earliest(all.take(i as int)) is None,
            },
        decreases dates.len() - i,
    {
        proof {
            assert(all.take(i + 1).drop_last() =~= all.take(i as int));
            assert(all.take(i + 1).last() == all[i as int]);
            law_earliest_is_minimum(all.take(i as int));
        }
        match &dates[i] {
            None => {},
            Some(d) => {
                match best {
                    None => {
                        best = Some(i);
                    },
                    Some(b) => {
                        assert(all.take(i as int)[b as int] == all[b as int]);
                        assert(all.take(i + 1)[b as int] == all[b as int]);
                        match &dates[b] {
                            Some(cur) => {
                                if lex_lt(d.as_str(), cur.as_str()) {
                                    best = Some(i);
                                }
                            },
                            None => {},
                        }
                    },
                }
            },
        }
        i += 1;
    }
    assert(all.take(i as int) =~= all);
    best
}

/// The year to write for a track, given the dates of the releases found for
/// it: the year component of the earliest date.
pub fn enriched_year(dates: &Vec<Option<String>>) -> (r: Option<i32>)
    ensures
        r == spec_enriched_year(date_views(dates@)),
{
    match earliest_date(dates) {
        Some(i) => {
            proof {
                law_earliest_is_minimum(date_views(dates@));
            }
            match &dates[i] {
                Some(d) => year_of_date(d.as_str()),
                None => None,
            }
        },
        None => None,
    }
}

impl MediaOrganizer {
    /// The tracks to look up: one query for every row that has no year and has
    /// both artist and album, in catalog order.
    pub fn tracks_missing_year(&self) -> (queries: Vec<YearQuery>)
        ensures
            query_views(queries@) == spec_year_queries(self@),
    {
        let tracks = self.catalog.select_missing_year();
        let ghost vacant = records(tracks@);
        let mut queries: Vec<YearQuery> = Vec::new();
        let mut i: usize = 0;
        assert(vacant.take(0) =~= Seq::<TrackRecord>::empty());
        assert(query_views(queries@) =~= Seq::<YearQueryView>::empty());
        while i < tracks.len()
            invariant
                i <= tracks.len(),
                vacant == records(tracks@),
                query_views(queries@) == spec_year_queries(vacant.take(i as int)),
            decreases tracks.len() - i,
        {
            assert(vacant.take(i + 1).drop_last() =~= vacant.take(i as int));
            assert(vacant.take(i + 1).last() == tracks[i as int]@);
            let row = &tracks[i];
            if row.year.is_none() {
                match (&row.artist, &row.album) {
                    (Some(artist), Some(album)) => {
                        let ghost before = query_views(queries@);
                        let q = YearQuery {
                            id: row.id,
                            artist: artist.clone(),
                            album: album.clone(),
                        };
                        let ghost qv = q@;
                        queries.push(q);
                        assert(query_views(queries@) =~= before.push(qv));
                    },
                    _ => {},
                }
            }
            i += 1;
        }
        proof {
            assert(vacant.take(i as int) =~= vacant);
            lemma_queries_of_missing_year(self@);
        }
        queries
    }

    /// Writes the year of the row under `id`, if that row has none. Tells
    /// whether a year was written.
    pub fn set_year(&mut self, id: i32, year: i32) -> (written: bool)
        requires
            old(self).wf(),
        ensures
            final(self).wf(),
            final(self)@ == spec_set_year(old(self)@, id, year),
            written == (exists|i: int|
                0 <= i < old(self)@.len() && (#[trigger] old(self)@[i]).id == id
                    && old(self)@[i].year is None),
    {
        let ghost before = self@;
        match self.catalog.position_of_id(id) {
            None => {
                assert(self@ =~= spec_set_year(before, id, year));
                false
            },
            Some(i) => {
                let rows = self.catalog.rows();
                assert(records(rows@)[i as int] == rows@[i as int]@);
                let vacant = rows[i].year.is_none();
                assert forall|k: int| 0 <= k < before.len() && k != i implies (
                #[trigger] before[k]).id != id by {
                    if k < i {
                        assert(before[k].id != before[i as int].id);
                    } else {
                        assert(before[i as int].id != before[k].id);
                    }
                }
                if vacant {
                    let mut changes = TrackChanges::none();
                    changes.year = Some(year);
                    self.catalog.update(id, &changes);
                    assert(self@ =~= spec_set_year(before, id, year));
                    true
                } else {
                    assert(self@ =~= spec_set_year(before, id, year));
                    false
                }
            },
        }
    }

    /// Enriches one track from the dates of the releases found for it: the
    /// year component of the earliest date is written to the row under `id`,
    /// if that row has no year. The result is the year written, if any.
    pub fn enrich_year(&mut self, id: i32, dates: &Vec<Option<String>>) -> (r: Option<i32>)
        requires
            old(self).wf(),
        ensures
            final(self).wf(),
            r == (if exists|i: int|
                0 <= i < old(self)@.len() && (#[trigger] old(self)@[i]).id == id
                    && old(self)@[i].year is None {
                spec_enriched_year(date_views(dates@))
            } else {
                None
            }),
            final(self)@ == (match r {
                Some(year) => spec_set_year(old(self)@, id, year),
                None => old(self)@,
            }),
    {
        match enriched_year(dates) {
            Some(year) => {
                let ghost before = self@;
                if self.set_year(id, year) {
                    Some(year)
                } else {
                    assert(self@ =~= before);
                    None
                }
            },
            None => None,
        }
    }
}

} // verus!
