use media_organizer::catalog::{Catalog, CatalogError, TrackChanges};
use media_organizer::models::{NewTrackFile, TrackFile};

fn new_track<'a>(path: &'a str, artist: Option<&'a str>, album: Option<&'a str>) -> NewTrackFile<'a> {
    NewTrackFile {
        barcode: None,
        path,
        artist,
        album,
        title: None,
        track_number: None,
        disc_number: None,
        disc_total: None,
        year: None,
        processed: false,
    }
}

fn row(id: i32, path: &str) -> TrackFile {
    TrackFile {
        id,
        barcode: None,
        path: String::from(path),
        artist: None,
        album: None,
        title: None,
        track_number: None,
        disc_number: None,
        disc_total: None,
        year: None,
        processed: false,
    }
}

#[test]
fn new_catalog_is_empty() {
    let c = Catalog::new();
    assert_eq!(c.len(), 0);
    assert!(c.rows().is_empty());
    assert_eq!(c.next_id(), Some(1));
}

#[test]
fn insert_assigns_ids_from_one() {
    let mut c = Catalog::new();
    assert_eq!(c.insert(&new_track("a.mp3", None, None)), Ok(1));
    assert_eq!(c.insert(&new_track("b.mp3", None, None)), Ok(2));
    assert_eq!(c.len(), 2);
    assert_eq!(c.rows()[0], row(1, "a.mp3"));
    assert_eq!(c.rows()[1], row(2, "b.mp3"));
}

#[test]
fn insert_refuses_a_known_path() {
    let mut c = Catalog::new();
    assert_eq!(c.insert(&new_track("a.mp3", Some("X"), None)), Ok(1));
    assert_eq!(c.insert(&new_track("a.mp3", Some("Y"), None)), Err(CatalogError::DuplicatePath));
    assert_eq!(c.len(), 1);
    assert_eq!(c.rows()[0].artist, Some(String::from("X")));
}

#[test]
fn insert_fails_when_ids_are_used_up() {
    let mut c = Catalog::from_rows(vec![row(i32::MAX, "a.mp3")]).unwrap();
    assert_eq!(c.next_id(), None);
    assert_eq!(c.insert(&new_track("b.mp3", None, None)), Err(CatalogError::IdsExhausted));
    assert_eq!(c.len(), 1);
}

#[test]
fn duplicate_path_is_reported_before_exhausted_ids() {
    let mut c = Catalog::from_rows(vec![row(i32::MAX, "a.mp3")]).unwrap();
    assert_eq!(c.insert(&new_track("a.mp3", None, None)), Err(CatalogError::DuplicatePath));
}

#[test]
fn next_id_follows_the_greatest_id() {
    let c = Catalog::from_rows(vec![row(7, "a.mp3"), row(3, "b.mp3")]).unwrap();
    assert_eq!(c.next_id(), Some(8));
    let c = Catalog::from_rows(vec![row(-7, "a.mp3")]).unwrap();
    assert_eq!(c.next_id(), Some(1));
}

#[test]
fn from_rows_wants_unique_paths_and_ids() {
    assert!(Catalog::from_rows(vec![]).is_some());
    assert!(Catalog::from_rows(vec![row(1, "a.mp3"), row(2, "b.mp3")]).is_some());
    assert!(Catalog::from_rows(vec![row(1, "a.mp3"), row(2, "a.mp3")]).is_none());
    assert!(Catalog::from_rows(vec![row(1, "a.mp3"), row(1, "b.mp3")]).is_none());
    assert!(Catalog::from_rows(vec![row(1, "a.mp3"), row(2, "b.mp3"), row(3, "a.mp3")]).is_none());
}

#[test]
fn lookup_by_path_finds_the_row() {
    let c = Catalog::from_rows(vec![row(1, "a.mp3"), row(2, "b.mp3")]).unwrap();
    assert_eq!(c.find_by_path("b.mp3"), Some(&row(2, "b.mp3")));
    assert_eq!(c.find_by_path("c.mp3"), None);
    assert_eq!(c.position_of_path("a.mp3"), Some(0));
    assert_eq!(c.position_of_path("b.mp3"), Some(1));
    assert_eq!(c.position_of_path("B.mp3"), None);
    assert_eq!(c.position_of_id(2), Some(1));
    assert_eq!(c.position_of_id(3), None);
}

#[test]
fn update_changes_the_given_fields_only() {
    let mut c = Catalog::from_rows(vec![row(1, "a.mp3"), row(2, "b.mp3")]).unwrap();
    let changes = TrackChanges {
        artist: Some(String::from("Pink Floyd")),
        year: Some(1979),
        ..TrackChanges::none()
    };
    assert!(c.update(2, &changes));
    assert_eq!(c.rows()[0], row(1, "a.mp3"));
    let mut expected = row(2, "b.mp3");
    expected.artist = Some(String::from("Pink Floyd"));
    expected.year = Some(1979);
    assert_eq!(c.rows()[1], expected);
}

#[test]
fn update_of_an_unknown_id_changes_nothing() {
    let mut c = Catalog::from_rows(vec![row(1, "a.mp3")]).unwrap();
    let changes = TrackChanges { year: Some(1979), ..TrackChanges::none() };
    assert!(!c.update(9, &changes));
    assert_eq!(c.rows()[0], row(1, "a.mp3"));
}

#[test]
fn update_never_lowers_the_processed_flag() {
    let mut done = row(1, "a.mp3");
    done.processed = true;
    let mut c = Catalog::from_rows(vec![done.clone()]).unwrap();
    assert!(c.update(1, &TrackChanges::none()));
    assert_eq!(c.rows()[0], done);
    let raise = TrackChanges { processed: true, ..TrackChanges::none() };
    let mut c = Catalog::from_rows(vec![row(1, "a.mp3")]).unwrap();
    assert!(c.update(1, &raise));
    assert!(c.rows()[0].processed);
}

#[test]
fn changes_apply_keeps_id_and_path() {
    let changes = TrackChanges {
        barcode: Some(String::from("b")),
        artist: Some(String::from("a")),
        album: Some(String::from("al")),
        title: Some(String::from("t")),
        track_number: Some(1),
        disc_number: Some(2),
        disc_total: Some(3),
        year: Some(4),
        processed: true,
    };
    let r = changes.apply(&row(5, "a.mp3"));
    assert_eq!(
        r,
        TrackFile {
            id: 5,
            barcode: Some(String::from("b")),
            path: String::from("a.mp3"),
            artist: Some(String::from("a")),
            album: Some(String::from("al")),
            title: Some(String::from("t")),
            track_number: Some(1),
            disc_number: Some(2),
            disc_total: Some(3),
            year: Some(4),
            processed: true,
        }
    );
}

#[test]
fn selections_keep_catalog_order() {
    let mut a = row(1, "a.mp3");
    a.processed = true;
    let mut b = row(2, "b.mp3");
    b.year = Some(1979);
    let cc = row(3, "c.mp3");
    let c = Catalog::from_rows(vec![a.clone(), b.clone(), cc.clone()]).unwrap();
    assert_eq!(c.select_unprocessed(), vec![b.clone(), cc.clone()]);
    assert_eq!(c.select_missing_year(), vec![a, cc]);
}

#[test]
fn distinct_albums_lists_each_pair_once() {
    let mut c = Catalog::new();
    c.insert(&new_track("1.mp3", Some("A"), Some("X"))).unwrap();
    c.insert(&new_track("2.mp3", Some("A"), Some("Y"))).unwrap();
    c.insert(&new_track("3.mp3", Some("A"), Some("X"))).unwrap();
    c.insert(&new_track("4.mp3", None, Some("X"))).unwrap();
    c.insert(&new_track("5.mp3", None, None)).unwrap();
    c.insert(&new_track("6.mp3", None, Some("X"))).unwrap();
    let a = || Some(String::from("A"));
    let x = || Some(String::from("X"));
    let y = || Some(String::from("Y"));
    assert_eq!(c.distinct_albums(), vec![(a(), x()), (a(), y()), (None, x()), (None, None)]);
}

#[test]
fn max_disc_number_ignores_rows_without_one() {
    let mut rows = vec![row(1, "1.mp3"), row(2, "2.mp3"), row(3, "3.mp3"), row(4, "4.mp3")];
    for r in rows.iter_mut() {
        r.artist = Some(String::from("A"));
        r.album = Some(String::from("X"));
    }
    rows[0].disc_number = Some(2);
    rows[1].disc_number = None;
    rows[2].disc_number = Some(3);
    rows[3].disc_number = Some(9);
    rows[3].album = Some(String::from("Y"));
    let c = Catalog::from_rows(rows).unwrap();
    assert_eq!(c.max_disc_number("A", "X"), Some(3));
    assert_eq!(c.max_disc_number("A", "Y"), Some(9));
    assert_eq!(c.max_disc_number("A", "Z"), None);
    assert_eq!(c.max_disc_number("B", "X"), None);
}

#[test]
fn set_album_disc_total_touches_the_album_only() {
    let mut rows = vec![row(1, "1.mp3"), row(2, "2.mp3"), row(3, "3.mp3")];
    rows[0].artist = Some(String::from("A"));
    rows[0].album = Some(String::from("X"));
    rows[1].artist = Some(String::from("A"));
    rows[1].album = Some(String::from("Y"));
    rows[2].album = Some(String::from("X"));
    let mut c = Catalog::from_rows(rows.clone()).unwrap();
    c.set_album_disc_total("A", "X", 2);
    let mut first = rows[0].clone();
    first.disc_total = Some(2);
    assert_eq!(c.rows()[0], first);
    assert_eq!(c.rows()[1], rows[1]);
    assert_eq!(c.rows()[2], rows[2]);
}

#[test]
fn duplicate_and_with_id_copy_every_field() {
    let original = TrackFile {
        id: 4,
        barcode: Some(String::from("b")),
        path: String::from("p.flac"),
        artist: Some(String::from("a")),
        album: Some(String::from("al")),
        title: Some(String::from("t")),
        track_number: Some(1),
        disc_number: Some(2),
        disc_total: Some(3),
        year: Some(1979),
        processed: true,
    };
    assert_eq!(original.duplicate(), original);
    let new = NewTrackFile {
        barcode: Some("b"),
        path: "p.flac",
        artist: Some("a"),
        album: Some("al"),
        title: Some("t"),
        track_number: Some(1),
        disc_number: Some(2),
        disc_total: Some(3),
        year: Some(1979),
        processed: true,
    };
    assert_eq!(new.with_id(4), original);
}
