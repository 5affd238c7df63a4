use media_organizer::dedup::{is_fuzzy_match, within_threshold};

#[test]
fn fuzzy_match_counts_edits() {
    assert!(is_fuzzy_match("kitten", "sitting", 3));
    assert!(!is_fuzzy_match("kitten", "sitting", 2));
    assert!(is_fuzzy_match("Pink Floyd", "Pink Floid", 1));
    assert!(!is_fuzzy_match("Pink Floyd", "Pink Floid", 0));
}

#[test]
fn fuzzy_match_of_equal_strings_holds_at_zero() {
    assert!(is_fuzzy_match("The Wall", "The Wall", 0));
    assert!(is_fuzzy_match("", "", 0));
}

#[test]
fn fuzzy_match_against_empty_counts_the_length() {
    assert!(is_fuzzy_match("", "abc", 3));
    assert!(!is_fuzzy_match("", "abc", 2));
    assert!(is_fuzzy_match("abc", "", 3));
    assert!(!is_fuzzy_match("abc", "", 2));
}

#[test]
fn fuzzy_match_is_symmetric() {
    assert_eq!(is_fuzzy_match("flaw", "lawn", 2), is_fuzzy_match("lawn", "flaw", 2));
    assert_eq!(is_fuzzy_match("flaw", "lawn", 1), is_fuzzy_match("lawn", "flaw", 1));
}

#[test]
fn fuzzy_match_counts_characters_not_bytes() {
    assert!(is_fuzzy_match("café", "cafe", 1));
    assert!(!is_fuzzy_match("café", "cafe", 0));
}

#[test]
fn within_threshold_includes_the_threshold() {
    assert!(within_threshold(0, 0));
    assert!(within_threshold(3, 3));
    assert!(within_threshold(2, 3));
    assert!(!within_threshold(4, 3));
}

#[test]
fn near_duplicates_are_surfaced_in_catalog_order() {
    let track = |id: i32, artist: Option<&str>, album: Option<&str>, title: Option<&str>| {
        media_organizer::models::TrackFile {
            id,
            barcode: None,
            path: format!("/in/{}.mp3", id),
            artist: artist.map(String::from),
            album: album.map(String::from),
            title: title.map(String::from),
            track_number: None,
            disc_number: None,
            disc_total: None,
            year: None,
            processed: false,
        }
    };
    let rows = vec![
        track(10, Some("Pink Floyd"), Some("The Wall"), Some("Mother")),
        track(11, Some("Pink Floid"), Some("The Wall"), Some("Mother")),
        track(12, Some("Pink Floyd"), Some("The Wall"), Some("Hey You")),
        track(13, Some("Pink Floyd"), Some("The Wal"), Some("Mothers!")),
        track(14, None, Some("The Wall"), Some("Mother")),
        track(15, None, Some("The Wall"), Some("Mother")),
    ];
    let catalog = media_organizer::catalog::Catalog::from_rows(rows.clone()).unwrap();
    let m = media_organizer::media_organizer::MediaOrganizer::with_catalog(catalog);
    assert_eq!(m.find_duplicates(0), Vec::<(i32, i32)>::new());
    assert_eq!(m.find_duplicates(1), vec![(10, 11)]);
    assert_eq!(m.find_duplicates(2), vec![(10, 11), (10, 13), (11, 13)]);
    assert_eq!(m.catalog().rows(), &rows);
}

#[test]
fn near_duplicate_wants_all_three_fields_in_both_rows() {
    let track = |artist: Option<&str>, album: Option<&str>, title: Option<&str>| {
        media_organizer::models::TrackFile {
            id: 1,
            barcode: None,
            path: String::from("/in/a.mp3"),
            artist: artist.map(String::from),
            album: album.map(String::from),
            title: title.map(String::from),
            track_number: None,
            disc_number: None,
            disc_total: None,
            year: None,
            processed: false,
        }
    };
    let full = track(Some("A"), Some("B"), Some("C"));
    assert!(media_organizer::dedup::is_near_duplicate(&full, &full, 0));
    assert!(!media_organizer::dedup::is_near_duplicate(&full, &track(None, Some("B"), Some("C")), 9));
    assert!(!media_organizer::dedup::is_near_duplicate(&full, &track(Some("A"), None, Some("C")), 9));
    assert!(!media_organizer::dedup::is_near_duplicate(&track(Some("A"), Some("B"), None), &full, 9));
    assert!(!media_organizer::dedup::is_near_duplicate(&full, &track(Some("A"), Some("B"), Some("X")), 0));
    assert!(media_organizer::dedup::is_near_duplicate(&full, &track(Some("A"), Some("B"), Some("X")), 1));
    assert!(media_organizer::dedup::is_near(&Some(String::from("ab")), &Some(String::from("ac")), 1));
    assert!(!media_organizer::dedup::is_near(&None, &None, 1));
}
