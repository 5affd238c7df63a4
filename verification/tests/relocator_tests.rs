use media_organizer::catalog::Catalog;
use media_organizer::media_organizer::MediaOrganizer;
use media_organizer::models::TrackFile;
use media_organizer::relocator::{canonical_layout, is_eligible, plan_relocation, sanitize_segment};

fn wall() -> TrackFile {
    TrackFile {
        id: 7,
        barcode: None,
        path: String::from("/incoming/rip/track03.flac"),
        artist: Some(String::from("Pink Floyd")),
        album: Some(String::from("The Wall")),
        title: Some(String::from("Another Brick in the Wall")),
        track_number: Some(3),
        disc_number: Some(1),
        disc_total: Some(2),
        year: Some(1979),
        processed: false,
    }
}

fn organizer(rows: Vec<TrackFile>) -> MediaOrganizer {
    MediaOrganizer::with_catalog(Catalog::from_rows(rows).unwrap())
}

#[test]
fn canonical_path_of_a_two_disc_album() {
    let p = plan_relocation(&wall(), "/music").unwrap();
    assert_eq!(p.target, "/music/Pink Floyd/The Wall (1979)/Disc 01/03 - Another Brick in the Wall.flac");
    assert_eq!(
        p.directories,
        vec![
            String::from("/music/Pink Floyd"),
            String::from("/music/Pink Floyd/The Wall (1979)"),
            String::from("/music/Pink Floyd/The Wall (1979)/Disc 01"),
        ]
    );
    assert_eq!(p.id, 7);
    assert_eq!(p.source, "/incoming/rip/track03.flac");
}

#[test]
fn canonical_path_of_a_single_disc_album_has_no_disc_directory() {
    let mut t = wall();
    t.disc_total = Some(1);
    let p = plan_relocation(&t, "/music").unwrap();
    assert_eq!(p.target, "/music/Pink Floyd/The Wall (1979)/03 - Another Brick in the Wall.flac");
    assert_eq!(
        p.directories,
        vec![String::from("/music/Pink Floyd"), String::from("/music/Pink Floyd/The Wall (1979)")]
    );
}

#[test]
fn absent_disc_fields_count_as_one() {
    let mut t = wall();
    t.disc_total = None;
    t.disc_number = None;
    let p = plan_relocation(&t, "/music").unwrap();
    assert_eq!(p.target, "/music/Pink Floyd/The Wall (1979)/03 - Another Brick in the Wall.flac");
    let mut t = wall();
    t.disc_number = None;
    let p = plan_relocation(&t, "/music").unwrap();
    assert_eq!(p.target, "/music/Pink Floyd/The Wall (1979)/Disc 01/03 - Another Brick in the Wall.flac");
}

#[test]
fn numbers_are_padded_with_zeros() {
    let l = canonical_layout("/m", "A", "B", "T", 79, 12, 10, 11, "mp3");
    assert_eq!(l.target, "/m/A/B (0079)/Disc 10/12 - T.mp3");
    let l = canonical_layout("/m", "A", "B", "T", 2024, 105, 3, 2, "wav");
    assert_eq!(l.target, "/m/A/B (2024)/Disc 03/105 - T.wav");
    let l = canonical_layout("", "A", "B", "T", 1, 1, 1, 1, "");
    assert_eq!(l.target, "/A/B (0001)/01 - T.");
    assert_eq!(l.directories, vec![String::from("/A"), String::from("/A/B (0001)")]);
}

#[test]
fn separator_in_a_name_never_splits_the_path() {
    assert_eq!(sanitize_segment("AC/DC"), "ACDC");
    let mut t = wall();
    t.artist = Some(String::from("AC/DC"));
    t.album = Some(String::from("Back in Black"));
    t.title = Some(String::from("Hells/Bells"));
    t.year = Some(1980);
    t.disc_total = None;
    let p = plan_relocation(&t, "/music").unwrap();
    assert_eq!(p.directories[0], "/music/ACDC");
    assert_eq!(p.target, "/music/ACDC/Back in Black (1980)/03 - HellsBells.flac");
    assert_eq!(p.target.matches('/').count(), 4);
}

#[test]
fn sanitize_takes_out_what_a_file_name_may_not_hold() {
    assert_eq!(sanitize_segment("Pink Floyd"), "Pink Floyd");
    assert_eq!(sanitize_segment("a?b<c>d\\e:f*g|h\"i"), "abcdefghi");
    assert_eq!(sanitize_segment("tab\there"), "tabhere");
    assert_eq!(sanitize_segment(".."), "");
    assert_eq!(sanitize_segment("ends with dot."), "ends with dot.");
    assert_eq!(sanitize_segment("résumé"), "résumé");
    let long = "x".repeat(300);
    assert_eq!(sanitize_segment(&long), "x".repeat(255));
}

#[test]
fn extension_is_taken_from_the_source_path() {
    let mut t = wall();
    t.path = String::from("/in/a.b.mp3");
    assert!(plan_relocation(&t, "/m").unwrap().target.ends_with(" - Another Brick in the Wall.mp3"));
    t.path = String::from("noext");
    assert!(plan_relocation(&t, "/m").unwrap().target.ends_with(" - Another Brick in the Wall.noext"));
}

#[test]
fn row_missing_a_field_has_no_move() {
    let cases: Vec<fn(&mut TrackFile)> = vec![
        |t| t.artist = None,
        |t| t.album = None,
        |t| t.title = None,
        |t| t.year = None,
        |t| t.track_number = None,
        |t| t.processed = true,
    ];
    for strip in cases {
        let mut t = wall();
        strip(&mut t);
        assert!(!is_eligible(&t));
        assert!(plan_relocation(&t, "/music").is_none());
    }
    assert!(is_eligible(&wall()));
}

#[test]
fn row_missing_a_field_is_never_relocated_and_stays_unprocessed() {
    let mut incomplete = wall();
    incomplete.id = 8;
    incomplete.path = String::from("/in/other.flac");
    incomplete.year = None;
    let mut m = organizer(vec![wall(), incomplete.clone()]);
    let plan = m.move_media_by_metadata("/music");
    assert_eq!(plan.len(), 1);
    assert_eq!(plan[0].id, 7);
    assert!(!m.confirm_relocation(8));
    assert_eq!(m.catalog().rows()[1], incomplete);
    assert!(m.confirm_relocation(7));
    assert_eq!(m.catalog().rows()[1], incomplete);
    assert!(!m.catalog().rows()[1].processed);
    assert!(m.move_media_by_metadata("/music").is_empty());
}

#[test]
fn confirmed_move_marks_the_row_processed_and_nothing_else() {
    let mut other = wall();
    other.id = 9;
    other.path = String::from("/in/other.flac");
    let mut m = organizer(vec![wall(), other.clone()]);
    assert!(m.confirm_relocation(7));
    let mut done = wall();
    done.processed = true;
    assert_eq!(m.catalog().rows()[0], done);
    assert_eq!(m.catalog().rows()[1], other);
}

#[test]
fn unknown_or_processed_row_cannot_be_confirmed() {
    let mut m = organizer(vec![wall()]);
    assert!(!m.confirm_relocation(1));
    assert!(m.confirm_relocation(7));
    assert!(!m.confirm_relocation(7));
    assert!(m.catalog().rows()[0].processed);
}

#[test]
fn completed_pass_leaves_nothing_to_move() {
    let mut rows = Vec::new();
    for i in 1..6 {
        let mut t = wall();
        t.id = i;
        t.path = format!("/in/{}.flac", i);
        t.track_number = Some(i);
        if i == 4 {
            t.title = None;
        }
        rows.push(t);
    }
    let mut m = organizer(rows);
    let plan = m.move_media_by_metadata("/music");
    let ids: Vec<i32> = plan.iter().map(|p| p.id).collect();
    assert_eq!(ids, vec![1, 2, 3, 5]);
    for p in plan.iter() {
        assert!(m.confirm_relocation(p.id));
    }
    assert!(m.move_media_by_metadata("/music").is_empty());
    assert!(m.move_media_by_metadata("/elsewhere").is_empty());
}

#[test]
fn failed_move_is_planned_again() {
    let mut a = wall();
    a.id = 1;
    a.path = String::from("/in/1.flac");
    let mut b = wall();
    b.id = 2;
    b.path = String::from("/in/2.flac");
    let mut m = organizer(vec![a, b]);
    let plan = m.move_media_by_metadata("/music");
    assert_eq!(plan.len(), 2);
    assert!(m.confirm_relocation(1));
    let again = m.move_media_by_metadata("/music");
    assert_eq!(again.len(), 1);
    assert_eq!(again[0].id, 2);
    assert_eq!(again[0].target, plan[1].target);
}

#[test]
fn plan_keeps_catalog_order_and_changes_nothing() {
    let mut a = wall();
    a.id = 5;
    a.path = String::from("/in/5.flac");
    a.track_number = Some(5);
    let mut b = wall();
    b.id = 2;
    b.path = String::from("/in/2.flac");
    b.track_number = Some(2);
    let rows = vec![a, b];
    let m = organizer(rows.clone());
    let plan = m.move_media_by_metadata("/music");
    assert_eq!(plan[0].id, 5);
    assert_eq!(plan[1].id, 2);
    assert_eq!(plan[0].target, "/music/Pink Floyd/The Wall (1979)/Disc 01/05 - Another Brick in the Wall.flac");
    assert_eq!(plan[1].target, "/music/Pink Floyd/The Wall (1979)/Disc 01/02 - Another Brick in the Wall.flac");
    assert_eq!(m.catalog().rows(), &rows);
}
