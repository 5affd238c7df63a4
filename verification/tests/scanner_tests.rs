use media_organizer::catalog::{Catalog, CatalogError};
use media_organizer::media_organizer::MediaOrganizer;
use media_organizer::models::TrackFile;
use media_organizer::scanner::{is_supported, ScanOutcome, ScanStep, ScannedEntry};
use media_organizer::tags::{TagContainer, TagItem, TagKey, TagRead};

fn tagged(title: &str) -> TagRead {
    TagRead::Tagged(TagContainer {
        items: vec![
            TagItem { key: TagKey::TrackArtist, text: Some(String::from("Pink Floyd")) },
            TagItem { key: TagKey::AlbumTitle, text: Some(String::from("The Wall")) },
            TagItem { key: TagKey::TrackTitle, text: Some(String::from(title)) },
        ],
        year: Some(1979),
        track: Some(3),
        disk: Some(1),
        disk_total: None,
    })
}

#[test]
fn allow_list_is_mp3_wav_flac_aiff() {
    assert!(is_supported("/m/a.mp3"));
    assert!(is_supported("/m/a.wav"));
    assert!(is_supported("/m/a.flac"));
    assert!(is_supported("/m/a.aiff"));
    assert!(!is_supported("/m/a.ogg"));
    assert!(!is_supported("/m/a.jpg"));
    assert!(!is_supported("/m/a.MP3"));
    assert!(!is_supported("/m/a.mp3.part"));
    assert!(!is_supported("/m/mp3"));
    assert!(!is_supported(""));
}

#[test]
fn scanning_a_new_file_inserts_one_row() {
    let mut m = MediaOrganizer::new();
    assert_eq!(m.parse_file("/in/a.flac", &tagged("Another Brick in the Wall")), Ok(ScanOutcome::Inserted(1)));
    assert_eq!(m.catalog().len(), 1);
    assert_eq!(
        m.catalog().rows()[0],
        TrackFile {
            id: 1,
            barcode: None,
            path: String::from("/in/a.flac"),
            artist: Some(String::from("Pink Floyd")),
            album: Some(String::from("The Wall")),
            title: Some(String::from("Another Brick in the Wall")),
            track_number: Some(3),
            disc_number: Some(1),
            disc_total: None,
            year: Some(1979),
            processed: false,
        }
    );
}

#[test]
fn rescanning_leaves_exactly_one_row_per_path() {
    let mut m = MediaOrganizer::new();
    for pass in 0..3 {
        let first = m.parse_file("/in/a.flac", &tagged("A")).unwrap();
        let second = m.parse_file("/in/b.mp3", &tagged("B")).unwrap();
        if pass == 0 {
            assert_eq!(first, ScanOutcome::Inserted(1));
            assert_eq!(second, ScanOutcome::Inserted(2));
        } else {
            assert_eq!(first, ScanOutcome::AlreadyCataloged);
            assert_eq!(second, ScanOutcome::AlreadyCataloged);
        }
        assert_eq!(m.catalog().len(), 2);
    }
    let rows = m.catalog().rows();
    assert_eq!(rows.iter().filter(|r| r.path == "/in/a.flac").count(), 1);
    assert_eq!(rows.iter().filter(|r| r.path == "/in/b.mp3").count(), 1);
}

#[test]
fn rescanning_does_not_read_the_tags_again() {
    let mut m = MediaOrganizer::new();
    m.parse_file("/in/a.flac", &tagged("A")).unwrap();
    assert_eq!(m.parse_file("/in/a.flac", &tagged("Changed")), Ok(ScanOutcome::AlreadyCataloged));
    assert_eq!(m.parse_file("/in/a.flac", &TagRead::Unreadable), Ok(ScanOutcome::AlreadyCataloged));
    assert_eq!(m.catalog().rows()[0].title, Some(String::from("A")));
}

#[test]
fn unsupported_file_is_purged_and_not_cataloged() {
    let mut m = MediaOrganizer::new();
    assert_eq!(m.parse_file("/in/cover.jpg", &tagged("A")), Ok(ScanOutcome::Purged));
    assert_eq!(m.parse_file("/in/notes.txt", &TagRead::Unreadable), Ok(ScanOutcome::Purged));
    assert_eq!(m.catalog().len(), 0);
    assert!(m.catalog().find_by_path("/in/cover.jpg").is_none());
}

#[test]
fn undecodable_file_gets_no_row_and_is_not_purged() {
    let mut m = MediaOrganizer::new();
    assert_eq!(m.parse_file("/in/broken.mp3", &TagRead::Unreadable), Ok(ScanOutcome::Undecodable));
    assert_eq!(m.parse_file("/in/bare.wav", &TagRead::Untagged), Ok(ScanOutcome::Undecodable));
    assert_eq!(m.catalog().len(), 0);
    assert_eq!(m.scan_step("/in/broken.mp3", false), ScanStep::Decode);
}

#[test]
fn undecodable_file_enters_once_it_decodes() {
    let mut m = MediaOrganizer::new();
    assert_eq!(m.parse_file("/in/a.mp3", &TagRead::Unreadable), Ok(ScanOutcome::Undecodable));
    assert_eq!(m.parse_file("/in/a.mp3", &tagged("A")), Ok(ScanOutcome::Inserted(1)));
    assert_eq!(m.catalog().len(), 1);
}

#[test]
fn insert_failure_is_reported() {
    let full = TrackFile {
        id: i32::MAX,
        barcode: None,
        path: String::from("/in/z.mp3"),
        artist: None,
        album: None,
        title: None,
        track_number: None,
        disc_number: None,
        disc_total: None,
        year: None,
        processed: false,
    };
    let mut m = MediaOrganizer::with_catalog(Catalog::from_rows(vec![full]).unwrap());
    assert_eq!(m.parse_file("/in/a.mp3", &tagged("A")), Err(CatalogError::IdsExhausted));
    assert_eq!(m.catalog().len(), 1);
    assert_eq!(m.parse_file("/in/z.mp3", &tagged("A")), Ok(ScanOutcome::AlreadyCataloged));
    assert_eq!(m.parse_file("/in/a.txt", &tagged("A")), Ok(ScanOutcome::Purged));
}

#[test]
fn scan_step_classifies_entries() {
    let mut m = MediaOrganizer::new();
    m.parse_file("/in/known.flac", &tagged("A")).unwrap();
    assert_eq!(m.scan_step("/in/sub", true), ScanStep::Descend);
    assert_eq!(m.scan_step("/in/sub.mp3", true), ScanStep::Descend);
    assert_eq!(m.scan_step("/in/cover.jpg", false), ScanStep::Purge);
    assert_eq!(m.scan_step("/in/known.flac", false), ScanStep::Skip);
    assert_eq!(m.scan_step("/in/new.flac", false), ScanStep::Decode);
}

#[test]
fn directory_listing_is_classified_entry_by_entry() {
    let mut m = MediaOrganizer::new();
    m.parse_file("/in/known.flac", &tagged("A")).unwrap();
    let entries = vec![
        ScannedEntry { path: String::from("/in/new.aiff"), is_dir: false },
        ScannedEntry { path: String::from("/in/sub"), is_dir: true },
        ScannedEntry { path: String::from("/in/known.flac"), is_dir: false },
        ScannedEntry { path: String::from("/in/Thumbs.db"), is_dir: false },
    ];
    assert_eq!(
        m.parse_media_directory(&entries),
        vec![ScanStep::Decode, ScanStep::Descend, ScanStep::Skip, ScanStep::Purge]
    );
    assert_eq!(m.parse_media_directory(&vec![]), Vec::<ScanStep>::new());
    assert_eq!(m.catalog().len(), 1);
}
