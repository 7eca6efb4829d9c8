use gc_core::scan::{is_mp3_file_name, ScanResult};
use gc_core::taxonomy::{Classification, Taxonomy};

#[test]
fn mp3_names() {
    assert!(is_mp3_file_name("track01.mp3"));
    assert!(is_mp3_file_name("Track.MP3"));
    assert!(is_mp3_file_name("a.Mp3"));
    assert!(!is_mp3_file_name(".mp3"));
    assert!(!is_mp3_file_name("mp3"));
    assert!(!is_mp3_file_name("track.mp4"));
    assert!(!is_mp3_file_name("track.flac"));
    assert!(!is_mp3_file_name("track.mp3.bak"));
    assert!(!is_mp3_file_name("track_mp3"));
}

#[test]
fn scan_tally() {
    let tax = Taxonomy::load_default().unwrap();
    let mut scan = ScanResult::new();
    assert_eq!(
        scan.record("a.mp3".to_string(), Some("Cloud Rap".to_string()), &tax),
        Some(Classification::Mapped { canonical: "Hip Hop".to_string() })
    );
    assert_eq!(
        scan.record("b.mp3".to_string(), Some("Rock".to_string()), &tax),
        Some(Classification::AlreadyCanonical)
    );
    assert_eq!(
        scan.record("c.mp3".to_string(), Some("Vaporwave".to_string()), &tax),
        Some(Classification::Unknown)
    );
    assert_eq!(scan.record("d.mp3".to_string(), None, &tax), None);
    assert_eq!(
        scan.record("e.mp3".to_string(), Some(String::new()), &tax),
        Some(Classification::Empty)
    );
    assert_eq!(
        scan.record("f.mp3".to_string(), Some("Vaporwave".to_string()), &tax),
        Some(Classification::Unknown)
    );
    assert_eq!(
        scan.record("g.mp3".to_string(), Some("Reggaeton".to_string()), &tax),
        Some(Classification::Unknown)
    );
    assert_eq!(scan.found, 7);
    assert_eq!(scan.matched, 2);
    assert_eq!(scan.unmatched(), 5);
    assert_eq!(scan.unknown_genres.len(), 2);
    assert_eq!(scan.unknown_genres[0].genre, "Vaporwave");
    assert_eq!(scan.unknown_genres[0].files, vec!["c.mp3".to_string(), "f.mp3".to_string()]);
    assert_eq!(scan.unknown_genres[1].genre, "Reggaeton");
    assert_eq!(scan.unknown_genres[1].files, vec!["g.mp3".to_string()]);
}
