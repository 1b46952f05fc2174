use music_catalog::cover::{data_uri, sniff_image, ImageKind};
use music_catalog::matching::{matches_folded, select_match};
use music_catalog::models::{Artist, Item};
use music_catalog::text::{chars_of, contains_chars, name_less, normalize, text_eq};
use music_catalog::walk::{is_audio_extension, is_audio_file};

fn candidate(title: &str, artists: &[&str]) -> Item {
    Item {
        name: title.to_string(),
        artists: artists.iter().map(|a| Artist { name: a.to_string(), ..Artist::default() }).collect(),
        ..Item::default()
    }
}

#[test]
fn normalize_removes_backslashes() {
    assert_eq!(normalize("AC\\DC"), "ACDC");
    assert_eq!(normalize("\\\\a\\b\\"), "ab");
    assert_eq!(normalize(""), "");
    assert_eq!(normalize("plain"), "plain");
}

#[test]
fn substring_search() {
    let hay = chars_of("One More Time");
    assert!(contains_chars(&hay, &chars_of("More")));
    assert!(contains_chars(&hay, &chars_of("")));
    assert!(contains_chars(&hay, &chars_of("One More Time")));
    assert!(!contains_chars(&hay, &chars_of("One More Time (Remaster)")));
    assert!(!contains_chars(&hay, &chars_of("more")));
}

#[test]
fn ordinal_name_order() {
    assert!(name_less("B", "a"));
    assert!(name_less("ab", "abc"));
    assert!(!name_less("abc", "abc"));
    assert!(!name_less("b", "a"));
    assert!(name_less("", "a"));
    assert!(text_eq("x", "x"));
    assert!(!text_eq("x", "X"));
}

#[test]
fn audio_extensions() {
    for e in ["mp3", "wav", "flac", "aac", "ogg", "wma"] {
        assert!(is_audio_extension(e));
    }
    assert!(!is_audio_extension("MP3"));
    assert!(!is_audio_extension("mp4"));
    assert!(is_audio_file("dir/song.MP3"));
    assert!(is_audio_file("a.b/c.Wav"));
    assert!(!is_audio_file("notes.txt"));
    assert!(!is_audio_file("mp3"));
    assert!(!is_audio_file("dir.mp3/readme"));
}

#[test]
fn remaster_suffix_does_not_match() {
    let cands = vec![candidate("One More Time (Remaster)", &["Daft Punk"])];
    assert_eq!(select_match("Daft Punk", "One More Time", &cands), None);
}

#[test]
fn first_fitting_candidate_is_chosen() {
    let cands = vec![
        candidate("Around the World", &["Daft Punk"]),
        candidate("ONE MORE TIME", &["Someone", "daft punk"]),
        candidate("One More Time", &["Daft Punk"]),
    ];
    assert_eq!(select_match("Daft Punk", "One More Time (Live)", &cands), Some(1));
}

#[test]
fn artist_may_be_part_of_either_side() {
    let c1 = vec![candidate("Song", &["Punk"])];
    assert_eq!(select_match("Daft Punk", "Song", &c1), Some(0));
    let c2 = vec![candidate("Song", &["Daft Punk & Friends"])];
    assert_eq!(select_match("Daft Punk", "Song", &c2), Some(0));
    let c3 = vec![candidate("Song", &["Justice"])];
    assert_eq!(select_match("Daft Punk", "Song", &c3), None);
    assert_eq!(select_match("Daft Punk", "Song", &Vec::new()), None);
}

#[test]
fn rule_on_folded_values() {
    let names = vec!["daft punk".to_string()];
    assert!(matches_folded("daft punk", "one more time", &names, "one more time"));
    assert!(!matches_folded("daft punk", "one more time", &names, "one more time (remaster)"));
    assert!(!matches_folded("justice", "one more time", &names, "one more time"));
    assert!(!matches_folded("daft punk", "x", &Vec::new(), "x"));
}

#[test]
fn image_formats_are_sniffed() {
    assert_eq!(sniff_image(&[0x89, 0x50, 0x4E, 0x47, 0x0D, 0x0A, 0x1A, 0x0A, 0]), ImageKind::Png);
    assert_eq!(sniff_image(&[0xFF, 0xD8, 0xFF, 0xE0]), ImageKind::Jpeg);
    assert_eq!(sniff_image(b"GIF87a..."), ImageKind::Gif);
    assert_eq!(sniff_image(b"RIFF\x00\x00\x00\x00WEBPVP8 "), ImageKind::Webp);
    assert_eq!(sniff_image(b"BM"), ImageKind::Unknown);
    assert_eq!(sniff_image(&[]), ImageKind::Unknown);
}

#[test]
fn data_uri_of_pictures() {
    assert_eq!(data_uri(&[0xFF, 0xD8, 0xFF]), "data:image/jpeg;base64,/9j/");
    assert_eq!(data_uri(b"abc"), "data:application/octet-stream;base64,YWJj");
    assert_eq!(data_uri(b"ab"), "data:application/octet-stream;base64,YWI=");
    assert_eq!(data_uri(&[]), "data:application/octet-stream;base64,");
}
