use music_catalog::catalog::{Catalog, Track};
use music_catalog::models::{Album, Artist, Item};
use music_catalog::walk::{BuildError, Builder, Data, DirEntry, RawTag};

fn tag(title: &str, artist: &str, album: &str, album_artist: &str) -> RawTag {
    RawTag {
        title: Some(title.to_string()),
        artist: Some(artist.to_string()),
        album: Some(album.to_string()),
        album_artist: if album_artist.is_empty() { None } else { Some(album_artist.to_string()) },
        year: Some(1997),
        track_number: Some(1),
        cover: None,
    }
}

fn file(path: &str) -> DirEntry {
    DirEntry { path: path.to_string(), is_dir: false }
}

fn dir(path: &str) -> DirEntry {
    DirEntry { path: path.to_string(), is_dir: true }
}

/// Runs a walk over one directory whose files all carry the given tags
/// (`None`: unreadable).
fn build_flat(files: Vec<(&str, Option<RawTag>)>) -> Result<Data, BuildError> {
    let mut b = Builder::new("root".to_string());
    let d = b.next_directory().unwrap();
    assert_eq!(d, "root");
    let entries: Vec<DirEntry> = files.iter().map(|(p, _)| file(p)).collect();
    let to_read = b.directory_listed(Some(entries))?;
    assert_eq!(to_read.len(), files.len());
    for (p, t) in files {
        b.file_read(p.to_string(), t, Vec::new());
    }
    assert!(b.next_directory().is_none());
    Ok(b.finish())
}

fn track_count(c: &Catalog) -> usize {
    c.artists.iter().map(|a| a.albums.iter().map(|al| al.tracks.len()).sum::<usize>()).sum()
}

#[test]
fn empty_directory_gives_empty_catalog() {
    let data = build_flat(Vec::new()).unwrap();
    assert!(data.catalog.artists.is_empty());
    assert_eq!(data.skipped_files, 0);
    assert_eq!(data.skipped_dirs, 0);
}

#[test]
fn unreadable_root_is_fatal() {
    let mut b = Builder::new("missing".to_string());
    assert_eq!(b.next_directory().unwrap(), "missing");
    assert_eq!(b.directory_listed(None).err(), Some(BuildError::RootNotFound));
}

#[test]
fn unreadable_subdirectory_is_skipped() {
    let mut b = Builder::new("root".to_string());
    b.next_directory().unwrap();
    let files = b.directory_listed(Some(vec![dir("root/a"), file("root/x.mp3"), dir("root/b")])).unwrap();
    assert_eq!(files, vec!["root/x.mp3".to_string()]);
    b.file_read("root/x.mp3".to_string(), Some(tag("T", "A", "Al", "")), Vec::new());
    assert_eq!(b.next_directory().unwrap(), "root/b");
    assert!(b.directory_listed(None).unwrap().is_empty());
    assert_eq!(b.next_directory().unwrap(), "root/a");
    assert!(b.directory_listed(Some(Vec::new())).unwrap().is_empty());
    assert!(b.next_directory().is_none());
    let data = b.finish();
    assert_eq!(data.skipped_dirs, 1);
    assert_eq!(track_count(&data.catalog), 1);
}

#[test]
fn non_audio_files_are_not_read() {
    let mut b = Builder::new("root".to_string());
    b.next_directory().unwrap();
    let files = b
        .directory_listed(Some(vec![
            file("root/a.txt"),
            file("root/b.FLAC"),
            file("root/c"),
            file("root/d.Ogg"),
            file("root/e.wma"),
            file("root/f.jpg"),
        ]))
        .unwrap();
    assert_eq!(files, vec!["root/b.FLAC".to_string(), "root/d.Ogg".to_string(), "root/e.wma".to_string()]);
}

#[test]
fn album_titles_differing_in_case_and_trailing_space() {
    // Titles are folded for case only: a trailing space makes another album.
    let data = build_flat(vec![
        ("root/1.mp3", Some(tag("Airbag", "Radiohead", "OK Computer", "Radiohead"))),
        ("root/2.mp3", Some(tag("Lucky", "Radiohead", "ok computer ", "Radiohead"))),
    ])
    .unwrap();
    assert_eq!(data.catalog.artists.len(), 1);
    assert_eq!(data.catalog.artists[0].name, "Radiohead");
    assert_eq!(data.catalog.artists[0].albums.len(), 2);
    assert_eq!(data.catalog.artists[0].albums[0].title, "OK Computer");
    assert_eq!(data.catalog.artists[0].albums[1].title, "ok computer ");
}

#[test]
fn album_titles_differing_in_case_only_share_an_album() {
    let data = build_flat(vec![
        ("root/1.mp3", Some(tag("Airbag", "Radiohead", "OK Computer", "Radiohead"))),
        ("root/2.mp3", Some(tag("Lucky", "Radiohead", "ok computer", "Radiohead"))),
    ])
    .unwrap();
    let artist = &data.catalog.artists[0];
    assert_eq!(artist.albums.len(), 1);
    assert_eq!(artist.albums[0].title, "OK Computer");
    assert_eq!(artist.albums[0].title_key, "ok computer");
    let titles: Vec<&str> = artist.albums[0].tracks.iter().map(|t| t.title.as_str()).collect();
    assert_eq!(titles, vec!["Airbag", "Lucky"]);
}

#[test]
fn one_unreadable_file_among_ten() {
    let names: Vec<String> = (0..10).map(|i| format!("root/{}.mp3", i)).collect();
    let mut files: Vec<(&str, Option<RawTag>)> = Vec::new();
    for (i, n) in names.iter().enumerate() {
        let t = if i == 4 { None } else { Some(tag(&format!("Song {}", i), "Band", "Record", "")) };
        files.push((n.as_str(), t));
    }
    let data = build_flat(files).unwrap();
    assert_eq!(track_count(&data.catalog), 9);
    assert_eq!(data.skipped_files, 1);
}

#[test]
fn same_path_is_added_once() {
    let mut c = Catalog::new();
    let t1 = Track {
        path: "root/a.mp3".to_string(),
        title: "One".to_string(),
        artist: "X".to_string(),
        album_artist: String::new(),
        picture_data_uri: String::new(),
        year: 0,
        track_index: None,
        external_match: None,
    };
    let t2 = Track { title: "Other".to_string(), ..t1.clone() };
    assert!(c.add_track("X".to_string(), "Al".to_string(), t1));
    assert!(!c.add_track("Y".to_string(), "Bl".to_string(), t2));
    assert_eq!(track_count(&c), 1);
    assert_eq!(c.artists.len(), 1);
}

#[test]
fn artists_are_sorted_by_ordinal_name() {
    let data = build_flat(vec![
        ("root/1.mp3", Some(tag("t1", "beta", "a", ""))),
        ("root/2.mp3", Some(tag("t2", "Beta", "a", ""))),
        ("root/3.mp3", Some(tag("t3", "alpha", "a", ""))),
    ])
    .unwrap();
    let names: Vec<&str> = data.catalog.artists.iter().map(|a| a.name.as_str()).collect();
    assert_eq!(names, vec!["Beta", "alpha", "beta"]);
}

#[test]
fn grouping_prefers_album_artist_then_artist() {
    let data = build_flat(vec![
        ("root/1.mp3", Some(tag("t1", "Singer", "Duets", "Various"))),
        ("root/2.mp3", Some(tag("t2", "Singer", "Solo", ""))),
    ])
    .unwrap();
    let names: Vec<&str> = data.catalog.artists.iter().map(|a| a.name.as_str()).collect();
    assert_eq!(names, vec!["Singer", "Various"]);
    assert_eq!(data.catalog.artists[1].albums[0].artist_name, "Various");
}

#[test]
fn track_fields_come_from_the_tag() {
    let mut t = tag("AC\\DC Song", "AC\\DC", "Back", "");
    t.year = None;
    t.track_number = Some(0);
    t.cover = Some(b"GIF89a".to_vec());
    let data = build_flat(vec![("root/1.mp3", Some(t))]).unwrap();
    let artist = &data.catalog.artists[0];
    assert_eq!(artist.name, "ACDC");
    let track = &artist.albums[0].tracks[0];
    assert_eq!(track.title, "ACDC Song");
    assert_eq!(track.year, 0);
    assert_eq!(track.track_index, None);
    assert_eq!(track.picture_data_uri, "data:image/gif;base64,R0lGODlh");
    assert_eq!(artist.albums[0].picture_url, "data:image/gif;base64,R0lGODlh");
}

fn candidate(name: &str, artist: &str, album: &str) -> Item {
    Item {
        name: name.to_string(),
        artists: vec![Artist { name: artist.to_string(), ..Artist::default() }],
        album: Album { name: album.to_string(), ..Album::default() },
        ..Item::default()
    }
}

#[test]
fn enriched_track_takes_remote_album() {
    let mut b = Builder::new("root".to_string());
    b.next_directory().unwrap();
    b.directory_listed(Some(vec![file("root/1.mp3")])).unwrap();
    let cands = vec![candidate("Intro", "Other", "X"), candidate("one more time", "daft punk", "Discovery")];
    let added = b.file_read(
        "root/1.mp3".to_string(),
        Some(tag("One More Time (Radio Edit)", "Daft Punk", "Singles", "")),
        cands,
    );
    assert!(added);
    let data = b.finish();
    let album = &data.catalog.artists[0].albums[0];
    assert_eq!(album.title, "Discovery");
    let m = album.tracks[0].external_match.as_ref().unwrap();
    assert_eq!(m.name, "one more time");
}

#[test]
fn missing_artist_falls_back_to_first_candidate() {
    let mut b = Builder::new("root".to_string());
    b.next_directory().unwrap();
    b.directory_listed(Some(vec![file("root/1.mp3")])).unwrap();
    let mut t = tag("Untitled", "", "Demo", "");
    t.artist = None;
    b.file_read("root/1.mp3".to_string(), Some(t), vec![candidate("Something else", "Remote Band", "R")]);
    let data = b.finish();
    assert_eq!(data.catalog.artists[0].name, "Remote Band");
    assert_eq!(data.catalog.artists[0].albums[0].title, "Demo");
    assert!(data.catalog.artists[0].albums[0].tracks[0].external_match.is_none());
}

fn snapshot(c: &Catalog) -> Vec<(String, Vec<(String, Vec<String>)>)> {
    c.artists
        .iter()
        .map(|a| {
            (
                a.name.clone(),
                a.albums
                    .iter()
                    .map(|al| (al.title.clone(), al.tracks.iter().map(|t| t.path.clone()).collect()))
                    .collect(),
            )
        })
        .collect()
}

#[test]
fn building_twice_gives_the_same_catalog() {
    let mk = || {
        build_flat(vec![
            ("root/1.mp3", Some(tag("a", "Z", "One", ""))),
            ("root/2.mp3", Some(tag("b", "Y", "Two", ""))),
            ("root/3.mp3", Some(tag("c", "Z", "one", ""))),
        ])
        .unwrap()
    };
    let first = mk();
    let second = mk();
    assert_eq!(snapshot(&first.catalog), snapshot(&second.catalog));
    let ids = |c: &Catalog| -> Vec<u64> { c.artists.iter().map(|a| a.id).collect() };
    assert_eq!(ids(&first.catalog), ids(&second.catalog));
}

fn one_track_catalog(entries: &[(&str, &str, &str)]) -> Catalog {
    let mut c = Catalog::new();
    for (artist, album, path) in entries {
        let t = Track {
            path: path.to_string(),
            title: path.to_string(),
            artist: artist.to_string(),
            album_artist: String::new(),
            picture_data_uri: String::new(),
            year: 0,
            track_index: None,
            external_match: None,
        };
        c.add_track(artist.to_string(), album.to_string(), t);
    }
    c
}

#[test]
fn merge_is_associative_on_disjoint_paths() {
    let a = || one_track_catalog(&[("X", "Al", "p1"), ("Y", "B", "p2")]);
    let b = || one_track_catalog(&[("X", "al", "p3"), ("Z", "C", "p4")]);
    let c = || one_track_catalog(&[("Z", "c", "p5"), ("X", "AL", "p6"), ("W", "D", "p7")]);
    let mut left = a();
    left.merge(b());
    left.merge(c());
    let mut bc = b();
    bc.merge(c());
    let mut right = a();
    right.merge(bc);
    assert_eq!(snapshot(&left), snapshot(&right));
    assert_eq!(track_count(&left), 7);
}

#[test]
fn merge_drops_duplicate_paths() {
    let mut a = one_track_catalog(&[("X", "Al", "p1")]);
    a.merge(one_track_catalog(&[("X", "AL", "p1"), ("X", "AL", "p2")]));
    assert_eq!(snapshot(&a), vec![("X".to_string(), vec![("Al".to_string(), vec!["p1".to_string(), "p2".to_string()])])]);
}

#[test]
fn merge_keeps_albums_whose_tracks_were_all_present() {
    let a = || one_track_catalog(&[("X", "Other", "p1")]);
    let b = || one_track_catalog(&[("X", "ok", "p1")]);
    let c = || one_track_catalog(&[("X", "OK", "p2")]);
    let mut ab = a();
    ab.merge(b());
    assert_eq!(
        snapshot(&ab),
        vec![("X".to_string(), vec![("Other".to_string(), vec!["p1".to_string()]), ("ok".to_string(), vec![])])]
    );
    ab.merge(c());
    let mut bc = b();
    bc.merge(c());
    let mut right = a();
    right.merge(bc);
    assert_eq!(snapshot(&ab), snapshot(&right));
    assert_eq!(
        snapshot(&right),
        vec![(
            "X".to_string(),
            vec![("Other".to_string(), vec!["p1".to_string()]), ("ok".to_string(), vec!["p2".to_string()])]
        )]
    );
}

#[test]
fn merge_creates_missing_artists_in_order() {
    let mut a = one_track_catalog(&[("M", "A1", "p1")]);
    a.merge(one_track_catalog(&[("Z", "Z1", "p2"), ("B", "B1", "p3"), ("M", "A2", "p4")]));
    let names: Vec<&str> = a.artists.iter().map(|x| x.name.as_str()).collect();
    assert_eq!(names, vec!["B", "M", "Z"]);
    assert_eq!(a.artists[1].albums.len(), 2);
    assert_eq!(a.artists[1].albums[1].title, "A2");
    let mut ids: Vec<u64> = Vec::new();
    for ar in &a.artists {
        ids.push(ar.id);
        for al in &ar.albums {
            ids.push(al.id);
        }
    }
    let n = ids.len();
    ids.sort();
    ids.dedup();
    assert_eq!(ids.len(), n);
}
