//! The catalog: Artists sorted by name, each holding Albums keyed by folded
//! title, each holding Tracks in the order they were added. No two Tracks
//! anywhere share a path.

use vstd::prelude::*;
use crate::models::Item;
use crate::text::{
    lemma_seq_less_irreflexive, lemma_seq_less_total, lemma_seq_less_transitive, lower_of,
    lowercase, name_less, seq_less,
};

verus! {

/// One audio file with its local tag data and, when found, its remote match.
#[derive(Clone, Debug, PartialEq)]
pub struct Track {
    /// The file's path: the key that keeps Tracks apart.
    pub path: String,
    pub title: String,
    pub artist: String,
    /// Empty when the tag has none.
    pub album_artist: String,
    /// Empty when the file has no embedded picture.
    pub picture_data_uri: String,
    /// 0 when unknown.
    pub year: i32,
    pub track_index: Option<u32>,
    pub external_match: Option<Item>,
}

/// An Album node of the catalog.
#[derive(Clone, Debug, PartialEq)]
pub struct CatalogAlbum {
    pub id: u64,
    /// The title as first seen.
    pub title: String,
    /// The folded title: what Albums of one Artist are told apart by.
    pub title_key: String,
    pub picture_url: String,
    pub year: i32,
    /// Name of the Artist that holds the Album.
    pub artist_name: String,
    /// Tracks in the order they were added.
    pub tracks: Vec<Track>,
}

/// An Artist node of the catalog.
#[derive(Clone, Debug, PartialEq)]
pub struct CatalogArtist {
    pub id: u64,
    pub name: String,
    pub albums: Vec<CatalogAlbum>,
}

/// The catalog under construction or complete.
#[derive(Clone, Debug, PartialEq)]
pub struct Catalog {
    /// Sorted by name, in ordinal order, names distinct.
    pub artists: Vec<CatalogArtist>,
    /// Identifier that the next created node receives.
    pub next_id: u64,
}

pub struct AlbumView {
    pub id: u64,
    pub title: Seq<char>,
    pub key: Seq<char>,
    pub picture_url: Seq<char>,
    pub year: i32,
    pub artist_name: Seq<char>,
    pub tracks: Seq<Track>,
}

pub struct ArtistView {
    pub id: u64,
    pub name: Seq<char>,
    pub albums: Seq<AlbumView>,
}

pub struct CatalogView {
    pub artists: Seq<ArtistView>,
    pub next_id: nat,
}

impl View for CatalogAlbum {
    type V = AlbumView;

    open spec fn view(&self) -> AlbumView {
        AlbumView {
            id: self.id,
            title: self.title@,
            key: self.title_key@,
            picture_url: self.picture_url@,
            year: self.year,
            artist_name: self.artist_name@,
            tracks: self.tracks@,
        }
    }
}

impl View for CatalogArtist {
    type V = ArtistView;

    open spec fn view(&self) -> ArtistView {
        ArtistView { id: self.id, name: self.name@, albums: self.albums@.map_values(|a: CatalogAlbum| a@) }
    }
}

impl View for Catalog {
    type V = CatalogView;

    open spec fn view(&self) -> CatalogView {
        CatalogView {
            artists: self.artists@.map_values(|a: CatalogArtist| a@),
            next_id: self.next_id as nat,
        }
    }
}

/// One track to be placed: the grouping artist, the album title as given,
/// the folded album title, and the track.
pub struct Entry {
    pub artist: Seq<char>,
    pub title: Seq<char>,
    pub key: Seq<char>,
    pub track: Track,
}

pub open spec fn valid_pos(arts: Seq<ArtistView>, i: int, j: int, k: int) -> bool {
    &&& 0 <= i < arts.len()
    &&& 0 <= j < arts[i].albums.len()
    &&& 0 <= k < arts[i].albums[j].tracks.len()
}

pub open spec fn path_at(arts: Seq<ArtistView>, i: int, j: int, k: int) -> Seq<char> {
    arts[i].albums[j].tracks[k].path@
}

/// Some Track of the catalog has path `p`.
pub open spec fn has_path(arts: Seq<ArtistView>, p: Seq<char>) -> bool {
    exists|i: int, j: int, k: int| valid_pos(arts, i, j, k) && #[trigger] path_at(arts, i, j, k) == p
}

pub open spec fn names_sorted(arts: Seq<ArtistView>) -> bool {
    forall|i: int, j: int| 0 <= i < j < arts.len() ==> seq_less(#[trigger] arts[i].name, #[trigger] arts[j].name)
}

pub open spec fn album_keys_unique(a: ArtistView) -> bool {
    forall|j1: int, j2: int|
        0 <= j1 < a.albums.len() && 0 <= j2 < a.albums.len() && j1 != j2
            ==> #[trigger] a.albums[j1].key != #[trigger] a.albums[j2].key
}

pub open spec fn albums_owned(a: ArtistView) -> bool {
    forall|j: int| 0 <= j < a.albums.len() ==> (#[trigger] a.albums[j]).artist_name == a.name
}

pub open spec fn ids_below(c: CatalogView) -> bool {
    forall|i: int| 0 <= i < c.artists.len() ==> {
        &&& (#[trigger] c.artists[i]).id < c.next_id
        &&& forall|j: int| 0 <= j < c.artists[i].albums.len() ==> (#[trigger] c.artists[i].albums[j]).id < c.next_id
    }
}

pub open spec fn paths_unique(arts: Seq<ArtistView>) -> bool {
    forall|i1: int, j1: int, k1: int, i2: int, j2: int, k2: int|
        valid_pos(arts, i1, j1, k1) && valid_pos(arts, i2, j2, k2)
            && #[trigger] path_at(arts, i1, j1, k1) == #[trigger] path_at(arts, i2, j2, k2)
            ==> i1 == i2 && j1 == j2 && k1 == k2
}

/// The invariants of a catalog.
pub open spec fn catalog_wf(c: CatalogView) -> bool {
    &&& names_sorted(c.artists)
    &&& forall|i: int| 0 <= i < c.artists.len() ==> album_keys_unique(#[trigger] c.artists[i])
    &&& forall|i: int| 0 <= i < c.artists.len() ==> albums_owned(#[trigger] c.artists[i])
    &&& ids_below(c)
    &&& paths_unique(c.artists)
}

/// Index of the first Artist whose name does not come before `name`.
pub open spec fn artist_slot(arts: Seq<ArtistView>, name: Seq<char>) -> int
    decreases arts.len(),
{
    if arts.len() == 0 || !seq_less(arts[0].name, name) {
        0
    } else {
        1 + artist_slot(arts.drop_first(), name)
    }
}

/// Index of the first Album with key `key`, or the number of Albums.
pub open spec fn album_slot(albums: Seq<AlbumView>, key: Seq<char>) -> int
    decreases albums.len(),
{
    if albums.len() == 0 || albums[0].key == key {
        0
    } else {
        1 + album_slot(albums.drop_first(), key)
    }
}

pub open spec fn new_album(id: nat, e: Entry, artist_name: Seq<char>) -> AlbumView {
    AlbumView {
        id: id as u64,
        title: e.title,
        key: e.key,
        picture_url: e.track.picture_data_uri@,
        year: e.track.year,
        artist_name,
        tracks: seq![e.track],
    }
}

/// Places a track whose path is new: into the Album with its key under the
/// Artist with its name, each created (with the next identifiers) when
/// missing; a new Artist goes where its name keeps the order.
pub open spec fn place(c: CatalogView, e: Entry) -> CatalogView {
    let i = artist_slot(c.artists, e.artist);
    if i < c.artists.len() && c.artists[i].name == e.artist {
        let a = c.artists[i];
        let j = album_slot(a.albums, e.key);
        if j < a.albums.len() {
            let al = a.albums[j];
            let al2 = AlbumView { tracks: al.tracks.push(e.track), ..al };
            CatalogView {
                artists: c.artists.update(i, ArtistView { albums: a.albums.update(j, al2), ..a }),
                next_id: c.next_id,
            }
        } else {
            CatalogView {
                artists: c.artists.update(
                    i,
                    ArtistView { albums: a.albums.push(new_album(c.next_id, e, a.name)), ..a },
                ),
                next_id: c.next_id + 1,
            }
        }
    } else {
        let a = ArtistView {
            id: c.next_id as u64,
            name: e.artist,
            albums: seq![new_album(c.next_id + 1, e, e.artist)],
        };
        CatalogView { artists: c.artists.insert(i, a), next_id: c.next_id + 2 }
    }
}

/// Adds one entry: nothing changes when its path is already present.
pub open spec fn step(c: CatalogView, e: Entry) -> CatalogView {
    if has_path(c.artists, e.track.path@) {
        c
    } else {
        place(c, e)
    }
}

proof fn lemma_artist_slot(arts: Seq<ArtistView>, name: Seq<char>)
    ensures
        0 <= artist_slot(arts, name) <= arts.len(),
        forall|k: int| 0 <= k < artist_slot(arts, name) ==> seq_less(#[trigger] arts[k].name, name),
        artist_slot(arts, name) < arts.len() ==> !seq_less(arts[artist_slot(arts, name)].name, name),
    decreases arts.len(),
{
    if arts.len() > 0 && seq_less(arts[0].name, name) {
        let rest = arts.drop_first();
        lemma_artist_slot(rest, name);
        assert forall|k: int| 0 <= k < artist_slot(arts, name) implies seq_less(#[trigger] arts[k].name, name) by {
            if k > 0 {
                assert(arts[k] == rest[k - 1]);
            }
        }
    }
}

proof fn lemma_album_slot(albums: Seq<AlbumView>, key: Seq<char>)
    ensures
        0 <= album_slot(albums, key) <= albums.len(),
        forall|k: int| 0 <= k < album_slot(albums, key) ==> (#[trigger] albums[k]).key != key,
        album_slot(albums, key) < albums.len() ==> albums[album_slot(albums, key)].key == key,
    decreases albums.len(),
{
    if albums.len() > 0 && albums[0].key != key {
        let rest = albums.drop_first();
        lemma_album_slot(rest, key);
        assert forall|k: int| 0 <= k < album_slot(albums, key) implies (#[trigger] albums[k]).key != key by {
            if k > 0 {
                assert(albums[k] == rest[k - 1]);
            }
        }
    }
}

/// In a sorted catalog, no Artist at or after the slot of `name` comes
/// before `name`, and the name is held by no Artist but the one at the slot.
proof fn lemma_artist_slot_sorted(arts: Seq<ArtistView>, name: Seq<char>)
    requires
        names_sorted(arts),
    ensures
        forall|k: int| artist_slot(arts, name) <= k < arts.len() ==> !seq_less(#[trigger] arts[k].name, name),
        forall|k: int| 0 <= k < arts.len() && #[trigger] arts[k].name == name ==> k == artist_slot(arts, name),
{
    lemma_artist_slot(arts, name);
    let s = artist_slot(arts, name);
    assert forall|k: int| s <= k < arts.len() implies !seq_less(#[trigger] arts[k].name, name) by {
        if k > s && seq_less(arts[k].name, name) {
            lemma_seq_less_transitive(arts[s].name, arts[k].name, name);
        }
    }
    assert forall|k: int| 0 <= k < arts.len() && #[trigger] arts[k].name == name implies k == artist_slot(arts, name) by {
        lemma_seq_less_irreflexive(name);
        if k > s {
            assert(seq_less(arts[s].name, arts[k].name));
        }
    }
}

proof fn lemma_place_wf(c: CatalogView, e: Entry)
    requires
        catalog_wf(c),
        !has_path(c.artists, e.track.path@),
    ensures
        catalog_wf(place(c, e)),
{
    let arts = c.artists;
    let i = artist_slot(arts, e.artist);
    lemma_artist_slot(arts, e.artist);
    lemma_artist_slot_sorted(arts, e.artist);
    let d = place(c, e);
    let na = d.artists;
    let p = e.track.path@;
    if i < arts.len() && arts[i].name == e.artist {
        let a = arts[i];
        let j = album_slot(a.albums, e.key);
        lemma_album_slot(a.albums, e.key);
        assert(names_sorted(na));
        assert forall|x: int| 0 <= x < na.len() implies album_keys_unique(#[trigger] na[x]) by {
            if x == i {
                assert(album_keys_unique(arts[x]));
            } else {
                assert(album_keys_unique(arts[x]));
            }
        }
        assert forall|x: int| 0 <= x < na.len() implies albums_owned(#[trigger] na[x]) by {
            assert(albums_owned(arts[x]));
        }
        assert forall|x: int| 0 <= x < na.len() implies {
            &&& (#[trigger] na[x]).id < d.next_id
            &&& forall|y: int| 0 <= y < na[x].albums.len() ==> (#[trigger] na[x].albums[y]).id < d.next_id
        } by {
            assert(arts[x].id < c.next_id);
            assert forall|y: int| 0 <= y < na[x].albums.len() implies (#[trigger] na[x].albums[y]).id < d.next_id by {
                if x != i || y < arts[x].albums.len() {
                    assert(arts[x].albums[y].id < c.next_id);
                }
            }
        }
        assert forall|i1: int, j1: int, k1: int, i2: int, j2: int, k2: int|
            valid_pos(na, i1, j1, k1) && valid_pos(na, i2, j2, k2)
                && #[trigger] path_at(na, i1, j1, k1) == #[trigger] path_at(na, i2, j2, k2)
            implies i1 == i2 && j1 == j2 && k1 == k2 by {
            let new1 = i1 == i && (if j < a.albums.len() { j1 == j && k1 == a.albums[j].tracks.len() } else { j1 == a.albums.len() });
            let new2 = i2 == i && (if j < a.albums.len() { j2 == j && k2 == a.albums[j].tracks.len() } else { j2 == a.albums.len() });
            if !new1 {
                assert(valid_pos(arts, i1, j1, k1));
                assert(path_at(na, i1, j1, k1) == path_at(arts, i1, j1, k1));
            }
            if !new2 {
                assert(valid_pos(arts, i2, j2, k2));
                assert(path_at(na, i2, j2, k2) == path_at(arts, i2, j2, k2));
            }
            if new1 && new2 {
                if j >= a.albums.len() {
                    assert(k1 == 0 && k2 == 0);
                }
            }
        }
    } else {
        let a = na[i];
        assert forall|x: int, y: int| 0 <= x < y < na.len() implies seq_less(#[trigger] na[x].name, #[trigger] na[y].name) by {
            if y < i {
                assert(seq_less(arts[x].name, arts[y].name));
            } else if y == i {
            } else if x < i {
                assert(seq_less(arts[x].name, arts[y - 1].name));
            } else if x == i {
                lemma_seq_less_total(arts[y - 1].name, e.artist);
            } else {
                assert(seq_less(arts[x - 1].name, arts[y - 1].name));
            }
        }
        assert forall|x: int| 0 <= x < na.len() implies album_keys_unique(#[trigger] na[x]) by {
            if x < i {
                assert(album_keys_unique(arts[x]));
            } else if x > i {
                assert(album_keys_unique(arts[x - 1]));
            }
        }
        assert forall|x: int| 0 <= x < na.len() implies albums_owned(#[trigger] na[x]) by {
            if x < i {
                assert(albums_owned(arts[x]));
            } else if x > i {
                assert(albums_owned(arts[x - 1]));
            }
        }
        assert forall|x: int| 0 <= x < na.len() implies {
            &&& (#[trigger] na[x]).id < d.next_id
            &&& forall|y: int| 0 <= y < na[x].albums.len() ==> (#[trigger] na[x].albums[y]).id < d.next_id
        } by {
            if x != i {
                let ox = if x < i { x } else { x - 1 };
                assert(arts[ox].id < c.next_id);
                assert forall|y: int| 0 <= y < na[x].albums.len() implies (#[trigger] na[x].albums[y]).id < d.next_id by {
                    assert(arts[ox].albums[y].id < c.next_id);
                }
            }
        }
        assert forall|i1: int, j1: int, k1: int, i2: int, j2: int, k2: int|
            valid_pos(na, i1, j1, k1) && valid_pos(na, i2, j2, k2)
                && #[trigger] path_at(na, i1, j1, k1) == #[trigger] path_at(na, i2, j2, k2)
            implies i1 == i2 && j1 == j2 && k1 == k2 by {
            if i1 != i {
                let o1 = if i1 < i { i1 } else { i1 - 1 };
                assert(na[i1] == arts[o1]);
                assert(valid_pos(arts, o1, j1, k1));
                assert(path_at(na, i1, j1, k1) == path_at(arts, o1, j1, k1));
            }
            if i2 != i {
                let o2 = if i2 < i { i2 } else { i2 - 1 };
                assert(na[i2] == arts[o2]);
                assert(valid_pos(arts, o2, j2, k2));
                assert(path_at(na, i2, j2, k2) == path_at(arts, o2, j2, k2));
            }
            if i1 != i && i2 != i {
                let o1 = if i1 < i { i1 } else { i1 - 1 };
                let o2 = if i2 < i { i2 } else { i2 - 1 };
                assert(o1 == o2);
            }
        }
    }
}

impl Catalog {
    /// An empty catalog.
    pub fn new() -> (r: Catalog)
        ensures
            r@.artists.len() == 0,
            r@.next_id == 0,
            catalog_wf(r@),
    {
        Catalog { artists: Vec::new(), next_id: 0 }
    }

    /// Whether some Track of the catalog has path `p`.
    pub fn contains_path(&self, p: &String) -> (r: bool)
        ensures
            r == has_path(self@.artists, p@),
    {
        let ghost arts = self@.artists;
        let mut i: usize = 0;
        while i < self.artists.len()
            invariant
                arts == self@.artists,
                i <= arts.len(),
                forall|x: int, y: int, z: int| 0 <= x < i && valid_pos(arts, x, y, z) ==> #[trigger] path_at(arts, x, y, z) != p@,
            decreases arts.len() - i,
        {
            let artist = &self.artists[i];
            assert(arts[i as int] == artist@);
            let mut j: usize = 0;
            while j < artist.albums.len()
                invariant
                    arts == self@.artists,
                    i < arts.len(),
                    arts[i as int] == artist@,
                    j <= artist.albums@.len(),
                    forall|x: int, y: int, z: int| 0 <= x < i && valid_pos(arts, x, y, z) ==> #[trigger] path_at(arts, x, y, z) != p@,
                    forall|y: int, z: int| 0 <= y < j && valid_pos(arts, i as int, y, z) ==> #[trigger] path_at(arts, i as int, y, z) != p@,
                decreases artist.albums@.len() - j,
            {
                let album = &artist.albums[j];
                assert(arts[i as int].albums[j as int] == album@);
                let mut k: usize = 0;
                while k < album.tracks.len()
                    invariant
                        arts == self@.artists,
                        i < arts.len(),
                        j < arts[i as int].albums.len(),
                        arts[i as int].albums[j as int] == album@,
                        k <= album.tracks@.len(),
                        forall|x: int, y: int, z: int| 0 <= x < i && valid_pos(arts, x, y, z) ==> #[trigger] path_at(arts, x, y, z) != p@,
                        forall|y: int, z: int| 0 <= y < j && valid_pos(arts, i as int, y, z) ==> #[trigger] path_at(arts, i as int, y, z) != p@,
                        forall|z: int| 0 <= z < k ==> #[trigger] path_at(arts, i as int, j as int, z) != p@,
                    decreases album.tracks@.len() - k,
                {
                    if album.tracks[k].path == *p {
                        assert(valid_pos(arts, i as int, j as int, k as int));
                        assert(path_at(arts, i as int, j as int, k as int) == p@);
                        return true;
                    }
                    k = k + 1;
                }
                j = j + 1;
            }
            i = i + 1;
        }
        false
    }

    /// Index of the first Artist whose name does not come before `name`.
    fn find_artist_slot(&self, name: &String) -> (r: usize)
        ensures
            r == artist_slot(self@.artists, name@),
    {
        let ghost arts = self@.artists;
        let mut i: usize = 0;
        proof {
            assert(arts.subrange(0, arts.len() as int) =~= arts);
        }
        while i < self.artists.len() && name_less(self.artists[i].name.as_str(), name.as_str())
            invariant
                arts == self@.artists,
                i <= arts.len(),
                artist_slot(arts, name@) == i + artist_slot(arts.subrange(i as int, arts.len() as int), name@),
            decreases arts.len() - i,
        {
            let ghost rest = arts.subrange(i as int, arts.len() as int);
            assert(rest.drop_first() =~= arts.subrange(i + 1, arts.len() as int));
            assert(rest[0] == arts[i as int]);
            i = i + 1;
        }
        proof {
            let rest = arts.subrange(i as int, arts.len() as int);
            if i < arts.len() {
                assert(rest[0] == arts[i as int]);
            }
        }
        i
    }

    /// Index of the first Album of Artist `i` with key `key`, or the number
    /// of its Albums.
    fn find_album_slot(&self, i: usize, key: &String) -> (r: usize)
        requires
            i < self@.artists.len(),
        ensures
            r == album_slot(self@.artists[i as int].albums, key@),
    {
        let ghost als = self@.artists[i as int].albums;
        let artist = &self.artists[i];
        let mut j: usize = 0;
        proof {
            assert(als.subrange(0, als.len() as int) =~= als);
        }
        while j < artist.albums.len() && artist.albums[j].title_key != *key
            invariant
                als == artist@.albums,
                j <= als.len(),
                album_slot(als, key@) == j + album_slot(als.subrange(j as int, als.len() as int), key@),
            decreases als.len() - j,
        {
            let ghost rest = als.subrange(j as int, als.len() as int);
            assert(rest.drop_first() =~= als.subrange(j + 1, als.len() as int));
            assert(rest[0] == als[j as int]);
            j = j + 1;
        }
        proof {
            let rest = als.subrange(j as int, als.len() as int);
            if j < als.len() {
                assert(rest[0] == als[j as int]);
            }
        }
        j
    }

    /// Adds `track` under the Artist named `artist_name`, in the Album whose
    /// folded title is `album_key` (created with title `album_title` when
    /// missing), unless a Track with the same path is already present.
    pub fn insert_track(&mut self, artist_name: String, album_title: String, album_key: String, track: Track) -> (added: bool)
        requires
            catalog_wf(old(self)@),
            old(self).next_id + 2 <= u64::MAX,
        ensures
            added == !has_path(old(self)@.artists, track.path@),
            final(self)@ == step(
                old(self)@,
                Entry { artist: artist_name@, title: album_title@, key: album_key@, track },
            ),
            catalog_wf(final(self)@),
    {
        let ghost e = Entry { artist: artist_name@, title: album_title@, key: album_key@, track };
        let ghost c = self@;
        if self.contains_path(&track.path) {
            return false;
        }
        proof {
            lemma_place_wf(c, e);
            lemma_artist_slot(c.artists, e.artist);
        }
        let i = self.find_artist_slot(&artist_name);
        if i < self.artists.len() && self.artists[i].name == artist_name {
            let j = self.find_album_slot(i, &album_key);
            proof {
                lemma_album_slot(c.artists[i as int].albums, e.key);
            }
            if j < self.artists[i].albums.len() {
                self.artists[i].albums[j].tracks.push(track);
                assert(self@.artists[i as int].albums =~= place(c, e).artists[i as int].albums);
                assert(self@.artists[i as int] == place(c, e).artists[i as int]);
                assert(self@.artists =~= place(c, e).artists);
            } else {
                let id = self.next_id;
                let album = CatalogAlbum {
                    id,
                    title: album_title,
                    title_key: album_key,
                    picture_url: track.picture_data_uri.clone(),
                    year: track.year,
                    artist_name: artist_name,
                    tracks: vec![track],
                };
                assert(album.tracks@ =~= seq![e.track]);
                assert(album@ == new_album(c.next_id, e, c.artists[i as int].name));
                self.artists[i].albums.push(album);
                self.next_id = id + 1;
                assert(self@.artists[i as int].albums =~= place(c, e).artists[i as int].albums);
                assert(self@.artists =~= place(c, e).artists);
            }
        } else {
            let id = self.next_id;
            let album = CatalogAlbum {
                id: id + 1,
                title: album_title,
                title_key: album_key,
                picture_url: track.picture_data_uri.clone(),
                year: track.year,
                artist_name: artist_name.clone(),
                tracks: vec![track],
            };
            assert(album.tracks@ =~= seq![e.track]);
            assert(album@ == new_album(c.next_id + 1, e, e.artist));
            let artist = CatalogArtist { id, name: artist_name, albums: vec![album] };
            self.artists.insert(i, artist);
            self.next_id = id + 2;
            assert(self@.artists[i as int].albums =~= place(c, e).artists[i as int].albums);
            assert(self@.artists =~= place(c, e).artists);
        }
        true
    }

    /// Adds `track` under the Artist named `artist_name`, in the Album whose
    /// title equals `album_title` without regard to case, unless a Track with
    /// the same path is already present.
    pub fn add_track(&mut self, artist_name: String, album_title: String, track: Track) -> (added: bool)
        requires
            catalog_wf(old(self)@),
            old(self).next_id + 2 <= u64::MAX,
        ensures
            added == !has_path(old(self)@.artists, track.path@),
            final(self)@ == step(
                old(self)@,
                Entry { artist: artist_name@, title: album_title@, key: lower_of(album_title@), track },
            ),
            catalog_wf(final(self)@),
    {
        let key = lowercase(album_title.as_str());
        self.insert_track(artist_name, album_title, key, track)
    }
}

/// No two Tracks of a well-formed catalog share a path.
pub proof fn lemma_paths_distinct(c: CatalogView, i1: int, j1: int, k1: int, i2: int, j2: int, k2: int)
    requires
        catalog_wf(c),
        valid_pos(c.artists, i1, j1, k1),
        valid_pos(c.artists, i2, j2, k2),
        !(i1 == i2 && j1 == j2 && k1 == k2),
    ensures
        path_at(c.artists, i1, j1, k1) != path_at(c.artists, i2, j2, k2),
{
}

/// In a well-formed catalog one Album node at most stands for a pair of
/// artist name and folded album title.
pub proof fn lemma_one_album_per_pair(c: CatalogView, i1: int, j1: int, i2: int, j2: int)
    requires
        catalog_wf(c),
        0 <= i1 < c.artists.len(),
        0 <= i2 < c.artists.len(),
        0 <= j1 < c.artists[i1].albums.len(),
        0 <= j2 < c.artists[i2].albums.len(),
        c.artists[i1].name == c.artists[i2].name,
        c.artists[i1].albums[j1].key == c.artists[i2].albums[j2].key,
    ensures
        i1 == i2 && j1 == j2,
{
    if i1 != i2 {
        lemma_seq_less_irreflexive(c.artists[i1].name);
        if i1 < i2 {
            assert(seq_less(c.artists[i1].name, c.artists[i2].name));
        } else {
            assert(seq_less(c.artists[i2].name, c.artists[i1].name));
        }
    }
    assert(album_keys_unique(c.artists[i1]));
}

/// The Track at a position, with the name of its Artist and the key of its
/// Album.
pub open spec fn placed(arts: Seq<ArtistView>, i: int, j: int, k: int) -> (Seq<char>, Seq<char>, Track) {
    (arts[i].name, arts[i].albums[j].key, arts[i].albums[j].tracks[k])
}

pub open spec fn holds(arts: Seq<ArtistView>, name: Seq<char>, key: Seq<char>, t: Track) -> bool {
    exists|i: int, j: int, k: int| valid_pos(arts, i, j, k) && #[trigger] placed(arts, i, j, k) == (name, key, t)
}

/// Adding an entry puts its track under an Album with the entry's artist
/// name and folded title (unless its path was present), and moves no Track
/// away from the artist name and album key it stood under.
pub proof fn lemma_step_places(c: CatalogView, e: Entry)
    requires
        catalog_wf(c),
    ensures
        !has_path(c.artists, e.track.path@) ==> holds(step(c, e).artists, e.artist, e.key, e.track),
        forall|name: Seq<char>, key: Seq<char>, t: Track|
            holds(c.artists, name, key, t) ==> #[trigger] holds(step(c, e).artists, name, key, t),
{
    let arts = c.artists;
    let na = step(c, e).artists;
    if !has_path(arts, e.track.path@) {
        let i = artist_slot(arts, e.artist);
        lemma_artist_slot(arts, e.artist);
        if i < arts.len() && arts[i].name == e.artist {
            let j = album_slot(arts[i].albums, e.key);
            lemma_album_slot(arts[i].albums, e.key);
            if j < arts[i].albums.len() {
                assert(placed(na, i, j, arts[i].albums[j].tracks.len() as int) == (e.artist, e.key, e.track));
            } else {
                assert(placed(na, i, arts[i].albums.len() as int, 0) == (e.artist, e.key, e.track));
            }
            assert forall|name: Seq<char>, key: Seq<char>, t: Track|
                holds(arts, name, key, t) implies #[trigger] holds(na, name, key, t) by {
                let (x, y, z) = choose|x: int, y: int, z: int| valid_pos(arts, x, y, z) && #[trigger] placed(arts, x, y, z) == (name, key, t);
                assert(placed(na, x, y, z) == placed(arts, x, y, z));
            }
        } else {
            assert(placed(na, i, 0, 0) == (e.artist, e.key, e.track));
            assert forall|name: Seq<char>, key: Seq<char>, t: Track|
                holds(arts, name, key, t) implies #[trigger] holds(na, name, key, t) by {
                let (x, y, z) = choose|x: int, y: int, z: int| valid_pos(arts, x, y, z) && #[trigger] placed(arts, x, y, z) == (name, key, t);
                if x < i {
                    assert(placed(na, x, y, z) == placed(arts, x, y, z));
                } else {
                    assert(placed(na, x + 1, y, z) == placed(arts, x, y, z));
                }
            }
        }
    }
}

/// The entries of one Album, in track order.
pub open spec fn album_entries(name: Seq<char>, al: AlbumView) -> Seq<Entry> {
    al.tracks.map_values(|t: Track| Entry { artist: name, title: al.title, key: al.key, track: t })
}

/// What an Album node carries besides its identifier and Tracks.
pub struct AlbumHead {
    pub artist: Seq<char>,
    pub title: Seq<char>,
    pub key: Seq<char>,
    pub picture_url: Seq<char>,
    pub year: i32,
}

/// One step of a merge: make sure an Artist exists, make sure an Album
/// exists, or add a Track.
pub enum Unit {
    Artist(Seq<char>),
    Album(AlbumHead),
    Track(Entry),
}

/// The catalog with an Artist named `name`, created (with the next
/// identifier and no Albums) where its name keeps the order when missing.
pub open spec fn ensure_artist(c: CatalogView, name: Seq<char>) -> CatalogView {
    let i = artist_slot(c.artists, name);
    if i < c.artists.len() && c.artists[i].name == name {
        c
    } else {
        CatalogView {
            artists: c.artists.insert(i, ArtistView { id: c.next_id as u64, name, albums: Seq::empty() }),
            next_id: c.next_id + 1,
        }
    }
}

/// The catalog with an Album of key `h.key` under the Artist `h.artist`,
/// each created when missing; a new Album takes the head's title, picture
/// and year, has no Tracks, and comes after the Artist's other Albums.
pub open spec fn ensure_album(c: CatalogView, h: AlbumHead) -> CatalogView {
    let c1 = ensure_artist(c, h.artist);
    let i = artist_slot(c1.artists, h.artist);
    let a = c1.artists[i];
    if album_slot(a.albums, h.key) < a.albums.len() {
        c1
    } else {
        let al = AlbumView {
            id: c1.next_id as u64,
            title: h.title,
            key: h.key,
            picture_url: h.picture_url,
            year: h.year,
            artist_name: a.name,
            tracks: Seq::empty(),
        };
        CatalogView {
            artists: c1.artists.update(i, ArtistView { albums: a.albums.push(al), ..a }),
            next_id: c1.next_id + 1,
        }
    }
}

pub open spec fn apply(c: CatalogView, u: Unit) -> CatalogView {
    match u {
        Unit::Artist(name) => ensure_artist(c, name),
        Unit::Album(h) => ensure_album(c, h),
        Unit::Track(e) => step(c, e),
    }
}

/// Applies units one after the other, first to last.
pub open spec fn fold_units(c: CatalogView, us: Seq<Unit>) -> CatalogView
    decreases us.len(),
{
    if us.len() == 0 {
        c
    } else {
        apply(fold_units(c, us.drop_last()), us.last())
    }
}

pub open spec fn head_of(name: Seq<char>, al: AlbumView) -> AlbumHead {
    AlbumHead { artist: name, title: al.title, key: al.key, picture_url: al.picture_url, year: al.year }
}

/// The units of one Album of the Artist `name`: the Album, then its Tracks.
pub open spec fn album_units(name: Seq<char>, al: AlbumView) -> Seq<Unit> {
    seq![Unit::Album(head_of(name, al))] + album_entries(name, al).map_values(|e: Entry| Unit::Track(e))
}

pub open spec fn albums_units(name: Seq<char>, als: Seq<AlbumView>) -> Seq<Unit>
    decreases als.len(),
{
    if als.len() == 0 {
        Seq::empty()
    } else {
        albums_units(name, als.drop_last()) + album_units(name, als.last())
    }
}

/// The units of a catalog: each Artist, then each of its Albums followed
/// by the Album's Tracks, in order.
pub open spec fn units_of(arts: Seq<ArtistView>) -> Seq<Unit>
    decreases arts.len(),
{
    if arts.len() == 0 {
        Seq::empty()
    } else {
        units_of(arts.drop_last()) + seq![Unit::Artist(arts.last().name)] + albums_units(
            arts.last().name,
            arts.last().albums,
        )
    }
}

proof fn lemma_ensure_artist(c: CatalogView, name: Seq<char>)
    requires
        catalog_wf(c),
    ensures
        catalog_wf(ensure_artist(c, name)),
        c.next_id <= ensure_artist(c, name).next_id <= c.next_id + 1,
        artist_slot(ensure_artist(c, name).artists, name) < ensure_artist(c, name).artists.len(),
        ensure_artist(c, name).artists[artist_slot(ensure_artist(c, name).artists, name)].name == name,
{
    let arts = c.artists;
    let i = artist_slot(arts, name);
    lemma_artist_slot(arts, name);
    lemma_artist_slot_sorted(arts, name);
    let d = ensure_artist(c, name);
    let na = d.artists;
    if !(i < arts.len() && arts[i].name == name) {
        assert forall|x: int, y: int| 0 <= x < y < na.len() implies seq_less(#[trigger] na[x].name, #[trigger] na[y].name) by {
            if y < i {
                assert(seq_less(arts[x].name, arts[y].name));
            } else if y == i {
            } else if x < i {
                assert(seq_less(arts[x].name, arts[y - 1].name));
            } else if x == i {
                lemma_seq_less_total(arts[y - 1].name, name);
            } else {
                assert(seq_less(arts[x - 1].name, arts[y - 1].name));
            }
        }
        assert forall|x: int| 0 <= x < na.len() implies album_keys_unique(#[trigger] na[x]) by {
            if x < i {
                assert(album_keys_unique(arts[x]));
            } else if x > i {
                assert(album_keys_unique(arts[x - 1]));
            }
        }
        assert forall|x: int| 0 <= x < na.len() implies albums_owned(#[trigger] na[x]) by {
            if x < i {
                assert(albums_owned(arts[x]));
            } else if x > i {
                assert(albums_owned(arts[x - 1]));
            }
        }
        assert forall|x: int| 0 <= x < na.len() implies {
            &&& (#[trigger] na[x]).id < d.next_id
            &&& forall|y: int| 0 <= y < na[x].albums.len() ==> (#[trigger] na[x].albums[y]).id < d.next_id
        } by {
            if x != i {
                let ox = if x < i { x } else { x - 1 };
                assert(arts[ox].id < c.next_id);
                assert forall|y: int| 0 <= y < na[x].albums.len() implies (#[trigger] na[x].albums[y]).id < d.next_id by {
                    assert(arts[ox].albums[y].id < c.next_id);
                }
            }
        }
        assert forall|i1: int, j1: int, k1: int, i2: int, j2: int, k2: int|
            valid_pos(na, i1, j1, k1) && valid_pos(na, i2, j2, k2)
                && #[trigger] path_at(na, i1, j1, k1) == #[trigger] path_at(na, i2, j2, k2)
            implies i1 == i2 && j1 == j2 && k1 == k2 by {
            let o1 = if i1 < i { i1 } else { i1 - 1 };
            let o2 = if i2 < i { i2 } else { i2 - 1 };
            assert(na[i1] == arts[o1]);
            assert(na[i2] == arts[o2]);
            assert(valid_pos(arts, o1, j1, k1));
            assert(valid_pos(arts, o2, j2, k2));
            assert(path_at(na, i1, j1, k1) == path_at(arts, o1, j1, k1));
            assert(path_at(na, i2, j2, k2) == path_at(arts, o2, j2, k2));
        }
        lemma_artist_slot_sorted(na, name);
        lemma_artist_slot(na, name);
        assert(na[i].name == name);
    }
}

proof fn lemma_ensure_album(c: CatalogView, h: AlbumHead)
    requires
        catalog_wf(c),
    ensures
        catalog_wf(ensure_album(c, h)),
        c.next_id <= ensure_album(c, h).next_id <= c.next_id + 2,
{
    lemma_ensure_artist(c, h.artist);
    let c1 = ensure_artist(c, h.artist);
    let arts = c1.artists;
    let i = artist_slot(arts, h.artist);
    lemma_artist_slot(arts, h.artist);
    let a = arts[i];
    let j = album_slot(a.albums, h.key);
    lemma_album_slot(a.albums, h.key);
    let d = ensure_album(c, h);
    let na = d.artists;
    if j >= a.albums.len() {
        let al = AlbumView {
            id: c1.next_id as u64,
            title: h.title,
            key: h.key,
            picture_url: h.picture_url,
            year: h.year,
            artist_name: a.name,
            tracks: Seq::empty(),
        };
        assert(na == arts.update(i, ArtistView { albums: a.albums.push(al), ..a }));
        assert(na.len() == arts.len());
        assert forall|x: int| 0 <= x < na.len() implies album_keys_unique(#[trigger] na[x]) by {
            assert(album_keys_unique(arts[x]));
        }
        assert forall|x: int| 0 <= x < na.len() implies albums_owned(#[trigger] na[x]) by {
            assert(albums_owned(arts[x]));
        }
        assert forall|x: int| 0 <= x < na.len() implies {
            &&& (#[trigger] na[x]).id < d.next_id
            &&& forall|y: int| 0 <= y < na[x].albums.len() ==> (#[trigger] na[x].albums[y]).id < d.next_id
        } by {
            assert(arts[x].id < c1.next_id);
            assert forall|y: int| 0 <= y < na[x].albums.len() implies (#[trigger] na[x].albums[y]).id < d.next_id by {
                if x != i || y < a.albums.len() {
                    assert(arts[x].albums[y].id < c1.next_id);
                }
            }
        }
        assert forall|i1: int, j1: int, k1: int, i2: int, j2: int, k2: int|
            valid_pos(na, i1, j1, k1) && valid_pos(na, i2, j2, k2)
                && #[trigger] path_at(na, i1, j1, k1) == #[trigger] path_at(na, i2, j2, k2)
            implies i1 == i2 && j1 == j2 && k1 == k2 by {
            assert(valid_pos(arts, i1, j1, k1));
            assert(valid_pos(arts, i2, j2, k2));
            assert(path_at(na, i1, j1, k1) == path_at(arts, i1, j1, k1));
            assert(path_at(na, i2, j2, k2) == path_at(arts, i2, j2, k2));
        }
    }
}

proof fn lemma_apply_wf(c: CatalogView, u: Unit)
    requires
        catalog_wf(c),
    ensures
        catalog_wf(apply(c, u)),
        c.next_id <= apply(c, u).next_id <= c.next_id + 2,
{
    match u {
        Unit::Artist(name) => lemma_ensure_artist(c, name),
        Unit::Album(h) => lemma_ensure_album(c, h),
        Unit::Track(e) => lemma_step_wf(c, e),
    }
}

/// Adds entries one after the other, first to last.
pub open spec fn fold_entries(c: CatalogView, es: Seq<Entry>) -> CatalogView
    decreases es.len(),
{
    if es.len() == 0 {
        c
    } else {
        step(fold_entries(c, es.drop_last()), es.last())
    }
}

proof fn lemma_step_wf(c: CatalogView, e: Entry)
    requires
        catalog_wf(c),
    ensures
        catalog_wf(step(c, e)),
        c.next_id <= step(c, e).next_id <= c.next_id + 2,
{
    if !has_path(c.artists, e.track.path@) {
        lemma_place_wf(c, e);
    }
}

proof fn lemma_albums_units_prefix(name: Seq<char>, als: Seq<AlbumView>, m: int)
    requires
        0 <= m <= als.len(),
    ensures
        albums_units(name, als.subrange(0, m)).len() <= albums_units(name, als).len(),
    decreases als.len(),
{
    if m == als.len() {
        assert(als.subrange(0, m) =~= als);
    } else {
        lemma_albums_units_prefix(name, als.drop_last(), m);
        assert(als.drop_last().subrange(0, m) =~= als.subrange(0, m));
    }
}

proof fn lemma_units_prefix(arts: Seq<ArtistView>, m: int)
    requires
        0 <= m <= arts.len(),
    ensures
        units_of(arts.subrange(0, m)).len() <= units_of(arts).len(),
    decreases arts.len(),
{
    if m == arts.len() {
        assert(arts.subrange(0, m) =~= arts);
    } else {
        lemma_units_prefix(arts.drop_last(), m);
        assert(arts.drop_last().subrange(0, m) =~= arts.subrange(0, m));
    }
}

/// An Album with its identifier cleared.
pub open spec fn erase_album(a: AlbumView) -> AlbumView {
    AlbumView { id: 0, ..a }
}

/// An Artist with its own and its Albums' identifiers cleared.
pub open spec fn erase_artist(a: ArtistView) -> ArtistView {
    ArtistView { id: 0, albums: a.albums.map_values(|al: AlbumView| erase_album(al)), ..a }
}

/// The content of a catalog: everything but the generated identifiers.
pub open spec fn content(arts: Seq<ArtistView>) -> Seq<ArtistView> {
    arts.map_values(|a: ArtistView| erase_artist(a))
}

proof fn lemma_content_parts(a1: Seq<ArtistView>, a2: Seq<ArtistView>)
    requires
        content(a1) == content(a2),
    ensures
        a1.len() == a2.len(),
        forall|i: int| 0 <= i < a1.len() ==> (#[trigger] a1[i]).name == a2[i].name && a1[i].albums.len() == a2[i].albums.len(),
        forall|i: int, j: int| 0 <= i < a1.len() && 0 <= j < a1[i].albums.len() ==> {
            &&& (#[trigger] a1[i].albums[j]).key == a2[i].albums[j].key
            &&& a1[i].albums[j].tracks == a2[i].albums[j].tracks
            &&& erase_album(a1[i].albums[j]) == erase_album(a2[i].albums[j])
        },
{
    assert(content(a1).len() == a1.len());
    assert(content(a2).len() == a2.len());
    assert forall|i: int| 0 <= i < a1.len() implies (#[trigger] a1[i]).name == a2[i].name && a1[i].albums.len() == a2[i].albums.len() by {
        assert(content(a1)[i] == erase_artist(a1[i]));
        assert(content(a2)[i] == erase_artist(a2[i]));
        assert(erase_artist(a1[i]).albums.len() == erase_artist(a2[i]).albums.len());
    }
    assert forall|i: int, j: int| 0 <= i < a1.len() && 0 <= j < a1[i].albums.len() implies {
        &&& (#[trigger] a1[i].albums[j]).key == a2[i].albums[j].key
        &&& a1[i].albums[j].tracks == a2[i].albums[j].tracks
        &&& erase_album(a1[i].albums[j]) == erase_album(a2[i].albums[j])
    } by {
        assert(content(a1)[i] == erase_artist(a1[i]));
        assert(content(a2)[i] == erase_artist(a2[i]));
        assert(erase_artist(a1[i]).albums[j] == erase_album(a1[i].albums[j]));
        assert(erase_artist(a2[i]).albums[j] == erase_album(a2[i].albums[j]));
    }
}

proof fn lemma_artist_slot_names(a1: Seq<ArtistView>, a2: Seq<ArtistView>, name: Seq<char>)
    requires
        a1.len() == a2.len(),
        forall|i: int| 0 <= i < a1.len() ==> (#[trigger] a1[i]).name == a2[i].name,
    ensures
        artist_slot(a1, name) == artist_slot(a2, name),
    decreases a1.len(),
{
    if a1.len() > 0 {
        let r1 = a1.drop_first();
        let r2 = a2.drop_first();
        assert forall|i: int| 0 <= i < r1.len() implies (#[trigger] r1[i]).name == r2[i].name by {
            assert(r1[i] == a1[i + 1]);
            assert(r2[i] == a2[i + 1]);
        }
        lemma_artist_slot_names(r1, r2, name);
    }
}

proof fn lemma_album_slot_keys(b1: Seq<AlbumView>, b2: Seq<AlbumView>, key: Seq<char>)
    requires
        b1.len() == b2.len(),
        forall|j: int| 0 <= j < b1.len() ==> (#[trigger] b1[j]).key == b2[j].key,
    ensures
        album_slot(b1, key) == album_slot(b2, key),
    decreases b1.len(),
{
    if b1.len() > 0 {
        let r1 = b1.drop_first();
        let r2 = b2.drop_first();
        assert forall|j: int| 0 <= j < r1.len() implies (#[trigger] r1[j]).key == r2[j].key by {
            assert(r1[j] == b1[j + 1]);
            assert(r2[j] == b2[j + 1]);
        }
        lemma_album_slot_keys(r1, r2, key);
    }
}

proof fn lemma_step_content(c1: CatalogView, c2: CatalogView, e: Entry)
    requires
        content(c1.artists) == content(c2.artists),
    ensures
        content(step(c1, e).artists) == content(step(c2, e).artists),
{
    let a1 = c1.artists;
    let a2 = c2.artists;
    lemma_content_parts(a1, a2);
    let p = e.track.path@;
    if has_path(a1, p) {
        let (i, j, k) = choose|i: int, j: int, k: int| valid_pos(a1, i, j, k) && #[trigger] path_at(a1, i, j, k) == p;
        assert(path_at(a2, i, j, k) == p);
        assert(has_path(a2, p));
    } else {
        if has_path(a2, p) {
            let (i, j, k) = choose|i: int, j: int, k: int| valid_pos(a2, i, j, k) && #[trigger] path_at(a2, i, j, k) == p;
            assert(path_at(a1, i, j, k) == p);
        }
        assert(!has_path(a2, p));
        lemma_artist_slot_names(a1, a2, e.artist);
        lemma_artist_slot(a1, e.artist);
        let i = artist_slot(a1, e.artist);
        let n1 = place(c1, e).artists;
        let n2 = place(c2, e).artists;
        if i < a1.len() && a1[i].name == e.artist {
            assert forall|j: int| 0 <= j < a1[i].albums.len() implies (#[trigger] a1[i].albums[j]).key == a2[i].albums[j].key by {}
            lemma_album_slot_keys(a1[i].albums, a2[i].albums, e.key);
            assert(content(a1)[i] == content(a2)[i]);
            assert(erase_artist(n1[i]).albums =~= erase_artist(n2[i]).albums) by {
                assert(erase_artist(a1[i]).albums == erase_artist(a2[i]).albums);
                lemma_album_slot(a1[i].albums, e.key);
                let j = album_slot(a1[i].albums, e.key);
                if j < a1[i].albums.len() {
                    assert(erase_artist(a1[i]).albums[j] == erase_artist(a2[i]).albums[j]);
                }
            }
            assert(content(n1) =~= content(n2)) by {
                assert forall|x: int| 0 <= x < n1.len() implies content(n1)[x] == content(n2)[x] by {
                    if x != i {
                        assert(content(a1)[x] == content(a2)[x]);
                    }
                }
            }
        } else {
            assert(erase_artist(n1[i]).albums =~= erase_artist(n2[i]).albums);
            assert(content(n1) =~= content(n2)) by {
                assert forall|x: int| 0 <= x < n1.len() implies content(n1)[x] == content(n2)[x] by {
                    if x < i {
                        assert(content(a1)[x] == content(a2)[x]);
                    } else if x > i {
                        assert(content(a1)[x - 1] == content(a2)[x - 1]);
                    }
                }
            }
        }
    }
}

/// Adding the same entries, in the same order, to two catalogs with the
/// same content gives catalogs with the same content: what a build yields
/// does not depend on the identifiers it generates, so building twice from
/// the same files gives the same Artists, Albums and Tracks.
pub proof fn lemma_rebuild_same_content(c1: CatalogView, c2: CatalogView, es: Seq<Entry>)
    requires
        content(c1.artists) == content(c2.artists),
    ensures
        content(fold_entries(c1, es).artists) == content(fold_entries(c2, es).artists),
    decreases es.len(),
{
    if es.len() > 0 {
        lemma_rebuild_same_content(c1, c2, es.drop_last());
        lemma_step_content(fold_entries(c1, es.drop_last()), fold_entries(c2, es.drop_last()), es.last());
    }
}

/// Merging `b` and then `c` into `a` applies the units of `b` followed by
/// the units of `c`, in one pass.
pub proof fn lemma_merge_twice(a: CatalogView, b: Seq<ArtistView>, c: Seq<ArtistView>)
    ensures
        fold_units(fold_units(a, units_of(b)), units_of(c)) == fold_units(a, units_of(b) + units_of(c)),
{
    lemma_fold_units_append(a, units_of(b), units_of(c));
}

proof fn lemma_fold_units_append(a: CatalogView, us: Seq<Unit>, vs: Seq<Unit>)
    ensures
        fold_units(fold_units(a, us), vs) == fold_units(a, us + vs),
    decreases vs.len(),
{
    if vs.len() == 0 {
        assert(us + vs =~= us);
    } else {
        lemma_fold_units_append(a, us, vs.drop_last());
        assert((us + vs).drop_last() =~= us + vs.drop_last());
        assert((us + vs).last() == vs.last());
    }
}

impl Catalog {
    /// Makes sure an Artist named `name` exists; returns its index.
    fn ensure_artist_node(&mut self, name: &String) -> (i: usize)
        requires
            catalog_wf(old(self)@),
            old(self).next_id + 1 <= u64::MAX,
        ensures
            final(self)@ == ensure_artist(old(self)@, name@),
            i == artist_slot(final(self)@.artists, name@),
            i < final(self)@.artists.len(),
            final(self)@.artists[i as int].name == name@,
    {
        let ghost c = self@;
        proof {
            lemma_ensure_artist(c, name@);
            lemma_artist_slot(c.artists, name@);
        }
        let i = self.find_artist_slot(name);
        if i < self.artists.len() && self.artists[i].name == *name {
            return i;
        }
        let id = self.next_id;
        let artist = CatalogArtist { id, name: name.clone(), albums: Vec::new() };
        assert(artist@.albums =~= Seq::<AlbumView>::empty());
        self.artists.insert(i, artist);
        self.next_id = id + 1;
        assert(self@.artists =~= ensure_artist(c, name@).artists);
        proof {
            assert(self@.artists[i as int].name == name@);
            lemma_artist_slot_sorted(self@.artists, name@);
        }
        i
    }

    /// Makes sure the Artist `name` has an Album with key `key`, creating
    /// the Artist and the Album when missing.
    fn ensure_album_node(&mut self, name: &String, title: &String, key: &String, picture_url: &String, year: i32)
        requires
            catalog_wf(old(self)@),
            old(self).next_id + 2 <= u64::MAX,
        ensures
            final(self)@ == ensure_album(
                old(self)@,
                AlbumHead { artist: name@, title: title@, key: key@, picture_url: picture_url@, year },
            ),
    {
        let ghost c = self@;
        let ghost h = AlbumHead { artist: name@, title: title@, key: key@, picture_url: picture_url@, year };
        let i = self.ensure_artist_node(name);
        let ghost c1 = self@;
        proof {
            lemma_ensure_artist(c, name@);
            lemma_album_slot(c1.artists[i as int].albums, key@);
        }
        let j = self.find_album_slot(i, key);
        if j < self.artists[i].albums.len() {
            return;
        }
        let id = self.next_id;
        let album = CatalogAlbum {
            id,
            title: title.clone(),
            title_key: key.clone(),
            picture_url: picture_url.clone(),
            year,
            artist_name: name.clone(),
            tracks: Vec::new(),
        };
        assert(album@.tracks =~= Seq::<Track>::empty());
        self.artists[i].albums.push(album);
        self.next_id = id + 1;
        assert(self@.artists[i as int].albums =~= ensure_album(c, h).artists[i as int].albums);
        assert(self@.artists =~= ensure_album(c, h).artists);
    }

    /// Merges `other` into this catalog. Artists are matched by name and
    /// Albums by key; an Artist or Album of `other` that is missing here is
    /// created (after the Albums already there), and each Track of `other`
    /// is appended to its Album unless a Track with the same path is already
    /// present. What was here first keeps its title, picture and year.
    pub fn merge(&mut self, other: Catalog)
        requires
            catalog_wf(old(self)@),
            old(self).next_id + 2 * units_of(other@.artists).len() <= u64::MAX,
        ensures
            final(self)@ == fold_units(old(self)@, units_of(other@.artists)),
            catalog_wf(final(self)@),
    {
        let ghost c0 = self@;
        let ghost orig = other@.artists;
        let ghost total = units_of(orig).len();
        let mut rest = other.artists;
        let ghost mut done: Seq<Unit> = Seq::empty();
        let ghost mut i: int = 0;
        while rest.len() > 0
            invariant
                0 <= i <= orig.len(),
                rest@.len() == orig.len() - i,
                forall|x: int| 0 <= x < rest@.len() ==> (#[trigger] rest@[x])@ == orig[i + x],
                done == units_of(orig.subrange(0, i)),
                self@ == fold_units(c0, done),
                catalog_wf(self@),
                self.next_id <= c0.next_id + 2 * done.len(),
                c0.next_id + 2 * total <= u64::MAX,
                total == units_of(orig).len(),
            decreases rest@.len(),
        {
            let artist = rest.remove(0);
            let ghost a = orig[i];
            assert(artist@ == a);
            let CatalogArtist { id: _, name, albums } = artist;
            let ghost before = done;
            proof {
                lemma_units_prefix(orig, i + 1);
                assert(orig.subrange(0, i + 1).drop_last() =~= orig.subrange(0, i));
                lemma_apply_wf(self@, Unit::Artist(a.name));
            }
            self.ensure_artist_node(&name);
            proof {
                let nd = done.push(Unit::Artist(a.name));
                assert(nd.drop_last() =~= done);
                done = nd;
                assert(a.albums.subrange(0, 0) =~= Seq::<AlbumView>::empty());
                assert(done =~= before + seq![Unit::Artist(a.name)] + albums_units(a.name, a.albums.subrange(0, 0)));
            }
            let mut als = albums;
            let ghost mut j: int = 0;
            while als.len() > 0
                invariant
                    0 <= i < orig.len(),
                    a == orig[i],
                    name@ == a.name,
                    0 <= j <= a.albums.len(),
                    als@.len() == a.albums.len() - j,
                    forall|x: int| 0 <= x < als@.len() ==> (#[trigger] als@[x])@ == a.albums[j + x],
                    before == units_of(orig.subrange(0, i)),
                    before.len() + 1 + albums_units(a.name, a.albums).len() <= total,
                    done == before + seq![Unit::Artist(a.name)] + albums_units(a.name, a.albums.subrange(0, j)),
                    self@ == fold_units(c0, done),
                    catalog_wf(self@),
                    self.next_id <= c0.next_id + 2 * done.len(),
                    c0.next_id + 2 * total <= u64::MAX,
                decreases als@.len(),
            {
                let album = als.remove(0);
                let ghost al = a.albums[j];
                assert(album@ == al);
                let CatalogAlbum { id: _, title, title_key, picture_url, year, artist_name: _, tracks } = album;
                let ghost mid = done;
                let ghost h = head_of(a.name, al);
                proof {
                    lemma_albums_units_prefix(a.name, a.albums, j + 1);
                    assert(a.albums.subrange(0, j + 1).drop_last() =~= a.albums.subrange(0, j));
                    lemma_apply_wf(self@, Unit::Album(h));
                }
                self.ensure_album_node(&name, &title, &title_key, &picture_url, year);
                let ghost tu = album_entries(a.name, al).map_values(|e: Entry| Unit::Track(e));
                proof {
                    let nd = done.push(Unit::Album(h));
                    assert(nd.drop_last() =~= done);
                    done = nd;
                    assert(done =~= mid + seq![Unit::Album(h)] + tu.subrange(0, 0));
                }
                let mut trs = tracks;
                let ghost mut k: int = 0;
                while trs.len() > 0
                    invariant
                        name@ == a.name,
                        title@ == al.title,
                        title_key@ == al.key,
                        tu == album_entries(a.name, al).map_values(|e: Entry| Unit::Track(e)),
                        0 <= k <= al.tracks.len(),
                        trs@.len() == al.tracks.len() - k,
                        forall|x: int| 0 <= x < trs@.len() ==> #[trigger] trs@[x] == al.tracks[k + x],
                        mid.len() + 1 + al.tracks.len() <= total,
                        done == mid + seq![Unit::Album(h)] + tu.subrange(0, k),
                        self@ == fold_units(c0, done),
                        catalog_wf(self@),
                        self.next_id <= c0.next_id + 2 * done.len(),
                        c0.next_id + 2 * total <= u64::MAX,
                    decreases trs@.len(),
                {
                    let t = trs.remove(0);
                    let ghost e = Entry { artist: a.name, title: al.title, key: al.key, track: t };
                    assert(tu[k] == Unit::Track(e));
                    proof {
                        lemma_step_wf(self@, e);
                    }
                    self.insert_track(name.clone(), title.clone(), title_key.clone(), t);
                    proof {
                        let nd = done.push(Unit::Track(e));
                        assert(nd.drop_last() =~= done);
                        assert(nd =~= mid + seq![Unit::Album(h)] + tu.subrange(0, k + 1));
                        done = nd;
                        k = k + 1;
                    }
                }
                proof {
                    assert(tu.subrange(0, k) =~= tu);
                    j = j + 1;
                    assert(done =~= before + seq![Unit::Artist(a.name)] + albums_units(a.name, a.albums.subrange(0, j)));
                }
            }
            proof {
                assert(a.albums.subrange(0, j) =~= a.albums);
                i = i + 1;
                assert(orig.subrange(0, i).drop_last() =~= orig.subrange(0, i - 1));
                assert(done =~= units_of(orig.subrange(0, i)));
            }
        }
        proof {
            assert(orig.subrange(0, i) =~= orig);
        }
    }
}

} // verus!
