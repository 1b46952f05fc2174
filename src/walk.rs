//! The catalog builder: a depth-first walk over an explicit stack of
//! directories. The caller lists directories and reads tags; the builder
//! decides what to list and read next and folds each file into the catalog.

use vstd::prelude::*;
use crate::catalog::{catalog_wf, step, Catalog, Entry, Track};
use crate::cover::{base64_len, data_uri, data_uri_of};
use crate::matching::{candidate_fits, select_match};
use crate::models::Item;
use crate::text::{lower_of, lowercase, normalize, text_eq, without_backslashes};

verus! {

/// What `std::path::Path::extension` finds in a path: the part of the file
/// name after its last dot, if any.
pub uninterp spec fn extension_of(path: Seq<char>) -> Option<Seq<char>>;

/// Relies on `std::path::Path::extension`, read back as text (lossless for a
/// path that came from a `&str`).
#[verifier::external_body]
fn file_extension(path: &str) -> (r: Option<String>)
    ensures
        r is Some <==> extension_of(path@) is Some,
        r is Some ==> r->0@ == extension_of(path@)->0,
{
    std::path::Path::new(path).extension().map(|e| e.to_string_lossy().into_owned())
}

/// The supported audio extensions, folded.
pub open spec fn audio_extension(e: Seq<char>) -> bool {
    e == "mp3"@ || e == "wav"@ || e == "flac"@ || e == "aac"@ || e == "ogg"@ || e == "wma"@
}

/// A path names an audio file when its extension, folded, is supported.
pub open spec fn is_audio_path(path: Seq<char>) -> bool {
    match extension_of(path) {
        Some(e) => audio_extension(lower_of(e)),
        None => false,
    }
}

/// Whether a folded extension is one of the supported audio extensions.
pub fn is_audio_extension(folded: &str) -> (r: bool)
    ensures
        r == audio_extension(folded@),
{
    text_eq(folded, "mp3") || text_eq(folded, "wav") || text_eq(folded, "flac")
        || text_eq(folded, "aac") || text_eq(folded, "ogg") || text_eq(folded, "wma")
}

/// Whether `path` names an audio file, by its extension without regard to
/// case.
pub fn is_audio_file(path: &str) -> (r: bool)
    ensures
        r == is_audio_path(path@),
{
    match file_extension(path) {
        Some(e) => {
            let folded = lowercase(e.as_str());
            is_audio_extension(folded.as_str())
        },
        None => false,
    }
}

/// The tag data of one file, as the tag reader gives it.
pub struct RawTag {
    pub title: Option<String>,
    pub artist: Option<String>,
    pub album: Option<String>,
    pub album_artist: Option<String>,
    pub year: Option<i32>,
    pub track_number: Option<u16>,
    /// Bytes of the embedded cover picture.
    pub cover: Option<Vec<u8>>,
}

pub open spec fn or_empty(o: Option<String>) -> Seq<char> {
    match o {
        Some(s) => s@,
        None => Seq::empty(),
    }
}

/// The `data:` URI of the cover, empty without one (or when its encoding
/// would not fit in memory).
pub open spec fn picture_of(cover: Option<Vec<u8>>) -> Seq<char> {
    match cover {
        Some(b) => if base64_len(b@.len()) <= usize::MAX { data_uri_of(b@) } else { Seq::empty() },
        None => Seq::empty(),
    }
}

pub open spec fn index_of(n: Option<u16>) -> Option<u32> {
    match n {
        Some(k) => if k > 0 { Some(k as u32) } else { None },
        None => None,
    }
}

/// Track `t` is what the tag of the file at `path` gives, with remote
/// match `m`: title and artist lose their backslashes, missing text is
/// empty, a missing year is 0, a track number 0 counts as missing.
pub open spec fn track_from(t: Track, path: Seq<char>, tag: RawTag, m: Option<Item>) -> bool {
    &&& t.path@ == path
    &&& t.title@ == without_backslashes(or_empty(tag.title))
    &&& t.artist@ == without_backslashes(or_empty(tag.artist))
    &&& t.album_artist@ == or_empty(tag.album_artist)
    &&& t.picture_data_uri@ == picture_of(tag.cover)
    &&& t.year == (match tag.year { Some(y) => y, None => 0i32 })
    &&& t.track_index == index_of(tag.track_number)
    &&& t.external_match == m
}

fn text_or_empty(o: Option<String>) -> (r: String)
    ensures
        r@ == or_empty(o),
{
    match o {
        Some(s) => s,
        None => String::new(),
    }
}

/// Builds a Track from the tag data of the file at `path`.
pub fn make_track(path: String, tag: RawTag, m: Option<Item>) -> (r: (Track, Option<String>))
    ensures
        track_from(r.0, path@, tag, m),
        r.1 == tag.album,
{
    let RawTag { title, artist, album, album_artist, year, track_number, cover } = tag;
    let title = text_or_empty(title);
    let artist = text_or_empty(artist);
    let picture = match cover {
        Some(b) => {
            let n = b.len();
            let groups: usize = n / 3 + if n % 3 > 0 { 1 } else { 0 };
            assert(groups == (n + 2) / 3);
            if groups <= usize::MAX / 4 {
                assert(base64_len(b@.len()) <= usize::MAX);
                data_uri(b.as_slice())
            } else {
                assert(base64_len(b@.len()) > usize::MAX);
                String::new()
            }
        },
        None => String::new(),
    };
    let track_index = match track_number {
        Some(k) => if k > 0 { Some(k as u32) } else { None },
        None => None,
    };
    let t = Track {
        path,
        title: normalize(title.as_str()),
        artist: normalize(artist.as_str()),
        album_artist: text_or_empty(album_artist),
        picture_data_uri: picture,
        year: match year { Some(y) => y, None => 0 },
        track_index,
        external_match: m,
    };
    (t, album)
}

/// The artist a Track is grouped under: its album artist when not empty,
/// else its artist when not empty, else the artist of the first remote
/// candidate.
pub open spec fn grouping_artist(t: Track, remote: Seq<char>) -> Seq<char> {
    if t.album_artist@.len() > 0 {
        t.album_artist@
    } else if t.artist@.len() > 0 {
        t.artist@
    } else {
        remote
    }
}

/// The first artist name of the first candidate, empty when there is none.
pub open spec fn first_remote_artist(cands: Seq<Item>) -> Seq<char> {
    if cands.len() > 0 && cands[0].artists@.len() > 0 {
        cands[0].artists@[0].name@
    } else {
        Seq::empty()
    }
}

/// Index of the first candidate that fits the local artist and title.
pub open spec fn first_fit(artist: Seq<char>, title: Seq<char>, cands: Seq<Item>) -> Option<int>
    decreases cands.len(),
{
    if cands.len() == 0 {
        None
    } else if candidate_fits(artist, title, cands[0]) {
        Some(0)
    } else {
        match first_fit(artist, title, cands.drop_first()) {
            Some(i) => Some(i + 1),
            None => None,
        }
    }
}

proof fn lemma_first_fit(artist: Seq<char>, title: Seq<char>, cands: Seq<Item>, r: Option<int>)
    requires
        match r {
            Some(i) => 0 <= i < cands.len() && candidate_fits(artist, title, cands[i])
                && forall|j: int| 0 <= j < i ==> !candidate_fits(artist, title, #[trigger] cands[j]),
            None => forall|j: int| 0 <= j < cands.len() ==> !candidate_fits(artist, title, #[trigger] cands[j]),
        },
    ensures
        first_fit(artist, title, cands) == r,
    decreases cands.len(),
{
    if cands.len() > 0 && !candidate_fits(artist, title, cands[0]) {
        let rest = cands.drop_first();
        let r2 = match r {
            Some(i) => Some(i - 1),
            None => None,
        };
        match r {
            Some(i) => {
                assert(i > 0);
                assert forall|j: int| 0 <= j < i - 1 implies !candidate_fits(artist, title, #[trigger] rest[j]) by {
                    assert(rest[j] == cands[j + 1]);
                }
                assert(rest[i - 1] == cands[i]);
            },
            None => {
                assert forall|j: int| 0 <= j < rest.len() implies !candidate_fits(artist, title, #[trigger] rest[j]) by {
                    assert(rest[j] == cands[j + 1]);
                }
            },
        }
        lemma_first_fit(artist, title, rest, r2);
    } else if cands.len() > 0 {
        match r {
            Some(i) => {
                if i > 0 {
                    assert(!candidate_fits(artist, title, cands[0]));
                }
            },
            None => {
                assert(!candidate_fits(artist, title, cands[0]));
            },
        }
    }
}

/// The remote match of a Track: the first candidate that fits its artist
/// and title.
pub open spec fn match_of(t: Track, cands: Seq<Item>) -> Option<Item> {
    match first_fit(t.artist@, t.title@, cands) {
        Some(i) => Some(cands[i]),
        None => None,
    }
}

/// The album title a Track is filed under: the remote album name when it
/// has a match, else the album of its tag.
pub open spec fn album_title_of(album: Option<String>, m: Option<Item>) -> Seq<char> {
    match m {
        Some(item) => item.album.name@,
        None => or_empty(album),
    }
}

/// One entry of a directory listing.
pub struct DirEntry {
    pub path: String,
    pub is_dir: bool,
}

/// Why a build stopped.
#[derive(Clone, Copy, Debug, PartialEq, Eq, Structural)]
pub enum BuildError {
    /// The root directory could not be listed.
    RootNotFound,
}

/// A finished build: the catalog and what was left out of it.
pub struct Data {
    pub catalog: Catalog,
    /// Audio files whose tag could not be read.
    pub skipped_files: u64,
    /// Directories below the root that could not be listed.
    pub skipped_dirs: u64,
}

pub open spec fn texts(v: Seq<String>) -> Seq<Seq<char>> {
    v.map_values(|s: String| s@)
}

/// The paths of the directories of a listing, in listing order.
pub open spec fn dirs_of(es: Seq<DirEntry>) -> Seq<Seq<char>>
    decreases es.len(),
{
    if es.len() == 0 {
        Seq::empty()
    } else if es.last().is_dir {
        dirs_of(es.drop_last()).push(es.last().path@)
    } else {
        dirs_of(es.drop_last())
    }
}

/// The paths of the audio files of a listing, in listing order.
pub open spec fn audio_files_of(es: Seq<DirEntry>) -> Seq<Seq<char>>
    decreases es.len(),
{
    if es.len() == 0 {
        Seq::empty()
    } else if !es.last().is_dir && is_audio_path(es.last().path@) {
        audio_files_of(es.drop_last()).push(es.last().path@)
    } else {
        audio_files_of(es.drop_last())
    }
}

pub open spec fn bump(n: u64) -> u64 {
    if n < u64::MAX { (n + 1) as u64 } else { n }
}

/// The state of a walk: directories still to list, the catalog so far, and
/// what was skipped.
pub struct Builder {
    /// Directories still to list; the last one is listed next.
    pub stack: Vec<String>,
    pub catalog: Catalog,
    pub skipped_files: u64,
    pub skipped_dirs: u64,
    /// Whether the root has been listed.
    pub root_listed: bool,
}

impl Builder {
    pub open spec fn wf(&self) -> bool {
        catalog_wf(self.catalog@)
    }

    /// A walk that starts at `root`.
    pub fn new(root: String) -> (r: Builder)
        ensures
            r.wf(),
            texts(r.stack@) == seq![root@],
            r.catalog@.artists.len() == 0,
            r.catalog@.next_id == 0,
            r.skipped_files == 0,
            r.skipped_dirs == 0,
            !r.root_listed,
    {
        let ghost rv = root@;
        let r = Builder {
            stack: vec![root],
            catalog: Catalog::new(),
            skipped_files: 0,
            skipped_dirs: 0,
            root_listed: false,
        };
        assert(texts(r.stack@) =~= seq![rv]);
        r
    }

    /// The directory to list next, taken off the stack; `None` when the walk
    /// is done.
    pub fn next_directory(&mut self) -> (r: Option<String>)
        ensures
            match r {
                Some(d) => old(self).stack@.len() > 0 && d == old(self).stack@.last()
                    && final(self).stack@ == old(self).stack@.drop_last(),
                None => old(self).stack@.len() == 0 && final(self).stack@ == old(self).stack@,
            },
            final(self).catalog == old(self).catalog,
            final(self).skipped_files == old(self).skipped_files,
            final(self).skipped_dirs == old(self).skipped_dirs,
            final(self).root_listed == old(self).root_listed,
    {
        self.stack.pop()
    }

    /// Takes the listing of the directory last handed out (`None` when it
    /// could not be listed). Its subdirectories go on the stack in listing
    /// order; its audio files are returned in listing order, to be read.
    /// The root not being listable ends the build; another directory is
    /// skipped and counted.
    pub fn directory_listed(&mut self, listing: Option<Vec<DirEntry>>) -> (r: Result<Vec<String>, BuildError>)
        ensures
            final(self).catalog == old(self).catalog,
            final(self).skipped_files == old(self).skipped_files,
            match listing {
                None => if old(self).root_listed {
                    r is Ok && r->Ok_0@.len() == 0 && final(self).stack@ == old(self).stack@
                        && final(self).skipped_dirs == bump(old(self).skipped_dirs)
                        && final(self).root_listed
                } else {
                    r == Err::<Vec<String>, BuildError>(BuildError::RootNotFound)
                        && final(self).stack@ == old(self).stack@
                        && final(self).skipped_dirs == old(self).skipped_dirs
                        && !final(self).root_listed
                },
                Some(es) => r is Ok && texts(r->Ok_0@) == audio_files_of(es@)
                    && texts(final(self).stack@) == texts(old(self).stack@) + dirs_of(es@)
                    && final(self).skipped_dirs == old(self).skipped_dirs
                    && final(self).root_listed,
            },
    {
        match listing {
            None => {
                if self.root_listed {
                    self.skipped_dirs = self.skipped_dirs.saturating_add(1);
                    Ok(Vec::new())
                } else {
                    Err(BuildError::RootNotFound)
                }
            },
            Some(entries) => {
                self.root_listed = true;
                let ghost es = entries@;
                let ghost st0 = texts(self.stack@);
                let ghost sv = *self;
                let mut rest = entries;
                let mut files: Vec<String> = Vec::new();
                let ghost mut i: int = 0;
                proof {
                    assert(es.subrange(0, 0) =~= Seq::<DirEntry>::empty());
                    assert(texts(self.stack@) =~= st0 + dirs_of(es.subrange(0, 0)));
                    assert(texts(files@) =~= audio_files_of(es.subrange(0, 0)));
                }
                while rest.len() > 0
                    invariant
                        0 <= i <= es.len(),
                        rest@ == es.subrange(i, es.len() as int),
                        texts(self.stack@) == st0 + dirs_of(es.subrange(0, i)),
                        texts(files@) == audio_files_of(es.subrange(0, i)),
                        self.catalog == sv.catalog,
                        self.skipped_files == sv.skipped_files,
                        self.skipped_dirs == sv.skipped_dirs,
                        self.root_listed,
                    decreases rest@.len(),
                {
                    let e = rest.remove(0);
                    assert(e == es[i]);
                    let ghost pre = es.subrange(0, i + 1);
                    assert(pre.drop_last() =~= es.subrange(0, i));
                    assert(pre.last() == e);
                    let DirEntry { path, is_dir } = e;
                    let ghost pv = path@;
                    if is_dir {
                        let ghost before = self.stack@;
                        self.stack.push(path);
                        assert(texts(self.stack@) =~= texts(before).push(pv));
                        assert(texts(self.stack@) =~= st0 + dirs_of(pre));
                    } else if is_audio_file(path.as_str()) {
                        files.push(path);
                        assert(texts(files@) =~= audio_files_of(pre));
                    }
                    proof {
                        i = i + 1;
                    }
                    assert(rest@ =~= es.subrange(i, es.len() as int));
                }
                assert(es.subrange(0, i) =~= es);
                Ok(files)
            },
        }
    }

    /// Takes what was read from the audio file at `path`: its tag (`None`
    /// when unreadable) and the remote candidates for it, ranked (empty when
    /// not enriching or when the lookup failed). An unreadable tag is
    /// skipped and counted; otherwise the Track is built, matched against
    /// the candidates, and added under its grouping artist and album title,
    /// unless its path is already present. Should the catalog run out of
    /// identifiers, the file is skipped too.
    pub fn file_read(&mut self, path: String, tag: Option<RawTag>, candidates: Vec<Item>) -> (added: bool)
        requires
            old(self).wf(),
        ensures
            final(self).wf(),
            final(self).stack == old(self).stack,
            final(self).skipped_dirs == old(self).skipped_dirs,
            final(self).root_listed == old(self).root_listed,
            match tag {
                None => !added && final(self).catalog@ == old(self).catalog@
                    && final(self).skipped_files == bump(old(self).skipped_files),
                Some(tg) => if old(self).catalog.next_id + 2 > u64::MAX {
                    !added && final(self).catalog@ == old(self).catalog@
                        && final(self).skipped_files == bump(old(self).skipped_files)
                } else {
                    final(self).skipped_files == old(self).skipped_files
                    && added == !crate::catalog::has_path(old(self).catalog@.artists, path@)
                    && exists|t: Track| {
                        &&& #[trigger] track_from(t, path@, tg, match_of(t, candidates@))
                        &&& final(self).catalog@ == step(
                            old(self).catalog@,
                            Entry {
                                artist: grouping_artist(t, first_remote_artist(candidates@)),
                                title: album_title_of(tg.album, match_of(t, candidates@)),
                                key: lower_of(album_title_of(tg.album, match_of(t, candidates@))),
                                track: t,
                            },
                        )
                    }
                },
            },
    {
        let tg = match tag {
            None => {
                self.skipped_files = self.skipped_files.saturating_add(1);
                return false;
            },
            Some(tg) => tg,
        };
        if self.catalog.next_id > u64::MAX - 2 {
            self.skipped_files = self.skipped_files.saturating_add(1);
            return false;
        }
        let ghost tgv = tg;
        let ghost cands = candidates@;
        let ghost p = path@;
        let remote = if candidates.len() > 0 && candidates[0].artists.len() > 0 {
            candidates[0].artists[0].name.clone()
        } else {
            String::new()
        };
        let (mut t, album) = make_track(path, tg, None);
        let chosen = select_match(t.artist.as_str(), t.title.as_str(), &candidates);
        proof {
            lemma_first_fit(t.artist@, t.title@, cands, match chosen {
                Some(i) => Some(i as int),
                None => None,
            });
        }
        let mut cands_left = candidates;
        let album_title = match chosen {
            Some(i) => {
                let item = cands_left.remove(i);
                let name = item.album.name.clone();
                t.external_match = Some(item);
                name
            },
            None => text_or_empty(album),
        };
        let artist = if !t.album_artist.as_str().is_empty() {
            t.album_artist.clone()
        } else if !t.artist.as_str().is_empty() {
            t.artist.clone()
        } else {
            remote
        };
        let ghost tv = t;
        assert(track_from(tv, p, tgv, match_of(tv, cands)));
        let added = self.catalog.add_track(artist, album_title, t);
        added
    }

    /// Ends the walk: the catalog, sorted by artist name, and the counts of
    /// what was skipped.
    pub fn finish(self) -> (r: Data)
        ensures
            r.catalog == self.catalog,
            r.skipped_files == self.skipped_files,
            r.skipped_dirs == self.skipped_dirs,
    {
        Data { catalog: self.catalog, skipped_files: self.skipped_files, skipped_dirs: self.skipped_dirs }
    }
}

} // verus!
