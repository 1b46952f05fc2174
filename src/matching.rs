//! The match heuristic: picks at most one remote candidate for a local track.

use vstd::prelude::*;
use crate::models::Item;
use crate::text::{occurs_at, chars_of, contains_chars, is_substring, lower_of, lowercase};

verus! {

/// A folded candidate artist name fits the folded local artist when one is
/// part of the other (equal names included).
pub open spec fn artist_fits(local: Seq<char>, name: Seq<char>) -> bool {
    name == local || is_substring(name, local) || is_substring(local, name)
}

/// The rule on folded values: some candidate artist fits the local artist,
/// and the candidate title is part of the local title.
pub open spec fn fits_folded(
    artist: Seq<char>,
    title: Seq<char>,
    names: Seq<Seq<char>>,
    track: Seq<char>,
) -> bool {
    (exists|j: int| 0 <= j < names.len() && #[trigger] artist_fits(artist, names[j]))
        && is_substring(track, title)
}

/// The folded artist names of a candidate, in order.
pub open spec fn folded_names(c: Item) -> Seq<Seq<char>> {
    c.artists@.map_values(|a: crate::models::Artist| lower_of(a.name@))
}

/// Whether candidate `c` matches the local artist and title, compared
/// without regard to case.
pub open spec fn candidate_fits(artist: Seq<char>, title: Seq<char>, c: Item) -> bool {
    fits_folded(lower_of(artist), lower_of(title), folded_names(c), lower_of(c.name@))
}

/// The rule applied to values that are already folded.
pub fn matches_folded(artist: &str, title: &str, names: &Vec<String>, track: &str) -> (r: bool)
    ensures
        r == fits_folded(artist@, title@, names@.map_values(|n: String| n@), track@),
{
    let ghost ns = names@.map_values(|n: String| n@);
    let a = chars_of(artist);
    let mut found = false;
    let mut j: usize = 0;
    while j < names.len() && !found
        invariant
            a@ == artist@,
            ns == names@.map_values(|n: String| n@),
            j <= names@.len(),
            found ==> exists|k: int| 0 <= k < ns.len() && #[trigger] artist_fits(artist@, ns[k]),
            !found ==> forall|k: int| 0 <= k < j ==> !#[trigger] artist_fits(artist@, ns[k]),
        decreases names@.len() - j + (if found { 0int } else { 1int }),
    {
        let n = chars_of(names[j].as_str());
        let fit = contains_chars(&a, &n) || contains_chars(&n, &a);
        assert(ns[j as int] == names@[j as int]@);
        proof {
            if ns[j as int] == artist@ {
                assert(artist@.subrange(0, artist@.len() as int) =~= artist@);
                assert(occurs_at(ns[j as int], artist@, 0));
            }
        }
        if fit {
            assert(artist_fits(artist@, ns[j as int]));
            found = true;
        } else {
            j = j + 1;
        }
    }
    if !found {
        return false;
    }
    let t = chars_of(title);
    let k = chars_of(track);
    contains_chars(&t, &k)
}

/// Picks the first candidate, in the order given, whose artists fit
/// `artist` and whose title is part of `title`, without regard to case.
pub fn select_match(artist: &str, title: &str, candidates: &Vec<Item>) -> (r: Option<usize>)
    ensures
        match r {
            Some(i) => i < candidates@.len() && candidate_fits(artist@, title@, candidates@[i as int])
                && forall|j: int| 0 <= j < i ==> !candidate_fits(artist@, title@, #[trigger] candidates@[j]),
            None => forall|j: int| 0 <= j < candidates@.len() ==> !candidate_fits(artist@, title@, #[trigger] candidates@[j]),
        },
{
    let artist_l = lowercase(artist);
    let title_l = lowercase(title);
    let mut i: usize = 0;
    while i < candidates.len()
        invariant
            artist_l@ == lower_of(artist@),
            title_l@ == lower_of(title@),
            i <= candidates@.len(),
            forall|j: int| 0 <= j < i ==> !candidate_fits(artist@, title@, #[trigger] candidates@[j]),
        decreases candidates@.len() - i,
    {
        let c = &candidates[i];
        let mut names: Vec<String> = Vec::new();
        let mut k: usize = 0;
        while k < c.artists.len()
            invariant
                k <= c.artists@.len(),
                names@.len() == k,
                forall|m: int| 0 <= m < k ==> (#[trigger] names@[m])@ == lower_of(c.artists@[m].name@),
            decreases c.artists@.len() - k,
        {
            names.push(lowercase(c.artists[k].name.as_str()));
            k = k + 1;
        }
        let track_l = lowercase(c.name.as_str());
        let fit = matches_folded(artist_l.as_str(), title_l.as_str(), &names, track_l.as_str());
        assert(names@.map_values(|n: String| n@) =~= folded_names(*c));
        if fit {
            return Some(i);
        }
        i = i + 1;
    }
    None
}

} // verus!
