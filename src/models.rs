//! The schema of the remote search service: what a search, a token request
//! and an error answer carry, with absent fields made explicit.

use vstd::prelude::*;

verus! {

/// Query of the catalog boundary: the directory to walk.
#[derive(Clone, Debug, PartialEq, Default)]
pub struct TracksQuery {
    pub path: String,
}

/// Answer of the token endpoint.
#[derive(Clone, Debug, PartialEq, Default)]
pub struct TokenData {
    pub access_token: String,
    pub token_type: String,
    /// Seconds from issuance until the token expires.
    pub expires_in: i64,
}

/// Error answer of the remote service.
#[derive(Clone, Debug, PartialEq, Default)]
pub struct SpotifyErrorWrapper {
    pub error: SpotifyError,
}

#[derive(Clone, Debug, PartialEq, Default)]
pub struct SpotifyError {
    pub status: i32,
    pub message: String,
}

/// Query of a direct lookup: an endpoint and an id under it.
#[derive(Clone, Debug, PartialEq, Default)]
pub struct TrackQuery {
    pub endpoint: String,
    pub id: String,
}

/// Query of a free-text search.
#[derive(Clone, Debug, PartialEq, Default)]
pub struct SearchQuery {
    pub query: String,
}

/// Answer of a track search.
#[derive(Clone, Debug, PartialEq, Default)]
pub struct SpotifySearchResponse {
    pub tracks: Tracks,
}

/// One page of track results, ranked by the remote service.
#[derive(Clone, Debug, PartialEq, Default)]
pub struct Tracks {
    pub href: String,
    pub limit: i64,
    pub next: Option<String>,
    pub offset: i64,
    pub previous: Option<String>,
    pub total: i64,
    pub items: Vec<Item>,
}

/// One remote track: a candidate for enrichment.
#[derive(Clone, Debug, PartialEq, Default)]
pub struct Item {
    pub album: Album,
    pub artists: Vec<Artist>,
    pub available_markets: Vec<String>,
    pub disc_number: i64,
    pub duration_ms: i64,
    pub explicit: bool,
    pub external_ids: ExternalIds,
    pub external_urls: ExternalUrls,
    pub href: String,
    pub id: String,
    pub name: String,
    pub popularity: i64,
    pub preview_url: Option<String>,
    pub track_number: i64,
    pub type_field: String,
    pub uri: String,
    pub is_local: bool,
}

/// The album of a remote track.
#[derive(Clone, Debug, PartialEq, Default)]
pub struct Album {
    pub album_type: String,
    pub total_tracks: i64,
    pub available_markets: Vec<String>,
    pub external_urls: ExternalUrls,
    pub href: String,
    pub id: String,
    pub images: Vec<Image>,
    pub name: String,
    pub release_date: String,
    pub release_date_precision: String,
    pub type_field: String,
    pub uri: String,
    pub artists: Vec<Artist>,
}

#[derive(Clone, Debug, PartialEq, Default)]
pub struct Image {
    pub url: String,
    pub height: i64,
    pub width: i64,
}

/// An artist credited on a remote track or album.
#[derive(Clone, Debug, PartialEq, Default)]
pub struct Artist {
    pub external_urls: ExternalUrls,
    pub href: String,
    pub id: String,
    pub name: String,
    pub type_field: String,
    pub uri: String,
}

#[derive(Clone, Debug, PartialEq, Default)]
pub struct ExternalIds {
    pub isrc: String,
}

#[derive(Clone, Debug, PartialEq, Default)]
pub struct ExternalUrls {
    pub spotify: String,
}

} // verus!
