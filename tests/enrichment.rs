use music_catalog::enrich::{
    basic_authorization, bearer_authorization, classify_response, lookup_url, percent_encode, search_url,
    LookupError, Throttle, TokenCache,
};
use music_catalog::models::{SpotifyError, SpotifyErrorWrapper, TokenData};

#[test]
fn percent_encoding_of_query_text() {
    assert_eq!(percent_encode("Daft Punk"), "Daft%20Punk");
    assert_eq!(percent_encode("AC/DC & co"), "AC%2FDC%20%26%20co");
    assert_eq!(percent_encode("été"), "%C3%A9t%C3%A9");
    assert_eq!(percent_encode(""), "");
}

#[test]
fn search_address() {
    assert_eq!(
        search_url("Daft Punk", "One More Time"),
        "https://api.spotify.com/v1/search?q=Daft%20Punk%20One%20More%20Time&type=track&limit=1"
    );
}

#[test]
fn direct_lookup_address() {
    assert_eq!(lookup_url("tracks", "42").unwrap(), "https://api.spotify.com/v1/tracks/42");
    assert_eq!(lookup_url("", "42"), None);
}

#[test]
fn authorization_headers() {
    assert_eq!(basic_authorization("id", "secret").unwrap(), "Basic aWQ6c2VjcmV0");
    assert_eq!(bearer_authorization("tok"), "Bearer tok");
}

#[test]
fn token_is_used_until_shortly_before_expiry() {
    let mut cache = TokenCache::new();
    assert_eq!(cache.usable_token(0), None);
    cache.store(
        TokenData { access_token: "abc".to_string(), token_type: "Bearer".to_string(), expires_in: 3600 },
        1000,
    );
    assert_eq!(cache.expires_at, 4600);
    assert_eq!(cache.usable_token(1000).unwrap(), "abc");
    assert_eq!(cache.usable_token(4539).unwrap(), "abc");
    assert_eq!(cache.usable_token(4540), None);
    cache.store(TokenData { access_token: "x".to_string(), token_type: String::new(), expires_in: -5 }, 10);
    assert_eq!(cache.expires_at, 10);
    assert_eq!(cache.usable_token(10), None);
    cache.store(TokenData { access_token: "y".to_string(), token_type: String::new(), expires_in: 100 }, u64::MAX - 1);
    assert_eq!(cache.expires_at, u64::MAX);
}

#[test]
fn throttle_spaces_lookups() {
    let mut t = Throttle::new(1);
    assert_eq!(t.wait_before(5), 0);
    t.record(5);
    assert_eq!(t.wait_before(5), 1);
    assert_eq!(t.wait_before(6), 0);
    t.record(u64::MAX);
    assert_eq!(t.next_allowed, u64::MAX);
}

#[test]
fn remote_answers() {
    assert_eq!(classify_response(200, "{}".to_string(), None), Ok("{}".to_string()));
    let wrapped = SpotifyErrorWrapper { error: SpotifyError { status: 401, message: "Invalid access token".to_string() } };
    assert_eq!(
        classify_response(401, "{...}".to_string(), Some(wrapped)),
        Err(LookupError::RemoteError { status: 401, message: "Invalid access token".to_string() })
    );
    assert_eq!(
        classify_response(502, "Bad gateway".to_string(), None),
        Err(LookupError::RemoteError { status: 502, message: "Bad gateway".to_string() })
    );
    let long = "x".repeat(250);
    match classify_response(500, long, None) {
        Err(LookupError::RemoteError { status, message }) => {
            assert_eq!(status, 500);
            assert_eq!(message, "x".repeat(200));
        }
        other => panic!("unexpected {:?}", other),
    }
}

#[test]
fn free_text_search_address() {
    assert_eq!(
        music_catalog::enrich::query_search_url("daft punk"),
        "https://api.spotify.com/v1/search?q=daft%20punk&type=track&limit=1"
    );
}
