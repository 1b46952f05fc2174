//! The enrichment client's decisions: how a search request is written, when
//! the cached token may be used, how fast lookups may go, and what an answer
//! of the remote service means. The network calls themselves are the
//! caller's.

use vstd::prelude::*;
use crate::cover::{base64_len, base64_of, base64_standard};
use crate::models::{SpotifyErrorWrapper, TokenData};
use vstd::utf8::encode_utf8;

verus! {

/// Relies on `String::push`: appends one character.
#[verifier::external_body]
fn push_char(s: &mut String, c: char)
    ensures
        final(s)@ == old(s)@.push(c),
{
    s.push(c)
}

pub open spec fn is_alnum(b: u8) -> bool {
    (0x30 <= b <= 0x39) || (0x41 <= b <= 0x5A) || (0x61 <= b <= 0x7A)
}

/// Upper-case hexadecimal digit of a value below 16.
pub open spec fn hex_digit(d: u8) -> char {
    if d < 10 { ((0x30 + d) as u8) as char } else { ((0x37 + d) as u8) as char }
}

/// Percent-encoding of bytes: ASCII letters and digits stay, every other
/// byte becomes `%` and two upper-case hexadecimal digits.
pub open spec fn percent_of(b: Seq<u8>) -> Seq<char>
    decreases b.len(),
{
    if b.len() == 0 {
        Seq::empty()
    } else {
        let x = b.last();
        let rest = percent_of(b.drop_last());
        if is_alnum(x) {
            rest.push(x as char)
        } else {
            rest + seq!['%', hex_digit(x / 16), hex_digit(x % 16)]
        }
    }
}

fn hex_char(d: u8) -> (c: char)
    requires
        d < 16,
    ensures
        c == hex_digit(d),
{
    if d < 10 { (0x30 + d) as char } else { (0x37 + d) as char }
}

/// Percent-encodes the UTF-8 bytes of `s` for use in a query string.
pub fn percent_encode(s: &str) -> (r: String)
    ensures
        r@ == percent_of(encode_utf8(s@)),
{
    let b = s.as_bytes();
    let mut out = String::new();
    let mut i: usize = 0;
    while i < b.len()
        invariant
            b@ == encode_utf8(s@),
            i <= b@.len(),
            out@ == percent_of(b@.subrange(0, i as int)),
        decreases b@.len() - i,
    {
        let x = b[i];
        assert(b@.subrange(0, i + 1).drop_last() =~= b@.subrange(0, i as int));
        if (0x30 <= x && x <= 0x39) || (0x41 <= x && x <= 0x5A) || (0x61 <= x && x <= 0x7A) {
            push_char(&mut out, x as char);
        } else {
            push_char(&mut out, '%');
            push_char(&mut out, hex_char(x / 16));
            push_char(&mut out, hex_char(x % 16));
            assert(out@ =~= percent_of(b@.subrange(0, i as int)) + seq!['%', hex_digit(x / 16), hex_digit(x % 16)]);
        }
        i = i + 1;
    }
    assert(b@.subrange(0, b@.len() as int) =~= b@);
    out
}

/// Base address of the search service's API.
pub const API_ROOT: &'static str = "https://api.spotify.com/v1/";

/// Address of the token endpoint.
pub const TOKEN_URL: &'static str = "https://accounts.spotify.com/api/token";

/// Form body of a token request.
pub const TOKEN_FORM: &'static str = "grant_type=client_credentials";

/// The search address for an artist and a title: one page of at most one
/// track, the query being the two texts, percent-encoded, joined by an
/// encoded space.
pub open spec fn search_url_of(artist: Seq<char>, title: Seq<char>) -> Seq<char> {
    API_ROOT@ + "search?q="@ + percent_of(encode_utf8(artist)) + "%20"@ + percent_of(encode_utf8(title))
        + "&type=track&limit=1"@
}

/// Writes the search address for an artist and a title.
pub fn search_url(artist: &str, title: &str) -> (r: String)
    ensures
        r@ == search_url_of(artist@, title@),
{
    let mut out = String::from_str(API_ROOT);
    out.append("search?q=");
    let a = percent_encode(artist);
    out.append(a.as_str());
    out.append("%20");
    let t = percent_encode(title);
    out.append(t.as_str());
    out.append("&type=track&limit=1");
    out
}

/// Writes the search address for free query text: one page of at most one
/// track.
pub fn query_search_url(query: &str) -> (r: String)
    ensures
        r@ == API_ROOT@ + "search?q="@ + percent_of(encode_utf8(query@)) + "&type=track&limit=1"@,
{
    let mut out = String::from_str(API_ROOT);
    out.append("search?q=");
    let q = percent_encode(query);
    out.append(q.as_str());
    out.append("&type=track&limit=1");
    out
}

/// Writes the address of a direct lookup: `<endpoint>/<id>` under the API
/// root; `None` when the endpoint is empty.
pub fn lookup_url(endpoint: &str, id: &str) -> (r: Option<String>)
    ensures
        endpoint@.len() == 0 ==> r is None,
        endpoint@.len() > 0 ==> r is Some && r->0@ == API_ROOT@ + endpoint@ + "/"@ + id@,
{
    if endpoint.is_empty() {
        return None;
    }
    let mut out = String::from_str(API_ROOT);
    out.append(endpoint);
    out.append("/");
    out.append(id);
    Some(out)
}

/// The value of the `Authorization` header of a token request: `Basic` and
/// the base64 of `<id>:<secret>`; `None` when the encoding would not fit in
/// memory.
pub fn basic_authorization(id: &str, secret: &str) -> (r: Option<String>)
    ensures
        ({
            let b = (id@ + ":"@ + secret@);
            let n = encode_utf8(b).len();
            &&& base64_len(n) <= usize::MAX ==> r is Some && r->0@ == "Basic "@ + base64_of(encode_utf8(b))
            &&& base64_len(n) > usize::MAX ==> r is None
        }),
{
    let mut joined = String::from_str(id);
    joined.append(":");
    joined.append(secret);
    let bytes = joined.as_str().as_bytes();
    let n = bytes.len();
    let groups: usize = n / 3 + if n % 3 > 0 { 1 } else { 0 };
    assert(groups == (n + 2) / 3);
    if groups > usize::MAX / 4 {
        return None;
    }
    let encoded = base64_standard(bytes);
    let mut out = String::from_str("Basic ");
    out.append(encoded.as_str());
    Some(out)
}

/// The value of the `Authorization` header of a search request.
pub fn bearer_authorization(token: &str) -> (r: String)
    ensures
        r@ == "Bearer "@ + token@,
{
    let mut out = String::from_str("Bearer ");
    out.append(token);
    out
}

/// Seconds before its advertised expiry at which a token stops being used.
pub const TOKEN_MARGIN: u64 = 60;

/// The process-wide bearer token, with the time (in seconds) at which it
/// expires.
pub struct TokenCache {
    pub token: Option<String>,
    pub expires_at: u64,
}

/// A cached token is usable at `now` when it is there and `now` is more
/// than the margin before its expiry.
pub open spec fn token_usable(c: TokenCache, now: u64) -> bool {
    c.token is Some && now + TOKEN_MARGIN < c.expires_at
}

/// The expiry of a token issued at `now` that lives `expires_in` seconds
/// (a negative lifetime counts as 0; the sum stops at the largest time).
pub open spec fn expiry_of(now: u64, expires_in: i64) -> u64 {
    let life: int = if expires_in < 0 { 0 } else { expires_in as int };
    if now + life > u64::MAX { u64::MAX } else { (now + life) as u64 }
}

impl TokenCache {
    /// An empty cache.
    pub fn new() -> (r: TokenCache)
        ensures
            r.token is None,
            r.expires_at == 0,
    {
        TokenCache { token: None, expires_at: 0 }
    }

    /// The cached token when usable at `now`; `None` means a refresh is
    /// due.
    pub fn usable_token(&self, now: u64) -> (r: Option<String>)
        ensures
            token_usable(*self, now) ==> r is Some && r->0@ == self.token->0@,
            !token_usable(*self, now) ==> r is None,
    {
        match &self.token {
            Some(t) => {
                if self.expires_at > TOKEN_MARGIN && now < self.expires_at - TOKEN_MARGIN {
                    Some(t.clone())
                } else {
                    None
                }
            },
            None => None,
        }
    }

    /// Stores a token fetched at `now`.
    pub fn store(&mut self, data: TokenData, now: u64)
        ensures
            final(self).token is Some,
            final(self).token->0@ == data.access_token@,
            final(self).expires_at == expiry_of(now, data.expires_in),
    {
        let life: u64 = if data.expires_in < 0 { 0 } else { data.expires_in as u64 };
        self.expires_at = now.saturating_add(life);
        self.token = Some(data.access_token);
    }
}

/// Spacing of remote lookups: the earliest time (in seconds) at which the
/// next one may start.
pub struct Throttle {
    pub next_allowed: u64,
    /// Minimum number of seconds between two lookups.
    pub interval: u64,
}

impl Throttle {
    /// A throttle that lets the first lookup go at once.
    pub fn new(interval: u64) -> (r: Throttle)
        ensures
            r.next_allowed == 0,
            r.interval == interval,
    {
        Throttle { next_allowed: 0, interval }
    }

    /// Seconds to wait at `now` before the next lookup may start.
    pub fn wait_before(&self, now: u64) -> (r: u64)
        ensures
            now < self.next_allowed ==> r == self.next_allowed - now,
            now >= self.next_allowed ==> r == 0,
    {
        if now < self.next_allowed { self.next_allowed - now } else { 0 }
    }

    /// Records a lookup started at `now`: the next may start one interval
    /// later (the time stops at the largest value).
    pub fn record(&mut self, now: u64)
        ensures
            final(self).interval == old(self).interval,
            final(self).next_allowed == (if now + old(self).interval > u64::MAX {
                u64::MAX
            } else {
                (now + old(self).interval) as u64
            }),
    {
        self.next_allowed = now.saturating_add(self.interval);
    }
}

/// Why a remote lookup gave no candidates.
#[derive(Clone, Debug, PartialEq)]
pub enum LookupError {
    /// The service answered with an error status.
    RemoteError { status: u16, message: String },
    /// The answer was not the expected JSON.
    ParseFailed,
    /// No token could be had.
    AuthFailed,
}

/// Number of characters of an error body kept in a `RemoteError`.
pub const SNIPPET_LEN: usize = 200;

pub open spec fn is_success(status: u16) -> bool {
    200 <= status <= 299
}

/// The first characters of a body, at most `SNIPPET_LEN` of them.
pub open spec fn snippet_of(body: Seq<char>) -> Seq<char> {
    if body.len() <= SNIPPET_LEN { body } else { body.subrange(0, SNIPPET_LEN as int) }
}

/// What an answer of the remote service means: its body on a success
/// status; else a `RemoteError` with the status and the message of the
/// service's error object when the body held one (`remote`), or else the
/// start of the body.
pub fn classify_response(status: u16, body: String, remote: Option<SpotifyErrorWrapper>) -> (r: Result<String, LookupError>)
    ensures
        is_success(status) ==> r is Ok && r->Ok_0@ == body@,
        !is_success(status) ==> match r {
            Err(LookupError::RemoteError { status: s, message }) => s == status && message@ == (match remote {
                Some(w) => w.error.message@,
                None => snippet_of(body@),
            }),
            _ => false,
        },
{
    if 200 <= status && status <= 299 {
        return Ok(body);
    }
    let message = match remote {
        Some(w) => w.error.message,
        None => {
            let n = body.as_str().unicode_len();
            if n <= SNIPPET_LEN {
                body
            } else {
                let head = body.as_str().substring_char(0, SNIPPET_LEN);
                String::from_str(head)
            }
        },
    };
    Err(LookupError::RemoteError { status, message })
}

} // verus!
