//! Requests to an upstream: their headers, the redirects they follow, and how long
//! an upstream that asks for rest is left alone.

use vstd::prelude::*;
use vstd::string::StrSliceExecFns;
use vstd::utf8::encode_utf8;

use crate::bridge::{
    ascii_lower, base64_encode, base64_text, header_fields, header_name, header_name_of,
    header_value_ok, insert_header, is_header_value, is_token_char, new_headers, remove_header,
    url_host_port, url_join, url_joined, url_origin, url_parse, url_parsed,
};
use crate::config::{
    UpstreamAuthConfig, UPSTREAM_AUTH_BASIC, UPSTREAM_AUTH_BEARER, UPSTREAM_AUTH_HEADER,
};
use crate::text::{cat, decimal, i64_value, itoa, opt_text, parse_i64, same};
use crate::times::{http_date_instant, parse_http_instant, valid_instant, SECOND};

verus! {

/// How long an upstream coordinate is shielded from re-fetching after a 429 or 503
/// with no usable hint, in nanoseconds.
pub const DEFAULT_UPSTREAM_COOLDOWN: i128 = 15_000_000_000;

/// Caps a cooldown, so that no upstream can park a coordinate for an unbounded time.
pub const MAX_UPSTREAM_COOLDOWN: i128 = 300_000_000_000;

/// How many redirects one fetch follows.
pub const MAX_REDIRECTS: usize = 10;

// ---------------------------------------------------------------------------
// Retry-After

/// The rest that an upstream asks for in its `Retry-After` header, in nanoseconds.
pub open spec fn requested_rest(h: Seq<char>, now: int) -> int {
    match i64_value(h) {
        Some(secs) => if secs <= 0 {
            0
        } else {
            secs * SECOND
        },
        None => match http_date_instant(h) {
            Some(t) => if t < now {
                0
            } else {
                t - now
            },
            None => DEFAULT_UPSTREAM_COOLDOWN as int,
        },
    }
}

/// `n`, moved into the range of cooldowns.
pub open spec fn clamped(n: int) -> int {
    if n < DEFAULT_UPSTREAM_COOLDOWN {
        DEFAULT_UPSTREAM_COOLDOWN as int
    } else if n > MAX_UPSTREAM_COOLDOWN {
        MAX_UPSTREAM_COOLDOWN as int
    } else {
        n
    }
}

/// The cooldown that a `Retry-After` header gives; the empty text stands for none.
pub open spec fn cooldown(h: Seq<char>, now: int) -> int {
    if h.len() == 0 {
        DEFAULT_UPSTREAM_COOLDOWN as int
    } else {
        clamped(requested_rest(h, now))
    }
}

/// Interprets a `Retry-After` header (seconds or an HTTP date), clamped to the range
/// of cooldowns. A missing or unparseable value falls back to the default.
pub fn parse_retry_after(h: &str, now: i128) -> (r: i128)
    requires
        valid_instant(now as int),
    ensures
        r == cooldown(h@, now as int),
        DEFAULT_UPSTREAM_COOLDOWN <= r <= MAX_UPSTREAM_COOLDOWN,
{
    let mut d: i128 = DEFAULT_UPSTREAM_COOLDOWN;
    if h.unicode_len() != 0 {
        match parse_i64(h) {
            Some(secs) => {
                d = if secs <= 0 {
                    0
                } else {
                    secs as i128 * SECOND
                };
            },
            None => match parse_http_instant(h) {
                Some(t) => {
                    d = if t < now {
                        0
                    } else {
                        t - now
                    };
                },
                None => {},
            },
        }
    }
    if d < DEFAULT_UPSTREAM_COOLDOWN {
        DEFAULT_UPSTREAM_COOLDOWN
    } else if d > MAX_UPSTREAM_COOLDOWN {
        MAX_UPSTREAM_COOLDOWN
    } else {
        d
    }
}

/// Whole seconds nearest to `d` nanoseconds, by its milliseconds; at least one.
pub open spec fn whole_seconds(d: int) -> int {
    let secs = (d / 1_000_000 + 500) / 1000;
    if secs < 1 {
        1
    } else {
        secs
    }
}

/// The longest span whose milliseconds can be rounded in 64 bits.
pub const ROUNDABLE: i128 = 9_223_372_036_854_775_307_000_000;

/// Renders a cooldown as a whole-seconds `Retry-After` value.
pub fn retry_after_seconds(d: i128) -> (r: String)
    requires
        0 <= d <= ROUNDABLE,
    ensures
        r@ == decimal(whole_seconds(d as int)),
{
    let millis: i64 = (d / 1_000_000) as i64;
    let secs: i64 = (millis + 500) / 1000;
    if secs < 1 {
        itoa(1)
    } else {
        itoa(secs)
    }
}

/// A rest that an upstream asks for in seconds is kept to the second, where it lies
/// in the range of cooldowns: the hint relayed to the client is the upstream's own
/// number.
pub proof fn relayed_hint_is_the_upstreams(h: Seq<char>, now: int)
    requires
        i64_value(h) is Some,
        h.len() > 0,
        15 <= i64_value(h)->0 <= 300,
    ensures
        whole_seconds(cooldown(h, now)) == i64_value(h)->0,
{
    let n = i64_value(h)->0;
    assert((n * SECOND) / 1_000_000 == n * 1000) by (nonlinear_arith)
        requires
            SECOND == 1_000_000_000,
    ;
    assert((n * 1000 + 500) / 1000 == n) by (nonlinear_arith);
}

// ---------------------------------------------------------------------------
// Headers

/// The headers of a request: the bytes of the value for each name, in small letters.
pub type Fields = Map<Seq<char>, Seq<u8>>;

/// `m` with the header `name`, where `value` can stand in one.
pub open spec fn with_header(m: Fields, name: Seq<char>, value: Seq<char>) -> Fields {
    if is_header_value(value) {
        m.insert(name, encode_utf8(value))
    } else {
        m
    }
}

/// There are at most `n` headers.
spec fn at_most(m: Fields, n: nat) -> bool {
    m.dom().finite() && m.dom().len() <= n
}

/// Sets the header `name`, where `value` can stand in one. Tells whether it can.
fn set_header(headers: &mut http::HeaderMap, name: &str, value: &str) -> (r: bool)
    requires
        header_name_of(name@) == Some(name@),
        at_most(header_fields(*old(headers)), 8),
    ensures
        r == is_header_value(value@),
        header_fields(*final(headers)) == with_header(header_fields(*old(headers)), name@, value@),
{
    if !header_value_ok(value) {
        return false;
    }
    insert_header(headers, name, value);
    true
}

/// The header of standard credentials.
pub const AUTHORIZATION: &'static str = "authorization";

/// The header that names the client.
pub const USER_AGENT: &'static str = "user-agent";

/// The header that names the content types a client takes.
pub const ACCEPT: &'static str = "accept";

/// The custom header that carries the credentials, where they are of that kind and
/// both name and value can stand in a header.
pub open spec fn custom_header(cfg: UpstreamAuthConfig) -> Option<Seq<char>> {
    if cfg.kind@ == UPSTREAM_AUTH_HEADER@ && is_header_value(cfg.value@) {
        header_name_of(cfg.header@)
    } else {
        None
    }
}

/// The value of the `Authorization` header for user and password.
pub open spec fn basic_value(username: Seq<char>, password: Seq<char>) -> Seq<char> {
    "Basic "@ + base64_text(encode_utf8(username + ":"@ + password))
}

/// The names that are set here are names of headers.
proof fn lemma_names()
    ensures
        header_name_of(AUTHORIZATION@) == Some(AUTHORIZATION@),
        header_name_of(USER_AGENT@) == Some(USER_AGENT@),
        header_name_of(ACCEPT@) == Some(ACCEPT@),
{
    reveal_strlit("authorization");
    reveal_strlit("user-agent");
    reveal_strlit("accept");
    assert(AUTHORIZATION@.map_values(|c: char| ascii_lower(c)) =~= AUTHORIZATION@);
    assert(USER_AGENT@.map_values(|c: char| ascii_lower(c)) =~= USER_AGENT@);
    assert(ACCEPT@.map_values(|c: char| ascii_lower(c)) =~= ACCEPT@);
}

/// A name that a text was read as is read as itself.
proof fn lemma_name_stays(s: Seq<char>)
    requires
        header_name_of(s) is Some,
    ensures
        header_name_of(header_name_of(s)->0) == header_name_of(s),
{
    let n = header_name_of(s)->0;
    assert forall|i: int| 0 <= i < n.len() implies is_token_char(#[trigger] n[i]) by {
        assert(is_token_char(s[i]));
        assert(n[i] == ascii_lower(s[i]));
    }
    assert(n.map_values(|c: char| ascii_lower(c)) =~= n);
}

/// The headers of a request that is authenticated as `cfg` says.
pub open spec fn request_headers(user_agent: Seq<char>, cfg: UpstreamAuthConfig) -> Fields {
    let base = with_header(Map::empty(), USER_AGENT@, user_agent);
    if cfg.kind@ == UPSTREAM_AUTH_BASIC@ {
        with_header(base, AUTHORIZATION@, basic_value(cfg.username@, cfg.password@))
    } else if cfg.kind@ == UPSTREAM_AUTH_BEARER@ {
        with_header(base, AUTHORIZATION@, "Bearer "@ + cfg.token@)
    } else {
        match custom_header(cfg) {
            Some(name) => base.insert(name, encode_utf8(cfg.value@)),
            None => base,
        }
    }
}

proof fn lemma_kinds_differ()
    ensures
        UPSTREAM_AUTH_BASIC@ != UPSTREAM_AUTH_HEADER@,
        UPSTREAM_AUTH_BEARER@ != UPSTREAM_AUTH_HEADER@,
{
    reveal_strlit("basic");
    reveal_strlit("bearer");
    reveal_strlit("header");
    assert(UPSTREAM_AUTH_BEARER@[0] == 'b');
    assert(UPSTREAM_AUTH_HEADER@[0] == 'h');
}

proof fn lemma_few_headers(user_agent: Seq<char>)
    ensures
        forall|cfg: UpstreamAuthConfig| at_most(#[trigger] request_headers(user_agent, cfg), 8),
{
}

/// Builds the headers for an authenticated upstream request: a descriptive user
/// agent plus the repository's upstream credentials. Returns the headers and the
/// name of the custom header that carries credentials, if any, so that a redirect
/// can drop it.
pub fn new_upstream_request(user_agent: &str, cfg: &UpstreamAuthConfig) -> (r: (
    http::HeaderMap,
    Option<String>,
))
    ensures
        header_fields(r.0) == request_headers(user_agent@, *cfg),
        opt_text(r.1) == custom_header(*cfg),
{
    proof {
        lemma_kinds_differ();
        lemma_names();
    }
    let mut headers = new_headers();
    set_header(&mut headers, USER_AGENT, user_agent);
    let mut custom: Option<String> = None;
    if same(cfg.kind.as_str(), UPSTREAM_AUTH_BASIC) {
        let mut raw = cat(cfg.username.as_str(), ":");
        raw.append(cfg.password.as_str());
        let encoded = base64_encode(raw.as_str().as_bytes());
        let value = cat("Basic ", encoded.as_str());
        set_header(&mut headers, AUTHORIZATION, value.as_str());
    } else if same(cfg.kind.as_str(), UPSTREAM_AUTH_BEARER) {
        let value = cat("Bearer ", cfg.token.as_str());
        set_header(&mut headers, AUTHORIZATION, value.as_str());
    } else if same(cfg.kind.as_str(), UPSTREAM_AUTH_HEADER) {
        if let Some(name) = header_name(cfg.header.as_str()) {
            proof {
                lemma_name_stays(cfg.header@);
            }
            if set_header(&mut headers, name.as_str(), cfg.value.as_str()) {
                custom = Some(name);
            }
        }
    }
    (headers, custom)
}

// ---------------------------------------------------------------------------
// Redirects

/// Two URLs name the same host and port.
pub open spec fn same_origin(a: Seq<char>, b: Seq<char>) -> bool {
    url_origin(a) is Some && url_origin(a) == url_origin(b)
}

/// Whether two hosts are the same.
fn same_host_name(a: &Option<String>, b: &Option<String>) -> (r: bool)
    ensures
        r == (opt_text(*a) == opt_text(*b)),
{
    match (a, b) {
        (Some(x), Some(y)) => same(x.as_str(), y.as_str()),
        (None, None) => true,
        _ => false,
    }
}

/// Whether credentials for `index` may accompany a request to `target`. They are
/// presented only to the same host and port.
pub fn same_host(index: &str, target: &str) -> (r: bool)
    ensures
        r == same_origin(index@, target@),
{
    match (url_host_port(index), url_host_port(target)) {
        (Some((ha, pa)), Some((hb, pb))) => {
            let ports = match (pa, pb) {
                (Some(x), Some(y)) => x == y,
                (None, None) => true,
                _ => false,
            };
            same_host_name(&ha, &hb) && ports
        },
        _ => false,
    }
}

/// `m` without the headers that carry credentials.
pub open spec fn without_credentials(
    m: Fields,
    custom: Option<Seq<char>>,
) -> Fields {
    match custom {
        Some(name) => m.remove(AUTHORIZATION@).remove(name),
        None => m.remove(AUTHORIZATION@),
    }
}

/// The header that `name` names; nothing where it names none.
pub open spec fn named_header(name: Option<&str>) -> Option<Seq<char>> {
    match name {
        Some(n) => header_name_of(n@),
        None => None,
    }
}

/// The redirect policy for upstream fetches: redirects are followed, but one that
/// leaves the current host drops every header that carries credentials. `via` holds
/// the URLs fetched so far, the latest last.
pub fn strip_auth_on_cross_host_redirect(
    next: &str,
    via: &Vec<String>,
    headers: &mut http::HeaderMap,
    upstream_auth_header: Option<&str>,
) -> (r: Result<(), &'static str>)
    ensures
        match r {
            Ok(()) => {
                &&& 0 < via@.len() < MAX_REDIRECTS
                &&& header_fields(*final(headers)) == if same_origin(next@, via@.last()@) {
                    header_fields(*old(headers))
                } else {
                    without_credentials(
                        header_fields(*old(headers)),
                        named_header(upstream_auth_header),
                    )
                }
            },
            Err(msg) => {
                &&& header_fields(*final(headers)) == header_fields(*old(headers))
                &&& via@.len() >= MAX_REDIRECTS && msg@ == "stopped after 10 redirects"@ || via@.len()
                    == 0 && msg@ == "redirect with no previous request"@
            },
        },
{
    if via.len() >= MAX_REDIRECTS {
        return Err("stopped after 10 redirects");
    }
    if via.len() == 0 {
        return Err("redirect with no previous request");
    }
    let prev = via[via.len() - 1].as_str();
    if !same_host(next, prev) {
        proof {
            lemma_names();
        }
        remove_header(headers, AUTHORIZATION);
        if let Some(name) = upstream_auth_header {
            remove_header(headers, name);
        }
    }
    Ok(())
}

/// One upstream fetch under way: where it goes next, where it has been, and with
/// which headers.
pub struct Fetch {
    pub next: String,
    pub via: Vec<String>,
    pub headers: http::HeaderMap,
    pub custom: Option<String>,
}

/// What an upstream response means for the fetch.
pub enum FetchMove {
    /// The response is the answer.
    Done,
    /// Fetch the next URL, with the headers as they are now.
    Follow,
    /// The fetch fails.
    Failed(String),
}

/// A response of status `status` points elsewhere.
pub open spec fn is_redirection(status: u16) -> bool {
    300 <= status < 400
}

impl Fetch {
    /// The custom header that carries the credentials is the name of one.
    pub open spec fn wf(&self) -> bool {
        self.custom matches Some(name) ==> header_name_of(name@) == Some(name@)
    }

    /// Starts a fetch of `url`. The credentials are left out where the URL is not
    /// the administrator's own.
    pub fn start(
        url: &str,
        user_agent: &str,
        auth: &UpstreamAuthConfig,
        untrusted: bool,
        accept: &str,
    ) -> (r: Result<Fetch, String>)
        ensures
            match r {
                Ok(f) => {
                    let base = if untrusted {
                        with_header(Map::empty(), USER_AGENT@, user_agent@)
                    } else {
                        request_headers(user_agent@, *auth)
                    };
                    &&& f.wf()
                    &&& url_parsed(url@) == Ok::<Seq<char>, Seq<char>>(f.next@)
                    &&& f.via@.len() == 0
                    &&& header_fields(f.headers) == if accept@.len() == 0 {
                        base
                    } else {
                        with_header(base, ACCEPT@, accept@)
                    }
                    &&& opt_text(f.custom) == if untrusted {
                        None
                    } else {
                        custom_header(*auth)
                    }
                },
                Err(e) => url_parsed(url@) == Err::<Seq<char>, Seq<char>>(e@),
            },
    {
        let next = match url_parse(url) {
            Ok(u) => u,
            Err(e) => return Err(e),
        };
        let (mut headers, custom) = if untrusted {
            let none = UpstreamAuthConfig::default();
            proof {
                reveal_strlit("");
                reveal_strlit("basic");
                reveal_strlit("bearer");
                reveal_strlit("header");
            }
            new_upstream_request(user_agent, &none)
        } else {
            new_upstream_request(user_agent, auth)
        };
        if accept.unicode_len() != 0 {
            proof {
                lemma_names();
                lemma_few_headers(user_agent@);
            }
            set_header(&mut headers, ACCEPT, accept);
        }
        proof {
            if header_name_of(auth.header@) is Some {
                lemma_name_stays(auth.header@);
            }
        }
        Ok(Fetch { next, via: Vec::new(), headers, custom })
    }

    /// Takes a response: its status and its `Location` header.
    pub fn step(&mut self, status: u16, location: Option<&str>) -> (r: FetchMove)
        requires
            old(self).wf(),
        ensures
            final(self).wf(),
            final(self).custom == old(self).custom,
            match r {
                FetchMove::Done => (!is_redirection(status) || location is None) && *final(self)
                    == *old(self),
                FetchMove::Follow => {
                    &&& is_redirection(status)
                    &&& location is Some
                    &&& url_joined(old(self).next@, location->0@) == Ok::<Seq<char>, Seq<char>>(
                        final(self).next@,
                    )
                    &&& final(self).via@ == old(self).via@.push(old(self).next)
                    &&& old(self).via@.len() + 1 < MAX_REDIRECTS
                    &&& header_fields(final(self).headers) == if same_origin(
                        final(self).next@,
                        old(self).next@,
                    ) {
                        header_fields(old(self).headers)
                    } else {
                        without_credentials(
                            header_fields(old(self).headers),
                            opt_text(old(self).custom),
                        )
                    }
                },
                FetchMove::Failed(e) => {
                    &&& is_redirection(status)
                    &&& location is Some
                    &&& match url_joined(old(self).next@, location->0@) {
                        Ok(_) => old(self).via@.len() + 1 >= MAX_REDIRECTS && e@
                            == "stopped after 10 redirects"@,
                        Err(m) => e@ == m,
                    }
                },
            },
    {
        if !(300 <= status && status < 400) {
            return FetchMove::Done;
        }
        let location = match location {
            Some(l) => l,
            None => return FetchMove::Done,
        };
        let target = match url_join(self.next.as_str(), location) {
            Ok(t) => t,
            Err(e) => return FetchMove::Failed(e),
        };
        let mut prev = target;
        core::mem::swap(&mut prev, &mut self.next);
        self.via.push(prev);
        let custom = match &self.custom {
            Some(name) => Some(name.as_str()),
            None => None,
        };
        match strip_auth_on_cross_host_redirect(
            self.next.as_str(),
            &self.via,
            &mut self.headers,
            custom,
        ) {
            Ok(()) => FetchMove::Follow,
            Err(msg) => FetchMove::Failed(msg.to_owned()),
        }
    }
}

/// The headers that a fetch carries on its way through `urls`.
pub open spec fn carried(
    headers: Fields,
    custom: Option<Seq<char>>,
    urls: Seq<Seq<char>>,
) -> Fields
    decreases urls.len(),
{
    if urls.len() < 2 {
        headers
    } else {
        let before = carried(headers, custom, urls.drop_last());
        if same_origin(urls.last(), urls.drop_last().last()) {
            before
        } else {
            without_credentials(before, custom)
        }
    }
}

/// Once a fetch has left a host, no header carries the credentials of the
/// repository, wherever the redirects lead after that.
pub proof fn credentials_do_not_leave_the_host(
    headers: Fields,
    custom: Option<Seq<char>>,
    urls: Seq<Seq<char>>,
    i: int,
)
    requires
        1 <= i < urls.len(),
        !same_origin(urls[i], urls[i - 1]),
    ensures
        !carried(headers, custom, urls).contains_key(AUTHORIZATION@),
        custom matches Some(name) ==> !carried(headers, custom, urls).contains_key(name),
    decreases urls.len(),
{
    if i < urls.len() - 1 {
        credentials_do_not_leave_the_host(headers, custom, urls.drop_last(), i);
    }
}

/// A redirect changes no other header, and none at all while the host stays the
/// same.
pub proof fn redirects_keep_other_headers(
    headers: Fields,
    custom: Option<Seq<char>>,
    urls: Seq<Seq<char>>,
)
    ensures
        forall|k: Seq<char>|
            k != AUTHORIZATION@ && Some(k) != custom ==> (#[trigger] carried(
                headers,
                custom,
                urls,
            ).contains_key(k) <==> headers.contains_key(k)) && (headers.contains_key(k)
                ==> carried(headers, custom, urls)[k] == headers[k]),
        (forall|i: int| 1 <= i < urls.len() ==> same_origin(#[trigger] urls[i], urls[i - 1]))
            ==> carried(headers, custom, urls) == headers,
    decreases urls.len(),
{
    if urls.len() >= 2 {
        redirects_keep_other_headers(headers, custom, urls.drop_last());
        let before = carried(headers, custom, urls.drop_last());
        assert forall|k: Seq<char>| k != AUTHORIZATION@ && Some(k) != custom implies (
        #[trigger] carried(headers, custom, urls).contains_key(k) <==> headers.contains_key(k)) && (
        headers.contains_key(k) ==> carried(headers, custom, urls)[k] == headers[k]) by {
            assert(before.contains_key(k) <==> headers.contains_key(k));
        }
        if forall|i: int| 1 <= i < urls.len() ==> same_origin(#[trigger] urls[i], urls[i - 1]) {
            assert forall|i: int| 1 <= i < urls.drop_last().len() implies same_origin(
                #[trigger] urls.drop_last()[i],
                urls.drop_last()[i - 1],
            ) by {
                assert(same_origin(urls[i], urls[i - 1]));
            }
            assert(same_origin(urls[urls.len() - 1], urls[urls.len() - 2]));
        }
    }
}

} // verus!
