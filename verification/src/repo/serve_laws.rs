//! What becomes of requests and of upstream answers, in plain numbers and words.

use vstd::prelude::*;

use crate::bridge::is_header_value;
use crate::config::{AgePolicyConfig, CacheConfig};
use crate::meta::{Artifact, RepoType};
use crate::repo::agepolicy::{age_decision, AgeDecision};
use crate::repo::engine::{
    age_blocks, asks_upstream, blob_missing, cache_read_failed, classify_status, evict_again,
    is_fresh, key_of, needs_touch, outcome_answer, over_limit, render_reservation, resting,
    serve_artifact, serve_step, status_class, stored_artifact, stored_type, swept,
    unreachable_upstream, upstream_outcome, ArtifactReply, FetchKind, Kind, Lookup, StatusClass,
    Step, UpstreamReply,
};
use crate::repo::npm_serve::packument_answer;
use crate::repo::negcache::live;
use crate::repo::reply::{http_error, not_found, reads, Answer, Method, Reply};
use crate::repo::route::{fetched, release_of, route, store_reply, ReleaseSource, Route};
use crate::repo::upstream::{
    cooldown, custom_header, is_redirection, request_headers, same_origin, whole_seconds,
    without_credentials, Fields,
};
use crate::text::{decimal, i64_value};
use crate::times::{http_date_instant, http_date_stamp, Stamp};

verus! {

// ---------------------------------------------------------------------------
// Upstream answers

/// A body is taken from a successful answer only. A missing path and a request for rest
/// are told apart, and every other answer is a failure.
pub proof fn only_success_is_taken(status: u16)
    ensures
        status_class(status) == StatusClass::Good <==> 200 <= status <= 299,
        status_class(status) == StatusClass::Missing <==> status == 404,
        status_class(status) == StatusClass::Limited <==> status == 429 || status == 503,
        status_class(status) == StatusClass::Bad <==> !(200 <= status <= 299) && status != 404
            && status != 429 && status != 503,
{
}

/// A status is judged by these numbers.
pub proof fn statuses_are_judged_by_number(status: u16, r: StatusClass)
    requires
        call_ensures(classify_status, (status,), r),
    ensures
        r == StatusClass::Good <==> 200 <= status <= 299,
        r == StatusClass::Missing <==> status == 404,
        r == StatusClass::Limited <==> status == 429 || status == 503,
{
}

/// A fetch ends as its answer says: what is missing upstream is missing here, a request for
/// rest is relayed with the status and the time, what is too young or too old is held back,
/// any other answer but a success is a failure, and nothing of these is stored.
pub proof fn fetches_end_as_the_upstream_answers(
    reply: UpstreamReply,
    age: AgePolicyConfig,
    now: int,
)
    ensures
        ({
            let o = upstream_outcome(reply, age, now);
            let s = reply.status;
            &&& s == 404 ==> o is Some && (o->0).0 == FetchKind::NotFound
            &&& s == 429 || s == 503 ==> o is Some && (o->0).0 == FetchKind::Retry && (o->0).1 == s
                && (o->0).2 == decimal(whole_seconds(cooldown(reply.retry_after@, now)))
            &&& !(200 <= s <= 299) && s != 404 && s != 429 && s != 503 ==> o is Some && (o->0).0
                == FetchKind::Error
            &&& 200 <= s <= 299 ==> match age_decision(age, reply.published, now).0 {
                AgeDecision::Block => o is Some && (o->0).0 == FetchKind::AgeBlocked,
                _ => o is None,
            }
            &&& o is None ==> 200 <= s <= 299
        }),
{
}

/// Each outcome is answered by its own status: what is missing or held back is not found,
/// a request for rest is passed on with its hint, and a failure is the gateway's.
pub proof fn outcomes_are_answered(status: u16, hint: Seq<char>)
    ensures
        outcome_answer((FetchKind::Stored, status, hint)) is None,
        outcome_answer((FetchKind::NotFound, status, hint)) == Some(
            Answer { status: 404, message: "404 page not found"@, retry_after: None },
        ),
        outcome_answer((FetchKind::AgeBlocked, status, hint)) == Some(
            Answer { status: 404, message: "blocked by age policy"@, retry_after: None },
        ),
        outcome_answer((FetchKind::Error, status, hint)) == Some(
            Answer { status: 502, message: "upstream error"@, retry_after: None },
        ),
        outcome_answer((FetchKind::Retry, status, hint)) is Some,
        (outcome_answer((FetchKind::Retry, status, hint))->0).status == (if status == 429 {
            429u16
        } else {
            503u16
        }),
        (outcome_answer((FetchKind::Retry, status, hint))->0).message
            == "upstream rate-limited, retry later"@,
        hint.len() > 0 && is_header_value(hint) ==> (outcome_answer(
            (FetchKind::Retry, status, hint),
        )->0).retry_after == Some(hint),
        packument_answer((FetchKind::AgeBlocked, status, hint)) == Some(
            Answer { status: 502, message: "upstream error"@, retry_after: None },
        ),
        packument_answer((FetchKind::NotFound, status, hint)) == outcome_answer(
            (FetchKind::NotFound, status, hint),
        ),
        packument_answer((FetchKind::Retry, status, hint)) == outcome_answer(
            (FetchKind::Retry, status, hint),
        ),
        packument_answer((FetchKind::Stored, status, hint)) is None,
{
}

/// A request for rest is honoured for at least fifteen seconds and at most five minutes;
/// in between for as long as the upstream says, in seconds or by the date. What cannot be
/// read counts as nothing said.
pub proof fn requests_for_rest_are_honoured(h: Seq<char>, now: int)
    ensures
        15_000_000_000 <= cooldown(h, now) <= 300_000_000_000,
        h.len() == 0 ==> cooldown(h, now) == 15_000_000_000,
        i64_value(h) is Some && h.len() > 0 && 15 <= i64_value(h)->0 <= 300 ==> cooldown(h, now)
            == i64_value(h)->0 * 1_000_000_000,
        i64_value(h) is Some && h.len() > 0 && i64_value(h)->0 > 300 ==> cooldown(h, now)
            == 300_000_000_000,
        i64_value(h) is Some && h.len() > 0 && i64_value(h)->0 < 15 ==> cooldown(h, now)
            == 15_000_000_000,
        i64_value(h) is None && h.len() > 0 && http_date_instant(h) is None ==> cooldown(h, now)
            == 15_000_000_000,
        i64_value(h) is None && h.len() > 0 && http_date_instant(h) is Some && 15_000_000_000
            <= http_date_instant(h)->0 - now <= 300_000_000_000 ==> cooldown(h, now)
            == http_date_instant(h)->0 - now,
        i64_value(h) is None && h.len() > 0 && http_date_instant(h) is Some && http_date_instant(
            h,
        )->0 - now < 15_000_000_000 ==> cooldown(h, now) == 15_000_000_000,
        i64_value(h) is None && h.len() > 0 && http_date_instant(h) is Some && http_date_instant(
            h,
        )->0 - now > 300_000_000_000 ==> cooldown(h, now) == 300_000_000_000,
{
}

/// The hint for the client is the nearest whole number of seconds, and at least one.
pub proof fn hints_are_whole_seconds(d: int)
    requires
        0 <= d,
    ensures
        whole_seconds(d) >= 1,
        d >= 1_000_000_000 ==> whole_seconds(d) * 1_000_000_000 <= d + 500_000_000,
        d >= 1_000_000_000 ==> d < whole_seconds(d) * 1_000_000_000 + 501_000_000,
{
}

/// What is said in answers without a choice.
pub proof fn fixed_answers(a: Reply, b: Reply, c: Reply, d: Reply)
    requires
        call_ensures(not_found, (), a),
        call_ensures(unreachable_upstream, (), b),
        call_ensures(cache_read_failed, (), c),
        call_ensures(blob_missing, (), d),
    ensures
        a@ == (Answer { status: 404, message: "404 page not found"@, retry_after: None }),
        b@ == (Answer { status: 502, message: "upstream unreachable"@, retry_after: None }),
        c@ == (Answer { status: 500, message: "cache read failed"@, retry_after: None }),
        d@ == (Answer { status: 500, message: "blob missing"@, retry_after: None }),
{
}

/// An error is answered with its own status and words.
pub proof fn errors_say_what_they_are(status: u16, message: &str, r: Reply)
    requires
        call_ensures(http_error, (status, message), r),
    ensures
        r.status == status,
        r.message@ == message@,
        r.retry_after is None,
{
}

// ---------------------------------------------------------------------------
// The cache

/// An index is fresh for its span and not without one; a file is fresh for its span, and
/// for good without one; nothing is fresh where the cache is off.
pub proof fn freshness_in_spans(cache: CacheConfig, cached_at: int, now: int)
    ensures
        is_fresh(cache, Kind::Metadata, cached_at, now) <==> cache.enabled && cache.metadata_ttl > 0
            && now - cached_at < cache.metadata_ttl,
        is_fresh(cache, Kind::Artifact, cached_at, now) <==> cache.enabled && (cache.artifact_ttl
            <= 0 || now - cached_at < cache.artifact_ttl),
{
}

/// What a request for a path comes to, case by case.
pub proof fn requests_are_served_or_fetched(
    kind: RepoType,
    cache: CacheConfig,
    age: AgePolicyConfig,
    k: Kind,
    art: Artifact,
    missing: bool,
    now: int,
)
    ensures
        ({
            let found = serve_step(kind, cache, age, k, Lookup::Found(&art), missing, now);
            let absent = serve_step(kind, cache, age, k, Lookup::Missing, missing, now);
            let usable = kind == RepoType::Hosted || is_fresh(cache, k, art.cached_at as int, now);
            let blocked = age_decision(age, art.published_at, now).0 == AgeDecision::Block;
            let gone = Step::Answer(
                Answer { status: 404, message: "404 page not found"@, retry_after: None },
            );
            &&& usable && !blocked ==> found == (Step::Serve {
                hit: kind == RepoType::Proxy,
                touch: now - art.last_accessed_at >= 300_000_000_000,
            })
            &&& usable && blocked ==> found == Step::Answer(
                Answer { status: 404, message: "blocked by age policy"@, retry_after: None },
            )
            &&& !usable && missing ==> found == gone
            &&& !usable && !missing ==> found == Step::Fetch
            &&& kind == RepoType::Hosted || missing ==> absent == gone
            &&& kind != RepoType::Hosted && !missing ==> absent == Step::Fetch
            &&& serve_step(kind, cache, age, k, Lookup::Failed, missing, now) == Step::Answer(
                Answer { status: 500, message: "metadata error"@, retry_after: None },
            )
            &&& asks_upstream(kind, cache, k, Lookup::Found(&art), now) <==> !usable
            &&& asks_upstream(kind, cache, k, Lookup::Missing, now) <==> kind != RepoType::Hosted
            &&& !asks_upstream(kind, cache, k, Lookup::Failed, now)
        }),
{
}

/// What is remembered of a key is kept while it counts, and dropped then; nothing else is
/// touched.
pub proof fn memory_is_swept(m: Map<Seq<char>, i128>, key: Seq<char>, other: Seq<char>, now: int)
    ensures
        live(m, key, now) <==> m.contains_key(key) && now <= m[key],
        swept(m, key, now).contains_key(key) <==> live(m, key, now),
        other != key ==> (swept(m, key, now).contains_key(other) <==> m.contains_key(other)),
        m.contains_key(other) && swept(m, key, now).contains_key(other) ==> swept(m, key, now)[other]
            == m[other],
        resting(m, key, now) <==> m.contains_key(key) && now < m[key],
{
}

/// A path of a repository has a key of its own.
pub proof fn keys_name_repository_and_path(repo: Seq<char>, path: Seq<char>, other: Seq<char>)
    ensures
        key_of(repo, path) == repo + "/"@ + path,
        path != other ==> key_of(repo, path) != key_of(repo, other),
{
    let a = key_of(repo, path);
    let b = key_of(repo, other);
    let n = (repo + "/"@).len() as int;
    assert(a.skip(n) =~= path);
    assert(b.skip(n) =~= other);
}

/// The last access is written again after five minutes.
pub proof fn accesses_are_written_now_and_then(last: i128, now: i128, r: bool)
    requires
        call_ensures(needs_touch, (last, now), r),
    ensures
        r <==> now - last >= 300 * 1_000_000_000,
{
}

/// A cache is trimmed where it is over a limit that is set, never one of images; a trim goes
/// on while it helps and is needed, for sixty-four rounds at most.
pub proof fn caches_are_trimmed_to_their_limit(
    format: &str,
    max: i64,
    size: i64,
    over: bool,
    rounds: usize,
    evicted: Option<i64>,
    left: Option<i64>,
    again: bool,
)
    requires
        call_ensures(over_limit, (format, max, size), over),
        call_ensures(evict_again, (rounds, evicted, left, max), again),
    ensures
        over <==> format@ != "oci"@ && max > 0 && size > max,
        again <==> rounds < 64 && evicted is Some && evicted->0 > 0 && left is Some && left->0
            > max,
{
}

/// A rendered document reserves its own size, at least one byte and at most the budget.
pub proof fn reservations_are_the_size(n: i64, r: u32)
    requires
        call_ensures(render_reservation, (n,), r),
    ensures
        1 <= n <= 128 * 1024 * 1024 ==> r == n,
        n < 1 ==> r == 1,
        n > 128 * 1024 * 1024 ==> r == 128 * 1024 * 1024,
{
}

/// An artifact goes out under its digest as a tag: to a client that has it without its
/// bytes, and else with its length and its bytes, but for a question about its headers.
pub proof fn artifacts_go_out_under_their_digest(
    content_type: &str,
    sha: &str,
    size: i64,
    known: &str,
    head: bool,
    r: ArtifactReply,
)
    requires
        call_ensures(serve_artifact, (content_type, sha, size, known, head), r),
    ensures
        known@ == "\""@ + sha@ + "\""@ ==> r.status == 304 && !r.body && r.bytes == 0,
        known@ != "\""@ + sha@ + "\""@ ==> r.status == 200 && r.body == !head
            && r.content_length is Some && r.content_length->0@ == decimal(size as int),
        is_header_value("\""@ + sha@ + "\""@) ==> r.etag is Some && r.etag->0@ == "\""@ + sha@
            + "\""@,
        content_type@.len() > 0 && is_header_value(content_type@) ==> r.content_type is Some
            && r.content_type->0@ == content_type@,
        content_type@.len() == 0 ==> r.content_type is None,
{
}

/// What is stored is recorded as it came, at the time it came.
pub proof fn artifacts_are_recorded_as_they_came(
    repo_id: i64,
    path: &str,
    version: &str,
    content_type: &str,
    digest: &str,
    size: i64,
    published: Option<Stamp>,
    username: &str,
    now: i128,
    r: Artifact,
)
    requires
        call_ensures(
            stored_artifact,
            (repo_id, path, version, content_type, digest, size, published, username, now),
            r,
        ),
    ensures
        r.repo_id == repo_id,
        r.path@ == path@,
        r.version@ == version@,
        r.content_type@ == content_type@,
        r.blob_sha256@ == digest@,
        r.size == size,
        r.published_at == published,
        r.cached_at == now,
        r.last_accessed_at == now,
        r.cached_by@ == username@,
{
}

/// A body is kept under the type that its format gives it, and else under the upstream's.
pub proof fn types_come_from_the_format_first(own: Seq<char>, upstream: Seq<char>)
    ensures
        own.len() > 0 ==> stored_type(own, upstream) == own,
        own.len() == 0 ==> stored_type(own, upstream) == upstream,
{
}

// ---------------------------------------------------------------------------
// Requests

/// Reads are served everywhere; an upload is a PUT to a hosted repository; everything else
/// is refused by its method.
pub proof fn methods_mean_what_they_say(method: Method, kind: RepoType, r: Route)
    requires
        call_ensures(route, (method, kind), r),
    ensures
        method == Method::Get || method == Method::Head <==> r is Serve,
        method == Method::Put && kind == RepoType::Hosted <==> r is Store,
        r is Answer ==> (r->Answer_0).status == 405,
        r is Answer && method == Method::Put ==> (r->Answer_0).message@
            == "uploads are only allowed on local repositories"@,
        r is Answer && method != Method::Put ==> (r->Answer_0).message@ == "method not allowed"@,
        reads(method) <==> method == Method::Get || method == Method::Head,
{
}

/// A failed store is the server's own failure.
pub proof fn failed_stores_are_answered(stored: bool, r: Option<Reply>)
    requires
        call_ensures(store_reply, (stored,), r),
    ensures
        stored <==> r is None,
        r is Some ==> r->0.status == 500 && r->0.message@ == "store failed"@,
{
}

/// A fetch goes to the upstream's own URL with the administrator's credentials, keeps the
/// whole body, and is released at its file time.
pub proof fn fetches_go_to_the_upstream(
    base: Seq<char>,
    path: Seq<char>,
    kind: Kind,
    version: Seq<char>,
    content_type: Seq<char>,
)
    ensures
        ({
            let f = fetched(base, path, kind, version, content_type);
            &&& f.path == path
            &&& f.upstream_url == crate::repo::path::joined(base, path)
            &&& !f.untrusted_url
            &&& f.kind == kind
            &&& f.version == version
            &&& f.content_type == content_type
            &&& f.accept.len() == 0
            &&& f.max_store_bytes == 0
            &&& f.published == ReleaseSource::FileTime
        }),
{
    reveal_strlit("");
}

/// A release time is the one that is known, or the file time where the upstream states one
/// as a date, or none.
pub proof fn release_times_have_a_source(t: Stamp, header: &str)
    ensures
        release_of(ReleaseSource::Known(t), Some(header)) == Some(t),
        release_of(ReleaseSource::Unknown, Some(header)) is None,
        header@.len() > 0 ==> release_of(ReleaseSource::FileTime, Some(header)) == http_date_stamp(
            header@,
        ),
        header@.len() == 0 ==> release_of(ReleaseSource::FileTime, Some(header)) is None,
        release_of(ReleaseSource::FileTime, None) is None,
{
}

// ---------------------------------------------------------------------------
// Age

/// A release is held back while it is younger than the cooldown or older than the oldest
/// age, where these are set and the policy is on; the action decides between a refusal and
/// a warning. What has no known time is let through.
pub proof fn ages_are_judged_by_spans(cfg: AgePolicyConfig, p: Stamp, now: int)
    ensures
        ({
            let young = cfg.min_age > 0 && p.age(now) < cfg.min_age;
            let old = cfg.max_age > 0 && p.age(now) > cfg.max_age;
            let d = age_decision(cfg, Some(p), now);
            &&& !cfg.enabled || !(young || old) ==> d.0 == AgeDecision::Allow
            &&& cfg.enabled && (young || old) && cfg.action@ == "warn"@ ==> d.0 == AgeDecision::Warn
            &&& cfg.enabled && (young || old) && cfg.action@ != "warn"@ ==> d.0
                == AgeDecision::Block
            &&& cfg.enabled && old ==> d.1 == "release is older than max_age"@
            &&& cfg.enabled && young && !old ==> d.1 == "release is newer than min_age cooldown"@
            &&& age_decision(cfg, None, now).0 == AgeDecision::Allow
            &&& age_blocks(cfg, Some(p), now) <==> d.0 == AgeDecision::Block
        }),
{
}

// ---------------------------------------------------------------------------
// Requests to the upstream

/// A request carries the credentials of its kind and no others: a user and a password, a
/// token, or a header of the administrator's own.
pub proof fn credentials_are_sent_as_configured(
    user_agent: Seq<char>,
    cfg: crate::config::UpstreamAuthConfig,
)
    requires
        is_header_value(user_agent),
    ensures
        ({
            let h = request_headers(user_agent, cfg);
            let basic = "Basic "@ + crate::bridge::base64_text(
                vstd::utf8::encode_utf8(cfg.username@ + ":"@ + cfg.password@),
            );
            let bearer = "Bearer "@ + cfg.token@;
            &&& cfg.kind@ == "basic"@ && is_header_value(basic) ==> h.contains_key(
                "authorization"@,
            ) && h["authorization"@] == vstd::utf8::encode_utf8(basic)
            &&& cfg.kind@ == "bearer"@ && is_header_value(bearer) ==> h.contains_key(
                "authorization"@,
            ) && h["authorization"@] == vstd::utf8::encode_utf8(bearer)
            &&& cfg.kind@ != "basic"@ && cfg.kind@ != "bearer"@ && cfg.kind@ != "header"@ ==> h
                == Map::<Seq<char>, Seq<u8>>::empty().insert(
                "user-agent"@,
                vstd::utf8::encode_utf8(user_agent),
            )
            &&& cfg.kind@ == "header"@ && is_header_value(cfg.value@)
                && crate::bridge::header_name_of(cfg.header@) is Some ==> custom_header(cfg)
                == crate::bridge::header_name_of(cfg.header@) && h.contains_key(
                crate::bridge::header_name_of(cfg.header@)->0,
            ) && h[crate::bridge::header_name_of(cfg.header@)->0] == vstd::utf8::encode_utf8(
                cfg.value@,
            )
            &&& cfg.kind@ != "header"@ ==> custom_header(cfg) is None
        }),
{
    reveal_strlit("basic");
    reveal_strlit("bearer");
    reveal_strlit("header");
    assert("basic"@.len() == 5 && "bearer"@.len() == 6 && "header"@.len() == 6);
    assert("bearer"@[0] == 'b' && "header"@[0] == 'h');
}

/// Leaving a host drops the credentials and nothing else; a redirect is an answer in the
/// three hundreds; and a host is the same only with its port.
pub proof fn leaving_a_host_drops_credentials(
    m: Fields,
    custom: Option<Seq<char>>,
    k: Seq<char>,
    a: Seq<char>,
    b: Seq<char>,
    status: u16,
)
    ensures
        !without_credentials(m, custom).contains_key("authorization"@),
        custom is Some ==> !without_credentials(m, custom).contains_key(custom->0),
        k != "authorization"@ && Some(k) != custom ==> (without_credentials(m, custom).contains_key(
            k,
        ) <==> m.contains_key(k)),
        k != "authorization"@ && Some(k) != custom && m.contains_key(k) ==> without_credentials(
            m,
            custom,
        )[k] == m[k],
        is_redirection(status) <==> 300 <= status <= 399,
        same_origin(a, b) <==> crate::bridge::url_origin(a) is Some && crate::bridge::url_origin(a)
            == crate::bridge::url_origin(b),
{
}

} // verus!
