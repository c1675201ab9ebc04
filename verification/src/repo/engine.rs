//! The rules of the cache in front of an upstream: what is served from the store,
//! what is fetched, and what each outcome answers.

use vstd::prelude::*;
use vstd::string::StrSliceExecFns;

use crate::bridge::{header_value_ok, is_header_value};
use crate::config::{span, span_of, AgePolicyConfig, CacheConfig};
use crate::meta::{Artifact, RepoType, FORMAT_OCI};
use crate::repo::agepolicy::{age_decision, evaluate_age, AgeDecision};
use crate::repo::negcache::{live, NegCache};
use crate::repo::reply::{
    answer, http_error, not_found, Answer, Reply, BAD_GATEWAY, INTERNAL_SERVER_ERROR, NOT_FOUND, OK,
    SERVICE_UNAVAILABLE, TOO_MANY_REQUESTS,
};
use crate::repo::upstream::{
    cooldown, parse_retry_after, retry_after_seconds, whole_seconds,
    DEFAULT_UPSTREAM_COOLDOWN, MAX_UPSTREAM_COOLDOWN,
};
use crate::text::{cat, decimal, itoa, opt_text, same};
use crate::times::{valid_instant, INSTANT_LIMIT, Stamp};

verus! {

/// Bounds how many metadata documents are rewritten at once.
pub const MAX_CONCURRENT_REWRITES: usize = 4;

/// Caps the rendered metadata that waits on client writes, in bytes.
pub const MAX_INFLIGHT_RENDER_BYTES: i64 = 134_217_728;

/// Caps how large a metadata document may be before it is truncated, in bytes.
pub const MAX_METADATA_BYTES: i64 = 67_108_864;

/// Bounds how often the last access of a served artifact is rewritten, in
/// nanoseconds.
pub const TOUCH_INTERVAL: i128 = 300_000_000_000;

/// How many artifacts one round of eviction drops.
pub const EVICT_BATCH: usize = 16;

/// How many rounds of eviction follow one fetch at most.
pub const EVICT_ROUNDS: usize = 64;

/// Classifies a request target, which selects the cache freshness policy.
#[derive(Debug, Clone, Copy, PartialEq, Eq, Structural)]
pub enum Kind {
    /// Immutable artifact bytes.
    Artifact,
    /// Mutable index documents.
    Metadata,
}

/// Classifies the result of a coalesced upstream fetch so each waiting caller can
/// render its own response.
#[derive(Debug, Clone, Copy, PartialEq, Eq, Structural)]
pub enum FetchKind {
    /// The artifact is now cached; serve it from the store.
    Stored,
    /// Upstream 404 (negative-cached).
    NotFound,
    /// Age policy blocked the artifact.
    AgeBlocked,
    /// Upstream 429/503; cooled down, ask the client to retry.
    Retry,
    /// Any other failure.
    Error,
}

/// The shared result of one coalesced fetch.
pub struct FetchOutcome {
    pub kind: FetchKind,
    /// For a retry: 429 or 503 to relay to clients.
    pub status: u16,
    /// For a retry: seconds, set as the Retry-After header.
    pub retry_after: String,
}

/// The outcome of kind `kind` that carries nothing more.
pub open spec fn plain_outcome(o: FetchOutcome, kind: FetchKind) -> bool {
    o.kind == kind && o.status == 0 && o.retry_after@ == ""@
}

impl FetchOutcome {
    fn plain(kind: FetchKind) -> (r: FetchOutcome)
        ensures
            plain_outcome(r, kind),
    {
        FetchOutcome { kind, status: 0, retry_after: "".to_owned() }
    }

    /// The artifact is cached.
    pub fn stored() -> (r: FetchOutcome)
        ensures
            plain_outcome(r, FetchKind::Stored),
    {
        FetchOutcome::plain(FetchKind::Stored)
    }

    /// The fetch failed.
    pub fn error() -> (r: FetchOutcome)
        ensures
            plain_outcome(r, FetchKind::Error),
    {
        FetchOutcome::plain(FetchKind::Error)
    }

    /// The same outcome once more.
    pub fn copy(&self) -> (r: FetchOutcome)
        ensures
            r.kind == self.kind,
            r.status == self.status,
            r.retry_after@ == self.retry_after@,
    {
        FetchOutcome {
            kind: self.kind,
            status: self.status,
            retry_after: self.retry_after.as_str().to_owned(),
        }
    }
}

// ---------------------------------------------------------------------------
// Freshness

/// What was cached at `cached_at` is still fresh at `now`. An artifact without a
/// limit never goes stale; a metadata document without one always does.
pub open spec fn is_fresh(cache: CacheConfig, k: Kind, cached_at: int, now: int) -> bool {
    let ttl = match k {
        Kind::Metadata => span_of(cache.metadata_ttl),
        Kind::Artifact => span_of(cache.artifact_ttl),
    };
    cache.enabled && (if ttl == 0 {
        k == Kind::Artifact
    } else {
        now - cached_at < ttl
    })
}

/// Reports whether a cached artifact is still fresh under the cache policy.
pub fn fresh(cached_at: i128, cache: &CacheConfig, k: Kind, now: i128) -> (r: bool)
    requires
        valid_instant(cached_at as int),
        valid_instant(now as int),
    ensures
        r == is_fresh(*cache, k, cached_at as int, now as int),
{
    if !cache.enabled {
        return false;
    }
    let ttl: i128 = match k {
        Kind::Metadata => span(cache.metadata_ttl),
        Kind::Artifact => span(cache.artifact_ttl),
    };
    if ttl == 0 {
        return k == Kind::Artifact;
    }
    now - cached_at < ttl
}

/// Whether a fetch is still needed: one that waited behind another may find that the
/// other has filled the cache meanwhile.
pub fn still_needed(found: Lookup, cache: &CacheConfig, k: Kind, now: i128) -> (r: bool)
    requires
        valid_instant(now as int),
        found matches Lookup::Found(art) ==> dated(*art),
    ensures
        r == !(found matches Lookup::Found(art) && is_fresh(
            *cache,
            k,
            art.cached_at as int,
            now as int,
        )),
{
    match found {
        Lookup::Found(art) => !fresh(art.cached_at, cache, k, now),
        _ => true,
    }
}

/// What is stale stays stale until it is fetched again.
pub proof fn stale_stays_stale(cache: CacheConfig, k: Kind, cached_at: int, now: int, later: int)
    requires
        now <= later,
        !is_fresh(cache, k, cached_at, now),
    ensures
        !is_fresh(cache, k, cached_at, later),
{
}

/// An artifact without a limit is served from the cache for good, while a metadata
/// document without one is asked for every time.
pub proof fn artifacts_without_a_limit_stay_fresh(cache: CacheConfig, cached_at: int, now: int)
    requires
        cache.enabled,
    ensures
        span_of(cache.artifact_ttl) == 0 ==> is_fresh(cache, Kind::Artifact, cached_at, now),
        span_of(cache.metadata_ttl) == 0 ==> !is_fresh(cache, Kind::Metadata, cached_at, now),
{
}

/// A repository without a cache never serves what it once stored as fresh.
pub proof fn nothing_is_fresh_without_a_cache(cache: CacheConfig, k: Kind, cached_at: int, now: int)
    requires
        !cache.enabled,
    ensures
        !is_fresh(cache, k, cached_at, now),
{
}

/// Whether the last access of an artifact is old enough to be written again.
pub fn needs_touch(last_accessed_at: i128, now: i128) -> (r: bool)
    requires
        valid_instant(last_accessed_at as int),
        valid_instant(now as int),
    ensures
        r == (now - last_accessed_at >= TOUCH_INTERVAL),
{
    !(now - last_accessed_at < TOUCH_INTERVAL)
}

/// The number of bytes that a rendered document of `n` bytes reserves: at least one,
/// and never more than the whole budget.
pub fn render_reservation(n: i64) -> (r: u32)
    ensures
        1 <= r <= MAX_INFLIGHT_RENDER_BYTES,
        1 <= n <= MAX_INFLIGHT_RENDER_BYTES ==> r == n,
        n < 1 ==> r == 1,
        n > MAX_INFLIGHT_RENDER_BYTES ==> r == MAX_INFLIGHT_RENDER_BYTES,
{
    if n < 1 {
        1
    } else if n > MAX_INFLIGHT_RENDER_BYTES {
        MAX_INFLIGHT_RENDER_BYTES as u32
    } else {
        n as u32
    }
}

/// Whether a repository of this size is trimmed. OCI repositories are exempt: to
/// evict a layer from under a manifest would break an image.
pub fn over_limit(format: &str, max_size_bytes: i64, size: i64) -> (r: bool)
    ensures
        r == (format@ != FORMAT_OCI@ && max_size_bytes > 0 && size > max_size_bytes),
{
    !same(format, FORMAT_OCI) && max_size_bytes > 0 && size > max_size_bytes
}

/// Whether another round of eviction follows: the last one dropped something, the
/// cache is still over its limit, and the rounds are not used up.
pub fn evict_again(rounds: usize, evicted: Option<i64>, size: Option<i64>, max: i64) -> (r: bool)
    ensures
        r == (rounds < EVICT_ROUNDS && evicted is Some && evicted->0 > 0 && size is Some && size->0
            > max),
{
    rounds < EVICT_ROUNDS && match evicted {
        Some(n) => n > 0,
        None => false,
    } && match size {
        Some(n) => n > max,
        None => false,
    }
}

// ---------------------------------------------------------------------------
// Serving

/// What the store knows of a path.
pub enum Lookup<'a> {
    Found(&'a Artifact),
    Missing,
    Failed,
}

/// What becomes of a request.
pub enum ServeStep {
    /// Answer it.
    Answer(Reply),
    /// Ask the final gate, and serve the stored artifact where it lets it pass.
    Serve {
        /// The artifact comes out of the cache of a proxy.
        hit: bool,
        /// Its last access is written again.
        touch: bool,
    },
    /// Fetch it from the upstream.
    Fetch,
}

/// What becomes of a request, without its text.
pub ghost enum Step {
    Answer(Answer),
    Serve { hit: bool, touch: bool },
    Fetch,
}

impl View for ServeStep {
    type V = Step;

    open spec fn view(&self) -> Step {
        match self {
            ServeStep::Answer(r) => Step::Answer(r@),
            ServeStep::Serve { hit, touch } => Step::Serve { hit: *hit, touch: *touch },
            ServeStep::Fetch => Step::Fetch,
        }
    }
}

/// The answer to what the age policy blocks.
pub open spec fn age_answer() -> Answer {
    answer(NOT_FOUND, "blocked by age policy"@)
}

/// The age policy refuses the release.
pub open spec fn age_blocks(cfg: AgePolicyConfig, published: Option<Stamp>, now: int) -> bool {
    age_decision(cfg, published, now).0 == AgeDecision::Block
}

/// Whether the age policy refuses the release.
pub fn eval_age(cfg: &AgePolicyConfig, published: Option<Stamp>, now: i128) -> (r: bool)
    requires
        valid_instant(now as int),
        published is Some ==> published->0.wf(),
    ensures
        r == age_blocks(*cfg, published, now as int),
{
    let (decision, _reason) = evaluate_age(cfg, published, now);
    decision == AgeDecision::Block
}

/// Evaluates the age policy and, when blocking, returns the answer to send.
pub fn age_gate(cfg: &AgePolicyConfig, published: Option<Stamp>, now: i128) -> (r: Option<Reply>)
    requires
        valid_instant(now as int),
        published is Some ==> published->0.wf(),
    ensures
        match r {
            Some(reply) => age_blocks(*cfg, published, now as int) && reply@ == age_answer(),
            None => !age_blocks(*cfg, published, now as int),
        },
{
    if eval_age(cfg, published, now) {
        Some(http_error(NOT_FOUND, "blocked by age policy"))
    } else {
        None
    }
}

/// The instants of an artifact are instants.
pub open spec fn dated(art: Artifact) -> bool {
    &&& valid_instant(art.cached_at as int)
    &&& valid_instant(art.last_accessed_at as int)
    &&& art.published_at is Some ==> art.published_at->0.wf()
}

/// The stored artifact answers the request: a hosted repository is authoritative, a
/// proxy serves what is fresh.
pub open spec fn servable(
    kind: RepoType,
    cache: CacheConfig,
    k: Kind,
    art: Artifact,
    now: int,
) -> bool {
    kind == RepoType::Hosted || is_fresh(cache, k, art.cached_at as int, now)
}

/// What becomes of a request for a path of which the store knows `found`; `missing`
/// tells that the path was lately missing upstream.
pub open spec fn serve_step(
    kind: RepoType,
    cache: CacheConfig,
    age: AgePolicyConfig,
    k: Kind,
    found: Lookup,
    missing: bool,
    now: int,
) -> Step {
    let absent = if kind == RepoType::Hosted || missing {
        Step::Answer(answer(NOT_FOUND, "404 page not found"@))
    } else {
        Step::Fetch
    };
    match found {
        Lookup::Found(art) => if servable(kind, cache, k, *art, now) {
            if age_blocks(age, art.published_at, now) {
                Step::Answer(age_answer())
            } else {
                Step::Serve {
                    hit: kind == RepoType::Proxy,
                    touch: now - art.last_accessed_at >= TOUCH_INTERVAL,
                }
            }
        } else {
            absent
        },
        Lookup::Failed => Step::Answer(answer(INTERNAL_SERVER_ERROR, "metadata error"@)),
        Lookup::Missing => absent,
    }
}

/// Nothing here answers a request, so that the upstream would have to.
pub open spec fn asks_upstream(
    kind: RepoType,
    cache: CacheConfig,
    k: Kind,
    found: Lookup,
    now: int,
) -> bool {
    kind != RepoType::Hosted && match found {
        Lookup::Found(art) => !servable(kind, cache, k, *art, now),
        Lookup::Missing => true,
        Lookup::Failed => false,
    }
}

/// The set without the entry of `key`, where that has run out.
pub open spec fn swept(m: Map<Seq<char>, i128>, key: Seq<char>, now: int) -> Map<Seq<char>, i128> {
    if live(m, key, now) {
        m
    } else {
        m.remove(key)
    }
}

/// How a miss goes on to the upstream.
pub enum FetchStep {
    /// The upstream asked for rest: answer here.
    Cooling(Reply),
    /// Stream the upstream's answer through.
    Passthrough,
    /// Fetch and store, once for all who wait for it.
    Coalesce,
}

/// The upstream has asked to be left alone on `key`, and the rest is not over.
pub open spec fn resting(cool: Map<Seq<char>, i128>, key: Seq<char>, now: int) -> bool {
    cool.contains_key(key) && cool[key] > now
}

/// The answer that asks the client to come back.
pub open spec fn retry_answer(status: u16, retry_after: Seq<char>) -> Answer {
    Answer {
        status: if status == TOO_MANY_REQUESTS {
            status
        } else {
            SERVICE_UNAVAILABLE
        },
        message: "upstream rate-limited, retry later"@,
        retry_after: if retry_after.len() == 0 || !is_header_value(retry_after) {
            None
        } else {
            Some(retry_after)
        },
    }
}

/// Tells the client to back off, relaying the upstream's status (429 or 503) and a
/// hint, so that build tools wait instead of hammering.
pub fn write_retry(status: u16, retry_after: &str) -> (r: Reply)
    ensures
        r@ == retry_answer(status, retry_after@),
{
    let status = if status != TOO_MANY_REQUESTS && status != SERVICE_UNAVAILABLE {
        SERVICE_UNAVAILABLE
    } else {
        status
    };
    let mut reply = http_error(status, "upstream rate-limited, retry later");
    if retry_after.unicode_len() != 0 && header_value_ok(retry_after) {
        reply.retry_after = Some(retry_after.to_owned());
    }
    reply
}

/// What an upstream answered: its status, its headers as far as they matter, and the
/// release time read from them.
pub struct UpstreamReply {
    pub status: u16,
    /// The `Retry-After` header; empty where there is none.
    pub retry_after: String,
    /// The `Content-Type` header; empty where there is none.
    pub content_type: String,
    pub published: Option<Stamp>,
}

/// What a status says of a fetch.
#[derive(Debug, Clone, Copy, PartialEq, Eq, Structural)]
pub enum StatusClass {
    Good,
    Missing,
    Limited,
    Bad,
}

/// What a status says of a fetch.
pub open spec fn status_class(status: u16) -> StatusClass {
    if status == NOT_FOUND {
        StatusClass::Missing
    } else if status == TOO_MANY_REQUESTS || status == SERVICE_UNAVAILABLE {
        StatusClass::Limited
    } else if 200 <= status < 300 {
        StatusClass::Good
    } else {
        StatusClass::Bad
    }
}

/// What a status says of a fetch.
pub fn classify_status(status: u16) -> (r: StatusClass)
    ensures
        r == status_class(status),
{
    if status == NOT_FOUND {
        StatusClass::Missing
    } else if status == TOO_MANY_REQUESTS || status == SERVICE_UNAVAILABLE {
        StatusClass::Limited
    } else if 200 <= status && status < 300 {
        StatusClass::Good
    } else {
        StatusClass::Bad
    }
}

/// The outcome of a fetch that the upstream answered with `reply`; nothing where the
/// body is to be stored first.
pub open spec fn upstream_outcome(
    reply: UpstreamReply,
    age: AgePolicyConfig,
    now: int,
) -> Option<(FetchKind, u16, Seq<char>)> {
    match status_class(reply.status) {
        StatusClass::Missing => Some((FetchKind::NotFound, 0u16, ""@)),
        StatusClass::Limited => Some(
            (
                FetchKind::Retry,
                reply.status,
                decimal(whole_seconds(cooldown(reply.retry_after@, now))),
            ),
        ),
        StatusClass::Bad => Some((FetchKind::Error, 0u16, ""@)),
        StatusClass::Good => if age_blocks(age, reply.published, now) {
            Some((FetchKind::AgeBlocked, 0u16, ""@))
        } else {
            None
        },
    }
}

/// The content type under which a fetched body is kept: the one that the format
/// gives, or else the upstream's.
pub open spec fn stored_type(own: Seq<char>, upstream: Seq<char>) -> Seq<char> {
    if own.len() == 0 {
        upstream
    } else {
        own
    }
}

/// What becomes of an upstream's answer.
pub enum FetchVerdict {
    /// Store or stream the body under this content type.
    Take(String),
    /// The fetch is over.
    Over(FetchOutcome),
}

/// What becomes of an upstream's answer that is streamed through.
pub enum StreamVerdict {
    /// Ask the final gate, and stream the body under this content type.
    Stream(String),
    /// Answer the client.
    Answer(Reply),
}

/// The coordinates that an upstream lately had nothing for, and those that it asked
/// to be left alone.
pub struct Engine {
    pub neg: NegCache,
    pub cool: NegCache,
}

/// The key of a path in the two sets.
pub open spec fn key_of(repo: Seq<char>, path: Seq<char>) -> Seq<char> {
    repo + "/"@ + path
}

/// The key of a path in the two sets.
pub fn cache_key(repo: &str, path: &str) -> (r: String)
    ensures
        r@ == key_of(repo@, path@),
{
    let mut key = cat(repo, "/");
    key.append(path);
    key
}

impl Engine {
    /// Both sets are well-formed, and no cooldown is longer than the longest.
    pub open spec fn wf(&self) -> bool {
        &&& self.neg.wf()
        &&& self.cool.wf()
        &&& forall|k: Seq<char>| #[trigger]
            self.cool@.contains_key(k) ==> self.cool@[k] <= INSTANT_LIMIT + MAX_UPSTREAM_COOLDOWN
    }

    /// Nothing is known to be missing, and nothing rests.
    pub fn new() -> (r: Engine)
        ensures
            r.wf(),
            r.neg@ == Map::<Seq<char>, i128>::empty(),
            r.cool@ == Map::<Seq<char>, i128>::empty(),
    {
        Engine { neg: NegCache::new(), cool: NegCache::new() }
    }

    /// Handles a GET or HEAD for a repository path.
    pub fn serve(
        &mut self,
        key: &str,
        kind: RepoType,
        cache: &CacheConfig,
        age: &AgePolicyConfig,
        k: Kind,
        found: Lookup,
        now: i128,
    ) -> (r: ServeStep)
        requires
            old(self).wf(),
            valid_instant(now as int),
            found matches Lookup::Found(art) ==> dated(*art),
        ensures
            final(self).wf(),
            final(self).cool@ == old(self).cool@,
            r@ == serve_step(
                kind,
                *cache,
                *age,
                k,
                found,
                live(old(self).neg@, key@, now as int),
                now as int,
            ),
            final(self).neg@ == (if asks_upstream(kind, *cache, k, found, now as int) {
                swept(old(self).neg@, key@, now as int)
            } else {
                old(self).neg@
            }),
    {
        match found {
            Lookup::Found(art) => {
                if kind == RepoType::Hosted || fresh(art.cached_at, cache, k, now) {
                    if let Some(reply) = age_gate(age, art.published_at, now) {
                        return ServeStep::Answer(reply);
                    }
                    return ServeStep::Serve {
                        hit: kind == RepoType::Proxy,
                        touch: needs_touch(art.last_accessed_at, now),
                    };
                }
            },
            Lookup::Failed => {
                return ServeStep::Answer(http_error(INTERNAL_SERVER_ERROR, "metadata error"));
            },
            Lookup::Missing => {},
        }
        if kind == RepoType::Hosted {
            return ServeStep::Answer(not_found());
        }
        if self.neg.has(key, now) {
            return ServeStep::Answer(not_found());
        }
        ServeStep::Fetch
    }

    /// Decides how a miss goes on to the upstream. While the upstream rests, the
    /// client is answered here, with the time that is left.
    pub fn fetch_and_serve(&mut self, key: &str, cache_enabled: bool, now: i128) -> (r: FetchStep)
        requires
            old(self).wf(),
            valid_instant(now as int),
        ensures
            final(self).wf(),
            final(self).neg@ == old(self).neg@,
            match r {
                FetchStep::Cooling(reply) => {
                    &&& resting(old(self).cool@, key@, now as int)
                    &&& reply@ == retry_answer(
                        SERVICE_UNAVAILABLE,
                        decimal(whole_seconds(old(self).cool@[key@] - now)),
                    )
                    &&& final(self).cool@ == old(self).cool@
                },
                FetchStep::Passthrough => !cache_enabled && !resting(
                    old(self).cool@,
                    key@,
                    now as int,
                ) && final(self).cool@ == old(self).cool@.remove(key@),
                FetchStep::Coalesce => cache_enabled && !resting(
                    old(self).cool@,
                    key@,
                    now as int,
                ) && final(self).cool@ == old(self).cool@.remove(key@),
            },
    {
        if let Some(d) = self.cool.remaining(key, now) {
            let hint = retry_after_seconds(d);
            return FetchStep::Cooling(write_retry(SERVICE_UNAVAILABLE, hint.as_str()));
        }
        if !cache_enabled {
            return FetchStep::Passthrough;
        }
        FetchStep::Coalesce
    }

    /// Notes that the upstream asks for rest on `key`, and gives the hint for the
    /// client.
    pub fn cool_down(&mut self, key: &str, retry_after: &str, now: i128) -> (r: String)
        requires
            old(self).wf(),
            valid_instant(now as int),
        ensures
            final(self).wf(),
            final(self).neg@ == old(self).neg@,
            final(self).cool@ == old(self).cool@.insert(
                key@,
                (now + cooldown(retry_after@, now as int)) as i128,
            ),
            r@ == decimal(whole_seconds(cooldown(retry_after@, now as int))),
    {
        let ghost before = self.cool@;
        let d = parse_retry_after(retry_after, now);
        self.cool.set(key, d, now);
        proof {
            assert forall|k: Seq<char>| #[trigger] self.cool@.contains_key(k) implies self.cool@[k]
                <= INSTANT_LIMIT + MAX_UPSTREAM_COOLDOWN by {
                if k != key@ {
                    assert(before.contains_key(k));
                }
            }
        }
        retry_after_seconds(d)
    }

    /// Judges what the upstream answered to a fetch that is to be stored. A missing
    /// path is remembered, and so is a request for rest.
    pub fn fetch_and_store(
        &mut self,
        key: &str,
        reply: &UpstreamReply,
        own_type: &str,
        negative_ttl: i64,
        age: &AgePolicyConfig,
        now: i128,
    ) -> (r: FetchVerdict)
        requires
            old(self).wf(),
            valid_instant(now as int),
            reply.published is Some ==> reply.published->0.wf(),
        ensures
            final(self).wf(),
            match r {
                FetchVerdict::Take(ct) => upstream_outcome(*reply, *age, now as int) is None && ct@
                    == stored_type(own_type@, reply.content_type@),
                FetchVerdict::Over(o) => upstream_outcome(*reply, *age, now as int) == Some(
                    (o.kind, o.status, o.retry_after@),
                ),
            },
            final(self).neg@ == if status_class(reply.status) == StatusClass::Missing && span_of(
                negative_ttl,
            ) > 0 {
                old(self).neg@.insert(key@, (now + span_of(negative_ttl)) as i128)
            } else {
                old(self).neg@
            },
            final(self).cool@ == if status_class(reply.status) == StatusClass::Limited {
                old(self).cool@.insert(
                    key@,
                    (now + cooldown(reply.retry_after@, now as int)) as i128,
                )
            } else {
                old(self).cool@
            },
    {
        match classify_status(reply.status) {
            StatusClass::Missing => {
                self.neg.set(key, span(negative_ttl), now);
                FetchVerdict::Over(FetchOutcome::plain(FetchKind::NotFound))
            },
            StatusClass::Limited => {
                let hint = self.cool_down(key, reply.retry_after.as_str(), now);
                FetchVerdict::Over(
                    FetchOutcome {
                        kind: FetchKind::Retry,
                        status: reply.status,
                        retry_after: hint,
                    },
                )
            },
            StatusClass::Bad => FetchVerdict::Over(FetchOutcome::error()),
            StatusClass::Good => {
                if eval_age(age, reply.published, now) {
                    return FetchVerdict::Over(FetchOutcome::plain(FetchKind::AgeBlocked));
                }
                FetchVerdict::Take(content_type_for(own_type, reply.content_type.as_str()))
            },
        }
    }

    /// Judges what the upstream answered to a fetch that is streamed through.
    pub fn fetch_passthrough(
        &mut self,
        key: &str,
        reply: &UpstreamReply,
        own_type: &str,
        age: &AgePolicyConfig,
        now: i128,
    ) -> (r: StreamVerdict)
        requires
            old(self).wf(),
            valid_instant(now as int),
            reply.published is Some ==> reply.published->0.wf(),
        ensures
            final(self).wf(),
            final(self).neg@ == old(self).neg@,
            match r {
                StreamVerdict::Stream(ct) => upstream_outcome(*reply, *age, now as int) is None
                    && ct@ == stored_type(own_type@, reply.content_type@),
                StreamVerdict::Answer(a) => {
                    &&& upstream_outcome(*reply, *age, now as int) is Some
                    &&& Some(a@) == outcome_answer(upstream_outcome(*reply, *age, now as int)->0)
                },
            },
            final(self).cool@ == if status_class(reply.status) == StatusClass::Limited {
                old(self).cool@.insert(
                    key@,
                    (now + cooldown(reply.retry_after@, now as int)) as i128,
                )
            } else {
                old(self).cool@
            },
    {
        match classify_status(reply.status) {
            StatusClass::Missing => StreamVerdict::Answer(not_found()),
            StatusClass::Limited => {
                let hint = self.cool_down(key, reply.retry_after.as_str(), now);
                StreamVerdict::Answer(write_retry(reply.status, hint.as_str()))
            },
            StatusClass::Bad => StreamVerdict::Answer(http_error(BAD_GATEWAY, "upstream error")),
            StatusClass::Good => {
                if let Some(a) = age_gate(age, reply.published, now) {
                    return StreamVerdict::Answer(a);
                }
                StreamVerdict::Stream(content_type_for(own_type, reply.content_type.as_str()))
            },
        }
    }

    /// Notes that `path` has been uploaded: it is no longer missing.
    pub fn uploaded(&mut self, repo: &str, path: &str)
        requires
            old(self).wf(),
        ensures
            final(self).wf(),
            final(self).cool@ == old(self).cool@,
            final(self).neg@ == old(self).neg@.remove(key_of(repo@, path@)),
    {
        let key = cache_key(repo, path);
        self.neg.clear(key.as_str());
    }
}

fn content_type_for(own: &str, upstream: &str) -> (r: String)
    ensures
        r@ == stored_type(own@, upstream@),
{
    if own.unicode_len() == 0 {
        upstream.to_owned()
    } else {
        own.to_owned()
    }
}

/// The answer that an outcome of a fetch gives; nothing where the artifact is stored
/// and is to be served.
pub open spec fn outcome_answer(o: (FetchKind, u16, Seq<char>)) -> Option<Answer> {
    match o.0 {
        FetchKind::Stored => None,
        FetchKind::NotFound => Some(answer(NOT_FOUND, "404 page not found"@)),
        FetchKind::AgeBlocked => Some(age_answer()),
        FetchKind::Retry => Some(retry_answer(o.1, o.2)),
        FetchKind::Error => Some(answer(BAD_GATEWAY, "upstream error"@)),
    }
}

/// Renders the outcome of a fetch for one of those who waited for it; nothing where
/// the artifact is stored and is to be served.
pub fn render_outcome(o: &FetchOutcome) -> (r: Option<Reply>)
    ensures
        match r {
            Some(a) => outcome_answer((o.kind, o.status, o.retry_after@)) == Some(a@),
            None => outcome_answer((o.kind, o.status, o.retry_after@)) is None,
        },
{
    match o.kind {
        FetchKind::Stored => None,
        FetchKind::NotFound => Some(not_found()),
        FetchKind::AgeBlocked => Some(http_error(NOT_FOUND, "blocked by age policy")),
        FetchKind::Retry => Some(write_retry(o.status, o.retry_after.as_str())),
        FetchKind::Error => Some(http_error(BAD_GATEWAY, "upstream error")),
    }
}

/// The answer of a fetch that could not reach the upstream.
pub fn unreachable_upstream() -> (r: Reply)
    ensures
        r@ == answer(BAD_GATEWAY, "upstream unreachable"@),
{
    http_error(BAD_GATEWAY, "upstream unreachable")
}

/// The answer where a stored artifact cannot be read back.
pub fn cache_read_failed() -> (r: Reply)
    ensures
        r@ == answer(INTERNAL_SERVER_ERROR, "cache read failed"@),
{
    http_error(INTERNAL_SERVER_ERROR, "cache read failed")
}

// ---------------------------------------------------------------------------
// Artifacts

/// The answer that carries an artifact.
pub struct ArtifactReply {
    pub status: u16,
    pub content_type: Option<String>,
    pub etag: Option<String>,
    pub content_length: Option<String>,
    /// The body is sent.
    pub body: bool,
    /// The number of bytes that the client is handed.
    pub bytes: i64,
}

/// The entity tag of bytes with the digest `sha`.
pub open spec fn tag_of(sha: Seq<char>) -> Seq<char> {
    "\""@ + sha + "\""@
}

/// The header of this value, where it can stand in one.
pub open spec fn header_of(value: Seq<char>) -> Option<Seq<char>> {
    if is_header_value(value) {
        Some(value)
    } else {
        None
    }
}

fn header_if_valid(value: &str) -> (r: Option<String>)
    ensures
        opt_text(r) == header_of(value@),
{
    if header_value_ok(value) {
        Some(value.to_owned())
    } else {
        None
    }
}

/// Builds the answer that carries a stored artifact of `size` bytes. A client that
/// names the entity tag is told that nothing changed.
pub fn serve_artifact(
    content_type: &str,
    sha: &str,
    size: i64,
    if_none_match: &str,
    head: bool,
) -> (r: ArtifactReply)
    ensures
        opt_text(r.content_type) == if content_type@.len() == 0 {
            None
        } else {
            header_of(content_type@)
        },
        opt_text(r.etag) == header_of(tag_of(sha@)),
        if if_none_match@ == tag_of(sha@) {
            r.status == 304 && r.content_length is None && !r.body && r.bytes == 0
        } else {
            &&& r.status == OK
            &&& opt_text(r.content_length) == Some(decimal(size as int))
            &&& r.body == !head
            &&& r.bytes == if head {
                0
            } else {
                size
            }
        },
{
    let mut tag = cat("\"", sha);
    tag.append("\"");
    let content_type = if content_type.unicode_len() == 0 {
        None
    } else {
        header_if_valid(content_type)
    };
    let etag = header_if_valid(tag.as_str());
    if same(if_none_match, tag.as_str()) {
        return ArtifactReply {
            status: 304,
            content_type,
            etag,
            content_length: None,
            body: false,
            bytes: 0,
        };
    }
    ArtifactReply {
        status: OK,
        content_type,
        etag,
        content_length: Some(itoa(size)),
        body: !head,
        bytes: if head {
            0
        } else {
            size
        },
    }
}

/// The answer where the bytes of an artifact are gone.
pub fn blob_missing() -> (r: Reply)
    ensures
        r@ == answer(INTERNAL_SERVER_ERROR, "blob missing"@),
{
    http_error(INTERNAL_SERVER_ERROR, "blob missing")
}

/// The name under which a repository is counted: its id where no name is at hand.
pub fn repo_label(repo_id: i64, repo_name: &str) -> (r: String)
    ensures
        r@ == if repo_name@.len() == 0 {
            "id:"@ + decimal(repo_id as int)
        } else {
            repo_name@
        },
{
    if repo_name.unicode_len() == 0 {
        let id = itoa(repo_id);
        cat("id:", id.as_str())
    } else {
        repo_name.to_owned()
    }
}

/// The record of an artifact that has just been stored.
pub fn stored_artifact(
    repo_id: i64,
    path: &str,
    version: &str,
    content_type: &str,
    digest: &str,
    size: i64,
    published: Option<Stamp>,
    username: &str,
    now: i128,
) -> (r: Artifact)
    requires
        valid_instant(now as int),
        published is Some ==> published->0.wf(),
    ensures
        r.repo_id == repo_id,
        r.path@ == path@,
        r.version@ == version@,
        r.blob_sha256@ == digest@,
        r.size == size,
        r.content_type@ == content_type@,
        r.artifact_role@ == ""@,
        r.published_at == published,
        r.cached_at == now,
        r.last_accessed_at == now,
        r.cached_by@ == username@,
        dated(r),
{
    Artifact {
        repo_id,
        path: path.to_owned(),
        version: version.to_owned(),
        blob_sha256: digest.to_owned(),
        size,
        content_type: content_type.to_owned(),
        artifact_role: "".to_owned(),
        published_at: published,
        cached_at: now,
        last_accessed_at: now,
        cached_by: username.to_owned(),
    }
}

// ---------------------------------------------------------------------------
// Laws

/// A missing path is not asked for again until the memory of it runs out: what a
/// fetch of `key` left behind answers every request in that time with "not found".
pub proof fn missing_is_answered_here(
    before: Map<Seq<char>, i128>,
    key: Seq<char>,
    negative_ttl: i64,
    set_at: i128,
    now: int,
    kind: RepoType,
    cache: CacheConfig,
    age: AgePolicyConfig,
    k: Kind,
)
    requires
        valid_instant(set_at as int),
        span_of(negative_ttl) > 0,
        now <= set_at + span_of(negative_ttl),
    ensures
        serve_step(
            kind,
            cache,
            age,
            k,
            Lookup::Missing,
            live(before.insert(key, (set_at + span_of(negative_ttl)) as i128), key, now),
            now,
        ) == Step::Answer(answer(NOT_FOUND, "404 page not found"@)),
{
}

/// A hosted repository is authoritative: what it has is served, whatever the cache
/// settings say, and what it lacks is never asked for elsewhere.
pub proof fn hosted_repositories_are_authoritative(
    cache: CacheConfig,
    age: AgePolicyConfig,
    k: Kind,
    art: Artifact,
    missing: bool,
    now: int,
)
    ensures
        !age_blocks(age, art.published_at, now) ==> serve_step(
            RepoType::Hosted,
            cache,
            age,
            k,
            Lookup::Found(&art),
            missing,
            now,
        ) is Serve,
        forall|found: Lookup| #[trigger]
            serve_step(RepoType::Hosted, cache, age, k, found, missing, now) != Step::Fetch,
{
}

/// An upstream that asks for rest is left alone on that path for the whole of its
/// cooldown, which is never shorter than the default and never longer than the cap;
/// then it is asked again.
pub proof fn limited_upstream_is_left_alone(
    before: Map<Seq<char>, i128>,
    key: Seq<char>,
    retry_after: Seq<char>,
    at: i128,
    now: int,
)
    requires
        valid_instant(at as int),
    ensures
        now < at + DEFAULT_UPSTREAM_COOLDOWN ==> resting(
            before.insert(key, (at + cooldown(retry_after, at as int)) as i128),
            key,
            now,
        ),
        resting(before.insert(key, (at + cooldown(retry_after, at as int)) as i128), key, now)
            <==> now < at + cooldown(retry_after, at as int),
        now >= at + MAX_UPSTREAM_COOLDOWN ==> !resting(
            before.insert(key, (at + cooldown(retry_after, at as int)) as i128),
            key,
            now,
        ),
{
}

/// Every one who waited for a fetch is given what the fetch gave, and only a stored
/// artifact is served.
pub proof fn only_stored_artifacts_are_served(o: (FetchKind, u16, Seq<char>))
    ensures
        outcome_answer(o) is None <==> o.0 == FetchKind::Stored,
{
}

/// What the age policy blocks is answered alike, whether it comes out of the store
/// or from the upstream.
pub proof fn age_blocks_alike(
    kind: RepoType,
    cache: CacheConfig,
    age: AgePolicyConfig,
    k: Kind,
    art: Artifact,
    reply: UpstreamReply,
    missing: bool,
    now: int,
)
    requires
        art.published_at == reply.published,
        servable(kind, cache, k, art, now),
        status_class(reply.status) == StatusClass::Good,
        age_blocks(age, reply.published, now),
    ensures
        serve_step(kind, cache, age, k, Lookup::Found(&art), missing, now) == Step::Answer(
            age_answer(),
        ),
        upstream_outcome(reply, age, now) is Some,
        outcome_answer(upstream_outcome(reply, age, now)->0) == Some(age_answer()),
{
}

} // verus!
