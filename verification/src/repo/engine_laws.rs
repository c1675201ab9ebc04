//! What the functions that serve do, step by step: what they answer, what they remember, and
//! what they leave alone.

use vstd::prelude::*;
use vstd::utf8::encode_utf8;

use crate::bridge::{header_fields, is_header_value, url_joined};
use crate::config::{AgePolicyConfig, CacheConfig, UpstreamAuthConfig};
use crate::json::{object_text, RawObject};
use crate::meta::RepoType;
use crate::repo::agepolicy::{age_decision, AgeDecision};
use crate::repo::cargo::{
    cargo_content_type, cargo_kind, cargo_package, cargo_package_of, cargo_type_of, cargo_version,
    cargo_version_of,
};
use crate::repo::engine::{
    age_gate, eval_age, render_outcome, still_needed, write_retry, Engine, FetchKind, FetchOutcome,
    FetchStep, FetchVerdict, Kind, Lookup, ServeStep, StreamVerdict, UpstreamReply,
};
use crate::repo::gomod::{
    go_content_type, go_kind, go_package, go_package_of, go_type_of, go_version, go_version_of,
    handle_go,
};
use crate::repo::group::{uri_with_repo, GroupWalk, WalkStep};
use crate::repo::group_metadata::{bodies, with_repo};
use crate::repo::maven::{
    handle_maven, maven_content_type, maven_kind, maven_package, maven_package_of, maven_type_of,
    maven_version, maven_version_of,
};
use crate::repo::merge::{merge_npm_group, npm_group_map};
use crate::repo::negcache::NegCache;
use crate::repo::npm::{
    cooldown_of, decode_npm_path, decoded_path, held_count, members_of, npm_package, npm_version,
    package_of, packument_versions, rewrite_packument_top, rewritten_packument, version_of, Target,
};
use crate::repo::npm_serve::{
    npm_packument, npm_packument_passthrough, npm_route, tarball_package_path, NpmRoute,
    PackumentStep,
};
use crate::repo::npm_tag_laws::requests_ask_for_what_they_name;
use crate::repo::path::{base_name, joined};
use crate::repo::path_laws::lemma_cut_behind;
use crate::repo::reply::{Method, Reply};
use crate::repo::route::{Plan, ReleaseSource};
use crate::repo::upstream::{
    cooldown, custom_header, new_upstream_request, request_headers, Fetch, FetchMove,
};
use crate::text::{contains_seq, decimal, ends, i64_value, opt_text, starts};
use crate::times::Stamp;

verus! {

// ---------------------------------------------------------------------------
// Paths

/// Of a Go path the version list, the newest version and the information on a version are
/// metadata, and nothing else is.
pub proof fn go_paths_are_read(p: &str, k: Kind, pkg: String, version: String, kind: String)
    requires
        call_ensures(go_kind, (p,), k),
        call_ensures(go_package, (p,), pkg),
        call_ensures(go_version, (p,), version),
        call_ensures(go_content_type, (p,), kind),
    ensures
        ends(p@, "/@latest"@) ==> k == Kind::Metadata,
        ends(p@, "/@v/list"@) ==> k == Kind::Metadata,
        ends(p@, ".info"@) ==> k == Kind::Metadata,
        !ends(p@, "/@latest"@) && !ends(p@, "/@v/list"@) && !ends(p@, ".info"@) ==> k
            == Kind::Artifact,
        pkg@ == go_package_of(p@),
        version@ == go_version_of(p@),
        kind@ == go_type_of(p@),
{
}

/// Of a Maven path what is named as metadata, a checksum of it included, is metadata.
pub proof fn maven_paths_are_read(p: &str, k: Kind, pkg: String, version: String, kind: String)
    requires
        call_ensures(maven_kind, (p,), k),
        call_ensures(maven_package, (p,), pkg),
        call_ensures(maven_version, (p,), version),
        call_ensures(maven_content_type, (p,), kind),
    ensures
        starts(base_name(p@), "maven-metadata.xml"@) ==> k == Kind::Metadata,
        !starts(base_name(p@), "maven-metadata.xml"@) ==> k == Kind::Artifact,
        pkg@ == maven_package_of(p@),
        version@ == maven_version_of(p@),
        kind@ == maven_type_of(p@),
{
}

/// Of a Cargo path a download is a file, and everything else is metadata.
pub proof fn cargo_paths_are_read(p: &str, k: Kind, pkg: String, version: String, kind: String)
    requires
        call_ensures(cargo_kind, (p,), k),
        call_ensures(cargo_package, (p,), pkg),
        call_ensures(cargo_version, (p,), version),
        call_ensures(cargo_content_type, (p,), kind),
    ensures
        k == Kind::Artifact <==> contains_seq(p@, "api/v1/crates/"@) && ends(p@, "/download"@),
        pkg@ == cargo_package_of(p@),
        version@ == cargo_version_of(p@),
        kind@ == cargo_type_of(p@),
{
}

/// An npm path is decoded once, and names its package and version.
pub proof fn npm_paths_are_read(p: &str, path: String, pkg: String, version: String)
    requires
        call_ensures(decode_npm_path, (p,), path),
        call_ensures(npm_package, (p,), pkg),
        call_ensures(npm_version, (p,), version),
    ensures
        path@ == decoded_path(p@),
        pkg@ == package_of(p@),
        version@ == version_of(p@),
{
}

// ---------------------------------------------------------------------------
// Serving

/// A request never touches what rests; it forgets of its own key only what has run out, and
/// of no other key anything.
pub proof fn serving_leaves_other_keys_alone(
    s: &mut Engine,
    key: &str,
    kind: RepoType,
    cache: &CacheConfig,
    age: &AgePolicyConfig,
    k: Kind,
    found: Lookup,
    now: i128,
    r: ServeStep,
    other: Seq<char>,
)
    requires
        call_ensures(Engine::serve, (s, key, kind, cache, age, k, found, now), r),
        other != key@,
    ensures
        final(s).cool@ == old(s).cool@,
        final(s).neg@.contains_key(other) <==> old(s).neg@.contains_key(other),
        old(s).neg@.contains_key(other) ==> final(s).neg@[other] == old(s).neg@[other],
        old(s).neg@.contains_key(key@) && now <= old(s).neg@[key@] ==> final(s).neg@.contains_key(
            key@,
        ),
        kind == RepoType::Hosted ==> !(r is Fetch),
        r is Fetch ==> !(old(s).neg@.contains_key(key@) && now <= old(s).neg@[key@]),
        found is Failed ==> r is Answer && r->Answer_0.status == 500,
        found is Missing && kind == RepoType::Hosted ==> r is Answer && r->Answer_0.status == 404,
        r is Serve ==> found is Found,
{
}

/// While an upstream rests it is not asked: the client is told when to come again. When the
/// rest is over it is asked, and what is fetched is stored where the cache is on.
pub proof fn resting_upstreams_are_not_asked(
    s: &mut Engine,
    key: &str,
    enabled: bool,
    now: i128,
    r: FetchStep,
)
    requires
        call_ensures(Engine::fetch_and_serve, (s, key, enabled, now), r),
    ensures
        r is Cooling <==> old(s).cool@.contains_key(key@) && now < old(s).cool@[key@],
        r is Cooling ==> r->Cooling_0.status == 503,
        !(r is Cooling) && enabled ==> r is Coalesce,
        !(r is Cooling) && !enabled ==> r is Passthrough,
        final(s).neg@ == old(s).neg@,
{
}

/// What comes of a fetch that is stored: only a success is taken, a missing path is
/// remembered for its span, a request for rest is remembered for the time asked for, and
/// nothing else is.
pub proof fn fetches_are_judged(
    s: &mut Engine,
    key: &str,
    reply: &UpstreamReply,
    own: &str,
    ttl: i64,
    age: &AgePolicyConfig,
    now: i128,
    r: FetchVerdict,
)
    requires
        call_ensures(Engine::fetch_and_store, (s, key, reply, own, ttl, age, now), r),
    ensures
        r is Take ==> 200 <= reply.status <= 299 && age_decision(
            *age,
            reply.published,
            now as int,
        ).0 != AgeDecision::Block,
        200 <= reply.status <= 299 && age_decision(*age, reply.published, now as int).0
            != AgeDecision::Block ==> r is Take,
        reply.status == 404 ==> r is Over && r->Over_0.kind == FetchKind::NotFound,
        reply.status == 429 || reply.status == 503 ==> r is Over && r->Over_0.kind
            == FetchKind::Retry && r->Over_0.status == reply.status,
        reply.status < 200 || 300 <= reply.status < 400 || reply.status == 500 || reply.status == 403
            ==> r is Over && r->Over_0.kind == FetchKind::Error,
        r is Take && own@.len() > 0 ==> r->Take_0@ == own@,
        r is Take && own@.len() == 0 ==> r->Take_0@ == reply.content_type@,
        reply.status == 404 && ttl > 0 ==> final(s).neg@ == old(s).neg@.insert(
            key@,
            (now + ttl) as i128,
        ),
        reply.status != 404 || ttl <= 0 ==> final(s).neg@ == old(s).neg@,
        reply.status == 429 || reply.status == 503 ==> final(s).cool@ == old(s).cool@.insert(
            key@,
            (now + cooldown(reply.retry_after@, now as int)) as i128,
        ),
        reply.status != 429 && reply.status != 503 ==> final(s).cool@ == old(s).cool@,
{
}

/// What comes of a fetch that is streamed through: only a success is streamed, and every
/// other answer is given in its own words.
pub proof fn streams_are_judged(
    s: &mut Engine,
    key: &str,
    reply: &UpstreamReply,
    own: &str,
    age: &AgePolicyConfig,
    now: i128,
    r: StreamVerdict,
)
    requires
        call_ensures(Engine::fetch_passthrough, (s, key, reply, own, age, now), r),
    ensures
        r is Stream <==> 200 <= reply.status <= 299 && age_decision(
            *age,
            reply.published,
            now as int,
        ).0 != AgeDecision::Block,
        reply.status == 404 ==> r is Answer && r->Answer_0.status == 404,
        reply.status == 429 ==> r is Answer && r->Answer_0.status == 429,
        reply.status == 503 ==> r is Answer && r->Answer_0.status == 503,
        reply.status == 500 || reply.status == 403 || reply.status == 302 ==> r is Answer
            && r->Answer_0.status == 502,
        200 <= reply.status <= 299 && !(r is Stream) ==> r->Answer_0.status == 404
            && r->Answer_0.message@ == "blocked by age policy"@,
        final(s).neg@ == old(s).neg@,
        reply.status == 429 || reply.status == 503 ==> final(s).cool@ == old(s).cool@.insert(
            key@,
            (now + cooldown(reply.retry_after@, now as int)) as i128,
        ),
        reply.status != 429 && reply.status != 503 ==> final(s).cool@ == old(s).cool@,
{
    if r is Answer {
        assert(r->Answer_0@.status == r->Answer_0.status);
        assert(r->Answer_0@.message == r->Answer_0.message@);
    }
}

/// What was uploaded is no longer known to be missing; all else is as it was.
pub proof fn uploads_are_found(s: &mut Engine, repo: &str, path: &str, other: Seq<char>)
    requires
        call_ensures(Engine::uploaded, (s, repo, path), ()),
        other != repo@ + "/"@ + path@,
    ensures
        !final(s).neg@.contains_key(repo@ + "/"@ + path@),
        final(s).neg@.contains_key(other) <==> old(s).neg@.contains_key(other),
        final(s).cool@ == old(s).cool@,
{
}

/// A packument is rendered where it is hosted here or fresh; otherwise it is fetched, unless
/// it is known to be missing or its upstream rests.
pub proof fn packuments_are_rendered_or_fetched(
    s: &mut Engine,
    key: &str,
    kind: RepoType,
    cache: &CacheConfig,
    found: Lookup,
    now: i128,
    r: PackumentStep,
)
    requires
        call_ensures(npm_packument, (s, key, kind, cache, found, now), r),
    ensures
        r is Render ==> found is Found,
        found is Found && kind == RepoType::Hosted ==> r is Render,
        found is Found && kind != RepoType::Hosted && !cache.enabled ==> !(r is Render),
        found is Found && cache.enabled && cache.metadata_ttl > 0 && now
            - found->Found_0.cached_at < cache.metadata_ttl ==> r is Render,
        found is Found && kind != RepoType::Hosted && now - found->Found_0.cached_at
            >= cache.metadata_ttl ==> !(r is Render),
        found is Failed ==> r is Answer && r->Answer_0.status == 500,
        found is Missing && kind == RepoType::Hosted ==> r is Answer && r->Answer_0.status == 404,
        r is Passthrough ==> !cache.enabled && kind != RepoType::Hosted,
        r is Coalesce ==> cache.enabled && kind != RepoType::Hosted,
        r is Passthrough || r is Coalesce ==> !(old(s).neg@.contains_key(key@) && now <= old(
            s,
        ).neg@[key@]) && !(old(s).cool@.contains_key(key@) && now < old(s).cool@[key@]),
{
    if r is Answer {
        assert(r->Answer_0@.status == r->Answer_0.status);
    }
}

/// A packument that is not stored is rendered from a success only.
pub proof fn streamed_packuments_are_judged(
    s: &mut Engine,
    key: &str,
    status: u16,
    hint: &str,
    ttl: i64,
    now: i128,
    r: Option<Reply>,
)
    requires
        call_ensures(npm_packument_passthrough, (s, key, status, hint, ttl, now), r),
    ensures
        r is None <==> 200 <= status <= 299,
        status == 404 ==> r->0.status == 404,
        status == 429 ==> r->0.status == 429,
        status == 503 ==> r->0.status == 503,
        !(200 <= status <= 299) && status != 404 && status != 429 && status != 503
            ==> r->0.status == 502,
        status == 404 && ttl > 0 ==> final(s).neg@ == old(s).neg@.insert(key@, (now + ttl) as i128),
        status != 404 || ttl <= 0 ==> final(s).neg@ == old(s).neg@,
        status != 429 && status != 503 ==> final(s).cool@ == old(s).cool@,
{
    if r is Some {
        assert(r->0@.status == r->0.status);
    }
}

// ---------------------------------------------------------------------------
// Memory

/// A key is remembered until its span is over, and not a moment longer.
pub proof fn keys_are_remembered_for_their_span(
    s: &mut NegCache,
    key: &str,
    now: i128,
    r: bool,
    other: Seq<char>,
)
    requires
        call_ensures(NegCache::has, (s, key, now), r),
        other != key@,
    ensures
        r <==> old(s)@.contains_key(key@) && now <= old(s)@[key@],
        r ==> final(s)@ == old(s)@,
        !r ==> !final(s)@.contains_key(key@),
        final(s)@.contains_key(other) <==> old(s)@.contains_key(other),
{
}

/// A span of nought is not remembered; any other counts from now.
pub proof fn spans_count_from_now(s: &mut NegCache, key: &str, ttl: i128, now: i128)
    requires
        call_ensures(NegCache::set, (s, key, ttl, now), ()),
    ensures
        ttl == 0 ==> final(s)@ == old(s)@,
        0 < ttl <= i64::MAX ==> final(s)@ == old(s)@.insert(key@, (now + ttl) as i128),
{
}

/// What is left of a rest is the time until it is over.
pub proof fn rests_run_out(s: &mut NegCache, key: &str, now: i128, r: Option<i128>)
    requires
        call_ensures(NegCache::remaining, (s, key, now), r),
    ensures
        r is Some <==> old(s)@.contains_key(key@) && now < old(s)@[key@],
        r is Some ==> r->0 == old(s)@[key@] - now,
{
}

// ---------------------------------------------------------------------------
// Ways

/// A response that points elsewhere is followed, up to ten requests in all; every other one
/// is the answer.
pub proof fn redirects_are_followed(s: &mut Fetch, status: u16, location: Option<&str>, r: FetchMove)
    requires
        call_ensures(Fetch::step, (s, status, location), r),
    ensures
        status < 300 || status >= 400 ==> r is Done,
        location is None ==> r is Done,
        300 <= status < 400 && location is Some ==> !(r is Done),
        old(s).via@.len() >= 9 ==> !(r is Follow),
        300 <= status < 400 && location is Some && old(s).via@.len() < 9 && url_joined(
            old(s).next@,
            location->0@,
        ) is Ok ==> r is Follow && Ok::<Seq<char>, Seq<char>>(final(s).next@) == url_joined(
            old(s).next@,
            location->0@,
        ),
        r is Follow ==> final(s).via@ == old(s).via@.push(old(s).next),
{
}

/// A member that has nothing passes the request on; any other answer of a member is the
/// group's, and so it is not found where none has anything.
pub proof fn members_are_asked_in_turn(s: &mut GroupWalk, status: u16, r: WalkStep)
    requires
        call_ensures(GroupWalk::step, (s, status), r),
        old(s).wf(),
        old(s).asked < old(s).members,
    ensures
        status != 404 <==> r is Serve,
        status == 404 && old(s).asked + 1 < old(s).members ==> r is Ask && r->Ask_0 == old(s).asked
            + 1,
        status == 404 && old(s).asked + 1 == old(s).members ==> r is Answer && r->Answer_0.status
            == 404,
{
    let before = old(s).seen@;
    let after = final(s).seen@;
    assert(after == before.push(status));
    assert(after.drop_last() =~= before);
    assert(after.last() == status);
    if r is Answer {
        assert(r->Answer_0@.status == r->Answer_0.status);
    }
}

// ---------------------------------------------------------------------------
// Documents

/// A packument is rendered as its rewritten document says, and counts the versions that it
/// holds back.
pub proof fn rendered_packuments_are_the_rewritten(
    top: RawObject,
    base: &str,
    repo: &str,
    pkg: &str,
    age: &AgePolicyConfig,
    now: i128,
    r: Option<(Vec<u8>, usize, Option<Stamp>)>,
    body: Vec<u8>,
    removed: usize,
    until: Option<Stamp>,
)
    requires
        call_ensures(rewrite_packument_top, (top, base, repo, pkg, age, now), r),
        r == Some((body, removed, until)),
    ensures
        ({
            let t = Target { base: base@, repo: repo@, pkg: pkg@ };
            let doc = rewritten_packument(top.map(), *age, now as int, t);
            let vers = packument_versions(top.map())->0;
            let c = cooldown_of(top.map(), *age, now as int);
            &&& doc is Some && body@ == encode_utf8(object_text(members_of(doc->0)))
            &&& removed == held_count(vers, c)
            &&& !age.enabled || age.action@ != "block"@ ==> c.times == Map::<Seq<char>, Seq<char>>::empty()
            &&& age.min_age >= 0 ==> c.min_age == age.min_age
        }),
{
}

/// A merged packument is the document that its members make.
pub proof fn merged_packuments_are_of_their_members(
    values: &[&[u8]],
    r: Option<(Vec<u8>, String)>,
    body: Vec<u8>,
    kind: String,
)
    requires
        call_ensures(merge_npm_group, (values,), r),
        r == Some((body, kind)),
    ensures
        body@ == encode_utf8(object_text(members_of(npm_group_map(bodies(values@))))),
        kind@ == "application/json"@,
{
}

// ---------------------------------------------------------------------------
// Times

/// Outside leap seconds a time is its seconds and nanoseconds: ages, order and spans are
/// those of the count.
pub proof fn times_are_counted(s: Stamp, o: Stamp, d: int, now: int)
    requires
        s.wf(),
        o.wf(),
        s.nanos < 1_000_000_000,
        o.nanos < 1_000_000_000,
        0 <= d <= i64::MAX,
    ensures
        s.age(now) == now - (s.secs * 1_000_000_000 + s.nanos),
        s.before(o) <==> s.secs * 1_000_000_000 + s.nanos < o.secs * 1_000_000_000 + o.nanos,
        s.later(d).secs * 1_000_000_000 + s.later(d).nanos == s.secs * 1_000_000_000 + s.nanos + d,
        s.later(d).nanos < 1_000_000_000,
{
}

// ---------------------------------------------------------------------------
// Plans

/// A request to a Go or a Maven repository is planned by what its path says.
pub proof fn plans_follow_the_path(
    method: Method,
    kind: RepoType,
    upstream: &str,
    path: &str,
    go: Plan,
    maven: Plan,
)
    requires
        call_ensures(handle_go, (method, kind, upstream, path), go),
        call_ensures(handle_maven, (method, kind, upstream, path), maven),
    ensures
        go.pkg@ == go_package_of(path@) && go.version@ == go_version_of(path@),
        go.fetch@.path == path@ && go.fetch@.upstream_url == joined(upstream@, path@),
        ends(path@, "/@latest"@) ==> go.fetch@.kind == Kind::Metadata,
        go.fetch@.content_type == go_type_of(path@),
        go.fetch@.published == ReleaseSource::FileTime,
        maven.pkg@ == maven_package_of(path@) && maven.version@ == maven_version_of(path@),
        maven.fetch@.path == path@ && maven.fetch@.upstream_url == joined(upstream@, path@),
        starts(base_name(path@), "maven-metadata.xml"@) <==> maven.fetch@.kind == Kind::Metadata,
        maven.fetch@.content_type == maven_type_of(path@),
        maven.fetch@.published == ReleaseSource::FileTime,
        !go.fetch@.untrusted_url && !maven.fetch@.untrusted_url,
{
}

/// A request to the upstream carries what its configuration says.
pub proof fn requests_carry_their_headers(
    agent: &str,
    cfg: &UpstreamAuthConfig,
    r: (http::HeaderMap, Option<String>),
)
    requires
        call_ensures(new_upstream_request, (agent, cfg), r),
    ensures
        header_fields(r.0) == request_headers(agent@, *cfg),
        opt_text(r.1) == custom_header(*cfg),
        cfg.kind@ != "header"@ ==> r.1 is None,
{
}

/// Where the URL is not the administrator's own no credentials go along.
pub proof fn untrusted_urls_get_no_credentials(
    url: &str,
    agent: &str,
    auth: &UpstreamAuthConfig,
    accept: &str,
    r: Result<Fetch, String>,
)
    requires
        call_ensures(Fetch::start, (url, agent, auth, true, accept), r),
    ensures
        r is Ok ==> !header_fields(r->Ok_0.headers).contains_key("authorization"@),
        r is Ok ==> r->Ok_0.custom is None && r->Ok_0.via@.len() == 0,
{
    reveal_strlit("accept");
    reveal_strlit("user-agent");
    reveal_strlit("authorization");
    assert("user-agent"@.len() == 10 && "authorization"@.len() == 13 && "accept"@.len() == 6);
}

/// A target for a member keeps the query.
pub proof fn queries_go_along(path: &str, query: &str, member: &str, r: String, plain: String)
    requires
        call_ensures(uri_with_repo, (path, Some(query), member), r),
        call_ensures(uri_with_repo, (path, None, member), plain),
    ensures
        r@ == plain@ + "?"@ + query@,
        plain@ == with_repo(path@, member@),
{
}

// ---------------------------------------------------------------------------
// Answers

/// An upstream that asks for rest is left alone from now on for as long as it says, within
/// bounds, and the client is told how many seconds that is.
pub proof fn upstreams_rest_as_they_ask(
    s: &mut Engine,
    key: &str,
    hint: &str,
    now: i128,
    r: String,
)
    requires
        call_ensures(Engine::cool_down, (s, key, hint, now), r),
    ensures
        final(s).neg@ == old(s).neg@,
        hint@.len() == 0 ==> r@ == decimal(15) && final(s).cool@ == old(s).cool@.insert(
            key@,
            (now + 15_000_000_000) as i128,
        ),
        hint@.len() > 0 && i64_value(hint@) is Some && 15 <= i64_value(hint@)->0 <= 300 ==> r@
            == decimal(i64_value(hint@)->0) && final(s).cool@ == old(s).cool@.insert(
            key@,
            (now + i64_value(hint@)->0 * 1_000_000_000) as i128,
        ),
        hint@.len() > 0 && i64_value(hint@) is Some && i64_value(hint@)->0 > 300 ==> r@ == decimal(
            300,
        ),
{
}

/// A release that is too young or too old is answered as if it were not there, unless the
/// policy is off or only warns; one without a known time passes.
pub proof fn releases_of_a_wrong_age_are_not_there(
    cfg: &AgePolicyConfig,
    published: Option<Stamp>,
    now: i128,
    r: Option<Reply>,
    blocked: bool,
)
    requires
        call_ensures(age_gate, (cfg, published, now), r),
        call_ensures(eval_age, (cfg, published, now), blocked),
    ensures
        blocked <==> r is Some,
        published is None || !cfg.enabled || cfg.action@ == "warn"@ ==> r is None,
        published is Some && cfg.enabled && cfg.action@ != "warn"@ && ((cfg.min_age > 0
            && published->0.age(now as int) < cfg.min_age) || (cfg.max_age > 0
            && published->0.age(now as int) > cfg.max_age)) ==> r is Some,
        published is Some && !(cfg.min_age > 0 && published->0.age(now as int) < cfg.min_age) && !(
        cfg.max_age > 0 && published->0.age(now as int) > cfg.max_age) ==> r is None,
        r is Some ==> r->0@.status == 404 && r->0@.message == "blocked by age policy"@,
{
}

/// A fetch is still needed unless a fresh copy has come in meanwhile.
pub proof fn fresh_copies_end_a_fetch(
    found: Lookup,
    cache: &CacheConfig,
    k: Kind,
    now: i128,
    r: bool,
)
    requires
        call_ensures(still_needed, (found, cache, k, now), r),
    ensures
        found is Missing || found is Failed ==> r,
        !cache.enabled ==> r,
        found is Found && cache.enabled && k == Kind::Metadata && cache.metadata_ttl > 0 ==> (r
            <==> now - (found->Found_0).cached_at >= cache.metadata_ttl),
        found is Found && cache.enabled && k == Kind::Artifact && cache.artifact_ttl > 0 ==> (r
            <==> now - (found->Found_0).cached_at >= cache.artifact_ttl),
        found is Found && cache.enabled && k == Kind::Artifact && cache.artifact_ttl <= 0 ==> !r,
        k == Kind::Metadata && cache.metadata_ttl <= 0 ==> r,
{
}

/// What became of a fetch is answered by its kind; nothing is said where the artifact is
/// there to be served.
pub proof fn outcomes_are_rendered(o: &FetchOutcome, r: Option<Reply>, retry: Reply, hint: &str)
    requires
        call_ensures(render_outcome, (o,), r),
        call_ensures(write_retry, (o.status, hint), retry),
    ensures
        r is None <==> o.kind == FetchKind::Stored,
        o.kind == FetchKind::NotFound || o.kind == FetchKind::AgeBlocked ==> r->0@.status == 404,
        o.kind == FetchKind::Error ==> r->0@.status == 502,
        o.kind == FetchKind::Retry && o.status == 429 ==> r->0@.status == 429,
        o.kind == FetchKind::Retry && o.status != 429 ==> r->0@.status == 503,
        o.status == 429 ==> retry@.status == 429,
        o.status != 429 ==> retry@.status == 503,
        is_header_value(hint@) && hint@.len() > 0 ==> retry@.retry_after == Some(hint@),
        hint@.len() == 0 ==> retry@.retry_after is None,
{
}

/// npm requests are told apart by method and path.
pub proof fn npm_requests_are_routed(method: Method, kind: RepoType, path: &str, r: NpmRoute)
    requires
        call_ensures(npm_route, (method, kind, path), r),
    ensures
        r is Tarball <==> (method == Method::Get || method == Method::Head) && contains_seq(
            path@,
            "/-/"@,
        ),
        r is Packument <==> (method == Method::Get || method == Method::Head) && !contains_seq(
            path@,
            "/-/"@,
        ),
        r is Publish <==> method == Method::Put && kind == RepoType::Hosted && !contains_seq(
            path@,
            "/-/"@,
        ),
        r is Answer ==> (r->Answer_0)@.status == 405,
{
    requests_ask_for_what_they_name(method, kind, path@);
}

/// The release time of a tarball is read out of the packument of the package before `/-/`.
pub proof fn tarballs_are_judged_by_their_packument(
    pkg: Seq<char>,
    file: Seq<char>,
    path: &str,
    r: String,
)
    requires
        call_ensures(tarball_package_path, (path,), r),
        path@ == pkg + "/-/"@ + file,
        !pkg.contains('-'),
    ensures
        r@ == pkg,
{
    reveal_strlit("/-/");
    lemma_cut_behind(pkg, "/-/"@, file, 1);
}

/// What has gone by since a time in a leap second is counted from the second behind it, and
/// one second more where the time of the day is past it.
pub proof fn leap_seconds_are_counted_in(s: Stamp, days: int, rest: int)
    requires
        s.wf(),
        s.nanos >= 1_000_000_000,
        0 <= rest < 86_400_000_000_000,
    ensures
        ({
            let now = days * 86_400_000_000_000 + rest;
            let day = (s.secs as int % 86_400) * 1_000_000_000;
            let since = now - (s.secs * 1_000_000_000 + s.nanos);
            &&& rest >= day + 1_000_000_000 ==> s.age(now) == since + 1_000_000_000
            &&& rest < day + 1_000_000_000 ==> s.age(now) == since
        }),
{
    let now = days * 86_400_000_000_000 + rest;
    assert(now % 86_400_000_000_000 == rest) by (nonlinear_arith)
        requires
            now == days * 86_400_000_000_000 + rest,
            0 <= rest < 86_400_000_000_000,
    ;
}

} // verus!
