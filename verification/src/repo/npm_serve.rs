//! How the npm protocol is served and published to: which request is what, when a
//! packument is fetched, and what a publish document stores.

use vstd::prelude::*;
use vstd::string::StrSliceExecFns;
use vstd::utf8::encode_utf8;

use crate::bridge::{
    base64_bytes, base64_decode, firsts, json_object, json_string, json_string_map, json_values,
    pairs, parse_string, parse_string_map, parse_values,
};
use crate::config::{span, span_of, AgePolicyConfig, CacheConfig, ACTION_BLOCK, ACTION_WARN};
use crate::cut::{cut_once, split_once};
use crate::json::{
    find_member, first_place, json_values_at, lemma_first_place, member_map, named_in, object_text,
    values_at, Members, RawObject,
};
use crate::meta::{Artifact, RepoType};
use crate::record::{read_record_of_one, record};
use crate::repo::engine::{
    age_blocks, asks_upstream, classify_status, dated, fresh, is_fresh, needs_touch, outcome_answer, render_outcome, resting,
    retry_answer, status_class, swept, write_retry, Engine, FetchKind, FetchOutcome, FetchStep, Kind, Lookup,
    StatusClass, MAX_METADATA_BYTES, TOUCH_INTERVAL,
};
use crate::repo::negcache::live;
use crate::repo::npm::{
    cooldown_of, decode_npm_path, decoded_path, npm_version, tarball_url, version_of,
};
use crate::repo::path::{base_name, path_base};
use crate::repo::reply::{
    answer, http_error, is_read, not_found, opt_answer, reads, Answer, Method, Reply, BAD_GATEWAY,
    BAD_REQUEST, INTERNAL_SERVER_ERROR, METHOD_NOT_ALLOWED, NOT_FOUND, SERVICE_UNAVAILABLE,
};
use crate::repo::route::{
    fetch_spec, fetched, release_of, release_time, FetchSpec, Fetched, ReleaseSource,
};
use crate::repo::upstream::{cooldown, whole_seconds};
use crate::text::{cat, contains, contains_seq, decimal, occurs_at};
use crate::times::{parse_rfc3339, rfc3339_stamp, valid_instant, Stamp};

verus! {

/// The content type of a packument.
pub const PACKUMENT_TYPE: &'static str = "application/json";

/// How many bytes of a publish document are read.
pub const MAX_PUBLISH_BYTES: u64 = 268_435_456;

// ---------------------------------------------------------------------------
// Requests

/// Decodes a request path once into the identity under which everything is stored. A
/// path that climbs is refused in its decoded form too.
pub fn npm_request_path(raw: &str) -> (r: Result<String, Reply>)
    ensures
        match r {
            Ok(p) => p@ == decoded_path(raw@) && !contains_seq(p@, ".."@),
            Err(a) => contains_seq(decoded_path(raw@), ".."@) && a@ == answer(
                BAD_REQUEST,
                "invalid path"@,
            ),
        },
{
    let path = decode_npm_path(raw);
    if contains(path.as_str(), "..") {
        return Err(http_error(BAD_REQUEST, "invalid path"));
    }
    Ok(path)
}

/// What an npm request asks for.
pub enum NpmRoute {
    Tarball,
    Packument,
    Publish,
    Answer(Reply),
}

/// What an npm request asks for, without its text.
pub ghost enum NpmWay {
    Tarball,
    Packument,
    Publish,
    Answer(Answer),
}

impl View for NpmRoute {
    type V = NpmWay;

    open spec fn view(&self) -> NpmWay {
        match self {
            NpmRoute::Tarball => NpmWay::Tarball,
            NpmRoute::Packument => NpmWay::Packument,
            NpmRoute::Publish => NpmWay::Publish,
            NpmRoute::Answer(r) => NpmWay::Answer(r@),
        }
    }
}

/// What a request for a decoded path asks for.
pub open spec fn npm_way(method: Method, kind: RepoType, path: Seq<char>) -> NpmWay {
    let tarball = contains_seq(path, "/-/"@);
    if reads(method) {
        if tarball {
            NpmWay::Tarball
        } else {
            NpmWay::Packument
        }
    } else if tarball || method != Method::Put {
        NpmWay::Answer(answer(METHOD_NOT_ALLOWED, "method not allowed"@))
    } else if kind == RepoType::Hosted {
        NpmWay::Publish
    } else {
        NpmWay::Answer(answer(METHOD_NOT_ALLOWED, "uploads are only allowed on local repositories"@))
    }
}

/// Decides what a request for a decoded path asks for.
pub fn npm_route(method: Method, kind: RepoType, path: &str) -> (r: NpmRoute)
    ensures
        r@ == npm_way(method, kind, path@),
{
    let tarball = contains(path, "/-/");
    if is_read(method) {
        if tarball {
            return NpmRoute::Tarball;
        }
        return NpmRoute::Packument;
    }
    if tarball || method != Method::Put {
        return NpmRoute::Answer(http_error(METHOD_NOT_ALLOWED, "method not allowed"));
    }
    if kind != RepoType::Hosted {
        return NpmRoute::Answer(
            http_error(METHOD_NOT_ALLOWED, "uploads are only allowed on local repositories"),
        );
    }
    NpmRoute::Publish
}

/// The release time that the age policy judges a tarball by: the packument's, where
/// the policy is on and the packument names one, and else the file time.
pub open spec fn tarball_source(age_enabled: bool, packument: Option<Stamp>) -> ReleaseSource {
    if age_enabled && packument is Some {
        ReleaseSource::Known(packument->0)
    } else {
        ReleaseSource::FileTime
    }
}

fn source_of_tarball(age_enabled: bool, packument: Option<Stamp>) -> (r: ReleaseSource)
    ensures
        r == tarball_source(age_enabled, packument),
{
    match packument {
        Some(t) => if age_enabled {
            ReleaseSource::Known(t)
        } else {
            ReleaseSource::FileTime
        },
        None => ReleaseSource::FileTime,
    }
}

/// What a request for a tarball fetches. `packument` is the release time that the
/// packument names for its version.
pub fn tarball_fetch(
    upstream_url: &str,
    path: &str,
    age_enabled: bool,
    packument: Option<Stamp>,
) -> (r: FetchSpec)
    ensures
        r@ == (Fetched {
            published: tarball_source(age_enabled, packument),
            ..fetched(
                upstream_url@,
                path@,
                Kind::Artifact,
                version_of(path@),
                "application/octet-stream"@,
            )
        }),
{
    let mut spec = fetch_spec(
        upstream_url,
        path,
        Kind::Artifact,
        npm_version(path),
        "application/octet-stream".to_owned(),
    );
    spec.published = source_of_tarball(age_enabled, packument);
    spec
}

/// What a request for a packument fetches: a metadata document, up to a limit. It has no
/// release time as a whole; its versions have.
pub open spec fn packument_fetched(upstream_url: Seq<char>, path: Seq<char>) -> Fetched {
    Fetched {
        max_store_bytes: MAX_METADATA_BYTES,
        published: ReleaseSource::Unknown,
        ..fetched(upstream_url, path, Kind::Metadata, ""@, PACKUMENT_TYPE@)
    }
}

/// What a request for a packument fetches.
pub fn packument_fetch(upstream_url: &str, path: &str) -> (r: FetchSpec)
    ensures
        r@ == packument_fetched(upstream_url@, path@),
{
    let mut spec = fetch_spec(
        upstream_url,
        path,
        Kind::Metadata,
        "".to_owned(),
        PACKUMENT_TYPE.to_owned(),
    );
    spec.max_store_bytes = MAX_METADATA_BYTES;
    spec.published = ReleaseSource::Unknown;
    spec
}

// ---------------------------------------------------------------------------
// Release times

/// The package path of a tarball path.
pub fn tarball_package_path(path: &str) -> (r: String)
    ensures
        r@ == match cut_once(path@, "/-/"@) {
            Some((before, _)) => before,
            None => path@,
        },
{
    match split_once(path, "/-/") {
        Some((before, _file)) => before,
        None => path.to_owned(),
    }
}

/// The release times in a packument; none where it names none, and nothing where the
/// document cannot be read.
pub open spec fn times_in(body: Seq<u8>) -> Option<Members> {
    match record(body, seq!["time"@]) {
        Some(fields) => match fields[0] {
            Some(raw) => json_string_map(encode_utf8(raw)),
            None => Some(Seq::empty()),
        },
        None => None,
    }
}

/// Reads the release times out of a packument.
pub fn read_times(body: &[u8]) -> (r: Option<RawObject>)
    ensures
        match r {
            Some(t) => t.wf() && times_in(body@) == Some(t@),
            None => times_in(body@) is None,
        },
{
    match read_record_of_one(body, "time") {
        Some(field) => match field {
            Some(raw) => match parse_string_map(raw.as_str().as_bytes()) {
                Some(members) => Some(RawObject { members }),
                None => None,
            },
            None => Some(RawObject::new()),
        },
        None => None,
    }
}

/// The release time of a version among the times of a packument.
pub open spec fn published_in(times: Option<Members>, version: Seq<char>) -> Option<Stamp> {
    match times {
        Some(t) => if version.len() > 0 && member_map(t).contains_key(version) {
            rfc3339_stamp(member_map(t)[version])
        } else {
            None
        },
        None => None,
    }
}

/// Resolves a tarball version's release time from the times of its packument, the
/// same source that the packument's own filter uses.
pub fn npm_tarball_published(times: Option<&RawObject>, version: &str) -> (r: Option<Stamp>)
    requires
        times matches Some(t) ==> t.wf(),
    ensures
        ({
            let known = match times {
                Some(t) => Some(t@),
                None => None,
            };
            r == published_in(known, version@) && (r is Some ==> r->0.wf())
        }),
{
    if version.unicode_len() == 0 {
        return None;
    }
    match times {
        Some(t) => match t.get(version) {
            Some(text) => parse_rfc3339(text.as_str()),
            None => None,
        },
        None => None,
    }
}

/// The release time that the age policy judges a tarball by.
pub fn tarball_release_time(
    age_enabled: bool,
    packument: Option<Stamp>,
    last_modified_header: Option<&str>,
) -> (r: Option<Stamp>)
    ensures
        r == release_of(tarball_source(age_enabled, packument), last_modified_header),
{
    release_time(source_of_tarball(age_enabled, packument), last_modified_header)
}

/// A packument as a whole is never held back for its age, whatever file time the
/// upstream gives it.
pub proof fn packuments_have_no_age(
    upstream_url: Seq<char>,
    path: Seq<char>,
    header: Option<&str>,
    age: AgePolicyConfig,
    now: int,
)
    ensures
        release_of(packument_fetched(upstream_url, path).published, header) is None,
        !age_blocks(age, None, now),
{
}

/// The tarball of a version is blocked exactly where its packument holds the version
/// back: both go by the time in the packument. An oldest age, which the packument does
/// not know, is left out, and so are releases of the future where there is no cooldown.
pub proof fn tarballs_are_blocked_as_packuments_hold(
    body: Seq<u8>,
    version: Seq<char>,
    age: AgePolicyConfig,
    published: Stamp,
    now: int,
)
    requires
        json_object(body) is Some,
        published_in(times_in(body), version) == Some(published),
        age.action@ == ACTION_BLOCK@ || age.action@ == ACTION_WARN@ || !age.enabled,
        span_of(age.max_age) == 0,
        span_of(age.min_age) > 0 || published.age(now) >= 0,
    ensures
        cooldown_of(member_map(json_object(body)->0), age, now).holds(version) <==> age_blocks(
            age,
            Some(published),
            now,
        ),
{
    reveal_strlit("block");
    reveal_strlit("warn");
    assert(ACTION_BLOCK@.len() != ACTION_WARN@.len());
}

// ---------------------------------------------------------------------------
// Packuments

/// What becomes of a request for a packument.
pub enum PackumentStep {
    Answer(Reply),
    /// Ask the final gate, and render the stored document; a HEAD needs no body.
    Render { touch: bool },
    /// Fetch it, and render what comes without storing it.
    Passthrough,
    /// Fetch and store it, once for all who wait for it.
    Coalesce,
}

/// The stored packument answers the request.
pub open spec fn packument_servable(
    kind: RepoType,
    cache: CacheConfig,
    found: Lookup,
    now: int,
) -> bool {
    found matches Lookup::Found(art) && (kind == RepoType::Hosted || is_fresh(
        cache,
        Kind::Metadata,
        art.cached_at as int,
        now,
    ))
}

/// Handles a request for a packument. A hosted packument is authoritative, a proxied
/// one is served while it is fresh; versions are judged by their age only when it is
/// rendered.
pub fn npm_packument(
    engine: &mut Engine,
    key: &str,
    kind: RepoType,
    cache: &CacheConfig,
    found: Lookup,
    now: i128,
) -> (r: PackumentStep)
    requires
        old(engine).wf(),
        valid_instant(now as int),
        found matches Lookup::Found(art) ==> dated(*art),
    ensures
        final(engine).wf(),
        match r {
            PackumentStep::Render { touch } => {
                &&& packument_servable(kind, *cache, found, now as int)
                &&& found matches Lookup::Found(art) && touch == (now - art.last_accessed_at
                    >= TOUCH_INTERVAL)
                &&& *final(engine) == *old(engine)
            },
            PackumentStep::Answer(a) => {
                &&& !packument_servable(kind, *cache, found, now as int)
                &&& if found is Failed {
                    a@ == answer(INTERNAL_SERVER_ERROR, "metadata error"@)
                } else if kind == RepoType::Hosted || live(old(engine).neg@, key@, now as int) {
                    a@ == answer(NOT_FOUND, "404 page not found"@)
                } else {
                    &&& resting(old(engine).cool@, key@, now as int)
                    &&& a@ == retry_answer(
                        SERVICE_UNAVAILABLE,
                        decimal(whole_seconds(old(engine).cool@[key@] - now)),
                    )
                }
            },
            PackumentStep::Passthrough => fetches(
                kind,
                *cache,
                found,
                *old(engine),
                key@,
                now as int,
            ) && !cache.enabled,
            PackumentStep::Coalesce => fetches(kind, *cache, found, *old(engine), key@, now as int)
                && cache.enabled,
        },
        final(engine).neg@ == (if asks_upstream(
            kind,
            *cache,
            Kind::Metadata,
            found,
            now as int,
        ) {
            swept(old(engine).neg@, key@, now as int)
        } else {
            old(engine).neg@
        }),
        final(engine).cool@ == (if fetches(kind, *cache, found, *old(engine), key@, now as int) {
            old(engine).cool@.remove(key@)
        } else {
            old(engine).cool@
        }),
{
    match found {
        Lookup::Failed => {
            return PackumentStep::Answer(http_error(INTERNAL_SERVER_ERROR, "metadata error"));
        },
        Lookup::Found(art) => {
            if kind == RepoType::Hosted || fresh(art.cached_at, cache, Kind::Metadata, now) {
                return PackumentStep::Render { touch: needs_touch(art.last_accessed_at, now) };
            }
        },
        Lookup::Missing => {},
    }
    if kind == RepoType::Hosted {
        return PackumentStep::Answer(not_found());
    }
    let ghost before = engine.neg@;
    if engine.neg.has(key, now) {
        return PackumentStep::Answer(not_found());
    }
    match engine.fetch_and_serve(key, cache.enabled, now) {
        FetchStep::Cooling(reply) => PackumentStep::Answer(reply),
        FetchStep::Passthrough => PackumentStep::Passthrough,
        FetchStep::Coalesce => PackumentStep::Coalesce,
    }
}

/// A request goes on to the upstream: nothing here answers it, and the upstream is
/// neither known to have nothing nor asked to be left alone.
pub open spec fn fetches(
    kind: RepoType,
    cache: CacheConfig,
    found: Lookup,
    engine: Engine,
    key: Seq<char>,
    now: int,
) -> bool {
    &&& kind != RepoType::Hosted
    &&& !(found is Failed)
    &&& !packument_servable(kind, cache, found, now)
    &&& !live(engine.neg@, key, now)
    &&& !resting(engine.cool@, key, now)
}

/// The key under which fetches of one packument are coalesced.
pub fn packument_flight_key(key: &str) -> (r: String)
    ensures
        r@ == "npm-packument:"@ + key@,
{
    cat("npm-packument:", key)
}

/// The answer that the outcome of a packument fetch gives; nothing where the document
/// is stored. A packument as a whole has no age.
pub open spec fn packument_answer(o: (FetchKind, u16, Seq<char>)) -> Option<Answer> {
    if o.0 == FetchKind::AgeBlocked {
        Some(answer(BAD_GATEWAY, "upstream error"@))
    } else {
        outcome_answer(o)
    }
}

/// Renders the outcome of a packument fetch for one of those who waited for it.
pub fn packument_outcome(o: &FetchOutcome) -> (r: Option<Reply>)
    ensures
        match r {
            Some(a) => packument_answer((o.kind, o.status, o.retry_after@)) == Some(a@),
            None => packument_answer((o.kind, o.status, o.retry_after@)) is None,
        },
{
    if o.kind == FetchKind::AgeBlocked {
        return Some(http_error(BAD_GATEWAY, "upstream error"));
    }
    render_outcome(o)
}

/// Judges what the upstream answered to a packument fetch that is not stored: the
/// answer for the client, or nothing where the body is to be rendered. A missing
/// package is remembered, and so is a request for rest.
pub fn npm_packument_passthrough(
    engine: &mut Engine,
    key: &str,
    status: u16,
    retry_after: &str,
    negative_ttl: i64,
    now: i128,
) -> (r: Option<Reply>)
    requires
        old(engine).wf(),
        valid_instant(now as int),
    ensures
        final(engine).wf(),
        opt_answer(r) == match status_class(status) {
            StatusClass::Good => None,
            StatusClass::Missing => Some(answer(NOT_FOUND, "404 page not found"@)),
            StatusClass::Limited => Some(
                retry_answer(status, decimal(whole_seconds(cooldown(retry_after@, now as int)))),
            ),
            StatusClass::Bad => Some(answer(BAD_GATEWAY, "upstream error"@)),
        },
        final(engine).neg@ == if status_class(status) == StatusClass::Missing && span_of(
            negative_ttl,
        ) > 0 {
            old(engine).neg@.insert(key@, (now + span_of(negative_ttl)) as i128)
        } else {
            old(engine).neg@
        },
        final(engine).cool@ == if status_class(status) == StatusClass::Limited {
            old(engine).cool@.insert(key@, (now + cooldown(retry_after@, now as int)) as i128)
        } else {
            old(engine).cool@
        },
{
    match classify_status(status) {
        StatusClass::Good => None,
        StatusClass::Missing => {
            engine.neg.set(key, span(negative_ttl), now);
            Some(not_found())
        },
        StatusClass::Limited => {
            let hint = engine.cool_down(key, retry_after, now);
            Some(write_retry(status, hint.as_str()))
        },
        StatusClass::Bad => Some(http_error(BAD_GATEWAY, "upstream error")),
    }
}

// ---------------------------------------------------------------------------
// Publishing

/// The text of a member, where it is a string.
pub open spec fn string_member(m: Members, key: Seq<char>) -> Seq<char> {
    if named_in(m, key) {
        match json_string(encode_utf8(m[first_place(m, key)].1)) {
            Some(s) => s,
            None => ""@,
        }
    } else {
        ""@
    }
}

/// The text of a member, where it is a string.
pub fn read_string_member(members: &Vec<(String, String)>, key: &str) -> (r: String)
    ensures
        r@ == string_member(pairs(members@), key@),
{
    match find_member(members, key) {
        Some(i) => {
            assert(pairs(members@)[i as int].1 == members@[i as int].1@);
            match parse_string(members[i].1.as_str().as_bytes()) {
                Some(s) => s,
                None => "".to_owned(),
            }
        },
        None => "".to_owned(),
    }
}

/// Decodes the data of an attachment.
pub fn base64_decode_stream(data: &str) -> (r: Result<Vec<u8>, ()>)
    ensures
        match r {
            Ok(v) => base64_bytes(data@) == Some(v@),
            Err(_) => base64_bytes(data@) is None,
        },
{
    match base64_decode(data) {
        Some(v) => Ok(v),
        None => Err(()),
    }
}

/// `m` without the member `key`, whose place the last member takes.
pub open spec fn without_member(m: Members, key: Seq<char>) -> Members {
    if !named_in(m, key) {
        m
    } else if first_place(m, key) == m.len() - 1 {
        m.drop_last()
    } else {
        m.drop_last().update(first_place(m, key), m.last())
    }
}

/// Every member but the one named stays.
pub proof fn other_members_stay(m: Members, key: Seq<char>)
    requires
        firsts(m).no_duplicates(),
    ensures
        forall|p: (Seq<char>, Seq<char>)| #[trigger]
            without_member(m, key).contains(p) <==> m.contains(p) && p.0 != key,
{
    let w = without_member(m, key);
    if named_in(m, key) {
        let a = choose|a: int| 0 <= a < m.len() && (#[trigger] m[a]).0 == key;
        assert forall|b: int| 0 <= b < m.len() && b != a implies (#[trigger] m[b]).0 != key by {
            assert(firsts(m)[a] == m[a].0 && firsts(m)[b] == m[b].0);
        }
        lemma_first_place(m, key, a);
        let last = m.len() - 1;
        assert forall|p: (Seq<char>, Seq<char>)| #[trigger] w.contains(p) <==> m.contains(p) && p.0
            != key by {
            if w.contains(p) {
                let i = choose|i: int| 0 <= i < w.len() && w[i] == p;
                if i == a {
                    assert(m[last] == p);
                } else {
                    assert(m[i] == p);
                }
            }
            if m.contains(p) && p.0 != key {
                let j = choose|j: int| 0 <= j < m.len() && m[j] == p;
                if j == last {
                    assert(w[a] == p);
                } else {
                    assert(w[j] == p);
                }
            }
        }
    } else {
        assert forall|p: (Seq<char>, Seq<char>)| #[trigger] w.contains(p) implies p.0 != key by {
            let i = choose|i: int| 0 <= i < m.len() && m[i] == p;
            assert(m[i].0 == p.0);
        }
    }
}

/// The document that a publish stores as the package's index: what was sent, without
/// the attachments. Nothing where the body is no JSON object.
pub open spec fn published_index(body: Seq<u8>) -> Option<Seq<char>> {
    match json_values(body) {
        Some(m) => Some(object_text(without_member(m, "_attachments"@))),
        None => None,
    }
}

/// Builds the index document of a publish.
pub fn npm_index_body(body: &[u8]) -> (r: Result<String, Reply>)
    ensures
        match r {
            Ok(text) => published_index(body@) == Some(text@),
            Err(a) => published_index(body@) is None && a@ == answer(
                BAD_REQUEST,
                "invalid publish document"@,
            ),
        },
{
    let mut members = match parse_values(body) {
        Some(m) => m,
        None => return Err(http_error(BAD_REQUEST, "invalid publish document")),
    };
    let ghost all = pairs(members@);
    if let Some(i) = find_member(&members, "_attachments") {
        let n: usize = members.len();
        let last = members.pop();
        assert(pairs(members@) =~= all.drop_last());
        if i + 1 < n {
            if let Some(pair) = last {
                members.set(i, pair);
                assert(pairs(members@) =~= all.drop_last().update(i as int, all.last()));
            }
        }
    }
    let doc = RawObject { members };
    assert(doc@ == without_member(all, "_attachments"@));
    Ok(doc.text())
}

/// One tarball of a publish document.
pub struct Tarball {
    pub path: String,
    pub version: String,
    pub bytes: Vec<u8>,
}

/// The tarballs as paths and bytes.
pub open spec fn tarball_views(v: Seq<Tarball>) -> Seq<(Seq<char>, Seq<char>, Seq<u8>)> {
    v.map_values(|t: Tarball| (t.path@, t.version@, t.bytes@))
}

/// What an attachment stores: nothing where it is no object, an error where its data
/// is no base64.
pub open spec fn attachment_tarball(
    path: Seq<char>,
    att: (Seq<char>, Seq<char>),
) -> Option<Result<(Seq<char>, Seq<char>, Seq<u8>), ()>> {
    match json_values(encode_utf8(att.1)) {
        None => None,
        Some(m) => {
            let p = path + "/-/"@ + base_name(att.0);
            match base64_bytes(string_member(m, "data"@)) {
                Some(bytes) => Some(Ok((p, version_of(p), bytes))),
                None => Some(Err(())),
            }
        },
    }
}

/// What a list of attachments stores, up to the first whose data is no base64; and
/// whether there is none such.
pub open spec fn attachment_tarballs(path: Seq<char>, atts: Members) -> (
    Seq<(Seq<char>, Seq<char>, Seq<u8>)>,
    bool,
)
    decreases atts.len(),
{
    if atts.len() == 0 {
        (Seq::empty(), true)
    } else {
        let before = attachment_tarballs(path, atts.drop_last());
        if !before.1 {
            before
        } else {
            match attachment_tarball(path, atts.last()) {
                None => before,
                Some(Ok(t)) => (before.0.push(t), true),
                Some(Err(_)) => (before.0, false),
            }
        }
    }
}

fn read_attachment(path: &str, name: &str, raw: &str) -> (r: Option<Result<Tarball, ()>>)
    ensures
        match r {
            None => attachment_tarball(path@, (name@, raw@)) is None,
            Some(Err(_)) => attachment_tarball(path@, (name@, raw@)) == Some(
                Err::<(Seq<char>, Seq<char>, Seq<u8>), ()>(()),
            ),
            Some(Ok(t)) => attachment_tarball(path@, (name@, raw@)) == Some(
                Ok::<(Seq<char>, Seq<char>, Seq<u8>), ()>((t.path@, t.version@, t.bytes@)),
            ),
        },
{
    let members = match parse_values(raw.as_bytes()) {
        Some(m) => m,
        None => return None,
    };
    let data = read_string_member(&members, "data");
    let base = path_base(name);
    let mut full = cat(path, "/-/");
    full.append(base.as_str());
    match base64_decode_stream(data.as_str()) {
        Ok(bytes) => {
            let version = npm_version(full.as_str());
            Some(Ok(Tarball { path: full, version, bytes }))
        },
        Err(_) => Some(Err(())),
    }
}

/// Reads the tarballs of a publish document to be stored under `path`. Where the data
/// of one is no base64, those before it are stored all the same, and the answer says
/// so.
pub fn npm_tarballs(body: &[u8], path: &str) -> (r: (Vec<Tarball>, Option<Reply>))
    ensures
        tarball_views(r.0@) == attachment_tarballs(
            path@,
            json_values_at(body@, "_attachments"@),
        ).0,
        match r.1 {
            Some(a) => !attachment_tarballs(path@, json_values_at(body@, "_attachments"@)).1 && a@
                == answer(BAD_REQUEST, "invalid attachment encoding"@),
            None => attachment_tarballs(path@, json_values_at(body@, "_attachments"@)).1,
        },
{
    let atts = values_at(body, "_attachments");
    let ghost all = pairs(atts@);
    let mut out: Vec<Tarball> = Vec::new();
    let mut i: usize = 0;
    assert(all.take(0) =~= Seq::empty());
    assert(tarball_views(out@) =~= Seq::empty());
    while i < atts.len()
        invariant
            i <= atts@.len(),
            all == pairs(atts@),
            all == json_values_at(body@, "_attachments"@),
            attachment_tarballs(path@, all.take(i as int)) == (tarball_views(out@), true),
        decreases atts@.len() - i,
    {
        proof {
            assert(all.take(i + 1).drop_last() =~= all.take(i as int));
            assert(all.take(i + 1).last() == (atts@[i as int].0@, atts@[i as int].1@));
        }
        match read_attachment(path, atts[i].0.as_str(), atts[i].1.as_str()) {
            None => {},
            Some(Ok(t)) => {
                let ghost before = tarball_views(out@);
                let ghost v = (t.path@, t.version@, t.bytes@);
                out.push(t);
                assert(tarball_views(out@) =~= before.push(v));
            },
            Some(Err(_)) => {
                proof {
                    lemma_broken_stays(path@, all, i + 1);
                }
                return (out, Some(http_error(BAD_REQUEST, "invalid attachment encoding")));
            },
        }
        i += 1;
    }
    assert(all.take(all.len() as int) =~= all);
    (out, None)
}

proof fn lemma_broken_stays(path: Seq<char>, atts: Members, n: int)
    requires
        0 <= n <= atts.len(),
        !attachment_tarballs(path, atts.take(n)).1,
    ensures
        attachment_tarballs(path, atts) == attachment_tarballs(path, atts.take(n)),
    decreases atts.len(),
{
    if n < atts.len() {
        assert(atts.drop_last().take(n) =~= atts.take(n));
        lemma_broken_stays(path, atts.drop_last(), n);
    } else {
        assert(atts.take(n) =~= atts);
    }
}

/// What is published is read back: the tarball of an attachment is stored under the
/// path that a rewritten packument of the package names for a file of that name, and a
/// request for that path asks for a tarball.
pub proof fn published_tarball_is_where_packuments_point(
    base: Seq<char>,
    repo: Seq<char>,
    pkg: Seq<char>,
    tb: Seq<char>,
    att: (Seq<char>, Seq<char>),
    kind: RepoType,
)
    requires
        base_name(att.0) == base_name(tb),
        attachment_tarball(pkg, att) matches Some(Ok(_)),
    ensures
        ({
            let (path, version, _) = attachment_tarball(pkg, att)->0->Ok_0;
            &&& tarball_url(base, repo, pkg, tb) == base + "/npm/"@ + repo + "/"@ + path
            &&& npm_way(Method::Get, kind, path) == NpmWay::Tarball
            &&& version == version_of(path)
        }),
{
    let path = pkg + "/-/"@ + base_name(att.0);
    assert(tarball_url(base, repo, pkg, tb) =~= base + "/npm/"@ + repo + "/"@ + path);
    assert(path.subrange(pkg.len() as int, (pkg.len() + "/-/"@.len()) as int) =~= "/-/"@);
    assert(occurs_at(path, "/-/"@, pkg.len() as int));
}

/// What a publish stores: its tarballs, in order, and then its index.
pub struct PublishPlan {
    pub tarballs: Vec<Tarball>,
    /// The answer, once the tarballs are stored, where the next one is broken; the
    /// index is then not stored.
    pub problem: Option<Reply>,
    pub index: String,
}

/// Handles a publish to a hosted repository. The body is a packument with base64
/// attachments: each attachment is stored as a tarball under the package, and the
/// packument without them as the index.
pub fn npm_publish(body: &[u8], path: &str) -> (r: Result<PublishPlan, Reply>)
    ensures
        match r {
            Ok(plan) => {
                let stored = attachment_tarballs(
                    path@,
                    json_values_at(body@, "_attachments"@),
                );
                &&& published_index(body@) == Some(plan.index@)
                &&& tarball_views(plan.tarballs@) == stored.0
                &&& match plan.problem {
                    Some(a) => !stored.1 && a@ == answer(
                        BAD_REQUEST,
                        "invalid attachment encoding"@,
                    ),
                    None => stored.1,
                }
            },
            Err(a) => published_index(body@) is None && a@ == answer(
                BAD_REQUEST,
                "invalid publish document"@,
            ),
        },
{
    let index = match npm_index_body(body) {
        Ok(index) => index,
        Err(a) => return Err(a),
    };
    let (tarballs, problem) = npm_tarballs(body, path);
    Ok(PublishPlan { tarballs, problem, index })
}

/// What of a publish could not be stored.
#[derive(Debug, Clone, Copy, PartialEq, Eq, Structural)]
pub enum PublishPart {
    Tarball,
    Packument,
}

/// The answer where a part of a publish could not be stored.
pub fn publish_store_failed(part: PublishPart) -> (r: Reply)
    ensures
        r@ == answer(
            INTERNAL_SERVER_ERROR,
            match part {
                PublishPart::Tarball => "store tarball failed"@,
                PublishPart::Packument => "store packument failed"@,
            },
        ),
{
    match part {
        PublishPart::Tarball => http_error(INTERNAL_SERVER_ERROR, "store tarball failed"),
        PublishPart::Packument => http_error(INTERNAL_SERVER_ERROR, "store packument failed"),
    }
}

} // verus!
