//! Serving, fetching and the formats' paths.

use forklift::config::{AgePolicyConfig, CacheConfig, UpstreamAuthConfig, ACTION_BLOCK, ACTION_WARN};
use forklift::json::{marshal_raw_object, RawObject};
use forklift::meta::{Artifact, RepoType};
use forklift::repo::agepolicy::{evaluate_age, AgeDecision};
use forklift::repo::engine::{
    cache_key, evict_again, fresh, needs_touch, over_limit, render_outcome, render_reservation,
    repo_label, serve_artifact, still_needed, stored_artifact, write_retry, Engine, FetchKind,
    FetchOutcome, FetchStep, FetchVerdict, Kind, Lookup, ServeStep, StreamVerdict, UpstreamReply,
    MAX_INFLIGHT_RENDER_BYTES,
};
use forklift::repo::flight::{observed, Flight, Role};
use forklift::repo::gomod::{go_content_type, go_kind, go_package, go_version, handle_go};
use forklift::repo::maven::{
    handle_maven, last_modified, maven_content_type, maven_kind, maven_package, maven_version,
};
use forklift::repo::negcache::NegCache;
use forklift::repo::npm::highest_stable_version;
use forklift::repo::path::{join_upstream, path_base, path_ext};
use forklift::repo::reply::Method;
use forklift::repo::route::{store_reply, Route};
use forklift::repo::upstream::{
    new_upstream_request, parse_retry_after, retry_after_seconds, same_host,
    strip_auth_on_cross_host_redirect, Fetch, FetchMove, DEFAULT_UPSTREAM_COOLDOWN,
    MAX_UPSTREAM_COOLDOWN,
};
use forklift::text::itoa;
use forklift::times::{parse_rfc3339, Stamp};

const SECOND: i128 = 1_000_000_000;
const HOUR: i128 = 3600 * SECOND;
const DAY: i128 = 24 * HOUR;
/// 2026-06-30T12:00:00Z
const NOW: i128 = 1_782_820_800 * SECOND;

fn days(n: i64) -> i64 {
    n * 24 * 3600 * 1_000_000_000
}

fn object(members: &[(&str, &str)]) -> RawObject {
    let mut o = RawObject::new();
    for (k, v) in members {
        o.insert(k.to_string(), v.to_string());
    }
    o
}

fn cache(enabled: bool) -> CacheConfig {
    CacheConfig {
        enabled,
        metadata_ttl: 60_000_000_000,
        artifact_ttl: 0,
        negative_ttl: 30_000_000_000,
        max_size_bytes: 0,
    }
}

fn stamp(t: i128) -> Stamp {
    Stamp { secs: t.div_euclid(SECOND) as i64, nanos: t.rem_euclid(SECOND) as u32 }
}

fn artifact(cached_at: i128, published_at: Option<i128>) -> Artifact {
    let published = published_at.map(stamp);
    stored_artifact(1, "p", "1", "text/plain", "sha", 3, published, "alice", cached_at)
}

fn upstream_reply(status: u16, retry_after: &str) -> UpstreamReply {
    UpstreamReply {
        status,
        retry_after: retry_after.to_string(),
        content_type: "text/html".to_string(),
        published: None,
    }
}

fn auth(kind: &str) -> UpstreamAuthConfig {
    UpstreamAuthConfig {
        kind: kind.to_string(),
        username: "u".to_string(),
        password: "p".to_string(),
        token: "t".to_string(),
        header: "X-Token".to_string(),
        value: "v".to_string(),
    }
}

#[test]
fn go_helpers() {
    assert_eq!(go_kind("m/@v/list"), Kind::Metadata, "goKind misclassified");
    assert_eq!(go_kind("m/@v/v1.0.0.zip"), Kind::Artifact, "goKind misclassified");
    assert_eq!(go_version("example.com/foo/@v/v1.2.3.mod"), "v1.2.3");
}

#[test]
fn go_plans() {
    assert_eq!(go_content_type("m/@v/v1.info"), "application/json");
    assert_eq!(go_content_type("m/@v/v1.mod"), "text/plain; charset=utf-8");
    assert_eq!(go_content_type("m/@v/v1.zip"), "application/zip");
    assert_eq!(go_content_type("m/@v/list"), "text/plain; charset=utf-8");
    let plan = handle_go(Method::Get, RepoType::Proxy, "https://up/", "m/@v/v1.zip");
    assert_eq!(plan.pkg, "m");
    assert_eq!(plan.version, "v1");
    assert!(matches!(plan.route, Route::Serve));
    assert_eq!(plan.fetch.upstream_url, "https://up/m/@v/v1.zip");
    assert_eq!(go_package("m"), "");
}

#[test]
fn highest_stable_version_cases() {
    let cases: [(&[&str], &str); 5] = [
        (&["1.0.0", "2.1.0", "2.0.5"], "2.1.0"),
        (&["1.0.0", "2.0.0-beta.1"], "1.0.0"),
        (&["2.0.0-beta.1", "weird"], ""),
        (&["v3.0.0", "2.9.9"], "v3.0.0"),
        (&["0.0.10", "0.0.9"], "0.0.10"),
    ];
    for (versions, want) in cases {
        let mut map = RawObject::new();
        for v in versions {
            map.insert(v.to_string(), "{}".to_string());
        }
        assert_eq!(highest_stable_version(&map), want, "highest_stable_version({versions:?})");
    }
}

#[test]
fn evaluate_age_cases() {
    let now: i128 = 1_749_513_600 * SECOND;
    let recent = now - 24 * HOUR;
    let old = now - 100 * DAY;

    let cases: Vec<(&str, AgePolicyConfig, Option<i128>, AgeDecision)> = vec![
        (
            "disabled",
            AgePolicyConfig { enabled: false, min_age: 3_600_000_000_000, ..Default::default() },
            Some(recent),
            AgeDecision::Allow,
        ),
        (
            "no publish time",
            AgePolicyConfig { enabled: true, min_age: 3_600_000_000_000, ..Default::default() },
            None,
            AgeDecision::Allow,
        ),
        (
            "too new block",
            AgePolicyConfig {
                enabled: true,
                min_age: days(7),
                action: ACTION_BLOCK.to_string(),
                ..Default::default()
            },
            Some(recent),
            AgeDecision::Block,
        ),
        (
            "too new warn",
            AgePolicyConfig {
                enabled: true,
                min_age: days(7),
                action: ACTION_WARN.to_string(),
                ..Default::default()
            },
            Some(recent),
            AgeDecision::Warn,
        ),
        (
            "old enough",
            AgePolicyConfig {
                enabled: true,
                min_age: days(7),
                action: ACTION_BLOCK.to_string(),
                ..Default::default()
            },
            Some(old),
            AgeDecision::Allow,
        ),
        (
            "too old block",
            AgePolicyConfig {
                enabled: true,
                max_age: days(30),
                action: ACTION_BLOCK.to_string(),
                ..Default::default()
            },
            Some(old),
            AgeDecision::Block,
        ),
    ];
    for (name, cfg, pub_at, want) in cases {
        let (got, _) = evaluate_age(&cfg, pub_at.map(stamp), now);
        assert_eq!(got, want, "evaluate_age({name})");
    }
}

#[test]
fn age_reasons() {
    let mut cfg = AgePolicyConfig {
        enabled: true,
        min_age: days(7),
        max_age: days(30),
        action: ACTION_BLOCK.to_string(),
    };
    assert_eq!(evaluate_age(&cfg, Some(stamp(NOW - DAY)), NOW).1, "release is newer than min_age cooldown");
    assert_eq!(evaluate_age(&cfg, Some(stamp(NOW - 31 * DAY)), NOW).1, "release is older than max_age");
    assert_eq!(evaluate_age(&cfg, Some(stamp(NOW - 7 * DAY)), NOW), (AgeDecision::Allow, ""));
    assert_eq!(evaluate_age(&cfg, Some(stamp(NOW - 30 * DAY)), NOW), (AgeDecision::Allow, ""));
    // A negative span counts as none.
    cfg.min_age = -1;
    assert_eq!(evaluate_age(&cfg, Some(stamp(NOW)), NOW).0, AgeDecision::Allow);
}

/// Ages and releases are those of the calendar, leap seconds included.
#[test]
fn leap_seconds_are_counted() {
    let leap = parse_rfc3339("2016-12-31T12:30:60.500Z").expect("a stamp");
    assert_eq!(leap.nanos, 1_500_000_000);
    for text in [
        "2016-12-31T12:30:60.500Z",
        "2016-12-31T23:59:60.250Z",
        "2016-12-31T23:59:60+00:00",
        "2016-12-31T12:30:59.999Z",
        "1969-12-31T12:30:60.500Z",
    ] {
        let stamp = parse_rfc3339(text).expect("a stamp");
        let exact = match chrono::DateTime::parse_from_rfc3339(text) {
            Ok(t) => t.with_timezone(&chrono::Utc),
            Err(e) => panic!("{e}"),
        };
        for now in [
            "2016-12-31T12:30:59.900Z",
            "2016-12-31T12:31:00Z",
            "2016-12-31T18:00:00.125Z",
            "2017-01-01T00:00:00Z",
            "2017-01-01T12:30:59Z",
            "2017-01-01T12:31:00Z",
            "1969-12-31T23:00:00Z",
            "1969-12-31T01:00:00Z",
        ] {
            let at = match chrono::DateTime::parse_from_rfc3339(now) {
                Ok(t) => t.with_timezone(&chrono::Utc),
                Err(e) => panic!("{e}"),
            };
            let clock = i128::from(at.timestamp()) * SECOND + i128::from(at.timestamp_subsec_nanos());
            let age = (at - exact).num_nanoseconds().expect("a span");
            assert_eq!(stamp.age_at(clock), i128::from(age), "{text} at {now}");
        }
        for span in [0, 1, 400_000_000, 499_999_999, 500_000_000, 999_999_999, 1_000_000_000, 90_000_000_000_001] {
            let later = exact + chrono::TimeDelta::nanoseconds(span);
            let got = stamp.plus(i128::from(span));
            assert_eq!((got.secs, got.nanos), (later.timestamp(), later.timestamp_subsec_nanos()), "{text} + {span}");
            assert_eq!(stamp.is_before(got), exact < later);
        }
    }
    // The cooldown goes by them.
    let cfg = AgePolicyConfig {
        enabled: true,
        min_age: 3_600_000_000_000,
        max_age: 0,
        action: ACTION_BLOCK.to_string(),
    };
    let now = (i128::from(leap.secs) + 3600) * SECOND + SECOND / 2;
    assert_eq!(evaluate_age(&cfg, Some(leap), now).0, AgeDecision::Allow);
    assert_eq!(evaluate_age(&cfg, Some(leap), now - 1).0, AgeDecision::Block);
}

#[test]
fn neg_cache() {
    let mut c = NegCache::new();
    let base: i128 = 1_735_689_600 * SECOND;

    // Zero TTL is ignored.
    c.set("a", 0, base);
    assert!(!c.has("a", base), "zero ttl should not cache");

    c.set("b", 60 * SECOND, base);
    assert!(c.has("b", base), "b should be cached");
    // Advance past expiry.
    assert!(!c.has("b", base + 120 * SECOND), "b should have expired");

    c.set("c", 60 * SECOND, base);
    c.clear("c");
    assert!(!c.has("c", base), "c should be cleared");
}

#[test]
fn neg_cache_remaining() {
    let mut c = NegCache::new();
    assert!(
        c.remaining("missing", NOW).is_none(),
        "remaining on missing key should report not live"
    );
    c.set("k", 30 * SECOND, NOW);
    assert_eq!(c.remaining("k", NOW), Some(30 * SECOND));
    // Advance past expiry.
    assert!(
        c.remaining("k", NOW + 60 * SECOND).is_none(),
        "remaining after expiry should report not live"
    );
}

#[test]
fn parse_retry_after_cases() {
    let when = std::time::UNIX_EPOCH
        + std::time::Duration::from_secs((NOW / SECOND) as u64 + 90);
    let http_date = httpdate::fmt_http_date(when);
    let cases: Vec<(&str, &str, i128)> = vec![
        ("empty falls back to default", "", DEFAULT_UPSTREAM_COOLDOWN),
        ("small seconds clamped up to default", "2", DEFAULT_UPSTREAM_COOLDOWN),
        ("seconds honored", "60", 60 * SECOND),
        ("capped at max", "100000", MAX_UPSTREAM_COOLDOWN),
        ("garbage falls back to default", "soon", DEFAULT_UPSTREAM_COOLDOWN),
        ("http-date honored", &http_date, 90 * SECOND),
    ];
    for (name, hdr, want) in cases {
        assert_eq!(parse_retry_after(hdr, NOW), want, "parse_retry_after({name})");
    }
}

#[test]
fn retry_after_seconds_rounds_and_floors() {
    assert_eq!(retry_after_seconds(15 * SECOND), "15");
    assert_eq!(retry_after_seconds(100 * 1_000_000), "1", "floor of 1");
}

#[test]
fn retry_after_rounds_half_up() {
    assert_eq!(retry_after_seconds(2_499 * 1_000_000), "2");
    assert_eq!(retry_after_seconds(2_500 * 1_000_000), "3");
    assert_eq!(retry_after_seconds(0), "1");
}

#[test]
fn write_retry_relays_the_hint() {
    // 429 with a hint is relayed verbatim.
    let reply = write_retry(429, "30");
    assert_eq!(reply.status, 429);
    assert_eq!(reply.retry_after.as_deref(), Some("30"));
    assert_eq!(reply.message, "upstream rate-limited, retry later");
    // A non-retry status is normalized to 503.
    let reply = write_retry(502, "");
    assert_eq!(reply.status, 503);
    assert_eq!(reply.retry_after, None);
    // What cannot stand in a header is left out.
    assert_eq!(write_retry(503, "a\nb").retry_after, None);
}

#[test]
fn itoa_renders_decimal() {
    for (input, want) in [(0i64, "0"), (5, "5"), (42, "42"), (1024, "1024")] {
        assert_eq!(itoa(input), want, "itoa({input})");
    }
}

#[test]
fn maven_helpers() {
    assert_eq!(maven_kind("g/a/maven-metadata.xml"), Kind::Metadata, "metadata not classified");
    assert_eq!(maven_kind("g/a/1.0/a-1.0.jar"), Kind::Artifact, "artifact not classified");
    assert_eq!(maven_version("com/ex/app/1.2.3/app-1.2.3.jar"), "1.2.3");
    assert_eq!(
        maven_version("com/ex/app/maven-metadata.xml"),
        "",
        "metadata version should be empty"
    );
}

#[test]
fn maven_plans() {
    assert_eq!(maven_content_type("a.pom"), "application/xml");
    assert_eq!(maven_content_type("a.war"), "application/java-archive");
    assert_eq!(maven_content_type("a.module"), "application/json");
    assert_eq!(maven_content_type("a.sha512"), "text/plain");
    assert_eq!(maven_content_type("a.zip"), "application/octet-stream");
    let put = handle_maven(Method::Put, RepoType::Hosted, "", "g/a/1.0/a-1.0.jar");
    assert!(matches!(put.route, Route::Store));
    assert_eq!(put.pkg, "g:a");
    match handle_maven(Method::Put, RepoType::Proxy, "", "g/a/1.0/a-1.0.jar").route {
        Route::Answer(a) => {
            assert_eq!(a.status, 405);
            assert_eq!(a.message, "uploads are only allowed on local repositories");
        }
        _ => panic!("a proxy took an upload"),
    }
    match handle_maven(Method::Delete, RepoType::Hosted, "", "x").route {
        Route::Answer(a) => assert_eq!((a.status, a.message.as_str()), (405, "method not allowed")),
        _ => panic!("a delete was routed"),
    }
    assert_eq!(store_reply(false).map(|a| a.status), Some(500));
    assert!(store_reply(true).is_none());
    // The artifacts of a version name the package of the metadata beside it.
    assert_eq!(maven_package("g/h/a/1.0/a-1.0.jar"), maven_package("g/h/a/maven-metadata.xml"));
    assert_eq!(last_modified(Some("Thu, 01 Jan 1970 00:00:01 GMT")), Some(stamp(SECOND)));
    assert_eq!(last_modified(Some("yesterday")), None);
    assert_eq!(last_modified(Some("")), None);
    assert_eq!(last_modified(None), None);
}

#[test]
fn join_upstream_slash_handling() {
    assert_eq!(join_upstream("https://repo/", "/g/a"), "https://repo/g/a");
}

#[test]
fn path_elements() {
    assert_eq!(path_base(""), ".");
    assert_eq!(path_base("///"), "/");
    assert_eq!(path_base("a/b/"), "b");
    assert_eq!(path_ext("a.b/c.tar.gz"), ".gz");
    assert_eq!(path_ext("a.b/c"), "");
}

#[test]
fn marshal_raw_object_is_sorted_and_verbatim() {
    let members = object(&[("b", r#"{"x":1}"#), ("a", "[1,2]"), ("c\"d", r#""v""#)]);
    let got = marshal_raw_object(&members).expect("marshal");
    let want = r#"{"a":[1,2],"b":{"x":1},"c\"d":"v"}"#;
    assert_eq!(String::from_utf8_lossy(&got), want);
    let second = marshal_raw_object(&members).expect("marshal");
    assert_eq!(got, second, "output is not stable across calls");
    assert_eq!(
        String::from_utf8_lossy(&marshal_raw_object(&RawObject::new()).expect("marshal")),
        "{}",
        "empty object"
    );
}

#[test]
fn freshness() {
    let c = cache(true);
    // Artifacts without a limit never go stale; metadata without one always does.
    assert!(fresh(NOW - 1000 * DAY, &c, Kind::Artifact, NOW));
    assert!(fresh(NOW - 59 * SECOND, &c, Kind::Metadata, NOW));
    assert!(!fresh(NOW - 60 * SECOND, &c, Kind::Metadata, NOW));
    let mut none = c;
    none.metadata_ttl = 0;
    assert!(!fresh(NOW, &none, Kind::Metadata, NOW));
    assert!(!fresh(NOW, &cache(false), Kind::Artifact, NOW));
    assert!(!needs_touch(NOW - 299 * SECOND, NOW));
    assert!(needs_touch(NOW - 300 * SECOND, NOW));
}

#[test]
fn a_waiting_fetch_may_be_spared() {
    let c = cache(true);
    let filled = artifact(NOW - SECOND, None);
    let old = artifact(NOW - HOUR, None);
    assert!(!still_needed(Lookup::Found(&filled), &c, Kind::Metadata, NOW));
    assert!(still_needed(Lookup::Found(&old), &c, Kind::Metadata, NOW));
    assert!(!still_needed(Lookup::Found(&old), &c, Kind::Artifact, NOW));
    assert!(still_needed(Lookup::Found(&filled), &cache(false), Kind::Metadata, NOW));
    assert!(still_needed(Lookup::Missing, &c, Kind::Metadata, NOW));
    assert!(still_needed(Lookup::Failed, &c, Kind::Metadata, NOW));
}

#[test]
fn shields_end_and_can_be_lifted() {
    let mut n = NegCache::new();
    n.set("a", 10 * SECOND, NOW);
    n.set("b", 10 * SECOND, NOW);
    assert!(n.has("a", NOW + 10 * SECOND));
    assert!(!n.has("a", NOW + 10 * SECOND + 1));
    n.clear("b");
    assert!(!n.has("b", NOW));
}

#[test]
fn limits() {
    assert_eq!(render_reservation(0), 1);
    assert_eq!(render_reservation(77), 77);
    assert_eq!(render_reservation(i64::MAX) as i64, MAX_INFLIGHT_RENDER_BYTES);
    assert!(over_limit("maven", 10, 11));
    assert!(!over_limit("maven", 10, 10));
    assert!(!over_limit("oci", 10, 11), "images are not evicted by layer");
    assert!(!over_limit("maven", 0, 11));
    assert!(evict_again(0, Some(16), Some(11), 10));
    assert!(!evict_again(64, Some(16), Some(11), 10));
    assert!(!evict_again(0, Some(0), Some(11), 10));
    assert!(!evict_again(0, None, Some(11), 10));
    assert_eq!(repo_label(7, ""), "id:7");
    assert_eq!(repo_label(7, "npm"), "npm");
}

#[test]
fn serving_from_the_store() {
    let mut e = Engine::new();
    let key = cache_key("r", "p");
    assert_eq!(key, "r/p");
    let age = AgePolicyConfig {
        enabled: true,
        min_age: days(7),
        max_age: 0,
        action: ACTION_BLOCK.to_string(),
    };
    let open = AgePolicyConfig::default();
    let art = artifact(NOW - HOUR, Some(NOW - DAY));

    // Hosted repositories are authoritative, whatever the cache says.
    match e.serve(&key, RepoType::Hosted, &cache(false), &open, Kind::Metadata, Lookup::Found(&art), NOW) {
        ServeStep::Serve { hit, touch } => assert!(!hit && touch),
        _ => panic!("a stored artifact was not served"),
    }
    // A young release is quarantined.
    match e.serve(&key, RepoType::Proxy, &cache(true), &age, Kind::Artifact, Lookup::Found(&art), NOW) {
        ServeStep::Answer(a) => {
            assert_eq!((a.status, a.message.as_str()), (404, "blocked by age policy"));
        }
        _ => panic!("a young release was served"),
    }
    match e.serve(&key, RepoType::Proxy, &cache(true), &open, Kind::Artifact, Lookup::Found(&art), NOW) {
        ServeStep::Serve { hit, .. } => assert!(hit),
        _ => panic!("a fresh artifact was not served"),
    }
    assert!(matches!(
        e.serve(&key, RepoType::Proxy, &cache(true), &open, Kind::Metadata, Lookup::Found(&art), NOW),
        ServeStep::Fetch
    ));
    match e.serve(&key, RepoType::Hosted, &cache(true), &open, Kind::Artifact, Lookup::Missing, NOW) {
        ServeStep::Answer(a) => {
            assert_eq!((a.status, a.message.as_str()), (404, "404 page not found"));
        }
        _ => panic!("a hosted repository went upstream"),
    }
    match e.serve(&key, RepoType::Proxy, &cache(true), &open, Kind::Artifact, Lookup::Failed, NOW) {
        ServeStep::Answer(a) => {
            assert_eq!((a.status, a.message.as_str()), (500, "metadata error"));
        }
        _ => panic!("a failed lookup was served"),
    }
}

#[test]
fn missing_paths_are_remembered() {
    let mut e = Engine::new();
    let open = AgePolicyConfig::default();
    let key = "r/p";
    let verdict = e.fetch_and_store(key, &upstream_reply(404, ""), "", 30_000_000_000, &open, NOW);
    match verdict {
        FetchVerdict::Over(o) => {
            assert_eq!(o.kind, FetchKind::NotFound);
            assert_eq!(render_outcome(&o).map(|a| a.status), Some(404));
        }
        FetchVerdict::Take(_) => panic!("a missing path was stored"),
    }
    let later = NOW + 30 * SECOND;
    match e.serve(key, RepoType::Proxy, &cache(true), &open, Kind::Artifact, Lookup::Missing, later) {
        ServeStep::Answer(a) => assert_eq!(a.status, 404),
        _ => panic!("a missing path was asked for again"),
    }
    assert!(matches!(
        e.serve(key, RepoType::Proxy, &cache(true), &open, Kind::Artifact, Lookup::Missing, later + 1),
        ServeStep::Fetch
    ));
    // An upload ends the memory at once.
    e.fetch_and_store(key, &upstream_reply(404, ""), "", 30_000_000_000, &open, NOW);
    e.uploaded("r", "p");
    assert!(matches!(
        e.serve(key, RepoType::Proxy, &cache(true), &open, Kind::Artifact, Lookup::Missing, NOW),
        ServeStep::Fetch
    ));
}

#[test]
fn limited_upstreams_are_left_alone() {
    let mut e = Engine::new();
    let open = AgePolicyConfig::default();
    match e.fetch_and_store("k", &upstream_reply(429, "60"), "", 0, &open, NOW) {
        FetchVerdict::Over(o) => {
            assert_eq!((o.kind, o.status, o.retry_after.as_str()), (FetchKind::Retry, 429, "60"));
            let reply = render_outcome(&o).expect("an answer");
            assert_eq!(reply.status, 429);
            assert_eq!(reply.retry_after.as_deref(), Some("60"));
        }
        FetchVerdict::Take(_) => panic!("a refusal was stored"),
    }
    match e.fetch_and_serve("k", true, NOW + 20 * SECOND) {
        FetchStep::Cooling(a) => {
            assert_eq!(a.status, 503);
            assert_eq!(a.retry_after.as_deref(), Some("40"));
        }
        _ => panic!("the upstream was not left alone"),
    }
    assert!(matches!(e.fetch_and_serve("k", true, NOW + 60 * SECOND), FetchStep::Coalesce));
    assert!(matches!(e.fetch_and_serve("k", false, NOW + 60 * SECOND), FetchStep::Passthrough));
}

#[test]
fn upstream_answers_are_judged() {
    let mut e = Engine::new();
    let open = AgePolicyConfig::default();
    match e.fetch_and_store("k", &upstream_reply(200, ""), "", 0, &open, NOW) {
        FetchVerdict::Take(ct) => assert_eq!(ct, "text/html", "the upstream's own type"),
        FetchVerdict::Over(_) => panic!("a good answer was refused"),
    }
    match e.fetch_and_store("k", &upstream_reply(200, ""), "application/zip", 0, &open, NOW) {
        FetchVerdict::Take(ct) => assert_eq!(ct, "application/zip"),
        FetchVerdict::Over(_) => panic!("a good answer was refused"),
    }
    match e.fetch_and_store("k", &upstream_reply(500, ""), "", 0, &open, NOW) {
        FetchVerdict::Over(o) => {
            assert_eq!(render_outcome(&o).map(|a| (a.status, a.message)), Some((502, "upstream error".to_string())));
        }
        FetchVerdict::Take(_) => panic!("a failure was stored"),
    }
    match e.fetch_passthrough("k", &upstream_reply(404, ""), "", &open, NOW) {
        StreamVerdict::Answer(a) => assert_eq!(a.status, 404),
        StreamVerdict::Stream(_) => panic!("a missing path was streamed"),
    }
    match e.fetch_passthrough("k", &upstream_reply(503, ""), "", &open, NOW) {
        StreamVerdict::Answer(a) => assert_eq!(a.retry_after.as_deref(), Some("15")),
        StreamVerdict::Stream(_) => panic!("a refusal was streamed"),
    }
    let strict = AgePolicyConfig {
        enabled: true,
        min_age: days(7),
        max_age: 0,
        action: ACTION_BLOCK.to_string(),
    };
    let mut young = upstream_reply(200, "");
    young.published = Some(stamp(NOW - DAY));
    match e.fetch_and_store("k", &young, "", 0, &strict, NOW) {
        FetchVerdict::Over(o) => assert_eq!(o.kind, FetchKind::AgeBlocked),
        FetchVerdict::Take(_) => panic!("a young release was stored"),
    }
    match e.fetch_passthrough("k", &young, "", &strict, NOW) {
        StreamVerdict::Answer(a) => assert_eq!(a.message, "blocked by age policy"),
        StreamVerdict::Stream(_) => panic!("a young release was streamed"),
    }
    assert!(render_outcome(&FetchOutcome::stored()).is_none());
}

#[test]
fn artifacts_carry_their_tag() {
    let r = serve_artifact("text/plain", "abc", 5, "", false);
    assert_eq!(r.status, 200);
    assert_eq!(r.etag.as_deref(), Some("\"abc\""));
    assert_eq!(r.content_length.as_deref(), Some("5"));
    assert!(r.body && r.bytes == 5);
    let head = serve_artifact("", "abc", 5, "", true);
    assert!(!head.body && head.bytes == 0 && head.content_type.is_none());
    assert_eq!(head.content_length.as_deref(), Some("5"));
    let same = serve_artifact("text/plain", "abc", 5, "\"abc\"", false);
    assert_eq!((same.status, same.bytes, same.body), (304, 0, false));
    assert_eq!(same.content_length, None);
}

#[test]
fn flights_have_one_leader() {
    let mut f = Flight::new();
    assert_eq!(f.join("a"), Role::Leader);
    assert_eq!(f.join("a"), Role::Waiter);
    assert_eq!(f.join("b"), Role::Leader, "keys do not interfere");
    // A leader that breaks off leaves a failure behind, not a success.
    let out = f.finish("a", None);
    assert_eq!(out.kind, FetchKind::Error);
    assert_eq!(f.join("a"), Role::Leader, "the key is not wedged");
    let out = f.finish("a", Some(FetchOutcome::stored()));
    assert_eq!(out.kind, FetchKind::Stored);
    assert_eq!(observed(Some(&out)).kind, FetchKind::Stored);
    assert_eq!(observed(None).kind, FetchKind::Error);
}

#[test]
fn credentials_stay_on_the_index_host() {
    assert!(same_host("https://index.example.com", "https://index.example.com/crates/a"));
    assert!(!same_host("https://index.crates.io", "https://static.crates.io/crates/a"));
    assert!(!same_host("https://index.example.com", "https://index.example.com:8443/a"));
    assert!(!same_host("not a url", "https://index.example.com/a"));
}

fn field<'a>(h: &'a http::HeaderMap, name: &str) -> Option<&'a str> {
    h.get(name).and_then(|v| v.to_str().ok())
}

#[test]
fn upstream_headers() {
    let (h, custom) = new_upstream_request("forklift/1", &auth("basic"));
    assert_eq!(field(&h, "user-agent"), Some("forklift/1"));
    assert_eq!(field(&h, "authorization"), Some("Basic dTpw"));
    assert_eq!(custom, None);
    let (h, _) = new_upstream_request("forklift/1", &auth("bearer"));
    assert_eq!(field(&h, "authorization"), Some("Bearer t"));
    let mut own = auth("header");
    own.header = "User-Agent".to_string();
    let (h, custom) = new_upstream_request("forklift/1", &own);
    assert_eq!(field(&h, "user-agent"), Some("v"), "the value takes the place of the other");
    assert_eq!(custom.as_deref(), Some("user-agent"));
    let (h, custom) = new_upstream_request("forklift/1", &auth("header"));
    assert_eq!(field(&h, "x-token"), Some("v"));
    assert_eq!(custom.as_deref(), Some("x-token"));
    assert_eq!(field(&h, "authorization"), None);
    // What cannot stand in a header is left out.
    let mut bad = auth("header");
    bad.header = "no good".to_string();
    assert_eq!(new_upstream_request("ua", &bad).1, None);
    let (h, _) = new_upstream_request("bad\nagent", &auth("none"));
    assert_eq!(field(&h, "user-agent"), None);
}

#[test]
fn redirects_drop_credentials() {
    let mut h = http::HeaderMap::new();
    h.insert("authorization", http::HeaderValue::from_static("Bearer t"));
    h.insert("x-token", http::HeaderValue::from_static("v"));
    h.append("x-token", http::HeaderValue::from_static("w"));
    h.insert("accept", http::HeaderValue::from_static("*/*"));
    let via = vec!["https://a.example.com/x".to_string()];
    assert!(strip_auth_on_cross_host_redirect("https://a.example.com/y", &via, &mut h, Some("x-token")).is_ok());
    assert_eq!(field(&h, "authorization"), Some("Bearer t"));
    assert!(strip_auth_on_cross_host_redirect("https://b.example.com/y", &via, &mut h, Some("x-token")).is_ok());
    assert_eq!(field(&h, "authorization"), None);
    assert_eq!(field(&h, "x-token"), None);
    assert_eq!(field(&h, "accept"), Some("*/*"));
    assert_eq!(
        strip_auth_on_cross_host_redirect("https://a/", &Vec::new(), &mut h, None),
        Err("redirect with no previous request")
    );
    let long: Vec<String> = (0..10).map(|i| format!("https://a/{i}")).collect();
    assert_eq!(
        strip_auth_on_cross_host_redirect("https://a/", &long, &mut h, None),
        Err("stopped after 10 redirects")
    );
}

#[test]
fn fetches_follow_redirects() {
    let mut f = match Fetch::start("https://a.example.com/x", "ua", &auth("bearer"), false, "text/html") {
        Ok(f) => f,
        Err(e) => panic!("{e}"),
    };
    assert_eq!(field(&f.headers, "accept"), Some("text/html"));
    assert!(matches!(f.step(200, None), FetchMove::Done));
    assert!(matches!(f.step(302, None), FetchMove::Done));
    assert!(matches!(f.step(302, Some("/y")), FetchMove::Follow));
    assert_eq!(f.next, "https://a.example.com/y");
    assert_eq!(field(&f.headers, "authorization"), Some("Bearer t"));
    assert!(matches!(f.step(301, Some("https://cdn.example.com/z")), FetchMove::Follow));
    assert_eq!(field(&f.headers, "authorization"), None);
    assert!(matches!(f.step(301, Some("https://a.example.com/x")), FetchMove::Follow));
    assert_eq!(field(&f.headers, "authorization"), None, "credentials do not come back");
    match f.step(301, Some("http://[")) {
        FetchMove::Failed(_) => {}
        _ => panic!("a broken location was followed"),
    }
    let mut n = 0;
    loop {
        match f.step(302, Some("/again")) {
            FetchMove::Follow => n += 1,
            FetchMove::Failed(e) => {
                assert_eq!(e, "stopped after 10 redirects");
                break;
            }
            FetchMove::Done => panic!("a redirect ended"),
        }
        assert!(n < 20);
    }
    // A URL that a client supplied is fetched without credentials.
    match Fetch::start("https://x/", "ua", &auth("basic"), true, "") {
        Ok(f) => assert!(field(&f.headers, "authorization").is_none() && field(&f.headers, "accept").is_none()),
        Err(e) => panic!("{e}"),
    }
    assert!(Fetch::start("not a url", "ua", &auth("basic"), false, "").is_err());
}
