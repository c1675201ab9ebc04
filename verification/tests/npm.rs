//! npm: packuments, tarballs and publishing.

use forklift::config::{AgePolicyConfig, CacheConfig, ACTION_BLOCK};
use forklift::meta::RepoType;
use forklift::repo::engine::{stored_artifact, Engine, FetchKind, FetchOutcome, Lookup};
use forklift::repo::native_upload::{
    closing_boundary, escape_quotes, multipart_content_type, native_multipart_boundary,
    native_upload_principal, native_upload_problem, npm_publish_atomic, part_header, reads_on, ContentFields,
    FieldStep,
};
use forklift::repo::npm::{decode_npm_path, npm_package, rewrite_packument, rewrite_version_tarball};
use forklift::repo::npm_serve::{
    npm_packument, npm_packument_passthrough, npm_publish, npm_request_path, npm_route,
    npm_tarball_published, packument_fetch, packument_flight_key, packument_outcome, read_times,
    publish_store_failed, tarball_fetch, tarball_package_path, tarball_release_time, NpmRoute,
    PackumentStep, PublishPart,
};
use forklift::repo::reply::Method;
use forklift::repo::route::{release_time, ReleaseSource};
use forklift::repo::span::json_field_span;
use forklift::times::Stamp;

const SECOND: i128 = 1_000_000_000;
/// A time in whole seconds.
fn at(secs: i64) -> Stamp {
    Stamp { secs, nanos: 0 }
}

const DAY: i128 = 24 * 3600 * SECOND;
/// 2026-06-30T12:00:00Z
const NOW: i128 = 1_782_820_800 * SECOND;

#[test]
fn rewrite_packument_preserves_fields() {
    let body = br#"{
        "name":"pkg",
        "description":"top-level field must survive",
        "dist-tags":{"latest":"1.0.0"},
        "versions":{"1.0.0":{
            "name":"pkg",
            "version":"1.0.0",
            "dependencies":{"left-pad":"^1.0.0"},
            "dist":{"tarball":"http://up/pkg/-/pkg-1.0.0.tgz","integrity":"sha512-abc","shasum":"deadbeef"}
        }},
        "time":{"1.0.0":"2020-01-01T00:00:00Z"}
    }"#;
    let (out, removed) = rewrite_packument(
        body,
        "https://forklift.example",
        "npmproxy",
        "pkg",
        &AgePolicyConfig::default(),
        NOW,
    );
    assert_eq!(removed, 0, "removed, want 0 (no age policy)");
    let doc: serde_json::Value =
        serde_json::from_slice(&out).expect("rewritten packument is not valid JSON");
    assert_eq!(doc["description"], "top-level field must survive", "top-level field dropped");
    let version = &doc["versions"]["1.0.0"];
    assert_eq!(version["version"], "1.0.0", "version field dropped");
    assert_eq!(version["dependencies"]["left-pad"], "^1.0.0", "dependencies dropped");
    assert_eq!(version["dist"]["integrity"], "sha512-abc", "sibling dist fields dropped");
    assert_eq!(version["dist"]["shasum"], "deadbeef", "sibling dist fields dropped");
    assert_eq!(
        version["dist"]["tarball"],
        "https://forklift.example/npm/npmproxy/pkg/-/pkg-1.0.0.tgz",
        "tarball not rewritten to forklift"
    );
}

#[test]
fn young_versions_are_held_back() {
    let body = br#"{"name":"pkg","dist-tags":{"latest":"2.0.0","old":"1.0.0"},
        "versions":{"1.0.0":{"dist":{"tarball":"http://up/pkg-1.0.0.tgz"}},"2.0.0":{"dist":{}}},
        "time":{"1.0.0":"2020-01-01T00:00:00Z","2.0.0":"2026-06-30T00:00:00Z"}}"#;
    let age = AgePolicyConfig {
        enabled: true,
        action: ACTION_BLOCK.to_string(),
        min_age: 7 * 24 * 3600 * 1_000_000_000,
        max_age: 0,
    };
    let (out, removed) = rewrite_packument(body, "https://f", "r", "pkg", &age, NOW);
    assert_eq!(removed, 1);
    let doc: serde_json::Value = serde_json::from_slice(&out).expect("valid JSON");
    assert!(doc["versions"].get("2.0.0").is_none(), "{doc}");
    assert_eq!(doc["dist-tags"]["latest"], "1.0.0", "latest points at a version that is kept");
    // Once the cooldown is over, nothing is held.
    let (_, removed) = rewrite_packument(body, "https://f", "r", "pkg", &age, NOW + 7 * DAY);
    assert_eq!(removed, 0);
    // What is no packument is handed back as it is.
    let (out, removed) = rewrite_packument(b"not json", "https://f", "r", "pkg", &age, NOW);
    assert_eq!((out.as_slice(), removed), (&b"not json"[..], 0));
}

#[test]
fn json_field_span_locates_values() {
    let cases = [
        (
            "string value",
            r#"{"a":"x","tarball":"http://u/p.tgz"}"#,
            "tarball",
            r#""http://u/p.tgz""#,
        ),
        ("whitespace around colon", "{\"tarball\" \t: \n \"u\"}", "tarball", r#""u""#),
        ("object value", r#"{"dist":{"tarball":"u"},"z":1}"#, "dist", r#"{"tarball":"u"}"#),
        ("array value", r#"{"k":[1,2,{"k":3}]}"#, "k", r#"[1,2,{"k":3}]"#),
        ("first of duplicates", r#"{"k":1,"k":2}"#, "k", "1"),
        ("escaped key", r#"{"a\"b":7}"#, "a\"b", "7"),
    ];
    for (name, obj, key, want) in cases {
        let (start, end) =
            json_field_span(obj.as_bytes(), key).unwrap_or_else(|| panic!("{name}: key not found"));
        assert_eq!(&obj[start..end], want, "{name}: span");
    }
}

#[test]
fn json_field_span_ignores_nested_and_missing_keys() {
    for (name, obj) in [
        ("nested only", r#"{"dist":{"tarball":"u"}}"#),
        ("inside string", r#"{"description":"the tarball is here"}"#),
        ("absent", r#"{"a":1}"#),
        ("not an object", r#"["tarball","u"]"#),
        ("truncated", r#"{"tarball":"#),
    ] {
        assert!(
            json_field_span(obj.as_bytes(), "tarball").is_none(),
            "{name}: matched a key that is not a field of this object"
        );
    }
}

#[test]
fn rewrite_version_tarball_splices_only_the_url() {
    let raw = r#"{"zzz":"last","name":"pkg","dist":{"integrity":"sha512-AAA==","tarball":"https://registry.npmjs.org/pkg/-/pkg-1.0.0.tgz","shasum":"abc"},"aaa":{"nested":[1,2]}}"#;
    let out =
        rewrite_version_tarball(raw.as_bytes(), "https://forklift.example.com", "npmjs", "pkg")
            .expect("rewrite reported no change");
    let want = raw.replace(
        r#""https://registry.npmjs.org/pkg/-/pkg-1.0.0.tgz""#,
        r#""https://forklift.example.com/npm/npmjs/pkg/-/pkg-1.0.0.tgz""#,
    );
    assert_eq!(out, want, "rewrite changed more than the URL");
}

#[test]
fn rewrite_version_tarball_leaves_manifests_without_a_dist_url() {
    for (name, raw) in [
        ("no dist", r#"{"name":"pkg"}"#),
        ("no tarball", r#"{"dist":{"shasum":"abc"}}"#),
        ("dist is not an object", r#"{"dist":"nope"}"#),
    ] {
        assert!(
            rewrite_version_tarball(raw.as_bytes(), "https://f.example.com", "npmjs", "pkg")
                .is_none(),
            "{name}: reported a rewrite"
        );
    }
}

#[test]
fn requests_are_routed() {
    assert_eq!(npm_request_path("@s%2fn").ok().as_deref(), Some("@s/n"));
    match npm_request_path("a/%2e%2e/b") {
        Ok(p) => panic!("{p}"),
        Err(a) => assert_eq!((a.status, a.message.as_str()), (400, "invalid path")),
    }
    assert!(matches!(npm_route(Method::Get, RepoType::Proxy, "a"), NpmRoute::Packument));
    assert!(matches!(npm_route(Method::Head, RepoType::Proxy, "a/-/a-1.tgz"), NpmRoute::Tarball));
    assert!(matches!(npm_route(Method::Put, RepoType::Hosted, "a"), NpmRoute::Publish));
    for (method, kind, path, message) in [
        (Method::Put, RepoType::Proxy, "a", "uploads are only allowed on local repositories"),
        (Method::Put, RepoType::Hosted, "a/-/a-1.tgz", "method not allowed"),
        (Method::Delete, RepoType::Hosted, "a", "method not allowed"),
    ] {
        match npm_route(method, kind, path) {
            NpmRoute::Answer(a) => assert_eq!((a.status, a.message.as_str()), (405, message)),
            _ => panic!("{path} was taken"),
        }
    }
    let spec = tarball_fetch("https://up", "a/-/a-1.0.0.tgz", true, None);
    assert_eq!(spec.version, "1.0.0");
    assert_eq!(spec.content_type, "application/octet-stream");
    let spec = packument_fetch("https://up/", "@s/n");
    assert_eq!(spec.upstream_url, "https://up/@s/n");
    assert_eq!(spec.max_store_bytes, 64 << 20);
    let header = Some("Thu, 01 Jan 1970 00:00:09 GMT");
    assert_eq!(spec.published, ReleaseSource::Unknown);
    assert_eq!(release_time(spec.published, header), None, "a packument has no age");
    let spec = tarball_fetch("https://up", "a/-/a-1.0.0.tgz", true, Some(at(2)));
    assert_eq!(release_time(spec.published, header), Some(at(2)));
    let spec = tarball_fetch("https://up", "a/-/a-1.0.0.tgz", false, Some(at(2)));
    assert_eq!(release_time(spec.published, header), Some(at(9)));
    assert_eq!(packument_flight_key("r/a"), "npm-packument:r/a");
}

#[test]
fn paths_are_canonical() {
    for raw in ["@s%2fn", "@s%2Fn", "@s/n"] {
        assert_eq!(decode_npm_path(raw), "@s/n");
        assert_eq!(npm_package(raw), "@s/n");
        assert_eq!(npm_request_path(raw).ok().as_deref(), Some("@s/n"));
    }
    assert_eq!(decode_npm_path("caf%C3%A9"), "caf\u{e9}");
    // What is not valid percent-encoding is taken as it stands.
    for raw in ["a%2fb%zz", "a%2fb%", "a%2fb%2", "%%2f", "a%2gb%2f", "%ff", "caf\u{e9}%2f%"] {
        assert_eq!(decode_npm_path(raw), raw);
    }
    assert_eq!(decode_npm_path("caf\u{e9}%2fx"), "caf\u{e9}/x");
    assert_eq!(npm_package("a%2fb%zz"), "a%2fb%zz");
}

#[test]
fn release_times_come_from_the_packument() {
    let times = read_times(br#"{"time":{"1.0.0":"1970-01-01T00:00:02Z","2.0.0":"soon"}}"#)
        .expect("times");
    assert_eq!(npm_tarball_published(Some(&times), "1.0.0"), Some(at(2)));
    assert_eq!(npm_tarball_published(Some(&times), "2.0.0"), None);
    assert_eq!(npm_tarball_published(Some(&times), ""), None);
    assert_eq!(npm_tarball_published(None, "1.0.0"), None);
    assert_eq!(read_times(b"{}").map(|t| t.len()), Some(0));
    assert!(read_times(br#"{"time":{"1.0.0":7}}"#).is_none());
    assert_eq!(tarball_package_path("@s/n/-/n-1.tgz"), "@s/n");
    let header = Some("Thu, 01 Jan 1970 00:00:09 GMT");
    assert_eq!(tarball_release_time(true, Some(at(2)), header), Some(at(2)));
    assert_eq!(tarball_release_time(false, Some(at(2)), header), Some(at(9)));
    assert_eq!(tarball_release_time(true, None, header), Some(at(9)));
}

#[test]
fn packuments_are_served_or_fetched() {
    let cache = CacheConfig {
        enabled: true,
        metadata_ttl: 60_000_000_000,
        artifact_ttl: 0,
        negative_ttl: 10_000_000_000,
        max_size_bytes: 0,
    };
    let art = stored_artifact(1, "a", "", "application/json", "sha", 3, None, "", NOW - SECOND);
    let mut e = Engine::new();
    let step = npm_packument(&mut e, "r/a", RepoType::Proxy, &cache, Lookup::Found(&art), NOW);
    assert!(matches!(step, PackumentStep::Render { touch: false }));
    let step = npm_packument(&mut e, "r/a", RepoType::Proxy, &cache, Lookup::Missing, NOW);
    assert!(matches!(step, PackumentStep::Coalesce));
    let mut off = cache;
    off.enabled = false;
    let step = npm_packument(&mut e, "r/a", RepoType::Proxy, &off, Lookup::Missing, NOW);
    assert!(matches!(step, PackumentStep::Passthrough));
    match npm_packument(&mut e, "r/a", RepoType::Hosted, &cache, Lookup::Missing, NOW) {
        PackumentStep::Answer(a) => assert_eq!(a.status, 404),
        _ => panic!("a hosted repository went upstream"),
    }
    match npm_packument(&mut e, "r/a", RepoType::Proxy, &cache, Lookup::Failed, NOW) {
        PackumentStep::Answer(a) => assert_eq!(a.message, "metadata error"),
        _ => panic!("a failed lookup was served"),
    }
    // Passing through remembers what is missing, and who wants rest.
    assert!(npm_packument_passthrough(&mut e, "r/a", 200, "", 10_000_000_000, NOW).is_none());
    let a = npm_packument_passthrough(&mut e, "r/b", 404, "", 10_000_000_000, NOW);
    assert_eq!(a.map(|a| a.status), Some(404));
    match npm_packument(&mut e, "r/b", RepoType::Proxy, &off, Lookup::Missing, NOW) {
        PackumentStep::Answer(a) => assert_eq!(a.status, 404),
        _ => panic!("a missing package was asked for again"),
    }
    let a = npm_packument_passthrough(&mut e, "r/c", 429, "60", 0, NOW).expect("an answer");
    assert_eq!((a.status, a.retry_after.as_deref()), (429, Some("60")));
    match npm_packument(&mut e, "r/c", RepoType::Proxy, &off, Lookup::Missing, NOW) {
        PackumentStep::Answer(a) => assert_eq!((a.status, a.retry_after.as_deref()), (503, Some("60"))),
        _ => panic!("the upstream was not left alone"),
    }
    assert_eq!(
        npm_packument_passthrough(&mut e, "r/d", 500, "", 0, NOW).map(|a| a.status),
        Some(502)
    );
    let blocked = FetchOutcome { kind: FetchKind::AgeBlocked, status: 0, retry_after: String::new() };
    assert_eq!(packument_outcome(&blocked).map(|a| a.status), Some(502));
    assert!(packument_outcome(&FetchOutcome::stored()).is_none());
}

#[test]
fn a_publish_stores_tarballs_and_index() {
    let body = br#"{"name":"@s/n","_attachments":{"@s/n-1.0.0.tgz":{"data":"aGk="},"junk":7},"versions":{},"dist-tags":{"latest":"1.0.0"}}"#;
    let plan = match npm_publish(body, "@s/n") {
        Ok(p) => p,
        Err(a) => panic!("{}", a.message),
    };
    assert!(plan.problem.is_none());
    assert_eq!(plan.tarballs.len(), 1);
    assert_eq!(plan.tarballs[0].path, "@s/n/-/n-1.0.0.tgz");
    assert_eq!(plan.tarballs[0].version, "1.0.0");
    assert_eq!(plan.tarballs[0].bytes, b"hi");
    assert_eq!(plan.index, r#"{"name":"@s/n","dist-tags":{"latest":"1.0.0"},"versions":{}}"#);

    // The attachments before a broken one are stored all the same.
    let broken = br#"{"_attachments":{"a-1.tgz":{"data":"aGk="},"a-2.tgz":{"data":"%"},"a-3.tgz":{"data":"aGk="}}}"#;
    match npm_publish(broken, "a") {
        Ok(p) => {
            assert_eq!(p.tarballs.len(), 1);
            assert_eq!(p.problem.map(|a| a.message), Some("invalid attachment encoding".to_string()));
        }
        Err(a) => panic!("{}", a.message),
    }
    match npm_publish(b"[]", "a") {
        Ok(_) => panic!("an array is no publish document"),
        Err(a) => assert_eq!((a.status, a.message.as_str()), (400, "invalid publish document")),
    }
    assert_eq!(publish_store_failed(PublishPart::Tarball).message, "store tarball failed");
    assert_eq!(publish_store_failed(PublishPart::Packument).message, "store packument failed");
}

#[test]
fn a_managed_publish_has_one_attachment() {
    let body = br#"{"_attachments":{"@s/n-1.0.0.tgz":{"data":"aGk="}},"dist-tags":{"next":"1.0.0","beta":"1.0.0"}}"#;
    match npm_publish_atomic(body) {
        Ok(up) => {
            assert_eq!(up.filename, "n-1.0.0.tgz");
            assert_eq!(up.tarball, b"hi");
            assert_eq!(up.dist_tag, "next", "the first tag that is named");
        }
        Err(a) => panic!("{}", a.message),
    }
    let with_latest = br#"{"_attachments":{"a":{"data":"aGk="}},"dist-tags":{"next":"1","latest":"1"}}"#;
    assert_eq!(npm_publish_atomic(with_latest).ok().map(|u| u.dist_tag), Some("latest".to_string()));
    for (body, message) in [
        (&b"{}"[..], "publish document must contain exactly one attachment"),
        (b"{\"_attachments\":{\"a\":{},\"b\":{}}}", "publish document must contain exactly one attachment"),
        (b"{\"_attachments\":{\"a\":7}}", "invalid attachment"),
        (b"{\"_attachments\":{\"a\":{}}}", "attachment data is required"),
        (b"{\"_attachments\":{\"\":{\"data\":\"aGk=\"}}}", "attachment data is required"),
        (b"{\"_attachments\":{\"a\":{\"data\":\"%\"}}}", "invalid npm attachment"),
    ] {
        match npm_publish_atomic(body) {
            Ok(_) => panic!("{message}"),
            Err(a) => assert_eq!((a.status, a.message.as_str()), (400, message)),
        }
    }
}

#[test]
fn legacy_forms_hold_one_distribution() {
    assert!(reads_on((1 << 20) - 1) && !reads_on(1 << 20));
    let mut f = ContentFields::new();
    assert_eq!(f.finish(), Some("missing content field"));
    assert!(matches!(f.step(Some("name")), FieldStep::Skip));
    assert!(matches!(f.step(None), FieldStep::Skip));
    assert!(matches!(f.step(Some("content")), FieldStep::Forward));
    assert_eq!(f.finish(), None);
    assert!(matches!(f.step(Some("content")), FieldStep::Fail("duplicate content field")));
}

#[test]
fn multipart_framing() {
    assert_eq!(escape_quotes("a\"b\\c"), "a\\\"b\\\\c");
    assert_eq!(
        part_header("B", "manifest", None),
        "--B\r\nContent-Disposition: form-data; name=\"manifest\"\r\n\r\n"
    );
    assert_eq!(
        part_header("B", "asset0", Some("x\"y")),
        "--B\r\nContent-Disposition: form-data; name=\"asset0\"; filename=\"x\\\"y\"\r\nContent-Type: application/octet-stream\r\n\r\n"
    );
    assert_eq!(closing_boundary("B"), "--B--\r\n");
    assert_eq!(multipart_content_type("B"), "multipart/form-data; boundary=B");
    assert_eq!(native_multipart_boundary(None), "forkliftnativeupload");
    assert_eq!(native_multipart_boundary(Some("x")), "x");
    assert_eq!(
        native_upload_principal(None),
        ("native-client".to_string(), "protocol".to_string())
    );
    assert_eq!(native_upload_principal(Some(("a", "ldap"))), ("a".to_string(), "ldap".to_string()));
    assert_eq!(native_upload_problem(409, "exists").status, 409);
    assert_eq!(native_upload_problem(7, "x").status, 500);
}
