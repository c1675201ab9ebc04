//! The Cargo registry: paths, web API, downloads and search.

use forklift::meta::RepoType;
use forklift::repo::cargo::{
    api_need, api_refusal, cargo_api_op, cargo_config, cargo_error_body, cargo_kind,
    cargo_ok_body, cargo_publish_body, cargo_version, external_base, handle_cargo, yank_identity,
    yank_lookup_refusal, CargoApiOp, CargoStep, Found, Need,
};
use forklift::repo::cargo_dl::{
    cargo_upstream_download_url, expand_dl, index_checksum, needs_checksum, prefix, read_template,
    within_bound, CargoDlCache,
};
use forklift::repo::cargo_search::{
    crate_summary_body, hit_path, rank_crates, search_body, search_params, ArtifactPublication,
    CrateHit, DEFAULT_PER_PAGE, MAX_PER_PAGE,
};
use forklift::repo::engine::Kind;
use forklift::repo::reply::Method;

const SECOND: i128 = 1_000_000_000;

#[test]
fn cargo_helpers() {
    let dl = "se/rd/serde-x/api/v1/crates/serde/1.2.3/download";
    assert_eq!(cargo_kind(dl), Kind::Artifact, "download should be artifact");
    assert_eq!(cargo_version(dl), "1.2.3");
    // The repo-relative download path arrives with its leading slash stripped, so
    // "api/v1/crates/..." must classify and version-extract just like the prefixed
    // form above.
    let real = "api/v1/crates/serde/1.0.197/download";
    assert_eq!(
        cargo_kind(real),
        Kind::Artifact,
        "leading-slash-stripped download should be artifact"
    );
    assert_eq!(cargo_version(real), "1.0.197");
    assert_eq!(cargo_kind("se/rd/serde"), Kind::Metadata, "index should be metadata");
}

#[test]
fn expand_dl_follows_cargo() {
    // crates.io: no markers, so cargo's default suffix.
    assert_eq!(
        expand_dl("https://static.crates.io/crates", "serde", "1.0.228", None).as_deref(),
        Some("https://static.crates.io/crates/serde/1.0.228/download")
    );
    assert_eq!(
        expand_dl("https://dl.example.com/", "serde", "1.0.0", None).as_deref(),
        Some("https://dl.example.com/serde/1.0.0/download")
    );
    // Every marker, prefixes included.
    assert_eq!(
        expand_dl(
            "https://dl.example.com/{prefix}/{lowerprefix}/{crate}-{version}.crate?c={sha256-checksum}",
            "Serde",
            "1.0.0",
            Some("abc")
        )
        .as_deref(),
        Some("https://dl.example.com/Se/rd/se/rd/Serde-1.0.0.crate?c=abc")
    );
    assert_eq!(expand_dl("https://dl.example.com/{sha256-checksum}", "a", "1.0.0", None), None);
}

#[test]
fn prefixes_match_the_sparse_layout() {
    assert_eq!(prefix("a"), "1");
    assert_eq!(prefix("ab"), "2");
    assert_eq!(prefix("abc"), "3/a");
    assert_eq!(prefix("cargo"), "ca/rg");
}

#[test]
fn prefixes_count_bytes() {
    assert_eq!(prefix("é"), "2");
    assert_eq!(prefix("éé"), "é/é");
}

#[test]
fn index_checksum_picks_the_version() {
    let body = b"{\"name\":\"a\",\"vers\":\"1.0.0\",\"cksum\":\"one\"}\n{\"name\":\"a\",\"vers\":\"1.1.0\",\"cksum\":\"two\"}\n";
    assert_eq!(index_checksum(body, "1.1.0").as_deref(), Some("two"));
    assert_eq!(index_checksum(body, "9.9.9"), None);
}

#[test]
fn index_checksum_passes_over_broken_lines() {
    let body = b"nonsense\r\n{\"vers\":\"1\"}\r\n{\"vers\":\"1\",\"cksum\":\"x\"}";
    assert_eq!(index_checksum(body, "1").as_deref(), Some("x"));
}

#[test]
fn download_urls_fall_back() {
    let url = |dl: Option<&str>, name: &str| {
        cargo_upstream_download_url("https://i/", "api/v1/crates/a/1/download", dl, name, "1", None)
    };
    assert_eq!(url(None, "a").as_deref(), Some("https://i/api/v1/crates/a/1/download"));
    assert_eq!(url(Some("https://d"), "a").as_deref(), Some("https://d/a/1/download"));
    assert_eq!(
        url(Some("https://d/{sha256-checksum}"), "a").as_deref(),
        Some("https://i/api/v1/crates/a/1/download"),
        "a checksum that is not known"
    );
    assert_eq!(url(Some("https://d/{crate}"), ""), None, "no prefix");
    assert_eq!(url(Some("https://d/{crate}"), "aéb"), None, "a cut inside a character");
    assert!(needs_checksum("{sha256-checksum}") && !needs_checksum("{crate}"));
}

#[test]
fn templates_are_read_and_remembered() {
    assert_eq!(read_template(b"{\"dl\":\"https://d\",\"api\":null}").as_deref(), Some("https://d"));
    assert_eq!(read_template(b"{\"dl\":\"\"}"), None);
    assert_eq!(read_template(b"{}"), None);
    assert_eq!(read_template(b"{\"dl\":7}"), None);
    assert_eq!(read_template(b"[\"https://d\"]").as_deref(), Some("https://d"));
    assert_eq!(read_template(b"{\"dl\":\"a\",\"x\":{\"dl\":1},\"x\":2}").as_deref(), Some("a"));
    assert_eq!(read_template(b"{\"dl\":\"a\" , \"d\\u006c\":\"b\"}"), None, "a field twice");
    assert_eq!(
        index_checksum(b"[\"1\",\"x\"]\n{\"vers\":\"1\",\"cksum\":\"y\"}", "1").as_deref(),
        Some("x")
    );
    assert_eq!(index_checksum(b"{\"vers\":\"1\",\"vers\":\"1\",\"cksum\":\"y\"}", "1"), None);
    assert_eq!(read_template(b"<html>"), None);
    assert!(within_bound(None, 1 << 20) && !within_bound(None, (1 << 20) + 1));
    assert!(!within_bound(Some((1 << 20) + 1), 0));

    let mut cache = CargoDlCache::new();
    assert!(cache.get("u", 0).is_none());
    cache.insert("u", Some("t".to_string()), 0);
    assert_eq!(cache.get("u", 899 * SECOND), Some(Some("t".to_string())));
    assert!(cache.get("u", 900 * SECOND).is_none());
    cache.insert("v", None, 0);
    assert_eq!(cache.get("v", 59 * SECOND), Some(None), "a miss is remembered too");
    assert!(cache.get("v", 60 * SECOND).is_none());
}

#[test]
fn search_params_defaults_and_clamps() {
    assert_eq!(search_params(""), (Vec::new(), DEFAULT_PER_PAGE));
    assert_eq!(
        search_params("q=Serde_JSON+macros&per_page=500"),
        (vec!["serde-json".to_string(), "macros".to_string()], MAX_PER_PAGE)
    );
    assert_eq!(search_params("per_page=0").1, 1);
    assert_eq!(search_params("per_page=abc").1, DEFAULT_PER_PAGE);
}

fn publication(coordinate: &str, yanked: bool) -> ArtifactPublication {
    ArtifactPublication { format: "cargo".to_string(), coordinate: coordinate.to_string(), yanked }
}

fn names(hits: &[CrateHit]) -> Vec<(&str, &str)> {
    hits.iter().map(|hit| (hit.name.as_str(), hit.max_version.as_str())).collect()
}

#[test]
fn rank_crates_orders_and_filters() {
    let publications = vec![
        publication("fl-widget@0.1.0", false),
        publication("fl-widget@0.2.0+build.7", false),
        publication("fl-widget@0.3.0", true),
        publication("widget@1.0.0", false),
        publication("widget-macros@1.0.0", false),
        publication("old-widget@1.0.0", true),
        publication("unrelated@1.0.0", false),
        publication("broken", false),
        ArtifactPublication {
            format: "npm".to_string(),
            coordinate: "widget-npm@1.0.0".to_string(),
            yanked: false,
        },
    ];
    let terms = vec!["widget".to_string()];
    assert_eq!(
        names(&rank_crates(&publications, &terms)),
        vec![
            ("widget", "1.0.0"),
            ("widget-macros", "1.0.0"),
            ("fl-widget", "0.2.0+build.7"),
        ]
    );
    // Every term must match, and separators fold.
    let terms = vec!["widget".to_string(), "macros".to_string()];
    assert_eq!(
        names(&rank_crates(&publications, &terms)),
        vec![("widget-macros", "1.0.0")]
    );
    // No terms lists every live crate alphabetically.
    assert_eq!(rank_crates(&publications, &Vec::new()).len(), 4);
}

#[test]
fn versions_rank_by_precedence() {
    let publications =
        vec![publication("a@1.9.0", false), publication("A@1.10.0-rc.1", false), publication("a@1.10.0", false)];
    let hits = rank_crates(&publications, &Vec::new());
    assert_eq!(names(&hits), vec![("a", "1.10.0")]);
    assert_eq!(hit_path(&hits[0]), "api/v1/crates/a/1.10.0/download");
}

#[test]
fn search_bodies() {
    let hit = CrateHit { name: "a\"b".to_string(), max_version: "1.0.0".to_string() };
    let one = crate_summary_body(&hit, "d");
    assert_eq!(one, r#"{"name":"a\"b","max_version":"1.0.0","description":"d"}"#);
    assert_eq!(
        search_body(&vec![one.clone(), one], 7),
        r#"{"crates":[{"name":"a\"b","max_version":"1.0.0","description":"d"},{"name":"a\"b","max_version":"1.0.0","description":"d"}],"meta":{"total":7}}"#
    );
}

#[test]
fn web_api_calls_are_told_apart() {
    let op = |m: Method, p: &str| cargo_api_op(m, p);
    assert!(matches!(op(Method::Get, "api/v1/crates"), Some(CargoApiOp::Search)));
    assert!(matches!(op(Method::Put, "api/v1/crates/new"), Some(CargoApiOp::Publish)));
    match op(Method::Delete, "api/v1/crates/a/1.0/yank") {
        Some(CargoApiOp::SetYanked { name, version, yanked }) => {
            assert_eq!((name.as_str(), version.as_str(), yanked), ("a", "1.0", true));
        }
        _ => panic!("yank"),
    }
    match op(Method::Put, "api/v1/crates/a/1.0/unyank") {
        Some(CargoApiOp::SetYanked { yanked, .. }) => assert!(!yanked),
        _ => panic!("unyank"),
    }
    assert!(matches!(op(Method::Get, "api/v1/crates/a/owners"), Some(CargoApiOp::Unsupported)));
    assert!(op(Method::Put, "api/v1/crates/a/1.0/download").is_none());
    assert!(op(Method::Get, "se/rd/serde").is_none());

    assert_eq!(api_need(&CargoApiOp::Search), Some(Need::Read));
    assert_eq!(api_need(&CargoApiOp::Publish), Some(Need::Write));
    assert_eq!(api_need(&CargoApiOp::Unsupported), None);
    assert_eq!(api_refusal(&CargoApiOp::Search, RepoType::Proxy).map(|r| r.status), Some(404));
    assert_eq!(api_refusal(&CargoApiOp::Publish, RepoType::Proxy).map(|r| r.status), Some(405));
    assert!(api_refusal(&CargoApiOp::Publish, RepoType::Hosted).is_none());
    match api_refusal(&CargoApiOp::Unsupported, RepoType::Hosted) {
        Some(r) => {
            assert_eq!(r.status, 404);
            assert_eq!(
                r.body,
                r#"{"errors":[{"detail":"this registry supports only search, publish, yank and unyank"}]}"#
            );
        }
        None => panic!("an unknown call was taken"),
    }
}

#[test]
fn requests_are_planned() {
    assert!(matches!(handle_cargo(Method::Get, RepoType::Proxy, "u", "config.json"), CargoStep::Config));
    assert!(matches!(handle_cargo(Method::Get, RepoType::Proxy, "u", "api/v1/crates"), CargoStep::Api(_)));
    match handle_cargo(Method::Get, RepoType::Proxy, "https://i", "se/rd/Serde") {
        CargoStep::Plan(p) => {
            assert_eq!(p.pkg, "serde");
            assert_eq!(p.fetch.content_type, "text/plain; charset=utf-8");
            assert_eq!(p.fetch.upstream_url, "https://i/se/rd/Serde");
        }
        _ => panic!("an index entry is fetched"),
    }
}

#[test]
fn yanks_name_the_version() {
    match yank_identity("Serde", "1.0.0+b7", true) {
        Ok((n, v)) => assert_eq!((n.as_str(), v.as_str()), ("serde", "1.0.0")),
        Err(r) => panic!("{}", r.body),
    }
    assert_eq!(yank_identity("a", "1", true).err().map(|r| r.status), Some(400));
    assert_eq!(yank_identity("a", "1.0.0", false).err().map(|r| r.status), Some(503));
    assert!(yank_lookup_refusal(Found::Yes).is_none());
    assert_eq!(yank_lookup_refusal(Found::No).map(|r| r.status), Some(404));
    assert_eq!(yank_lookup_refusal(Found::Unknown).map(|r| r.status), Some(503));
}

#[test]
fn registry_configuration() {
    assert_eq!(
        cargo_config("https://f", "crates", RepoType::Hosted, false, true, true),
        "{\"auth-required\":true,\"dl\":\"https://f/cargo/crates/api/v1/crates/{crate}/{version}/download\",\"api\":\"https://f/cargo/crates\"}\n"
    );
    assert_eq!(
        cargo_config("https://f", "crates", RepoType::Proxy, false, true, false),
        "{\"dl\":\"https://f/cargo/crates/api/v1/crates/{crate}/{version}/download\"}\n"
    );
    assert!(cargo_config("https://f", "g", RepoType::Proxy, true, true, false).contains("\"api\""));
    assert_eq!(cargo_ok_body(), r#"{"ok":true}"#);
    assert_eq!(
        cargo_publish_body(),
        r#"{"warnings":{"invalid_categories":[],"invalid_badges":[],"other":[]}}"#
    );
    assert_eq!(cargo_error_body("x"), r#"{"errors":[{"detail":"x"}]}"#);
    assert_eq!(external_base("https://c", true, "", "h", "", ""), "https://c");
    assert_eq!(external_base("", false, "https", "h", "", ""), "https://h");
    assert_eq!(external_base("", false, "", "", "a:1", ""), "http://a:1");
    assert_eq!(external_base("", false, "", "h", "", "fwd"), "http://fwd");
}
