//! The durable copy of the database, and the copy that a standby pulls.

use forklift::objstore::metasync::{
    classify_failure, parse_fence, Error, HeadObjectOutput, MetaSync, PromoteStep, PutBody,
    StandbyStep, SyncStart, WatchReading, FENCE_META_KEY,
};
use forklift::replication::source::{
    authorized, list_request, page_body, page_limit, query_get, read_page, DEFAULT_PAGE_SIZE,
};
use forklift::replication::{
    bearer, blob_page_url, blob_url, check_digest, judge_blob, judge_page, lease_leader_url,
    leader_url_for, snapshot_url, static_leader_url, BlobMerge, LeaderLookup, LeaderResolver,
    MergeStep, PullState, PullStep, Replicator,
};

fn head(etag: &str, fence: &str) -> HeadObjectOutput {
    HeadObjectOutput {
        e_tag: Some(etag.to_string()),
        metadata: vec![(FENCE_META_KEY.to_string(), fence.to_string())],
        content_length: Some(1),
    }
}

#[test]
fn parse_fence_cases() {
    let one = |k: &str, v: &str| vec![(k.to_string(), v.to_string())];
    assert_eq!(parse_fence(&Vec::new()), 0);
    assert_eq!(parse_fence(&one("Fence", "12")), 12);
    assert_eq!(parse_fence(&one("fence", "not-a-number")), 0);
    assert_eq!(parse_fence(&one("other", "7")), 0);
}

#[test]
fn failures_are_classified() {
    assert!(classify_failure("head", Some("NotFound"), None, "gone").is_not_found());
    assert!(classify_failure("put", None, Some(412), "changed").is_precondition_failed());
    let other = classify_failure("get", Some("SlowDown"), Some(503), "busy");
    assert!(!other.is_not_found() && !other.is_precondition_failed());
    assert!(other.message().contains("busy"));
}

#[test]
fn a_standby_downloads_what_changed() {
    let mut s = MetaSync::new("bucket", "meta.db");
    assert_eq!(s.sync_start(), SyncStart::Head);
    assert_eq!(s.standby_step(&Ok(head("e1", "1")), true), StandbyStep::Download);
    s.record_download("/tmp/snap", Some("e1".to_string()));
    assert_eq!(s.standby_step(&Ok(head("e1", "1")), true), StandbyStep::Unchanged);
    assert_eq!(s.standby_step(&Ok(head("e1", "1")), false), StandbyStep::Download);
    assert_eq!(s.standby_step(&Ok(head("e2", "1")), true), StandbyStep::Download);
    let gone = classify_failure("head", Some("NotFound"), Some(404), "gone");
    assert_eq!(s.standby_step(&Err(gone), true), StandbyStep::Nothing);
}

#[test]
fn a_newer_term_is_never_overwritten() {
    let mut s = MetaSync::new("bucket", "meta.db");
    let gone = || classify_failure("head", Some("NotFound"), Some(404), "gone");
    assert!(matches!(s.promote(3, Err(gone())), PromoteStep::Local));
    assert!(s.is_leader());
    assert_eq!(s.sync_start(), SyncStart::Upload);

    // An object of an older term is replaced, on the condition that it is still there.
    let input = match s.upload_input("/tmp/s", 10, Ok(head("e1", "2"))) {
        Ok(input) => input,
        Err(e) => panic!("{}", e.message()),
    };
    assert_eq!(input.if_match.as_deref(), Some("e1"));
    assert_eq!(input.if_none_match, None);
    assert!(input.metadata.contains(&("fence".to_string(), "3".to_string())));
    assert!(matches!(input.body, PutBody::File(_)));
    assert_eq!(parse_fence(&input.metadata), 3, "the written term reads back");

    // One of a newer term is not.
    match s.upload_input("/tmp/s", 10, Ok(head("e1", "4"))) {
        Ok(_) => panic!("overwrote the snapshot of a newer term"),
        Err(e) => {
            assert!(matches!(e, Error::Fencing(_)));
            assert_eq!(
                e.message(),
                "fencing: local term 3 older than stored 4; refusing to overwrite snapshot"
            );
        }
    }

    // Where there is none, the write must find none.
    match s.upload_input("/tmp/s", 10, Err(gone())) {
        Ok(input) => {
            assert_eq!(input.if_match, None);
            assert_eq!(input.if_none_match.as_deref(), Some("*"));
        }
        Err(e) => panic!("{}", e.message()),
    }
    s.demote();
    assert!(!s.is_leader());
}

struct Lease {
    holder: String,
}

impl LeaderLookup for Lease {
    fn leader_identity(&self) -> Result<String, forklift::replication::Error> {
        Ok(self.holder.clone())
    }
}

struct LostLease;

impl LeaderLookup for LostLease {
    fn leader_identity(&self) -> Result<String, forklift::replication::Error> {
        Err(forklift::replication::Error::Message("no lease".to_string()))
    }
}

#[test]
fn leaders_are_resolved() {
    let fixed = static_leader_url("http://leader:8080");
    assert_eq!(fixed.leader_url().ok().as_deref(), Some("http://leader:8080"));
    let by_lease = lease_leader_url(
        Lease { holder: "pod-0".to_string() },
        "pod-1",
        "peers",
        8080,
    );
    assert_eq!(
        by_lease.leader_url().ok(),
        Some("http://pod-0.peers:8080".to_string()),
    );
    for holder in ["pod-1", ""] {
        let own = lease_leader_url(Lease { holder: holder.to_string() }, "pod-1", "peers", 8080);
        assert_eq!(own.leader_url().ok().as_deref(), Some(""));
    }
    let lost = lease_leader_url(LostLease, "pod-1", "peers", 8080);
    assert_eq!(lost.leader_url().err().map(|e| e.message()), Some("no lease".to_string()));
    assert_eq!(leader_url_for("pod-1", "pod-1", "peers", 8080), "", "a leader has no leader");
    assert_eq!(leader_url_for("", "pod-1", "peers", 8080), "");
}

#[test]
fn mirroring_follows_the_leader() {
    let mut merge = BlobMerge::new(vec!["a".to_string(), "c".to_string(), "d".to_string()]);
    let mut pages = vec![vec![], vec!["b".to_string(), "c".to_string()]];
    let mut fetched: Vec<String> = Vec::new();
    let mut deleted: Vec<String> = Vec::new();
    loop {
        match merge.step() {
            MergeStep::NeedPage(_) => merge.supply(pages.pop().unwrap_or_default()),
            MergeStep::Fetch(d) => fetched.push(d),
            MergeStep::Delete(d) => deleted.push(d),
            MergeStep::Skip => {}
            MergeStep::Done => break,
        }
    }
    assert_eq!(fetched, ["b"]);
    assert_eq!(deleted, ["a", "d"]);
}

/// However the listing is divided into pages, the same is fetched and deleted.
#[test]
fn mirroring_does_not_depend_on_the_pages() {
    let remote = ["b", "c", "e", "f"];
    for size in 1..=4 {
        let mut merge = BlobMerge::new(vec!["a".to_string(), "c".to_string(), "g".to_string()]);
        let mut steps: Vec<String> = Vec::new();
        loop {
            match merge.step() {
                MergeStep::NeedPage(after) => {
                    let page = remote.iter().filter(|d| **d > after.as_str()).take(size);
                    merge.supply(page.map(|d| d.to_string()).collect());
                }
                MergeStep::Fetch(d) => steps.push(format!("+{d}")),
                MergeStep::Delete(d) => steps.push(format!("-{d}")),
                MergeStep::Skip => steps.push("=".to_string()),
                MergeStep::Done => break,
            }
        }
        assert_eq!(steps, ["-a", "+b", "=", "+e", "+f", "-g"], "pages of {size}");
    }
}

#[test]
fn a_pull_commits_last() {
    let mut r = Replicator::new();
    let step = r.sync_start(Ok("http://leader".to_string()));
    let state = match step {
        PullStep::Go { state } => state,
        _ => panic!("the cycle did not start"),
    };
    let state = match r.sync_next(state, Ok("/tmp/x".to_string()), "/data/snap") {
        PullStep::Go { state } => state,
        _ => panic!("no mirroring"),
    };
    assert!(matches!(state, PullState::Mirroring { .. }));
    assert!(r.promote().is_none(), "nothing is committed yet");
    r.demote();
    let state = match r.sync_next(state, Ok(String::new()), "/data/snap") {
        PullStep::Go { state } => state,
        _ => panic!("no commit"),
    };
    assert!(matches!(r.sync_next(state, Ok(String::new()), "/data/snap"), PullStep::Committed));
    assert_eq!(r.promote().as_deref(), Some("/data/snap"));
    assert!(matches!(r.sync_start(Ok("http://leader".to_string())), PullStep::Idle));
}

#[test]
fn requests_between_peers() {
    assert_eq!(bearer("t"), "Bearer t");
    assert_eq!(snapshot_url("http://l"), "http://l/internal/replication/db");
    assert!(blob_url("http://l", "abc").ends_with("/abc"));
    assert!(blob_page_url("http://l", "a&b").contains("a%26b"), "the digest is encoded");
    assert!(authorized("t", "Bearer t"));
    assert!(!authorized("t", "Bearer u"));
    assert!(!authorized("", "Bearer "));
    assert!(judge_page(200).is_ok() && judge_page(500).is_err());
    assert!(matches!(judge_blob(404, "d"), Ok(false)));
    assert!(matches!(judge_blob(200, "d"), Ok(true)));
    assert!(judge_blob(500, "d").is_err());
    assert!(check_digest("a", "a").is_ok());
    match check_digest("a", "b") {
        Ok(()) => panic!("digests differ"),
        Err(e) => assert_eq!(e.message(), "blob digest mismatch: want a got b"),
    }
    assert_eq!(query_get(Some("after=x%20y&limit=3"), "after"), "x y");
    assert_eq!(query_get(None, "after"), "");
    assert_eq!(page_limit("").unwrap_or(0), DEFAULT_PAGE_SIZE);
    assert_eq!(page_limit("7"), Some(7));
    assert_eq!(page_limit("x"), None);
    assert_eq!(list_request(Some("after=d&limit=2")), Some(("d".to_string(), 2)));
}

#[test]
fn pages_read_back() {
    for digests in [vec![], vec!["a".to_string()], vec!["a".to_string(), "b\"c".to_string()]] {
        let body = page_body(&digests);
        assert_eq!(read_page(body.as_bytes()), Some(digests));
    }
    assert_eq!(page_body(&Vec::new()), "{\"digests\":null}\n");
    assert_eq!(page_body(&vec!["a".to_string()]), "{\"digests\":[\"a\"]}\n");
    assert_eq!(read_page(b"{}"), None);
    assert_eq!(read_page(b"{\"digests\":[1]}"), None);
    assert_eq!(read_page(b"[]"), None);
    assert_eq!(read_page(b"[[\"a\"]]"), Some(vec!["a".to_string()]));
    assert_eq!(read_page(b"[null]"), Some(vec![]));
    assert_eq!(read_page(b"[null,1]"), None, "a field too many");
    assert_eq!(read_page(b"{\"digests\":[],\"digests\":[]}"), None, "a field twice");
}

#[test]
fn leaders_upload_what_changed() {
    let mut s = MetaSync::new("bucket", "meta.db");
    assert_eq!(s.changed_since_upload(WatchReading::Version(7)), (7, true), "nothing was uploaded yet");
    assert!(matches!(s.record_upload(7, Ok(())), Ok(_)));
    assert_eq!(s.changed_since_upload(WatchReading::Version(7)), (7, false));
    assert_eq!(s.changed_since_upload(WatchReading::Version(8)), (8, true));
    assert_eq!(s.changed_since_upload(WatchReading::Unopened), (0, true));
    assert_eq!(s.changed_since_upload(WatchReading::Version(7)), (7, false), "nothing is forgotten");
    assert_eq!(s.changed_since_upload(WatchReading::Broken), (0, true));
    assert_eq!(s.changed_since_upload(WatchReading::Version(7)), (7, true), "any doubt is a change");
}

#[test]
fn promotion_takes_the_current_object() {
    let mut s = MetaSync::new("bucket", "meta.db");
    s.record_download("/tmp/snap", Some("e1".to_string()));
    match s.promote(1, Ok(head("e1", "0"))) {
        PromoteStep::Apply { path } => assert_eq!(path, "/tmp/snap"),
        _ => panic!("the copy at hand is current"),
    }
    assert!(!s.is_leader(), "not before the database is in place");
    assert!(s.promote_applied(Ok(())).is_ok());
    assert!(s.is_leader() && s.final_sync());

    let mut s = MetaSync::new("bucket", "meta.db");
    s.record_download("/tmp/snap", Some("e1".to_string()));
    assert!(matches!(s.promote(1, Ok(head("e2", "0"))), PromoteStep::Download));
    assert!(!s.is_leader());
    match s.promote_downloaded("/tmp/p", Ok(true)) {
        PromoteStep::Apply { path } => assert_eq!(path, "/tmp/p"),
        _ => panic!("the download is applied"),
    }
    let failed = classify_failure("apply", None, Some(500), "disk");
    assert!(s.promote_applied(Err(failed)).is_err());
    assert!(!s.is_leader(), "a failed promotion leaves a standby");
}
