//! What holds of snapshots and replicas: who writes, who reads, and what is never lost.

use vstd::prelude::*;
use vstd::utf8::encode_utf8;

use crate::bridge::{form_pairs, json_object, json_string_list};
use crate::json::member_map;
use crate::objstore::metasync::{
    classify_failure, fence_of, Error, HeadObjectOutput, MetaSync, PromoteStep, PutObjectInput,
    StandbyStep, SyncStart, WatchReading,
};
use crate::percent::form_encoded;
use crate::replication::source::{
    authorized, first_value, list_request, page_body, page_limit, page_text, read_page,
};
use crate::replication::{
    bearer, blob_page_url, blob_url, check_digest, judge_blob, judge_page, judge_snapshot,
    leader_url_for, merge_steps, snapshot_url, PullState, PullStep, Replicator, Step,
};
use crate::repo::document_laws::records_hold_their_fields;
use crate::repo::span::named_twice;
use crate::text::{decimal, i64_value, text_lt, texts};

verus! {

// ---------------------------------------------------------------------------
// Snapshots

/// A leader uploads and a standby looks; a standby keeps the copy it has where that is the
/// current one, and downloads otherwise. Where there is no snapshot it waits.
pub proof fn standbys_follow_the_object(
    s: &MetaSync,
    start: SyncStart,
    head: &Result<HeadObjectOutput, Error>,
    present: bool,
    r: StandbyStep,
    flush: bool,
)
    requires
        call_ensures(MetaSync::sync_start, (s,), start),
        call_ensures(MetaSync::standby_step, (s, head, present), r),
        call_ensures(MetaSync::final_sync, (s,), flush),
    ensures
        start == SyncStart::Upload <==> s.leader,
        flush <==> s.leader,
        *head is Err && (*head)->Err_0.says_not_found() ==> r == StandbyStep::Nothing,
        *head is Err && !(*head)->Err_0.says_not_found() ==> r == StandbyStep::Download,
        *head is Ok ==> (r == StandbyStep::Unchanged <==> present && s.snapshot_path is Some
            && s.snapshot_etag is Some && (*head)->Ok_0.e_tag is Some && s.snapshot_etag->0@
            == (*head)->Ok_0.e_tag->0@),
        *head is Ok ==> r != StandbyStep::Nothing,
{
}

/// A leader uploads where the database has changed since its last upload, or where it
/// cannot tell; only a broken watch forgets the last upload.
pub proof fn leaders_upload_what_changed(s: &mut MetaSync, reading: WatchReading, r: (i64, bool))
    requires
        call_ensures(MetaSync::changed_since_upload, (s, reading), r),
    ensures
        reading matches WatchReading::Version(v) ==> (!r.1 <==> old(s).have_uploaded
            && old(s).uploaded_version == v) && r.0 == v,
        !(reading is Version) ==> r.1,
        reading is Unopened ==> *final(s) == *old(s),
        reading is Broken ==> !final(s).have_uploaded,
        final(s).leader == old(s).leader,
        final(s).fence == old(s).fence,
{
}

/// No upload overwrites the snapshot of a newer leadership, and every upload replaces what
/// was looked at and nothing else: the object of that tag, or none. It carries this
/// leadership's own term.
pub proof fn uploads_are_fenced(
    s: &MetaSync,
    snap: &str,
    size: i64,
    head: Result<HeadObjectOutput, Error>,
    r: Result<PutObjectInput, Error>,
)
    requires
        call_ensures(MetaSync::upload_input, (s, snap, size, head), r),
    ensures
        head is Ok && fence_of(head->Ok_0.metadata@) > s.fence ==> r is Err,
        head is Ok && fence_of(head->Ok_0.metadata@) <= s.fence ==> r is Ok && r->Ok_0.if_match
            == head->Ok_0.e_tag && r->Ok_0.if_none_match is None,
        head is Err && head->Err_0.says_not_found() ==> r is Ok && r->Ok_0.if_match is None
            && r->Ok_0.if_none_match is Some && r->Ok_0.if_none_match->0@ == "*"@,
        head is Err && !head->Err_0.says_not_found() ==> r is Err,
        r is Ok ==> r->Ok_0.bucket@ == s.bucket@ && r->Ok_0.key@ == s.key@ && r->Ok_0.content_length
            == size && fence_of(r->Ok_0.metadata@) == s.fence,
{
    if r is Ok {
        crate::objstore::metasync::written_fence_reads_back(r->Ok_0.metadata@, s.fence);
    }
}

/// The term of a snapshot is the number under `fence` in its metadata, in any case of
/// letters, and nought where there is none.
pub proof fn terms_are_read_from_metadata(md: Seq<(String, String)>, p: (String, String))
    requires
        p.0@ == "fence"@,
        i64_value(p.1@) is Some,
    ensures
        fence_of(seq![p] + md) == i64_value(p.1@)->0,
        fence_of(Seq::empty()) == 0,
{
    reveal_strlit("fence");
    assert(crate::objstore::metasync::ascii_small("fence"@) =~= "fence"@);
    assert((seq![p] + md)[0] == p);
}

/// A promotion takes the current snapshot before it leads: the copy at hand only where it
/// is that of the object, and local data only where there is no object. A look that fails
/// promotes nobody.
pub proof fn promotions_take_the_current_snapshot(
    s: &mut MetaSync,
    fence: i64,
    head: Result<HeadObjectOutput, Error>,
    r: PromoteStep,
)
    requires
        call_ensures(MetaSync::promote, (s, fence, head), r),
        !old(s).leader,
    ensures
        final(s).fence == fence,
        final(s).leader <==> r is Local,
        r is Local <==> head is Err && head->Err_0.says_not_found(),
        r is Failed <==> head is Err && !head->Err_0.says_not_found(),
        r is Apply ==> head is Ok && old(s).snapshot_path is Some && r->path@ == old(
            s,
        ).snapshot_path->0@ && old(s).snapshot_etag is Some && head->Ok_0.e_tag is Some && old(
            s,
        ).snapshot_etag->0@ == head->Ok_0.e_tag->0@,
        r is Download ==> head is Ok && !(old(s).snapshot_path is Some && old(
            s,
        ).snapshot_etag is Some && head->Ok_0.e_tag is Some && old(s).snapshot_etag->0@
            == head->Ok_0.e_tag->0@),
        !final(s).have_uploaded,
{
}

/// A promotion leads only once the snapshot is in place.
pub proof fn promotions_lead_once_applied(
    s: &mut MetaSync,
    applied: Result<(), Error>,
    r: Result<(), Error>,
)
    requires
        call_ensures(MetaSync::promote_applied, (s, applied), r),
        !old(s).leader,
    ensures
        final(s).leader <==> applied is Ok,
        r is Ok <==> applied is Ok,
{
}

/// A snapshot that was downloaded is applied, one that vanished leaves the local data, and
/// a download that failed promotes nobody.
pub proof fn promotions_apply_what_was_downloaded(
    s: &mut MetaSync,
    path: &str,
    found: Result<bool, Error>,
    r: PromoteStep,
)
    requires
        call_ensures(MetaSync::promote_downloaded, (s, path, found), r),
        !old(s).leader,
    ensures
        found == Ok::<bool, Error>(true) ==> r is Apply && r->path@ == path@ && !final(s).leader,
        found == Ok::<bool, Error>(false) ==> r is Local && final(s).leader,
        found is Err ==> r is Failed && !final(s).leader,
{
}

/// Only a successful upload counts as the last one.
pub proof fn only_successful_uploads_count(
    s: &mut MetaSync,
    version: i64,
    outcome: Result<(), Error>,
    r: Result<(), Error>,
)
    requires
        call_ensures(MetaSync::record_upload, (s, version, outcome), r),
    ensures
        r is Ok <==> outcome is Ok,
        outcome is Ok ==> final(s).have_uploaded && final(s).uploaded_version == version,
        outcome is Err ==> final(s).have_uploaded == old(s).have_uploaded
            && final(s).uploaded_version == old(s).uploaded_version,
{
}

/// A demotion ends leadership and forgets the last upload.
pub proof fn demotions_end_leadership(s: &mut MetaSync)
    requires
        call_ensures(MetaSync::demote, (s,), ()),
    ensures
        !final(s).leader,
        !final(s).have_uploaded,
        final(s).fence == old(s).fence,
{
}

// ---------------------------------------------------------------------------
// Replicas

/// The leader is reached by its name within the service; nobody pulls from themselves, nor
/// from nobody.
pub proof fn leaders_are_reached_by_name(
    holder: &str,
    identity: &str,
    service: &str,
    port: i64,
    r: String,
)
    requires
        call_ensures(leader_url_for, (holder, identity, service, port), r),
    ensures
        holder@.len() == 0 || holder@ == identity@ ==> r@.len() == 0,
        holder@.len() > 0 && holder@ != identity@ ==> r@ == "http://"@ + holder@ + "."@ + service@
            + ":"@ + decimal(port as int),
{
}

/// What both sides list is left alone, what only the leader lists is fetched, and what only
/// the standby lists is deleted.
pub proof fn differences_are_made_up(
    local: Seq<Seq<char>>,
    remote: Seq<Seq<char>>,
    d: Seq<char>,
)
    ensures
        remote.len() > 0 && (local.len() == 0 || text_lt(remote[0], local[0])) ==> merge_steps(
            local,
            remote,
        )[0] == Step::Fetch(remote[0]),
        local.len() > 0 && (remote.len() == 0 || text_lt(local[0], remote[0])) && !(remote.len() > 0
            && text_lt(remote[0], local[0])) ==> merge_steps(local, remote)[0] == Step::Delete(
            local[0],
        ),
        local.len() > 0 && remote.len() > 0 && local[0] == remote[0] ==> merge_steps(
            local,
            remote,
        )[0] == Step::Skip(local[0]),
        merge_steps(Seq::empty(), Seq::empty()).len() == 0,
{
    if local.len() > 0 && remote.len() > 0 && local[0] == remote[0] {
        crate::text::lemma_text_lt_irreflexive(local[0]);
    }
}

/// Each thing is asked for under its own URL of the leader, with the token.
pub proof fn requests_name_what_they_want(
    leader: &str,
    after: &str,
    digest: &str,
    token: &str,
    page: String,
    blob: String,
    db: String,
    auth: String,
)
    requires
        call_ensures(blob_page_url, (leader, after), page),
        call_ensures(blob_url, (leader, digest), blob),
        call_ensures(snapshot_url, (leader,), db),
        call_ensures(bearer, (token,), auth),
    ensures
        page@ == leader@ + "/internal/replication/blobs?limit=1000&after="@ + form_encoded(after@),
        blob@ == leader@ + "/internal/replication/blobs/"@ + digest@,
        db@ == leader@ + "/internal/replication/db"@,
        auth@ == "Bearer "@ + token@,
{
}

/// Only a full success gives a page or a snapshot; a blob that is gone is passed over, and
/// one whose digest differs is refused.
pub proof fn only_what_was_asked_for_is_taken(
    status: u16,
    digest: &str,
    got: &str,
    page: Result<(), crate::replication::Error>,
    snapshot: Result<(), crate::replication::Error>,
    blob: Result<bool, crate::replication::Error>,
    checked: Result<(), crate::replication::Error>,
)
    requires
        call_ensures(judge_page, (status,), page),
        call_ensures(judge_snapshot, (status,), snapshot),
        call_ensures(judge_blob, (status, digest), blob),
        call_ensures(check_digest, (digest, got), checked),
    ensures
        page is Ok <==> status == 200,
        snapshot is Ok <==> status == 200,
        blob is Ok && blob->Ok_0 <==> status == 200,
        blob is Ok && !blob->Ok_0 <==> status == 404,
        checked is Ok <==> digest@ == got@,
{
}

/// A leader does not pull, nor does a standby that knows no leader; the cycle starts with
/// the snapshot.
pub proof fn standbys_pull(
    s: &Replicator,
    leader: Result<String, crate::replication::Error>,
    r: PullStep,
)
    requires
        call_ensures(Replicator::sync_start, (s, leader), r),
    ensures
        s.leading ==> r is Idle,
        !s.leading && leader is Err ==> r is Failed,
        !s.leading && leader is Ok && leader->Ok_0@.len() == 0 ==> r is Idle,
        !s.leading && leader is Ok && leader->Ok_0@.len() > 0 ==> r is Go && r->state is Downloading
            && r->state->Downloading_leader == leader->Ok_0,
{
}

/// A cycle goes from the snapshot to the blobs and from the blobs to the commit; any failure
/// ends it, and takes the temporary file with it. Only a commit changes what is promoted.
pub proof fn cycles_commit_last(
    s: &mut Replicator,
    state: PullState,
    outcome: Result<String, crate::replication::Error>,
    target: &str,
    r: PullStep,
)
    requires
        call_ensures(Replicator::sync_next, (s, state, outcome, target), r),
    ensures
        outcome is Err ==> r is Failed,
        outcome is Ok && state is Downloading ==> r is Go && r->state is Mirroring,
        outcome is Ok && state is Mirroring ==> r is Go && r->state is Committing,
        outcome is Ok && state is Committing ==> r is Committed && final(s).committed is Some
            && final(s).committed->0@ == target@,
        !(r is Committed) ==> final(s).committed == old(s).committed,
        outcome is Err && !(state is Downloading) ==> r->remove is Some,
        final(s).leading == old(s).leading,
{
}

/// A promotion hands out what was committed, once; a demotion ends leadership.
pub proof fn promotions_hand_out_what_was_committed(s: &mut Replicator, r: Option<String>)
    requires
        call_ensures(Replicator::promote, (s,), r),
    ensures
        r == old(s).committed,
        final(s).committed is None,
        final(s).leading,
{
}

/// The endpoints are open to the bearer of the token, and to nobody where no token is set.
pub proof fn endpoints_need_the_token(token: &str, header: &str, r: bool)
    requires
        call_ensures(authorized, (token, header), r),
    ensures
        r <==> token@.len() > 0 && header@ == "Bearer "@ + token@,
{
}

/// A page holds a thousand digests where no number is asked for; a number from one to a
/// thousand is taken, and nothing else.
pub proof fn pages_hold_what_is_asked_for(v: &str, r: Option<i64>)
    requires
        call_ensures(page_limit, (v,), r),
    ensures
        v@.len() == 0 ==> r == Some(1000i64),
        v@.len() > 0 ==> (r is Some <==> i64_value(v@) is Some && 1 <= i64_value(v@)->0 <= 1000),
        v@.len() > 0 && r is Some ==> i64_value(v@) == Some(r->0 as int),
{
}

/// Of several values of a parameter the first counts.
pub proof fn the_first_value_counts(
    list: Seq<(Seq<char>, Seq<char>)>,
    key: Seq<char>,
    value: Seq<char>,
    other: Seq<char>,
)
    ensures
        first_value(seq![(key, value)] + list, key) == value,
        other != key ==> first_value(seq![(other, value)] + list, key) == first_value(list, key),
        first_value(Seq::empty(), key).len() == 0,
{
    assert((seq![(key, value)] + list)[0] == (key, value));
    assert((seq![(other, value)] + list)[0] == (other, value));
    assert((seq![(other, value)] + list).skip(1) =~= list);
}

/// A page is an object of digests, null where there are none.
pub proof fn pages_list_digests(d: Seq<char>)
    ensures
        page_text(Seq::empty()) == "{\"digests\":null}\n"@,
        page_text(seq![d]) == "{\"digests\":["@ + crate::bridge::json_literal(d) + "]}\n"@,
{
    assert(crate::replication::source::literals(seq![d]) =~= seq![crate::bridge::json_literal(d)]);
}

// ---------------------------------------------------------------------------
// Failures

/// A failed call says that the object is missing by its code or by its status, and that it
/// was changed meanwhile by its status; every other failure is just one.
pub proof fn failures_are_sorted(
    op: &str,
    code: Option<&str>,
    status: Option<u16>,
    message: &str,
    r: Error,
)
    requires
        call_ensures(classify_failure, (op, code, status, message), r),
    ensures
        status == Some(404u16) ==> r.says_not_found(),
        code is Some && code->0@ == "NoSuchKey"@ ==> r.says_not_found(),
        code is Some && code->0@ == "NotFound"@ ==> r.says_not_found(),
        r.says_not_found() ==> status == Some(404u16) || (code is Some && (code->0@ == "NoSuchKey"@
            || code->0@ == "NotFound"@)),
        code is None && status == Some(412u16) ==> r.says_precondition_failed(),
        r.says_precondition_failed() ==> status == Some(412u16),
        status is None && code is None ==> !r.says_not_found() && !r.says_precondition_failed()
            && r.text() == op@ + ": "@ + message@,
{
}

/// What an error says is what its cause says, with what was being done in front.
pub proof fn errors_keep_their_cause(e: Error, context: &str, r: Error)
    requires
        call_ensures(Error::context, (e, context), r),
    ensures
        r.says_not_found() <==> e.says_not_found(),
        r.says_precondition_failed() <==> e.says_precondition_failed(),
        r.text() == context@ + ": "@ + e.text(),
{
}

/// A downloaded snapshot is remembered with the tag of its object, and nothing else changes.
pub proof fn downloads_are_remembered(s: &mut MetaSync, path: &str, etag: Option<String>)
    requires
        call_ensures(MetaSync::record_download, (s, path, etag), ()),
    ensures
        final(s).snapshot_path is Some,
        final(s).snapshot_path->0@ == path@,
        final(s).snapshot_etag == etag,
        final(s).leader == old(s).leader,
        final(s).fence == old(s).fence,
        final(s).have_uploaded == old(s).have_uploaded,
{
}

/// A listing goes on behind the digest that the request names, for as many as it asks for.
pub proof fn listings_go_on_behind(raw: &str, r: Option<(String, i64)>, after: String, n: i64)
    requires
        call_ensures(list_request, (Some(raw),), r),
    ensures
        r == Some((after, n)) ==> after@ == first_value(form_pairs(raw@), "after"@) && 1 <= n <= 1000,
        r == Some((after, n)) && first_value(form_pairs(raw@), "limit"@).len() > 0 ==> i64_value(
            first_value(form_pairs(raw@), "limit"@),
        ) == Some(n as int),
        first_value(form_pairs(raw@), "limit"@).len() == 0 ==> r is Some,
        r == Some((after, n)) && first_value(form_pairs(raw@), "limit"@).len() == 0 ==> n == 1000,
        i64_value(first_value(form_pairs(raw@), "limit"@)) == Some(0int) ==> r is None || first_value(
            form_pairs(raw@),
            "limit"@,
        ).len() == 0,
{
}

/// A page that is sent is the page that was rendered, digest by digest.
pub proof fn pages_are_rendered(digests: &Vec<String>, r: String)
    requires
        call_ensures(page_body, (digests,), r),
    ensures
        r@ == page_text(texts(digests@)),
        digests@.len() == 0 ==> r@ == "{\"digests\":null}\n"@,
{
}

/// The key of the term may be written in capital letters, in small ones or in both; what
/// is under another key is no term.
pub proof fn the_case_of_the_key_does_not_count(md: Seq<(String, String)>, p: (String, String))
    ensures
        p.0@.len() == 5 && (forall|i: int|
            0 <= i < 5 ==> #[trigger] p.0@[i] == "fence"@[i] || p.0@[i] == "FENCE"@[i])
            && i64_value(p.1@) is Some ==> fence_of(seq![p] + md) == i64_value(p.1@)->0,
        p.0@.len() != 5 ==> fence_of(seq![p] + md) == fence_of(md),
        i64_value(p.1@) is None ==> fence_of(seq![p] + md) == fence_of(md),
{
    reveal_strlit("fence");
    reveal_strlit("FENCE");
    assert((seq![p] + md)[0] == p);
    assert((seq![p] + md).skip(1) =~= md);
    let small = crate::objstore::metasync::ascii_small(p.0@);
    assert(small.len() == p.0@.len());
    assert("fence"@.len() == 5);
    if p.0@.len() == 5 && forall|i: int|
        0 <= i < 5 ==> #[trigger] p.0@[i] == "fence"@[i] || p.0@[i] == "FENCE"@[i] {
        assert(p.0@[0] == 'f' || p.0@[0] == 'F');
        assert(p.0@[1] == 'e' || p.0@[1] == 'E');
        assert(p.0@[2] == 'n' || p.0@[2] == 'N');
        assert(p.0@[3] == 'c' || p.0@[3] == 'C');
        assert(p.0@[4] == 'e' || p.0@[4] == 'E');
        assert(small =~= "fence"@);
    }
}

/// A listing is read out of its digests; none at all is no listing, `null` is an empty one.
pub proof fn listings_are_read(body: &[u8], r: Option<Vec<String>>)
    requires
        call_ensures(read_page, (body,), r),
        json_object(body@) is Some,
        !named_twice(body@, "digests"@),
    ensures
        ({
            let m = member_map(json_object(body@)->0);
            &&& !m.contains_key("digests"@) ==> r is None
            &&& m.contains_key("digests"@) && m["digests"@] == "null"@ ==> r is Some
                && r->0@.len() == 0
            &&& m.contains_key("digests"@) && m["digests"@] != "null"@ ==> (r is Some
                <==> json_string_list(encode_utf8(m["digests"@])) is Some)
            &&& r is Some && m["digests"@] != "null"@ ==> json_string_list(
                encode_utf8(m["digests"@]),
            ) == Some(texts(r->0@))
        }),
{
    records_hold_their_fields(body@, "digests"@, Seq::empty());
    if r is Some {
        assert(texts(r->0@).len() == r->0@.len());
    }
}

} // verus!
