//! What holds of the references whose bytes are missing, and of work that is done once for
//! all who want it.

use vstd::prelude::*;

use crate::repo::dangling::{
    confirmed_missing, counted, first_observation, observed_again, DanglingRegistry, Manager,
    Missing,
};
use crate::repo::engine::{FetchKind, FetchOutcome};
use crate::repo::flight::{observed, Flight, Role};

verus! {

/// A status that is answered once more counts one more, up to the largest number, and the
/// counts of all others stay.
pub proof fn answers_are_counted(m: Map<i64, i64>, status: i64, other: i64)
    requires
        other != status,
    ensures
        !m.contains_key(status) ==> counted(m, status)[status] == 1,
        m.contains_key(status) && m[status] < i64::MAX ==> counted(m, status)[status] == m[status]
            + 1,
        m.contains_key(status) && m[status] == i64::MAX ==> counted(m, status)[status] == i64::MAX,
        counted(m, status).contains_key(status),
        counted(m, status).contains_key(other) <==> m.contains_key(other),
        m.contains_key(other) ==> counted(m, status)[other] == m[other],
{
}

/// What is first seen is seen once, from now on, with its role and its status, unless that
/// is nought.
pub proof fn first_observations_start_the_clock(
    repo: i64,
    path: Seq<char>,
    sha: Seq<char>,
    role: Seq<char>,
    status: i64,
    now: i128,
)
    ensures
        ({
            let m = first_observation((repo, path), sha, role, status, now);
            &&& m.repo_id == repo && m.path == path && m.sha256 == sha && m.role == role
            &&& m.first_seen == now && m.last_seen == now && m.hits == 1
            &&& m.last_status == status
            &&& status == 0 ==> m.statuses.dom() == Set::<i64>::empty()
            &&& status != 0 ==> m.statuses.dom() == set![status] && m.statuses[status] == 1
        }),
{
    let m = first_observation((repo, path), sha, role, status, now);
    if status == 0 {
        assert(m.statuses.dom() =~= Set::<i64>::empty());
    } else {
        assert(m.statuses.dom() =~= set![status]);
    }
}

/// What is seen again is seen last now, under the digest it has now; an observation without
/// a status keeps the last one.
pub proof fn observations_bring_news(m: Missing, sha: Seq<char>, status: i64, now: i128)
    ensures
        ({
            let n = observed_again(m, sha, status, now);
            &&& n.last_seen == now && n.sha256 == sha
            &&& n.repo_id == m.repo_id && n.path == m.path && n.role == m.role
            &&& status == 0 ==> n.last_status == m.last_status
            &&& status != 0 ==> n.last_status == status && n.statuses.contains_key(status)
            &&& status == 0 && sha == m.sha256 ==> n.statuses == m.statuses
            &&& status != 0 && sha != m.sha256 ==> n.statuses[status] == 1
            &&& sha == m.sha256 && m.hits < i64::MAX ==> n.hits == m.hits + 1
            &&& sha == m.sha256 ==> n.first_seen == m.first_seen
            &&& sha != m.sha256 ==> n.first_seen == now && n.hits == 1
        }),
{
}

/// A new reference takes a place: a free one, or, where 4096 are taken, that of one that no
/// other was last seen before.
pub proof fn the_registry_is_bounded(
    s: &mut DanglingRegistry,
    repo: i64,
    path: &str,
    sha: &str,
    role: &str,
    status: i64,
    now: i128,
)
    requires
        call_ensures(DanglingRegistry::record, (s, repo, path, sha, role, status, now), ()),
        old(s).wf(),
    ensures
        final(s).entries@.len() <= 4096,
        path@.len() == 0 || sha@.len() == 0 ==> final(s)@ == old(s)@,
        path@.len() > 0 && sha@.len() > 0 ==> final(s)@.contains_key((repo, path@))
            && final(s)@[(repo, path@)].last_seen == now,
        old(s).entries@.len() < 4096 && path@.len() > 0 && sha@.len() > 0 ==> forall|
            k: (i64, Seq<char>),
        |
            k != (repo, path@) && old(s)@.contains_key(k) ==> #[trigger] final(s)@.contains_key(k)
                && final(s)@[k] == old(s)@[k],
        forall|k: (i64, Seq<char>), o: (i64, Seq<char>)| #[trigger]
            old(s)@.contains_key(k) && !final(s)@.contains_key(k) && #[trigger] old(
                s,
            )@.contains_key(o) ==> old(s)@[k].last_seen <= old(s)@[o].last_seen,
{
}

/// Where the store has the bytes again the reference is forgotten; where it has not, or
/// cannot tell, it stays. Nothing but that reference is touched.
pub proof fn returned_bytes_are_forgotten(
    s: &mut Manager,
    repo: i64,
    path: &str,
    present: Option<bool>,
    r: bool,
)
    requires
        call_ensures(Manager::still_missing, (s, repo, path, present), r),
    ensures
        present == Some(true) ==> !r && !final(s).dangling@.contains_key((repo, path@)),
        present == Some(false) || present is None ==> r && final(s).dangling@ == old(s).dangling@,
        forall|k: (i64, Seq<char>)|
            k != (repo, path@) ==> (#[trigger] final(s).dangling@.contains_key(k) <==> old(
                s,
            ).dangling@.contains_key(k)),
{
}

/// Bytes are confirmed to be missing only where the store says so.
pub proof fn only_the_store_confirms(present: Option<bool>, r: Option<bool>)
    requires
        call_ensures(confirmed_missing, (present,), r),
    ensures
        r == Some(true) <==> present == Some(false),
        r == Some(false) <==> present == Some(true),
        r is None <==> present is None,
{
}

/// The first to want a piece of work does it; while it is in flight all others wait.
pub proof fn the_first_does_the_work(s: &mut Flight, key: &str, other: Seq<char>, r: Role)
    requires
        call_ensures(Flight::join, (s, key), r),
        other != key@,
    ensures
        old(s)@.contains(key@) ==> r == Role::Waiter,
        !old(s)@.contains(key@) ==> r == Role::Leader,
        final(s)@.contains(key@),
        final(s)@.contains(other) <==> old(s)@.contains(other),
{
}

/// Everyone who waits sees what became of the work, and a failure where it broke off; then
/// the work may be done again.
pub proof fn all_see_what_became_of_the_work(
    s: &mut Flight,
    key: &str,
    result: Option<FetchOutcome>,
    r: FetchOutcome,
    published: &FetchOutcome,
    seen: FetchOutcome,
    lost: FetchOutcome,
)
    requires
        call_ensures(Flight::finish, (s, key, result), r),
        call_ensures(observed, (Some(published),), seen),
        call_ensures(observed, (None,), lost),
    ensures
        result is Some ==> r == result->0,
        result is None ==> r.kind == FetchKind::Error,
        !final(s)@.contains(key@),
        seen.kind == published.kind,
        seen.status == published.status,
        seen.retry_after@ == published.retry_after@,
        lost.kind == FetchKind::Error,
{
}

} // verus!
