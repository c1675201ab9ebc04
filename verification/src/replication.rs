//! Active/standby replication. The standby pulls the leader's database snapshot and
//! content-addressed blobs over token-authenticated endpoints, then promotes that
//! copy when it acquires leadership.

pub mod source;

use vstd::prelude::*;

use crate::bridge::form_encode;
use crate::percent::form_encoded;
use crate::text::{
    ascending, cat, decimal, digits, itoa, lemma_text_lt_asymmetric, lemma_text_lt_irreflexive,
    lemma_text_lt_total, less, opt_text, same, text_lt, texts, utoa,
};

verus! {

/// An error of the standby's pull loop.
pub enum Error {
    /// A message with no cause.
    Message(String),
    /// A cause with what was being done.
    Wrapped { context: String, source: Box<Error> },
    /// A transport failure talking to the leader.
    Http(String),
}

impl Error {
    /// The error in words.
    pub open spec fn text(self) -> Seq<char>
        decreases self,
    {
        match self {
            Error::Message(m) => m@,
            Error::Wrapped { context, source } => context@ + ": "@ + source.text(),
            Error::Http(m) => m@,
        }
    }

    /// Builds a bare message error.
    pub fn msg(msg: &str) -> (r: Error)
        ensures
            r matches Error::Message(m) && m@ == msg@,
    {
        Error::Message(msg.to_owned())
    }

    /// Adds what was being done.
    pub fn wrap(context: &str, source: Error) -> (r: Error)
        ensures
            r.text() == context@ + ": "@ + source.text(),
            r matches Error::Wrapped { context: c, source: s } && c@ == context@ && *s == source,
    {
        Error::Wrapped { context: context.to_owned(), source: Box::new(source) }
    }

    /// The error in words.
    pub fn message(&self) -> (r: String)
        ensures
            r@ == self.text(),
        decreases self,
    {
        match self {
            Error::Message(m) => m.clone(),
            Error::Wrapped { context, source } => {
                let inner = source.message();
                let mut s = cat(context.as_str(), ": ");
                s.append(inner.as_str());
                s
            },
            Error::Http(m) => m.clone(),
        }
    }
}

// ---------------------------------------------------------------------------
// Who leads

/// Gives the base URL of the current leader, or `""` when the leader is unknown or is
/// this instance.
pub trait LeaderResolver {
    /// Resolves the current leader's base URL.
    fn leader_url(&self) -> (r: Result<String, Error>);
}

/// Knows who holds the lease.
pub trait LeaderLookup {
    /// The identity currently holding the lease, or `""` when it is unheld.
    fn leader_identity(&self) -> (r: Result<String, Error>);
}

/// The base URL of the leader `holder` as seen by `identity`; empty where there is
/// none, or where it is this instance itself.
pub open spec fn peer_url(
    holder: Seq<char>,
    identity: Seq<char>,
    peer_service: Seq<char>,
    peer_port: int,
) -> Seq<char> {
    if holder.len() == 0 || holder == identity {
        Seq::empty()
    } else {
        "http://"@ + holder + "."@ + peer_service + ":"@ + decimal(peer_port)
    }
}

/// The base URL of the leader `holder` as seen by `identity`.
pub fn leader_url_for(holder: &str, identity: &str, peer_service: &str, peer_port: i64) -> (r:
    String)
    ensures
        r@ == peer_url(holder@, identity@, peer_service@, peer_port as int),
{
    if holder.is_empty() || same(holder, identity) {
        return String::new();
    }
    let mut s = "http://".to_owned();
    s.append(holder);
    s.append(".");
    s.append(peer_service);
    s.append(":");
    s.append(itoa(peer_port).as_str());
    s
}

/// Resolves to a fixed URL.
pub struct StaticLeader {
    pub url: String,
}

impl LeaderResolver for StaticLeader {
    fn leader_url(&self) -> (r: Result<String, Error>)
        ensures
            r matches Ok(u) && u@ == self.url@,
    {
        Ok(self.url.clone())
    }
}

/// Resolves to a fixed URL.
pub fn static_leader_url(url: &str) -> (r: StaticLeader)
    ensures
        r.url@ == url@,
{
    StaticLeader { url: url.to_owned() }
}

/// Resolves the leader through the identity of the lease holder.
pub struct LeaseLeader<L: LeaderLookup> {
    pub elector: L,
    pub identity: String,
    pub peer_service: String,
    pub peer_port: i64,
}

/// What is resolved where the lookup of the lease holder answered `held`: the URL of
/// the holder, or the failure of the lookup as it is.
pub open spec fn resolves(
    held: Result<String, Error>,
    identity: Seq<char>,
    peer_service: Seq<char>,
    peer_port: int,
    r: Result<String, Error>,
) -> bool {
    match held {
        Ok(holder) => r is Ok && r->Ok_0@ == peer_url(holder@, identity, peer_service, peer_port),
        Err(_) => r == held,
    }
}

impl<L: LeaderLookup> LeaderResolver for LeaseLeader<L> {
    /// Whatever the lookup answers decides the result, and nothing else does.
    fn leader_url(&self) -> (r: Result<String, Error>)
        ensures
            exists|held: Result<String, Error>|
                call_ensures(L::leader_identity, (&self.elector,), held) && #[trigger] resolves(
                    held,
                    self.identity@,
                    self.peer_service@,
                    self.peer_port as int,
                    r,
                ),
    {
        let held = self.elector.leader_identity();
        let ghost answer = held;
        let r = match held {
            Ok(holder) => Ok(
                leader_url_for(
                    holder.as_str(),
                    self.identity.as_str(),
                    self.peer_service.as_str(),
                    self.peer_port,
                ),
            ),
            Err(e) => Err(e),
        };
        assert(resolves(
            answer,
            self.identity@,
            self.peer_service@,
            self.peer_port as int,
            r,
        ));
        r
    }
}

/// Resolves the leader through the identity of the lease holder and the headless
/// service domain: `http://<holder>.<peer_service>:<peer_port>`.
pub fn lease_leader_url<L: LeaderLookup>(
    elector: L,
    identity: &str,
    peer_service: &str,
    peer_port: i64,
) -> (r: LeaseLeader<L>)
    ensures
        r.elector == elector,
        r.identity@ == identity@,
        r.peer_service@ == peer_service@,
        r.peer_port == peer_port,
{
    LeaseLeader {
        elector,
        identity: identity.to_owned(),
        peer_service: peer_service.to_owned(),
        peer_port,
    }
}

// ---------------------------------------------------------------------------
// Mirroring the leader's blobs

/// One step of the ordered merge of the local and the leader's digests.
pub enum MergeStep {
    /// The next page of the leader's listing is wanted, behind this digest.
    NeedPage(String),
    /// The leader has this blob and the standby does not.
    Fetch(String),
    /// The standby has this blob and the leader does not.
    Delete(String),
    /// Both have the blob.
    Skip,
    /// Both listings are at their end.
    Done,
}

/// A step, in terms of digests.
pub enum Step {
    Fetch(Seq<char>),
    Delete(Seq<char>),
    Skip(Seq<char>),
}

/// The steps that merge two listings.
pub open spec fn merge_steps(local: Seq<Seq<char>>, remote: Seq<Seq<char>>) -> Seq<Step>
    decreases local.len() + remote.len(),
{
    if local.len() == 0 && remote.len() == 0 {
        Seq::empty()
    } else if local.len() == 0 || (remote.len() > 0 && text_lt(remote[0], local[0])) {
        seq![Step::Fetch(remote[0])] + merge_steps(local, remote.skip(1))
    } else if remote.len() == 0 || text_lt(local[0], remote[0]) {
        seq![Step::Delete(local[0])] + merge_steps(local.skip(1), remote)
    } else {
        seq![Step::Skip(local[0])] + merge_steps(local.skip(1), remote.skip(1))
    }
}

/// What is left of both listings after the first step that they call for.
pub open spec fn consumed(local: Seq<Seq<char>>, remote: Seq<Seq<char>>) -> (
    Seq<Seq<char>>,
    Seq<Seq<char>>,
) {
    match merge_steps(local, remote)[0] {
        Step::Fetch(_) => (local, remote.skip(1)),
        Step::Delete(_) => (local.skip(1), remote),
        Step::Skip(_) => (local.skip(1), remote.skip(1)),
    }
}

/// The local digests once the steps were performed.
pub open spec fn after_steps(local: Set<Seq<char>>, steps: Seq<Step>) -> Set<Seq<char>>
    decreases steps.len(),
{
    if steps.len() == 0 {
        local
    } else {
        let next = match steps[0] {
            Step::Fetch(d) => local.insert(d),
            Step::Delete(d) => local.remove(d),
            Step::Skip(_) => local,
        };
        after_steps(next, steps.skip(1))
    }
}

/// An ordered walk over both listings. Pages of the leader's listing are taken in as
/// the merge consumes them.
pub struct BlobMerge {
    pub local: Vec<String>,
    pub i: usize,
    pub page: Vec<String>,
    pub j: usize,
    /// The last digest consumed of the leader's listing.
    pub after: String,
    /// The leader's listing is at its end.
    pub ended: bool,
}

impl BlobMerge {
    /// The positions lie inside the listings.
    pub open spec fn wf(&self) -> bool {
        self.i <= self.local@.len() && self.j <= self.page@.len()
    }

    /// The local digests not yet consumed.
    pub open spec fn local_rest(&self) -> Seq<Seq<char>> {
        texts(self.local@).skip(self.i as int)
    }

    /// The digests of the current page not yet consumed.
    pub open spec fn page_rest(&self) -> Seq<Seq<char>> {
        texts(self.page@).skip(self.j as int)
    }

    /// A merge of the local digests with a listing that is yet to be fetched.
    pub fn new(local: Vec<String>) -> (r: BlobMerge)
        ensures
            r.wf(),
            r.local == local,
            r.local_rest() == texts(local@),
            r.page_rest() == Seq::<Seq<char>>::empty(),
            r.after@.len() == 0,
            !r.ended,
    {
        let r = BlobMerge {
            local,
            i: 0,
            page: Vec::new(),
            j: 0,
            after: String::new(),
            ended: false,
        };
        assert(r.local_rest() =~= texts(local@));
        assert(r.page_rest() =~= Seq::empty());
        r
    }

    /// Takes in the next page of the leader's listing; an empty one ends it.
    pub fn supply(&mut self, page: Vec<String>)
        requires
            old(self).wf(),
        ensures
            final(self).wf(),
            final(self).local_rest() == old(self).local_rest(),
            final(self).after == old(self).after,
            page@.len() == 0 ==> final(self).ended && final(self).page_rest() == old(
                self).page_rest(),
            page@.len() > 0 ==> final(self).ended == old(self).ended && final(self).page_rest()
                == texts(page@),
    {
        if page.len() == 0 {
            self.ended = true;
        } else {
            self.page = page;
            self.j = 0;
            assert(self.page_rest() =~= texts(page@));
        }
    }

    /// The next step.
    pub fn step(&mut self) -> (r: MergeStep)
        requires
            old(self).wf(),
        ensures
            final(self).wf(),
            final(self).ended == old(self).ended,
            final(self).local == old(self).local,
            final(self).page == old(self).page,
            ({
                let l = old(self).local_rest();
                let p = old(self).page_rest();
                let more = final(self).page_rest();
                if p.len() == 0 && !old(self).ended {
                    &&& r matches MergeStep::NeedPage(a)
                    &&& a@ == old(self).after@
                    &&& final(self).local_rest() == l
                    &&& more == p
                    &&& final(self).after == old(self).after
                } else if l.len() == 0 && p.len() == 0 {
                    &&& r is Done
                    &&& final(self).local_rest() == l
                    &&& more == p
                    &&& final(self).after == old(self).after
                } else {
                    let steps = merge_steps(l, p);
                    &&& steps.len() > 0
                    &&& match steps[0] {
                        Step::Fetch(d) => r matches MergeStep::Fetch(x) && x@ == d,
                        Step::Delete(d) => r matches MergeStep::Delete(x) && x@ == d,
                        Step::Skip(_) => r is Skip,
                    }
                    &&& merge_steps(final(self).local_rest(), more) == steps.skip(1)
                    &&& (final(self).local_rest(), more) == consumed(l, p)
                    &&& final(self).after@ == (if more.len() < p.len() {
                        p[0]
                    } else {
                        old(self).after@
                    })
                }
            }),
    {
        let ghost l = self.local_rest();
        let ghost p = self.page_rest();
        if self.j == self.page.len() && !self.ended {
            return MergeStep::NeedPage(self.after.clone());
        }
        let has_local = self.i < self.local.len();
        let has_remote = self.j < self.page.len();
        if !has_local && !has_remote {
            return MergeStep::Done;
        }
        proof {
            if has_local {
                assert(l[0] == self.local@[self.i as int]@);
                assert(l.skip(1) =~= texts(self.local@).skip(self.i + 1));
            }
            if has_remote {
                assert(p[0] == self.page@[self.j as int]@);
                assert(p.skip(1) =~= texts(self.page@).skip(self.j + 1));
            }
        }
        if !has_local || (has_remote && less(
            self.page[self.j].as_str(),
            self.local[self.i].as_str(),
        )) {
            let d = self.page[self.j].clone();
            self.after = d.clone();
            self.j = self.j + 1;
            assert(merge_steps(l, p).skip(1) =~= merge_steps(l, p.skip(1)));
            return MergeStep::Fetch(d);
        }
        if !has_remote || less(self.local[self.i].as_str(), self.page[self.j].as_str()) {
            let d = self.local[self.i].clone();
            self.i = self.i + 1;
            assert(merge_steps(l, p).skip(1) =~= merge_steps(l.skip(1), p));
            return MergeStep::Delete(d);
        }
        self.after = self.page[self.j].clone();
        self.i = self.i + 1;
        self.j = self.j + 1;
        assert(merge_steps(l, p).skip(1) =~= merge_steps(l.skip(1), p.skip(1)));
        MergeStep::Skip
    }
}

proof fn lemma_first_is_least(s: Seq<Seq<char>>, x: Seq<char>)
    requires
        ascending(s),
        s.len() > 0,
        s.contains(x),
    ensures
        x == s[0] || text_lt(s[0], x),
{
    let k = choose|k: int| 0 <= k < s.len() && s[k] == x;
    if k > 0 {
        assert(text_lt(s[0], s[k]));
    }
}

proof fn lemma_rest_ascends(s: Seq<Seq<char>>)
    requires
        ascending(s),
        s.len() > 0,
    ensures
        ascending(s.skip(1)),
        forall|x: Seq<char>| #[trigger] s.skip(1).contains(x) <==> s.contains(x) && x != s[0],
{
    let t = s.skip(1);
    assert forall|i: int, j: int| 0 <= i < j < t.len() implies text_lt(t[i], t[j]) by {
        assert(text_lt(s[i + 1], s[j + 1]));
    }
    lemma_text_lt_irreflexive(s[0]);
    assert forall|x: Seq<char>| #[trigger] t.contains(x) <==> s.contains(x) && x != s[0] by {
        if t.contains(x) {
            let k = choose|k: int| 0 <= k < t.len() && t[k] == x;
            assert(s[k + 1] == x);
            assert(text_lt(s[0], s[k + 1]));
        }
        if s.contains(x) && x != s[0] {
            let k = choose|k: int| 0 <= k < s.len() && s[k] == x;
            assert(t[k - 1] == x);
        }
    }
}

/// Performing the steps of a merge leaves exactly the blobs that the leader lists:
/// every missing one is fetched, every extra one is deleted, and whatever else was
/// there before stays.
pub proof fn merge_mirrors_the_leader(
    local: Seq<Seq<char>>,
    remote: Seq<Seq<char>>,
    have: Set<Seq<char>>,
)
    requires
        ascending(local),
        ascending(remote),
        forall|x: Seq<char>| #[trigger] local.contains(x) ==> have.contains(x),
    ensures
        forall|x: Seq<char>| #[trigger]
            after_steps(have, merge_steps(local, remote)).contains(x) <==> remote.contains(x) || (
            have.contains(x) && !local.contains(x)),
    decreases local.len() + remote.len(),
{
    let steps = merge_steps(local, remote);
    if local.len() == 0 && remote.len() == 0 {
    } else if local.len() == 0 || (remote.len() > 0 && text_lt(remote[0], local[0])) {
        let d = remote[0];
        let rest = remote.skip(1);
        lemma_rest_ascends(remote);
        assert(remote.contains(d));
        assert(!local.contains(d)) by {
            if local.contains(d) {
                lemma_first_is_least(local, d);
                lemma_text_lt_irreflexive(d);
                lemma_text_lt_asymmetric(d, local[0]);
            }
        }
        assert(steps.skip(1) =~= merge_steps(local, rest));
        let next = have.insert(d);
        assert forall|x: Seq<char>| #[trigger] local.contains(x) implies next.contains(x) by {
            assert(have.contains(x));
        }
        merge_mirrors_the_leader(local, rest, next);
        assert forall|x: Seq<char>| #[trigger]
            after_steps(have, steps).contains(x) <==> remote.contains(x) || (have.contains(x)
            && !local.contains(x)) by {
            assert(after_steps(next, merge_steps(local, rest)).contains(x) <==> rest.contains(x)
                || (next.contains(x) && !local.contains(x)));
            assert(rest.contains(x) <==> remote.contains(x) && x != d);
        }
    } else if remote.len() == 0 || text_lt(local[0], remote[0]) {
        let d = local[0];
        let rest = local.skip(1);
        lemma_rest_ascends(local);
        assert(local.contains(d));
        assert(!remote.contains(d)) by {
            if remote.contains(d) {
                lemma_first_is_least(remote, d);
                lemma_text_lt_irreflexive(d);
                lemma_text_lt_asymmetric(d, remote[0]);
            }
        }
        assert(steps.skip(1) =~= merge_steps(rest, remote));
        let next = have.remove(d);
        assert forall|x: Seq<char>| #[trigger] rest.contains(x) implies next.contains(x) by {
            assert(local.contains(x));
        }
        merge_mirrors_the_leader(rest, remote, next);
        assert forall|x: Seq<char>| #[trigger]
            after_steps(have, steps).contains(x) <==> remote.contains(x) || (have.contains(x)
            && !local.contains(x)) by {
            assert(after_steps(next, merge_steps(rest, remote)).contains(x) <==> remote.contains(x)
                || (next.contains(x) && !rest.contains(x)));
            assert(rest.contains(x) <==> local.contains(x) && x != d);
        }
    } else {
        let d = local[0];
        lemma_text_lt_total(local[0], remote[0]);
        assert(d == remote[0]);
        lemma_rest_ascends(local);
        lemma_rest_ascends(remote);
        assert(local.contains(d));
        assert(remote.contains(d));
        assert(steps.skip(1) =~= merge_steps(local.skip(1), remote.skip(1)));
        assert forall|x: Seq<char>| #[trigger] local.skip(1).contains(x) implies have.contains(
            x,
        ) by {
            assert(local.contains(x));
        }
        merge_mirrors_the_leader(local.skip(1), remote.skip(1), have);
        assert forall|x: Seq<char>| #[trigger]
            after_steps(have, steps).contains(x) <==> remote.contains(x) || (have.contains(x)
            && !local.contains(x)) by {
            assert(after_steps(have, merge_steps(local.skip(1), remote.skip(1))).contains(x)
                <==> remote.skip(1).contains(x) || (have.contains(x) && !local.skip(1).contains(
                x,
            )));
            assert(local.skip(1).contains(x) <==> local.contains(x) && x != d);
            assert(remote.skip(1).contains(x) <==> remote.contains(x) && x != d);
        }
    }
}

/// The step taken with one page at hand is the step that the whole listing calls for,
/// whatever the pages behind it hold.
pub proof fn one_page_decides_one_step(
    local: Seq<Seq<char>>,
    page: Seq<Seq<char>>,
    later: Seq<Seq<char>>,
)
    requires
        page.len() > 0,
    ensures
        merge_steps(local, page).len() > 0,
        merge_steps(local, page + later).len() > 0,
        merge_steps(local, page)[0] == merge_steps(local, page + later)[0],
{
    assert((page + later)[0] == page[0]);
}

/// The listing that pages make up.
pub open spec fn listing(pages: Seq<Seq<Seq<char>>>) -> Seq<Seq<char>>
    decreases pages.len(),
{
    if pages.len() == 0 {
        Seq::empty()
    } else {
        pages[0] + listing(pages.skip(1))
    }
}

/// The steps of a walk with `local` and `page` at hand and `pages` to come: while the
/// page at hand is used up the next one is taken in, and behind the last one the
/// listing ends.
pub open spec fn walk(
    local: Seq<Seq<char>>,
    page: Seq<Seq<char>>,
    pages: Seq<Seq<Seq<char>>>,
) -> Seq<Step>
    decreases pages.len(), local.len() + page.len(),
{
    if page.len() == 0 && pages.len() > 0 {
        walk(local, pages[0], pages.skip(1))
    } else if page.len() == 0 && local.len() == 0 {
        Seq::empty()
    } else {
        let rest = consumed(local, page);
        seq![merge_steps(local, page)[0]] + walk(rest.0, rest.1, pages)
    }
}

/// A walk over pages takes the steps that the whole listing calls for, however it is
/// divided into pages.
pub proof fn pages_make_one_walk(
    local: Seq<Seq<char>>,
    page: Seq<Seq<char>>,
    pages: Seq<Seq<Seq<char>>>,
)
    ensures
        walk(local, page, pages) == merge_steps(local, page + listing(pages)),
    decreases pages.len(), local.len() + page.len(),
{
    let whole = page + listing(pages);
    if page.len() == 0 && pages.len() > 0 {
        pages_make_one_walk(local, pages[0], pages.skip(1));
        assert(whole =~= pages[0] + listing(pages.skip(1)));
    } else if page.len() == 0 && local.len() == 0 {
        assert(whole =~= Seq::empty());
    } else {
        let rest = consumed(local, page);
        let first = merge_steps(local, page)[0];
        pages_make_one_walk(rest.0, rest.1, pages);
        if page.len() > 0 {
            one_page_decides_one_step(local, page, listing(pages));
            assert(whole.skip(1) =~= page.skip(1) + listing(pages));
            assert(consumed(local, whole) == (rest.0, rest.1 + listing(pages)));
        } else {
            assert(whole =~= page);
            assert(rest.1 + listing(pages) =~= rest.1);
        }
        assert(merge_steps(local, whole) =~= seq![first] + merge_steps(
            rest.0,
            rest.1 + listing(pages),
        ));
    }
}

/// A walk over all pages of the leader's listing leaves exactly the blobs that the
/// leader lists, and what was not listed locally.
pub proof fn paged_walk_mirrors_the_leader(
    local: Seq<Seq<char>>,
    pages: Seq<Seq<Seq<char>>>,
    have: Set<Seq<char>>,
)
    requires
        ascending(local),
        ascending(listing(pages)),
        forall|x: Seq<char>| #[trigger] local.contains(x) ==> have.contains(x),
    ensures
        forall|x: Seq<char>| #[trigger]
            after_steps(have, walk(local, Seq::empty(), pages)).contains(x) <==> listing(
                pages,
            ).contains(x) || (have.contains(x) && !local.contains(x)),
{
    pages_make_one_walk(local, Seq::empty(), pages);
    assert(Seq::<Seq<char>>::empty() + listing(pages) =~= listing(pages));
    merge_mirrors_the_leader(local, listing(pages), have);
}

/// Mirroring is idempotent: once both sides list the same blobs, nothing is fetched
/// and nothing is deleted.
pub proof fn equal_listings_need_no_work(s: Seq<Seq<char>>)
    ensures
        forall|i: int|
            0 <= i < merge_steps(s, s).len() ==> (#[trigger] merge_steps(s, s)[i]) is Skip,
        merge_steps(s, s).len() == s.len(),
    decreases s.len(),
{
    if s.len() > 0 {
        lemma_text_lt_irreflexive(s[0]);
        let rest = merge_steps(s.skip(1), s.skip(1));
        equal_listings_need_no_work(s.skip(1));
        assert forall|i: int| 0 <= i < merge_steps(s, s).len() implies (#[trigger] merge_steps(
            s,
            s,
        )[i]) is Skip by {
            if i > 0 {
                assert(merge_steps(s, s)[i] == rest[i - 1]);
            }
        }
    }
}

// ---------------------------------------------------------------------------
// Requests to the leader

/// The value of the `Authorization` header.
pub fn bearer(token: &str) -> (r: String)
    ensures
        r@ == "Bearer "@ + token@,
{
    cat("Bearer ", token)
}

/// Where a page of the leader's listing is asked for.
pub fn blob_page_url(leader: &str, after: &str) -> (r: String)
    ensures
        r@ == leader@ + "/internal/replication/blobs?limit=1000&after="@ + form_encoded(after@),
{
    let mut s = cat(leader, "/internal/replication/blobs?limit=1000&after=");
    s.append(form_encode(after).as_str());
    s
}

/// Where one blob is asked for.
pub fn blob_url(leader: &str, digest: &str) -> (r: String)
    ensures
        r@ == leader@ + "/internal/replication/blobs/"@ + digest@,
{
    let mut s = cat(leader, "/internal/replication/blobs/");
    s.append(digest);
    s
}

/// Where the database snapshot is asked for.
pub fn snapshot_url(leader: &str) -> (r: String)
    ensures
        r@ == leader@ + "/internal/replication/db"@,
{
    cat(leader, "/internal/replication/db")
}

fn status_error(what: &str, status: u16) -> (r: Error)
    ensures
        r.text() == what@ + ": status "@ + digits(status as nat),
{
    let mut s = cat(what, ": status ");
    s.append(utoa(status as u64).as_str());
    Error::Message(s)
}

/// Judges the answer to a request for a page of the listing.
pub fn judge_page(status: u16) -> (r: Result<(), Error>)
    ensures
        status == 200 <==> r is Ok,
        r matches Err(e) ==> e.text() == "list blobs"@ + ": status "@ + digits(status as nat),
{
    if status == 200 {
        Ok(())
    } else {
        Err(status_error("list blobs", status))
    }
}

/// Judges the answer to a request for the snapshot.
pub fn judge_snapshot(status: u16) -> (r: Result<(), Error>)
    ensures
        status == 200 <==> r is Ok,
        r matches Err(e) ==> e.text() == "fetch snapshot"@ + ": status "@ + digits(status as nat),
{
    if status == 200 {
        Ok(())
    } else {
        Err(status_error("fetch snapshot", status))
    }
}

/// Judges the answer to a request for a blob: whether its body is to be stored. A
/// blob that is gone was collected since it was listed, which is no error.
pub fn judge_blob(status: u16, digest: &str) -> (r: Result<bool, Error>)
    ensures
        match r {
            Ok(store) => (status == 200 && store) || (status == 404 && !store),
            Err(e) => status != 200 && status != 404 && e.text() == "fetch blob "@ + digest@
                + ": status "@ + digits(status as nat),
        },
{
    if status == 404 {
        Ok(false)
    } else if status == 200 {
        Ok(true)
    } else {
        Err(status_error(cat("fetch blob ", digest).as_str(), status))
    }
}

/// Compares the digest of what was stored with the one asked for: a difference means
/// corruption in flight.
pub fn check_digest(want: &str, got: &str) -> (r: Result<(), Error>)
    ensures
        want@ == got@ <==> r is Ok,
        r matches Err(e) ==> e.text() == "blob digest mismatch: want "@ + want@ + " got "@ + got@,
{
    if same(want, got) {
        return Ok(());
    }
    let mut s = cat("blob digest mismatch: want ", want);
    s.append(" got ");
    s.append(got);
    Err(Error::Message(s))
}

// ---------------------------------------------------------------------------
// One pull cycle

/// The standby side of replication.
pub struct Replicator {
    pub leading: bool,
    /// The last snapshot fully downloaded while a standby, with all its blobs.
    pub committed: Option<String>,
}

/// How far a pull cycle has come.
pub enum PullState {
    /// The snapshot is to be downloaded from this leader.
    Downloading { leader: String },
    /// The snapshot lies in a temporary file; the blobs are to be mirrored.
    Mirroring { leader: String, tmp: String },
    /// All blobs are there; the temporary file is to become the snapshot.
    Committing { tmp: String },
}

/// What ends a pull cycle, or that it goes on.
pub enum PullStep {
    /// There is nothing to do.
    Idle,
    /// The cycle goes on.
    Go { state: PullState },
    /// The snapshot is committed.
    Committed,
    /// The cycle failed; the temporary file, if there is one, is to be removed.
    Failed { error: Error, remove: Option<String> },
}

impl Replicator {
    /// A standby without snapshot.
    pub fn new() -> (r: Replicator)
        ensures
            !r.leading,
            r.committed is None,
    {
        Replicator { leading: false, committed: None }
    }

    /// Starts a pull cycle, given the leader's base URL.
    pub fn sync_start(&self, leader: Result<String, Error>) -> (r: PullStep)
        ensures
            if self.leading {
                r is Idle
            } else {
                match leader {
                    Err(e) => r matches PullStep::Failed { error, remove } && error.text()
                        == "resolve leader"@ + ": "@ + e.text() && remove is None,
                    Ok(u) => if u@.len() == 0 {
                        r is Idle
                    } else {
                        r matches PullStep::Go { state: PullState::Downloading { leader: l } } && l
                            == u
                    },
                }
            },
    {
        if self.leading {
            return PullStep::Idle;
        }
        match leader {
            Err(e) => PullStep::Failed { error: Error::wrap("resolve leader", e), remove: None },
            Ok(u) => {
                if u.as_str().is_empty() {
                    PullStep::Idle
                } else {
                    PullStep::Go { state: PullState::Downloading { leader: u } }
                }
            },
        }
    }

    /// Goes on with a pull cycle: snapshot first, blobs second, commit last. `outcome`
    /// is how the work of `state` ended; of a download, with the temporary file.
    pub fn sync_next(&mut self, state: PullState, outcome: Result<String, Error>, target: &str) -> (r:
        PullStep)
        ensures
            final(self).leading == old(self).leading,
            r is Committed <==> (state is Committing && outcome is Ok),
            r matches PullStep::Go { state: s } ==> follows(state, s),
            r is Committed ==> opt_text(final(self).committed) == Some(target@),
            !(r is Committed) ==> final(self).committed == old(self).committed,
            match (state, outcome) {
                (PullState::Downloading { leader }, Ok(tmp)) => r == (PullStep::Go {
                    state: PullState::Mirroring { leader, tmp },
                }),
                (PullState::Downloading { leader: _ }, Err(e)) => r matches PullStep::Failed {
                    error,
                    remove,
                } && error.text() == "sync db"@ + ": "@ + e.text() && remove is None,
                (PullState::Mirroring { leader: _, tmp }, Ok(_)) => r == (PullStep::Go {
                    state: PullState::Committing { tmp },
                }),
                (PullState::Mirroring { leader: _, tmp }, Err(e)) => r matches PullStep::Failed {
                    error,
                    remove,
                } && error.text() == "sync blobs"@ + ": "@ + e.text() && remove == Some(tmp),
                (PullState::Committing { tmp: _ }, Ok(_)) => r is Committed,
                (PullState::Committing { tmp }, Err(e)) => r matches PullStep::Failed {
                    error,
                    remove,
                } && error.text() == "commit snapshot"@ + ": "@ + e.text() && remove == Some(tmp),
            },
    {
        match (state, outcome) {
            (PullState::Downloading { leader }, Ok(tmp)) => PullStep::Go {
                state: PullState::Mirroring { leader, tmp },
            },
            (PullState::Downloading { leader: _ }, Err(e)) => PullStep::Failed {
                error: Error::wrap("sync db", e),
                remove: None,
            },
            (PullState::Mirroring { leader: _, tmp }, Ok(_)) => PullStep::Go {
                state: PullState::Committing { tmp },
            },
            (PullState::Mirroring { leader: _, tmp }, Err(e)) => PullStep::Failed {
                error: Error::wrap("sync blobs", e),
                remove: Some(tmp),
            },
            (PullState::Committing { tmp: _ }, Ok(_)) => {
                self.committed = Some(target.to_owned());
                PullStep::Committed
            },
            (PullState::Committing { tmp }, Err(e)) => PullStep::Failed {
                error: Error::wrap("commit snapshot", e),
                remove: Some(tmp),
            },
        }
    }

    /// Takes leadership. The snapshot replicated while a standby, if there is one, is
    /// to replace the local database; otherwise the local data is served as it is.
    pub fn promote(&mut self) -> (r: Option<String>)
        ensures
            final(self).leading,
            final(self).committed is None,
            r == old(self).committed,
    {
        self.leading = true;
        self.committed.take()
    }

    /// Ends leadership; the pull loop resumes.
    pub fn demote(&mut self)
        ensures
            !final(self).leading,
            final(self).committed == old(self).committed,
    {
        self.leading = false;
    }
}

/// How the work of one state of a pull cycle can lead to the next: the commit comes
/// only behind the mirroring of all blobs, and that only behind the download.
pub open spec fn follows(before: PullState, after: PullState) -> bool {
    match before {
        PullState::Downloading { leader } => after matches PullState::Mirroring {
            leader: l,
            tmp: _,
        } && l == leader,
        PullState::Mirroring { leader: _, tmp } => after matches PullState::Committing { tmp: t }
            && t == tmp,
        PullState::Committing { tmp: _ } => false,
    }
}

/// A cycle that commits has mirrored the blobs of the very snapshot that it commits.
pub proof fn commit_follows_mirroring(trace: Seq<PullState>)
    requires
        trace.len() > 0,
        trace[0] is Downloading,
        forall|i: int| 0 <= i < trace.len() - 1 ==> follows(#[trigger] trace[i], trace[i + 1]),
        trace.last() is Committing,
    ensures
        trace.len() == 3,
        trace[1] matches PullState::Mirroring { leader: _, tmp } && trace[2] == (
        PullState::Committing { tmp }),
{
    if trace.len() >= 2 {
        assert(follows(trace[0], trace[1]));
        if trace.len() >= 3 {
            assert(follows(trace[1], trace[2]));
            if trace.len() >= 4 {
                assert(follows(trace[2], trace[3]));
            }
        }
    }
}

} // verus!
