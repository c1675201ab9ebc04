//! What holds of every rewritten packument.

use vstd::prelude::*;

use crate::bridge::{firsts, json_literal};
use crate::config::AgePolicyConfig;
use crate::json::{lemma_member_of, member_map, Members};
use crate::repo::npm::{
    cooldown_of, enforces, first_release, held_count, highest, highest_is_the_maximum, is_held,
    kept_tags, kept_versions, latest_is_held, manifest_text, packument_versions,
    rewritten_packument, tag_map, with_tags, Cooldown, Target,
};
use crate::times::{lemma_later_is_reached, lemma_reached_in_order, steady_stamps_only_age};

verus! {

/// Every top-level field of a packument but its versions and its dist-tags
/// survives the rewrite as it was, and no field appears or disappears.
pub proof fn other_fields_survive(
    top: Map<Seq<char>, Seq<char>>,
    age: AgePolicyConfig,
    now: int,
    t: Target,
    key: Seq<char>,
)
    requires
        rewritten_packument(top, age, now, t) is Some,
    ensures
        ({
            let doc = rewritten_packument(top, age, now, t)->0;
            &&& doc.contains_key(key) == top.contains_key(key)
            &&& key != "versions"@ && key != "dist-tags"@ && top.contains_key(key) ==> doc[key]
                == top[key]
        }),
{
}

/// A version stays in the packument exactly when the cooldown does not hold it
/// back, and what stays is its manifest with nothing but the tarball URL changed.
pub proof fn kept_versions_are_those_not_held(vers: Members, c: Cooldown, t: Target)
    ensures
        forall|i: int|
            0 <= i < vers.len() && !c.holds((#[trigger] vers[i]).0) ==> kept_versions(
                vers,
                c,
                t,
            ).contains((vers[i].0, manifest_text(vers[i].1, t.base, t.repo, t.pkg))),
        forall|j: int|
            0 <= j < kept_versions(vers, c, t).len() ==> {
                let k = #[trigger] kept_versions(vers, c, t)[j];
                !c.holds(k.0) && exists|i: int|
                    0 <= i < vers.len() && (#[trigger] vers[i]).0 == k.0 && k.1 == manifest_text(
                        vers[i].1,
                        t.base,
                        t.repo,
                        t.pkg,
                    )
            },
    decreases vers.len(),
{
    if vers.len() > 0 {
        let init = vers.drop_last();
        kept_versions_are_those_not_held(init, c, t);
        let rest = kept_versions(init, c, t);
        let all = kept_versions(vers, c, t);
        assert(forall|i: int| 0 <= i < init.len() ==> init[i] == vers[i]);
        assert forall|i: int| 0 <= i < vers.len() && !c.holds(
            (#[trigger] vers[i]).0,
        ) implies all.contains((vers[i].0, manifest_text(vers[i].1, t.base, t.repo, t.pkg))) by {
            let m = (vers[i].0, manifest_text(vers[i].1, t.base, t.repo, t.pkg));
            if i < init.len() {
                assert(init[i] == vers[i]);
                let j = choose|j: int| 0 <= j < rest.len() && rest[j] == m;
                assert(all[j] == m);
            } else {
                assert(all[all.len() - 1] == m);
            }
        }
        assert forall|j: int| 0 <= j < all.len() implies {
            let k = #[trigger] all[j];
            !c.holds(k.0) && exists|i: int|
                0 <= i < vers.len() && (#[trigger] vers[i]).0 == k.0 && k.1 == manifest_text(
                    vers[i].1,
                    t.base,
                    t.repo,
                    t.pkg,
                )
        } by {
            if j < rest.len() {
                assert(all[j] == rest[j]);
                let i = choose|i: int|
                    0 <= i < init.len() && (#[trigger] init[i]).0 == rest[j].0 && rest[j].1
                        == manifest_text(init[i].1, t.base, t.repo, t.pkg);
                assert(vers[i] == init[i]);
            } else {
                assert(vers[vers.len() - 1] == vers.last());
            }
        }
    }
}

/// The number of versions removed and the number that stay make up all of them.
pub proof fn removed_and_kept_add_up(vers: Members, c: Cooldown, t: Target)
    ensures
        held_count(vers, c) + kept_versions(vers, c, t).len() == vers.len(),
    decreases vers.len(),
{
    if vers.len() > 0 {
        removed_and_kept_add_up(vers.drop_last(), c, t);
    }
}

/// Without a blocking policy, and for a version whose publish time is unknown,
/// nothing is ever held back.
pub proof fn unknown_is_never_held(
    top: Map<Seq<char>, Seq<char>>,
    age: AgePolicyConfig,
    now: int,
    ver: Seq<char>,
)
    ensures
        !enforces(age) ==> !cooldown_of(top, age, now).holds(ver),
        cooldown_of(top, age, now).published(ver) is None ==> !cooldown_of(top, age, now).holds(
            ver,
        ),
{
}

proof fn lemma_nothing_held(vers: Members, c: Cooldown)
    requires
        forall|v: Seq<char>| !c.holds(v),
    ensures
        held_count(vers, c) == 0,
        first_release(vers, c) is None,
    decreases vers.len(),
{
    if vers.len() > 0 {
        lemma_nothing_held(vers.drop_last(), c);
    }
}

/// Without a blocking policy the dist-tags stay as they are and no version is
/// removed.
pub proof fn without_enforcement_only_urls_change(
    top: Map<Seq<char>, Seq<char>>,
    age: AgePolicyConfig,
    now: int,
    t: Target,
)
    requires
        !enforces(age),
        packument_versions(top) is Some,
    ensures
        ({
            let c = cooldown_of(top, age, now);
            let vers = packument_versions(top)->0;
            &&& held_count(vers, c) == 0
            &&& first_release(vers, c) is None
            &&& with_tags(top, vers, c, t) == top
        }),
{
    lemma_nothing_held(packument_versions(top)->0, cooldown_of(top, age, now));
}

proof fn lemma_kept_tags(tags: Members, vers: Members, c: Cooldown)
    ensures
        forall|j: int|
            0 <= j < kept_tags(tags, vers, c).len() ==> exists|v: Seq<char>|
                (#[trigger] kept_tags(tags, vers, c)[j]).1 == json_literal(v) && !is_held(
                    vers,
                    c,
                    v,
                ),
    decreases tags.len(),
{
    if tags.len() > 0 {
        let init = tags.drop_last();
        lemma_kept_tags(init, vers, c);
        let rest = kept_tags(init, vers, c);
        let all = kept_tags(tags, vers, c);
        assert forall|j: int| 0 <= j < all.len() implies exists|v: Seq<char>|
            (#[trigger] all[j]).1 == json_literal(v) && !is_held(vers, c, v) by {
            if j < rest.len() {
                assert(all[j] == rest[j]);
                let v = choose|v: Seq<char>|
                    rest[j].1 == json_literal(v) && !is_held(vers, c, v);
                assert(all[j].1 == json_literal(v) && !is_held(vers, c, v));
            } else {
                let v = tags.last().1;
                assert(all[j].1 == json_literal(v) && !is_held(vers, c, v));
            }
        }
    }
}

/// No dist-tag of a rewritten packument points at a version that was removed.
pub proof fn no_tag_points_at_a_removed_version(
    tags: Members,
    vers: Members,
    c: Cooldown,
    t: Target,
    tag: Seq<char>,
)
    requires
        tag_map(tags, vers, c, t).contains_key(tag),
    ensures
        exists|v: Seq<char>|
            tag_map(tags, vers, c, t)[tag] == json_literal(v) && !is_held(vers, c, v),
{
    let kept = kept_tags(tags, vers, c);
    lemma_kept_tags(tags, vers, c);
    let keys = firsts(kept_versions(vers, c, t));
    let remapped = latest_is_held(tags, vers, c) && highest(keys) is Some;
    if remapped && tag == "latest"@ {
        let best = (highest(keys)->0).0;
        highest_is_the_maximum(keys);
        kept_versions_are_those_not_held(vers, c, t);
        let j = choose|j: int| 0 <= j < keys.len() && keys[j] == best;
        assert(kept_versions(vers, c, t)[j].0 == best);
        assert(!is_held(vers, c, best));
        assert(tag_map(tags, vers, c, t)[tag] == json_literal(best));
    } else {
        assert(member_map(kept).contains_key(tag));
        lemma_member_of(kept, tag);
        let i = choose|i: int|
            0 <= i < kept.len() && (#[trigger] kept[i]).0 == tag && member_map(kept)[tag]
                == kept[i].1;
        let v = choose|v: Seq<char>| kept[i].1 == json_literal(v) && !is_held(vers, c, v);
        assert(tag_map(tags, vers, c, t)[tag] == json_literal(v) && !is_held(vers, c, v));
    }
}

/// `c` at a later instant.
pub open spec fn at_instant(c: Cooldown, now: int) -> Cooldown {
    Cooldown { times: c.times, now, min_age: c.min_age }
}

proof fn lemma_release_bounds(vers: Members, c: Cooldown)
    ensures
        match first_release(vers, c) {
            Some(u) => forall|i: int|
                0 <= i < vers.len() && c.holds((#[trigger] vers[i]).0) ==> !c.published(
                    vers[i].0,
                )->0.later(c.min_age).before(u),
            None => forall|i: int| 0 <= i < vers.len() ==> !c.holds((#[trigger] vers[i]).0),
        },
        first_release(vers, c) matches Some(u) ==> exists|i: int|
            0 <= i < vers.len() && c.holds((#[trigger] vers[i]).0) && u == c.published(
                vers[i].0,
            )->0.later(c.min_age),
    decreases vers.len(),
{
    if vers.len() > 0 {
        let init = vers.drop_last();
        lemma_release_bounds(init, c);
        assert(forall|i: int| 0 <= i < init.len() ==> init[i] == vers[i]);
        assert(vers[vers.len() - 1] == vers.last());
        assert forall|i: int| 0 <= i < vers.len() && c.holds((#[trigger] vers[i]).0) implies
            first_release(vers, c) is Some && !c.published(vers[i].0)->0.later(c.min_age).before(
            first_release(vers, c)->0,
        ) by {
            if i < init.len() {
                assert(init[i] == vers[i]);
            }
        }
        if let Some(u) = first_release(vers, c) {
            if !(c.holds(vers.last().0) && u == c.published(vers.last().0)->0.later(c.min_age)) {
                let i = choose|i: int|
                    0 <= i < init.len() && c.holds((#[trigger] init[i]).0) && u == c.published(
                        init[i].0,
                    )->0.later(c.min_age);
                assert(vers[i] == init[i]);
            }
        }
    }
}

/// Every known release time among the versions is one that a calendar can name, and lies
/// in no leap second but one at the end of a day.
pub open spec fn steady_times(vers: Members, c: Cooldown) -> bool {
    forall|i: int|
        0 <= i < vers.len() ==> match c.published((#[trigger] vers[i]).0) {
            Some(t) => t.wf() && t.steady(),
            None => true,
        }
}

/// No known release time among the versions lies in a leap second.
pub open spec fn no_leap_seconds(vers: Members, c: Cooldown) -> bool {
    forall|i: int|
        0 <= i < vers.len() ==> match c.published((#[trigger] vers[i]).0) {
            Some(t) => t.wf() && !t.leaps(),
            None => true,
        }
}

proof fn lemma_same_holds_same_kept(vers: Members, c: Cooldown, d: Cooldown, t: Target)
    requires
        forall|i: int| 0 <= i < vers.len() ==> c.holds((#[trigger] vers[i]).0) == d.holds(vers[i].0),
    ensures
        kept_versions(vers, c, t) == kept_versions(vers, d, t),
        held_count(vers, c) == held_count(vers, d),
    decreases vers.len(),
{
    if vers.len() > 0 {
        let init = vers.drop_last();
        assert(forall|i: int| 0 <= i < init.len() ==> init[i] == vers[i]);
        lemma_same_holds_same_kept(init, c, d, t);
        assert(vers[vers.len() - 1] == vers.last());
    }
}

/// A rendered packument stays right until the first of its held versions leaves
/// the cooldown: at every instant before that, the same versions are held back.
/// Where nothing is held back it stays right for good. Leap seconds in the middle of a
/// day, whose age does not only grow, are left out.
pub proof fn render_is_stable_until_first_release(vers: Members, c: Cooldown, t: Target, later: int)
    requires
        c.now <= later,
        0 <= c.min_age <= i64::MAX,
        steady_times(vers, c),
        first_release(vers, c) matches Some(u) ==> later < u.reached(),
    ensures
        kept_versions(vers, at_instant(c, later), t) == kept_versions(vers, c, t),
        held_count(vers, at_instant(c, later)) == held_count(vers, c),
{
    let d = at_instant(c, later);
    lemma_release_bounds(vers, c);
    assert forall|i: int| 0 <= i < vers.len() implies c.holds((#[trigger] vers[i]).0) == d.holds(
        vers[i].0,
    ) by {
        assert(c.published(vers[i].0) == d.published(vers[i].0));
        if let Some(p) = c.published(vers[i].0) {
            steady_stamps_only_age(p, c.now);
            steady_stamps_only_age(p, later);
            if c.holds(vers[i].0) {
                lemma_later_is_reached(p, c.min_age);
                lemma_reached_in_order(first_release(vers, c)->0, p.later(c.min_age));
            }
        }
    }
    lemma_same_holds_same_kept(vers, c, d, t);
}

/// The first release is still to come, and when it comes at least one more version is
/// served. A release in a leap second, which is let go a second later, is left out.
pub proof fn first_release_frees_a_version(vers: Members, c: Cooldown)
    requires
        0 <= c.min_age <= i64::MAX,
        no_leap_seconds(vers, c),
        first_release(vers, c) is Some,
    ensures
        c.now < first_release(vers, c)->0.reached(),
        exists|i: int|
            0 <= i < vers.len() && c.holds((#[trigger] vers[i]).0) && !at_instant(
                c,
                first_release(vers, c)->0.reached(),
            ).holds(vers[i].0),
{
    lemma_release_bounds(vers, c);
    let u = first_release(vers, c)->0;
    let i = choose|i: int|
        0 <= i < vers.len() && c.holds((#[trigger] vers[i]).0) && u == c.published(
            vers[i].0,
        )->0.later(c.min_age);
    let p = c.published(vers[i].0)->0;
    lemma_later_is_reached(p, c.min_age);
    assert(at_instant(c, u.reached()).published(vers[i].0) == Some(p));
    assert(!at_instant(c, u.reached()).holds(vers[i].0));
}

} // verus!
