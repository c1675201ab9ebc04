//! A small in-memory negative (404) cache.

use vstd::prelude::*;

use crate::table::Table;
use crate::times::{valid_instant, INSTANT_LIMIT};

verus! {

/// The longest span that an entry can be given, in nanoseconds: what fits a signed
/// 64-bit count of milliseconds.
pub const MAX_TTL: i128 = 9_223_372_036_854_775_807_000_000;

/// Keys that are shielded until some instant. Entries are not shared across
/// replicas, which is acceptable: a stale entry only causes one extra fetch.
pub struct NegCache {
    pub entries: Table<i128>,
}

impl View for NegCache {
    type V = Map<Seq<char>, i128>;

    open spec fn view(&self) -> Map<Seq<char>, i128> {
        self.entries@
    }
}

/// `key` is shielded at `now`.
pub open spec fn live(m: Map<Seq<char>, i128>, key: Seq<char>, now: int) -> bool {
    m.contains_key(key) && now <= m[key]
}

impl NegCache {
    /// No key occurs twice, and no entry runs out later than one can be set to.
    pub open spec fn wf(&self) -> bool {
        &&& self.entries.wf()
        &&& forall|k: Seq<char>| #[trigger]
            self@.contains_key(k) ==> self@[k] <= INSTANT_LIMIT + MAX_TTL
    }

    /// An empty cache.
    pub fn new() -> (r: NegCache)
        ensures
            r.wf(),
            r@ == Map::<Seq<char>, i128>::empty(),
    {
        NegCache { entries: Table::new() }
    }

    /// Whether `key` is shielded at `now`. An entry that has run out is dropped.
    pub fn has(&mut self, key: &str, now: i128) -> (r: bool)
        requires
            old(self).wf(),
        ensures
            final(self).wf(),
            r == live(old(self)@, key@, now as int),
            r ==> final(self)@ == old(self)@,
            !r ==> final(self)@ == old(self)@.remove(key@),
    {
        let ghost before = self@;
        let exp = match self.entries.get(key) {
            Some(e) => *e,
            None => {
                assert(before.remove(key@) =~= before);
                return false;
            },
        };
        if now > exp {
            self.entries.remove(key);
            return false;
        }
        true
    }

    /// The time left before `key` runs out, where it is still shielded. An entry that
    /// has run out is dropped.
    pub fn remaining(&mut self, key: &str, now: i128) -> (r: Option<i128>)
        requires
            old(self).wf(),
            valid_instant(now as int),
        ensures
            final(self).wf(),
            match r {
                Some(d) => live(old(self)@, key@, now as int) && d > 0 && d == old(self)@[key@] - now
                    && final(self)@ == old(self)@,
                None => (old(self)@.contains_key(key@) ==> old(self)@[key@] <= now) && final(self)@
                    == old(self)@.remove(key@),
            },
    {
        let ghost before = self@;
        let exp = match self.entries.get(key) {
            Some(e) => *e,
            None => {
                assert(before.remove(key@) =~= before);
                return None;
            },
        };
        if exp <= now {
            self.entries.remove(key);
            return None;
        }
        Some(exp - now)
    }

    /// Shields `key` for `ttl` nanoseconds from `now` on. A zero span, or one beyond
    /// all bounds, shields nothing.
    pub fn set(&mut self, key: &str, ttl: i128, now: i128)
        requires
            old(self).wf(),
            valid_instant(now as int),
            0 <= ttl,
        ensures
            final(self).wf(),
            0 < ttl <= MAX_TTL ==> final(self)@ == old(self)@.insert(key@, (now + ttl) as i128),
            !(0 < ttl <= MAX_TTL) ==> final(self)@ == old(self)@,
    {
        if ttl == 0 || ttl > MAX_TTL {
            return;
        }
        let ghost before = self@;
        self.entries.insert(key, now + ttl);
        proof {
            assert forall|k: Seq<char>| #[trigger] self@.contains_key(k) implies self@[k]
                <= INSTANT_LIMIT + MAX_TTL by {
                if k != key@ {
                    assert(before.contains_key(k));
                }
            }
        }
    }

    /// Ends the shielding of `key`.
    pub fn clear(&mut self, key: &str)
        requires
            old(self).wf(),
        ensures
            final(self).wf(),
            final(self)@ == old(self)@.remove(key@),
    {
        let ghost before = self@;
        self.entries.remove(key);
        proof {
            assert forall|k: Seq<char>| #[trigger] self@.contains_key(k) implies self@[k]
                <= INSTANT_LIMIT + MAX_TTL by {
                assert(before.contains_key(k));
            }
        }
    }
}

/// A key is shielded from the moment it is set until its span is over, and no longer;
/// the other keys are left alone.
pub proof fn shield_lasts_for_its_span(
    before: Map<Seq<char>, i128>,
    key: Seq<char>,
    ttl: i128,
    at: i128,
    now: int,
)
    requires
        valid_instant(at as int),
        0 < ttl <= MAX_TTL,
    ensures
        live(before.insert(key, (at + ttl) as i128), key, now) <==> now <= at + ttl,
        forall|other: Seq<char>|
            other != key ==> #[trigger] live(before.insert(key, (at + ttl) as i128), other, now)
                == live(before, other, now),
{
}

/// A key that was cleared is not shielded, whatever was set before.
pub proof fn cleared_key_is_not_shielded(before: Map<Seq<char>, i128>, key: Seq<char>, now: int)
    ensures
        !live(before.remove(key), key, now),
        forall|other: Seq<char>|
            other != key ==> #[trigger] live(before.remove(key), other, now) == live(
                before,
                other,
                now,
            ),
{
}

} // verus!
