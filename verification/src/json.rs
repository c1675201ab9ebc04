//! A JSON object whose members are kept as raw fragments, in order of name.

use vstd::prelude::*;
use vstd::utf8::encode_utf8;

use crate::bridge::{
    firsts, json_array, json_literal, json_object, json_string, json_values, pairs, parse_array,
    parse_object, parse_string, parse_values, quote,
};
use crate::text::{
    ascending, join, lemma_text_lt_asymmetric, lemma_text_lt_irreflexive, lemma_text_lt_total,
    lemma_text_lt_transitive, less, opt_text, same, text_lt, texts,
};

verus! {

/// Name and raw text of the members of an object, in ascending order of name.
pub type Members = Seq<(Seq<char>, Seq<char>)>;

/// The value of each name.
pub open spec fn member_map(m: Members) -> Map<Seq<char>, Seq<char>> {
    Map::new(
        |k: Seq<char>| exists|i: int| 0 <= i < m.len() && (#[trigger] m[i]).0 == k,
        |k: Seq<char>|
            {
                let i = choose|i: int| 0 <= i < m.len() && (#[trigger] m[i]).0 == k;
                m[i].1
            },
    )
}

/// Each value of the map is that of a member.
pub proof fn lemma_member_of(m: Members, k: Seq<char>)
    requires
        member_map(m).contains_key(k),
    ensures
        exists|i: int| 0 <= i < m.len() && (#[trigger] m[i]).0 == k && member_map(m)[k] == m[i].1,
{
}

/// Each name occurs once, so the map gives back each member.
pub proof fn lemma_member_map(m: Members)
    requires
        ascending(firsts(m)),
    ensures
        forall|i: int|
            0 <= i < m.len() ==> member_map(m).contains_key((#[trigger] m[i]).0) && member_map(
                m,
            )[m[i].0] == m[i].1,
{
    assert forall|i: int| 0 <= i < m.len() implies member_map(m).contains_key((#[trigger] m[i]).0)
        && member_map(m)[m[i].0] == m[i].1 by {
        let j = choose|j: int| 0 <= j < m.len() && (#[trigger] m[j]).0 == m[i].0;
        lemma_text_lt_irreflexive(m[i].0);
        if i != j {
            assert(firsts(m)[i] == firsts(m)[j]);
        }
    }
}

/// Ascending members are determined by their map.
pub proof fn lemma_members_unique(a: Members, b: Members)
    requires
        ascending(firsts(a)),
        ascending(firsts(b)),
        member_map(a) == member_map(b),
    ensures
        a == b,
    decreases a.len(),
{
    lemma_member_map(a);
    lemma_member_map(b);
    if a.len() == 0 {
        if b.len() > 0 {
            assert(member_map(b).contains_key(b[0].0));
        }
        assert(a =~= b);
    } else if b.len() == 0 {
        assert(member_map(a).contains_key(a[0].0));
    } else {
        let x = a.last();
        let y = b.last();
        assert(member_map(b).contains_key(x.0));
        assert(member_map(a).contains_key(y.0));
        let i = choose|i: int| 0 <= i < b.len() && (#[trigger] b[i]).0 == x.0;
        let j = choose|j: int| 0 <= j < a.len() && (#[trigger] a[j]).0 == y.0;
        if x.0 != y.0 {
            assert(text_lt(firsts(b)[i], firsts(b)[b.len() - 1]));
            assert(text_lt(firsts(a)[j], firsts(a)[a.len() - 1]));
            lemma_text_lt_asymmetric(x.0, y.0);
        }
        assert(x == y);
        let a0 = a.drop_last();
        let b0 = b.drop_last();
        assert(firsts(a0) =~= firsts(a).drop_last());
        assert(firsts(b0) =~= firsts(b).drop_last());
        lemma_member_map(a0);
        lemma_member_map(b0);
        assert(member_map(a0) =~= member_map(a).remove(x.0)) by {
            lemma_drop_last_map(a);
        }
        assert(member_map(b0) =~= member_map(b).remove(y.0)) by {
            lemma_drop_last_map(b);
        }
        lemma_members_unique(a0, b0);
        assert(a =~= a0.push(x));
        assert(b =~= b0.push(y));
    }
}

pub proof fn lemma_drop_last_map(a: Members)
    requires
        a.len() > 0,
        ascending(firsts(a)),
    ensures
        member_map(a.drop_last()) == member_map(a).remove(a.last().0),
{
    let a0 = a.drop_last();
    assert(firsts(a0) =~= firsts(a).drop_last());
    lemma_member_map(a);
    lemma_member_map(a0);
    assert forall|k: Seq<char>| #[trigger]
        member_map(a0).contains_key(k) implies member_map(a).remove(a.last().0).contains_key(k)
        && member_map(a0)[k] == member_map(a)[k] by {
        let i = choose|i: int| 0 <= i < a0.len() && (#[trigger] a0[i]).0 == k;
        assert(a[i] == a0[i]);
        assert(text_lt(firsts(a)[i], firsts(a)[a.len() - 1]));
        lemma_text_lt_irreflexive(k);
    }
    assert forall|k: Seq<char>| #[trigger]
        member_map(a).remove(a.last().0).contains_key(k) implies member_map(a0).contains_key(k) by {
        let i = choose|i: int| 0 <= i < a.len() && (#[trigger] a[i]).0 == k;
        assert(a0[i] == a[i]);
    }
    assert(member_map(a0) =~= member_map(a).remove(a.last().0));
}

/// The compact text of an object whose members are already encoded.
pub open spec fn object_text(m: Members) -> Seq<char> {
    seq!['{'] + join(
        m.map_values(|p: (Seq<char>, Seq<char>)| member_text(p)),
        seq![','],
    ) + seq!['}']
}

/// The encoded name, a colon and the raw value.
pub open spec fn member_text(p: (Seq<char>, Seq<char>)) -> Seq<char> {
    json_literal(p.0) + seq![':'] + p.1
}

/// A JSON object whose members are kept as raw fragments.
pub struct RawObject {
    /// Name and raw value of each member.
    pub members: Vec<(String, String)>,
}

impl View for RawObject {
    type V = Members;

    open spec fn view(&self) -> Members {
        pairs(self.members@)
    }
}

impl RawObject {
    /// The names ascend, so none occurs twice.
    pub open spec fn wf(&self) -> bool {
        ascending(firsts(self@))
    }

    /// The value of each name.
    pub open spec fn map(&self) -> Map<Seq<char>, Seq<char>> {
        member_map(self@)
    }

    /// An object without members.
    pub fn new() -> (r: RawObject)
        ensures
            r.wf(),
            r@ == Seq::<(Seq<char>, Seq<char>)>::empty(),
            r.map() == Map::<Seq<char>, Seq<char>>::empty(),
    {
        let r = RawObject { members: Vec::new() };
        assert(r@ =~= Seq::empty());
        assert(r.map() =~= Map::empty());
        r
    }

    /// The number of members.
    pub fn len(&self) -> (n: usize)
        ensures
            n == self@.len(),
    {
        self.members.len()
    }

    /// The position of `key`, or the position at which it belongs.
    fn position(&self, key: &str) -> (r: (bool, usize))
        requires
            self.wf(),
        ensures
            r.1 <= self@.len(),
            r.0 ==> r.1 < self@.len() && self@[r.1 as int].0 == key@,
            !r.0 ==> !self.map().contains_key(key@),
            forall|i: int| 0 <= i < r.1 ==> text_lt((#[trigger] self@[i]).0, key@),
            !r.0 ==> forall|i: int| r.1 <= i < self@.len() ==> text_lt(key@, (#[trigger] self@[i]).0),
    {
        let mut i: usize = 0;
        while i < self.members.len() && less(self.members[i].0.as_str(), key)
            invariant
                i <= self@.len(),
                self@.len() == self.members@.len(),
                forall|j: int| 0 <= j < i ==> text_lt((#[trigger] self@[j]).0, key@),
            decreases self.members.len() - i,
        {
            assert(self@[i as int].0 == self.members@[i as int].0@);
            i += 1;
        }
        if i < self.members.len() {
            assert(self@[i as int].0 == self.members@[i as int].0@);
            if same(self.members[i].0.as_str(), key) {
                return (true, i);
            }
            proof {
                lemma_text_lt_total(self@[i as int].0, key@);
            }
        }
        proof {
            assert forall|j: int| i <= j < self@.len() implies text_lt(
                key@,
                (#[trigger] self@[j]).0,
            ) by {
                if j > i {
                    assert(text_lt(firsts(self@)[i as int], firsts(self@)[j]));
                    lemma_text_lt_transitive(key@, self@[i as int].0, self@[j].0);
                }
            }
            lemma_text_lt_irreflexive(key@);
            assert(!self.map().contains_key(key@));
        }
        (false, i)
    }

    /// The raw value of `key`.
    pub fn get(&self, key: &str) -> (r: Option<&String>)
        requires
            self.wf(),
        ensures
            match r {
                Some(v) => self.map().contains_key(key@) && self.map()[key@] == v@,
                None => !self.map().contains_key(key@),
            },
    {
        let (found, i) = self.position(key);
        if found {
            proof {
                lemma_member_map(self@);
                assert(self@[i as int].1 == self.members@[i as int].1@);
            }
            Some(&self.members[i].1)
        } else {
            None
        }
    }

    /// Whether there is a member of name `key`.
    pub fn contains_key(&self, key: &str) -> (r: bool)
        requires
            self.wf(),
        ensures
            r == self.map().contains_key(key@),
    {
        self.get(key).is_some()
    }

    /// Gives `key` the raw value `value`, in place of the one it has.
    pub fn insert(&mut self, key: String, value: String)
        requires
            old(self).wf(),
        ensures
            final(self).wf(),
            final(self).map() == old(self).map().insert(key@, value@),
    {
        let (found, i) = self.position(key.as_str());
        let ghost before = self@;
        let ghost k = key@;
        let ghost v = value@;
        if found {
            let ghost name = self.members@[i as int].0@;
            assert(before[i as int].0 == name);
            self.members.set(i, (key, value));
            proof {
                let after = self@;
                assert(after =~= before.update(i as int, (k, v)));
                assert(firsts(after) =~= firsts(before));
                lemma_member_map(before);
                lemma_member_map(after);
                assert forall|x: Seq<char>| #[trigger]
                    member_map(before).insert(k, v).contains_key(x) implies member_map(
                    after,
                ).contains_key(x) && member_map(after)[x] == member_map(before).insert(k, v)[x] by {
                    if x == k {
                        assert(after[i as int].0 == k);
                    } else {
                        let j = choose|j: int| 0 <= j < before.len() && (#[trigger] before[j]).0 == x;
                        assert(after[j] == before[j]);
                    }
                }
                assert forall|x: Seq<char>| #[trigger]
                    member_map(after).contains_key(x) implies member_map(before).insert(
                    k,
                    v,
                ).contains_key(x) by {
                    let j = choose|j: int| 0 <= j < after.len() && (#[trigger] after[j]).0 == x;
                    if j != i {
                        assert(before[j] == after[j]);
                    }
                }
                assert(member_map(after) =~= member_map(before).insert(k, v));
            }
        } else {
            self.members.insert(i, (key, value));
            proof {
                let after = self@;
                assert(after =~= before.insert(i as int, (k, v)));
                assert forall|a: int, b: int| 0 <= a < b < after.len() implies text_lt(
                    firsts(after)[a],
                    firsts(after)[b],
                ) by {
                    let p = if a < i {
                        a
                    } else {
                        a - 1
                    };
                    let q = if b < i {
                        b
                    } else {
                        b - 1
                    };
                    if a != i && b != i {
                        assert(text_lt(firsts(before)[p], firsts(before)[q]));
                    } else if a == i {
                        assert(before[q] == after[b]);
                    } else {
                        assert(before[p] == after[a]);
                    }
                }
                lemma_member_map(before);
                lemma_member_map(after);
                assert forall|x: Seq<char>| #[trigger]
                    member_map(before).insert(k, v).contains_key(x) implies member_map(
                    after,
                ).contains_key(x) && member_map(after)[x] == member_map(before).insert(k, v)[x] by {
                    if x == k {
                        assert(after[i as int].0 == k);
                    } else {
                        let j = choose|j: int| 0 <= j < before.len() && (#[trigger] before[j]).0 == x;
                        let j2 = if j < i {
                            j
                        } else {
                            j + 1
                        };
                        assert(after[j2] == before[j]);
                    }
                }
                assert forall|x: Seq<char>| #[trigger]
                    member_map(after).contains_key(x) implies member_map(before).insert(
                    k,
                    v,
                ).contains_key(x) by {
                    let j = choose|j: int| 0 <= j < after.len() && (#[trigger] after[j]).0 == x;
                    if j < i {
                        assert(before[j] == after[j]);
                    } else if j > i {
                        assert(before[j - 1] == after[j]);
                    }
                }
                assert(member_map(after) =~= member_map(before).insert(k, v));
            }
        }
    }

    /// Adds a member whose name comes after all others.
    pub(crate) fn push(&mut self, key: String, value: String)
        requires
            old(self).wf(),
            old(self)@.len() > 0 ==> text_lt(old(self)@.last().0, key@),
        ensures
            final(self).wf(),
            final(self)@ == old(self)@.push((key@, value@)),
            final(self).map() == old(self).map().insert(key@, value@),
    {
        let ghost before = self@;
        let ghost k = key@;
        let ghost v = value@;
        self.members.push((key, value));
        proof {
            let after = self@;
            assert(after =~= before.push((k, v)));
            assert forall|a: int, b: int| 0 <= a < b < after.len() implies text_lt(
                firsts(after)[a],
                firsts(after)[b],
            ) by {
                if b < before.len() {
                    assert(text_lt(firsts(before)[a], firsts(before)[b]));
                } else if a < before.len() - 1 {
                    assert(text_lt(firsts(before)[a], firsts(before)[before.len() - 1]));
                    lemma_text_lt_transitive(before[a].0, before.last().0, k);
                }
            }
            assert(after.drop_last() =~= before);
            lemma_drop_last_map(after);
            lemma_member_map(after);
            assert(after[after.len() - 1].0 == k);
            assert(member_map(after) =~= member_map(before).insert(k, v));
        }
    }

    /// The compact text of the object.
    pub fn text(&self) -> (r: String)
        ensures
            r@ == object_text(self@),
    {
        let mut out = String::new();
        out.push('{');
        let mut i: usize = 0;
        let ghost parts = self@.map_values(|p: (Seq<char>, Seq<char>)| member_text(p));
        assert(parts.take(0) =~= Seq::empty());
        assert(out@ =~= seq!['{'] + join(parts.take(0), seq![',']));
        while i < self.members.len()
            invariant
                i <= self.members.len(),
                parts == self@.map_values(|p: (Seq<char>, Seq<char>)| member_text(p)),
                out@ == seq!['{'] + join(parts.take(i as int), seq![',']),
            decreases self.members.len() - i,
        {
            let ghost start = out@;
            if i > 0 {
                out.push(',');
            }
            let ghost sep = out@;
            out.append(quote(self.members[i].0.as_str()).as_str());
            out.push(':');
            out.append(self.members[i].1.as_str());
            proof {
                let p = self@[i as int];
                assert(p == (self.members@[i as int].0@, self.members@[i as int].1@));
                assert(out@ =~= sep + member_text(p));
                assert(parts[i as int] == member_text(p));
                assert(parts.take(i + 1).drop_last() =~= parts.take(i as int));
                assert(parts.take(i + 1).last() == parts[i as int]);
                if i > 0 {
                    assert(sep =~= start + seq![',']);
                    assert(out@ =~= seq!['{'] + (join(parts.take(i as int), seq![',']) + seq![',']
                        + parts[i as int]));
                } else {
                    assert(out@ =~= seq!['{'] + parts[0]);
                }
            }
            i += 1;
        }
        assert(parts.take(parts.len() as int) =~= parts);
        out.push('}');
        assert(out@ =~= object_text(self@));
        out
    }
}

/// Encodes an object whose members are already encoded.
pub fn marshal_raw_object(members: &RawObject) -> (r: Option<Vec<u8>>)
    ensures
        r is Some,
        r->0@ == encode_utf8(object_text(members@)),
{
    let text = members.text();
    Some(text.as_str().as_bytes_vec())
}

// ---------------------------------------------------------------------------
// Members in the order of their document

/// A member of this name is there.
pub open spec fn named_in(m: Members, k: Seq<char>) -> bool {
    exists|i: int| 0 <= i < m.len() && (#[trigger] m[i]).0 == k
}

/// `i` is the place of the first member of this name.
pub open spec fn first_at(m: Members, k: Seq<char>, i: int) -> bool {
    &&& 0 <= i < m.len()
    &&& m[i].0 == k
    &&& forall|j: int| 0 <= j < i ==> (#[trigger] m[j]).0 != k
}

/// The place of the first member of this name.
pub open spec fn first_place(m: Members, k: Seq<char>) -> int {
    choose|i: int| first_at(m, k, i)
}

/// There is only one such place.
pub proof fn lemma_first_place(m: Members, k: Seq<char>, i: int)
    requires
        first_at(m, k, i),
    ensures
        first_place(m, k) == i,
{
    let c = first_place(m, k);
    assert(first_at(m, k, c));
    if c < i {
        assert(m[c].0 != k);
    }
    if i < c {
        assert(m[i].0 != k);
    }
}

/// The place of the member `key`.
pub fn find_member(members: &Vec<(String, String)>, key: &str) -> (r: Option<usize>)
    ensures
        match r {
            Some(i) => i < members@.len() && named_in(pairs(members@), key@) && first_place(
                pairs(members@),
                key@,
            ) == i && pairs(members@)[i as int].0 == key@,
            None => !named_in(pairs(members@), key@),
        },
{
    let ghost m = pairs(members@);
    let mut i: usize = 0;
    while i < members.len()
        invariant
            i <= members@.len(),
            m == pairs(members@),
            forall|j: int| 0 <= j < i ==> (#[trigger] m[j]).0 != key@,
        decreases members@.len() - i,
    {
        assert(m[i as int].0 == members@[i as int].0@);
        if same(members[i].0.as_str(), key) {
            proof {
                lemma_first_place(m, key@, i as int);
            }
            return Some(i);
        }
        i += 1;
    }
    None
}

/// Members of distinct names, sorted by name.
pub fn sorted_object(members: Vec<(String, String)>) -> (r: RawObject)
    requires
        firsts(pairs(members@)).no_duplicates(),
    ensures
        r.wf(),
        r.map() == member_map(pairs(members@)),
{
    let ghost m = pairs(members@);
    let mut out = RawObject::new();
    let mut i: usize = 0;
    assert(member_map(m.take(0)) =~= Map::empty());
    while i < members.len()
        invariant
            i <= members@.len(),
            m == pairs(members@),
            firsts(m).no_duplicates(),
            out.wf(),
            out.map() == member_map(m.take(i as int)),
        decreases members@.len() - i,
    {
        let key = members[i].0.as_str().to_owned();
        let value = members[i].1.as_str().to_owned();
        proof {
            lemma_next_member(m, i as int);
            assert(m[i as int] == (key@, value@));
        }
        out.insert(key, value);
        i += 1;
    }
    assert(m.take(m.len() as int) =~= m);
    out
}

/// One more member of a new name is one more entry.
proof fn lemma_next_member(m: Members, i: int)
    requires
        firsts(m).no_duplicates(),
        0 <= i < m.len(),
    ensures
        member_map(m.take(i + 1)) == member_map(m.take(i)).insert(m[i].0, m[i].1),
{
    let a = m.take(i);
    let b = m.take(i + 1);
    assert forall|k: Seq<char>| #[trigger] member_map(b).contains_key(k) <==> member_map(a).insert(
        m[i].0,
        m[i].1,
    ).contains_key(k) by {
        if member_map(b).contains_key(k) {
            let j = choose|j: int| 0 <= j < b.len() && (#[trigger] b[j]).0 == k;
            if j < i {
                assert(a[j].0 == k);
            }
        }
        if member_map(a).contains_key(k) {
            let j = choose|j: int| 0 <= j < a.len() && (#[trigger] a[j]).0 == k;
            assert(b[j].0 == k);
        }
        assert(b[i].0 == m[i].0);
    }
    assert forall|k: Seq<char>| #[trigger] member_map(b).contains_key(k) implies member_map(b)[k]
        == member_map(a).insert(m[i].0, m[i].1)[k] by {
        lemma_member_of(b, k);
        let j = choose|j: int|
            0 <= j < b.len() && (#[trigger] b[j]).0 == k && member_map(b)[k] == b[j].1;
        assert(firsts(m)[j] == m[j].0);
        assert(firsts(m)[i] == m[i].0);
        if k != m[i].0 {
            assert(a[j].0 == k);
            assert(member_map(a).contains_key(k));
            lemma_member_of(a, k);
            let n = choose|n: int|
                0 <= n < a.len() && (#[trigger] a[n]).0 == k && member_map(a)[k] == a[n].1;
            assert(firsts(m)[n] == m[n].0);
            assert(n == j);
        } else {
            assert(j == i);
        }
    }
    assert(member_map(b) =~= member_map(a).insert(m[i].0, m[i].1));
}

/// `target` with the members of `source` whose names it lacks, behind its own.
pub open spec fn add_members(target: Members, source: Members) -> Members
    decreases source.len(),
{
    if source.len() == 0 {
        target
    } else {
        let p = add_members(target, source.drop_last());
        if named_in(p, source.last().0) {
            p
        } else {
            p.push(source.last())
        }
    }
}

/// Adds the members whose names `target` lacks.
pub fn add_missing(target: &mut Vec<(String, String)>, source: Vec<(String, String)>)
    ensures
        pairs(final(target)@) == add_members(pairs(old(target)@), pairs(source@)),
{
    let ghost m = pairs(source@);
    let ghost before = pairs(target@);
    let mut i: usize = 0;
    assert(m.take(0) =~= Seq::empty());
    while i < source.len()
        invariant
            i <= source@.len(),
            m == pairs(source@),
            pairs(target@) == add_members(before, m.take(i as int)),
        decreases source@.len() - i,
    {
        proof {
            assert(m.take(i + 1).drop_last() =~= m.take(i as int));
            assert(m.take(i + 1).last() == (source@[i as int].0@, source@[i as int].1@));
        }
        if find_member(target, source[i].0.as_str()).is_none() {
            let ghost now = pairs(target@);
            let pair = (source[i].0.as_str().to_owned(), source[i].1.as_str().to_owned());
            target.push(pair);
            assert(pairs(target@) =~= now.push((source@[i as int].0@, source@[i as int].1@)));
        }
        i += 1;
    }
    assert(m.take(m.len() as int) =~= m);
}

/// What is there keeps its place, and names come from both sides.
pub proof fn lemma_add_members(target: Members, source: Members)
    ensures
        target.len() <= add_members(target, source).len(),
        add_members(target, source).take(target.len() as int) == target,
        forall|k: Seq<char>| #[trigger]
            named_in(add_members(target, source), k) <==> named_in(target, k) || named_in(source, k),
        firsts(target).no_duplicates() ==> firsts(add_members(target, source)).no_duplicates(),
    decreases source.len(),
{
    if source.len() == 0 {
        assert(target.take(target.len() as int) =~= target);
    } else {
        let front = source.drop_last();
        lemma_add_members(target, front);
        let p = add_members(target, front);
        let q = add_members(target, source);
        assert(q.take(target.len() as int) =~= p.take(target.len() as int));
        assert forall|k: Seq<char>| #[trigger] named_in(q, k) <==> named_in(target, k) || named_in(
            source,
            k,
        ) by {
            assert(named_in(p, k) <==> named_in(target, k) || named_in(front, k));
            lemma_named_push(front, source.last(), k);
            assert(front.push(source.last()) =~= source);
            if q.len() > p.len() {
                lemma_named_push(p, source.last(), k);
            }
        }
        if firsts(target).no_duplicates() && q.len() > p.len() {
            assert(firsts(q) =~= firsts(p).push(source.last().0));
            assert forall|i: int, j: int|
                0 <= i < firsts(q).len() && 0 <= j < firsts(q).len() && i != j implies firsts(q)[i]
                != firsts(q)[j] by {
                assert(forall|n: int| 0 <= n < p.len() ==> (#[trigger] p[n]).0 == firsts(p)[n]);
                if i < p.len() && j < p.len() {
                } else if i < p.len() {
                    assert(p[i].0 != source.last().0);
                } else {
                    assert(p[j].0 != source.last().0);
                }
            }
        }
    }
}

proof fn lemma_named_push(m: Members, x: (Seq<char>, Seq<char>), k: Seq<char>)
    ensures
        named_in(m.push(x), k) <==> named_in(m, k) || x.0 == k,
{
    let n = m.push(x);
    if named_in(m, k) {
        let i = choose|i: int| 0 <= i < m.len() && (#[trigger] m[i]).0 == k;
        assert(n[i].0 == k);
    }
    if named_in(n, k) {
        let i = choose|i: int| 0 <= i < n.len() && (#[trigger] n[i]).0 == k;
        if i < m.len() {
            assert(m[i].0 == k);
        }
    }
    assert(n[m.len() as int].0 == x.0);
}

/// A name that is new comes in with its first member.
pub proof fn lemma_add_takes(target: Members, source: Members, p: int)
    requires
        0 <= p < source.len(),
        !named_in(target, source[p].0),
        forall|q: int| 0 <= q < p ==> (#[trigger] source[q]).0 != source[p].0,
    ensures
        add_members(target, source).contains(source[p]),
    decreases source.len(),
{
    let front = source.drop_last();
    let before = add_members(target, front);
    lemma_add_members(target, front);
    if p < front.len() {
        assert(forall|q: int| 0 <= q < p ==> (#[trigger] front[q]).0 == source[q].0);
        lemma_add_takes(target, front, p);
        let i = choose|i: int| 0 <= i < before.len() && before[i] == source[p];
        assert(add_members(target, source)[i] == source[p]);
    } else {
        assert(!named_in(front, source[p].0)) by {
            if named_in(front, source[p].0) {
                let q = choose|q: int| 0 <= q < front.len() && (#[trigger] front[q]).0 == source[p].0;
                assert(source[q].0 == source[p].0);
            }
        }
        assert(!named_in(before, source[p].0));
        assert(add_members(target, source)[before.len() as int] == source[p]);
    }
}

// ---------------------------------------------------------------------------
// What a document holds under a name

/// The raw text of what the object in `body` holds under `key`; nothing where `body`
/// cannot be read, or holds nothing there.
pub open spec fn raw_member(body: Seq<u8>, key: Seq<char>) -> Option<Seq<char>> {
    if json_values(body) is Some && json_object(body) is Some && member_map(
        json_object(body)->0,
    ).contains_key(key) {
        Some(member_map(json_object(body)->0)[key])
    } else {
        None
    }
}

fn read_member(body: &[u8], key: &str) -> (r: Option<String>)
    ensures
        opt_text(r) == raw_member(body@, key@),
{
    if parse_values(body).is_none() {
        return None;
    }
    match parse_object(body) {
        Some(members) => {
            let doc = RawObject { members };
            match doc.get(key) {
                Some(raw) => Some(raw.as_str().to_owned()),
                None => None,
            }
        },
        None => None,
    }
}

/// The members of the object that the object in `body` holds under `key`, each value
/// in compact form, in the order of the document; none where there is no object under
/// that key.
pub open spec fn json_values_at(body: Seq<u8>, key: Seq<char>) -> Members {
    match raw_member(body, key) {
        Some(raw) => match json_values(encode_utf8(raw)) {
            Some(m) => m,
            None => Seq::empty(),
        },
        None => Seq::empty(),
    }
}

/// Reads the members of the object that the object in `body` holds under `key`.
pub fn values_at(body: &[u8], key: &str) -> (r: Vec<(String, String)>)
    ensures
        pairs(r@) == json_values_at(body@, key@),
        firsts(pairs(r@)).no_duplicates(),
{
    if let Some(raw) = read_member(body, key) {
        if let Some(members) = parse_values(raw.as_str().as_bytes()) {
            return members;
        }
    }
    let none: Vec<(String, String)> = Vec::new();
    assert(pairs(none@) =~= Seq::empty());
    assert(firsts(pairs(none@)) =~= Seq::empty());
    none
}

/// The text that the object in `item` holds under `field`; nothing where `item` is no
/// object, or holds no string there.
pub open spec fn field_text(item: Seq<char>, field: Seq<char>) -> Option<Seq<char>> {
    match json_values(encode_utf8(item)) {
        Some(m) => if named_in(m, field) {
            json_string(encode_utf8(m[first_place(m, field)].1))
        } else {
            None
        },
        None => None,
    }
}

fn read_field(item: &str, field: &str) -> (r: Option<String>)
    ensures
        opt_text(r) == field_text(item@, field@),
{
    match parse_values(item.as_bytes()) {
        Some(members) => match find_member(&members, field) {
            Some(i) => {
                assert(pairs(members@)[i as int].1 == members@[i as int].1@);
                parse_string(members[i].1.as_str().as_bytes())
            },
            None => None,
        },
        None => None,
    }
}

/// Each item with the text of its `field`.
pub open spec fn with_fields(items: Seq<Seq<char>>, field: Seq<char>) -> Seq<
    (Option<Seq<char>>, Seq<char>),
> {
    items.map_values(|t: Seq<char>| (field_text(t, field), t))
}

/// The items of the array that the object in `body` holds under `key`: the text of
/// each item's `field`, where it is a string, and the item in compact form. None where
/// there is no array under that key.
pub open spec fn json_items(body: Seq<u8>, key: Seq<char>, field: Seq<char>) -> Seq<
    (Option<Seq<char>>, Seq<char>),
> {
    match raw_member(body, key) {
        Some(raw) => match json_array(encode_utf8(raw)) {
            Some(items) => with_fields(items, field),
            None => Seq::empty(),
        },
        None => Seq::empty(),
    }
}

/// The views of a list of items.
pub open spec fn item_views(v: Seq<(Option<String>, String)>) -> Seq<
    (Option<Seq<char>>, Seq<char>),
> {
    v.map_values(|p: (Option<String>, String)| (opt_text(p.0), p.1@))
}

/// Reads the items of the array that the object in `body` holds under `key`.
pub fn items_at(body: &[u8], key: &str, field: &str) -> (r: Vec<(Option<String>, String)>)
    ensures
        item_views(r@) == json_items(body@, key@, field@),
{
    let mut out: Vec<(Option<String>, String)> = Vec::new();
    assert(item_views(out@) =~= Seq::empty());
    let raw = match read_member(body, key) {
        Some(raw) => raw,
        None => return out,
    };
    let items = match parse_array(raw.as_str().as_bytes()) {
        Some(items) => items,
        None => return out,
    };
    let ghost want = with_fields(texts(items@), field@);
    let mut i: usize = 0;
    while i < items.len()
        invariant
            i <= items@.len(),
            want == with_fields(texts(items@), field@),
            item_views(out@) == want.take(i as int),
        decreases items@.len() - i,
    {
        let ghost done = item_views(out@);
        let name = read_field(items[i].as_str(), field);
        let ghost item = (opt_text(name), items@[i as int]@);
        out.push((name, items[i].as_str().to_owned()));
        proof {
            assert(want[i as int] == item);
            assert(item_views(out@) =~= done.push(item));
            assert(want.take(i + 1) =~= want.take(i as int).push(item));
        }
        i += 1;
    }
    assert(want.take(want.len() as int) =~= want);
    out
}

} // verus!
