//! A string literal inside a nested object can be replaced by another: what finds the
//! one then finds the other, in the same place.

use vstd::prelude::*;

use crate::repo::span::{
    closes, delimits, field_at, field_from, field_span, is_ws, lemma_field_at_bounds,
    lemma_field_from_bounds, lemma_nested_end_bounds, lemma_scalar_end_bounds,
    lemma_string_end_bounds, lemma_value_end_bounds, lemma_ws_end_bounds, nested_end, opens,
    scalar_end, string_end, value_end, ws_end,
};

verus! {

/// A string literal: it opens with a quote, and the first quote that is not escaped
/// closes it.
pub open spec fn is_literal(lit: Seq<u8>) -> bool {
    lit.len() > 1 && lit[0] == 0x22 && string_end(lit, 1) == Some(lit.len() as int)
}

/// No quote and no opening bracket stands from `i` up to `end`.
pub open spec fn bare(b: Seq<u8>, i: int, end: int) -> bool {
    forall|j: int| i <= j < end ==> #[trigger] b[j] != 0x22 && !opens(b[j])
}

/// The numbers and words before the member `key`, among the members from `i` on, hold
/// neither a quote nor an opening bracket. Those of a JSON document never do.
pub open spec fn plain_scalars(b: Seq<u8>, key: Seq<char>, i: int) -> bool
    decreases b.len() - i,
{
    if i < 0 {
        true
    } else {
        match field_at(b, i) {
            None => true,
            Some(f) => if f.name == key {
                true
            } else {
                let sep = ws_end(b, f.end);
                &&& b[f.start] == 0x22 || opens(b[f.start]) || bare(b, f.start, f.end)
                &&& if sep < b.len() && b[sep] == 0x2c {
                    proof {
                        lemma_field_at_bounds(b, i);
                        lemma_ws_end_bounds(b, f.end);
                    }
                    plain_scalars(b, key, sep + 1)
                } else {
                    true
                }
            },
        }
    }
}

// ---------------------------------------------------------------------------
// What is found depends on what stands before its end only

/// Two texts have the first `m` bytes in common.
pub open spec fn agree(a: Seq<u8>, b: Seq<u8>, m: int) -> bool {
    m <= a.len() && m <= b.len() && forall|i: int| 0 <= i < m ==> #[trigger] a[i] == b[i]
}

proof fn lemma_ws_local(a: Seq<u8>, b: Seq<u8>, m: int, i: int)
    requires
        agree(a, b, m),
        0 <= i,
        ws_end(a, i) < m,
    ensures
        ws_end(b, i) == ws_end(a, i),
    decreases a.len() - i,
{
    lemma_ws_end_bounds(a, i);
    if i < a.len() && is_ws(a[i]) {
        lemma_ws_end_bounds(a, i + 1);
        lemma_ws_local(a, b, m, i + 1);
    }
}

proof fn lemma_string_local(a: Seq<u8>, b: Seq<u8>, m: int, j: int)
    requires
        agree(a, b, m),
        string_end(a, j) is Some,
        string_end(a, j)->0 <= m,
    ensures
        string_end(b, j) == string_end(a, j),
    decreases a.len() + 1 - j,
{
    lemma_string_end_bounds(a, j);
    if a[j] == 0x5c {
        lemma_string_local(a, b, m, j + 2);
    } else if a[j] != 0x22 {
        lemma_string_local(a, b, m, j + 1);
    }
}

proof fn lemma_nested_local(a: Seq<u8>, b: Seq<u8>, m: int, j: int, depth: int)
    requires
        agree(a, b, m),
        nested_end(a, j, depth) is Some,
        nested_end(a, j, depth)->0 <= m,
    ensures
        nested_end(b, j, depth) == nested_end(a, j, depth),
    decreases a.len() - j,
{
    lemma_nested_end_bounds(a, j, depth);
    if a[j] == 0x22 {
        lemma_string_end_bounds(a, j + 1);
        let k = string_end(a, j + 1)->0;
        lemma_nested_end_bounds(a, k, depth);
        lemma_string_local(a, b, m, j + 1);
        lemma_nested_local(a, b, m, k, depth);
    } else if opens(a[j]) {
        lemma_nested_local(a, b, m, j + 1, depth + 1);
    } else if closes(a[j]) {
        if depth != 1 {
            lemma_nested_local(a, b, m, j + 1, depth - 1);
        }
    } else {
        lemma_nested_local(a, b, m, j + 1, depth);
    }
}

proof fn lemma_scalar_local(a: Seq<u8>, b: Seq<u8>, m: int, j: int)
    requires
        agree(a, b, m),
        0 <= j <= a.len(),
        scalar_end(a, j) < m,
    ensures
        scalar_end(b, j) == scalar_end(a, j),
    decreases a.len() - j,
{
    lemma_scalar_end_bounds(a, j);
    if j < a.len() && !delimits(a[j]) {
        lemma_scalar_end_bounds(a, j + 1);
        lemma_scalar_local(a, b, m, j + 1);
    }
}

proof fn lemma_value_local(a: Seq<u8>, b: Seq<u8>, m: int, i: int)
    requires
        agree(a, b, m),
        value_end(a, i) is Some,
        value_end(a, i)->0 < m,
    ensures
        value_end(b, i) == value_end(a, i),
{
    lemma_value_end_bounds(a, i);
    assert(a[i] == b[i]);
    if a[i] == 0x22 {
        lemma_string_local(a, b, m, i + 1);
    } else if opens(a[i]) {
        lemma_nested_local(a, b, m, i, 0);
    } else {
        lemma_scalar_local(a, b, m, i);
    }
}

/// The member that starts at `i` has the same name and its value the same place,
/// where the texts agree up to the first byte of the value.
proof fn lemma_field_head_local(a: Seq<u8>, b: Seq<u8>, m: int, i: int)
    requires
        agree(a, b, m),
        0 <= i,
        field_at(a, i) is Some,
        (field_at(a, i)->0).start < m,
        value_end(b, (field_at(a, i)->0).start) is Some,
    ensures
        field_at(b, i) is Some,
        (field_at(b, i)->0).name == (field_at(a, i)->0).name,
        (field_at(b, i)->0).start == (field_at(a, i)->0).start,
        Some((field_at(b, i)->0).end) == value_end(b, (field_at(a, i)->0).start),
{
    let q = ws_end(a, i);
    lemma_ws_end_bounds(a, i);
    lemma_string_end_bounds(a, q + 1);
    let e = string_end(a, q + 1)->0;
    lemma_ws_end_bounds(a, e);
    let colon = ws_end(a, e);
    lemma_ws_end_bounds(a, colon + 1);
    lemma_ws_local(a, b, m, i);
    lemma_string_local(a, b, m, q + 1);
    assert(a.subrange(q, e) =~= b.subrange(q, e));
    lemma_ws_local(a, b, m, e);
    lemma_ws_local(a, b, m, colon + 1);
}

/// A member is found in the same place, where the texts agree up to the first byte of
/// its value.
proof fn lemma_field_from_local(
    a: Seq<u8>,
    b: Seq<u8>,
    key: Seq<char>,
    m: int,
    i: int,
)
    requires
        agree(a, b, m),
        0 <= i,
        field_from(a, key, i) is Some,
        (field_from(a, key, i)->0).0 < m,
        value_end(b, (field_from(a, key, i)->0).0) is Some,
    ensures
        field_from(b, key, i) is Some,
        (field_from(b, key, i)->0).0 == (field_from(a, key, i)->0).0,
        Some((field_from(b, key, i)->0).1) == value_end(b, (field_from(a, key, i)->0).0),
        plain_scalars(a, key, i) ==> plain_scalars(b, key, i),
    decreases a.len() - i,
{
    lemma_field_at_bounds(a, i);
    let f = field_at(a, i)->0;
    if f.name == key {
        lemma_field_head_local(a, b, m, i);
    } else {
        let sep = ws_end(a, f.end);
        lemma_ws_end_bounds(a, f.end);
        lemma_field_from_bounds(a, key, sep + 1);
        lemma_value_is_field_end(a, i);
        lemma_value_local(a, b, m, f.start);
        lemma_field_head_local(a, b, m, i);
        lemma_ws_local(a, b, m, f.end);
        lemma_field_from_local(a, b, key, m, sep + 1);
        if bare(a, f.start, f.end) {
            assert forall|j: int| f.start <= j < f.end implies #[trigger] b[j] != 0x22 && !opens(
                b[j],
            ) by {
                assert(a[j] == b[j]);
            }
        }
    }
}

proof fn lemma_value_is_field_end(a: Seq<u8>, i: int)
    requires
        field_at(a, i) is Some,
    ensures
        value_end(a, (field_at(a, i)->0).start) == Some((field_at(a, i)->0).end),
{
}

// ---------------------------------------------------------------------------
// Shifting

proof fn lemma_string_shift(x: Seq<u8>, y: Seq<u8>, j: int)
    requires
        0 <= j,
    ensures
        string_end(x + y, x.len() + j) == match string_end(y, j) {
            Some(k) => Some(x.len() + k),
            None => None,
        },
    decreases y.len() + 1 - j,
{
    if j < y.len() {
        assert((x + y)[x.len() + j] == y[j]);
        if y[j] == 0x5c {
            lemma_string_shift(x, y, j + 2);
        } else if y[j] != 0x22 {
            lemma_string_shift(x, y, j + 1);
        }
    }
}

proof fn lemma_nested_shift(x: Seq<u8>, y: Seq<u8>, j: int, depth: int)
    requires
        0 <= j,
    ensures
        nested_end(x + y, x.len() + j, depth) == match nested_end(y, j, depth) {
            Some(k) => Some(x.len() + k),
            None => None,
        },
    decreases y.len() - j,
{
    if j < y.len() {
        assert((x + y)[x.len() + j] == y[j]);
        if y[j] == 0x22 {
            lemma_string_shift(x, y, j + 1);
            lemma_string_end_bounds(y, j + 1);
            if let Some(k) = string_end(y, j + 1) {
                lemma_nested_shift(x, y, k, depth);
            }
        } else if opens(y[j]) {
            lemma_nested_shift(x, y, j + 1, depth + 1);
        } else if closes(y[j]) {
            if depth != 1 {
                lemma_nested_shift(x, y, j + 1, depth - 1);
            }
        } else {
            lemma_nested_shift(x, y, j + 1, depth);
        }
    }
}

// ---------------------------------------------------------------------------
// Passing over members

/// With `more` brackets open around it, a nested value is passed over.
proof fn lemma_nested_inside(b: Seq<u8>, j: int, depth: int, more: int)
    requires
        depth >= 1,
        more >= 1,
        nested_end(b, j, depth) is Some,
    ensures
        nested_end(b, j, depth + more) == nested_end(b, nested_end(b, j, depth)->0, more),
    decreases b.len() - j,
{
    if b[j] == 0x22 {
        lemma_string_end_bounds(b, j + 1);
        lemma_nested_inside(b, string_end(b, j + 1)->0, depth, more);
    } else if opens(b[j]) {
        lemma_nested_inside(b, j + 1, depth + 1, more);
    } else if closes(b[j]) {
        if depth != 1 {
            lemma_nested_inside(b, j + 1, depth - 1, more);
        }
    } else {
        lemma_nested_inside(b, j + 1, depth, more);
    }
}

proof fn lemma_pass_ws(b: Seq<u8>, i: int)
    requires
        0 <= i,
        ws_end(b, i) < b.len(),
    ensures
        nested_end(b, i, 1) == nested_end(b, ws_end(b, i), 1),
    decreases b.len() - i,
{
    lemma_ws_end_bounds(b, i);
    if i < b.len() && is_ws(b[i]) {
        lemma_pass_ws(b, i + 1);
    }
}

proof fn lemma_pass_scalar(b: Seq<u8>, j: int)
    requires
        0 <= j <= b.len(),
        bare(b, j, scalar_end(b, j)),
    ensures
        nested_end(b, j, 1) == nested_end(b, scalar_end(b, j), 1),
    decreases b.len() - j,
{
    lemma_scalar_end_bounds(b, j);
    if j < b.len() && !delimits(b[j]) {
        lemma_scalar_end_bounds(b, j + 1);
        assert(b[j] != 0x22 && !opens(b[j]));
        lemma_pass_scalar(b, j + 1);
    }
}

/// From the start of a member to the start of its value.
proof fn lemma_pass_head(b: Seq<u8>, i: int)
    requires
        0 <= i,
        field_at(b, i) is Some,
    ensures
        nested_end(b, i, 1) == nested_end(b, (field_at(b, i)->0).start, 1),
{
    lemma_field_at_bounds(b, i);
    let q = ws_end(b, i);
    lemma_ws_end_bounds(b, i);
    lemma_pass_ws(b, i);
    lemma_string_end_bounds(b, q + 1);
    let e = string_end(b, q + 1)->0;
    lemma_ws_end_bounds(b, e);
    lemma_pass_ws(b, e);
    let colon = ws_end(b, e);
    lemma_ws_end_bounds(b, colon + 1);
    lemma_pass_ws(b, colon + 1);
}

/// From the first of the members to the value of the member `key`.
proof fn lemma_pass_members(b: Seq<u8>, key: Seq<char>, i: int)
    requires
        0 <= i,
        field_from(b, key, i) is Some,
        plain_scalars(b, key, i),
    ensures
        nested_end(b, i, 1) == nested_end(b, (field_from(b, key, i)->0).0, 1),
    decreases b.len() - i,
{
    lemma_field_at_bounds(b, i);
    lemma_pass_head(b, i);
    let f = field_at(b, i)->0;
    if f.name != key {
        let sep = ws_end(b, f.end);
        lemma_ws_end_bounds(b, f.end);
        lemma_value_is_field_end(b, i);
        if b[f.start] == 0x22 {
        } else if opens(b[f.start]) {
            assert(nested_end(b, f.start + 1, 1) == Some(f.end));
            lemma_nested_inside(b, f.start + 1, 1, 1);
        } else {
            lemma_pass_scalar(b, f.start);
        }
        lemma_pass_ws(b, f.end);
        lemma_pass_members(b, key, sep + 1);
    }
}

// ---------------------------------------------------------------------------
// Replacing a literal

/// `d` with what stands from `s` to `e` replaced.
pub open spec fn spliced(d: Seq<u8>, s: int, e: int, lit: Seq<u8>) -> Seq<u8> {
    d.take(s) + lit + d.skip(e)
}

/// Inside one object: the new literal stands where the old one stood.
proof fn lemma_splice_object(d: Seq<u8>, key: Seq<char>, lit: Seq<u8>)
    requires
        field_span(d, key) is Some,
        d[(field_span(d, key)->0).0] == 0x22,
        is_literal(lit),
    ensures
        ({
            let (s, e) = field_span(d, key)->0;
            let n = spliced(d, s, e, lit);
            &&& field_span(n, key) == Some((s, s + lit.len()))
            &&& plain_scalars(d, key, ws_end(d, 0) + 1) ==> plain_scalars(
                n,
                key,
                ws_end(n, 0) + 1,
            )
            &&& ws_end(n, 0) == ws_end(d, 0)
            &&& string_end(d, s + 1) == Some(e)
            &&& string_end(n, s + 1) == Some(s + lit.len())
        }),
{
    let (s, e) = field_span(d, key)->0;
    let n = spliced(d, s, e, lit);
    let open = ws_end(d, 0);
    lemma_ws_end_bounds(d, 0);
    lemma_field_from_bounds(d, key, open + 1);
    assert(d.take(s).len() == s);
    assert forall|i: int| 0 <= i < s + 1 implies #[trigger] d[i] == n[i] by {
        if i == s {
            assert(n[s] == lit[0]);
        }
    }
    assert(agree(d, n, s + 1));
    lemma_string_shift(d.take(s), lit + d.skip(e), 1);
    assert(d.take(s) + (lit + d.skip(e)) =~= n);
    assert(agree(lit, lit + d.skip(e), lit.len() as int));
    lemma_string_local(lit, lit + d.skip(e), lit.len() as int, 1);
    assert(value_end(n, s) == Some(s + lit.len()));
    lemma_ws_local(d, n, s + 1, 0);
    lemma_field_from_local(d, n, key, s + 1, open + 1);
    lemma_value_of_field(d, key, open + 1);
}

proof fn lemma_value_of_field(b: Seq<u8>, key: Seq<char>, i: int)
    requires
        field_from(b, key, i) is Some,
    ensures
        value_end(b, (field_from(b, key, i)->0).0) == Some((field_from(b, key, i)->0).1),
    decreases b.len() - i,
{
    lemma_field_at_bounds(b, i);
    let f = field_at(b, i)->0;
    lemma_value_is_field_end(b, i);
    if f.name != key {
        lemma_ws_end_bounds(b, f.end);
        lemma_value_of_field(b, key, ws_end(b, f.end) + 1);
    }
}

/// The nested scan reads an object from end to end, with the new literal as with the
/// old one.
proof fn lemma_splice_ends(d: Seq<u8>, key: Seq<char>, lit: Seq<u8>)
    requires
        d.len() > 0,
        d[0] == 0x7b,
        nested_end(d, 0, 0) == Some(d.len() as int),
        field_span(d, key) is Some,
        d[(field_span(d, key)->0).0] == 0x22,
        plain_scalars(d, key, 1),
        is_literal(lit),
    ensures
        ({
            let (s, e) = field_span(d, key)->0;
            let n = spliced(d, s, e, lit);
            &&& 0 < s < e <= d.len()
            &&& n[0] == 0x7b
            &&& nested_end(n, 0, 0) == Some(n.len() as int)
            &&& field_span(n, key) == Some((s, s + lit.len()))
        }),
{
    let (s, e) = field_span(d, key)->0;
    let n = spliced(d, s, e, lit);
    assert(ws_end(d, 0) == 0);
    lemma_field_from_bounds(d, key, 1);
    lemma_splice_object(d, key, lit);
    lemma_pass_members(d, key, 1);
    assert(nested_end(d, 0, 0) == nested_end(d, 1, 1));
    assert(nested_end(d, s, 1) == nested_end(d, e, 1));
    let front = d.take(s) + lit;
    let rest = d.skip(e);
    assert(d =~= d.take(e) + rest);
    lemma_nested_shift(d.take(e), rest, 0, 1);
    assert(n =~= front + rest);
    lemma_nested_shift(front, rest, 0, 1);
    assert(n[0] == d[0]);
    assert(n[s] == lit[0]);
    lemma_pass_members(n, key, 1);
    assert(nested_end(n, s, 1) == nested_end(n, s + lit.len(), 1));
    assert(nested_end(n, 0, 0) == nested_end(n, 1, 1));
}

/// The object under a key, with its last byte, is what the nested scan reads.
proof fn lemma_object_ends(raw: Seq<u8>, key: Seq<char>)
    requires
        field_span(raw, key) is Some,
        raw[(field_span(raw, key)->0).0] == 0x7b,
    ensures
        ({
            let (ds, de) = field_span(raw, key)->0;
            &&& 0 < ds < de <= raw.len()
            &&& nested_end(raw.subrange(ds, de), 0, 0) == Some(de - ds)
        }),
{
    let (ds, de) = field_span(raw, key)->0;
    let open = ws_end(raw, 0);
    lemma_ws_end_bounds(raw, 0);
    lemma_field_from_bounds(raw, key, open + 1);
    lemma_value_of_field(raw, key, open + 1);
    let d = raw.subrange(ds, de);
    let x = raw.take(ds);
    let tail = raw.skip(de);
    assert(raw =~= x + (d + tail));
    lemma_nested_shift(x, d + tail, 0, 0);
    assert(agree(d + tail, d, d.len() as int));
    lemma_nested_local(d + tail, d, d.len() as int, 0, 0);
}

/// Another object in the place of one under a key is found there.
proof fn lemma_replace_object(raw: Seq<u8>, key: Seq<char>, nd: Seq<u8>)
    requires
        field_span(raw, key) is Some,
        raw[(field_span(raw, key)->0).0] == 0x7b,
        nd.len() > 0,
        nd[0] == 0x7b,
        nested_end(nd, 0, 0) == Some(nd.len() as int),
    ensures
        ({
            let (ds, de) = field_span(raw, key)->0;
            &&& field_span(spliced(raw, ds, de, nd), key) == Some((ds, ds + nd.len()))
            &&& spliced(raw, ds, de, nd).subrange(ds, ds + nd.len()) == nd
        }),
{
    let (ds, de) = field_span(raw, key)->0;
    let n = spliced(raw, ds, de, nd);
    let open = ws_end(raw, 0);
    lemma_ws_end_bounds(raw, 0);
    lemma_field_from_bounds(raw, key, open + 1);
    let x = raw.take(ds);
    let tail = raw.skip(de);
    assert(n =~= x + (nd + tail));
    assert(agree(nd, nd + tail, nd.len() as int));
    lemma_nested_local(nd, nd + tail, nd.len() as int, 0, 0);
    lemma_nested_shift(x, nd + tail, 0, 0);
    assert(n[ds] == nd[0]);
    assert(value_end(n, ds) == Some(ds + nd.len()));
    assert forall|i: int| 0 <= i < ds + 1 implies #[trigger] raw[i] == n[i] by {}
    assert(agree(raw, n, ds + 1));
    lemma_ws_local(raw, n, ds + 1, 0);
    lemma_field_from_local(raw, n, key, ds + 1, open + 1);
    assert(n.subrange(ds, ds + nd.len()) =~= nd);
}

/// A string literal under `inner`, in the object under `outer`, is replaced by another
/// one: the object is then found where it was, and the new literal in it where the old
/// one was. No number or word before it may hold a quote or an opening bracket; in a
/// JSON document none does.
#[verifier::rlimit(30)]
pub proof fn replaced_literal_is_found(
    raw: Seq<u8>,
    outer: Seq<char>,
    inner: Seq<char>,
    lit: Seq<u8>,
)
    requires
        field_span(raw, outer) is Some,
        ({
            let (ds, de) = field_span(raw, outer)->0;
            let d = raw.subrange(ds, de);
            &&& field_span(d, inner) is Some
            &&& d[(field_span(d, inner)->0).0] == 0x22
            &&& plain_scalars(d, inner, 1)
        }),
        is_literal(lit),
    ensures
        ({
            let (ds, de) = field_span(raw, outer)->0;
            let d = raw.subrange(ds, de);
            let (s, e) = field_span(d, inner)->0;
            let n = spliced(raw, ds + s, ds + e, lit);
            let nd = spliced(d, s, e, lit);
            &&& field_span(n, outer) == Some((ds, ds + nd.len()))
            &&& n.subrange(ds, ds + nd.len()) == nd
            &&& field_span(nd, inner) == Some((s, s + lit.len()))
            &&& nd.subrange(s, s + lit.len()) == lit
        }),
{
    let (ds, de) = field_span(raw, outer)->0;
    let d = raw.subrange(ds, de);
    let (s, e) = field_span(d, inner)->0;
    let nd = spliced(d, s, e, lit);
    lemma_opens_at_start(raw, outer, inner);
    lemma_object_ends(raw, outer);
    lemma_splice_ends(d, inner, lit);
    lemma_replace_object(raw, outer, nd);
    lemma_splice_inside(raw, ds, de, s, e, lit);
}

/// To replace something in a part is to replace it in the whole.
proof fn lemma_splice_inside(raw: Seq<u8>, ds: int, de: int, s: int, e: int, lit: Seq<u8>)
    requires
        0 <= ds <= de <= raw.len(),
        0 <= s <= e <= de - ds,
    ensures
        ({
            let nd = spliced(raw.subrange(ds, de), s, e, lit);
            &&& spliced(raw, ds + s, ds + e, lit) == spliced(raw, ds, de, nd)
            &&& nd.subrange(s, s + lit.len()) == lit
        }),
{
    let nd = spliced(raw.subrange(ds, de), s, e, lit);
    assert(spliced(raw, ds + s, ds + e, lit) =~= spliced(raw, ds, de, nd));
    assert(nd.subrange(s, s + lit.len()) =~= lit);
}

/// An object under a key opens with its first byte.
proof fn lemma_opens_at_start(raw: Seq<u8>, outer: Seq<char>, inner: Seq<char>)
    requires
        field_span(raw, outer) is Some,
        ({
            let (ds, de) = field_span(raw, outer)->0;
            field_span(raw.subrange(ds, de), inner) is Some
        }),
    ensures
        raw[(field_span(raw, outer)->0).0] == 0x7b,
        ({
            let (ds, de) = field_span(raw, outer)->0;
            de > ds && raw.subrange(ds, de)[0] == 0x7b
        }),
{
    let (ds, de) = field_span(raw, outer)->0;
    let d = raw.subrange(ds, de);
    let open = ws_end(raw, 0);
    lemma_ws_end_bounds(raw, 0);
    lemma_field_from_bounds(raw, outer, open + 1);
    lemma_value_start_is_no_ws(raw, outer, open + 1);
    assert(d[0] == raw[ds]);
    assert(ws_end(d, 0) == 0);
}

/// The value of a field starts behind white space, not with it.
pub proof fn lemma_field_starts(b: Seq<u8>, key: Seq<char>)
    requires
        field_span(b, key) is Some,
    ensures
        !is_ws(b[(field_span(b, key)->0).0]),
{
    lemma_value_start_is_no_ws(b, key, ws_end(b, 0) + 1);
}

/// A value starts behind white space, not with it.
proof fn lemma_value_start_is_no_ws(b: Seq<u8>, key: Seq<char>, i: int)
    requires
        field_from(b, key, i) is Some,
    ensures
        !is_ws(b[(field_from(b, key, i)->0).0]),
{
    lemma_value_of_field(b, key, i);
    lemma_value_end_bounds(b, (field_from(b, key, i)->0).0);
}

} // verus!
