//! What holds of finding anchors in a page and members in a document: where each begins and
//! ends.

use vstd::prelude::*;

use crate::bridge::json_string;
use crate::repo::anchors::{bracket, byte_place, closing, cuts, is_word_byte, opening, stands_at};
use crate::repo::span::{
    field_from, field_span, is_ws, nested_end, scalar_end, string_end, value_end, ws_end,
};

verus! {

// ---------------------------------------------------------------------------
// Anchors

/// `<a` stands at `i`.
pub open spec fn opens_tag(b: Seq<u8>, i: int) -> bool {
    0 <= i && i + 1 < b.len() && b[i] == 0x3c && b[i + 1] == 0x61
}

/// `</a>` stands at `i`.
pub open spec fn ends_tag(b: Seq<u8>, i: int) -> bool {
    0 <= i && i + 3 < b.len() && b[i] == 0x3c && b[i + 1] == 0x2f && b[i + 2] == 0x61 && b[i + 3]
        == 0x3e
}

proof fn lemma_tags(b: Seq<u8>, i: int)
    ensures
        stands_at(b, opening(), i) <==> opens_tag(b, i),
        stands_at(b, bracket(), i) <==> 0 <= i < b.len() && b[i] == 0x3e,
        stands_at(b, closing(), i) <==> ends_tag(b, i),
{
    if 0 <= i && i + 2 <= b.len() {
        let t = b.subrange(i, i + 2);
        assert(t[0] == b[i] && t[1] == b[i + 1]);
        if opens_tag(b, i) {
            assert(t =~= opening());
        }
    }
    if 0 <= i && i + 1 <= b.len() {
        let t = b.subrange(i, i + 1);
        assert(t[0] == b[i]);
        if b[i] == 0x3e {
            assert(t =~= bracket());
        }
    }
    if 0 <= i && i + 4 <= b.len() {
        let t = b.subrange(i, i + 4);
        assert(t[0] == b[i] && t[1] == b[i + 1] && t[2] == b[i + 2] && t[3] == b[i + 3]);
        if ends_tag(b, i) {
            assert(t =~= closing());
        }
    }
}

proof fn lemma_place_is(b: Seq<u8>, p: Seq<u8>, i: int, n: int)
    requires
        0 <= i <= n,
        stands_at(b, p, n),
        forall|j: int| i <= j < n ==> !stands_at(b, p, j),
    ensures
        byte_place(b, p, i) == Some(n),
    decreases n - i,
{
    if i < n {
        lemma_place_is(b, p, i + 1, n);
    }
}

proof fn lemma_no_place(b: Seq<u8>, p: Seq<u8>, i: int)
    requires
        forall|j: int| i <= j ==> !stands_at(b, p, j),
    ensures
        byte_place(b, p, i) is None,
    decreases b.len() + 1 - i,
{
    if 0 <= i && i + p.len() <= b.len() {
        lemma_no_place(b, p, i + 1);
    }
}

/// The next anchor is cut from its `<a` to the first `</a>` behind its first `>`, and the
/// search goes on behind it.
pub proof fn anchors_reach_from_tag_to_tag(
    low: Seq<u8>,
    page: Seq<u8>,
    i: int,
    start: int,
    open: int,
    close: int,
)
    requires
        0 <= i <= start < open < close,
        opens_tag(low, start),
        forall|j: int| i <= j < start ==> !opens_tag(low, j),
        start + 2 < page.len() ==> !is_word_byte(page[start + 2]),
        open < low.len() && low[open] == 0x3e,
        forall|j: int| start <= j < open ==> low[j] != 0x3e,
        ends_tag(low, close),
        forall|j: int| open < j < close ==> !ends_tag(low, j),
    ensures
        cuts(low, page, i) == seq![(start, close + 4)] + cuts(low, page, close + 4),
{
    lemma_tags(low, start);
    lemma_tags(low, open);
    lemma_tags(low, close);
    assert forall|j: int| i <= j < start implies !stands_at(low, opening(), j) by {
        lemma_tags(low, j);
    }
    assert forall|j: int| start <= j < open implies !stands_at(low, bracket(), j) by {
        lemma_tags(low, j);
    }
    assert forall|j: int| open + 1 <= j < close implies !stands_at(low, closing(), j) by {
        lemma_tags(low, j);
    }
    lemma_place_is(low, opening(), i, start);
    lemma_place_is(low, bracket(), start, open);
    lemma_place_is(low, closing(), open + 1, close);
}

/// A longer tag name is no anchor: the search goes on behind it.
pub proof fn longer_names_are_no_anchors(low: Seq<u8>, page: Seq<u8>, i: int, start: int, c: u8)
    requires
        0 <= i <= start,
        opens_tag(low, start),
        forall|j: int| i <= j < start ==> !opens_tag(low, j),
        start + 2 < page.len(),
        page[start + 2] == c,
        0x61 <= c <= 0x7a || 0x41 <= c <= 0x5a || 0x30 <= c <= 0x39 || c == 0x5f,
    ensures
        cuts(low, page, i) == cuts(low, page, start + 2),
{
    lemma_tags(low, start);
    assert forall|j: int| i <= j < start implies !stands_at(low, opening(), j) by {
        lemma_tags(low, j);
    }
    lemma_place_is(low, opening(), i, start);
}

/// A page without `<a` has no anchors.
pub proof fn pages_without_tags_have_no_anchors(low: Seq<u8>, page: Seq<u8>)
    requires
        forall|j: int| 0 <= j < low.len() ==> !opens_tag(low, j),
    ensures
        cuts(low, page, 0).len() == 0,
{
    assert forall|j: int| 0 <= j implies !stands_at(low, opening(), j) by {
        lemma_tags(low, j);
    }
    lemma_no_place(low, opening(), 0);
}

/// A letter, a digit and an underscore make a longer name; white space, a bracket and a
/// slash do not.
pub proof fn names_are_made_of_word_characters(c: u8)
    ensures
        c == 0x20 || c == 0x09 || c == 0x0a || c == 0x0d || c == 0x3e || c == 0x2f
            ==> !is_word_byte(c),
        0x61 <= c <= 0x7a || 0x41 <= c <= 0x5a || 0x30 <= c <= 0x39 || c == 0x5f ==> is_word_byte(
            c,
        ),
{
}

// ---------------------------------------------------------------------------
// Members

/// Blanks, tabs and line ends are passed over, and nothing else is.
pub proof fn white_space_is_passed_over(b: Seq<u8>, i: int)
    requires
        0 <= i < b.len(),
    ensures
        b[i] == 0x20 || b[i] == 0x09 || b[i] == 0x0a || b[i] == 0x0d ==> ws_end(b, i) == ws_end(
            b,
            i + 1,
        ),
        b[i] != 0x20 && b[i] != 0x09 && b[i] != 0x0a && b[i] != 0x0d ==> ws_end(b, i) == i,
{
}

/// A string ends at the first quote that no backslash escapes.
pub proof fn strings_end_at_their_quote(b: Seq<u8>, j: int, k: int)
    requires
        0 <= j <= k < b.len(),
        b[k] == 0x22,
        forall|i: int| j <= i < k ==> #[trigger] b[i] != 0x22 && b[i] != 0x5c,
    ensures
        string_end(b, j) == Some(k + 1),
    decreases k - j,
{
    if j < k {
        strings_end_at_their_quote(b, j + 1, k);
    }
}

/// What a backslash escapes ends no string.
pub proof fn escapes_are_passed_over(b: Seq<u8>, j: int)
    requires
        0 <= j < b.len(),
        b[j] == 0x5c,
    ensures
        string_end(b, j) == string_end(b, j + 2),
{
}

/// An object or an array ends where its last bracket closes: brackets in between are
/// counted, and strings are passed over whole.
pub proof fn brackets_are_counted(b: Seq<u8>, j: int, depth: int)
    requires
        0 <= j < b.len(),
        depth >= 0,
    ensures
        b[j] == 0x7b || b[j] == 0x5b ==> nested_end(b, j, depth) == nested_end(b, j + 1, depth + 1),
        (b[j] == 0x7d || b[j] == 0x5d) && depth == 1 ==> nested_end(b, j, depth) == Some(j + 1),
        (b[j] == 0x7d || b[j] == 0x5d) && depth > 1 ==> nested_end(b, j, depth) == nested_end(
            b,
            j + 1,
            depth - 1,
        ),
        b[j] == 0x22 && string_end(b, j + 1) is Some ==> nested_end(b, j, depth) == nested_end(
            b,
            string_end(b, j + 1)->0,
            depth,
        ),
        b[j] != 0x22 && b[j] != 0x7b && b[j] != 0x5b && b[j] != 0x7d && b[j] != 0x5d ==> nested_end(
            b,
            j,
            depth,
        ) == nested_end(b, j + 1, depth),
{
}

/// A number or a word ends before a comma, a closing bracket or white space.
pub proof fn scalars_end_at_delimiters(b: Seq<u8>, j: int, k: int)
    requires
        0 <= j <= k <= b.len(),
        forall|i: int|
            j <= i < k ==> #[trigger] b[i] != 0x2c && b[i] != 0x7d && b[i] != 0x5d && b[i] != 0x20
                && b[i] != 0x09 && b[i] != 0x0a && b[i] != 0x0d,
        k < b.len() ==> b[k] == 0x2c || b[k] == 0x7d || b[k] == 0x5d || b[k] == 0x20 || b[k] == 0x09
            || b[k] == 0x0a || b[k] == 0x0d,
    ensures
        scalar_end(b, j) == k,
    decreases k - j,
{
    if j < k {
        scalars_end_at_delimiters(b, j + 1, k);
    }
}

/// A member is its name, a colon and its value: it is found under its name, and the search
/// goes on behind the comma where the name is another.
pub proof fn members_are_found_by_name(
    b: Seq<u8>,
    key: Seq<char>,
    name: Seq<char>,
    i: int,
    e: int,
    start: int,
    end: int,
)
    requires
        0 <= i < b.len(),
        b[i] == 0x22,
        string_end(b, i + 1) == Some(e),
        json_string(b.subrange(i, e)) == Some(name),
        e < b.len(),
        b[e] == 0x3a,
        start == ws_end(b, e + 1),
        value_end(b, start) == Some(end),
    ensures
        name == key ==> field_from(b, key, i) == Some((start, end)),
        name != key && end < b.len() && b[end] == 0x2c ==> field_from(b, key, i) == field_from(
            b,
            key,
            end + 1,
        ),
        name != key && end < b.len() && b[end] == 0x7d ==> field_from(b, key, i) is None,
{
    assert(ws_end(b, i) == i);
    assert(ws_end(b, e) == e);
    crate::repo::span::lemma_value_end_bounds(b, start);
    if end < b.len() && (b[end] == 0x2c || b[end] == 0x7d) {
        assert(ws_end(b, end) == end);
    }
}

/// Only an object has members, and they stand behind its brace.
pub proof fn only_objects_have_members(b: Seq<u8>, key: Seq<char>)
    requires
        b.len() > 0,
    ensures
        b[0] == 0x7b ==> field_span(b, key) == field_from(b, key, 1),
        b[0] == 0x5b || b[0] == 0x22 ==> field_span(b, key) is None,
{
    assert(ws_end(b, 0) == 0 || is_ws(b[0]));
}

/// A value is a string, an object or array, or a number or word, by its first character.
pub proof fn values_end_by_their_kind(b: Seq<u8>, i: int)
    requires
        0 <= i < b.len(),
    ensures
        b[i] == 0x22 ==> value_end(b, i) == string_end(b, i + 1),
        b[i] == 0x7b || b[i] == 0x5b ==> value_end(b, i) == nested_end(b, i + 1, 1),
        b[i] == 0x2c || b[i] == 0x7d || b[i] == 0x5d ==> value_end(b, i) is None,
        0x30 <= b[i] <= 0x39 || 0x61 <= b[i] <= 0x7a || b[i] == 0x2d ==> value_end(b, i) == Some(
            scalar_end(b, i),
        ),
{
}

} // verus!
