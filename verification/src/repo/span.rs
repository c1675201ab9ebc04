//! Finds the byte range of a field's value inside a JSON object, without
//! decoding the object.

use vstd::prelude::*;
use vstd::slice::slice_subrange;

use crate::bridge::{json_string, parse_string};
use crate::text::same;

verus! {

/// JSON white space: space, tab, line feed, carriage return.
pub open spec fn is_ws(c: u8) -> bool {
    c == 0x20 || c == 0x09 || c == 0x0a || c == 0x0d
}

/// The first position from `i` on that holds no white space.
pub open spec fn ws_end(b: Seq<u8>, i: int) -> int
    decreases b.len() - i,
{
    if 0 <= i < b.len() && is_ws(b[i]) {
        ws_end(b, i + 1)
    } else {
        i
    }
}

/// The position behind the first unescaped quote from `j` on.
pub open spec fn string_end(b: Seq<u8>, j: int) -> Option<int>
    decreases b.len() + 1 - j,
{
    if j < 0 || j >= b.len() {
        None
    } else if b[j] == 0x5c {
        string_end(b, j + 2)
    } else if b[j] == 0x22 {
        Some(j + 1)
    } else {
        string_end(b, j + 1)
    }
}

pub proof fn lemma_string_end_bounds(b: Seq<u8>, j: int)
    ensures
        string_end(b, j) matches Some(k) ==> j < k <= b.len(),
    decreases b.len() + 1 - j,
{
    if 0 <= j < b.len() {
        if b[j] == 0x5c {
            lemma_string_end_bounds(b, j + 2);
        } else if b[j] != 0x22 {
            lemma_string_end_bounds(b, j + 1);
        }
    }
}

/// An opening brace or bracket.
pub open spec fn opens(c: u8) -> bool {
    c == 0x7b || c == 0x5b
}

/// A closing brace or bracket.
pub open spec fn closes(c: u8) -> bool {
    c == 0x7d || c == 0x5d
}

/// The position behind the bracket that closes the last of `depth` open ones,
/// reading from `j` on and passing over strings.
pub open spec fn nested_end(b: Seq<u8>, j: int, depth: int) -> Option<int>
    decreases b.len() - j,
{
    if j < 0 || j >= b.len() {
        None
    } else if b[j] == 0x22 {
        proof {
            lemma_string_end_bounds(b, j + 1);
        }
        match string_end(b, j + 1) {
            Some(k) => nested_end(b, k, depth),
            None => None,
        }
    } else if opens(b[j]) {
        nested_end(b, j + 1, depth + 1)
    } else if closes(b[j]) {
        if depth == 1 {
            Some(j + 1)
        } else {
            nested_end(b, j + 1, depth - 1)
        }
    } else {
        nested_end(b, j + 1, depth)
    }
}

pub proof fn lemma_nested_end_bounds(b: Seq<u8>, j: int, depth: int)
    ensures
        nested_end(b, j, depth) matches Some(k) ==> j < k <= b.len(),
    decreases b.len() - j,
{
    if 0 <= j < b.len() {
        if b[j] == 0x22 {
            lemma_string_end_bounds(b, j + 1);
            if let Some(k) = string_end(b, j + 1) {
                lemma_nested_end_bounds(b, k, depth);
            }
        } else if opens(b[j]) {
            lemma_nested_end_bounds(b, j + 1, depth + 1);
        } else if closes(b[j]) {
            lemma_nested_end_bounds(b, j + 1, depth - 1);
        } else {
            lemma_nested_end_bounds(b, j + 1, depth);
        }
    }
}

/// Ends a number or a word.
pub open spec fn delimits(c: u8) -> bool {
    c == 0x2c || c == 0x7d || c == 0x5d || is_ws(c)
}

/// The first position from `j` on that ends a number or a word.
pub open spec fn scalar_end(b: Seq<u8>, j: int) -> int
    decreases b.len() - j,
{
    if 0 <= j < b.len() && !delimits(b[j]) {
        scalar_end(b, j + 1)
    } else {
        j
    }
}

pub proof fn lemma_scalar_end_bounds(b: Seq<u8>, j: int)
    requires
        0 <= j <= b.len(),
    ensures
        j <= scalar_end(b, j) <= b.len(),
    decreases b.len() - j,
{
    if j < b.len() && !delimits(b[j]) {
        lemma_scalar_end_bounds(b, j + 1);
    }
}

pub proof fn lemma_ws_end_bounds(b: Seq<u8>, i: int)
    requires
        0 <= i,
    ensures
        i <= ws_end(b, i),
        i <= b.len() ==> ws_end(b, i) <= b.len(),
    decreases b.len() - i,
{
    if i < b.len() && is_ws(b[i]) {
        lemma_ws_end_bounds(b, i + 1);
    }
}

/// The position behind the JSON value that starts at `i`.
pub open spec fn value_end(b: Seq<u8>, i: int) -> Option<int> {
    if i < 0 || i >= b.len() {
        None
    } else if b[i] == 0x22 {
        string_end(b, i + 1)
    } else if opens(b[i]) {
        nested_end(b, i, 0)
    } else if delimits(b[i]) {
        None
    } else {
        Some(scalar_end(b, i))
    }
}

pub proof fn lemma_value_end_bounds(b: Seq<u8>, i: int)
    ensures
        value_end(b, i) matches Some(k) ==> 0 <= i < k <= b.len(),
{
    lemma_string_end_bounds(b, i + 1);
    lemma_nested_end_bounds(b, i, 0);
    if 0 <= i < b.len() {
        lemma_scalar_end_bounds(b, i);
        if !delimits(b[i]) {
            lemma_scalar_end_bounds(b, i + 1);
        }
    }
}

/// One member of an object: its decoded name and where its value stands.
pub struct Field {
    pub name: Seq<char>,
    pub start: int,
    pub end: int,
}

/// The member that starts at `i`, white space before it aside.
pub open spec fn field_at(b: Seq<u8>, i: int) -> Option<Field> {
    let q = ws_end(b, i);
    if q < 0 || q >= b.len() || b[q] != 0x22 {
        None
    } else {
        match string_end(b, q + 1) {
            None => None,
            Some(e) => match json_string(b.subrange(q, e)) {
                None => None,
                Some(name) => {
                    let colon = ws_end(b, e);
                    if colon >= b.len() || b[colon] != 0x3a {
                        None
                    } else {
                        let start = ws_end(b, colon + 1);
                        match value_end(b, start) {
                            None => None,
                            Some(end) => Some(Field { name, start, end }),
                        }
                    }
                },
            },
        }
    }
}

pub proof fn lemma_field_at_bounds(b: Seq<u8>, i: int)
    requires
        0 <= i,
    ensures
        field_at(b, i) matches Some(f) ==> i < f.start < f.end <= b.len(),
{
    let q = ws_end(b, i);
    lemma_ws_end_bounds(b, i);
    lemma_string_end_bounds(b, q + 1);
    if let Some(e) = string_end(b, q + 1) {
        lemma_ws_end_bounds(b, e);
        let colon = ws_end(b, e);
        lemma_ws_end_bounds(b, colon + 1);
        lemma_value_end_bounds(b, ws_end(b, colon + 1));
    }
}

/// Where the value of the first member named `key` stands, among the members from
/// `i` on.
pub open spec fn field_from(b: Seq<u8>, key: Seq<char>, i: int) -> Option<(int, int)>
    decreases b.len() - i,
{
    if i < 0 {
        None
    } else {
        match field_at(b, i) {
            None => None,
            Some(f) => if f.name == key {
                Some((f.start, f.end))
            } else {
                let sep = ws_end(b, f.end);
                if sep < b.len() && b[sep] == 0x2c {
                    proof {
                        lemma_field_at_bounds(b, i);
                        lemma_ws_end_bounds(b, f.end);
                    }
                    field_from(b, key, sep + 1)
                } else {
                    None
                }
            },
        }
    }
}

/// Where the value of the member `key` of the object `b` stands.
pub open spec fn field_span(b: Seq<u8>, key: Seq<char>) -> Option<(int, int)> {
    let open = ws_end(b, 0);
    if open >= b.len() || b[open] != 0x7b {
        None
    } else {
        field_from(b, key, open + 1)
    }
}

pub proof fn lemma_field_from_bounds(b: Seq<u8>, key: Seq<char>, i: int)
    ensures
        field_from(b, key, i) matches Some((s, e)) ==> i < s < e <= b.len(),
    decreases b.len() - i,
{
    if i >= 0 {
        lemma_field_at_bounds(b, i);
        if let Some(f) = field_at(b, i) {
            if f.name != key {
                lemma_ws_end_bounds(b, f.end);
                let sep = ws_end(b, f.end);
                if sep < b.len() {
                    lemma_field_from_bounds(b, key, sep + 1);
                }
            }
        }
    }
}

/// A field's value is a non-empty range inside the object, behind its opening
/// brace.
pub proof fn field_span_is_inside(b: Seq<u8>, key: Seq<char>)
    ensures
        field_span(b, key) matches Some((s, e)) ==> 0 < s < e <= b.len(),
{
    lemma_ws_end_bounds(b, 0);
    lemma_field_from_bounds(b, key, ws_end(b, 0) + 1);
}

fn skip_ws(b: &[u8], i: usize) -> (r: usize)
    ensures
        r == ws_end(b@, i as int),
        i <= r,
        i <= b@.len() ==> r <= b@.len(),
{
    let mut j: usize = i;
    while j < b.len() && (b[j] == 0x20 || b[j] == 0x09 || b[j] == 0x0a || b[j] == 0x0d)
        invariant
            i <= j,
            i <= b@.len() ==> j <= b@.len(),
            ws_end(b@, i as int) == ws_end(b@, j as int),
        decreases b.len() - j,
    {
        j += 1;
    }
    j
}

/// The index one past the closing quote of the string starting at `i`.
fn skip_string(b: &[u8], i: usize) -> (r: Option<usize>)
    requires
        i < b@.len(),
        b@[i as int] == 0x22,
    ensures
        match r {
            Some(k) => string_end(b@, i + 1) == Some(k as int) && i < k <= b@.len(),
            None => string_end(b@, i + 1) is None,
        },
{
    let n: usize = b.len();
    let mut j: usize = i + 1;
    while j < n
        invariant
            i < j,
            n == b@.len(),
            string_end(b@, i + 1) == string_end(b@, j as int),
        decreases n - j,
    {
        let c = b[j];
        if c == 0x5c {
            if n - j <= 2 {
                assert(string_end(b@, j + 2) is None);
                return None;
            }
            j += 2;
        } else if c == 0x22 {
            return Some(j + 1);
        } else {
            j += 1;
        }
    }
    None
}

/// The index one past the JSON value starting at `i`.
fn skip_value(b: &[u8], i: usize) -> (r: Option<usize>)
    ensures
        match r {
            Some(k) => value_end(b@, i as int) == Some(k as int) && i < k <= b@.len(),
            None => value_end(b@, i as int) is None,
        },
{
    if i >= b.len() {
        return None;
    }
    let first = b[i];
    if first == 0x22 {
        return skip_string(b, i);
    }
    if first == 0x7b || first == 0x5b {
        let mut depth: usize = 0;
        let mut j: usize = i;
        while j < b.len()
            invariant
                i <= j,
                depth <= j - i,
                j > i ==> depth > 0,
                i < b@.len(),
                opens(b@[i as int]),
                nested_end(b@, i as int, 0) == nested_end(b@, j as int, depth as int),
            decreases b.len() - j,
        {
            let c = b[j];
            if c == 0x22 {
                match skip_string(b, j) {
                    Some(k) => {
                        j = k;
                    },
                    None => {
                        return None;
                    },
                }
            } else if c == 0x7b || c == 0x5b {
                depth += 1;
                j += 1;
            } else if c == 0x7d || c == 0x5d {
                if depth == 1 {
                    return Some(j + 1);
                }
                depth -= 1;
                j += 1;
            } else {
                j += 1;
            }
        }
        return None;
    }
    let mut j: usize = i;
    while j < b.len() && !(b[j] == 0x2c || b[j] == 0x7d || b[j] == 0x5d || b[j] == 0x20 || b[j]
        == 0x09 || b[j] == 0x0a || b[j] == 0x0d)
        invariant
            i <= j <= b@.len(),
            scalar_end(b@, i as int) == scalar_end(b@, j as int),
        decreases b.len() - j,
    {
        j += 1;
    }
    if j == i {
        None
    } else {
        proof {
            if delimits(b@[i as int]) {
                assert(scalar_end(b@, i as int) == i);
                lemma_scalar_end_bounds(b@, j as int);
            }
        }
        Some(j)
    }
}

/// Locates the value of the first member named `key` among the members of `obj` from
/// `from` on.
fn field_after(obj: &[u8], key: &str, from: usize) -> (r: Option<(usize, usize)>)
    requires
        from <= obj@.len(),
    ensures
        match r {
            Some((s, e)) => field_from(obj@, key@, from as int) == Some((s as int, e as int)) && s < e
                <= obj@.len(),
            None => field_from(obj@, key@, from as int) is None,
        },
{
    let mut i: usize = from;
    loop
        invariant
            i <= obj@.len(),
            field_from(obj@, key@, from as int) == field_from(obj@, key@, i as int),
        decreases obj.len() - i,
    {
        let q = skip_ws(obj, i);
        if q >= obj.len() || obj[q] != 0x22 {
            return None;
        }
        let name_end = match skip_string(obj, q) {
            Some(e) => e,
            None => {
                return None;
            },
        };
        let name = match parse_string(slice_subrange(obj, q, name_end)) {
            Some(n) => n,
            None => {
                return None;
            },
        };
        let colon = skip_ws(obj, name_end);
        if colon >= obj.len() || obj[colon] != 0x3a {
            return None;
        }
        let start = skip_ws(obj, colon + 1);
        let end = match skip_value(obj, start) {
            Some(e) => e,
            None => {
                return None;
            },
        };
        let ghost field = Field { name: name@, start: start as int, end: end as int };
        assert(field_at(obj@, i as int) == Some(field));
        if same(name.as_str(), key) {
            return Some((start, end));
        }
        let sep = skip_ws(obj, end);
        if sep >= obj.len() || obj[sep] != 0x2c {
            return None;
        }
        i = sep + 1;
    }
}

/// Locates the value of a top-level key inside the JSON object `obj` and returns
/// the byte range that value occupies. The object is walked structurally rather
/// than searched textually, so the same key appearing inside a nested value
/// cannot be mistaken for the field itself.
pub fn json_field_span(obj: &[u8], key: &str) -> (r: Option<(usize, usize)>)
    ensures
        match r {
            Some((s, e)) => field_span(obj@, key@) == Some((s as int, e as int)) && s < e
                <= obj@.len(),
            None => field_span(obj@, key@) is None,
        },
{
    let open = skip_ws(obj, 0);
    if open >= obj.len() || obj[open] != 0x7b {
        return None;
    }
    field_after(obj, key, open + 1)
}

/// Two members of the object `b` are named `key`.
pub open spec fn named_twice(b: Seq<u8>, key: Seq<char>) -> bool {
    match field_span(b, key) {
        Some((_, end)) => {
            let sep = ws_end(b, end);
            sep < b.len() && b[sep] == 0x2c && field_from(b, key, sep + 1) is Some
        },
        None => false,
    }
}

/// Whether two members of the object `obj` are named `key`.
pub fn is_named_twice(obj: &[u8], key: &str) -> (r: bool)
    ensures
        r == named_twice(obj@, key@),
{
    match json_field_span(obj, key) {
        Some((_start, end)) => {
            let sep = skip_ws(obj, end);
            sep < obj.len() && obj[sep] == 0x2c && field_after(obj, key, sep + 1).is_some()
        },
        None => false,
    }
}

} // verus!
