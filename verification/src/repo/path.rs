//! Slash-separated paths.

use vstd::prelude::*;

use crate::text::{
    contains_char, split, split_char, texts, trim_end, trim_end_char, trim_start, trim_start_char,
};

verus! {

/// The last element of a path. Empty input yields `"."`, an all-slash input `"/"`.
pub open spec fn base_name(p: Seq<char>) -> Seq<char> {
    let t = trim_end(p, '/');
    if p.len() == 0 {
        seq!['.']
    } else if t.len() == 0 {
        seq!['/']
    } else {
        split(t, '/').last()
    }
}

/// The last element of a path. Empty input yields `"."`, an all-slash input `"/"`.
pub fn path_base(p: &str) -> (r: String)
    ensures
        r@ == base_name(p@),
{
    let mut out = String::new();
    if p.is_empty() {
        out.push('.');
        assert(out@ =~= seq!['.']);
        return out;
    }
    let t = trim_end_char(p, '/');
    if t.as_str().is_empty() {
        out.push('/');
        assert(out@ =~= seq!['/']);
        return out;
    }
    let parts = split_char(t.as_str(), '/');
    let last = parts[parts.len() - 1].clone();
    assert(texts(parts@).last() == last@);
    last
}

/// The part of the last element from its last dot on, or nothing.
pub open spec fn ext_of(p: Seq<char>) -> Seq<char> {
    let b = base_name(p);
    if b.contains('.') {
        seq!['.'] + split(b, '.').last()
    } else {
        Seq::empty()
    }
}

/// The part of the last element from its last dot on, or nothing.
pub fn path_ext(p: &str) -> (r: String)
    ensures
        r@ == ext_of(p@),
{
    let base = path_base(p);
    if !contains_char(base.as_str(), '.') {
        return String::new();
    }
    let parts = split_char(base.as_str(), '.');
    let mut out = String::new();
    out.push('.');
    out.append(parts[parts.len() - 1].as_str());
    assert(texts(parts@).last() == parts@[parts@.len() - 1]@);
    assert(out@ =~= ext_of(p@));
    out
}

/// An upstream base URL and a path, with exactly one slash between them.
pub open spec fn joined(base: Seq<char>, path: Seq<char>) -> Seq<char> {
    trim_end(base, '/') + "/"@ + trim_start(path, '/')
}

/// Joins an upstream base URL and a path with exactly one slash.
pub fn join_upstream(base: &str, path: &str) -> (r: String)
    ensures
        r@ == joined(base@, path@),
{
    let mut out = trim_end_char(base, '/');
    out.append("/");
    out.append(trim_start_char(path, '/').as_str());
    out
}

} // verus!
