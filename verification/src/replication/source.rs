//! The leader side of replication: who may read, and what a listing request asks for.

use vstd::prelude::*;
use vstd::utf8::{encode_utf8, encode_utf8_decode_utf8};

use crate::bridge::{
    bytes_equal, form_pairs, json_literal, json_string_list, pairs, parse_form, parse_string_list,
    quote,
};
use crate::record::{read_record_of_one, record};
use crate::replication::bearer;
use crate::text::{cat, i64_value, join, join_texts, parse_i64, same, texts};

verus! {

/// Caps one blob digest listing response.
pub const DEFAULT_PAGE_SIZE: i64 = 1000;

/// Whether a request with this `Authorization` header may read. An empty configured
/// token disables the endpoints outright rather than allowing everything through.
pub fn authorized(token: &str, header: &str) -> (r: bool)
    ensures
        r == (token@.len() > 0 && header@ == "Bearer "@ + token@),
{
    let want = bearer(token);
    let equal = bytes_equal(header.as_bytes(), want.as_str().as_bytes());
    proof {
        encode_utf8_decode_utf8(header@);
        encode_utf8_decode_utf8(want@);
    }
    !token.is_empty() && equal
}

/// The value of the first pair of that name, else nothing.
pub open spec fn first_value(list: Seq<(Seq<char>, Seq<char>)>, key: Seq<char>) -> Seq<char>
    decreases list.len(),
{
    if list.len() == 0 {
        Seq::empty()
    } else if list[0].0 == key {
        list[0].1
    } else {
        first_value(list.skip(1), key)
    }
}

/// The value of a query parameter; empty where it is not given.
pub fn query_get(raw: Option<&str>, key: &str) -> (r: String)
    ensures
        r@ == (match raw {
            Some(q) => first_value(form_pairs(q@), key@),
            None => Seq::empty(),
        }),
{
    match raw {
        None => String::new(),
        Some(q) => first_match(&parse_form(q), key),
    }
}

/// The value of the first pair of that name, else nothing.
pub fn first_match(list: &Vec<(String, String)>, key: &str) -> (r: String)
    ensures
        r@ == first_value(pairs(list@), key@),
{
    let ghost all = pairs(list@);
    let mut i: usize = 0;
    assert(all.skip(0) =~= all);
    while i < list.len()
        invariant
            i <= list@.len(),
            all == pairs(list@),
            first_value(all, key@) == first_value(all.skip(i as int), key@),
        decreases list.len() - i,
    {
        proof {
            assert(all.skip(i as int)[0] == (list@[i as int].0@, list@[i as int].1@));
            assert(all.skip(i as int).skip(1) =~= all.skip(i + 1));
        }
        if same(list[i].0.as_str(), key) {
            return list[i].1.clone();
        }
        i += 1;
    }
    String::new()
}

/// The number of digests that a listing request asks for; nothing where it asks for
/// something that is no number, for none, or for more than a page holds.
pub fn page_limit(v: &str) -> (r: Option<i64>)
    ensures
        v@.len() == 0 ==> r == Some(DEFAULT_PAGE_SIZE),
        v@.len() > 0 ==> match i64_value(v@) {
            Some(n) => if 0 < n <= DEFAULT_PAGE_SIZE {
                r matches Some(m) && m == n
            } else {
                r is None
            },
            None => r is None,
        },
{
    if v.is_empty() {
        return Some(DEFAULT_PAGE_SIZE);
    }
    match parse_i64(v) {
        Some(n) => if n > 0 && n <= DEFAULT_PAGE_SIZE {
            Some(n)
        } else {
            None
        },
        None => None,
    }
}

/// What a listing request asks for: the digest to go on behind, and how many. Nothing
/// where the limit is not one.
pub fn list_request(raw: Option<&str>) -> (r: Option<(String, i64)>)
    ensures
        ({
            let list = match raw {
                Some(q) => form_pairs(q@),
                None => Seq::empty(),
            };
            let limit = first_value(list, "limit"@);
            match r {
                Some((after, n)) => after@ == first_value(list, "after"@) && 0 < n
                    <= DEFAULT_PAGE_SIZE && (if limit.len() == 0 {
                    n == DEFAULT_PAGE_SIZE
                } else {
                    i64_value(limit) == Some(n as int)
                }),
                None => limit.len() > 0 && (i64_value(limit) matches Some(n) ==> !(0 < n
                    <= DEFAULT_PAGE_SIZE)),
            }
        }),
{
    let after = query_get(raw, "after");
    match page_limit(query_get(raw, "limit").as_str()) {
        Some(n) => Some((after, n)),
        None => None,
    }
}

/// The encoded forms of digests.
pub open spec fn literals(digests: Seq<Seq<char>>) -> Seq<Seq<char>> {
    digests.map_values(|d: Seq<char>| json_literal(d))
}

/// The body of a listing response; an empty page is a null.
pub open spec fn page_text(digests: Seq<Seq<char>>) -> Seq<char> {
    if digests.len() == 0 {
        "{\"digests\":null}\n"@
    } else {
        "{\"digests\":["@ + join(literals(digests), ","@) + "]}\n"@
    }
}

/// Renders one page of the listing.
pub fn page_body(digests: &Vec<String>) -> (r: String)
    ensures
        r@ == page_text(texts(digests@)),
{
    assert(texts(digests@).len() == digests@.len());
    if digests.len() == 0 {
        return "{\"digests\":null}\n".to_owned();
    }
    let ghost want = literals(texts(digests@));
    let mut quoted: Vec<String> = Vec::new();
    let mut i: usize = 0;
    assert(texts(quoted@) =~= want.take(0));
    while i < digests.len()
        invariant
            i <= digests@.len(),
            want == literals(texts(digests@)),
            texts(quoted@) == want.take(i as int),
        decreases digests.len() - i,
    {
        let literal = quote(digests[i].as_str());
        quoted.push(literal);
        i += 1;
        assert(texts(digests@)[i - 1] == digests@[i - 1]@);
        assert(texts(quoted@) =~= want.take(i - 1).push(want[i - 1]));
        assert(want.take(i as int) =~= want.take(i - 1).push(want[i - 1]));
    }
    assert(want.take(digests@.len() as int) =~= want);
    let list = join_texts(&quoted, 0, quoted.len(), ",");
    assert(texts(quoted@).subrange(0, quoted@.len() as int) =~= texts(quoted@));
    let mut out = cat("{\"digests\":[", list.as_str());
    out.append("]}\n");
    out
}

/// The digests in the body of a listing response; nothing where it is none.
pub open spec fn page_digests(body: Seq<u8>) -> Option<Seq<Seq<char>>> {
    match record(body, seq!["digests"@]) {
        Some(fields) => match fields[0] {
            Some(raw) => if raw == "null"@ {
                Some(Seq::empty())
            } else {
                json_string_list(encode_utf8(raw))
            },
            None => None,
        },
        None => None,
    }
}

/// Reads one page of the listing.
pub fn read_page(body: &[u8]) -> (r: Option<Vec<String>>)
    ensures
        match r {
            Some(v) => page_digests(body@) == Some(texts(v@)),
            None => page_digests(body@) is None,
        },
{
    let field = match read_record_of_one(body, "digests") {
        Some(field) => field,
        None => return None,
    };
    match field {
        Some(raw) => {
            if same(raw.as_str(), "null") {
                let none: Vec<String> = Vec::new();
                assert(texts(none@) =~= Seq::empty());
                return Some(none);
            }
            parse_string_list(raw.as_str().as_bytes())
        },
        None => None,
    }
}

} // verus!
