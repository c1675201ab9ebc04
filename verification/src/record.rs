//! Records: JSON documents of a few known fields, each at most once. A record is an
//! object, or an array that lists the fields in their order; other members of an object
//! are passed over.

use vstd::prelude::*;

use crate::bridge::{json_array, json_object, parse_array, parse_object};
use crate::json::{member_map, RawObject};
use crate::repo::span::{is_named_twice, named_twice};
use crate::text::{opt_text, texts};

verus! {

/// The text of each field, where it is there.
pub open spec fn field_texts(v: Seq<Option<String>>) -> Seq<Option<Seq<char>>> {
    v.map_values(|f: Option<String>| opt_text(f))
}

/// The names as texts.
pub open spec fn name_texts(v: Seq<&str>) -> Seq<Seq<char>> {
    v.map_values(|s: &str| s@)
}

/// One of the names occurs twice among the members of the object `body`.
pub open spec fn repeats(body: Seq<u8>, names: Seq<Seq<char>>) -> bool {
    exists|k: int| 0 <= k < names.len() && named_twice(body, #[trigger] names[k])
}

/// The fields of an object.
pub open spec fn object_fields(m: Map<Seq<char>, Seq<char>>, names: Seq<Seq<char>>) -> Seq<
    Option<Seq<char>>,
> {
    names.map_values(
        |n: Seq<char>|
            if m.contains_key(n) {
                Some(m[n])
            } else {
                None
            },
    )
}

/// The fields of an array of at most `n` items.
pub open spec fn array_fields(items: Seq<Seq<char>>, n: nat) -> Seq<Option<Seq<char>>> {
    Seq::new(
        n,
        |k: int|
            if k < items.len() {
                Some(items[k])
            } else {
                None
            },
    )
}

/// The fields `names` of the record in `body`, each as JSON text, where it is there;
/// nothing where `body` is no such record.
pub open spec fn record(body: Seq<u8>, names: Seq<Seq<char>>) -> Option<Seq<Option<Seq<char>>>> {
    match json_object(body) {
        Some(m) => if repeats(body, names) {
            None
        } else {
            Some(object_fields(member_map(m), names))
        },
        None => match json_array(body) {
            Some(items) => if items.len() <= names.len() {
                Some(array_fields(items, names.len()))
            } else {
                None
            },
            None => None,
        },
    }
}

/// Reads the fields `names` of the record in `body`.
pub fn read_record(body: &[u8], names: &Vec<&str>) -> (r: Option<Vec<Option<String>>>)
    ensures
        match r {
            Some(v) => record(body@, name_texts(names@)) == Some(field_texts(v@)) && v@.len()
                == names@.len(),
            None => record(body@, name_texts(names@)) is None,
        },
{
    let ghost all = name_texts(names@);
    let mut out: Vec<Option<String>> = Vec::new();
    let mut i: usize = 0;
    if let Some(members) = parse_object(body) {
        let doc = RawObject { members };
        let ghost want = object_fields(doc.map(), all);
        while i < names.len()
            invariant
                i <= names@.len(),
                all == name_texts(names@),
                doc.wf(),
                json_object(body@) == Some(doc@),
                want == object_fields(doc.map(), all),
                out@.len() == i,
                field_texts(out@) == want.take(i as int),
                forall|k: int| 0 <= k < i ==> !named_twice(body@, #[trigger] all[k]),
            decreases names@.len() - i,
        {
            assert(all[i as int] == names@[i as int]@);
            if is_named_twice(body, names[i]) {
                assert(repeats(body@, all));
                return None;
            }
            let ghost done = field_texts(out@);
            let value = match doc.get(names[i]) {
                Some(raw) => Some(raw.as_str().to_owned()),
                None => None,
            };
            let ghost text = opt_text(value);
            out.push(value);
            proof {
                assert(want[i as int] == text);
                assert(field_texts(out@) =~= done.push(text));
                assert(want.take(i + 1) =~= want.take(i as int).push(text));
            }
            i += 1;
        }
        assert(want.take(want.len() as int) =~= want);
        return Some(out);
    }
    let items = match parse_array(body) {
        Some(items) => items,
        None => return None,
    };
    if items.len() > names.len() {
        return None;
    }
    let ghost want = array_fields(texts(items@), names@.len());
    while i < names.len()
        invariant
            i <= names@.len(),
            items@.len() <= names@.len(),
            want == array_fields(texts(items@), names@.len()),
            out@.len() == i,
            field_texts(out@) == want.take(i as int),
        decreases names@.len() - i,
    {
        let ghost done = field_texts(out@);
        let value = if i < items.len() {
            Some(items[i].as_str().to_owned())
        } else {
            None
        };
        let ghost text = opt_text(value);
        out.push(value);
        proof {
            assert(want[i as int] == text);
            assert(field_texts(out@) =~= done.push(text));
            assert(want.take(i + 1) =~= want.take(i as int).push(text));
        }
        i += 1;
    }
    assert(want.take(want.len() as int) =~= want);
    Some(out)
}

/// Reads the field `name` of a record that has no other.
pub fn read_record_of_one(body: &[u8], name: &str) -> (r: Option<Option<String>>)
    ensures
        match r {
            Some(f) => record(body@, seq![name@]) == Some(seq![opt_text(f)]),
            None => record(body@, seq![name@]) is None,
        },
{
    let names: Vec<&str> = vec![name];
    assert(name_texts(names@) =~= seq![name@]);
    match read_record(body, &names) {
        Some(mut v) => {
            let ghost all = field_texts(v@);
            let f = v.pop();
            match f {
                Some(f) => {
                    assert(all =~= seq![opt_text(f)]);
                    Some(f)
                },
                None => None,
            }
        },
        None => None,
    }
}

/// Reads the fields `first` and `second` of a record that has no other.
pub fn read_record_of_two(body: &[u8], first: &str, second: &str) -> (r: Option<
    (Option<String>, Option<String>),
>)
    ensures
        match r {
            Some((f, g)) => record(body@, seq![first@, second@]) == Some(
                seq![opt_text(f), opt_text(g)],
            ),
            None => record(body@, seq![first@, second@]) is None,
        },
{
    let names: Vec<&str> = vec![first, second];
    assert(name_texts(names@) =~= seq![first@, second@]);
    match read_record(body, &names) {
        Some(mut v) => {
            let ghost all = field_texts(v@);
            match (v.pop(), v.pop()) {
                (Some(g), Some(f)) => {
                    assert(all =~= seq![opt_text(f), opt_text(g)]);
                    Some((f, g))
                },
                _ => None,
            }
        },
        None => None,
    }
}

} // verus!
