//! Cutting texts into parts.

use vstd::prelude::*;

use crate::text::{
    all_digits, chars_of, digits_value, find_chars, find_in, is_digit, slice_string, split,
    split_char, texts,
};

verus! {

/// The texts of a pair.
pub open spec fn opt_pair(o: Option<(String, String)>) -> Option<(Seq<char>, Seq<char>)> {
    match o {
        Some((a, b)) => Some((a@, b@)),
        None => None,
    }
}

/// What stands before and after the first occurrence of `p` in `s`.
pub open spec fn cut_once(s: Seq<char>, p: Seq<char>) -> Option<(Seq<char>, Seq<char>)> {
    match find_in(s, p) {
        Some(i) => Some((s.take(i), s.skip(i + p.len()))),
        None => None,
    }
}

/// What stands before and after the first occurrence of `p` in `s`.
pub fn split_once(s: &str, p: &str) -> (r: Option<(String, String)>)
    ensures
        opt_pair(r) == cut_once(s@, p@),
{
    let sv = chars_of(s);
    let pv = chars_of(p);
    match find_chars(&sv, &pv, 0) {
        Some(i) => {
            proof {
                crate::text::lemma_find_from(s@, p@, 0);
            }
            let n: usize = sv.len();
            let m: usize = pv.len();
            assert(i + m <= n);
            let before = slice_string(&sv, 0, i);
            let after = slice_string(&sv, i + m, n);
            assert(before@ =~= s@.take(i as int));
            assert(after@ =~= s@.skip(i + p@.len()));
            Some((before, after))
        },
        None => None,
    }
}

/// The place of the last `c` in `s`.
pub open spec fn last_place(s: Seq<char>, c: char) -> Option<int>
    decreases s.len(),
{
    if s.len() == 0 {
        None
    } else if s.last() == c {
        Some(s.len() - 1)
    } else {
        last_place(s.drop_last(), c)
    }
}

/// What stands before and after the last `c` in `s`.
pub open spec fn cut_last(s: Seq<char>, c: char) -> Option<(Seq<char>, Seq<char>)> {
    match last_place(s, c) {
        Some(i) => Some((s.take(i), s.skip(i + 1))),
        None => None,
    }
}

/// What stands before and after the last `c` in `s`.
pub fn rsplit_char(s: &str, c: char) -> (r: Option<(String, String)>)
    ensures
        opt_pair(r) == cut_last(s@, c),
{
    let v = chars_of(s);
    let mut n: usize = v.len();
    assert(s@.take(n as int) =~= s@);
    while n > 0 && v[n - 1] != c
        invariant
            n <= v@.len(),
            v@ == s@,
            last_place(s@, c) == last_place(s@.take(n as int), c),
        decreases n,
    {
        assert(s@.take(n as int).drop_last() =~= s@.take(n - 1));
        assert(s@.take(n as int).last() == s@[n - 1]);
        n -= 1;
    }
    if n == 0 {
        return None;
    }
    assert(s@.take(n as int).last() == s@[n - 1]);
    let before = slice_string(&v, 0, n - 1);
    let after = slice_string(&v, n, v.len());
    assert(before@ =~= s@.take(n - 1));
    assert(after@ =~= s@.skip(n as int));
    Some((before, after))
}

/// `s` without a carriage return at its end.
pub open spec fn without_return(s: Seq<char>) -> Seq<char> {
    if s.len() > 0 && s.last() == '\r' {
        s.drop_last()
    } else {
        s
    }
}

/// The lines among the pieces between line feeds: each but the last loses one
/// carriage return at its end, and the last counts only where it holds something.
pub open spec fn lines_among(pieces: Seq<Seq<char>>) -> Seq<Seq<char>> {
    let ended = pieces.drop_last().map_values(|p: Seq<char>| without_return(p));
    if pieces.last().len() == 0 {
        ended
    } else {
        ended.push(pieces.last())
    }
}

/// The lines of a text.
pub open spec fn lines_of(s: Seq<char>) -> Seq<Seq<char>> {
    lines_among(split(s, '\n'))
}

fn drop_return(s: &str) -> (r: String)
    ensures
        r@ == without_return(s@),
{
    let v = chars_of(s);
    let n: usize = v.len();
    if n > 0 && v[n - 1] == '\r' {
        let r = slice_string(&v, 0, n - 1);
        assert(r@ =~= s@.drop_last());
        r
    } else {
        s.to_owned()
    }
}

/// The lines of a text.
pub fn lines(s: &str) -> (r: Vec<String>)
    ensures
        texts(r@) == lines_of(s@),
{
    let pieces = split_char(s, '\n');
    let ghost p = split(s@, '\n');
    let n: usize = pieces.len() - 1;
    let mut out: Vec<String> = Vec::new();
    let mut i: usize = 0;
    let ghost ended = p.drop_last().map_values(|p: Seq<char>| without_return(p));
    assert(p.len() == pieces@.len());
    while i < n
        invariant
            i <= n,
            n == pieces@.len() - 1,
            p == texts(pieces@),
            ended == p.drop_last().map_values(|p: Seq<char>| without_return(p)),
            texts(out@) == ended.take(i as int),
        decreases n - i,
    {
        assert(p[i as int] == pieces@[i as int]@);
        let line = drop_return(pieces[i].as_str());
        out.push(line);
        i += 1;
        assert(ended.take(i as int) =~= ended.take(i - 1).push(ended[i - 1]));
        assert(texts(out@) =~= ended.take(i as int));
    }
    assert(ended.take(n as int) =~= ended);
    assert(p.last() == pieces@[n as int]@);
    if !pieces[n].as_str().is_empty() {
        let last = pieces[n].as_str().to_owned();
        let ghost before = texts(out@);
        out.push(last);
        assert(texts(out@) =~= before.push(p.last()));
    }
    out
}

/// The number that `s` stands for, where it fits a `usize`: at least one digit,
/// after at most one plus sign.
pub open spec fn usize_value(s: Seq<char>) -> Option<int> {
    let body = if s.len() > 0 && s[0] == '+' {
        s.skip(1)
    } else {
        s
    };
    if body.len() == 0 || !all_digits(body) || digits_value(body) > usize::MAX {
        None
    } else {
        Some(digits_value(body) as int)
    }
}

/// Reads an unsigned number in decimal.
pub fn parse_usize(s: &str) -> (r: Option<usize>)
    ensures
        match r {
            Some(n) => usize_value(s@) == Some(n as int),
            None => usize_value(s@) is None,
        },
{
    let v = chars_of(s);
    let start: usize = if v.len() > 0 && v[0] == '+' {
        1
    } else {
        0
    };
    let ghost body = s@.skip(start as int);
    if start == 0 {
        assert(body =~= s@);
    }
    if v.len() == start {
        return None;
    }
    let mut value: usize = 0;
    let mut fits = true;
    let mut i: usize = start;
    while i < v.len()
        invariant
            start <= i <= v.len(),
            v@ == s@,
            start == (if s@.len() > 0 && s@[0] == '+' {
                1int
            } else {
                0int
            }),
            body == s@.skip(start as int),
            start == 0 ==> body == s@,
            forall|k: int| 0 <= k < i - start ==> is_digit(body[k]),
            fits ==> digits_value(body.take(i - start)) == value,
            !fits ==> digits_value(body.take(i - start)) > usize::MAX,
        decreases v.len() - i,
    {
        let c = v[i];
        assert(body[i - start] == c);
        if c < '0' || c > '9' {
            assert(!is_digit(body[i - start]));
            assert(!all_digits(body));
            return None;
        }
        let d: usize = (c as u8 - 48u8) as usize;
        proof {
            assert(body.take(i + 1 - start).drop_last() =~= body.take(i - start));
            assert(body.take(i + 1 - start).last() == c);
        }
        if fits {
            match value.checked_mul(10) {
                Some(tens) => match tens.checked_add(d) {
                    Some(sum) => {
                        value = sum;
                    },
                    None => {
                        fits = false;
                    },
                },
                None => {
                    fits = false;
                },
            }
        }
        i += 1;
    }
    assert(body.take(body.len() as int) =~= body);
    if fits {
        Some(value)
    } else {
        None
    }
}

// ---------------------------------------------------------------------------
// Cutting by bytes

/// The number of bytes that a character takes in UTF-8.
pub open spec fn width(c: char) -> int {
    if (c as int) < 0x80 {
        1
    } else if (c as int) < 0x800 {
        2
    } else if (c as int) < 0x10000 {
        3
    } else {
        4
    }
}

/// The number of bytes that a text takes in UTF-8.
pub open spec fn byte_len(s: Seq<char>) -> int
    decreases s.len(),
{
    if s.len() == 0 {
        0
    } else {
        byte_len(s.drop_last()) + width(s.last())
    }
}

/// `k` characters of `s` take exactly `n` bytes.
pub open spec fn boundary(s: Seq<char>, n: int, k: int) -> bool {
    0 <= k <= s.len() && byte_len(s.take(k)) == n
}

/// More characters take more bytes.
pub proof fn lemma_byte_len_grows(s: Seq<char>, a: int, b: int)
    requires
        0 <= a <= b <= s.len(),
    ensures
        byte_len(s.take(a)) + (b - a) <= byte_len(s.take(b)),
    decreases b,
{
    if a < b {
        lemma_byte_len_grows(s, a, b - 1);
        assert(s.take(b).drop_last() =~= s.take(b - 1));
    }
}

fn char_width(c: char) -> (r: usize)
    ensures
        r == width(c),
{
    let n: u32 = c as u32;
    if n < 0x80 {
        1
    } else if n < 0x800 {
        2
    } else if n < 0x10000 {
        3
    } else {
        4
    }
}

/// The number of characters that take exactly `n` bytes at the start of `v`.
pub fn chars_in_bytes(v: &Vec<char>, n: usize) -> (r: Option<usize>)
    requires
        n <= 16,
    ensures
        match r {
            Some(k) => boundary(v@, n as int, k as int),
            None => forall|k: int| !boundary(v@, n as int, k),
        },
{
    let mut i: usize = 0;
    let mut bytes: usize = 0;
    assert(v@.take(0) =~= Seq::empty());
    while i < v.len() && bytes < n
        invariant
            i <= v@.len(),
            n <= 16,
            bytes <= 20,
            bytes == byte_len(v@.take(i as int)),
            i > 0 ==> byte_len(v@.take(i - 1)) < n,
        decreases v@.len() - i,
    {
        assert(v@.take(i + 1).drop_last() =~= v@.take(i as int));
        bytes = bytes + char_width(v[i]);
        i += 1;
        assert(v@.take(i - 1) =~= v@.take((i - 1) as int));
    }
    if bytes == n {
        return Some(i);
    }
    proof {
        assert forall|k: int| !boundary(v@, n as int, k) by {
            if 0 <= k <= v@.len() {
                if k >= i {
                    lemma_byte_len_grows(v@, i as int, k);
                    if bytes < n {
                        assert(i == v@.len());
                    }
                } else {
                    lemma_byte_len_grows(v@, k, i - 1);
                }
            }
        }
    }
    None
}

} // verus!
