//! The anchors of a simple index page in HTML.
//!
//! A page is searched in its lowercase form, and cut at the byte offsets found there.

use vstd::prelude::*;
use vstd::slice::{slice_subrange, slice_to_vec};
use vstd::utf8::{
    decode_utf8, encode_utf8, encode_utf8_decode_utf8, encode_utf8_valid_utf8, is_char_boundary,
    is_char_boundary_iff_not_is_continuation_byte, is_char_boundary_start_end_of_seq,
    is_continuation_byte, valid_utf8, valid_utf8_split,
};

use crate::bridge::{lowercase, string_from_utf8, to_lowercase};
use crate::text::texts;

verus! {

/// `p` stands at position `i` of `b`.
pub open spec fn stands_at(b: Seq<u8>, p: Seq<u8>, i: int) -> bool {
    0 <= i && i + p.len() <= b.len() && b.subrange(i, i + p.len()) == p
}

/// Where `p` stands first in `b`, from position `i` on.
pub open spec fn byte_place(b: Seq<u8>, p: Seq<u8>, i: int) -> Option<int>
    decreases b.len() + 1 - i,
{
    if i < 0 || i + p.len() > b.len() {
        None
    } else if stands_at(b, p, i) {
        Some(i)
    } else {
        byte_place(b, p, i + 1)
    }
}

pub proof fn lemma_byte_place(b: Seq<u8>, p: Seq<u8>, i: int)
    ensures
        byte_place(b, p, i) matches Some(k) ==> i <= k && stands_at(b, p, k),
    decreases b.len() + 1 - i,
{
    if 0 <= i && i + p.len() <= b.len() && !stands_at(b, p, i) {
        lemma_byte_place(b, p, i + 1);
    }
}

/// `<a`.
pub open spec fn opening() -> Seq<u8> {
    seq![0x3cu8, 0x61u8]
}

/// `>`.
pub open spec fn bracket() -> Seq<u8> {
    seq![0x3eu8]
}

/// `</a>`.
pub open spec fn closing() -> Seq<u8> {
    seq![0x3cu8, 0x2fu8, 0x61u8, 0x3eu8]
}

/// A letter, a digit or an underscore, of ASCII.
pub open spec fn is_word_byte(c: u8) -> bool {
    0x61 <= c <= 0x7a || 0x41 <= c <= 0x5a || 0x30 <= c <= 0x39 || c == 0x5f
}

/// Where the anchor elements of `page` are cut out, from position `i` on: each from `<a`
/// to `</a>` in `low`, its lowercase form. A longer tag name in `page` is no anchor.
pub open spec fn cuts(low: Seq<u8>, page: Seq<u8>, i: int) -> Seq<(int, int)>
    decreases low.len() - i,
{
    match byte_place(low, opening(), i) {
        None => Seq::empty(),
        Some(start) => {
            proof {
                lemma_byte_place(low, opening(), i);
            }
            let after = start + 2;
            if after < page.len() && is_word_byte(page[after]) {
                cuts(low, page, after)
            } else {
                match byte_place(low, bracket(), start) {
                    None => Seq::empty(),
                    Some(open) => match byte_place(low, closing(), open + 1) {
                        None => Seq::empty(),
                        Some(close) => {
                            proof {
                                lemma_byte_place(low, bracket(), start);
                                lemma_byte_place(low, closing(), open + 1);
                            }
                            seq![(start, close + 4)] + cuts(low, page, close + 4)
                        },
                    },
                }
            }
        },
    }
}

/// The page can be cut there: both ends lie inside it, between two characters.
pub open spec fn fits(page: Seq<u8>, cut: (int, int)) -> bool {
    &&& 0 <= cut.0 <= cut.1 <= page.len()
    &&& is_char_boundary(page, cut.0)
    &&& is_char_boundary(page, cut.1)
}

/// Where the anchor elements of a page are cut out.
pub open spec fn page_cuts(html: Seq<char>) -> Seq<(int, int)> {
    cuts(encode_utf8(lowercase(html)), encode_utf8(html), 0)
}

/// Every anchor element of the page can be cut out. It cannot where a character whose
/// lowercase form is of another length moves a cut into a character, or beyond the end.
pub open spec fn can_cut(html: Seq<char>) -> bool {
    forall|k: int|
        0 <= k < page_cuts(html).len() ==> fits(encode_utf8(html), #[trigger] page_cuts(html)[k])
}

/// The anchor elements of a page, as they are cut out.
pub open spec fn anchors_of(html: Seq<char>) -> Seq<Seq<char>> {
    let page = encode_utf8(html);
    page_cuts(html).map_values(|c: (int, int)| decode_utf8(page.subrange(c.0, c.1)))
}

fn same_at(b: &[u8], p: &[u8], i: usize) -> (r: bool)
    requires
        i + p@.len() <= b@.len(),
    ensures
        r == stands_at(b@, p@, i as int),
{
    let n: usize = b.len();
    let mut k: usize = 0;
    while k < p.len()
        invariant
            k <= p@.len(),
            n == b@.len(),
            i + p@.len() <= n,
            forall|j: int| 0 <= j < k ==> b@[i + j] == p@[j],
        decreases p@.len() - k,
    {
        if b[i + k] != p[k] {
            assert(b@.subrange(i as int, i + p@.len())[k as int] != p@[k as int]);
            return false;
        }
        k += 1;
    }
    assert(b@.subrange(i as int, i + p@.len()) =~= p@);
    true
}

fn find_bytes(b: &[u8], p: &[u8], from: usize) -> (r: Option<usize>)
    requires
        from <= b@.len(),
    ensures
        match r {
            Some(k) => byte_place(b@, p@, from as int) == Some(k as int) && from <= k && k + p@.len()
                <= b@.len(),
            None => byte_place(b@, p@, from as int) is None,
        },
{
    let mut i: usize = from;
    while p.len() <= b.len() - i
        invariant
            from <= i <= b@.len(),
            byte_place(b@, p@, from as int) == byte_place(b@, p@, i as int),
        decreases b@.len() - i,
    {
        if same_at(b, p, i) {
            return Some(i);
        }
        if i == b.len() {
            assert(byte_place(b@, p@, i + 1) is None);
            return None;
        }
        i += 1;
    }
    None
}

fn word_byte(c: u8) -> (r: bool)
    ensures
        r == is_word_byte(c),
{
    (0x61 <= c && c <= 0x7a) || (0x41 <= c && c <= 0x5a) || (0x30 <= c && c <= 0x39) || c == 0x5f
}

/// The cuts as whole numbers.
pub open spec fn cut_views(v: Seq<(usize, usize)>) -> Seq<(int, int)> {
    v.map_values(|c: (usize, usize)| (c.0 as int, c.1 as int))
}

fn find_cuts(low: &[u8], page: &[u8]) -> (r: Vec<(usize, usize)>)
    ensures
        cut_views(r@) == cuts(low@, page@, 0),
        forall|k: int| 0 <= k < r@.len() ==> (#[trigger] r@[k]).0 < r@[k].1,
{
    let tag: Vec<u8> = vec![0x3c, 0x61];
    let gt: Vec<u8> = vec![0x3e];
    let end: Vec<u8> = vec![0x3c, 0x2f, 0x61, 0x3e];
    assert(tag@ =~= opening());
    assert(gt@ =~= bracket());
    assert(end@ =~= closing());
    let mut out: Vec<(usize, usize)> = Vec::new();
    let n: usize = low.len();
    let mut i: usize = 0;
    assert(cut_views(out@) + cuts(low@, page@, 0) =~= cuts(low@, page@, 0));
    loop
        invariant
            n == low@.len(),
            i <= n,
            tag@ == opening(),
            gt@ == bracket(),
            end@ == closing(),
            cut_views(out@) + cuts(low@, page@, i as int) == cuts(low@, page@, 0),
            forall|k: int| 0 <= k < out@.len() ==> (#[trigger] out@[k]).0 < out@[k].1,
        decreases low@.len() - i,
    {
        let ghost done = cut_views(out@);
        assert(done + Seq::<(int, int)>::empty() =~= done);
        let start = match find_bytes(low, tag.as_slice(), i) {
            Some(k) => k,
            None => {
                return out;
            },
        };
        let after = start + 2;
        if after < page.len() && word_byte(page[after]) {
            i = after;
        } else {
            let open = match find_bytes(low, gt.as_slice(), start) {
                Some(k) => k,
                None => {
                    return out;
                },
            };
            let close = match find_bytes(low, end.as_slice(), open + 1) {
                Some(k) => k,
                None => {
                    return out;
                },
            };
            out.push((start, close + 4));
            proof {
                let cut = (start as int, close + 4);
                assert(cut_views(out@) =~= done.push(cut));
                assert(done.push(cut) + cuts(low@, page@, close + 4) =~= done + (seq![cut] + cuts(
                    low@,
                    page@,
                    close + 4,
                )));
            }
            i = close + 4;
        }
    }
}

/// Whether a text can be cut at byte `i`.
fn at_boundary(page: &[u8], i: usize) -> (r: bool)
    requires
        valid_utf8(page@),
        i <= page@.len(),
    ensures
        r == is_char_boundary(page@, i as int),
{
    proof {
        is_char_boundary_start_end_of_seq(page@);
        if i < page@.len() {
            is_char_boundary_iff_not_is_continuation_byte(page@, i as int);
        }
    }
    i == page.len() || !(0x80 <= page[i] && page[i] <= 0xbf)
}

fn find_page_cuts(html: &str) -> (r: Vec<(usize, usize)>)
    ensures
        cut_views(r@) == page_cuts(html@),
        forall|k: int| 0 <= k < r@.len() ==> (#[trigger] r@[k]).0 < r@[k].1,
{
    let low = to_lowercase(html);
    find_cuts(low.as_str().as_bytes(), html.as_bytes())
}

/// Whether every anchor element of the page can be cut out.
pub fn anchors_can_be_cut(html: &str) -> (r: bool)
    ensures
        r == can_cut(html@),
{
    let list = find_page_cuts(html);
    let page = html.as_bytes();
    let ghost all = page_cuts(html@);
    proof {
        encode_utf8_valid_utf8(html@);
    }
    let mut i: usize = 0;
    while i < list.len()
        invariant
            i <= list@.len(),
            page@ == encode_utf8(html@),
            valid_utf8(page@),
            all == page_cuts(html@),
            all == cut_views(list@),
            forall|k: int| 0 <= k < list@.len() ==> (#[trigger] list@[k]).0 < list@[k].1,
            forall|k: int| 0 <= k < i ==> fits(page@, #[trigger] all[k]),
        decreases list@.len() - i,
    {
        let (start, end) = list[i];
        assert(all[i as int] == (start as int, end as int));
        assert(list@[i as int].0 < list@[i as int].1);
        if end > page.len() || !at_boundary(page, start) || !at_boundary(page, end) {
            assert(!fits(page@, all[i as int]));
            return false;
        }
        i += 1;
    }
    true
}

/// The anchor elements of a page, as they are cut out.
pub fn find_anchors(html: &str) -> (r: Vec<String>)
    requires
        can_cut(html@),
    ensures
        texts(r@) == anchors_of(html@),
{
    let list = find_page_cuts(html);
    let page = html.as_bytes();
    let ghost all = page_cuts(html@);
    let ghost want = anchors_of(html@);
    proof {
        encode_utf8_valid_utf8(html@);
    }
    let mut out: Vec<String> = Vec::new();
    let mut i: usize = 0;
    assert(texts(out@) =~= want.take(0));
    while i < list.len()
        invariant
            i <= list@.len(),
            page@ == encode_utf8(html@),
            valid_utf8(page@),
            can_cut(html@),
            all == page_cuts(html@),
            all == cut_views(list@),
            want == anchors_of(html@),
            want.len() == list@.len(),
            forall|k: int| 0 <= k < list@.len() ==> (#[trigger] list@[k]).0 < list@[k].1,
            texts(out@) == want.take(i as int),
        decreases list@.len() - i,
    {
        let (start, end) = list[i];
        proof {
            assert(list@[i as int].0 < list@[i as int].1);
            assert(all[i as int] == (start as int, end as int));
            assert(fits(page@, all[i as int]));
            lemma_cut_is_text(page@, start as int, end as int);
        }
        let piece = slice_to_vec(slice_subrange(page, start, end));
        let ghost bytes = piece@;
        match string_from_utf8(piece) {
            Some(s) => {
                let ghost done = texts(out@);
                let ghost text = s@;
                proof {
                    encode_utf8_decode_utf8(text);
                    assert(want[i as int] == decode_utf8(page@.subrange(start as int, end as int)));
                    assert(text == want[i as int]);
                }
                out.push(s);
                assert(texts(out@) =~= done.push(text));
                assert(want.take(i + 1) =~= want.take(i as int).push(text));
            },
            None => {
                assert(false);
            },
        }
        i += 1;
    }
    assert(want.take(want.len() as int) =~= want);
    out
}

/// What is cut out between characters is text.
proof fn lemma_cut_is_text(page: Seq<u8>, start: int, end: int)
    requires
        valid_utf8(page),
        start < end,
        fits(page, (start, end)),
    ensures
        valid_utf8(page.subrange(start, end)),
{
    valid_utf8_split(page, end);
    let front = page.subrange(0, end);
    is_char_boundary_iff_not_is_continuation_byte(page, start);
    is_char_boundary_iff_not_is_continuation_byte(front, start);
    assert(front[start] == page[start]);
    assert(is_continuation_byte(front[start]) == is_continuation_byte(page[start]));
    valid_utf8_split(front, start);
    assert(front.subrange(start, front.len() as int) =~= page.subrange(start, end));
}

} // verus!
