//! What holds of the ways texts are cut, put together and changed.

use vstd::prelude::*;

use crate::cut::{byte_len, cut_last, last_place, lines_of, usize_value, width};
use crate::percent::{percent_bytes, query_byte, query_bytes};
use crate::repo::path_laws::{lemma_one_piece, lemma_split_behind};
use crate::text::{
    all_digits, contains_seq, decimal, digits, first_seen, i64_value, is_digit, is_white, join,
    lemma_digits_round_trip, non_empty, occurs_at, replace_from, replaced, split, starts, text_lt,
    trim_both, trim_end, trim_start, trim_white_end, trim_white_start, trimmed, white_split, words,
};

verus! {

// ---------------------------------------------------------------------------
// Replacing

proof fn lemma_replace_shifts(s: Seq<char>, p: Seq<char>, t: Seq<char>, i: int)
    requires
        0 <= i <= s.len(),
        p.len() > 0,
    ensures
        replace_from(s, p, t, i) == replaced(s.skip(i), p, t),
{
    lemma_replace_along(s, s.skip(i), p, t, i, 0);
}

proof fn lemma_replace_along(s: Seq<char>, u: Seq<char>, p: Seq<char>, t: Seq<char>, i: int, j: int)
    requires
        0 <= i,
        0 <= j,
        p.len() > 0,
        i <= s.len(),
        u == s.skip(i),
    ensures
        replace_from(s, p, t, i + j) == replace_from(u, p, t, j),
    decreases s.len() - i - j,
{
    if i + j < s.len() {
        assert(u[j] == s[i + j]);
        if i + j + p.len() <= s.len() {
            assert(s.subrange(i + j, i + j + p.len()) =~= u.subrange(j, j + p.len()));
        }
        assert(occurs_at(s, p, i + j) <==> occurs_at(u, p, j));
        if occurs_at(s, p, i + j) {
            lemma_replace_along(s, u, p, t, i, j + p.len());
        } else {
            lemma_replace_along(s, u, p, t, i, j + 1);
        }
    }
}

/// From the left, each occurrence is replaced and every other character stays.
pub proof fn occurrences_are_replaced(p: Seq<char>, t: Seq<char>, c: char, rest: Seq<char>)
    requires
        p.len() > 0,
    ensures
        replaced(Seq::empty(), p, t).len() == 0,
        replaced(p + rest, p, t) == t + replaced(rest, p, t),
        !starts(seq![c] + rest, p) ==> replaced(seq![c] + rest, p, t) == seq![c] + replaced(
            rest,
            p,
            t,
        ),
{
    let s = p + rest;
    let n = p.len() as int;
    assert(s.subrange(0, n) =~= p);
    lemma_replace_shifts(s, p, t, n);
    assert(s.skip(n) =~= rest);
    let u = seq![c] + rest;
    if !starts(u, p) {
        if occurs_at(u, p, 0) {
            assert(u.take(n) =~= u.subrange(0, n));
        }
        lemma_replace_shifts(u, p, t, 1);
        assert(u.skip(1) =~= rest);
    }
}

/// A text without the pattern stays as it is.
pub proof fn other_texts_stay(s: Seq<char>, p: Seq<char>, t: Seq<char>)
    requires
        p.len() > 0,
        !contains_seq(s, p),
    ensures
        replaced(s, p, t) == s,
{
    lemma_nothing_replaced(s, p, t, 0);
    assert(s.skip(0) =~= s);
}

proof fn lemma_nothing_replaced(s: Seq<char>, p: Seq<char>, t: Seq<char>, i: int)
    requires
        0 <= i <= s.len(),
        p.len() > 0,
        !contains_seq(s, p),
    ensures
        replace_from(s, p, t, i) == s.skip(i),
    decreases s.len() - i,
{
    if i < s.len() {
        assert(!occurs_at(s, p, i));
        lemma_nothing_replaced(s, p, t, i + 1);
        assert(seq![s[i]] + s.skip(i + 1) =~= s.skip(i));
    } else {
        assert(s.skip(i) =~= Seq::empty());
    }
}

// ---------------------------------------------------------------------------
// White space

/// Blanks, tabs and line ends are white space; letters, digits and marks are not.
pub proof fn blanks_are_white(c: char)
    ensures
        is_white(' '),
        is_white('\t'),
        is_white('\n'),
        is_white('\r'),
        '!' <= c <= '~' ==> !is_white(c),
{
}

/// White space at the ends goes, and nothing else does.
pub proof fn ends_are_trimmed(front: Seq<char>, s: Seq<char>, back: Seq<char>)
    requires
        forall|i: int| 0 <= i < front.len() ==> is_white(#[trigger] front[i]),
        forall|i: int| 0 <= i < back.len() ==> is_white(#[trigger] back[i]),
        s.len() > 0,
        !is_white(s[0]),
        !is_white(s.last()),
    ensures
        trimmed(front + s + back) == s,
        trimmed(s) == s,
{
    lemma_trim_front(front, s + back);
    assert(front + s + back =~= front + (s + back));
    assert((s + back)[0] == s[0]);
    lemma_trim_back(s, back);
}

proof fn lemma_trim_front(front: Seq<char>, s: Seq<char>)
    requires
        forall|i: int| 0 <= i < front.len() ==> is_white(#[trigger] front[i]),
        s.len() > 0,
        !is_white(s[0]),
    ensures
        trim_white_start(front + s) == s,
    decreases front.len(),
{
    if front.len() > 0 {
        assert((front + s)[0] == front[0]);
        assert((front + s).skip(1) =~= front.skip(1) + s);
        assert forall|i: int| 0 <= i < front.skip(1).len() implies is_white(
            #[trigger] front.skip(1)[i],
        ) by {
            assert(is_white(front[i + 1]));
        }
        lemma_trim_front(front.skip(1), s);
    } else {
        assert(front + s =~= s);
    }
}

proof fn lemma_trim_back(s: Seq<char>, back: Seq<char>)
    requires
        forall|i: int| 0 <= i < back.len() ==> is_white(#[trigger] back[i]),
        s.len() > 0,
        !is_white(s.last()),
    ensures
        trim_white_end(s + back) == s,
    decreases back.len(),
{
    if back.len() > 0 {
        assert((s + back).last() == back.last());
        assert(is_white(back[back.len() - 1]));
        assert((s + back).drop_last() =~= s + back.drop_last());
        assert forall|i: int| 0 <= i < back.drop_last().len() implies is_white(
            #[trigger] back.drop_last()[i],
        ) by {
            assert(is_white(back[i]));
        }
        lemma_trim_back(s, back.drop_last());
    } else {
        assert(s + back =~= s);
    }
}

/// White space keeps words apart, and nothing else does.
pub proof fn words_stand_between_white_space(a: Seq<char>, c: char, word: Seq<char>)
    requires
        is_white(c),
        word.len() > 0,
        forall|i: int| 0 <= i < word.len() ==> !is_white(#[trigger] word[i]),
    ensures
        words(Seq::empty()).len() == 0,
        words(word) == seq![word],
        words(a + seq![c]) == words(a),
        words(a + seq![c] + word) == words(a).push(word),
{
    reveal_with_fuel(non_empty, 3);
    assert(white_split(Seq::empty()) =~= seq![Seq::<char>::empty()]);
    assert(seq![Seq::<char>::empty()].drop_last() =~= Seq::<Seq<char>>::empty());
    lemma_white_word(Seq::empty(), word, seq![Seq::<char>::empty()]);
    assert(Seq::<char>::empty() + word =~= word);
    let one = white_split(word);
    assert(one =~= seq![word]);
    assert(one.drop_last() =~= Seq::<Seq<char>>::empty());
    assert(words(word) =~= seq![word]);
    let s = a + seq![c];
    assert(s.drop_last() =~= a);
    assert(s.last() == c);
    let p = white_split(s);
    assert(p.drop_last() =~= white_split(a));
    lemma_white_word(s, word, p);
    let q = white_split(s + word);
    assert(q.drop_last() =~= white_split(a));
    assert(q.last() =~= word);
}

proof fn lemma_white_word(s: Seq<char>, word: Seq<char>, p: Seq<Seq<char>>)
    requires
        p == white_split(s),
        p.len() > 0,
        p.last().len() == 0,
        forall|i: int| 0 <= i < word.len() ==> !is_white(#[trigger] word[i]),
    ensures
        white_split(s + word) == p.drop_last().push(word),
    decreases word.len(),
{
    if word.len() > 0 {
        let w = word.drop_last();
        assert forall|i: int| 0 <= i < w.len() implies !is_white(#[trigger] w[i]) by {
            assert(!is_white(word[i]));
        }
        lemma_white_word(s, w, p);
        assert((s + word).drop_last() =~= s + w);
        assert((s + word).last() == word.last());
        assert(!is_white(word[word.len() - 1]));
        let q = p.drop_last().push(w);
        assert(q.drop_last() =~= p.drop_last());
        assert(w.push(word.last()) =~= word);
    } else {
        assert(s + word =~= s);
        assert(p.last() =~= word);
        assert(p =~= p.drop_last().push(word));
    }
}

// ---------------------------------------------------------------------------
// Lines

/// A line ends at its line feed, with or without a carriage return before it; what follows
/// the last one is a line where it holds something.
pub proof fn lines_end_at_line_feeds(a: Seq<char>, line: Seq<char>)
    requires
        !line.contains('\n'),
        line.len() > 0,
        line.last() != '\r',
    ensures
        lines_of(Seq::empty()).len() == 0,
        lines_of(line) == seq![line],
        lines_of(line + seq!['\n']) == seq![line],
        lines_of(line + seq!['\r', '\n']) == seq![line],
        lines_of(a + seq!['\n'] + line) == lines_of(a + seq!['\n']).push(line),
        lines_of(a + seq!['\n'] + line + seq!['\n']) == lines_of(a + seq!['\n']).push(line),
{
    let none = Seq::<char>::empty();
    lemma_one_piece(none, '\n');
    assert(lines_of(none) =~= Seq::empty());
    lemma_one_piece(line, '\n');
    assert(lines_of(line) =~= seq![line]);
    lemma_split_behind(line, none, '\n');
    assert(line + seq!['\n'] + none =~= line + seq!['\n']);
    assert(split(line, '\n').push(none).drop_last() =~= seq![line]);
    assert(lines_of(line + seq!['\n']) =~= seq![line]);
    let r = line.push('\r');
    assert(!r.contains('\n')) by {
        assert forall|i: int| 0 <= i < r.len() implies r[i] != '\n' by {
            if i < line.len() {
                assert(line.contains(line[i]));
            }
        }
    }
    lemma_one_piece(r, '\n');
    lemma_split_behind(r, none, '\n');
    assert(r + seq!['\n'] + none =~= line + seq!['\r', '\n']);
    assert(split(r, '\n').push(none).drop_last() =~= seq![r]);
    assert(r.drop_last() =~= line);
    assert(lines_of(line + seq!['\r', '\n']) =~= seq![line]);
    let s = a + seq!['\n'];
    lemma_split_behind(a, none, '\n');
    assert(s + none =~= s);
    lemma_split_behind(a, line, '\n');
    let front = split(a, '\n');
    assert(front.push(line).drop_last() =~= front);
    assert(front.push(none).drop_last() =~= front);
    assert(lines_of(s + line) =~= lines_of(s).push(line));
    let whole = s + line;
    lemma_split_behind(whole, none, '\n');
    assert(whole + seq!['\n'] + none =~= s + line + seq!['\n']);
    let pieces = front.push(line).push(none);
    assert(pieces.drop_last() =~= front.push(line));
    assert(lines_of(s + line + seq!['\n']) =~= lines_of(s).push(line));
}

// ---------------------------------------------------------------------------
// Cutting

/// A text is cut at the last of its separators.
pub proof fn the_last_separator_cuts(a: Seq<char>, c: char, b: Seq<char>)
    requires
        !b.contains(c),
    ensures
        cut_last(a + seq![c] + b, c) == Some((a, b)),
        cut_last(b, c) is None,
{
    let s = a + seq![c] + b;
    lemma_last(a, c, b);
    assert(s.take(a.len() as int) =~= a);
    assert(s.skip(a.len() as int + 1) =~= b);
    lemma_no_last(b, c);
}

proof fn lemma_last(a: Seq<char>, c: char, b: Seq<char>)
    requires
        !b.contains(c),
    ensures
        last_place(a + seq![c] + b, c) == Some(a.len() as int),
    decreases b.len(),
{
    let s = a + seq![c] + b;
    if b.len() > 0 {
        assert(b.contains(b.last()));
        assert(s.last() == b.last());
        assert(s.drop_last() =~= a + seq![c] + b.drop_last());
        assert forall|i: int| 0 <= i < b.drop_last().len() implies b.drop_last()[i] != c by {
            assert(b.contains(b[i]));
        }
        lemma_last(a, c, b.drop_last());
    } else {
        assert(s.last() == c);
    }
}

proof fn lemma_no_last(b: Seq<char>, c: char)
    requires
        !b.contains(c),
    ensures
        last_place(b, c) is None,
    decreases b.len(),
{
    if b.len() > 0 {
        assert(b.contains(b.last()));
        assert forall|i: int| 0 <= i < b.drop_last().len() implies b.drop_last()[i] != c by {
            assert(b.contains(b[i]));
        }
        lemma_no_last(b.drop_last(), c);
    }
}

/// Only leading, or only trailing, characters of the kind go, and all of them do.
pub proof fn one_side_is_trimmed(s: Seq<char>, c: char)
    ensures
        trim_start(seq![c] + s, c) == trim_start(s, c),
        trim_end(s + seq![c], c) == trim_end(s, c),
        s.len() > 0 && s[0] != c ==> trim_start(s, c) == s,
        s.len() > 0 && s.last() != c ==> trim_end(s, c) == s,
        trim_start(Seq::empty(), c).len() == 0,
        trim_end(Seq::empty(), c).len() == 0,
{
    assert((seq![c] + s).skip(1) =~= s);
    assert((s + seq![c]).drop_last() =~= s);
}

// ---------------------------------------------------------------------------
// Order

/// The first character in which two texts differ decides their order, and a text comes
/// before those that go on from it.
pub proof fn the_first_difference_decides(
    p: Seq<char>,
    x: char,
    a: Seq<char>,
    y: char,
    b: Seq<char>,
)
    requires
        x != y,
    ensures
        text_lt(p + seq![x] + a, p + seq![y] + b) <==> (x as int) < (y as int),
        text_lt(p, p + seq![x] + a),
        !text_lt(p + seq![x] + a, p),
    decreases p.len(),
{
    let (s, t) = (p + seq![x] + a, p + seq![y] + b);
    if p.len() > 0 {
        let q = p.skip(1);
        the_first_difference_decides(q, x, a, y, b);
        assert(s[0] == p[0] && t[0] == p[0]);
        assert(s.skip(1) =~= q + seq![x] + a);
        assert(t.skip(1) =~= q + seq![y] + b);
    } else {
        assert(s[0] == x && t[0] == y);
    }
}

// ---------------------------------------------------------------------------
// Numbers

/// Numbers are written in tens, without leading zeros, and with a minus below nought.
pub proof fn numbers_are_written_in_tens(n: nat, d: nat)
    requires
        d < 10,
    ensures
        digits(d) == seq![(('0' as int) + d) as char],
        n > 0 ==> digits(10 * n + d) == digits(n) + digits(d),
        decimal(n as int) == digits(n),
        n > 0 ==> decimal(-(n as int)) == seq!['-'] + digits(n),
{
    if n > 0 {
        assert((10 * n + d) / 10 == n && (10 * n + d) % 10 == d) by (nonlinear_arith)
            requires
                d < 10,
        ;
        assert(digits(10 * n + d) =~= digits(n) + digits(d));
    }
}

/// A number is read back as it was written, with or without a plus; nothing else is a
/// number.
pub proof fn numbers_are_read_back(n: nat, s: Seq<char>, i: int)
    requires
        n <= i64::MAX,
    ensures
        i64_value(digits(n)) == Some(n as int),
        i64_value(seq!['+'] + digits(n)) == Some(n as int),
        i64_value(seq!['-'] + digits(n)) == Some(-(n as int)),
        i64_value(Seq::empty()) is None,
        1 <= i < s.len() && !is_digit(s[i]) ==> i64_value(s) is None,
        s.len() > 0 && !is_digit(s[0]) && s[0] != '-' && s[0] != '+' ==> i64_value(s) is None,
        n <= u32::MAX ==> usize_value(digits(n)) == Some(n as int),
        s.len() > 0 && s[0] == '-' ==> usize_value(s) is None,
{
    lemma_digits_round_trip(n);
    let d = digits(n);
    assert(is_digit(d[0]));
    let p = seq!['+'] + d;
    let m = seq!['-'] + d;
    assert(p[0] == '+' && m[0] == '-');
    assert(p.skip(1) =~= d);
    assert(m.skip(1) =~= d);
    if s.len() > 0 {
        let signed = s[0] == '-' || s[0] == '+';
        if 1 <= i < s.len() && !is_digit(s[i]) {
            if signed {
                assert(s.skip(1)[i - 1] == s[i]);
            }
        }
        if !signed && !is_digit(s[0]) {
            assert(!all_digits(s));
        }
        if s[0] == '-' {
            assert(!is_digit(s[0]));
        }
    }
}

/// A character takes one to four bytes, and a text as many as its characters take.
pub proof fn bytes_are_counted(a: Seq<char>, c: char)
    ensures
        (c as int) <= 0x7f ==> width(c) == 1,
        0x80 <= (c as int) <= 0x7ff ==> width(c) == 2,
        0x800 <= (c as int) <= 0xffff ==> width(c) == 3,
        0x10000 <= (c as int) ==> width(c) == 4,
        byte_len(a.push(c)) == byte_len(a) + width(c),
        byte_len(Seq::empty()) == 0,
{
    assert(a.push(c).drop_last() =~= a);
}

/// What is seen first stays where it is; what comes again goes.
pub proof fn repetitions_go(s: Seq<Seq<char>>, x: Seq<char>)
    ensures
        s.contains(x) ==> first_seen(s.push(x)) == first_seen(s),
        !s.contains(x) ==> first_seen(s.push(x)) == first_seen(s).push(x),
        first_seen(Seq::empty()).len() == 0,
{
    assert(s.push(x).drop_last() =~= s);
    crate::text::first_seen_keeps_each_once(s);
    assert(first_seen(s).contains(x) <==> s.contains(x));
}

/// Parts are put together with the separator between each two.
pub proof fn parts_are_joined(parts: Seq<Seq<char>>, x: Seq<char>, sep: Seq<char>)
    ensures
        join(Seq::empty(), sep).len() == 0,
        join(seq![x], sep) == x,
        parts.len() > 0 ==> join(parts.push(x), sep) == join(parts, sep) + sep + x,
{
    assert(parts.push(x).drop_last() =~= parts);
}

// ---------------------------------------------------------------------------
// Escapes

/// A percent sign and two hexadecimal digits, of either case, stand for one byte; every
/// other byte stands for itself.
pub proof fn escapes_stand_for_bytes(hi: u8, lo: u8, rest: Seq<u8>, b: u8)
    ensures
        percent_bytes(Seq::empty()).len() == 0,
        0x30 <= hi <= 0x39 && 0x30 <= lo <= 0x39 ==> percent_bytes(seq![0x25u8, hi, lo] + rest)
            == seq![((hi - 0x30) * 16 + (lo - 0x30)) as u8] + percent_bytes(rest),
        0x30 <= hi <= 0x39 && 0x41 <= lo <= 0x46 ==> percent_bytes(seq![0x25u8, hi, lo] + rest)
            == seq![((hi - 0x30) * 16 + (lo - 0x41 + 10)) as u8] + percent_bytes(rest),
        0x30 <= hi <= 0x39 && 0x61 <= lo <= 0x66 ==> percent_bytes(seq![0x25u8, hi, lo] + rest)
            == seq![((hi - 0x30) * 16 + (lo - 0x61 + 10)) as u8] + percent_bytes(rest),
        b != 0x25 ==> percent_bytes(seq![b] + rest) == seq![b] + percent_bytes(rest),
{
    let s = seq![0x25u8, hi, lo] + rest;
    assert(s[0] == 0x25 && s[1] == hi && s[2] == lo);
    assert(s.skip(3) =~= rest);
    let t = seq![b] + rest;
    assert(t[0] == b);
    assert(t.skip(1) =~= rest);
}

/// In a query letters, digits and a few marks stand for themselves, a blank is a plus, and
/// every other byte is escaped in capital digits.
pub proof fn queries_are_escaped(a: Seq<u8>, b: u8)
    ensures
        query_bytes(Seq::empty()).len() == 0,
        query_bytes(a.push(b)) == query_bytes(a) + query_byte(b),
        0x61 <= b <= 0x7a || 0x41 <= b <= 0x5a || 0x30 <= b <= 0x39 || b == 0x2a || b == 0x2d || b
            == 0x2e || b == 0x5f ==> query_byte(b) == seq![b as char],
        b == 0x20 ==> query_byte(b) == seq!['+'],
        b == 0x2f ==> query_byte(b) == seq!['%', '2', 'F'],
        b == 0x3a ==> query_byte(b) == seq!['%', '3', 'A'],
        b == 0x25 ==> query_byte(b) == seq!['%', '2', '5'],
        b == 0x26 ==> query_byte(b) == seq!['%', '2', '6'],
        b >= 0x80 ==> query_byte(b).len() == 3 && query_byte(b)[0] == '%',
{
    assert(a.push(b).drop_last() =~= a);
}

/// Characters of the kind go on both sides, and what stands between stays.
pub proof fn both_sides_are_trimmed(s: Seq<char>, c: char)
    ensures
        trim_both(seq![c] + s, c) == trim_both(s, c),
        trim_both(s + seq![c], c) == trim_both(s, c),
        s.len() > 0 && s[0] != c && s.last() != c ==> trim_both(s, c) == s,
        trim_both(Seq::empty(), c).len() == 0,
{
    one_side_is_trimmed(s, c);
    lemma_trim_start_of_longer(s, c);
    let t = trim_start(s, c);
    one_side_is_trimmed(t, c);
}

proof fn lemma_trim_start_of_longer(s: Seq<char>, c: char)
    ensures
        trim_start(s, c).len() > 0 ==> trim_start(s + seq![c], c) == trim_start(s, c) + seq![c],
        trim_start(s, c).len() == 0 ==> trim_start(s + seq![c], c).len() == 0,
        trim_start(s, c).len() == 0 ==> trim_start(s, c) == Seq::<char>::empty(),
    decreases s.len(),
{
    if s.len() == 0 {
        assert(s + seq![c] =~= seq![c] + s);
        one_side_is_trimmed(s, c);
        assert(s =~= Seq::<char>::empty());
        assert(trim_start(s + seq![c], c) =~= Seq::<char>::empty());
    } else if s[0] == c {
        lemma_trim_start_of_longer(s.skip(1), c);
        assert((s + seq![c]).skip(1) =~= s.skip(1) + seq![c]);
    }
}

} // verus!
