//! Strings as sequences of characters: searching, splitting, joining, ordering
//! and decimal numbers, each stated over `Seq<char>`.

use vstd::prelude::*;

verus! {

/// `String::push` appends one character and changes nothing else.
pub assume_specification[ String::push ](s: &mut String, c: char)
    ensures
        final(s)@ == old(s)@.push(c),
;

/// The views of a sequence of strings.
pub open spec fn texts(v: Seq<String>) -> Seq<Seq<char>> {
    v.map_values(|s: String| s@)
}

/// The characters of `s`, in order.
pub fn chars_of(s: &str) -> (r: Vec<char>)
    ensures
        r@ == s@,
{
    let mut out: Vec<char> = Vec::new();
    for c in it: s.chars()
        invariant
            it.seq() == s@,
            out@ == s@.take(it.index()),
    {
        out.push(c);
    }
    out
}

/// The string made of `v[from..to]`.
pub fn slice_string(v: &Vec<char>, from: usize, to: usize) -> (r: String)
    requires
        from <= to <= v@.len(),
    ensures
        r@ == v@.subrange(from as int, to as int),
{
    let mut out = String::new();
    let mut i: usize = from;
    while i < to
        invariant
            from <= i <= to <= v@.len(),
            out@ == v@.subrange(from as int, i as int),
        decreases to - i,
    {
        out.push(v[i]);
        proof {
            assert(v@.subrange(from as int, i as int).push(v@[i as int]) =~= v@.subrange(
                from as int,
                i + 1,
            ));
        }
        i += 1;
    }
    out
}

/// Whether two strings are equal.
pub fn same(a: &str, b: &str) -> (r: bool)
    ensures
        r == (a@ == b@),
{
    a.to_owned() == b.to_owned()
}

/// `a` followed by `b`.
pub fn cat(a: &str, b: &str) -> (r: String)
    ensures
        r@ == a@ + b@,
{
    let mut s = a.to_owned();
    s.append(b);
    s
}

/// Whether one of the strings in `v` is `s`.
pub fn contains_text(v: &Vec<String>, s: &str) -> (r: bool)
    ensures
        r == texts(v@).contains(s@),
{
    let mut i: usize = 0;
    while i < v.len()
        invariant
            i <= v.len(),
            forall|j: int| 0 <= j < i ==> texts(v@)[j] != s@,
        decreases v.len() - i,
    {
        if same(v[i].as_str(), s) {
            assert(texts(v@)[i as int] == s@);
            return true;
        }
        i += 1;
    }
    false
}

// ---------------------------------------------------------------------------
// Searching

/// `p` occurs in `s` at position `i`.
pub open spec fn occurs_at<T>(s: Seq<T>, p: Seq<T>, i: int) -> bool {
    0 <= i && i + p.len() <= s.len() && s.subrange(i, i + p.len()) == p
}

/// The first position, from `i` on, at which `p` occurs in `s`.
pub open spec fn find_from<T>(s: Seq<T>, p: Seq<T>, i: int) -> Option<int>
    decreases s.len() + 1 - i,
{
    if i < 0 || i + p.len() > s.len() {
        None
    } else if occurs_at(s, p, i) {
        Some(i)
    } else {
        find_from(s, p, i + 1)
    }
}

/// The first position at which `p` occurs in `s`.
pub open spec fn find_in<T>(s: Seq<T>, p: Seq<T>) -> Option<int> {
    find_from(s, p, 0)
}

/// `find_from` gives the least position at which the pattern occurs, and gives
/// none only where it occurs nowhere.
pub proof fn lemma_find_from<T>(s: Seq<T>, p: Seq<T>, i: int)
    requires
        0 <= i,
    ensures
        find_from(s, p, i) matches Some(k) ==> occurs_at(s, p, k) && i <= k && (forall|j: int|
            i <= j < k ==> !occurs_at(s, p, j)),
        find_from(s, p, i) is None ==> forall|j: int| i <= j ==> !occurs_at(s, p, j),
    decreases s.len() + 1 - i,
{
    if i + p.len() <= s.len() && !occurs_at(s, p, i) {
        lemma_find_from(s, p, i + 1);
    }
}

/// Whether `p` occurs in `s` at `i`.
pub fn matches_at(s: &Vec<char>, p: &Vec<char>, i: usize) -> (r: bool)
    ensures
        r == occurs_at(s@, p@, i as int),
{
    if p.len() > s.len() || i > s.len() - p.len() {
        return false;
    }
    let mut k: usize = 0;
    while k < p.len()
        invariant
            k <= p.len(),
            i + p.len() <= s.len(),
            forall|j: int| 0 <= j < k ==> s@[i + j] == p@[j],
        decreases p.len() - k,
    {
        if s[i + k] != p[k] {
            assert(s@.subrange(i as int, i + p@.len())[k as int] != p@[k as int]);
            return false;
        }
        k += 1;
    }
    assert(s@.subrange(i as int, i + p@.len()) =~= p@);
    true
}

/// The first position, from `from` on, at which `p` occurs in `s`.
pub fn find_chars(s: &Vec<char>, p: &Vec<char>, from: usize) -> (r: Option<usize>)
    ensures
        match r {
            Some(i) => find_from(s@, p@, from as int) == Some(i as int),
            None => find_from(s@, p@, from as int) is None,
        },
{
    if p.len() > s.len() {
        return None;
    }
    let mut i: usize = from;
    while i <= s.len() - p.len()
        invariant
            p.len() <= s.len(),
            from <= i,
            find_from(s@, p@, from as int) == find_from(s@, p@, i as int),
        decreases s.len() + 1 - i,
    {
        if matches_at(s, p, i) {
            return Some(i);
        }
        if i == s.len() {
            assert(find_from(s@, p@, i + 1) is None);
            return None;
        }
        i += 1;
    }
    None
}

/// The first position, counted in characters, at which `p` occurs in `s`.
pub fn find(s: &str, p: &str) -> (r: Option<usize>)
    ensures
        match r {
            Some(i) => find_in(s@, p@) == Some(i as int),
            None => find_in(s@, p@) is None,
        },
{
    find_chars(&chars_of(s), &chars_of(p), 0)
}

/// Whether `p` occurs in `s`.
pub open spec fn contains_seq<T>(s: Seq<T>, p: Seq<T>) -> bool {
    exists|i: int| occurs_at(s, p, i)
}

/// Whether `p` occurs in `s`.
pub fn contains(s: &str, p: &str) -> (r: bool)
    ensures
        r == contains_seq(s@, p@),
        r == (find_in(s@, p@) is Some),
{
    proof {
        lemma_find_from(s@, p@, 0);
    }
    match find(s, p) {
        Some(_) => true,
        None => {
            assert(forall|j: int| occurs_at(s@, p@, j) ==> 0 <= j);
            false
        },
    }
}

/// Whether `c` occurs in `s`.
pub fn contains_char(s: &str, c: char) -> (r: bool)
    ensures
        r == s@.contains(c),
{
    let v = chars_of(s);
    let mut i: usize = 0;
    while i < v.len()
        invariant
            i <= v.len(),
            v@ == s@,
            forall|j: int| 0 <= j < i ==> s@[j] != c,
        decreases v.len() - i,
    {
        if v[i] == c {
            return true;
        }
        i += 1;
    }
    false
}

/// `s` starts with `p`.
pub open spec fn starts(s: Seq<char>, p: Seq<char>) -> bool {
    p.len() <= s.len() && s.take(p.len() as int) == p
}

/// `s` ends with `p`.
pub open spec fn ends(s: Seq<char>, p: Seq<char>) -> bool {
    p.len() <= s.len() && s.skip(s.len() - p.len()) == p
}

/// Whether `s` starts with `p`.
pub fn starts_with(s: &str, p: &str) -> (r: bool)
    ensures
        r == starts(s@, p@),
{
    let r = matches_at(&chars_of(s), &chars_of(p), 0);
    proof {
        if p@.len() <= s@.len() {
            assert(s@.subrange(0, p@.len() as int) =~= s@.take(p@.len() as int));
        }
    }
    r
}

/// Whether `s` ends with `p`.
pub fn ends_with(s: &str, p: &str) -> (r: bool)
    ensures
        r == ends(s@, p@),
{
    let sv = chars_of(s);
    let pv = chars_of(p);
    if pv.len() > sv.len() {
        return false;
    }
    let r = matches_at(&sv, &pv, sv.len() - pv.len());
    proof {
        assert(s@.subrange(s@.len() - p@.len(), s@.len() as int) =~= s@.skip(s@.len() - p@.len()));
    }
    r
}

/// What follows the prefix `p` in `s`, where `s` starts with it.
pub open spec fn after_prefix(s: Seq<char>, p: Seq<char>) -> Option<Seq<char>> {
    if starts(s, p) {
        Some(s.skip(p.len() as int))
    } else {
        None
    }
}

/// What precedes the suffix `p` in `s`, where `s` ends with it.
pub open spec fn before_suffix(s: Seq<char>, p: Seq<char>) -> Option<Seq<char>> {
    if ends(s, p) {
        Some(s.take(s.len() - p.len()))
    } else {
        None
    }
}

/// The view of an optional string.
pub open spec fn opt_text(o: Option<String>) -> Option<Seq<char>> {
    match o {
        Some(s) => Some(s@),
        None => None,
    }
}

/// What follows the prefix `p` in `s`, where `s` starts with it.
pub fn strip_prefix(s: &str, p: &str) -> (r: Option<String>)
    ensures
        opt_text(r) == after_prefix(s@, p@),
{
    if !starts_with(s, p) {
        return None;
    }
    let v = chars_of(s);
    let k = chars_of(p).len();
    let r = slice_string(&v, k, v.len());
    assert(s@.subrange(k as int, s@.len() as int) =~= s@.skip(k as int));
    Some(r)
}

/// What precedes the suffix `p` in `s`, where `s` ends with it.
pub fn strip_suffix(s: &str, p: &str) -> (r: Option<String>)
    ensures
        opt_text(r) == before_suffix(s@, p@),
{
    if !ends_with(s, p) {
        return None;
    }
    let v = chars_of(s);
    let k = v.len() - chars_of(p).len();
    let r = slice_string(&v, 0, k);
    assert(s@.subrange(0, k as int) =~= s@.take(k as int));
    Some(r)
}

// ---------------------------------------------------------------------------
// Trimming

/// `s` without the `c`s it starts with.
pub open spec fn trim_start(s: Seq<char>, c: char) -> Seq<char>
    decreases s.len(),
{
    if s.len() > 0 && s[0] == c {
        trim_start(s.skip(1), c)
    } else {
        s
    }
}

/// `s` without the `c`s it ends with.
pub open spec fn trim_end(s: Seq<char>, c: char) -> Seq<char>
    decreases s.len(),
{
    if s.len() > 0 && s.last() == c {
        trim_end(s.drop_last(), c)
    } else {
        s
    }
}

/// `s` without the `c`s at either end.
pub open spec fn trim_both(s: Seq<char>, c: char) -> Seq<char> {
    trim_end(trim_start(s, c), c)
}

/// `s` without the `c`s it starts with.
pub fn trim_start_char(s: &str, c: char) -> (r: String)
    ensures
        r@ == trim_start(s@, c),
{
    let v = chars_of(s);
    let mut i: usize = 0;
    assert(s@.skip(0) =~= s@);
    while i < v.len() && v[i] == c
        invariant
            i <= v.len(),
            v@ == s@,
            trim_start(s@.skip(i as int), c) == trim_start(s@, c),
        decreases v.len() - i,
    {
        assert(s@.skip(i as int).skip(1) =~= s@.skip(i + 1));
        i += 1;
    }
    assert(s@.subrange(i as int, s@.len() as int) =~= s@.skip(i as int));
    slice_string(&v, i, v.len())
}

/// `s` without the `c`s it ends with.
pub fn trim_end_char(s: &str, c: char) -> (r: String)
    ensures
        r@ == trim_end(s@, c),
{
    let v = chars_of(s);
    let mut i: usize = v.len();
    assert(s@.take(s@.len() as int) =~= s@);
    while i > 0 && v[i - 1] == c
        invariant
            i <= v.len(),
            v@ == s@,
            trim_end(s@.take(i as int), c) == trim_end(s@, c),
        decreases i,
    {
        assert(s@.take(i as int).drop_last() =~= s@.take(i - 1));
        i -= 1;
    }
    assert(s@.subrange(0, i as int) =~= s@.take(i as int));
    slice_string(&v, 0, i)
}

/// `s` without the `c`s at either end.
pub fn trim_char(s: &str, c: char) -> (r: String)
    ensures
        r@ == trim_both(s@, c),
{
    trim_end_char(trim_start_char(s, c).as_str(), c)
}

// ---------------------------------------------------------------------------
// Splitting and joining

/// The pieces of `s` between the separators `c`: one more than there are
/// separators.
pub open spec fn split(s: Seq<char>, c: char) -> Seq<Seq<char>>
    decreases s.len(),
{
    if s.len() == 0 {
        seq![Seq::<char>::empty()]
    } else {
        let p = split(s.drop_last(), c);
        if s.last() == c {
            p.push(Seq::empty())
        } else {
            p.drop_last().push(p.last().push(s.last()))
        }
    }
}

/// `parts` with `sep` between each two.
pub open spec fn join(parts: Seq<Seq<char>>, sep: Seq<char>) -> Seq<char>
    decreases parts.len(),
{
    if parts.len() == 0 {
        Seq::empty()
    } else if parts.len() == 1 {
        parts[0]
    } else {
        join(parts.drop_last(), sep) + sep + parts.last()
    }
}

/// A split has at least one piece, and no piece holds the separator.
pub proof fn lemma_split_pieces(s: Seq<char>, c: char)
    ensures
        split(s, c).len() >= 1,
        forall|i: int| 0 <= i < split(s, c).len() ==> !(#[trigger] split(s, c)[i]).contains(c),
    decreases s.len(),
{
    if s.len() > 0 {
        lemma_split_pieces(s.drop_last(), c);
        let p = split(s.drop_last(), c);
        if s.last() != c {
            let q = p.last().push(s.last());
            assert(!q.contains(c)) by {
                if q.contains(c) {
                    let k = choose|k: int| 0 <= k < q.len() && q[k] == c;
                    assert(k < p.last().len() ==> p.last().contains(c));
                }
            }
        }
    }
}

/// Joining the pieces of a split with its separator gives the text back.
pub proof fn lemma_split_join(s: Seq<char>, c: char)
    ensures
        join(split(s, c), seq![c]) == s,
    decreases s.len(),
{
    if s.len() > 0 {
        lemma_split_join(s.drop_last(), c);
        lemma_split_pieces(s.drop_last(), c);
        let p = split(s.drop_last(), c);
        if s.last() == c {
            assert(p.push(Seq::empty()).drop_last() =~= p);
            assert(join(p, seq![c]) + seq![c] + Seq::<char>::empty() =~= s);
        } else {
            let q = p.drop_last().push(p.last().push(s.last()));
            assert(q.drop_last() =~= p.drop_last());
            if p.len() == 1 {
                assert(q[0] =~= s);
            } else {
                assert(join(q, seq![c]) =~= join(p, seq![c]).push(s.last()));
            }
            assert(join(q, seq![c]) =~= s);
        }
    }
}

/// The pieces of `s` between the separators `c`.
pub fn split_char(s: &str, c: char) -> (r: Vec<String>)
    ensures
        texts(r@) == split(s@, c),
        r@.len() >= 1,
{
    let v = chars_of(s);
    let mut out: Vec<String> = Vec::new();
    let mut cur = String::new();
    let mut i: usize = 0;
    assert(texts(out@).push(cur@) =~= split(s@.take(0), c));
    while i < v.len()
        invariant
            i <= v.len(),
            v@ == s@,
            texts(out@).push(cur@) == split(s@.take(i as int), c),
        decreases v.len() - i,
    {
        let ghost before = split(s@.take(i as int), c);
        proof {
            assert(s@.take(i + 1).drop_last() =~= s@.take(i as int));
            assert(s@.take(i + 1).last() == s@[i as int]);
            assert(before.last() == cur@);
            assert(before.drop_last() =~= texts(out@));
        }
        if v[i] == c {
            out.push(cur);
            cur = String::new();
            assert(texts(out@) =~= before);
        } else {
            cur.push(v[i]);
        }
        i += 1;
    }
    assert(s@.take(s@.len() as int) =~= s@);
    let ghost whole = texts(out@).push(cur@);
    out.push(cur);
    assert(texts(out@) =~= whole);
    out
}

/// `parts[from..to]` with `sep` between each two.
pub fn join_texts(parts: &Vec<String>, from: usize, to: usize, sep: &str) -> (r: String)
    requires
        from <= to <= parts@.len(),
    ensures
        r@ == join(texts(parts@).subrange(from as int, to as int), sep@),
{
    let mut out = String::new();
    let mut i: usize = from;
    let ghost all = texts(parts@);
    assert(all.subrange(from as int, from as int) =~= Seq::empty());
    while i < to
        invariant
            from <= i <= to <= parts@.len(),
            all == texts(parts@),
            out@ == join(all.subrange(from as int, i as int), sep@),
        decreases to - i,
    {
        let ghost done = all.subrange(from as int, i as int);
        let ghost next = all.subrange(from as int, i + 1);
        proof {
            assert(next.drop_last() =~= done);
            assert(next.last() == parts@[i as int]@);
        }
        if i > from {
            out.append(sep);
            out.append(parts[i].as_str());
        } else {
            out.append(parts[i].as_str());
            assert(Seq::<char>::empty() + parts@[i as int]@ =~= parts@[i as int]@);
        }
        i += 1;
    }
    out
}

// ---------------------------------------------------------------------------
// Order

/// Lexicographic order by scalar value, which is also the order of the UTF-8
/// encodings.
pub open spec fn text_lt(a: Seq<char>, b: Seq<char>) -> bool
    decreases a.len(),
{
    if b.len() == 0 {
        false
    } else if a.len() == 0 {
        true
    } else if a[0] != b[0] {
        a[0] < b[0]
    } else {
        text_lt(a.skip(1), b.skip(1))
    }
}

/// No text comes before itself.
pub proof fn lemma_text_lt_irreflexive(a: Seq<char>)
    ensures
        !text_lt(a, a),
    decreases a.len(),
{
    if a.len() > 0 {
        lemma_text_lt_irreflexive(a.skip(1));
    }
}

/// The order is transitive.
pub proof fn lemma_text_lt_transitive(a: Seq<char>, b: Seq<char>, c: Seq<char>)
    requires
        text_lt(a, b),
        text_lt(b, c),
    ensures
        text_lt(a, c),
    decreases a.len(),
{
    if a.len() > 0 && a[0] == b[0] && b[0] == c[0] {
        lemma_text_lt_transitive(a.skip(1), b.skip(1), c.skip(1));
    }
}

/// Two texts that come neither before nor after each other are equal.
pub proof fn lemma_text_lt_total(a: Seq<char>, b: Seq<char>)
    ensures
        text_lt(a, b) || text_lt(b, a) || a == b,
    decreases a.len(),
{
    if a.len() == 0 && b.len() == 0 {
        assert(a =~= b);
    } else if a.len() > 0 && b.len() > 0 && a[0] == b[0] {
        lemma_text_lt_total(a.skip(1), b.skip(1));
        if a.skip(1) == b.skip(1) {
            assert(a =~= seq![a[0]] + a.skip(1));
            assert(b =~= seq![b[0]] + b.skip(1));
        }
    }
}

/// No two texts come each before the other.
pub proof fn lemma_text_lt_asymmetric(a: Seq<char>, b: Seq<char>)
    ensures
        !(text_lt(a, b) && text_lt(b, a)),
{
    if text_lt(a, b) && text_lt(b, a) {
        lemma_text_lt_transitive(a, b, a);
        lemma_text_lt_irreflexive(a);
    }
}

/// Whether `a` comes before `b`.
pub fn less(a: &str, b: &str) -> (r: bool)
    ensures
        r == text_lt(a@, b@),
{
    let x = chars_of(a);
    let y = chars_of(b);
    let mut i: usize = 0;
    assert(a@.skip(0) =~= a@);
    assert(b@.skip(0) =~= b@);
    while i < x.len() && i < y.len()
        invariant
            i <= x.len(),
            i <= y.len(),
            x@ == a@,
            y@ == b@,
            text_lt(a@, b@) == text_lt(a@.skip(i as int), b@.skip(i as int)),
        decreases x.len() - i,
    {
        assert(a@.skip(i as int)[0] == a@[i as int]);
        assert(b@.skip(i as int)[0] == b@[i as int]);
        if x[i] != y[i] {
            return x[i] < y[i];
        }
        assert(a@.skip(i as int).skip(1) =~= a@.skip(i + 1));
        assert(b@.skip(i as int).skip(1) =~= b@.skip(i + 1));
        i += 1;
    }
    i < y.len()
}

/// Strictly ascending, so free of duplicates.
pub open spec fn ascending(s: Seq<Seq<char>>) -> bool {
    forall|i: int, j: int| 0 <= i < j < s.len() ==> text_lt(s[i], s[j])
}

// ---------------------------------------------------------------------------
// Decimal numbers

/// The digit for `d`.
pub open spec fn digit(d: int) -> char {
    ('0' as int + d) as char
}

/// The decimal digits of `n`, without leading zeros.
pub open spec fn digits(n: nat) -> Seq<char>
    decreases n,
{
    if n < 10 {
        seq![digit(n as int)]
    } else {
        digits(n / 10).push(digit((n % 10) as int))
    }
}

/// The decimal form of `n`.
pub open spec fn decimal(n: int) -> Seq<char> {
    if n < 0 {
        seq!['-'] + digits((-n) as nat)
    } else {
        digits(n as nat)
    }
}

/// `c` is a decimal digit.
pub open spec fn is_digit(c: char) -> bool {
    '0' <= c <= '9'
}

/// Every character of `s` is a decimal digit.
pub open spec fn all_digits(s: Seq<char>) -> bool {
    forall|i: int| 0 <= i < s.len() ==> is_digit(#[trigger] s[i])
}

/// The number that a sequence of digits stands for.
pub open spec fn digits_value(s: Seq<char>) -> nat
    decreases s.len(),
{
    if s.len() == 0 {
        0
    } else {
        digits_value(s.drop_last()) * 10 + (s.last() as int - '0' as int) as nat
    }
}

/// The digits of a number read back as that number.
pub proof fn lemma_digits_round_trip(n: nat)
    ensures
        all_digits(digits(n)),
        digits(n).len() >= 1,
        digits_value(digits(n)) == n,
    decreases n,
{
    if n < 10 {
        assert(digits(n).drop_last() =~= Seq::<char>::empty());
        assert(digits_value(Seq::<char>::empty()) == 0);
    } else {
        lemma_digits_round_trip(n / 10);
        assert(digits(n).drop_last() =~= digits(n / 10));
    }
}

fn digit_char(d: u64) -> (c: char)
    requires
        d < 10,
    ensures
        c == digit(d as int),
{
    let b: u8 = 48u8 + d as u8;
    b as char
}

/// The decimal digits of `n`.
pub fn utoa(n: u64) -> (r: String)
    ensures
        r@ == digits(n as nat),
    decreases n,
{
    if n < 10 {
        let mut s = String::new();
        s.push(digit_char(n));
        assert(s@ =~= digits(n as nat));
        s
    } else {
        let mut s = utoa(n / 10);
        s.push(digit_char(n % 10));
        s
    }
}

/// The decimal form of `n`.
pub fn itoa(n: i64) -> (r: String)
    ensures
        r@ == decimal(n as int),
{
    if n < 0 {
        let m: u64 = if n == i64::MIN {
            0x8000_0000_0000_0000
        } else {
            (-n) as u64
        };
        let mut s = String::new();
        s.push('-');
        s.append(utoa(m).as_str());
        assert(s@ =~= seq!['-'] + digits(m as nat));
        s
    } else {
        utoa(n as u64)
    }
}

/// The number that `s` stands for: an optional sign, then at least one digit.
pub open spec fn int_value(s: Seq<char>) -> Option<int> {
    let body = if s.len() > 0 && (s[0] == '-' || s[0] == '+') {
        s.skip(1)
    } else {
        s
    };
    if body.len() == 0 || !all_digits(body) {
        None
    } else if s[0] == '-' {
        Some(-(digits_value(body) as int))
    } else {
        Some(digits_value(body) as int)
    }
}

/// The number that `s` stands for, where it fits 64 bits with a sign.
pub open spec fn i64_value(s: Seq<char>) -> Option<int> {
    match int_value(s) {
        Some(n) => if i64::MIN <= n <= i64::MAX {
            Some(n)
        } else {
            None
        },
        None => None,
    }
}

/// Reads a signed 64-bit number in decimal.
pub fn parse_i64(s: &str) -> (r: Option<i64>)
    ensures
        match r {
            Some(n) => i64_value(s@) == Some(n as int),
            None => i64_value(s@) is None,
        },
{
    let v = chars_of(s);
    if v.len() == 0 {
        return None;
    }
    let neg = v[0] == '-';
    let start: usize = if neg || v[0] == '+' {
        1
    } else {
        0
    };
    let ghost body = s@.skip(start as int);
    if start == 0 {
        assert(body =~= s@);
    }
    if v.len() == start {
        return None;
    }
    let mut value: u64 = 0;
    let mut big = false;
    let mut i: usize = start;
    while i < v.len()
        invariant
            start <= i <= v.len(),
            v@ == s@,
            s@.len() > 0,
            neg == (s@[0] == '-'),
            start == (if neg || s@[0] == '+' {
                1int
            } else {
                0int
            }),
            body == s@.skip(start as int),
            start == 0 ==> body == s@,
            forall|k: int| 0 <= k < i - start ==> is_digit(body[k]),
            big ==> digits_value(body.take(i - start)) > 0x8000_0000_0000_0000,
            !big ==> digits_value(body.take(i - start)) == value,
            value <= 0x8000_0000_0000_0000,
        decreases v.len() - i,
    {
        let c = v[i];
        assert(body[i - start] == c);
        if c < '0' || c > '9' {
            assert(!is_digit(body[i - start]));
            assert(!all_digits(body));
            assert(int_value(s@) is None);
            return None;
        }
        let d: u64 = (c as u8 - 48u8) as u64;
        proof {
            assert(body.take(i + 1 - start).drop_last() =~= body.take(i - start));
            assert(body.take(i + 1 - start).last() == c);
        }
        if !big {
            if value > 922_337_203_685_477_580 || value * 10 + d > 0x8000_0000_0000_0000 {
                big = true;
            } else {
                value = value * 10 + d;
            }
        }
        i += 1;
    }
    assert(body.take(body.len() as int) =~= body);
    if big {
        return None;
    }
    if neg {
        if value == 0x8000_0000_0000_0000 {
            Some(i64::MIN)
        } else {
            Some(-(value as i64))
        }
    } else if value <= 0x7fff_ffff_ffff_ffff {
        Some(value as i64)
    } else {
        None
    }
}

// ---------------------------------------------------------------------------
// White space

/// White space, as Unicode lists it.
pub open spec fn is_white(c: char) -> bool {
    '\u{9}' <= c <= '\u{d}' || c == ' ' || c == '\u{85}' || c == '\u{a0}' || c == '\u{1680}'
        || '\u{2000}' <= c <= '\u{200a}' || c == '\u{2028}' || c == '\u{2029}' || c == '\u{202f}'
        || c == '\u{205f}' || c == '\u{3000}'
}

fn white(c: char) -> (r: bool)
    ensures
        r == is_white(c),
{
    ('\u{9}' <= c && c <= '\u{d}') || c == ' ' || c == '\u{85}' || c == '\u{a0}' || c == '\u{1680}'
        || ('\u{2000}' <= c && c <= '\u{200a}') || c == '\u{2028}' || c == '\u{2029}' || c
        == '\u{202f}' || c == '\u{205f}' || c == '\u{3000}'
}

/// `s` without the white space it starts with.
pub open spec fn trim_white_start(s: Seq<char>) -> Seq<char>
    decreases s.len(),
{
    if s.len() > 0 && is_white(s[0]) {
        trim_white_start(s.skip(1))
    } else {
        s
    }
}

/// `s` without the white space it ends with.
pub open spec fn trim_white_end(s: Seq<char>) -> Seq<char>
    decreases s.len(),
{
    if s.len() > 0 && is_white(s.last()) {
        trim_white_end(s.drop_last())
    } else {
        s
    }
}

/// `s` without the white space at either end.
pub open spec fn trimmed(s: Seq<char>) -> Seq<char> {
    trim_white_end(trim_white_start(s))
}

/// `s` without the white space at either end.
pub fn trim(s: &str) -> (r: String)
    ensures
        r@ == trimmed(s@),
{
    let v = chars_of(s);
    let mut i: usize = 0;
    assert(s@.skip(0) =~= s@);
    while i < v.len() && white(v[i])
        invariant
            i <= v.len(),
            v@ == s@,
            trim_white_start(s@.skip(i as int)) == trim_white_start(s@),
        decreases v.len() - i,
    {
        assert(s@.skip(i as int).skip(1) =~= s@.skip(i + 1));
        i += 1;
    }
    let ghost t = s@.skip(i as int);
    let mut j: usize = v.len();
    assert(t.take(j - i) =~= t);
    while j > i && white(v[j - 1])
        invariant
            i <= j <= v.len(),
            v@ == s@,
            t == s@.skip(i as int),
            trim_white_end(t.take(j - i)) == trim_white_end(t),
        decreases j,
    {
        assert(t.take(j - i).last() == v@[j - 1]);
        assert(t.take(j - i).drop_last() =~= t.take(j - i - 1));
        j -= 1;
    }
    proof {
        if j > i {
            assert(t.take(j - i).last() == v@[j - 1]);
        }
        assert(t.take(j - i) =~= s@.subrange(i as int, j as int));
    }
    slice_string(&v, i, j)
}

/// The pieces of `s` between white space characters, the empty ones too.
pub open spec fn white_split(s: Seq<char>) -> Seq<Seq<char>>
    decreases s.len(),
{
    if s.len() == 0 {
        seq![Seq::<char>::empty()]
    } else {
        let p = white_split(s.drop_last());
        if is_white(s.last()) {
            p.push(Seq::empty())
        } else {
            p.drop_last().push(p.last().push(s.last()))
        }
    }
}

/// Those that are not empty, in order.
pub open spec fn non_empty(s: Seq<Seq<char>>) -> Seq<Seq<char>>
    decreases s.len(),
{
    if s.len() == 0 {
        Seq::empty()
    } else if s.last().len() == 0 {
        non_empty(s.drop_last())
    } else {
        non_empty(s.drop_last()).push(s.last())
    }
}

/// The words of `s`: what stands between white space.
pub open spec fn words(s: Seq<char>) -> Seq<Seq<char>> {
    non_empty(white_split(s))
}

/// The words of `s`.
pub fn split_whitespace(s: &str) -> (r: Vec<String>)
    ensures
        texts(r@) == words(s@),
{
    let v = chars_of(s);
    let mut out: Vec<String> = Vec::new();
    let mut cur = String::new();
    let mut some = false;
    let mut i: usize = 0;
    assert(s@.take(0) =~= Seq::empty());
    assert(white_split(s@.take(0)).drop_last() =~= Seq::<Seq<char>>::empty());
    assert(texts(out@) =~= Seq::<Seq<char>>::empty());
    while i < v.len()
        invariant
            i <= v.len(),
            v@ == s@,
            some == (cur@.len() > 0),
            white_split(s@.take(i as int)).len() > 0,
            texts(out@) == non_empty(white_split(s@.take(i as int)).drop_last()),
            cur@ == white_split(s@.take(i as int)).last(),
        decreases v.len() - i,
    {
        let ghost p = white_split(s@.take(i as int));
        let ghost q = white_split(s@.take(i + 1));
        proof {
            assert(s@.take(i + 1).drop_last() =~= s@.take(i as int));
            assert(s@.take(i + 1).last() == s@[i as int]);
        }
        if white(v[i]) {
            proof {
                assert(q.drop_last() =~= p);
                assert(p =~= p.drop_last().push(p.last()));
            }
            if some {
                let ghost before = texts(out@);
                out.push(cur);
                assert(texts(out@) =~= before.push(p.last()));
            }
            cur = String::new();
            some = false;
        } else {
            cur.push(v[i]);
            some = true;
            assert(q.drop_last() =~= p.drop_last());
        }
        i += 1;
    }
    assert(s@.take(s@.len() as int) =~= s@);
    proof {
        let p = white_split(s@);
        assert(p =~= p.drop_last().push(p.last()));
    }
    if some {
        let ghost before = texts(out@);
        let ghost last = cur@;
        out.push(cur);
        assert(texts(out@) =~= before.push(last));
    }
    out
}

// ---------------------------------------------------------------------------
// Replacing

/// `s` from position `i` on with each occurrence of `p`, taken from the left,
/// replaced by `t`.
pub open spec fn replace_from(s: Seq<char>, p: Seq<char>, t: Seq<char>, i: int) -> Seq<char>
    decreases s.len() - i,
{
    if i < 0 || i >= s.len() || p.len() == 0 {
        Seq::empty()
    } else if occurs_at(s, p, i) {
        t + replace_from(s, p, t, i + p.len())
    } else {
        seq![s[i]] + replace_from(s, p, t, i + 1)
    }
}

/// `s` with each occurrence of the non-empty `p` replaced by `t`.
pub open spec fn replaced(s: Seq<char>, p: Seq<char>, t: Seq<char>) -> Seq<char> {
    replace_from(s, p, t, 0)
}

/// `s` with each occurrence of the non-empty `p` replaced by `t`.
pub fn replace(s: &str, p: &str, t: &str) -> (r: String)
    requires
        p@.len() > 0,
    ensures
        r@ == replaced(s@, p@, t@),
{
    let v = chars_of(s);
    let pv = chars_of(p);
    let mut out = String::new();
    let mut i: usize = 0;
    assert(out@ + replace_from(s@, p@, t@, 0) =~= replaced(s@, p@, t@));
    while i < v.len()
        invariant
            i <= v.len(),
            v@ == s@,
            pv@ == p@,
            p@.len() > 0,
            out@ + replace_from(s@, p@, t@, i as int) == replaced(s@, p@, t@),
        decreases v.len() - i,
    {
        let ghost before = out@;
        if matches_at(&v, &pv, i) {
            out.append(t);
            assert(before + (t@ + replace_from(s@, p@, t@, i + p@.len())) =~= out@ + replace_from(
                s@,
                p@,
                t@,
                i + p@.len(),
            ));
            i += pv.len();
        } else {
            out.push(v[i]);
            assert(before + (seq![s@[i as int]] + replace_from(s@, p@, t@, i + 1)) =~= out@
                + replace_from(s@, p@, t@, i + 1));
            i += 1;
        }
    }
    assert(out@ + Seq::<char>::empty() =~= out@);
    out
}

// ---------------------------------------------------------------------------
// Lists without duplicates

/// `s` without what occurred before.
pub open spec fn first_seen(s: Seq<Seq<char>>) -> Seq<Seq<char>>
    decreases s.len(),
{
    if s.len() == 0 {
        Seq::empty()
    } else {
        let p = first_seen(s.drop_last());
        if p.contains(s.last()) {
            p
        } else {
            p.push(s.last())
        }
    }
}

/// The list keeps every text, and keeps each once.
pub proof fn first_seen_keeps_each_once(s: Seq<Seq<char>>)
    ensures
        forall|x: Seq<char>| #[trigger] first_seen(s).contains(x) <==> s.contains(x),
        first_seen(s).no_duplicates(),
    decreases s.len(),
{
    if s.len() > 0 {
        let init = s.drop_last();
        first_seen_keeps_each_once(init);
        let p = first_seen(init);
        assert forall|x: Seq<char>| #[trigger] first_seen(s).contains(x) <==> s.contains(x) by {
            if s.contains(x) {
                let i = choose|i: int| 0 <= i < s.len() && s[i] == x;
                if i < init.len() {
                    assert(init[i] == x);
                    assert(init.contains(x));
                    assert(p.contains(x));
                    let j = choose|j: int| 0 <= j < p.len() && p[j] == x;
                    assert(first_seen(s)[j] == x);
                } else if !p.contains(x) {
                    assert(first_seen(s)[p.len() as int] == x);
                } else {
                    let j = choose|j: int| 0 <= j < p.len() && p[j] == x;
                    assert(first_seen(s)[j] == x);
                }
            }
            if first_seen(s).contains(x) {
                let j = choose|j: int| 0 <= j < first_seen(s).len() && first_seen(s)[j] == x;
                if j < p.len() {
                    assert(p[j] == x);
                    assert(p.contains(x));
                    assert(init.contains(x));
                    let i = choose|i: int| 0 <= i < init.len() && init[i] == x;
                    assert(s[i] == x);
                } else {
                    assert(s[s.len() - 1] == x);
                }
            }
        }
    }
}

/// The position at which `x` belongs in the ascending list `v`, and whether it is
/// there already.
pub fn sorted_position(v: &Vec<String>, x: &str) -> (r: (bool, usize))
    requires
        ascending(texts(v@)),
    ensures
        r.1 <= v@.len(),
        r.0 == texts(v@).contains(x@),
        r.0 ==> r.1 < v@.len() && v@[r.1 as int]@ == x@,
        forall|i: int| 0 <= i < r.1 ==> text_lt(#[trigger] texts(v@)[i], x@),
        !r.0 ==> forall|i: int| r.1 <= i < v@.len() ==> text_lt(x@, #[trigger] texts(v@)[i]),
{
    let ghost s = texts(v@);
    let mut i: usize = 0;
    while i < v.len() && less(v[i].as_str(), x)
        invariant
            i <= v@.len(),
            s == texts(v@),
            forall|j: int| 0 <= j < i ==> text_lt(#[trigger] s[j], x@),
        decreases v.len() - i,
    {
        i += 1;
    }
    proof {
        lemma_text_lt_irreflexive(x@);
    }
    if i < v.len() {
        assert(s[i as int] == v@[i as int]@);
        if same(v[i].as_str(), x) {
            assert(s.contains(x@));
            return (true, i);
        }
        proof {
            lemma_text_lt_total(s[i as int], x@);
        }
    }
    proof {
        assert forall|j: int| i <= j < s.len() implies text_lt(x@, #[trigger] s[j]) by {
            if j > i {
                lemma_text_lt_transitive(x@, s[i as int], s[j]);
            }
        }
        if s.contains(x@) {
            let j = choose|j: int| 0 <= j < s.len() && s[j] == x@;
            assert(text_lt(s[j], x@) || text_lt(x@, s[j]));
        }
    }
    (false, i)
}

/// Adds `x` to the ascending list, unless it is there.
pub fn insert_sorted(v: &mut Vec<String>, x: String)
    requires
        ascending(texts(old(v)@)),
    ensures
        ascending(texts(final(v)@)),
        forall|y: Seq<char>| #[trigger]
            texts(final(v)@).contains(y) <==> texts(old(v)@).contains(y) || y == x@,
{
    let (found, i) = sorted_position(v, x.as_str());
    if !found {
        let ghost s = texts(v@);
        let ghost k = x@;
        v.insert(i, x);
        proof {
            let t = texts(v@);
            assert(t =~= s.insert(i as int, k));
            assert forall|a: int, b: int| 0 <= a < b < t.len() implies text_lt(t[a], t[b]) by {
                let p = if a < i {
                    a
                } else {
                    a - 1
                };
                let q = if b < i {
                    b
                } else {
                    b - 1
                };
                if a != i && b != i {
                    assert(text_lt(s[p], s[q]));
                } else if a == i {
                    assert(s[q] == t[b]);
                } else {
                    assert(s[p] == t[a]);
                }
            }
            assert forall|y: Seq<char>| #[trigger] t.contains(y) <==> s.contains(y) || y == k by {
                if t.contains(y) {
                    let j = choose|j: int| 0 <= j < t.len() && t[j] == y;
                    if j < i {
                        assert(s[j] == y);
                    } else if j > i {
                        assert(s[j - 1] == y);
                    }
                }
                if s.contains(y) {
                    let j = choose|j: int| 0 <= j < s.len() && s[j] == y;
                    if j < i {
                        assert(t[j] == y);
                    } else {
                        assert(t[j + 1] == y);
                    }
                }
                assert(t[i as int] == k);
            }
        }
    }
}

/// Ascending lists that hold the same texts are equal.
pub proof fn lemma_ascending_unique(a: Seq<Seq<char>>, b: Seq<Seq<char>>)
    requires
        ascending(a),
        ascending(b),
        forall|x: Seq<char>| #[trigger] a.contains(x) <==> b.contains(x),
    ensures
        a == b,
    decreases a.len(),
{
    if a.len() == 0 {
        if b.len() > 0 {
            assert(b.contains(b[0]));
            assert(a.contains(b[0]));
        }
        assert(a =~= b);
    } else {
        assert(a.contains(a[0]));
        assert(b.contains(a[0]));
        let x = a.last();
        let y = b.last();
        assert(a.contains(x));
        assert(b.contains(y));
        assert(b.contains(x));
        assert(a.contains(y));
        let i = choose|i: int| 0 <= i < b.len() && b[i] == x;
        let j = choose|j: int| 0 <= j < a.len() && a[j] == y;
        if x != y {
            assert(text_lt(b[i], b[b.len() - 1]));
            assert(text_lt(a[j], a[a.len() - 1]));
            lemma_text_lt_asymmetric(x, y);
        }
        let a0 = a.drop_last();
        let b0 = b.drop_last();
        lemma_text_lt_irreflexive(x);
        assert forall|z: Seq<char>| #[trigger] a0.contains(z) <==> b0.contains(z) by {
            if a0.contains(z) {
                let k = choose|k: int| 0 <= k < a0.len() && a0[k] == z;
                assert(a[k] == z);
                assert(a.contains(z));
                assert(text_lt(a[k], a[a.len() - 1]));
                let m = choose|m: int| 0 <= m < b.len() && b[m] == z;
                assert(m != b.len() - 1);
                assert(b0[m] == z);
            }
            if b0.contains(z) {
                let k = choose|k: int| 0 <= k < b0.len() && b0[k] == z;
                assert(b[k] == z);
                assert(b.contains(z));
                assert(text_lt(b[k], b[b.len() - 1]));
                assert(a.contains(z));
                let m = choose|m: int| 0 <= m < a.len() && a[m] == z;
                assert(m != a.len() - 1);
                assert(a0[m] == z);
            }
        }
        lemma_ascending_unique(a0, b0);
        assert(a =~= a0.push(x));
        assert(b =~= b0.push(y));
    }
}

/// The texts of `s`, each once, in ascending order.
pub open spec fn sorted_set(s: Seq<Seq<char>>) -> Seq<Seq<char>> {
    choose|t: Seq<Seq<char>>|
        ascending(t) && forall|x: Seq<char>| #[trigger] t.contains(x) <==> s.contains(x)
}

/// An ascending list of just the texts of `s` is their sorted set.
pub proof fn lemma_sorted_set(t: Seq<Seq<char>>, s: Seq<Seq<char>>)
    requires
        ascending(t),
        forall|x: Seq<char>| #[trigger] t.contains(x) <==> s.contains(x),
    ensures
        sorted_set(s) == t,
{
    let c = sorted_set(s);
    assert(ascending(c) && forall|x: Seq<char>| #[trigger] c.contains(x) <==> s.contains(x));
    assert forall|x: Seq<char>| #[trigger] c.contains(x) <==> t.contains(x) by {
        assert(s.contains(x) <==> c.contains(x));
        assert(t.contains(x) <==> s.contains(x));
    }
    lemma_ascending_unique(c, t);
}

/// What a longer list contains.
pub proof fn lemma_push_contains(s: Seq<Seq<char>>, x: Seq<char>)
    ensures
        forall|y: Seq<char>| #[trigger] s.push(x).contains(y) <==> s.contains(y) || y == x,
{
    assert forall|y: Seq<char>| #[trigger] s.push(x).contains(y) <==> s.contains(y) || y == x by {
        let t = s.push(x);
        if s.contains(y) {
            let k = choose|k: int| 0 <= k < s.len() && s[k] == y;
            assert(t[k] == y);
        }
        if t.contains(y) {
            let k = choose|k: int| 0 <= k < t.len() && t[k] == y;
            if k < s.len() {
                assert(s[k] == y);
            }
        }
        assert(t[s.len() as int] == x);
    }
}

spec fn insert_text(t: Seq<Seq<char>>, x: Seq<char>) -> Seq<Seq<char>>
    decreases t.len(),
{
    if t.len() == 0 || text_lt(t.last(), x) {
        t.push(x)
    } else if t.last() == x {
        t
    } else {
        insert_text(t.drop_last(), x).push(t.last())
    }
}

proof fn lemma_insert_text(t: Seq<Seq<char>>, x: Seq<char>)
    requires
        ascending(t),
    ensures
        ascending(insert_text(t, x)),
        forall|y: Seq<char>| #[trigger] insert_text(t, x).contains(y) <==> t.contains(y) || y == x,
        forall|u: Seq<char>|
            (forall|i: int| 0 <= i < t.len() ==> text_lt(#[trigger] t[i], u)) && text_lt(x, u)
                ==> forall|i: int|
                0 <= i < insert_text(t, x).len() ==> text_lt(#[trigger] insert_text(t, x)[i], u),
    decreases t.len(),
{
    let r = insert_text(t, x);
    lemma_push_contains(t, x);
    if t.len() == 0 || text_lt(t.last(), x) {
        assert forall|i: int, j: int| 0 <= i < j < r.len() implies text_lt(r[i], r[j]) by {
            if j == t.len() && i < t.len() - 1 {
                assert(text_lt(t[i], t[t.len() - 1]));
                lemma_text_lt_transitive(t[i], t.last(), x);
            }
        }
    } else if t.last() == x {
        assert(t[t.len() - 1] == x);
    } else {
        let t0 = t.drop_last();
        let q = insert_text(t0, x);
        lemma_insert_text(t0, x);
        lemma_text_lt_total(t.last(), x);
        lemma_push_contains(q, t.last());
        lemma_push_contains(t0, t.last());
        assert(t =~= t0.push(t.last()));
        assert forall|i: int| 0 <= i < t0.len() implies text_lt(#[trigger] t0[i], t.last()) by {
            assert(text_lt(t[i], t[t.len() - 1]));
        }
        assert forall|i: int, j: int| 0 <= i < j < r.len() implies text_lt(r[i], r[j]) by {
            if j < q.len() {
                assert(text_lt(q[i], q[j]));
            } else {
                assert(r[i] == q[i]);
            }
        }
        assert forall|y: Seq<char>| #[trigger] r.contains(y) <==> t.contains(y) || y == x by {
            assert(q.contains(y) <==> t0.contains(y) || y == x);
            assert(q.push(t.last()).contains(y) <==> q.contains(y) || y == t.last());
            assert(t0.push(t.last()).contains(y) <==> t0.contains(y) || y == t.last());
        }
        assert forall|u: Seq<char>|
            (forall|i: int| 0 <= i < t.len() ==> text_lt(#[trigger] t[i], u)) && text_lt(
                x,
                u,
            ) implies forall|i: int| 0 <= i < r.len() ==> text_lt(#[trigger] r[i], u) by {
            assert forall|i: int| 0 <= i < t0.len() implies text_lt(#[trigger] t0[i], u) by {
                assert(text_lt(t[i], u));
            }
            assert(text_lt(t[t.len() - 1], u));
            assert forall|i: int| 0 <= i < r.len() implies text_lt(#[trigger] r[i], u) by {
                if i < q.len() {
                    assert(r[i] == q[i]);
                }
            }
        }
    }
}

proof fn lemma_sorted_set_exists(s: Seq<Seq<char>>) -> (t: Seq<Seq<char>>)
    ensures
        ascending(t),
        forall|x: Seq<char>| #[trigger] t.contains(x) <==> s.contains(x),
    decreases s.len(),
{
    if s.len() == 0 {
        s
    } else {
        let t = lemma_sorted_set_exists(s.drop_last());
        let r = insert_text(t, s.last());
        lemma_insert_text(t, s.last());
        lemma_push_contains(s.drop_last(), s.last());
        assert(s =~= s.drop_last().push(s.last()));
        assert forall|x: Seq<char>| #[trigger] r.contains(x) <==> s.contains(x) by {
            assert(t.contains(x) <==> s.drop_last().contains(x));
            assert(s.drop_last().push(s.last()).contains(x) <==> s.drop_last().contains(x) || x
                == s.last());
        }
        r
    }
}

/// A sorted set ascends and holds just the texts it is made of.
pub proof fn lemma_sorted_set_holds(s: Seq<Seq<char>>)
    ensures
        ascending(sorted_set(s)),
        forall|x: Seq<char>| #[trigger] sorted_set(s).contains(x) <==> s.contains(x),
{
    let t = lemma_sorted_set_exists(s);
    lemma_sorted_set(t, s);
}

} // verus!
