//! Character sequences: the searching, slicing and rewriting that the
//! parsers of this library are stated over.

use vstd::prelude::*;

verus! {

/// The position of the first `c` in `s`, or `s.len()` where `s` holds none.
pub open spec fn index_of(s: Seq<char>, c: char) -> nat
    decreases s.len(),
{
    if s.len() == 0 {
        0
    } else if s[0] == c {
        0
    } else {
        1 + index_of(s.drop_first(), c)
    }
}

/// Whether `c` occurs in `s`.
pub open spec fn has_char(s: Seq<char>, c: char) -> bool {
    index_of(s, c) < s.len()
}

/// The part of `s` in front of its first `c`; all of `s` where it holds none.
pub open spec fn before(s: Seq<char>, c: char) -> Seq<char> {
    s.take(index_of(s, c) as int)
}

/// The part of `s` behind its first `c`; empty where it holds none.
pub open spec fn after(s: Seq<char>, c: char) -> Seq<char> {
    if has_char(s, c) {
        s.skip(index_of(s, c) as int + 1)
    } else {
        Seq::empty()
    }
}

/// Whether `s` begins with `p`.
pub open spec fn has_prefix(s: Seq<char>, p: Seq<char>) -> bool {
    p.len() <= s.len() && s.take(p.len() as int) == p
}

/// The position of the first occurrence of `p` in `s`, or `s.len()` where
/// there is none. Meant for a non-empty `p`.
pub open spec fn find(s: Seq<char>, p: Seq<char>) -> nat
    decreases s.len(),
{
    if has_prefix(s, p) {
        0
    } else if s.len() == 0 {
        0
    } else {
        1 + find(s.drop_first(), p)
    }
}

/// Whether `p` occurs in `s`.
pub open spec fn has_seq(s: Seq<char>, p: Seq<char>) -> bool {
    find(s, p) + p.len() <= s.len()
}

/// `index_of` lies within `s`, nothing in front of it is `c`, and where it is
/// short of the end it points at a `c`.
pub proof fn lemma_index_of(s: Seq<char>, c: char)
    ensures
        0 <= index_of(s, c) <= s.len(),
        forall|j: int| 0 <= j < index_of(s, c) ==> s[j] != c,
        index_of(s, c) < s.len() ==> s[index_of(s, c) as int] == c,
    decreases s.len(),
{
    if s.len() > 0 && s[0] != c {
        let t = s.drop_first();
        lemma_index_of(t, c);
        assert forall|j: int| 0 <= j < index_of(s, c) implies s[j] != c by {
            if j > 0 {
                assert(s[j] == t[j - 1]);
            }
        }
    }
}

/// The position that `lemma_index_of` describes is the only one.
pub proof fn lemma_index_of_is(s: Seq<char>, c: char, i: int)
    requires
        0 <= i <= s.len(),
        forall|j: int| 0 <= j < i ==> s[j] != c,
        i < s.len() ==> s[i] == c,
    ensures
        index_of(s, c) == i,
    decreases s.len(),
{
    if i > 0 {
        let t = s.drop_first();
        assert forall|j: int| 0 <= j < i - 1 implies t[j] != c by {
            assert(t[j] == s[j + 1]);
        }
        lemma_index_of_is(t, c, i - 1);
    }
}

/// `find` lies within `s`, no occurrence of `p` starts in front of it, and
/// where `p` occurs at all one starts there.
pub proof fn lemma_find(s: Seq<char>, p: Seq<char>)
    requires
        p.len() > 0,
    ensures
        0 <= find(s, p) <= s.len(),
        forall|j: int| 0 <= j < find(s, p) ==> !has_prefix(s.skip(j), p),
        find(s, p) < s.len() ==> has_prefix(s.skip(find(s, p) as int), p),
        find(s, p) < s.len() ==> find(s, p) + p.len() <= s.len(),
    decreases s.len(),
{
    if has_prefix(s, p) {
        assert(s.skip(0) =~= s);
    } else if s.len() > 0 {
        let t = s.drop_first();
        lemma_find(t, p);
        assert forall|j: int| 0 <= j < find(s, p) implies !has_prefix(s.skip(j), p) by {
            if j > 0 {
                assert(s.skip(j) =~= t.skip(j - 1));
            } else {
                assert(s.skip(0) =~= s);
            }
        }
        assert(s.skip(find(s, p) as int) =~= t.skip(find(t, p) as int));
    }
}

/// The position that `lemma_find` describes is the only one.
pub proof fn lemma_find_is(s: Seq<char>, p: Seq<char>, i: int)
    requires
        p.len() > 0,
        0 <= i <= s.len(),
        forall|j: int| 0 <= j < i ==> !has_prefix(s.skip(j), p),
        i < s.len() ==> has_prefix(s.skip(i), p),
    ensures
        find(s, p) == i,
    decreases s.len(),
{
    assert(s.skip(0) =~= s);
    if i > 0 {
        let t = s.drop_first();
        assert forall|j: int| 0 <= j < i - 1 implies !has_prefix(t.skip(j), p) by {
            assert(t.skip(j) =~= s.skip(j + 1));
        }
        assert(t.skip(i - 1) =~= s.skip(i));
        lemma_find_is(t, p, i - 1);
    }
}

/// Whether `s` holds no `c`.
pub open spec fn lacks(s: Seq<char>, c: char) -> bool {
    forall|i: int| 0 <= i < s.len() ==> s[i] != c
}

/// `lacks` and `has_char` are each other's opposite.
pub proof fn lemma_lacks(s: Seq<char>, c: char)
    ensures
        lacks(s, c) <==> !has_char(s, c),
{
    lemma_index_of(s, c);
    if lacks(s, c) {
        lemma_index_of_is(s, c, s.len() as int);
    }
}

/// The first `c` of `a + b` is the first `c` of `a`, or where `a` holds
/// none the first `c` of `b`.
pub proof fn lemma_index_of_concat(a: Seq<char>, b: Seq<char>, c: char)
    ensures
        lacks(a, c) ==> index_of(a + b, c) == a.len() + index_of(b, c),
        !lacks(a, c) ==> index_of(a + b, c) == index_of(a, c),
{
    lemma_lacks(a, c);
    lemma_index_of(a, c);
    lemma_index_of(b, c);
    let s = a + b;
    if lacks(a, c) {
        let i = (a.len() + index_of(b, c)) as int;
        assert forall|j: int| 0 <= j < i implies s[j] != c by {
            if j >= a.len() {
                assert(s[j] == b[j - a.len()]);
            }
        }
        if i < s.len() {
            assert(s[i] == b[i - a.len()]);
        }
        lemma_index_of_is(s, c, i);
    } else {
        let i = index_of(a, c) as int;
        assert forall|j: int| 0 <= j < i implies s[j] != c by {
            assert(s[j] == a[j]);
        }
        assert(s[i] == a[i]);
        lemma_index_of_is(s, c, i);
    }
}

/// Where `a` holds no `c`, the first `c` of `a + c + b` stands between the
/// two: `a` is in front of it and `b` behind.
pub proof fn lemma_cut(a: Seq<char>, b: Seq<char>, c: char)
    requires
        lacks(a, c),
    ensures
        has_char(a + seq![c] + b, c),
        before(a + seq![c] + b, c) == a,
        after(a + seq![c] + b, c) == b,
{
    let s = a + seq![c] + b;
    assert(s =~= a + (seq![c] + b));
    lemma_index_of_concat(a, seq![c] + b, c);
    assert((seq![c] + b)[0] == c);
    assert(index_of(seq![c] + b, c) == 0);
    assert(s.take(a.len() as int) =~= a);
    assert(s.skip(a.len() as int + 1) =~= b);
}

/// A text that holds no `c` is its own part in front of the first `c`, and
/// one piece when split at `c`.
pub proof fn lemma_whole(s: Seq<char>, c: char)
    requires
        lacks(s, c),
    ensures
        before(s, c) == s,
        after(s, c) == Seq::<char>::empty(),
        split(s, c) == seq![s],
{
    lemma_lacks(s, c);
    lemma_index_of(s, c);
    assert(s.take(s.len() as int) =~= s);
}

/// What stands in front of the first `c` holds no `c`, and neither part
/// holds a character that the whole lacks.
pub proof fn lemma_parts_lack(s: Seq<char>, c: char, d: char)
    ensures
        lacks(before(s, c), c),
        lacks(s, d) ==> lacks(before(s, c), d) && lacks(after(s, c), d),
{
    lemma_index_of(s, c);
    let i = index_of(s, c) as int;
    assert forall|j: int| 0 <= j < before(s, c).len() implies before(s, c)[j] != c by {
        assert(before(s, c)[j] == s[j]);
    }
    if lacks(s, d) {
        assert forall|j: int| 0 <= j < before(s, c).len() implies before(s, c)[j] != d by {
            assert(before(s, c)[j] == s[j]);
        }
        assert forall|j: int| 0 <= j < after(s, c).len() implies after(s, c)[j] != d by {
            assert(after(s, c)[j] == s[j + i + 1]);
        }
    }
}

/// No piece of a split holds the separator, nor a character that the whole
/// lacks; and there is at least one piece.
pub proof fn lemma_split_pieces(s: Seq<char>, c: char, d: char)
    ensures
        split(s, c).len() >= 1,
        forall|k: int| 0 <= k < split(s, c).len() ==> lacks(#[trigger] split(s, c)[k], c),
        lacks(s, d) ==> forall|k: int|
            0 <= k < split(s, c).len() ==> lacks(#[trigger] split(s, c)[k], d),
    decreases s.len(),
{
    lemma_lacks(s, c);
    lemma_parts_lack(s, c, d);
    lemma_index_of(s, c);
    if has_char(s, c) {
        let rest = split(after(s, c), c);
        lemma_split_pieces(after(s, c), c, d);
        assert forall|k: int| 0 <= k < split(s, c).len() implies lacks(
            #[trigger] split(s, c)[k],
            c,
        ) by {
            if k > 0 {
                assert(split(s, c)[k] == rest[k - 1]);
            }
        }
        if lacks(s, d) {
            assert forall|k: int| 0 <= k < split(s, c).len() implies lacks(
                #[trigger] split(s, c)[k],
                d,
            ) by {
                if k > 0 {
                    assert(split(s, c)[k] == rest[k - 1]);
                }
            }
        }
    }
}

/// Splitting `a + c + b` at `c` gives the pieces of `a` and then the pieces
/// of `b`.
pub proof fn lemma_split_concat(a: Seq<char>, b: Seq<char>, c: char)
    ensures
        split(a + seq![c] + b, c) == split(a, c) + split(b, c),
    decreases a.len(),
{
    let s = a + seq![c] + b;
    lemma_lacks(a, c);
    lemma_index_of(a, c);
    if lacks(a, c) {
        lemma_cut(a, b, c);
        lemma_whole(a, c);
        assert(split(s, c) =~= split(a, c) + split(b, c));
    } else {
        let i = index_of(a, c) as int;
        assert(s =~= a + (seq![c] + b));
        lemma_index_of_concat(a, seq![c] + b, c);
        assert(before(s, c) =~= before(a, c));
        assert(after(s, c) =~= after(a, c) + seq![c] + b);
        lemma_index_of(s, c);
        lemma_split_concat(after(a, c), b, c);
        assert(split(s, c) =~= split(a, c) + split(b, c));
    }
}

/// Appends one character to a `String`, by `String::push`: the string
/// afterwards is the string before with `c` behind it.
#[verifier::external_body]
fn push_char(s: &mut String, c: char)
    ensures
        final(s)@ == old(s)@.push(c),
{
    s.push(c);
}

/// The characters of `s`, in order.
pub fn to_chars(s: &str) -> (v: Vec<char>)
    ensures
        v@ == s@,
{
    let mut v: Vec<char> = Vec::new();
    for c in it: s.chars()
        invariant
            v@ == s@.take(it.index() as int),
            it.seq() == s@,
    {
        v.push(c);
    }
    v
}

/// The string that holds the characters of `v`, in order.
pub fn from_chars(v: &Vec<char>) -> (s: String)
    ensures
        s@ == v@,
{
    let mut s = String::new();
    let mut i: usize = 0;
    while i < v.len()
        invariant
            i <= v.len(),
            s@ == v@.take(i as int),
        decreases v.len() - i,
    {
        push_char(&mut s, v[i]);
        i += 1;
    }
    s
}

/// A copy of `v[from..to]`.
pub fn slice(v: &Vec<char>, from: usize, to: usize) -> (r: Vec<char>)
    requires
        from <= to <= v.len(),
    ensures
        r@ == v@.subrange(from as int, to as int),
{
    let mut r: Vec<char> = Vec::new();
    let mut i: usize = from;
    while i < to
        invariant
            from <= i <= to <= v.len(),
            r@ == v@.subrange(from as int, i as int),
        decreases to - i,
    {
        r.push(v[i]);
        i += 1;
    }
    r
}

/// Appends the characters of `src` to `dst`.
pub fn extend(dst: &mut Vec<char>, src: &Vec<char>)
    ensures
        final(dst)@ == old(dst)@ + src@,
{
    let mut i: usize = 0;
    while i < src.len()
        invariant
            i <= src.len(),
            dst@ == old(dst)@ + src@.take(i as int),
        decreases src.len() - i,
    {
        dst.push(src[i]);
        i += 1;
    }
}

/// Whether two character vectors hold the same text.
pub fn same(a: &Vec<char>, b: &Vec<char>) -> (r: bool)
    ensures
        r == (a@ == b@),
{
    if a.len() != b.len() {
        return false;
    }
    let mut i: usize = 0;
    while i < a.len()
        invariant
            i <= a.len(),
            a.len() == b.len(),
            a@.take(i as int) == b@.take(i as int),
        decreases a.len() - i,
    {
        if a[i] != b[i] {
            return false;
        }
        assert(a@.take(i + 1) =~= a@.take(i as int).push(a@[i as int]));
        assert(b@.take(i + 1) =~= b@.take(i as int).push(b@[i as int]));
        i += 1;
    }
    assert(a@ =~= a@.take(a.len() as int));
    assert(b@ =~= b@.take(b.len() as int));
    true
}

/// Whether `p` stands in `v` at position `at`.
pub fn matches_at(v: &Vec<char>, at: usize, p: &Vec<char>) -> (r: bool)
    requires
        at <= v.len(),
    ensures
        r == has_prefix(v@.skip(at as int), p@),
{
    if p.len() > v.len() - at {
        return false;
    }
    let ghost tail = v@.skip(at as int);
    let mut i: usize = 0;
    while i < p.len()
        invariant
            i <= p.len(),
            at + p.len() <= v.len(),
            tail == v@.skip(at as int),
            tail.take(i as int) == p@.take(i as int),
        decreases p.len() - i,
    {
        if v[at + i] != p[i] {
            assert(tail.take(p.len() as int)[i as int] != p@[i as int]);
            return false;
        }
        assert(tail.take(i + 1) =~= tail.take(i as int).push(tail[i as int]));
        assert(p@.take(i + 1) =~= p@.take(i as int).push(p@[i as int]));
        i += 1;
    }
    assert(p@ =~= p@.take(p.len() as int));
    true
}

/// Whether `v` begins with `p`.
pub fn starts_with(v: &Vec<char>, p: &Vec<char>) -> (r: bool)
    ensures
        r == has_prefix(v@, p@),
{
    assert(v@.skip(0) =~= v@);
    matches_at(v, 0, p)
}

/// The position of the first `c` at or behind `from`, or `v.len()`.
pub fn find_char_from(v: &Vec<char>, c: char, from: usize) -> (i: usize)
    requires
        from <= v.len(),
    ensures
        from <= i <= v.len(),
        i - from == index_of(v@.skip(from as int), c),
{
    let ghost tail = v@.skip(from as int);
    let mut i: usize = from;
    while i < v.len() && v[i] != c
        invariant
            from <= i <= v.len(),
            tail == v@.skip(from as int),
            forall|j: int| 0 <= j < i - from ==> tail[j] != c,
        decreases v.len() - i,
    {
        i += 1;
    }
    proof {
        lemma_index_of_is(tail, c, i - from);
    }
    i
}

/// The position of the first `c` in `v`, or `v.len()`.
pub fn find_char(v: &Vec<char>, c: char) -> (i: usize)
    ensures
        i == index_of(v@, c),
        i <= v.len(),
{
    assert(v@.skip(0) =~= v@);
    find_char_from(v, c, 0)
}

/// The position of the first occurrence of `p` in `v`, or `v.len()`.
pub fn find_seq(v: &Vec<char>, p: &Vec<char>) -> (i: usize)
    requires
        p.len() > 0,
    ensures
        i == find(v@, p@),
        i <= v.len(),
{
    let mut i: usize = 0;
    while i < v.len()
        invariant
            i <= v.len(),
            p.len() > 0,
            forall|j: int| 0 <= j < i ==> !has_prefix(v@.skip(j), p@),
        decreases v.len() - i,
    {
        if matches_at(v, i, p) {
            proof {
                lemma_find_is(v@, p@, i as int);
            }
            return i;
        }
        i += 1;
    }
    proof {
        lemma_find_is(v@, p@, i as int);
    }
    i
}

/// Whether `c` is white space: the characters with Unicode's `White_Space`
/// property.
pub open spec fn is_space(c: char) -> bool {
    ||| ('\u{9}' <= c && c <= '\u{d}')
    ||| c == ' '
    ||| c == '\u{85}'
    ||| c == '\u{a0}'
    ||| c == '\u{1680}'
    ||| ('\u{2000}' <= c && c <= '\u{200a}')
    ||| c == '\u{2028}'
    ||| c == '\u{2029}'
    ||| c == '\u{202f}'
    ||| c == '\u{205f}'
    ||| c == '\u{3000}'
}

/// `s` without the white space at its front.
pub open spec fn trim_start(s: Seq<char>) -> Seq<char>
    decreases s.len(),
{
    if s.len() > 0 && is_space(s[0]) {
        trim_start(s.drop_first())
    } else {
        s
    }
}

/// `s` without the white space at its end.
pub open spec fn trim_end(s: Seq<char>) -> Seq<char>
    decreases s.len(),
{
    if s.len() > 0 && is_space(s.last()) {
        trim_end(s.drop_last())
    } else {
        s
    }
}

/// `s` without the white space at either end.
pub open spec fn trim(s: Seq<char>) -> Seq<char> {
    trim_end(trim_start(s))
}

/// Whether `s` holds nothing but white space.
pub open spec fn is_blank(s: Seq<char>) -> bool {
    trim(s).len() == 0
}

/// The position of the first white-space character of `s`, or `s.len()`
/// where `s` holds none.
pub open spec fn space_index(s: Seq<char>) -> nat
    decreases s.len(),
{
    if s.len() == 0 {
        0
    } else if is_space(s[0]) {
        0
    } else {
        1 + space_index(s.drop_first())
    }
}

/// The second token of `s`, where each white-space character parts two
/// tokens: what stands between the first white-space character of `s` and
/// the next one, or the end. Two white-space characters side by side have
/// an empty token between them. `None` where `s` holds no white space.
pub open spec fn second_token(s: Seq<char>) -> Option<Seq<char>> {
    if space_index(s) < s.len() {
        let rest = s.skip(space_index(s) as int + 1);
        Some(rest.take(space_index(rest) as int))
    } else {
        None
    }
}

/// `s` with each occurrence of `p` replaced by `r`, taking occurrences from
/// the left and never inside an earlier one. An empty `p` replaces nothing.
pub open spec fn replace_all(s: Seq<char>, p: Seq<char>, r: Seq<char>) -> Seq<char>
    decreases s.len(),
{
    if p.len() == 0 || s.len() == 0 {
        s
    } else if has_prefix(s, p) {
        r + replace_all(s.skip(p.len() as int), p, r)
    } else {
        seq![s[0]] + replace_all(s.drop_first(), p, r)
    }
}

/// The pieces of `s` between its occurrences of `c`: one more piece than
/// there are occurrences.
pub open spec fn split(s: Seq<char>, c: char) -> Seq<Seq<char>>
    decreases s.len(),
{
    if has_char(s, c) {
        seq![before(s, c)] + split(after(s, c), c)
    } else {
        seq![s]
    }
}

/// `l` without one carriage return at its end.
pub open spec fn strip_cr(l: Seq<char>) -> Seq<char> {
    if l.len() > 0 && l.last() == '\r' {
        l.drop_last()
    } else {
        l
    }
}

/// The lines of `s`. A line ends at a line feed, or at a carriage return
/// directly followed by one; neither is part of the line. What stands behind
/// the last line feed is a line of its own unless it is empty.
pub open spec fn lines(s: Seq<char>) -> Seq<Seq<char>>
    decreases s.len(),
{
    if s.len() == 0 {
        Seq::empty()
    } else if has_char(s, '\n') {
        seq![strip_cr(before(s, '\n'))] + lines(after(s, '\n'))
    } else {
        seq![s]
    }
}

/// Whether `c` is an ASCII decimal digit.
pub open spec fn is_digit(c: char) -> bool {
    '0' <= c && c <= '9'
}

/// The number that the digit `c` stands for.
pub open spec fn digit_value(c: char) -> nat {
    (c as u32 - '0' as u32) as nat
}

/// The digit that stands for `d`, for `d` below ten.
pub open spec fn digit_char(d: nat) -> char {
    if d == 0 {
        '0'
    } else if d == 1 {
        '1'
    } else if d == 2 {
        '2'
    } else if d == 3 {
        '3'
    } else if d == 4 {
        '4'
    } else if d == 5 {
        '5'
    } else if d == 6 {
        '6'
    } else if d == 7 {
        '7'
    } else if d == 8 {
        '8'
    } else {
        '9'
    }
}

/// The number that the decimal digits `s` spell.
pub open spec fn number(s: Seq<char>) -> nat
    decreases s.len(),
{
    if s.len() == 0 {
        0
    } else {
        number(s.drop_last()) * 10 + digit_value(s.last())
    }
}

/// Whether `s` holds decimal digits only.
pub open spec fn all_digits(s: Seq<char>) -> bool {
    forall|i: int| 0 <= i < s.len() ==> is_digit(#[trigger] s[i])
}

/// `s` without one plus sign at its front.
pub open spec fn unsigned(s: Seq<char>) -> Seq<char> {
    if s.len() > 0 && s[0] == '+' {
        s.skip(1)
    } else {
        s
    }
}

/// The 16-bit number that `s` spells: an optional plus sign, then one or more
/// decimal digits and nothing else, the value at most 65535.
pub open spec fn parse_u16(s: Seq<char>) -> Option<u16> {
    let d = unsigned(s);
    if d.len() > 0 && all_digits(d) && number(d) <= 65535 {
        Some(number(d) as u16)
    } else {
        None
    }
}

/// The decimal digits of `n`, without leading zeros.
pub open spec fn decimal(n: nat) -> Seq<char>
    decreases n,
{
    if n < 10 {
        seq![digit_char(n)]
    } else {
        decimal(n / 10).push(digit_char(n % 10))
    }
}

/// Where the white space at the front of `s` ends, `trim_start` begins.
pub proof fn lemma_trim_start_is(s: Seq<char>, a: int)
    requires
        0 <= a <= s.len(),
        forall|j: int| 0 <= j < a ==> is_space(s[j]),
        a < s.len() ==> !is_space(s[a]),
    ensures
        trim_start(s) == s.skip(a),
    decreases s.len(),
{
    if a > 0 {
        let t = s.drop_first();
        assert forall|j: int| 0 <= j < a - 1 implies is_space(t[j]) by {
            assert(t[j] == s[j + 1]);
        }
        lemma_trim_start_is(t, a - 1);
        assert(t.skip(a - 1) =~= s.skip(a));
    } else {
        assert(s.skip(0) =~= s);
    }
}

/// Where the white space at the end of `s` begins, `trim_end` ends.
pub proof fn lemma_trim_end_is(s: Seq<char>, b: int)
    requires
        0 <= b <= s.len(),
        forall|j: int| b <= j < s.len() ==> is_space(s[j]),
        b > 0 ==> !is_space(s[b - 1]),
    ensures
        trim_end(s) == s.take(b),
    decreases s.len(),
{
    if b < s.len() {
        let t = s.drop_last();
        lemma_trim_end_is(t, b);
        assert(t.take(b) =~= s.take(b));
    } else {
        assert(s.take(b) =~= s);
    }
}

/// The digits of a prefix spell no more than the digits of the whole.
pub proof fn lemma_number_prefix(s: Seq<char>, k: int)
    requires
        0 <= k <= s.len(),
        all_digits(s),
    ensures
        number(s.take(k)) <= number(s),
    decreases s.len() - k,
{
    if k < s.len() {
        let t = s.take(k + 1);
        assert(t.drop_last() =~= s.take(k));
        assert(t.last() == s[k]);
        assert(is_digit(s[k]));
        lemma_number_prefix(s, k + 1);
    } else {
        assert(s.take(k) =~= s);
    }
}

/// A position with no white space in front of it that holds white space,
/// or is the end of `s`, is `space_index`.
pub proof fn lemma_space_index_is(s: Seq<char>, i: int)
    requires
        0 <= i <= s.len(),
        forall|j: int| 0 <= j < i ==> !is_space(s[j]),
        i < s.len() ==> is_space(s[i]),
    ensures
        space_index(s) == i,
    decreases s.len(),
{
    if i > 0 {
        let t = s.drop_first();
        assert forall|j: int| 0 <= j < i - 1 implies !is_space(t[j]) by {
            assert(t[j] == s[j + 1]);
        }
        lemma_space_index_is(t, i - 1);
    }
}

/// Tests whether `c` is white space.
pub fn char_is_space(c: char) -> (r: bool)
    ensures
        r == is_space(c),
{
    ('\u{9}' <= c && c <= '\u{d}') || c == ' ' || c == '\u{85}' || c == '\u{a0}' || c
        == '\u{1680}' || ('\u{2000}' <= c && c <= '\u{200a}') || c == '\u{2028}' || c
        == '\u{2029}' || c == '\u{202f}' || c == '\u{205f}' || c == '\u{3000}'
}

/// The position of the first white-space character at or behind `from`, or
/// `v.len()`.
pub fn find_space_from(v: &Vec<char>, from: usize) -> (i: usize)
    requires
        from <= v.len(),
    ensures
        from <= i <= v.len(),
        i - from == space_index(v@.skip(from as int)),
{
    let ghost tail = v@.skip(from as int);
    let mut i: usize = from;
    while i < v.len() && !char_is_space(v[i])
        invariant
            from <= i <= v.len(),
            tail == v@.skip(from as int),
            forall|j: int| 0 <= j < i - from ==> !is_space(tail[j]),
        decreases v.len() - i,
    {
        i += 1;
    }
    proof {
        lemma_space_index_is(tail, i - from);
    }
    i
}

/// The second token of `v`, where each white-space character parts two
/// tokens.
pub fn second_word(v: &Vec<char>) -> (r: Option<Vec<char>>)
    ensures
        match r {
            Some(word) => second_token(v@) == Some(word@),
            None => second_token(v@) is None,
        },
{
    assert(v@.skip(0) =~= v@);
    let first = find_space_from(v, 0);
    if first < v.len() {
        let next = find_space_from(v, first + 1);
        assert(v@.skip(first + 1).take(next - (first + 1)) =~= v@.subrange(
            first + 1,
            next as int,
        ));
        Some(slice(v, first + 1, next))
    } else {
        None
    }
}

/// `v` without the white space at either end.
pub fn trimmed(v: &Vec<char>) -> (r: Vec<char>)
    ensures
        r@ == trim(v@),
{
    let mut a: usize = 0;
    while a < v.len() && char_is_space(v[a])
        invariant
            a <= v.len(),
            forall|j: int| 0 <= j < a ==> is_space(v@[j]),
        decreases v.len() - a,
    {
        a += 1;
    }
    let mut b: usize = v.len();
    while b > a && char_is_space(v[b - 1])
        invariant
            a <= b <= v.len(),
            forall|j: int| b <= j < v.len() ==> is_space(v@[j]),
        decreases b,
    {
        b -= 1;
    }
    proof {
        lemma_trim_start_is(v@, a as int);
        let t = v@.skip(a as int);
        assert(b > a ==> t[b - a - 1] == v@[b - 1]);
        lemma_trim_end_is(t, b - a);
        assert(t.take(b - a) =~= v@.subrange(a as int, b as int));
    }
    slice(v, a, b)
}

/// `v` with each occurrence of `p` replaced by `r`.
pub fn replaced(v: &Vec<char>, p: &Vec<char>, r: &Vec<char>) -> (out: Vec<char>)
    requires
        p.len() > 0,
    ensures
        out@ == replace_all(v@, p@, r@),
{
    let mut out: Vec<char> = Vec::new();
    let mut i: usize = 0;
    assert(v@.skip(0) =~= v@);
    while i < v.len()
        invariant
            i <= v.len(),
            p.len() > 0,
            replace_all(v@, p@, r@) == out@ + replace_all(v@.skip(i as int), p@, r@),
        decreases v.len() - i,
    {
        let ghost tail = v@.skip(i as int);
        let ghost done = out@;
        if matches_at(v, i, p) {
            extend(&mut out, r);
            i += p.len();
            assert(tail.skip(p.len() as int) =~= v@.skip(i as int));
            assert(done + (r@ + replace_all(v@.skip(i as int), p@, r@)) =~= out@ + replace_all(
                v@.skip(i as int),
                p@,
                r@,
            ));
        } else {
            out.push(v[i]);
            i += 1;
            assert(tail.drop_first() =~= v@.skip(i as int));
            assert(done + (seq![tail[0]] + replace_all(v@.skip(i as int), p@, r@)) =~= out@
                + replace_all(v@.skip(i as int), p@, r@));
        }
    }
    assert(out@ + Seq::<char>::empty() =~= out@);
    out
}

/// The texts that the vectors of `v` hold, in order.
pub open spec fn texts(v: Seq<Vec<char>>) -> Seq<Seq<char>> {
    Seq::new(v.len(), |i: int| v[i]@)
}

/// The pieces of `v` between its occurrences of `c`.
pub fn split_on(v: &Vec<char>, c: char) -> (r: Vec<Vec<char>>)
    ensures
        texts(r@) == split(v@, c),
{
    let mut r: Vec<Vec<char>> = Vec::new();
    let mut start: usize = 0;
    assert(v@.skip(0) =~= v@);
    loop
        invariant_except_break
            start <= v.len(),
            split(v@, c) == texts(r@) + split(v@.skip(start as int), c),
        ensures
            texts(r@) == split(v@, c),
        decreases v.len() - start,
    {
        let ghost tail = v@.skip(start as int);
        let ghost done = texts(r@);
        let i = find_char_from(v, c, start);
        let piece = slice(v, start, i);
        assert(piece@ =~= before(tail, c));
        r.push(piece);
        assert(texts(r@) =~= done.push(before(tail, c)));
        if i == v.len() {
            assert(done + seq![tail] =~= done.push(tail));
            assert(tail.take(tail.len() as int) =~= tail);
            break ;
        }
        start = i + 1;
        assert(after(tail, c) =~= v@.skip(start as int));
        assert(done + (seq![before(tail, c)] + split(after(tail, c), c)) =~= texts(r@) + split(
            v@.skip(start as int),
            c,
        ));
    }
    r
}

/// The lines of `v`.
pub fn lines_of(v: &Vec<char>) -> (r: Vec<Vec<char>>)
    ensures
        texts(r@) == lines(v@),
{
    let mut r: Vec<Vec<char>> = Vec::new();
    let mut start: usize = 0;
    assert(v@.skip(0) =~= v@);
    while start < v.len()
        invariant
            start <= v.len(),
            lines(v@) == texts(r@) + lines(v@.skip(start as int)),
        decreases v.len() - start,
    {
        let ghost tail = v@.skip(start as int);
        let ghost done = texts(r@);
        let i = find_char_from(v, '\n', start);
        if i == v.len() {
            let piece = slice(v, start, i);
            assert(piece@ =~= tail);
            r.push(piece);
            assert(texts(r@) =~= done.push(tail));
            start = i;
            assert(v@.skip(start as int).len() == 0);
            assert(done + seq![tail] =~= texts(r@) + lines(v@.skip(start as int)));
        } else {
            let end = if i > start && v[i - 1] == '\r' {
                i - 1
            } else {
                i
            };
            let piece = slice(v, start, end);
            assert(before(tail, '\n') =~= v@.subrange(start as int, i as int));
            assert(piece@ =~= strip_cr(before(tail, '\n')));
            r.push(piece);
            assert(texts(r@) =~= done.push(strip_cr(before(tail, '\n'))));
            start = i + 1;
            assert(after(tail, '\n') =~= v@.skip(start as int));
            assert(done + (seq![strip_cr(before(tail, '\n'))] + lines(after(tail, '\n')))
                =~= texts(r@) + lines(v@.skip(start as int)));
        }
    }
    assert(texts(r@) + Seq::<Seq<char>>::empty() =~= texts(r@));
    r
}

/// Reads a 16-bit number: `None` where `v` does not spell one.
pub fn read_u16(v: &Vec<char>) -> (r: Option<u16>)
    ensures
        r == parse_u16(v@),
{
    let from: usize = if v.len() > 0 && v[0] == '+' {
        1
    } else {
        0
    };
    let ghost d = unsigned(v@);
    assert(d =~= v@.skip(from as int));
    if from == v.len() {
        return None;
    }
    let mut acc: u32 = 0;
    let mut i: usize = from;
    assert(d.take(0) =~= Seq::<char>::empty());
    while i < v.len()
        invariant
            from <= i <= v.len(),
            d == v@.skip(from as int),
            d == unsigned(v@),
            all_digits(d.take(i - from)),
            acc == number(d.take(i - from)),
            acc <= 65535,
        decreases v.len() - i,
    {
        let c = v[i];
        assert(c == d[i - from]);
        if !('0' <= c && c <= '9') {
            assert(!is_digit(d[i - from]));
            return None;
        }
        let ghost next = d.take(i - from + 1);
        assert(next.drop_last() =~= d.take(i - from));
        assert(next.last() == c);
        assert forall|j: int| 0 <= j < next.len() implies is_digit(#[trigger] next[j]) by {
            if j < i - from {
                assert(next[j] == d.take(i - from)[j]);
            }
        }
        acc = acc * 10 + (c as u32 - '0' as u32);
        assert(acc == number(next));
        if acc > 65535 {
            proof {
                if all_digits(d) {
                    lemma_number_prefix(d, i - from + 1);
                }
            }
            return None;
        }
        i += 1;
    }
    assert(d.take(i - from) =~= d);
    Some(acc as u16)
}

/// The digit that stands for `d`.
pub fn digit_of(d: u16) -> (c: char)
    requires
        d < 10,
    ensures
        c == digit_char(d as nat),
{
    if d == 0 {
        '0'
    } else if d == 1 {
        '1'
    } else if d == 2 {
        '2'
    } else if d == 3 {
        '3'
    } else if d == 4 {
        '4'
    } else if d == 5 {
        '5'
    } else if d == 6 {
        '6'
    } else if d == 7 {
        '7'
    } else if d == 8 {
        '8'
    } else {
        '9'
    }
}

/// The decimal digits of `n`.
pub fn decimal_of(n: u16) -> (r: Vec<char>)
    ensures
        r@ == decimal(n as nat),
    decreases n,
{
    if n < 10 {
        let mut r: Vec<char> = Vec::new();
        r.push(digit_of(n));
        assert(r@ =~= seq![digit_char(n as nat)]);
        r
    } else {
        let mut r = decimal_of(n / 10);
        r.push(digit_of(n % 10));
        r
    }
}

} // verus!
