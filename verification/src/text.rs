//! Character-level text model shared by the parsers and renderers: the
//! whitespace, line and field splitting of `str`, decimal numbers, padding and
//! ordering, each stated over `Seq<char>` and implemented over `Vec<char>`.
use vstd::prelude::*;

verus! {

/// `String::push` appends one character.
pub assume_specification[ String::push ](s: &mut String, ch: char)
    ensures
        final(s)@ == old(s)@.push(ch),
;

/// `String::pop` removes and returns the last character, `None` when empty.
pub assume_specification[ String::pop ](s: &mut String) -> (r: Option<char>)
    ensures
        old(s)@.len() == 0 ==> r is None && final(s)@ == old(s)@,
        old(s)@.len() > 0 ==> r == Some(old(s)@.last()) && final(s)@ == old(s)@.drop_last(),
;

/// What `str::to_lowercase` returns for a string: its full Unicode lowercase
/// mapping.
pub uninterp spec fn lowercase(s: Seq<char>) -> Seq<char>;

/// `str::to_lowercase`; its result is named by [`lowercase`] and nothing more
/// is claimed of it.
#[verifier::external_body]
pub fn to_lowercase(s: &str) -> (r: String)
    ensures
        r@ == lowercase(s@),
{
    s.to_lowercase()
}

// ---------------------------------------------------------------------------
// Character classes
// ---------------------------------------------------------------------------

/// `char::is_whitespace`: the Unicode `White_Space` property.
pub open spec fn is_ws(c: char) -> bool {
    ('\u{9}' <= c && c <= '\u{d}') || c == ' ' || c == '\u{85}' || c == '\u{a0}'
        || c == '\u{1680}' || ('\u{2000}' <= c && c <= '\u{200a}') || c == '\u{2028}'
        || c == '\u{2029}' || c == '\u{202f}' || c == '\u{205f}' || c == '\u{3000}'
}

/// `char::is_control`: the Unicode general category `Cc`.
pub open spec fn is_ctrl(c: char) -> bool {
    c <= '\u{1f}' || ('\u{7f}' <= c && c <= '\u{9f}')
}

/// `char::is_ascii_digit`.
pub open spec fn is_digit(c: char) -> bool {
    '0' <= c && c <= '9'
}

pub fn is_ws_char(c: char) -> (b: bool)
    ensures
        b == is_ws(c),
{
    ('\u{9}' <= c && c <= '\u{d}') || c == ' ' || c == '\u{85}' || c == '\u{a0}'
        || c == '\u{1680}' || ('\u{2000}' <= c && c <= '\u{200a}') || c == '\u{2028}'
        || c == '\u{2029}' || c == '\u{202f}' || c == '\u{205f}' || c == '\u{3000}'
}

pub fn is_ctrl_char(c: char) -> (b: bool)
    ensures
        b == is_ctrl(c),
{
    c <= '\u{1f}' || ('\u{7f}' <= c && c <= '\u{9f}')
}

pub fn is_digit_char(c: char) -> (b: bool)
    ensures
        b == is_digit(c),
{
    '0' <= c && c <= '9'
}

// ---------------------------------------------------------------------------
// Conversions between `str`/`String` and `Vec<char>`
// ---------------------------------------------------------------------------

/// The characters of `s`, in order.
pub fn to_chars(s: &str) -> (v: Vec<char>)
    ensures
        v@ == s@,
{
    let mut v: Vec<char> = Vec::new();
    for c in it: s.chars()
        invariant
            v@ == it.seq().take(it.index() as int),
    {
        v.push(c);
    }
    proof {
        broadcast use vstd::string::axiom_spec_iter;
    }
    v
}

/// A `String` holding exactly the characters of `v`.
pub fn to_string(v: &Vec<char>) -> (s: String)
    ensures
        s@ == v@,
{
    let mut s = String::new();
    let mut i: usize = 0;
    while i < v.len()
        invariant
            i <= v.len(),
            s@ == v@.take(i as int),
        decreases v.len() - i,
    {
        s.push(v[i]);
        i += 1;
        proof {
            assert(v@.take(i as int) == v@.take(i - 1).push(v@[i - 1]));
        }
    }
    proof {
        assert(v@.take(v.len() as int) == v@);
    }
    s
}

/// A copy of `v[a..b]`.
pub fn slice(v: &Vec<char>, a: usize, b: usize) -> (r: Vec<char>)
    requires
        a <= b <= v.len(),
    ensures
        r@ == v@.subrange(a as int, b as int),
{
    let mut r: Vec<char> = Vec::new();
    let mut i: usize = a;
    while i < b
        invariant
            a <= i <= b <= v.len(),
            r@ == v@.subrange(a as int, i as int),
        decreases b - i,
    {
        r.push(v[i]);
        i += 1;
        proof {
            assert(v@.subrange(a as int, i as int) == v@.subrange(a as int, i - 1).push(v@[i - 1]));
        }
    }
    r
}

/// Appends all of `w` to `out`.
pub fn push_all(out: &mut Vec<char>, w: &Vec<char>)
    ensures
        final(out)@ == old(out)@ + w@,
{
    let mut i: usize = 0;
    while i < w.len()
        invariant
            i <= w.len(),
            out@ == old(out)@ + w@.take(i as int),
        decreases w.len() - i,
    {
        out.push(w[i]);
        i += 1;
        proof {
            assert(w@.take(i as int) == w@.take(i - 1).push(w@[i - 1]));
        }
    }
    proof {
        assert(w@.take(w.len() as int) == w@);
    }
}

/// Appends all of `s` to `out`.
pub fn push_str(out: &mut Vec<char>, s: &str)
    ensures
        final(out)@ == old(out)@ + s@,
{
    let w = to_chars(s);
    push_all(out, &w);
}

/// The character views of a vector of character vectors.
pub open spec fn views(v: Seq<Vec<char>>) -> Seq<Seq<char>> {
    v.map_values(|w: Vec<char>| w@)
}

/// The character views of a vector of strings.
pub open spec fn string_views(v: Seq<String>) -> Seq<Seq<char>> {
    v.map_values(|w: String| w@)
}

/// Pushing a string onto a copy of a prefix extends the prefix by one.
pub proof fn lemma_string_views_push(r: Seq<String>, s: String, t: Seq<Seq<char>>, i: int)
    requires
        0 <= i < t.len(),
        string_views(r) == t.take(i),
        s@ == t[i],
    ensures
        string_views(r.push(s)) == t.take(i + 1),
{
    let a = string_views(r.push(s));
    let b = t.take(i + 1);
    assert(string_views(r).len() == r.len());
    assert(t.take(i).len() == i);
    assert(r.len() == i);
    assert(a.len() == b.len());
    assert forall|k: int| 0 <= k < a.len() implies a[k] == b[k] by {
        if k < i {
            assert(a[k] == string_views(r)[k]);
        }
    }
    assert(a =~= b);
}

// ---------------------------------------------------------------------------
// Searching
// ---------------------------------------------------------------------------

/// Position of the first `c` in `s`, or `s.len()` when there is none.
pub open spec fn pos_char(s: Seq<char>, c: char) -> nat
    decreases s.len(),
{
    if s.len() == 0 {
        0
    } else if s[0] == c {
        0
    } else {
        1 + pos_char(s.drop_first(), c)
    }
}

/// Position of the first whitespace character of `s`, or `s.len()`.
pub open spec fn pos_ws(s: Seq<char>) -> nat
    decreases s.len(),
{
    if s.len() == 0 {
        0
    } else if is_ws(s[0]) {
        0
    } else {
        1 + pos_ws(s.drop_first())
    }
}

/// `j` is the first position of `c` in `s` (or `s.len()`) exactly when no `c`
/// precedes it and it is either the end or a `c`.
pub proof fn lemma_pos_char(s: Seq<char>, c: char, j: int)
    requires
        0 <= j <= s.len(),
        forall|k: int| 0 <= k < j ==> s[k] != c,
        j < s.len() ==> s[j] == c,
    ensures
        pos_char(s, c) == j,
    decreases s.len(),
{
    if s.len() > 0 && s[0] != c {
        lemma_pos_char(s.drop_first(), c, j - 1);
    }
}

pub proof fn lemma_pos_char_bounds(s: Seq<char>, c: char)
    ensures
        pos_char(s, c) <= s.len(),
        forall|k: int| 0 <= k < pos_char(s, c) ==> s[k] != c,
        pos_char(s, c) < s.len() ==> s[pos_char(s, c) as int] == c,
    decreases s.len(),
{
    if s.len() > 0 && s[0] != c {
        lemma_pos_char_bounds(s.drop_first(), c);
        assert forall|k: int| 0 <= k < pos_char(s, c) implies s[k] != c by {
            if k > 0 {
                assert(s[k] == s.drop_first()[k - 1]);
            }
        }
    }
}

pub proof fn lemma_pos_ws(s: Seq<char>, j: int)
    requires
        0 <= j <= s.len(),
        forall|k: int| 0 <= k < j ==> !is_ws(s[k]),
        j < s.len() ==> is_ws(s[j]),
    ensures
        pos_ws(s) == j,
    decreases s.len(),
{
    if s.len() > 0 && !is_ws(s[0]) {
        lemma_pos_ws(s.drop_first(), j - 1);
    }
}

/// First index `>= start` holding `c`, or `v.len()`.
pub fn find_char_from(v: &Vec<char>, start: usize, c: char) -> (j: usize)
    requires
        start <= v.len(),
    ensures
        start <= j <= v.len(),
        forall|k: int| start <= k < j ==> v@[k] != c,
        j < v.len() ==> v@[j as int] == c,
        pos_char(v@.skip(start as int), c) == j - start,
{
    let mut j = start;
    while j < v.len() && v[j] != c
        invariant
            start <= j <= v.len(),
            forall|k: int| start <= k < j ==> v@[k] != c,
        decreases v.len() - j,
    {
        j += 1;
    }
    proof {
        lemma_pos_char(v@.skip(start as int), c, j - start);
    }
    j
}

/// First index `>= start` holding whitespace, or `v.len()`.
pub fn find_ws_from(v: &Vec<char>, start: usize) -> (j: usize)
    requires
        start <= v.len(),
    ensures
        start <= j <= v.len(),
        forall|k: int| start <= k < j ==> !is_ws(v@[k]),
        j < v.len() ==> is_ws(v@[j as int]),
        pos_ws(v@.skip(start as int)) == j - start,
{
    let mut j = start;
    while j < v.len() && !is_ws_char(v[j])
        invariant
            start <= j <= v.len(),
            forall|k: int| start <= k < j ==> !is_ws(v@[k]),
        decreases v.len() - j,
    {
        j += 1;
    }
    proof {
        lemma_pos_ws(v@.skip(start as int), j - start);
    }
    j
}

/// Whether `c` occurs in `v`.
pub fn has_char(v: &Vec<char>, c: char) -> (b: bool)
    ensures
        b == v@.contains(c),
{
    let j = find_char_from(v, 0, c);
    proof {
        if j < v.len() {
            assert(v@[j as int] == c);
        }
    }
    j < v.len()
}

// ---------------------------------------------------------------------------
// Lines (`str::lines`)
// ---------------------------------------------------------------------------

/// Drops one trailing carriage return.
pub open spec fn strip_cr(l: Seq<char>) -> Seq<char> {
    if l.len() > 0 && l.last() == '\r' {
        l.drop_last()
    } else {
        l
    }
}

/// `str::lines`: pieces between `\n`, each without a `\r` that ends it before
/// the `\n`; no final empty piece after a trailing `\n`, none at all for "".
pub open spec fn lines(s: Seq<char>) -> Seq<Seq<char>>
    decreases s.len(),
{
    if s.len() == 0 {
        seq![]
    } else {
        let i = pos_char(s, '\n');
        if i < s.len() {
            seq![strip_cr(s.take(i as int))] + lines(s.skip(i as int + 1))
        } else {
            seq![s]
        }
    }
}

/// The line that starts at `start` (which must be before the end) and the
/// start of the rest.
pub fn next_line(v: &Vec<char>, start: usize) -> (r: (Vec<char>, usize))
    requires
        start < v.len(),
    ensures
        start < r.1 <= v.len(),
        lines(v@.skip(start as int)) == seq![r.0@] + lines(v@.skip(r.1 as int)),
{
    let j = find_char_from(v, start, '\n');
    let ghost s = v@.skip(start as int);
    if j < v.len() {
        let mut end = j;
        if end > start && v[end - 1] == '\r' {
            end = end - 1;
        }
        let line = slice(v, start, end);
        proof {
            let t = s.take(j - start);
            assert(t == v@.subrange(start as int, j as int));
            assert(strip_cr(t) == line@);
            assert(s.skip(j - start + 1) == v@.skip(j + 1));
            assert(pos_char(s, '\n') < s.len());
        }
        (line, j + 1)
    } else {
        let line = slice(v, start, v.len());
        proof {
            assert(s == v@.subrange(start as int, v.len() as int));
            assert(v@.skip(v.len() as int) == Seq::<char>::empty());
        }
        (line, v.len())
    }
}


// ---------------------------------------------------------------------------
// Whitespace-separated fields (`str::split_whitespace`)
// ---------------------------------------------------------------------------

/// `str::split_whitespace`: the maximal runs of non-whitespace characters.
pub open spec fn words(s: Seq<char>) -> Seq<Seq<char>>
    decreases s.len(),
{
    if s.len() == 0 {
        seq![]
    } else if is_ws(s[0]) {
        words(s.drop_first())
    } else {
        let k = pos_ws(s);
        if 0 < k <= s.len() {
            seq![s.take(k as int)] + words(s.skip(k as int))
        } else {
            seq![]
        }
    }
}

pub proof fn lemma_views_push(r: Seq<Vec<char>>, w: Vec<char>)
    ensures
        views(r.push(w)) == views(r).push(w@),
{
    assert(views(r.push(w)) =~= views(r).push(w@));
}

/// The whitespace-separated fields of `v`.
pub fn split_words(v: &Vec<char>) -> (r: Vec<Vec<char>>)
    ensures
        views(r@) == words(v@),
{
    let mut r: Vec<Vec<char>> = Vec::new();
    let mut i: usize = 0;
    proof {
        assert(v@.skip(0) == v@);
    }
    while i < v.len()
        invariant
            i <= v.len(),
            words(v@) == views(r@) + words(v@.skip(i as int)),
        decreases v.len() - i,
    {
        let ghost t = v@.skip(i as int);
        if is_ws_char(v[i]) {
            proof {
                assert(t.drop_first() == v@.skip(i + 1));
            }
            i += 1;
        } else {
            let j = find_ws_from(v, i);
            let w = slice(v, i, j);
            proof {
                assert(t.take(j - i) == w@);
                assert(t.skip(j - i) == v@.skip(j as int));
                lemma_views_push(r@, w);
                assert(views(r@.push(w)) + words(v@.skip(j as int)) == views(r@) + words(t));
            }
            r.push(w);
            i = j;
        }
    }
    proof {
        assert(v@.skip(i as int) == Seq::<char>::empty());
        assert(views(r@) + Seq::<Seq<char>>::empty() == views(r@));
    }
    r
}

// ---------------------------------------------------------------------------
// Splitting on one character (`str::split`)
// ---------------------------------------------------------------------------

/// The part of `s` before the first `c` (all of `s` when there is none): what
/// `s.split(c).next()` yields.
pub open spec fn before(s: Seq<char>, c: char) -> Seq<char> {
    s.take(pos_char(s, c) as int)
}

/// `str::split` on one character: always at least one piece.
pub open spec fn split_char(s: Seq<char>, c: char) -> Seq<Seq<char>>
    decreases s.len(),
{
    let i = pos_char(s, c);
    if i < s.len() {
        seq![s.take(i as int)] + split_char(s.skip(i as int + 1), c)
    } else {
        seq![s]
    }
}

/// `v` up to (not including) its first `c`.
pub fn prefix_before(v: &Vec<char>, c: char) -> (r: Vec<char>)
    ensures
        r@ == before(v@, c),
{
    let j = find_char_from(v, 0, c);
    proof {
        assert(v@.skip(0) == v@);
    }
    slice(v, 0, j)
}

/// The pieces of `v` between occurrences of `c`.
pub fn split_on(v: &Vec<char>, c: char) -> (r: Vec<Vec<char>>)
    ensures
        views(r@) == split_char(v@, c),
{
    let mut r: Vec<Vec<char>> = Vec::new();
    let mut i: usize = 0;
    proof {
        assert(v@.skip(0) == v@);
    }
    loop
        invariant
            i <= v.len(),
            split_char(v@, c) == views(r@) + split_char(v@.skip(i as int), c),
        decreases v.len() - i,
    {
        let ghost t = v@.skip(i as int);
        let j = find_char_from(v, i, c);
        if j < v.len() {
            let w = slice(v, i, j);
            proof {
                assert(t.take(j - i) == w@);
                assert(t.skip(j - i + 1) == v@.skip(j + 1));
                lemma_views_push(r@, w);
                assert(views(r@.push(w)) + split_char(v@.skip(j + 1), c) == views(r@)
                    + split_char(t, c));
            }
            r.push(w);
            i = j + 1;
        } else {
            let w = slice(v, i, v.len());
            proof {
                assert(t == w@);
                lemma_views_push(r@, w);
                assert(views(r@.push(w)) == views(r@) + split_char(t, c));
            }
            r.push(w);
            return r;
        }
    }
}

// ---------------------------------------------------------------------------
// Trimming (`str::trim_start`, `str::trim_end`, `str::trim`)
// ---------------------------------------------------------------------------

pub open spec fn trim_start(s: Seq<char>) -> Seq<char>
    decreases s.len(),
{
    if s.len() > 0 && is_ws(s[0]) {
        trim_start(s.drop_first())
    } else {
        s
    }
}

pub open spec fn trim_end(s: Seq<char>) -> Seq<char>
    decreases s.len(),
{
    if s.len() > 0 && is_ws(s.last()) {
        trim_end(s.drop_last())
    } else {
        s
    }
}

pub open spec fn trim(s: Seq<char>) -> Seq<char> {
    trim_end(trim_start(s))
}

/// Index of the first non-whitespace character of `v` (or `v.len()`).
pub fn trim_start_index(v: &Vec<char>) -> (a: usize)
    ensures
        a <= v.len(),
        trim_start(v@) == v@.skip(a as int),
{
    let mut a: usize = 0;
    proof {
        assert(v@.skip(0) == v@);
    }
    while a < v.len() && is_ws_char(v[a])
        invariant
            a <= v.len(),
            trim_start(v@) == trim_start(v@.skip(a as int)),
        decreases v.len() - a,
    {
        proof {
            assert(v@.skip(a as int).drop_first() == v@.skip(a + 1));
        }
        a += 1;
    }
    a
}

/// `v` without leading whitespace.
pub fn trim_start_chars(v: &Vec<char>) -> (r: Vec<char>)
    ensures
        r@ == trim_start(v@),
{
    let a = trim_start_index(v);
    proof {
        assert(v@.skip(a as int) == v@.subrange(a as int, v.len() as int));
    }
    slice(v, a, v.len())
}

/// `v` without leading or trailing whitespace.
pub fn trim_chars(v: &Vec<char>) -> (r: Vec<char>)
    ensures
        r@ == trim(v@),
{
    let a = trim_start_index(v);
    let mut b: usize = v.len();
    proof {
        assert(v@.skip(a as int) == v@.subrange(a as int, v.len() as int));
    }
    while b > a && is_ws_char(v[b - 1])
        invariant
            a <= b <= v.len(),
            trim(v@) == trim_end(v@.subrange(a as int, b as int)),
        decreases b,
    {
        proof {
            assert(v@.subrange(a as int, b as int).drop_last() == v@.subrange(a as int, b - 1));
        }
        b -= 1;
    }
    slice(v, a, b)
}

// ---------------------------------------------------------------------------
// Prefixes, suffixes, substrings
// ---------------------------------------------------------------------------

pub open spec fn has_prefix(s: Seq<char>, p: Seq<char>) -> bool {
    p.len() <= s.len() && s.take(p.len() as int) == p
}

pub open spec fn has_suffix(s: Seq<char>, p: Seq<char>) -> bool {
    p.len() <= s.len() && s.skip(s.len() - p.len()) == p
}

/// `p` occurs in `s` starting at `i`.
pub open spec fn occurs_at(s: Seq<char>, p: Seq<char>, i: int) -> bool {
    0 <= i && i + p.len() <= s.len() && s.subrange(i, i + p.len()) == p
}

pub open spec fn has_infix(s: Seq<char>, p: Seq<char>) -> bool {
    exists|i: int| occurs_at(s, p, i)
}

/// Whether `p` occurs in `v` at position `i`.
pub fn matches_at(v: &Vec<char>, p: &Vec<char>, i: usize) -> (b: bool)
    ensures
        b == occurs_at(v@, p@, i as int),
{
    if i > v.len() || p.len() > v.len() - i {
        return false;
    }
    let mut k: usize = 0;
    while k < p.len()
        invariant
            i + p.len() <= v.len(),
            k <= p.len(),
            forall|m: int| 0 <= m < k ==> v@[i + m] == p@[m],
        decreases p.len() - k,
    {
        if v[i + k] != p[k] {
            proof {
                assert(v@.subrange(i as int, i + p.len())[k as int] != p@[k as int]);
            }
            return false;
        }
        k += 1;
    }
    proof {
        assert(v@.subrange(i as int, i + p.len()) =~= p@);
    }
    true
}

pub fn starts_with(v: &Vec<char>, p: &Vec<char>) -> (b: bool)
    ensures
        b == has_prefix(v@, p@),
{
    let b = matches_at(v, p, 0);
    proof {
        if p@.len() <= v@.len() {
            assert(v@.subrange(0, p@.len() as int) == v@.take(p@.len() as int));
        }
    }
    b
}

pub fn ends_with(v: &Vec<char>, p: &Vec<char>) -> (b: bool)
    ensures
        b == has_suffix(v@, p@),
{
    if p.len() > v.len() {
        return false;
    }
    let b = matches_at(v, p, v.len() - p.len());
    proof {
        assert(v@.subrange(v.len() - p.len(), v.len() as int) == v@.skip(v.len() - p.len()));
    }
    b
}

pub fn contains_seq(v: &Vec<char>, p: &Vec<char>) -> (b: bool)
    ensures
        b == has_infix(v@, p@),
{
    if p.len() > v.len() {
        proof {
            assert forall|i: int| !occurs_at(v@, p@, i) by {}
        }
        return false;
    }
    let last = v.len() - p.len();
    let mut i: usize = 0;
    loop
        invariant
            p.len() <= v.len(),
            last == v.len() - p.len(),
            i <= last,
            forall|m: int| 0 <= m < i ==> !occurs_at(v@, p@, m),
        decreases last - i,
    {
        if matches_at(v, p, i) {
            return true;
        }
        if i == last {
            proof {
                assert forall|m: int| !occurs_at(v@, p@, m) by {
                    if 0 <= m && m + p.len() <= v.len() {
                        assert(m <= i);
                    }
                }
            }
            return false;
        }
        i += 1;
    }
}

/// `str::starts_with` on a string literal.
pub fn starts_with_str(v: &Vec<char>, p: &str) -> (b: bool)
    ensures
        b == has_prefix(v@, p@),
{
    let pv = to_chars(p);
    starts_with(v, &pv)
}

/// `str::ends_with` on a string literal.
pub fn ends_with_str(v: &Vec<char>, p: &str) -> (b: bool)
    ensures
        b == has_suffix(v@, p@),
{
    let pv = to_chars(p);
    ends_with(v, &pv)
}

/// `str::contains` on a string literal.
pub fn contains_str(v: &Vec<char>, p: &str) -> (b: bool)
    ensures
        b == has_infix(v@, p@),
{
    let pv = to_chars(p);
    contains_seq(v, &pv)
}

/// Equality of two character vectors.
pub fn chars_eq(a: &Vec<char>, b: &Vec<char>) -> (r: bool)
    ensures
        r == (a@ == b@),
{
    if a.len() != b.len() {
        return false;
    }
    let r = matches_at(a, b, 0);
    proof {
        assert(a@.subrange(0, b@.len() as int) == a@);
    }
    r
}

/// Equality of a character vector with a string literal.
pub fn eq_str(a: &Vec<char>, b: &str) -> (r: bool)
    ensures
        r == (a@ == b@),
{
    let bv = to_chars(b);
    chars_eq(a, &bv)
}


// ---------------------------------------------------------------------------
// Decimal numbers (`str::parse` for integers, `{}` of integers)
// ---------------------------------------------------------------------------

pub open spec fn digit_value(c: char) -> int {
    c as int - 48
}

pub open spec fn all_digits(d: Seq<char>) -> bool {
    forall|i: int| 0 <= i < d.len() ==> is_digit(#[trigger] d[i])
}

/// The value of a run of decimal digits.
pub open spec fn digits_value(d: Seq<char>) -> int
    decreases d.len(),
{
    if d.len() == 0 {
        0
    } else {
        digits_value(d.drop_last()) * 10 + digit_value(d.last())
    }
}

/// The value of a non-empty run of digits, when it is at most `bound`.
pub open spec fn bounded_digits(d: Seq<char>, bound: int) -> Option<int> {
    if d.len() > 0 && all_digits(d) && digits_value(d) <= bound {
        Some(digits_value(d))
    } else {
        None
    }
}

/// `s` without one leading `+`.
pub open spec fn unsigned_body(s: Seq<char>) -> Seq<char> {
    if s.len() > 0 && s[0] == '+' {
        s.drop_first()
    } else {
        s
    }
}

/// `u32::from_str`: an optional `+`, then one or more ASCII digits, at most
/// `u32::MAX`.
pub open spec fn parse_u32(s: Seq<char>) -> Option<u32> {
    match bounded_digits(unsigned_body(s), u32::MAX as int) {
        Some(n) => Some(n as u32),
        None => None,
    }
}

/// `u64::from_str`: an optional `+`, then one or more ASCII digits, at most
/// `u64::MAX`.
pub open spec fn parse_u64(s: Seq<char>) -> Option<u64> {
    match bounded_digits(unsigned_body(s), u64::MAX as int) {
        Some(n) => Some(n as u64),
        None => None,
    }
}

/// `i64::from_str`: an optional `+` or `-`, then one or more ASCII digits,
/// within the range of `i64`.
pub open spec fn parse_i64(s: Seq<char>) -> Option<i64> {
    if s.len() > 0 && s[0] == '-' {
        match bounded_digits(s.drop_first(), 0x8000_0000_0000_0000) {
            Some(n) => Some((-n) as i64),
            None => None,
        }
    } else {
        match bounded_digits(unsigned_body(s), i64::MAX as int) {
            Some(n) => Some(n as i64),
            None => None,
        }
    }
}

pub proof fn lemma_digits_value_nonneg(d: Seq<char>)
    requires
        all_digits(d),
    ensures
        digits_value(d) >= 0,
    decreases d.len(),
{
    if d.len() > 0 {
        assert(is_digit(d[d.len() - 1]));
        lemma_digits_value_nonneg(d.drop_last());
    }
}

/// A longer run of digits is worth at least as much as its prefix.
pub proof fn lemma_digits_value_prefix(d: Seq<char>, k: int)
    requires
        all_digits(d),
        0 <= k <= d.len(),
    ensures
        digits_value(d.take(k)) <= digits_value(d),
    decreases d.len(),
{
    if k < d.len() {
        assert(is_digit(d[d.len() - 1]));
        assert(d.drop_last().take(k) == d.take(k));
        lemma_digits_value_prefix(d.drop_last(), k);
        lemma_digits_value_nonneg(d.drop_last());
    } else {
        assert(d.take(k) == d);
    }
}

/// The value of the digits `v[a..b]`, if they are one or more digits worth at
/// most `bound`.
pub fn parse_digits(v: &Vec<char>, a: usize, b: usize, bound: u64) -> (r: Option<u64>)
    requires
        a <= b <= v.len(),
    ensures
        r matches Some(n) ==> bounded_digits(v@.subrange(a as int, b as int), bound as int) == Some(
            n as int,
        ),
        r is None ==> bounded_digits(v@.subrange(a as int, b as int), bound as int) is None,
{
    let ghost d = v@.subrange(a as int, b as int);
    if a == b {
        return None;
    }
    let mut val: u128 = 0;
    let mut i: usize = a;
    while i < b
        invariant
            a <= i <= b <= v.len(),
            d == v@.subrange(a as int, b as int),
            all_digits(d.take(i - a)),
            val as int == digits_value(d.take(i - a)),
            val <= bound,
        decreases b - i,
    {
        let c = v[i];
        if !is_digit_char(c) {
            proof {
                assert(d[i - a] == c);
            }
            return None;
        }
        let dv = (c as u32 - 48) as u128;
        let next = val * 10 + dv;
        proof {
            assert(d.take(i - a + 1).drop_last() == d.take(i - a));
            assert(d.take(i - a + 1).last() == c);
            assert(next as int == digits_value(d.take(i - a + 1)));
            assert forall|k: int| 0 <= k < i - a + 1 implies is_digit(#[trigger] d.take(i - a + 1)[k]) by {
                if k < i - a {
                    assert(d.take(i - a + 1)[k] == d.take(i - a)[k]);
                }
            }
        }
        if next > bound as u128 {
            proof {
                if all_digits(d) {
                    lemma_digits_value_prefix(d, i - a + 1);
                }
            }
            return None;
        }
        val = next;
        i += 1;
    }
    proof {
        assert(d.take(b - a) == d);
    }
    Some(val as u64)
}

/// `u32::from_str` over characters.
pub fn parse_u32_chars(v: &Vec<char>) -> (r: Option<u32>)
    ensures
        r == parse_u32(v@),
{
    let a: usize = if v.len() > 0 && v[0] == '+' { 1 } else { 0 };
    proof {
        assert(v@.subrange(a as int, v.len() as int) == unsigned_body(v@));
    }
    match parse_digits(v, a, v.len(), 0xffff_ffff) {
        Some(n) => Some(n as u32),
        None => None,
    }
}

/// `u64::from_str` over characters.
pub fn parse_u64_chars(v: &Vec<char>) -> (r: Option<u64>)
    ensures
        r == parse_u64(v@),
{
    let a: usize = if v.len() > 0 && v[0] == '+' { 1 } else { 0 };
    proof {
        assert(v@.subrange(a as int, v.len() as int) == unsigned_body(v@));
    }
    parse_digits(v, a, v.len(), 0xffff_ffff_ffff_ffff)
}

/// `i64::from_str` over characters.
pub fn parse_i64_chars(v: &Vec<char>) -> (r: Option<i64>)
    ensures
        r == parse_i64(v@),
{
    if v.len() > 0 && v[0] == '-' {
        proof {
            assert(v@.subrange(1, v.len() as int) == v@.drop_first());
        }
        match parse_digits(v, 1, v.len(), 0x8000_0000_0000_0000) {
            Some(n) => {
                if n == 0x8000_0000_0000_0000 {
                    Some(i64::MIN)
                } else {
                    Some(0 - (n as i64))
                }
            },
            None => None,
        }
    } else {
        let a: usize = if v.len() > 0 && v[0] == '+' { 1 } else { 0 };
        proof {
            assert(v@.subrange(a as int, v.len() as int) == unsigned_body(v@));
        }
        match parse_digits(v, a, v.len(), 0x7fff_ffff_ffff_ffff) {
            Some(n) => Some(n as i64),
            None => None,
        }
    }
}

pub open spec fn digit_char(n: int) -> char {
    if n == 0 {
        '0'
    } else if n == 1 {
        '1'
    } else if n == 2 {
        '2'
    } else if n == 3 {
        '3'
    } else if n == 4 {
        '4'
    } else if n == 5 {
        '5'
    } else if n == 6 {
        '6'
    } else if n == 7 {
        '7'
    } else if n == 8 {
        '8'
    } else {
        '9'
    }
}

/// The decimal digits of `n`, most significant first, no leading zeros.
pub open spec fn decimal(n: nat) -> Seq<char>
    decreases n,
{
    if n < 10 {
        seq![digit_char(n as int)]
    } else {
        decimal(n / 10).push(digit_char(n as int % 10))
    }
}

/// `{}` of an integer: a `-` for negatives, then the decimal digits.
pub open spec fn int_text(i: int) -> Seq<char> {
    if i < 0 {
        seq!['-'] + decimal((-i) as nat)
    } else {
        decimal(i as nat)
    }
}

fn digit_to_char(n: u128) -> (c: char)
    requires
        n < 10,
    ensures
        c == digit_char(n as int),
{
    if n == 0 {
        '0'
    } else if n == 1 {
        '1'
    } else if n == 2 {
        '2'
    } else if n == 3 {
        '3'
    } else if n == 4 {
        '4'
    } else if n == 5 {
        '5'
    } else if n == 6 {
        '6'
    } else if n == 7 {
        '7'
    } else if n == 8 {
        '8'
    } else {
        '9'
    }
}

/// Appends the decimal digits of `n`.
pub fn push_decimal(out: &mut Vec<char>, n: u128)
    ensures
        final(out)@ == old(out)@ + decimal(n as nat),
    decreases n,
{
    if n >= 10 {
        push_decimal(out, n / 10);
    }
    out.push(digit_to_char(n % 10));
    proof {
        if n >= 10 {
            assert(old(out)@ + decimal(n as nat) == old(out)@ + decimal((n / 10) as nat) + seq![
                digit_char(n as int % 10),
            ]);
        }
    }
}

/// Appends `{}` of `x`.
pub fn push_int(out: &mut Vec<char>, x: i128)
    ensures
        final(out)@ == old(out)@ + int_text(x as int),
{
    if x < 0 {
        out.push('-');
        let m: u128 = ((0 - (x + 1)) as u128) + 1;
        push_decimal(out, m);
        proof {
            assert(old(out)@.push('-') + decimal(m as nat) == old(out)@ + (seq!['-'] + decimal(
                m as nat,
            )));
        }
    } else {
        push_decimal(out, x as u128);
    }
}

/// `{}` of `x`.
pub fn int_chars(x: i128) -> (r: Vec<char>)
    ensures
        r@ == int_text(x as int),
{
    let mut r: Vec<char> = Vec::new();
    push_int(&mut r, x);
    proof {
        assert(Seq::<char>::empty() + int_text(x as int) == int_text(x as int));
    }
    r
}

// ---------------------------------------------------------------------------
// Padding (`{:<w}` and `{:>w}` of strings)
// ---------------------------------------------------------------------------

pub open spec fn spaces(n: nat) -> Seq<char> {
    Seq::new(n, |i: int| ' ')
}

/// `{:>w}`: right-aligned in at least `w` characters.
pub open spec fn pad_left(s: Seq<char>, w: nat) -> Seq<char> {
    if s.len() < w {
        spaces((w - s.len()) as nat) + s
    } else {
        s
    }
}

/// `{:<w}`: left-aligned in at least `w` characters.
pub open spec fn pad_right(s: Seq<char>, w: nat) -> Seq<char> {
    if s.len() < w {
        s + spaces((w - s.len()) as nat)
    } else {
        s
    }
}

/// Appends `n` spaces.
pub fn push_spaces(out: &mut Vec<char>, n: usize)
    ensures
        final(out)@ == old(out)@ + spaces(n as nat),
{
    let mut i: usize = 0;
    while i < n
        invariant
            i <= n,
            out@ == old(out)@ + spaces(i as nat),
        decreases n - i,
    {
        out.push(' ');
        i += 1;
        proof {
            assert(spaces(i as nat) == spaces((i - 1) as nat).push(' '));
        }
    }
}

/// Appends `{:>w}` of `s`.
pub fn push_pad_left(out: &mut Vec<char>, s: &Vec<char>, w: usize)
    ensures
        final(out)@ == old(out)@ + pad_left(s@, w as nat),
{
    if s.len() < w {
        push_spaces(out, w - s.len());
    }
    push_all(out, s);
    proof {
        if s.len() < w {
            assert(old(out)@ + spaces((w - s.len()) as nat) + s@ == old(out)@ + pad_left(
                s@,
                w as nat,
            ));
        }
    }
}

/// Appends `{:<w}` of `s`.
pub fn push_pad_right(out: &mut Vec<char>, s: &Vec<char>, w: usize)
    ensures
        final(out)@ == old(out)@ + pad_right(s@, w as nat),
{
    push_all(out, s);
    if s.len() < w {
        push_spaces(out, w - s.len());
    }
    proof {
        if s.len() < w {
            assert(old(out)@ + s@ + spaces((w - s.len()) as nat) == old(out)@ + pad_right(
                s@,
                w as nat,
            ));
        }
    }
}

// ---------------------------------------------------------------------------
// Lexicographic order (`Ord` of `str`: code-point order of the characters)
// ---------------------------------------------------------------------------

pub open spec fn lex_lt(a: Seq<char>, b: Seq<char>) -> bool
    decreases a.len(),
{
    if a.len() == 0 {
        b.len() > 0
    } else if b.len() == 0 {
        false
    } else if a[0] != b[0] {
        a[0] < b[0]
    } else {
        lex_lt(a.drop_first(), b.drop_first())
    }
}

pub proof fn lemma_lex_irreflexive(a: Seq<char>)
    ensures
        !lex_lt(a, a),
    decreases a.len(),
{
    if a.len() > 0 {
        lemma_lex_irreflexive(a.drop_first());
    }
}

pub proof fn lemma_lex_transitive(a: Seq<char>, b: Seq<char>, c: Seq<char>)
    requires
        lex_lt(a, b),
        lex_lt(b, c),
    ensures
        lex_lt(a, c),
    decreases a.len(),
{
    if a.len() > 0 && b.len() > 0 && c.len() > 0 && a[0] == b[0] && b[0] == c[0] {
        lemma_lex_transitive(a.drop_first(), b.drop_first(), c.drop_first());
    }
}

pub proof fn lemma_lex_total(a: Seq<char>, b: Seq<char>)
    requires
        a != b,
    ensures
        lex_lt(a, b) || lex_lt(b, a),
    decreases a.len(),
{
    if a.len() > 0 && b.len() > 0 && a[0] == b[0] {
        if a.drop_first() == b.drop_first() {
            assert(a.drop_first().len() == a.len() - 1);
            assert(b.drop_first().len() == b.len() - 1);
            assert(a.len() == b.len());
            assert(a =~= b) by {
                assert forall|i: int| 0 <= i < a.len() implies a[i] == b[i] by {
                    if i > 0 {
                        assert(a[i] == a.drop_first()[i - 1]);
                        assert(b[i] == b.drop_first()[i - 1]);
                    }
                }
            }
        } else {
            lemma_lex_total(a.drop_first(), b.drop_first());
        }
    } else if a.len() == 0 && b.len() == 0 {
        assert(a =~= b);
    }
}

pub proof fn lemma_lex_asymmetric(a: Seq<char>, b: Seq<char>)
    requires
        lex_lt(a, b),
    ensures
        !lex_lt(b, a),
{
    if lex_lt(b, a) {
        lemma_lex_transitive(a, b, a);
        lemma_lex_irreflexive(a);
    }
}

/// Whether `a` sorts strictly before `b`.
pub fn lex_less(a: &Vec<char>, b: &Vec<char>) -> (r: bool)
    ensures
        r == lex_lt(a@, b@),
{
    let mut i: usize = 0;
    proof {
        assert(a@.skip(0) == a@);
        assert(b@.skip(0) == b@);
    }
    while i < a.len() && i < b.len() && a[i] == b[i]
        invariant
            i <= a.len(),
            i <= b.len(),
            lex_lt(a@, b@) == lex_lt(a@.skip(i as int), b@.skip(i as int)),
        decreases a.len() - i,
    {
        proof {
            assert(a@.skip(i as int).drop_first() == a@.skip(i + 1));
            assert(b@.skip(i as int).drop_first() == b@.skip(i + 1));
        }
        i += 1;
    }
    if i == a.len() {
        i < b.len()
    } else if i == b.len() {
        false
    } else {
        a[i] < b[i]
    }
}


/// Every element sorts strictly before every later one (so none repeats).
pub open spec fn strictly_sorted(s: Seq<Seq<char>>) -> bool {
    forall|i: int, j: int| 0 <= i < j < s.len() ==> lex_lt(#[trigger] s[i], #[trigger] s[j])
}

/// Inserts `w` into the strictly sorted `r` unless it is already there.
pub fn insert_sorted_unique(r: &mut Vec<Vec<char>>, w: Vec<char>)
    requires
        strictly_sorted(views(old(r)@)),
    ensures
        strictly_sorted(views(final(r)@)),
        forall|x: Seq<char>|
            views(final(r)@).contains(x) <==> (views(old(r)@).contains(x) || x == w@),
{
    let ghost old_v = views(r@);
    let mut p: usize = 0;
    while p < r.len() && lex_less(&r[p], &w)
        invariant
            p <= r.len(),
            r@ == old(r)@,
            old_v == views(r@),
            forall|k: int| 0 <= k < p ==> lex_lt(#[trigger] old_v[k], w@),
        decreases r.len() - p,
    {
        p += 1;
    }
    if p < r.len() && chars_eq(&r[p], &w) {
        proof {
            assert(old_v[p as int] == w@);
            assert forall|x: Seq<char>| old_v.contains(x) || x == w@ implies old_v.contains(x) by {
                if x == w@ {
                    assert(old_v[p as int] == x);
                }
            }
        }
        return;
    }
    proof {
        if p < r.len() {
            assert(!lex_lt(old_v[p as int], w@));
            assert(old_v[p as int] != w@);
            lemma_lex_total(old_v[p as int], w@);
        }
    }
    r.insert(p, w);
    proof {
        let nv = views(r@);
        assert(nv =~= old_v.insert(p as int, w@));
        assert forall|i: int, j: int| 0 <= i < j < nv.len() implies lex_lt(
            #[trigger] nv[i],
            #[trigger] nv[j],
        ) by {
            if j < p {
            } else if j == p {
            } else if i < p {
                assert(nv[j] == old_v[j - 1]);
                lemma_lex_transitive(nv[i], w@, old_v[p as int]);
                if j - 1 > p {
                    lemma_lex_transitive(nv[i], old_v[p as int], old_v[j - 1]);
                }
            } else if i == p {
                assert(nv[j] == old_v[j - 1]);
                if j - 1 > p {
                    lemma_lex_transitive(w@, old_v[p as int], old_v[j - 1]);
                }
            } else {
                assert(nv[i] == old_v[i - 1]);
                assert(nv[j] == old_v[j - 1]);
            }
        }
        assert forall|x: Seq<char>| nv.contains(x) <==> (old_v.contains(x) || x == w@) by {
            if nv.contains(x) {
                let k = choose|k: int| 0 <= k < nv.len() && nv[k] == x;
                if k < p {
                    assert(old_v[k] == x);
                } else if k > p {
                    assert(old_v[k - 1] == x);
                }
            }
            if old_v.contains(x) {
                let k = choose|k: int| 0 <= k < old_v.len() && old_v[k] == x;
                if k < p {
                    assert(nv[k] == x);
                } else {
                    assert(nv[k + 1] == x);
                }
            }
            if x == w@ {
                assert(nv[p as int] == x);
            }
        }
    }
}

/// The distinct elements of `items`, in strictly increasing order.
pub fn sort_unique(items: Vec<Vec<char>>) -> (r: Vec<Vec<char>>)
    ensures
        strictly_sorted(views(r@)),
        forall|x: Seq<char>| views(r@).contains(x) <==> views(items@).contains(x),
{
    let mut r: Vec<Vec<char>> = Vec::new();
    let n = items.len();
    let mut i: usize = 0;
    while i < n
        invariant
            n == items.len(),
            i <= n,
            strictly_sorted(views(r@)),
            forall|x: Seq<char>|
                views(r@).contains(x) <==> views(items@.take(i as int)).contains(x),
        decreases n - i,
    {
        let w = items[i].clone();
        proof {
            assert(views(items@.take(i + 1)) =~= views(items@.take(i as int)).push(items@[i as int]@));
        }
        insert_sorted_unique(&mut r, w);
        i += 1;
        proof {
            assert forall|x: Seq<char>|
                views(r@).contains(x) <==> views(items@.take(i as int)).contains(x) by {
                let pv = views(items@.take(i - 1));
                let nv = views(items@.take(i as int));
                if x == w@ {
                    assert(nv[i - 1] == x);
                }
                if pv.contains(x) {
                    let k = choose|k: int| 0 <= k < pv.len() && pv[k] == x;
                    assert(nv[k] == x);
                }
                if nv.contains(x) {
                    let k = choose|k: int| 0 <= k < nv.len() && nv[k] == x;
                    if k < i - 1 {
                        assert(pv[k] == x);
                    }
                }
            }
        }
    }
    proof {
        assert(items@.take(n as int) == items@);
    }
    r
}


/// All the lines of `v` (`str::lines`).
pub fn split_lines(v: &Vec<char>) -> (r: Vec<Vec<char>>)
    ensures
        views(r@) == lines(v@),
{
    let mut r: Vec<Vec<char>> = Vec::new();
    let mut pos: usize = 0;
    proof {
        assert(v@.skip(0) == v@);
    }
    while pos < v.len()
        invariant
            pos <= v.len(),
            lines(v@) == views(r@) + lines(v@.skip(pos as int)),
        decreases v.len() - pos,
    {
        let (line, next) = next_line(v, pos);
        proof {
            lemma_views_push(r@, line);
            assert(views(r@.push(line)) + lines(v@.skip(next as int)) == views(r@) + lines(
                v@.skip(pos as int),
            ));
        }
        r.push(line);
        pos = next;
    }
    proof {
        assert(v@.skip(pos as int) == Seq::<char>::empty());
        assert(views(r@) + Seq::<Seq<char>>::empty() == views(r@));
    }
    r
}

} // verus!
