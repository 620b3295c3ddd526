//! Character-sequence utilities: substring search, whitespace trimming and
//! conversions between strings and character vectors.

use vstd::prelude::*;

verus! {

broadcast use vstd::string::group_string_axioms;

/// Appends the characters of `s` to `v`.
pub fn push_str_chars(v: &mut Vec<char>, s: &str)
    ensures
        final(v)@ == old(v)@ + s@,
{
    let ghost v0 = v@;
    for c in it: s.chars()
        invariant
            v@ == v0 + it.seq().take(it.index()),
            it.seq() == s@,
    {
        v.push(c);
        assert(it.seq().take(it.index() + 1) =~= it.seq().take(it.index()).push(c));
    }
    assert(s@.take(s@.len() as int) =~= s@);
}

/// A copy of `s[lo..hi]`.
pub fn copy_range(s: &[char], lo: usize, hi: usize) -> (r: Vec<char>)
    requires
        lo <= hi <= s@.len(),
    ensures
        r@ == s@.subrange(lo as int, hi as int),
{
    let mut r: Vec<char> = Vec::new();
    let mut i = lo;
    while i < hi
        invariant
            lo <= i <= hi <= s@.len(),
            r@ == s@.subrange(lo as int, i as int),
        decreases hi - i,
    {
        r.push(s[i]);
        assert(s@.subrange(lo as int, i + 1) =~= s@.subrange(lo as int, i as int).push(s@[i as int]));
        i = i + 1;
    }
    r
}

/// The characters of `s`, in order.
pub fn chars_of(s: &str) -> (v: Vec<char>)
    ensures
        v@ == s@,
{
    let mut v: Vec<char> = Vec::new();
    for c in it: s.chars()
        invariant
            v@ == it.seq().take(it.index()),
            it.seq() == s@,
    {
        v.push(c);
    }
    v
}


/// `pat` occurs in `s` starting at position `i`.
pub open spec fn matches_at(s: Seq<char>, pat: Seq<char>, i: int) -> bool {
    0 <= i && i + pat.len() <= s.len() && s.subrange(i, i + pat.len()) == pat
}

/// The position of the first occurrence of `pat` in `s` that starts at or
/// after `from`, as `str::find` reports it on the suffix of `s` at `from`.
pub open spec fn find_from(s: Seq<char>, pat: Seq<char>, from: int) -> Option<int>
    decreases s.len() + 1 - from,
{
    if from < 0 || from + pat.len() > s.len() {
        None
    } else if matches_at(s, pat, from) {
        Some(from)
    } else {
        find_from(s, pat, from + 1)
    }
}

/// `pat` occurs somewhere in `s`.
pub open spec fn contains_seq(s: Seq<char>, pat: Seq<char>) -> bool {
    find_from(s, pat, 0) is Some
}

/// What `find_from` reports: the first match at or after `from`, or that
/// there is none.
pub proof fn lemma_find_from(s: Seq<char>, pat: Seq<char>, from: int)
    requires
        0 <= from,
    ensures
        match find_from(s, pat, from) {
            Some(i) => {
                &&& from <= i
                &&& matches_at(s, pat, i)
                &&& forall|j: int| from <= j < i ==> !matches_at(s, pat, j)
            },
            None => forall|j: int| from <= j ==> !matches_at(s, pat, j),
        },
    decreases s.len() + 1 - from,
{
    if from + pat.len() > s.len() {
    } else if matches_at(s, pat, from) {
    } else {
        lemma_find_from(s, pat, from + 1);
    }
}

/// `pat` occurs in `s` if and only if some position matches it.
pub proof fn lemma_contains_seq(s: Seq<char>, pat: Seq<char>)
    ensures
        contains_seq(s, pat) <==> exists|j: int| matches_at(s, pat, j),
{
    lemma_find_from(s, pat, 0);
    if let Some(i) = find_from(s, pat, 0) {
        assert(matches_at(s, pat, i));
    }
}

/// A match agrees with the pattern at every offset.
pub proof fn lemma_matches_at_char(s: Seq<char>, pat: Seq<char>, i: int, k: int)
    requires
        matches_at(s, pat, i),
        0 <= k < pat.len(),
    ensures
        s[i + k] == pat[k],
{
    assert(s.subrange(i, i + pat.len())[k] == s[i + k]);
}

/// No match starts at `i` when some offset disagrees.
pub proof fn lemma_mismatch(s: Seq<char>, pat: Seq<char>, i: int, k: int)
    requires
        0 <= k < pat.len(),
        0 <= i,
        i + k < s.len(),
        s[i + k] != pat[k],
    ensures
        !matches_at(s, pat, i),
{
    if matches_at(s, pat, i) {
        lemma_matches_at_char(s, pat, i, k);
    }
}

/// No match starts in `[lo, hi)` when no character there is the pattern's first.
pub proof fn lemma_no_match_by_first(s: Seq<char>, pat: Seq<char>, lo: int, hi: int)
    requires
        pat.len() > 0,
        0 <= lo,
        hi <= s.len(),
        forall|i: int| lo <= i < hi ==> s[i] != pat[0],
    ensures
        forall|i: int| lo <= i < hi ==> !matches_at(s, pat, i),
{
    assert forall|i: int| lo <= i < hi implies !matches_at(s, pat, i) by {
        lemma_mismatch(s, pat, i, 0);
    }
}

/// No match covers position `j` when the character there is not in the pattern.
pub proof fn lemma_no_match_across(s: Seq<char>, pat: Seq<char>, j: int)
    requires
        0 <= j < s.len(),
        !pat.contains(s[j]),
    ensures
        forall|i: int| i <= j < i + pat.len() ==> !matches_at(s, pat, i),
{
    assert forall|i: int| i <= j < i + pat.len() implies !matches_at(s, pat, i) by {
        if matches_at(s, pat, i) {
            lemma_matches_at_char(s, pat, i, j - i);
        }
    }
}

/// A match inside a copy of `t` placed at `a` is a match in `t`.
pub proof fn lemma_no_match_in_segment(s: Seq<char>, pat: Seq<char>, t: Seq<char>, a: int)
    requires
        0 <= a,
        a + t.len() <= s.len(),
        s.subrange(a, a + t.len()) == t,
        !contains_seq(t, pat),
    ensures
        forall|i: int| a <= i && i + pat.len() <= a + t.len() ==> !matches_at(s, pat, i),
{
    lemma_contains_seq(t, pat);
    assert forall|i: int| a <= i && i + pat.len() <= a + t.len() implies !matches_at(s, pat, i) by {
        if matches_at(s, pat, i) {
            assert(t.subrange(i - a, i - a + pat.len()) =~= s.subrange(i, i + pat.len()));
            assert(matches_at(t, pat, i - a));
        }
    }
}

/// The first match at or after `from` is at `p` when `p` matches and
/// nothing in between does.
pub proof fn lemma_find_from_at(s: Seq<char>, pat: Seq<char>, from: int, p: int)
    requires
        0 <= from <= p,
        matches_at(s, pat, p),
        forall|j: int| from <= j < p ==> !matches_at(s, pat, j),
    ensures
        find_from(s, pat, from) == Some(p),
    decreases p - from,
{
    if from < p {
        lemma_find_from_at(s, pat, from + 1, p);
    }
}

/// No match at or after `from` means `find_from` finds nothing.
pub proof fn lemma_find_from_none(s: Seq<char>, pat: Seq<char>, from: int)
    requires
        0 <= from,
        forall|j: int| from <= j ==> !matches_at(s, pat, j),
    ensures
        find_from(s, pat, from) is None,
{
    lemma_find_from(s, pat, from);
}

/// Whether `pat` occurs in `s` at position `i`.
pub fn matches_at_exec(s: &[char], pat: &[char], i: usize) -> (r: bool)
    ensures
        r == matches_at(s@, pat@, i as int),
{
    if i > s.len() || pat.len() > s.len() - i {
        return false;
    }
    let mut k: usize = 0;
    while k < pat.len()
        invariant
            i + pat@.len() <= s@.len(),
            s@.len() == s.len(),
            k <= pat@.len(),
            forall|m: int| 0 <= m < k ==> s@[i + m] == pat@[m],
        decreases pat@.len() - k,
    {
        if s[i + k] != pat[k] {
            assert(s@.subrange(i as int, i + pat@.len())[k as int] != pat@[k as int]);
            return false;
        }
        k = k + 1;
    }
    assert(s@.subrange(i as int, i + pat@.len()) =~= pat@);
    true
}

/// The first position at or after `from` where `pat` occurs in `s`.
pub fn find_chars(s: &[char], pat: &[char], from: usize) -> (r: Option<usize>)
    ensures
        match r {
            Some(i) => find_from(s@, pat@, from as int) == Some(i as int),
            None => find_from(s@, pat@, from as int) is None,
        },
{
    let mut i = from;
    while i <= s.len() && pat.len() <= s.len() - i
        invariant
            from <= i,
            find_from(s@, pat@, from as int) == find_from(s@, pat@, i as int),
        decreases s@.len() + 1 - i,
    {
        if matches_at_exec(s, pat, i) {
            return Some(i);
        }
        if i == s.len() {
            assert(find_from(s@, pat@, i + 1) is None);
            return None;
        }
        i = i + 1;
    }
    None
}

/// `c` is a Unicode `White_Space` character, as `char::is_whitespace` decides.
pub open spec fn is_white_space(c: char) -> bool {
    ||| ('\u{9}' <= c && c <= '\u{d}')
    ||| c == ' '
    ||| c == '\u{85}'
    ||| c == '\u{a0}'
    ||| c == '\u{1680}'
    ||| ('\u{2000}' <= c && c <= '\u{200a}')
    ||| c == '\u{2028}'
    ||| c == '\u{2029}'
    ||| c == '\u{202f}'
    ||| c == '\u{205f}'
    ||| c == '\u{3000}'
}

/// Whether `c` is a Unicode `White_Space` character.
pub fn is_white_space_exec(c: char) -> (r: bool)
    ensures
        r == is_white_space(c),
{
    ('\u{9}' <= c && c <= '\u{d}') || c == ' ' || c == '\u{85}' || c == '\u{a0}'
        || c == '\u{1680}' || ('\u{2000}' <= c && c <= '\u{200a}') || c == '\u{2028}'
        || c == '\u{2029}' || c == '\u{202f}' || c == '\u{205f}' || c == '\u{3000}'
}

/// `s` without its leading white space.
pub open spec fn trim_start(s: Seq<char>) -> Seq<char>
    decreases s.len(),
{
    if s.len() > 0 && is_white_space(s[0]) {
        trim_start(s.drop_first())
    } else {
        s
    }
}

/// `s` without its trailing white space.
pub open spec fn trim_end(s: Seq<char>) -> Seq<char>
    decreases s.len(),
{
    if s.len() > 0 && is_white_space(s.last()) {
        trim_end(s.drop_last())
    } else {
        s
    }
}

/// `s` without leading and trailing white space, as `str::trim` gives it.
pub open spec fn trim(s: Seq<char>) -> Seq<char> {
    trim_end(trim_start(s))
}

proof fn lemma_trim_start_skip(s: Seq<char>, a: int)
    requires
        0 <= a <= s.len(),
        forall|m: int| 0 <= m < a ==> is_white_space(s[m]),
    ensures
        trim_start(s) == trim_start(s.subrange(a, s.len() as int)),
    decreases a,
{
    if a > 0 {
        assert(s.drop_first().subrange(a - 1, s.drop_first().len() as int) =~= s.subrange(a, s.len() as int));
        lemma_trim_start_skip(s.drop_first(), a - 1);
    } else {
        assert(s.subrange(0, s.len() as int) =~= s);
    }
}

proof fn lemma_trim_end_skip(s: Seq<char>, b: int)
    requires
        0 <= b <= s.len(),
        forall|m: int| b <= m < s.len() ==> is_white_space(s[m]),
    ensures
        trim_end(s) == trim_end(s.subrange(0, b)),
    decreases s.len() - b,
{
    if b < s.len() {
        assert(s.drop_last().subrange(0, b) =~= s.subrange(0, b));
        lemma_trim_end_skip(s.drop_last(), b);
    } else {
        assert(s.subrange(0, s.len() as int) =~= s);
    }
}

/// The bounds of `s[lo..hi]` with leading and trailing white space removed.
pub fn trim_bounds(s: &[char], lo: usize, hi: usize) -> (r: (usize, usize))
    requires
        lo <= hi <= s@.len(),
    ensures
        lo <= r.0 <= r.1 <= hi,
        s@.subrange(r.0 as int, r.1 as int) == trim(s@.subrange(lo as int, hi as int)),
{
    let ghost t = s@.subrange(lo as int, hi as int);
    let mut a = lo;
    while a < hi && is_white_space_exec(s[a])
        invariant
            lo <= a <= hi <= s@.len(),
            t == s@.subrange(lo as int, hi as int),
            forall|m: int| lo <= m < a ==> is_white_space(s@[m]),
        decreases hi - a,
    {
        a = a + 1;
    }
    proof {
        lemma_trim_start_skip(t, a - lo);
        assert(t.subrange(a - lo, t.len() as int) =~= s@.subrange(a as int, hi as int));
        let u = s@.subrange(a as int, hi as int);
        if u.len() > 0 {
            assert(!is_white_space(u[0]));
        }
        assert(trim_start(u) == u);
    }
    let mut b = hi;
    while b > a && is_white_space_exec(s[b - 1])
        invariant
            lo <= a <= b <= hi <= s@.len(),
            forall|m: int| b <= m < hi ==> is_white_space(s@[m]),
        decreases b - a,
    {
        b = b - 1;
    }
    proof {
        let u = s@.subrange(a as int, hi as int);
        lemma_trim_end_skip(u, b - a);
        assert(u.subrange(0, b - a) =~= s@.subrange(a as int, b as int));
        let w = s@.subrange(a as int, b as int);
        if w.len() > 0 {
            assert(!is_white_space(w.last()));
        }
    }
    (a, b)
}

/// Every character of `w` is white space.
pub open spec fn all_white(w: Seq<char>) -> bool {
    forall|i: int| 0 <= i < w.len() ==> is_white_space(w[i])
}

proof fn lemma_trim_start_white_prefix(w: Seq<char>, t: Seq<char>)
    requires
        all_white(w),
    ensures
        trim_start(w + t) == trim_start(t),
    decreases w.len(),
{
    if w.len() > 0 {
        assert((w + t)[0] == w[0]);
        assert((w + t).drop_first() =~= w.drop_first() + t);
        lemma_trim_start_white_prefix(w.drop_first(), t);
    } else {
        assert(w + t =~= t);
    }
}

proof fn lemma_trim_end_white_suffix(t: Seq<char>, w: Seq<char>)
    requires
        all_white(w),
    ensures
        trim_end(t + w) == trim_end(t),
    decreases w.len(),
{
    if w.len() > 0 {
        assert((t + w).last() == w.last());
        assert((t + w).drop_last() =~= t + w.drop_last());
        lemma_trim_end_white_suffix(t, w.drop_last());
    } else {
        assert(t + w =~= t);
    }
}

proof fn lemma_trim_start_all_white(t: Seq<char>)
    requires
        all_white(t),
    ensures
        trim_start(t) == Seq::<char>::empty(),
    decreases t.len(),
{
    if t.len() > 0 {
        lemma_trim_start_all_white(t.drop_first());
    }
}

proof fn lemma_trim_start_append(b: Seq<char>, w: Seq<char>)
    requires
        !all_white(b),
    ensures
        trim_start(b + w) == trim_start(b) + w,
    decreases b.len(),
{
    assert(b.len() > 0);
    if is_white_space(b[0]) {
        assert((b + w)[0] == b[0]);
        assert((b + w).drop_first() =~= b.drop_first() + w);
        if all_white(b.drop_first()) {
            assert forall|i: int| 0 <= i < b.len() implies is_white_space(b[i]) by {
                if i > 0 {
                    assert(b[i] == b.drop_first()[i - 1]);
                }
            }
        }
        lemma_trim_start_append(b.drop_first(), w);
    } else {
        assert((b + w)[0] == b[0]);
    }
}

/// White space around a text does not change its trimmed form.
pub proof fn lemma_trim_surrounded(w1: Seq<char>, b: Seq<char>, w2: Seq<char>)
    requires
        all_white(w1),
        all_white(w2),
    ensures
        trim(w1 + b + w2) == trim(b),
{
    assert(w1 + b + w2 =~= w1 + (b + w2));
    lemma_trim_start_white_prefix(w1, b + w2);
    if all_white(b) {
        assert(all_white(b + w2));
        lemma_trim_start_all_white(b + w2);
        lemma_trim_start_all_white(b);
    } else {
        lemma_trim_start_append(b, w2);
        lemma_trim_end_white_suffix(trim_start(b), w2);
    }
}

/// A text that starts and ends with a character that is not white space
/// is its own trimmed form.
pub proof fn lemma_trim_unchanged(s: Seq<char>)
    requires
        s.len() > 0,
        !is_white_space(s[0]),
        !is_white_space(s.last()),
    ensures
        trim(s) == s,
{
}

/// XML white space: space, tab, carriage return and line feed.
pub open spec fn is_xml_space(c: char) -> bool {
    c == ' ' || c == '\t' || c == '\r' || c == '\n'
}

/// `s` without leading XML white space.
pub open spec fn xml_trim_start(s: Seq<char>) -> Seq<char>
    decreases s.len(),
{
    if s.len() > 0 && is_xml_space(s[0]) {
        xml_trim_start(s.drop_first())
    } else {
        s
    }
}

/// `s` without trailing XML white space.
pub open spec fn xml_trim_end(s: Seq<char>) -> Seq<char>
    decreases s.len(),
{
    if s.len() > 0 && is_xml_space(s.last()) {
        xml_trim_end(s.drop_last())
    } else {
        s
    }
}

/// `s` without leading and trailing XML white space.
pub open spec fn xml_trim(s: Seq<char>) -> Seq<char> {
    xml_trim_end(xml_trim_start(s))
}

proof fn lemma_xml_trim_start_skip(s: Seq<char>, a: int)
    requires
        0 <= a <= s.len(),
        forall|m: int| 0 <= m < a ==> is_xml_space(s[m]),
    ensures
        xml_trim_start(s) == xml_trim_start(s.subrange(a, s.len() as int)),
    decreases a,
{
    if a > 0 {
        assert(s.drop_first().subrange(a - 1, s.drop_first().len() as int) =~= s.subrange(a, s.len() as int));
        lemma_xml_trim_start_skip(s.drop_first(), a - 1);
    } else {
        assert(s.subrange(0, s.len() as int) =~= s);
    }
}

proof fn lemma_xml_trim_end_skip(s: Seq<char>, b: int)
    requires
        0 <= b <= s.len(),
        forall|m: int| b <= m < s.len() ==> is_xml_space(s[m]),
    ensures
        xml_trim_end(s) == xml_trim_end(s.subrange(0, b)),
    decreases s.len() - b,
{
    if b < s.len() {
        assert(s.drop_last().subrange(0, b) =~= s.subrange(0, b));
        lemma_xml_trim_end_skip(s.drop_last(), b);
    } else {
        assert(s.subrange(0, s.len() as int) =~= s);
    }
}

/// The bounds of `s[lo..hi]` with leading and trailing XML white space
/// removed.
pub fn xml_trim_bounds(s: &[char], lo: usize, hi: usize) -> (r: (usize, usize))
    requires
        lo <= hi <= s@.len(),
    ensures
        lo <= r.0 <= r.1 <= hi,
        s@.subrange(r.0 as int, r.1 as int) == xml_trim(s@.subrange(lo as int, hi as int)),
{
    let ghost t = s@.subrange(lo as int, hi as int);
    let mut a = lo;
    while a < hi && (s[a] == ' ' || s[a] == '\t' || s[a] == '\r' || s[a] == '\n')
        invariant
            lo <= a <= hi <= s@.len(),
            t == s@.subrange(lo as int, hi as int),
            forall|m: int| lo <= m < a ==> is_xml_space(s@[m]),
        decreases hi - a,
    {
        a = a + 1;
    }
    proof {
        lemma_xml_trim_start_skip(t, a - lo);
        assert(t.subrange(a - lo, t.len() as int) =~= s@.subrange(a as int, hi as int));
    }
    let ghost u = s@.subrange(a as int, hi as int);
    if a == hi {
        proof {
            assert(u.len() == 0);
        }
        return (a, a);
    }
    proof {
        assert(!is_xml_space(u[0]));
        assert(xml_trim_start(u) == u);
    }
    let mut b = hi;
    while b > a && (s[b - 1] == ' ' || s[b - 1] == '\t' || s[b - 1] == '\r' || s[b - 1] == '\n')
        invariant
            a < hi,
            a <= b <= hi <= s@.len(),
            u == s@.subrange(a as int, hi as int),
            forall|m: int| b <= m < hi ==> is_xml_space(s@[m]),
        decreases b,
    {
        b = b - 1;
    }
    proof {
        lemma_xml_trim_end_skip(u, b - a);
        assert(u.subrange(0, b - a) =~= s@.subrange(a as int, b as int));
        if b > a {
            assert(!is_xml_space(s@.subrange(a as int, b as int).last()));
        }
    }
    (a, b)
}

/// Appends `c` to `s`.
///
/// Calls `String::push`; the string grows by exactly that character.
#[verifier::external_body]
pub(crate) fn push_char(s: &mut String, c: char)
    ensures
        final(s)@ == old(s)@.push(c),
{
    s.push(c)
}

/// Whether `c` occurs in `s[lo..hi]`.
pub fn contains_char_in(s: &[char], lo: usize, hi: usize, c: char) -> (r: bool)
    requires
        lo <= hi <= s@.len(),
    ensures
        r == s@.subrange(lo as int, hi as int).contains(c),
{
    let mut i = lo;
    while i < hi
        invariant
            lo <= i <= hi <= s@.len(),
            forall|m: int| lo <= m < i ==> s@[m] != c,
        decreases hi - i,
    {
        if s[i] == c {
            proof {
                assert(s@.subrange(lo as int, hi as int)[i - lo] == c);
            }
            return true;
        }
        i = i + 1;
    }
    proof {
        assert forall|m: int| 0 <= m < hi - lo implies s@.subrange(lo as int, hi as int)[m] != c by {
            assert(s@.subrange(lo as int, hi as int)[m] == s@[lo + m]);
        }
    }
    false
}

/// The string made of `s[lo..hi]`.
pub fn string_of(s: &[char], lo: usize, hi: usize) -> (r: String)
    requires
        lo <= hi <= s@.len(),
    ensures
        r@ == s@.subrange(lo as int, hi as int),
{
    let mut r = String::new();
    let mut i = lo;
    while i < hi
        invariant
            lo <= i <= hi <= s@.len(),
            r@ == s@.subrange(lo as int, i as int),
        decreases hi - i,
    {
        push_char(&mut r, s[i]);
        assert(s@.subrange(lo as int, i + 1) =~= s@.subrange(lo as int, i as int).push(s@[i as int]));
        i = i + 1;
    }
    r
}


/// The position of the last `c` in `s`.
pub open spec fn last_index_of(s: Seq<char>, c: char) -> Option<int>
    decreases s.len(),
{
    if s.len() == 0 {
        None
    } else if s.last() == c {
        Some(s.len() - 1)
    } else {
        last_index_of(s.drop_last(), c)
    }
}

/// The part of `s` after its last `c`, or all of `s` when there is none, as
/// `s.split(c).next_back()` gives it.
pub open spec fn after_last(s: Seq<char>, c: char) -> Seq<char> {
    match last_index_of(s, c) {
        Some(i) => s.subrange(i + 1, s.len() as int),
        None => s,
    }
}

proof fn lemma_last_index_of(s: Seq<char>, c: char, k: int)
    requires
        0 <= k <= s.len(),
        forall|j: int| k <= j < s.len() ==> s[j] != c,
    ensures
        last_index_of(s, c) == last_index_of(s.subrange(0, k), c),
    decreases s.len() - k,
{
    if k < s.len() {
        assert(s.drop_last().subrange(0, k) =~= s.subrange(0, k));
        lemma_last_index_of(s.drop_last(), c, k);
    } else {
        assert(s.subrange(0, k) =~= s);
    }
}

/// The part of `s` after its last `c`.
pub fn after_last_exec(s: &[char], c: char) -> (r: String)
    ensures
        r@ == after_last(s@, c),
{
    let mut k = s.len();
    while k > 0 && s[k - 1] != c
        invariant
            k <= s@.len(),
            forall|j: int| k <= j < s@.len() ==> s@[j] != c,
        decreases k,
    {
        k = k - 1;
    }
    proof {
        lemma_last_index_of(s@, c, k as int);
        let t = s@.subrange(0, k as int);
        if k > 0 {
            assert(t.last() == c);
        }
    }
    if k == 0 {
        proof {
            assert(s@.subrange(0, s@.len() as int) =~= s@);
        }
        string_of(s, 0, s.len())
    } else {
        string_of(s, k, s.len())
    }
}

/// The first position at or after `i` that is not white space.
pub open spec fn skip_white(s: Seq<char>, i: int) -> int
    decreases s.len() - i,
{
    if 0 <= i < s.len() && is_white_space(s[i]) {
        skip_white(s, i + 1)
    } else {
        i
    }
}

/// The first position at or after `i` that is white space or `>`, or the
/// end.
pub open spec fn word_end(s: Seq<char>, i: int) -> int
    decreases s.len() - i,
{
    if 0 <= i < s.len() && !is_white_space(s[i]) && s[i] != '>' {
        word_end(s, i + 1)
    } else {
        i
    }
}

/// The first word of `s` at or after `i`: after any white space, the
/// characters up to the next white space or `>`; `None` when that is empty.
pub open spec fn first_word_from(s: Seq<char>, i: int) -> Option<Seq<char>> {
    let a = skip_white(s, i);
    if a >= s.len() || word_end(s, a) == a {
        None
    } else {
        Some(s.subrange(a, word_end(s, a)))
    }
}

/// The first word of `s` at or after `i`.
pub fn first_word_exec(s: &[char], i: usize) -> (r: Option<String>)
    requires
        i <= s@.len(),
    ensures
        opt_string_view(r) == first_word_from(s@, i as int),
{
    let mut a = i;
    while a < s.len() && is_white_space_exec(s[a])
        invariant
            i <= a <= s@.len(),
            skip_white(s@, i as int) == skip_white(s@, a as int),
        decreases s@.len() - a,
    {
        a = a + 1;
    }
    if a >= s.len() {
        return None;
    }
    let mut b = a;
    while b < s.len() && !is_white_space_exec(s[b]) && s[b] != '>'
        invariant
            a <= b <= s@.len(),
            word_end(s@, a as int) == word_end(s@, b as int),
        decreases s@.len() - b,
    {
        b = b + 1;
    }
    if b == a {
        return None;
    }
    Some(string_of(s, a, b))
}

/// The view of an optional string.
pub open spec fn opt_string_view(o: Option<String>) -> Option<Seq<char>> {
    match o {
        Some(t) => Some(t@),
        None => None,
    }
}
} // verus!
