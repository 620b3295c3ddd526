//! A lightweight element walker: finds the elements of a given local name,
//! whatever their namespace prefix, with the attributes of their opening
//! tag and their content; self-closing elements have empty content.

use vstd::prelude::*;

use crate::text::{
    after_last, after_last_exec, contains_seq, copy_range, find_chars, find_from, last_index_of,
    lemma_find_from, lemma_find_from_at, lemma_mismatch, lemma_no_match_in_segment, matches_at, string_of,
    trim, trim_bounds,
};

verus! {

broadcast use vstd::string::group_string_axioms;

/// A character that can be part of an XML name (ASCII letters and digits,
/// `_`, `-`, `.`, `:`, and any non-ASCII character).
pub open spec fn is_name_char(c: char) -> bool {
    ('a' <= c && c <= 'z') || ('A' <= c && c <= 'Z') || ('0' <= c && c <= '9') || c == '_'
        || c == '-' || c == '.' || c == ':' || (c as u32) > 0x7f
}

/// Whether `c` can be part of an XML name.
pub fn is_name_char_exec(c: char) -> (r: bool)
    ensures
        r == is_name_char(c),
{
    ('a' <= c && c <= 'z') || ('A' <= c && c <= 'Z') || ('0' <= c && c <= '9') || c == '_'
        || c == '-' || c == '.' || c == ':' || (c as u32) > 0x7f
}

/// The end of the run of name characters of `s` that starts at `i`.
pub open spec fn name_end(s: Seq<char>, i: int) -> int
    decreases s.len() - i,
{
    if 0 <= i < s.len() && is_name_char(s[i]) {
        name_end(s, i + 1)
    } else {
        i
    }
}

pub proof fn lemma_name_end(s: Seq<char>, i: int)
    requires
        0 <= i <= s.len(),
    ensures
        i <= name_end(s, i) <= s.len(),
    decreases s.len() - i,
{
    if i < s.len() && is_name_char(s[i]) {
        lemma_name_end(s, i + 1);
    }
}

/// The local part of a qualified name: what follows its last `:`.
pub open spec fn local_name(q: Seq<char>) -> Seq<char> {
    after_last(q, ':')
}

/// An opening tag of an element of local name `name` starts at `i`: `<`,
/// then a qualified name whose local part is `name`.
pub open spec fn opens_at(s: Seq<char>, name: Seq<char>, i: int) -> bool {
    &&& 0 <= i < s.len()
    &&& s[i] == '<'
    &&& name_end(s, i + 1) > i + 1
    &&& local_name(s.subrange(i + 1, name_end(s, i + 1))) == name
}

/// The model of an element: its qualified name, the attribute text of its
/// opening tag and its content, both trimmed.
pub struct XmlElementView {
    /// The qualified name, with its prefix.
    pub name: Seq<char>,
    /// The attribute text of the opening tag.
    pub attributes: Seq<char>,
    /// The content between the opening and the closing tag.
    pub content: Seq<char>,
}

/// An element found in a text.
#[derive(Debug)]
pub struct XmlElement {
    /// The qualified name, with its prefix (such as `soap:address`).
    pub name: String,
    /// The attribute text of the opening tag, trimmed.
    pub attributes: String,
    /// The content between the opening and the closing tag, trimmed; empty
    /// for a self-closing element.
    pub content: String,
}

impl View for XmlElement {
    type V = XmlElementView;

    open spec fn view(&self) -> XmlElementView {
        XmlElementView { name: self.name@, attributes: self.attributes@, content: self.content@ }
    }
}

/// The views of a sequence of elements.
pub open spec fn elements_view(v: Seq<XmlElement>) -> Seq<XmlElementView> {
    v.map_values(|e: XmlElement| e@)
}

/// The extent of the element whose opening tag starts at `i` (its
/// qualified name ending at `e`): the end of its attribute text, the
/// bounds of its raw content, and the position after it. The attributes run
/// to the first `>`; a `/` before it closes the element at once (empty
/// content); otherwise the content runs to the first closing tag of the
/// same qualified name. `None` when the `>` or the closing tag is missing.
pub open spec fn element_span(s: Seq<char>, i: int, e: int) -> Option<(int, int, int, int)> {
    match find_from(s, ">"@, e) {
        None => None,
        Some(g) => if g > e && s[g - 1] == '/' {
            Some((g - 1, g + 1, g + 1, g + 1))
        } else {
            let close = "</"@ + s.subrange(i + 1, e) + ">"@;
            match find_from(s, close, g + 1) {
                None => None,
                Some(c) => Some((g, g + 1, c, c + close.len())),
            }
        },
    }
}

/// The element whose opening tag starts at `i` (its qualified name ending at
/// `e`), with its attribute text and content trimmed, and the position
/// after it; see `element_span`.
pub open spec fn element_at(s: Seq<char>, i: int, e: int) -> Option<(XmlElementView, int)> {
    match element_span(s, i, e) {
        None => None,
        Some((ae, cs, ce, next)) => Some(
            (
                XmlElementView {
                    name: s.subrange(i + 1, e),
                    attributes: trim(s.subrange(e, ae)),
                    content: trim(s.subrange(cs, ce)),
                },
                next,
            ),
        ),
    }
}

pub proof fn lemma_element_span(s: Seq<char>, i: int, e: int)
    requires
        0 <= i < e <= s.len(),
    ensures
        match element_span(s, i, e) {
            Some((ae, cs, ce, next)) => e <= ae && ae < cs && cs <= ce <= next <= s.len() && e < next,
            None => true,
        },
{
    reveal_strlit(">");
    reveal_strlit("</");
    lemma_find_from(s, ">"@, e);
    match find_from(s, ">"@, e) {
        None => {},
        Some(g) => {
            let close = "</"@ + s.subrange(i + 1, e) + ">"@;
            lemma_find_from(s, close, g + 1);
        },
    }
}

pub proof fn lemma_element_at(s: Seq<char>, i: int, e: int)
    requires
        0 <= i < e <= s.len(),
    ensures
        match element_at(s, i, e) {
            Some((_, next)) => e < next <= s.len(),
            None => true,
        },
{
    lemma_element_span(s, i, e);
}

/// The elements of local name `name` in `s` from position `from` on, in
/// order; the search goes on after each element, and stops at an element
/// that is not closed.
pub open spec fn elements_from(s: Seq<char>, name: Seq<char>, from: int) -> Seq<XmlElementView>
    decreases s.len() + 1 - from,
{
    if from < 0 || from >= s.len() {
        Seq::empty()
    } else if opens_at(s, name, from) {
        let e = name_end(s, from + 1);
        match element_at(s, from, e) {
            None => Seq::empty(),
            Some((el, next)) => {
                proof {
                    lemma_name_end(s, from + 1);
                    lemma_element_at(s, from, e);
                }
                seq![el] + elements_from(s, name, next)
            },
        }
    } else {
        elements_from(s, name, from + 1)
    }
}

/// The elements of local name `name` in `s`, in order.
pub open spec fn elements(s: Seq<char>, name: Seq<char>) -> Seq<XmlElementView> {
    elements_from(s, name, 0)
}

/// The end of the name run at `i`.
fn name_end_exec(s: &[char], i: usize) -> (r: usize)
    requires
        i <= s@.len(),
    ensures
        r == name_end(s@, i as int),
        i <= r <= s@.len(),
{
    let mut k = i;
    while k < s.len() && is_name_char_exec(s[k])
        invariant
            i <= k <= s@.len(),
            name_end(s@, i as int) == name_end(s@, k as int),
        decreases s@.len() - k,
    {
        k = k + 1;
    }
    k
}

/// The closing tag `</q>` of the qualified name `q = s[i + 1..e]`.
fn closing_tag(s: &[char], i: usize, e: usize) -> (close: Vec<char>)
    requires
        i < e <= s@.len(),
    ensures
        close@ == "</"@ + s@.subrange(i + 1, e as int) + ">"@,
{
    proof {
        reveal_strlit(">");
        reveal_strlit("</");
    }
    let mut close: Vec<char> = Vec::new();
    close.push('<');
    close.push('/');
    let qname = copy_range(s, i + 1, e);
    let mut k: usize = 0;
    while k < qname.len()
        invariant
            k <= qname@.len(),
            close@ == seq!['<', '/'] + qname@.subrange(0, k as int),
        decreases qname@.len() - k,
    {
        close.push(qname[k]);
        proof {
            assert(qname@.subrange(0, k + 1) =~= qname@.subrange(0, k as int).push(qname@[k as int]));
        }
        k = k + 1;
    }
    close.push('>');
    proof {
        assert(qname@.subrange(0, qname@.len() as int) =~= qname@);
        assert(close@ =~= "</"@ + s@.subrange(i + 1, e as int) + ">"@);
    }
    close
}

/// The extent of the element opening at `i`, its qualified name ending
/// at `e`.
pub fn element_span_exec(s: &[char], i: usize, e: usize) -> (r: Option<(usize, usize, usize, usize)>)
    requires
        i < e <= s@.len(),
    ensures
        match r {
            Some((ae, cs, ce, next)) => element_span(s@, i as int, e as int) == Some(
                (ae as int, cs as int, ce as int, next as int),
            ),
            None => element_span(s@, i as int, e as int) is None,
        },
{
    proof {
        reveal_strlit(">");
        reveal_strlit("</");
    }
    let gt = vec!['>'];
    proof {
        assert(gt@ =~= ">"@);
    }
    let g = match find_chars(s, gt.as_slice(), e) {
        Some(g) => g,
        None => return None,
    };
    proof {
        lemma_find_from(s@, ">"@, e as int);
        assert(matches_at(s@, ">"@, g as int));
        assert(g < s@.len());
        assert(s@.len() == s.len());
    }
    let after = g + 1;
    if g > e && s[g - 1] == '/' {
        return Some((g - 1, after, after, after));
    }
    let close = closing_tag(s, i, e);
    let c = match find_chars(s, close.as_slice(), after) {
        Some(c) => c,
        None => return None,
    };
    proof {
        lemma_find_from(s@, close@, after as int);
        assert(c + close@.len() <= s@.len());
    }
    Some((g, after, c, c + close.len()))
}

/// The element opening at `i`, its qualified name ending at `e`.
fn element_at_exec(s: &[char], i: usize, e: usize) -> (r: Option<(XmlElement, usize)>)
    requires
        i < e <= s@.len(),
    ensures
        match r {
            Some((el, next)) => element_at(s@, i as int, e as int) == Some((el@, next as int)),
            None => element_at(s@, i as int, e as int) is None,
        },
{
    match element_span_exec(s, i, e) {
        None => None,
        Some((ae, cs, ce, next)) => {
            proof {
                lemma_element_span(s@, i as int, e as int);
            }
            let (a, b) = trim_bounds(s, e, ae);
            let attributes = string_of(s, a, b);
            let (x, y) = trim_bounds(s, cs, ce);
            let content = string_of(s, x, y);
            let name = string_of(s, i + 1, e);
            Some((XmlElement { name, attributes, content }, next))
        },
    }
}

/// The elements of local name `name` in `s`.
pub fn elements_chars(s: &[char], name: &str) -> (r: Vec<XmlElement>)
    ensures
        elements_view(r@) == elements(s@, name@),
{
    let wanted = name.to_string();
    let mut result: Vec<XmlElement> = Vec::new();
    let mut pos: usize = 0;
    while pos < s.len()
        invariant
            pos <= s@.len(),
            wanted@ == name@,
            elements_view(result@) + elements_from(s@, name@, pos as int) == elements(s@, name@),
        decreases s@.len() - pos,
    {
        let ghost rest = elements_from(s@, name@, pos as int);
        let mut opens = false;
        let mut e: usize = pos + 1;
        if s[pos] == '<' {
            e = name_end_exec(s, pos + 1);
            if e > pos + 1 {
                let q = copy_range(s, pos + 1, e);
                let local = after_last_exec(q.as_slice(), ':');
                opens = local == wanted;
            }
        }
        if opens {
            proof {
                assert(opens_at(s@, name@, pos as int));
            }
            match element_at_exec(s, pos, e) {
                None => {
                    proof {
                        assert(elements_view(result@) + rest =~= elements_view(result@));
                    }
                    return result;
                },
                Some((el, next)) => {
                    let ghost old_result = result@;
                    result.push(el);
                    proof {
                        lemma_name_end(s@, pos + 1);
                        lemma_element_at(s@, pos as int, e as int);
                        assert(elements_view(result@) =~= elements_view(old_result).push(el@));
                        assert(rest == seq![el@] + elements_from(s@, name@, next as int));
                        assert(elements_view(result@) + elements_from(s@, name@, next as int)
                            =~= elements_view(old_result) + rest);
                    }
                    pos = next;
                },
            }
        } else {
            proof {
                assert(!opens_at(s@, name@, pos as int));
            }
            pos = pos + 1;
        }
    }
    proof {
        assert(elements_from(s@, name@, pos as int) =~= Seq::<XmlElementView>::empty());
        assert(elements_view(result@) + Seq::<XmlElementView>::empty() =~= elements_view(result@));
    }
    result
}

/// The views of a sequence of string triples.
pub open spec fn triples_view(v: Seq<(String, String, String)>) -> Seq<(Seq<char>, Seq<char>, Seq<char>)> {
    v.map_values(|p: (String, String, String)| (p.0@, p.1@, p.2@))
}

/// The child elements of `s` from `from` on, as local name, raw attribute
/// text and raw content:
/// each element that starts after the previous one ended, the text between
/// them passed over. `None` when one of them is not closed.
pub open spec fn children_from(s: Seq<char>, from: int) -> Option<Seq<(Seq<char>, Seq<char>, Seq<char>)>>
    decreases s.len() + 1 - from,
{
    if from < 0 || from >= s.len() {
        Some(Seq::empty())
    } else if s[from] == '<' && name_end(s, from + 1) > from + 1 {
        let e = name_end(s, from + 1);
        match element_span(s, from, e) {
            None => None,
            Some((ae, cs, ce, next)) => {
                proof {
                    lemma_name_end(s, from + 1);
                    lemma_element_span(s, from, e);
                }
                match children_from(s, next) {
                    None => None,
                    Some(rest) => Some(
                        seq![(local_name(s.subrange(from + 1, e)), s.subrange(e, ae), s.subrange(cs, ce))] + rest,
                    ),
                }
            },
        }
    } else {
        children_from(s, from + 1)
    }
}

/// The child elements of `s`, as local name, raw attribute text and raw
/// content.
pub open spec fn children(s: Seq<char>) -> Option<Seq<(Seq<char>, Seq<char>, Seq<char>)>> {
    children_from(s, 0)
}

/// The child elements of `s`, as local name, raw attribute text and raw
/// content.
pub fn children_chars(s: &[char]) -> (r: Option<Vec<(String, String, String)>>)
    ensures
        match r {
            Some(v) => children(s@) == Some(triples_view(v@)),
            None => children(s@) is None,
        },
{
    let mut acc: Vec<(String, String, String)> = Vec::new();
    let mut pos: usize = 0;
    while pos < s.len()
        invariant
            pos <= s@.len(),
            children(s@) == match children_from(s@, pos as int) {
                None => None,
                Some(rest) => Some(triples_view(acc@) + rest),
            },
        decreases s@.len() - pos,
    {
        if s[pos] == '<' {
            let e = name_end_exec(s, pos + 1);
            if e > pos + 1 {
                match element_span_exec(s, pos, e) {
                    None => return None,
                    Some((ae, cs, ce, next)) => {
                        proof {
                            lemma_element_span(s@, pos as int, e as int);
                        }
                        let q = copy_range(s, pos + 1, e);
                        let local = after_last_exec(q.as_slice(), ':');
                        let attrs = string_of(s, e, ae);
                        let text = string_of(s, cs, ce);
                        let ghost old_acc = acc@;
                        acc.push((local, attrs, text));
                        proof {
                            assert(triples_view(acc@) =~= triples_view(old_acc).push((local@, attrs@, text@)));
                            match children_from(s@, next as int) {
                                None => {},
                                Some(rest) => {
                                    assert(triples_view(acc@) + rest =~= triples_view(old_acc) + (seq![
                                        (local@, attrs@, text@),
                                    ] + rest));
                                },
                            }
                        }
                        pos = next;
                        continue;
                    },
                }
            }
        }
        pos = pos + 1;
    }
    proof {
        assert(triples_view(acc@) + Seq::<(Seq<char>, Seq<char>, Seq<char>)>::empty() =~= triples_view(acc@));
    }
    Some(acc)
}

/// The name run at `i` ends at `e` when everything before `e` is a name
/// character and `s[e]` is not.
pub proof fn lemma_name_end_at(s: Seq<char>, i: int, e: int)
    requires
        0 <= i <= e < s.len(),
        forall|j: int| i <= j < e ==> is_name_char(#[trigger] s[j]),
        !is_name_char(s[e]),
    ensures
        name_end(s, i) == e,
    decreases e - i,
{
    if i < e {
        lemma_name_end_at(s, i + 1, e);
    }
}

proof fn lemma_no_last_index(q: Seq<char>, c: char)
    requires
        !q.contains(c),
    ensures
        last_index_of(q, c) is None,
    decreases q.len(),
{
    if q.len() > 0 {
        assert(q.last() == q[q.len() - 1]);
        assert(!q.drop_last().contains(c)) by {
            if q.drop_last().contains(c) {
                let j = choose|j: int| 0 <= j < q.drop_last().len() && q.drop_last()[j] == c;
                assert(q[j] == c);
            }
        }
        lemma_no_last_index(q.drop_last(), c);
    }
}

/// A name without `:` is its own local name.
pub proof fn lemma_no_colon_local(q: Seq<char>)
    requires
        !q.contains(':'),
    ensures
        local_name(q) == q,
{
    lemma_no_last_index(q, ':');
}

/// An element written out as `<q a>x</q>` at `i`: its qualified name ends
/// where `q` does, and its raw content is `x`; provided `q` is a name, `a`
/// holds no `>`, starts with no name character and does not end with `/`,
/// and `x` does not close `q`.
pub proof fn lemma_simple_element(s: Seq<char>, i: int, q: Seq<char>, a: Seq<char>, x: Seq<char>)
    requires
        0 <= i,
        q.len() > 0,
        forall|k: int| 0 <= k < q.len() ==> is_name_char(#[trigger] q[k]),
        forall|k: int| 0 <= k < a.len() ==> #[trigger] a[k] != '>',
        a.len() > 0 ==> !is_name_char(a[0]) && a.last() != '/',
        !contains_seq(x, "</"@ + q + ">"@),
        i + q.len() + a.len() + x.len() + q.len() + 5 <= s.len(),
        s.subrange(i, i + q.len() + a.len() + x.len() + q.len() + 5) == "<"@ + q + a + ">"@ + x + "</"@
            + q + ">"@,
    ensures
        name_end(s, i + 1) == i + 1 + q.len(),
        s.subrange(i + 1, i + 1 + q.len()) == q,
        element_span(s, i, i + 1 + q.len()) == Some(
            (
                i + 1 + q.len() + a.len(),
                i + 2 + q.len() + a.len(),
                i + 2 + q.len() + a.len() + x.len(),
                i + q.len() + a.len() + x.len() + q.len() + 5,
            ),
        ),
        s.subrange(i + 2 + q.len() + a.len(), i + 2 + q.len() + a.len() + x.len()) == x,
        s.subrange(i + 1 + q.len(), i + 1 + q.len() + a.len()) == a,
{
    reveal_strlit("<");
    reveal_strlit(">");
    reveal_strlit("</");
    let lq = q.len() as int;
    let la = a.len() as int;
    let lx = x.len() as int;
    let t = "<"@ + q + a + ">"@ + x + "</"@ + q + ">"@;
    let e = i + 1 + lq;
    let g = e + la;
    let c = g + 1 + lx;
    let close = "</"@ + q + ">"@;
    assert forall|k: int| 0 <= k < t.len() implies s[i + k] == #[trigger] t[k] by {
        assert(s.subrange(i, i + t.len())[k] == s[i + k]);
    }
    assert(s.subrange(i + 1, e) =~= q) by {
        assert forall|k: int| 0 <= k < lq implies s.subrange(i + 1, e)[k] == q[k] by {
            assert(s[i + 1 + k] == t[1 + k]);
        }
    }
    assert forall|j: int| i + 1 <= j < e implies is_name_char(#[trigger] s[j]) by {
        assert(s[j] == t[j - i]);
        assert(t[j - i] == q[j - i - 1]);
    }
    assert(s[e] == t[1 + lq]);
    if la > 0 {
        assert(t[1 + lq] == a[0]);
    } else {
        assert(t[1 + lq] == '>');
    }
    lemma_name_end_at(s, i + 1, e);
    // the first `>` after the name ends the opening tag
    assert forall|j: int| e <= j < g implies !matches_at(s, ">"@, j) by {
        assert(s[j] == t[j - i]);
        assert(t[j - i] == a[j - e]);
        lemma_mismatch(s, ">"@, j, 0);
    }
    assert(s[g] == t[g - i]);
    assert(t[g - i] == '>');
    assert(s.subrange(g, g + 1) =~= ">"@);
    lemma_find_from_at(s, ">"@, e, g);
    assert(s[g - 1] == t[g - 1 - i]);
    if la > 0 {
        assert(t[g - 1 - i] == a[la - 1]);
    } else {
        assert(t[g - 1 - i] == q[lq - 1]);
    }
    assert(s.subrange(e, g) =~= a) by {
        assert forall|k: int| 0 <= k < la implies s.subrange(e, g)[k] == a[k] by {
            assert(s[e + k] == t[e + k - i]);
        }
    }
    // the content is `x`
    assert(s.subrange(g + 1, c) =~= x) by {
        assert forall|k: int| 0 <= k < lx implies s.subrange(g + 1, c)[k] == x[k] by {
            assert(s[g + 1 + k] == t[g + 1 + k - i]);
        }
    }
    // the first closing tag after the content is the one written
    assert(s.subrange(c, c + close.len()) =~= close) by {
        assert forall|k: int| 0 <= k < close.len() implies s.subrange(c, c + close.len())[k] == close[k] by {
            assert(s[c + k] == t[c + k - i]);
        }
    }
    lemma_no_match_in_segment(s, close, x, g + 1);
    assert(s[c] == '<') by {
        assert(s[c] == t[c - i]);
    }
    assert forall|j: int| g + 1 <= j < c implies !matches_at(s, close, j) by {
        if j + close.len() > c {
            let k = c - j;
            assert(0 < k < close.len());
            if k == 1 {
                assert(close[1] == '/');
            } else if k < 2 + lq {
                assert(close[k] == q[k - 2]);
                assert(is_name_char(q[k - 2]));
            } else {
                assert(close[k] == '>');
            }
            lemma_mismatch(s, close, j, k);
        }
    }
    lemma_find_from_at(s, close, g + 1, c);
    assert(close =~= "</"@ + s.subrange(i + 1, e) + ">"@);
}

/// The text of an element written out: `<q a>x</q>`.
pub open spec fn written_element(q: Seq<char>, a: Seq<char>, x: Seq<char>) -> Seq<char> {
    "<"@ + q + a + ">"@ + x + "</"@ + q + ">"@
}

/// The conditions under which `lemma_simple_element` reads back a written
/// element.
pub open spec fn simple_parts(q: Seq<char>, a: Seq<char>, x: Seq<char>) -> bool {
    &&& q.len() > 0
    &&& forall|k: int| 0 <= k < q.len() ==> is_name_char(#[trigger] q[k])
    &&& forall|k: int| 0 <= k < a.len() ==> #[trigger] a[k] != '>'
    &&& a.len() > 0 ==> !is_name_char(a[0]) && a.last() != '/'
    &&& !contains_seq(x, "</"@ + q + ">"@)
}

/// A written element alone has itself as its only child.
pub proof fn lemma_one_child(q: Seq<char>, a: Seq<char>, x: Seq<char>)
    requires
        simple_parts(q, a, x),
    ensures
        children(written_element(q, a, x)) == Some(seq![(local_name(q), a, x)]),
{
    reveal_strlit("<");
    reveal_strlit(">");
    reveal_strlit("</");
    let s = written_element(q, a, x);
    assert(s.len() == q.len() + a.len() + x.len() + q.len() + 5);
    assert(s.subrange(0, s.len() as int) =~= s);
    lemma_simple_element(s, 0, q, a, x);
    assert(children_from(s, s.len() as int) == Some(Seq::<(Seq<char>, Seq<char>, Seq<char>)>::empty()));
    assert(seq![(local_name(q), a, x)] + Seq::<(Seq<char>, Seq<char>, Seq<char>)>::empty() =~= seq![(local_name(q), a, x)]);
}

/// Two written elements side by side are the two children.
pub proof fn lemma_two_children(
    q1: Seq<char>,
    a1: Seq<char>,
    x1: Seq<char>,
    q2: Seq<char>,
    a2: Seq<char>,
    x2: Seq<char>,
)
    requires
        simple_parts(q1, a1, x1),
        simple_parts(q2, a2, x2),
    ensures
        children(written_element(q1, a1, x1) + written_element(q2, a2, x2)) == Some(
            seq![(local_name(q1), a1, x1), (local_name(q2), a2, x2)],
        ),
{
    reveal_strlit("<");
    reveal_strlit(">");
    reveal_strlit("</");
    let w1 = written_element(q1, a1, x1);
    let w2 = written_element(q2, a2, x2);
    let s = w1 + w2;
    let n1 = w1.len() as int;
    assert(w1.len() == q1.len() + a1.len() + x1.len() + q1.len() + 5);
    assert(w2.len() == q2.len() + a2.len() + x2.len() + q2.len() + 5);
    assert(s.subrange(0, n1) =~= w1);
    assert(s.subrange(n1, s.len() as int) =~= w2);
    lemma_simple_element(s, 0, q1, a1, x1);
    lemma_simple_element(s, n1, q2, a2, x2);
    assert(s[n1] == '<') by {
        assert(s[n1] == w2[0]);
    }
    assert(children_from(s, s.len() as int) == Some(Seq::<(Seq<char>, Seq<char>, Seq<char>)>::empty()));
    assert(children_from(s, n1) == Some(seq![(local_name(q2), a2, x2)] + Seq::<(Seq<char>, Seq<char>, Seq<char>)>::empty()));
    assert(s[0] == '<');
    assert(seq![(local_name(q1), a1, x1)] + (seq![(local_name(q2), a2, x2)] + Seq::<(Seq<char>, Seq<char>, Seq<char>)>::empty())
        =~= seq![(local_name(q1), a1, x1), (local_name(q2), a2, x2)]);
}

} // verus!
