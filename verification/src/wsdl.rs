//! A lightweight WSDL walker: finds operations, their messages and the
//! typed fields of their requests and responses, reading element
//! declarations of the embedded XML schema, by element and attribute search
//! that tolerates namespace prefixes, attributes on opening tags and
//! self-closing tags.

use vstd::prelude::*;
use vstd::string::StringExecFns;

use crate::text::{
    after_last, after_last_exec, chars_of, find_chars, find_from, first_word_exec,
    first_word_from, lemma_find_from, matches_at, matches_at_exec, opt_string_view,
    push_str_chars, string_of, trim, trim_bounds,
};
use crate::envelope::SoapVersion;
use crate::text::contains_seq;
use crate::xml::{
    elements, elements_chars, elements_view, is_name_char, is_name_char_exec, XmlElement,
    XmlElementView,
};

verus! {

broadcast use vstd::string::group_string_axioms;

/// `pat` (an attribute name and `=`) starts at `i` as a whole name: it is
/// not the tail of a longer name.
pub open spec fn attr_at(s: Seq<char>, pat: Seq<char>, i: int) -> bool {
    matches_at(s, pat, i) && (i == 0 || !is_name_char(s[i - 1]))
}

/// The first position at or after `from` where `pat` starts as a whole name.
pub open spec fn find_attr_from(s: Seq<char>, pat: Seq<char>, from: int) -> Option<int>
    decreases s.len() + 1 - from,
{
    if from < 0 || from + pat.len() > s.len() {
        None
    } else if attr_at(s, pat, from) {
        Some(from)
    } else {
        find_attr_from(s, pat, from + 1)
    }
}

/// The value of attribute `attr` in `s`: after the first `attr=` that is
/// not the tail of a longer name, a double- or single-quoted value up to
/// its closing quote (or the end), else an unquoted value up to the next
/// white space or `>`.
pub open spec fn attribute_value(s: Seq<char>, attr: Seq<char>) -> Option<Seq<char>> {
    let pat = attr + "="@;
    match find_attr_from(s, pat, 0) {
        None => None,
        Some(p) => {
            let q = p + pat.len();
            if q < s.len() && (s[q] == '"' || s[q] == '\'') {
                match find_from(s, seq![s[q]], q + 1) {
                    Some(e) => Some(s.subrange(q + 1, e)),
                    None => Some(s.subrange(q + 1, s.len() as int)),
                }
            } else {
                first_word_from(s, q)
            }
        },
    }
}

/// An attribute that nowhere appears as `attr=` has no value.
pub proof fn lemma_attribute_absent(s: Seq<char>, attr: Seq<char>)
    requires
        forall|i: int| 0 <= i ==> !matches_at(s, attr + "="@, i),
    ensures
        attribute_value(s, attr) is None,
{
    lemma_find_attr_absent(s, attr + "="@, 0);
}

proof fn lemma_find_attr_absent(s: Seq<char>, pat: Seq<char>, from: int)
    requires
        0 <= from,
        forall|i: int| 0 <= i ==> !matches_at(s, pat, i),
    ensures
        find_attr_from(s, pat, from) is None,
    decreases s.len() + 1 - from,
{
    if from + pat.len() <= s.len() {
        lemma_find_attr_absent(s, pat, from + 1);
    }
}

/// Where `pat` first starts as a whole name in `s`.
fn find_attr_chars(s: &[char], pat: &[char]) -> (r: Option<usize>)
    ensures
        match r {
            Some(p) => find_attr_from(s@, pat@, 0) == Some(p as int) && attr_at(s@, pat@, p as int),
            None => find_attr_from(s@, pat@, 0) is None,
        },
{
    if pat.len() > s.len() {
        return None;
    }
    let last = s.len() - pat.len();
    let mut i: usize = 0;
    while i <= last
        invariant
            last == s@.len() - pat@.len(),
            i <= last + 1,
            find_attr_from(s@, pat@, 0) == find_attr_from(s@, pat@, i as int),
        decreases s@.len() + 1 - i,
    {
        if matches_at_exec(s, pat, i) && (i == 0 || !is_name_char_exec(s[i - 1])) {
            return Some(i);
        }
        proof {
            assert(!attr_at(s@, pat@, i as int));
        }
        if i == last {
            proof {
                assert(find_attr_from(s@, pat@, i as int + 1) is None);
            }
            return None;
        }
        i = i + 1;
    }
    None
}

/// The value of attribute `attr` in `s`, on characters.
fn attribute_chars(s: &[char], attr: &str) -> (r: Option<String>)
    ensures
        opt_string_view(r) == attribute_value(s@, attr@),
{
    let mut pat: Vec<char> = Vec::new();
    push_str_chars(&mut pat, attr);
    push_str_chars(&mut pat, "=");
    let p = match find_attr_chars(s, pat.as_slice()) {
        Some(p) => p,
        None => return None,
    };
    proof {
        assert(s@.len() == s.len());
    }
    let q = p + pat.len();
    if q < s.len() && (s[q] == '"' || s[q] == '\'') {
        let quote = vec![s[q]];
        proof {
            assert(quote@ =~= seq![s@[q as int]]);
        }
        match find_chars(s, quote.as_slice(), q + 1) {
            Some(e) => {
                proof {
                    lemma_find_from(s@, quote@, q + 1);
                }
                Some(string_of(s, q + 1, e))
            },
            None => Some(string_of(s, q + 1, s.len())),
        }
    } else {
        first_word_exec(s, q)
    }
}

/// Extract an XML attribute value from a tag's content string.
/// Supports `attr="value"` and `attr='value'`, and an unquoted value up to
/// the next white space or `>`. The name matches whole: `name` is not found
/// in `typename=`.
pub fn extract_attribute(tag_content: &str, attr_name: &str) -> (r: Option<String>)
    ensures
        opt_string_view(r) == attribute_value(tag_content@, attr_name@),
{
    let s = chars_of(tag_content);
    attribute_chars(s.as_slice(), attr_name)
}

/// The contents of all elements of local name `tag` in `s`.
pub open spec fn tag_contents(s: Seq<char>, tag: Seq<char>) -> Seq<Seq<char>> {
    elements(s, tag).map_values(|e: XmlElementView| e.content)
}

/// The content of the first element of local name `tag` in `s`.
pub open spec fn tag_content(s: Seq<char>, tag: Seq<char>) -> Option<Seq<char>> {
    if elements(s, tag).len() > 0 {
        Some(elements(s, tag)[0].content)
    } else {
        None
    }
}

/// The views of a sequence of strings.
pub open spec fn strings_view(v: Seq<String>) -> Seq<Seq<char>> {
    v.map_values(|x: String| x@)
}

/// Find all elements of local name `tag` in `s`: `<tag ...>...</tag>`, with
/// any namespace prefix, or self-closing `<tag .../>`.
pub fn extract_elements(s: &str, tag: &str) -> (r: Vec<XmlElement>)
    ensures
        elements_view(r@) == elements(s@, tag@),
{
    let cs = chars_of(s);
    elements_chars(cs.as_slice(), tag)
}

/// Find the contents of all elements of local name `tag` in `wsdl`,
/// trimmed.
pub fn extract_tag_contents(wsdl: &str, tag: &str) -> (r: Vec<String>)
    ensures
        strings_view(r@) == tag_contents(wsdl@, tag@),
{
    let els = extract_elements(wsdl, tag);
    let ghost ev = elements_view(els@);
    let mut result: Vec<String> = Vec::new();
    let mut i: usize = 0;
    while i < els.len()
        invariant
            i <= els@.len(),
            ev == elements_view(els@),
            strings_view(result@) == ev.take(i as int).map_values(|e: XmlElementView| e.content),
        decreases els@.len() - i,
    {
        let c = els[i].content.clone();
        let ghost prev = result@;
        result.push(c);
        proof {
            assert(c@ == els@[i as int].content@);
            assert(ev[i as int] == els@[i as int]@);
            assert(strings_view(result@) =~= strings_view(prev).push(c@));
            assert(ev.take(i + 1).map_values(|e: XmlElementView| e.content) =~= ev.take(i as int).map_values(
                |e: XmlElementView| e.content,
            ).push(ev[i as int].content));
        }
        i = i + 1;
    }
    proof {
        assert(ev.take(els@.len() as int) =~= ev);
    }
    result
}

/// Extract the trimmed content of the first element of local name `tag`.
pub fn extract_tag_content(wsdl: &str, tag: &str) -> (r: Option<String>)
    ensures
        opt_string_view(r) == tag_content(wsdl@, tag@),
{
    let els = extract_elements(wsdl, tag);
    if els.len() == 0 {
        return None;
    }
    proof {
        assert(elements_view(els@)[0] == els@[0]@);
    }
    Some(els[0].content.clone())
}

/// The first element content is the first of all element contents.
pub proof fn lemma_tag_content_is_first(s: Seq<char>, tag: Seq<char>)
    ensures
        tag_content(s, tag) == (if tag_contents(s, tag).len() > 0 {
            Some(tag_contents(s, tag)[0])
        } else {
            None
        }),
{
}

/// What `char::is_uppercase` decides for `c` (the Unicode `Uppercase` property).
pub uninterp spec fn unicode_uppercase(c: char) -> bool;

/// What `char::to_lowercase` yields for `c` (its Unicode lowercase mapping).
pub uninterp spec fn unicode_lowercase(c: char) -> Seq<char>;

/// Whether a non-ASCII `c` is uppercase.
///
/// Calls `char::is_uppercase`; its result is named by `unicode_uppercase`.
#[verifier::external_body]
fn is_uppercase(c: char) -> (r: bool)
    ensures
        r == unicode_uppercase(c),
{
    c.is_uppercase()
}

/// The lowercase mapping of a non-ASCII `c`.
///
/// Calls `char::to_lowercase`; its result is named by `unicode_lowercase`.
#[verifier::external_body]
fn to_lowercase(c: char) -> (r: Vec<char>)
    ensures
        r@ == unicode_lowercase(c),
{
    c.to_lowercase().collect()
}

/// An ASCII character.
pub open spec fn is_ascii_char(c: char) -> bool {
    (c as u32) < 0x80
}

/// An ASCII uppercase letter.
pub open spec fn is_ascii_upper(c: char) -> bool {
    'A' <= c && c <= 'Z'
}

/// Whether `c` is uppercase: `A` to `Z` for ASCII, the Unicode property
/// otherwise.
pub open spec fn char_is_upper(c: char) -> bool {
    if is_ascii_char(c) {
        is_ascii_upper(c)
    } else {
        unicode_uppercase(c)
    }
}

/// The lowercase mapping of `c`: `A` to `Z` become `a` to `z`, other ASCII
/// characters stay, others take their Unicode mapping.
pub open spec fn char_lower(c: char) -> Seq<char> {
    if is_ascii_char(c) {
        if is_ascii_upper(c) {
            seq![((c as u32) + 32) as char]
        } else {
            seq![c]
        }
    } else {
        unicode_lowercase(c)
    }
}

/// `s` in snake case: each character lowercased, with `_` before every
/// uppercase character but the first.
pub open spec fn snake_case(s: Seq<char>) -> Seq<char>
    decreases s.len(),
{
    if s.len() == 0 {
        Seq::empty()
    } else {
        let i = s.len() - 1;
        snake_case(s.drop_last()) + (if i > 0 && char_is_upper(s[i]) {
            seq!['_']
        } else {
            Seq::empty()
        }) + char_lower(s[i])
    }
}

/// Whether `c` is uppercase.
fn char_is_upper_exec(c: char) -> (r: bool)
    ensures
        r == char_is_upper(c),
{
    if (c as u32) < 0x80 {
        'A' <= c && c <= 'Z'
    } else {
        is_uppercase(c)
    }
}

/// The lowercase mapping of `c`.
fn char_lower_exec(c: char) -> (r: Vec<char>)
    ensures
        r@ == char_lower(c),
{
    if (c as u32) < 0x80 {
        if 'A' <= c && c <= 'Z' {
            let b = (c as u8) + 32;
            let l = b as char;
            proof {
                assert((c as u8) as int == c as int);
                assert(l == ((c as u32) + 32) as char);
            }
            vec![l]
        } else {
            vec![c]
        }
    } else {
        to_lowercase(c)
    }
}

/// The number of uppercase characters of `s` after its first.
pub open spec fn inner_uppers(s: Seq<char>) -> nat
    decreases s.len(),
{
    if s.len() == 0 {
        0
    } else {
        inner_uppers(s.drop_last()) + if s.len() > 1 && char_is_upper(s.last()) {
            1nat
        } else {
            0nat
        }
    }
}

/// Every character of `s` is ASCII.
pub open spec fn all_ascii(s: Seq<char>) -> bool {
    forall|i: int| 0 <= i < s.len() ==> is_ascii_char(#[trigger] s[i])
}

/// No character of `s` is an ASCII uppercase letter.
pub open spec fn no_ascii_upper(s: Seq<char>) -> bool {
    forall|i: int| 0 <= i < s.len() ==> !is_ascii_upper(#[trigger] s[i])
}

proof fn lemma_ascii_lower_char(c: char)
    requires
        is_ascii_char(c),
    ensures
        char_lower(c).len() == 1,
        is_ascii_char(char_lower(c)[0]),
        !is_ascii_upper(char_lower(c)[0]),
{
    if is_ascii_upper(c) {
        let l = ((c as u32) + 32) as char;
        assert(l as u32 == (c as u32) + 32);
        assert(is_ascii_char(l) && !is_ascii_upper(l));
    }
}

proof fn lemma_snake_ascii_shape(s: Seq<char>)
    requires
        all_ascii(s),
    ensures
        all_ascii(snake_case(s)),
        no_ascii_upper(snake_case(s)),
        snake_case(s).len() == s.len() + inner_uppers(s),
    decreases s.len(),
{
    if s.len() > 0 {
        let p = s.drop_last();
        assert(all_ascii(p)) by {
            assert forall|i: int| 0 <= i < p.len() implies is_ascii_char(#[trigger] p[i]) by {
                assert(p[i] == s[i]);
            }
        }
        lemma_snake_ascii_shape(p);
        let c = s[s.len() - 1];
        assert(is_ascii_char(c));
        lemma_ascii_lower_char(c);
        let mid: Seq<char> = if s.len() - 1 > 0 && char_is_upper(c) {
            seq!['_']
        } else {
            Seq::empty()
        };
        let t = snake_case(s);
        assert(t == snake_case(p) + mid + char_lower(c));
        assert forall|i: int| 0 <= i < t.len() implies is_ascii_char(#[trigger] t[i]) && !is_ascii_upper(t[i]) by {
            if i < snake_case(p).len() {
                assert(t[i] == snake_case(p)[i]);
            } else if i < snake_case(p).len() + mid.len() {
                assert(t[i] == '_');
            } else {
                assert(t[i] == char_lower(c)[0]);
            }
        }
    }
}

proof fn lemma_snake_lower_ascii_fixed(s: Seq<char>)
    requires
        all_ascii(s),
        no_ascii_upper(s),
    ensures
        snake_case(s) == s,
    decreases s.len(),
{
    if s.len() > 0 {
        let p = s.drop_last();
        assert(all_ascii(p) && no_ascii_upper(p)) by {
            assert forall|i: int| 0 <= i < p.len() implies is_ascii_char(#[trigger] p[i]) && !is_ascii_upper(p[i]) by {
                assert(p[i] == s[i]);
            }
        }
        lemma_snake_lower_ascii_fixed(p);
        let c = s[s.len() - 1];
        assert(is_ascii_char(c) && !is_ascii_upper(c));
        assert(snake_case(s) =~= p + seq![c]);
        assert(p + seq![c] =~= s);
    }
}

/// On ASCII names, snake case leaves no uppercase letter, adds one `_` per
/// uppercase letter after the first character, and changes nothing when
/// applied again.
pub proof fn lemma_snake_case_ascii(s: Seq<char>)
    requires
        all_ascii(s),
    ensures
        no_ascii_upper(snake_case(s)),
        snake_case(s).len() == s.len() + inner_uppers(s),
        snake_case(snake_case(s)) == snake_case(s),
{
    lemma_snake_ascii_shape(s);
    lemma_snake_lower_ascii_fixed(snake_case(s));
}

/// Convert a camel-case name to snake case.
pub fn camel_to_snake(s: &str) -> (r: String)
    ensures
        r@ == snake_case(s@),
{
    let cs = chars_of(s);
    let mut acc: Vec<char> = Vec::new();
    let mut i: usize = 0;
    while i < cs.len()
        invariant
            i <= cs@.len(),
            acc@ == snake_case(cs@.subrange(0, i as int)),
        decreases cs@.len() - i,
    {
        let c = cs[i];
        if i > 0 && char_is_upper_exec(c) {
            acc.push('_');
        }
        let low = char_lower_exec(c);
        let mut k: usize = 0;
        let ghost before = acc@;
        while k < low.len()
            invariant
                k <= low@.len(),
                acc@ == before + low@.subrange(0, k as int),
            decreases low@.len() - k,
        {
            acc.push(low[k]);
            assert(low@.subrange(0, k + 1) =~= low@.subrange(0, k as int).push(low@[k as int]));
            k = k + 1;
        }
        proof {
            let t = cs@.subrange(0, i + 1);
            assert(t.drop_last() =~= cs@.subrange(0, i as int));
            assert(low@.subrange(0, low@.len() as int) =~= low@);
            assert(acc@ =~= snake_case(t));
        }
        i = i + 1;
    }
    proof {
        assert(cs@.subrange(0, cs@.len() as int) =~= cs@);
    }
    string_of(acc.as_slice(), 0, acc.len())
}

/// A field of a generated struct.
#[derive(Debug, PartialEq)]
pub struct WsdlField {
    /// The Rust field name (snake case).
    pub name: String,
    /// The Rust type, such as `i32`, `Option<String>` or `Vec<bool>`.
    pub rust_type: String,
    /// The XML element name the field is read from and written to.
    pub xml_name: String,
    /// Whether the field is an `Option` that is left out when absent.
    pub optional: bool,
}

/// The model of a field.
pub struct WsdlFieldView {
    /// The Rust field name.
    pub name: Seq<char>,
    /// The Rust type.
    pub rust_type: Seq<char>,
    /// The XML element name.
    pub xml_name: Seq<char>,
    /// Whether the field is optional.
    pub optional: bool,
}

impl View for WsdlField {
    type V = WsdlFieldView;

    open spec fn view(&self) -> WsdlFieldView {
        WsdlFieldView {
            name: self.name@,
            rust_type: self.rust_type@,
            xml_name: self.xml_name@,
            optional: self.optional,
        }
    }
}

/// The views of a sequence of fields.
pub open spec fn fields_view(v: Seq<WsdlField>) -> Seq<WsdlFieldView> {
    v.map_values(|f: WsdlField| f@)
}

/// A plain required field.
pub open spec fn plain_field(name: Seq<char>, rust_type: Seq<char>, xml_name: Seq<char>) -> WsdlFieldView {
    WsdlFieldView { name, rust_type, xml_name, optional: false }
}

/// The Rust type of an XML schema type (by its local name): `string` is
/// `String`, `int` is `i32`, `long` is `i64`, `float`, `double` and
/// `decimal` are `f64`, `boolean` is `bool`; anything else (such as `date`
/// or `dateTime`) is `String`.
pub open spec fn xsd_rust_type(t: Seq<char>) -> Seq<char> {
    if t == "int"@ {
        "i32"@
    } else if t == "long"@ {
        "i64"@
    } else if t == "float"@ || t == "double"@ || t == "decimal"@ {
        "f64"@
    } else if t == "boolean"@ {
        "bool"@
    } else {
        "String"@
    }
}

/// The Rust type of an XML schema type.
fn xsd_rust_type_exec(t: &str) -> (r: String)
    ensures
        r@ == xsd_rust_type(t@),
{
    let t = t.to_string();
    if t == "int".to_string() {
        "i32".to_string()
    } else if t == "long".to_string() {
        "i64".to_string()
    } else if t == "float".to_string() || t == "double".to_string() || t == "decimal".to_string() {
        "f64".to_string()
    } else if t == "boolean".to_string() {
        "bool".to_string()
    } else {
        "String".to_string()
    }
}

/// The field an XML schema element declaration (the attributes of its
/// opening tag) stands for: its `name` in snake case, renamed from that
/// name; typed by its `type` (`String` without one); a `Vec` when
/// `maxOccurs="unbounded"`, else an optional `Option` when `minOccurs="0"`
/// or `nillable="true"`. `None` without a `name`.
pub open spec fn xsd_field(attrs: Seq<char>) -> Option<WsdlFieldView> {
    match attribute_value(attrs, "name"@) {
        None => None,
        Some(n) => {
            let base = match attribute_value(attrs, "type"@) {
                Some(t) => xsd_rust_type(after_last(t, ':')),
                None => "String"@,
            };
            let repeated = attribute_value(attrs, "maxOccurs"@) == Some("unbounded"@);
            let optional = !repeated && (attribute_value(attrs, "minOccurs"@) == Some("0"@)
                || attribute_value(attrs, "nillable"@) == Some("true"@));
            Some(
                WsdlFieldView {
                    name: snake_case(n),
                    rust_type: if repeated {
                        "Vec<"@ + base + ">"@
                    } else if optional {
                        "Option<"@ + base + ">"@
                    } else {
                        base
                    },
                    xml_name: n,
                    optional,
                },
            )
        },
    }
}

/// The fields of a sequence of element declarations, in order.
pub open spec fn xsd_fields(decls: Seq<XmlElementView>) -> Seq<WsdlFieldView>
    decreases decls.len(),
{
    if decls.len() == 0 {
        Seq::empty()
    } else {
        xsd_fields(decls.drop_last()) + match xsd_field(decls.last().attributes) {
            Some(f) => seq![f],
            None => Seq::empty(),
        }
    }
}

/// The first of `els` whose `name` attribute is `name`.
pub open spec fn first_named(els: Seq<XmlElementView>, name: Seq<char>) -> Option<XmlElementView>
    decreases els.len(),
{
    if els.len() == 0 {
        None
    } else if attribute_value(els[0].attributes, "name"@) == Some(name) {
        Some(els[0])
    } else {
        first_named(els.drop_first(), name)
    }
}

/// The fields an element declaration stands for: those of the element
/// declarations inside it, or, when there are none, the declaration itself.
pub open spec fn declaration_fields(decl: XmlElementView) -> Seq<WsdlFieldView> {
    let children = elements(decl.content, "element"@);
    if children.len() > 0 {
        xsd_fields(children)
    } else {
        xsd_fields(seq![decl])
    }
}

/// The fields a message part (the attributes of its tag) stands for in
/// `wsdl`: an `element` reference declared in the schema gives the fields
/// of that declaration; otherwise a `name` gives one `String` field of that
/// name, and else an `element` reference one field typed by its last
/// segment.
pub open spec fn part_fields_of(wsdl: Seq<char>, part: Seq<char>) -> Seq<WsdlFieldView> {
    let declared = match attribute_value(part, "element"@) {
        Some(r) => first_named(elements(wsdl, "element"@), trim(after_last(r, ':'))),
        None => None,
    };
    match declared {
        Some(decl) => declaration_fields(decl),
        None => match attribute_value(part, "name"@) {
            Some(n) => seq![plain_field(snake_case(n), "String"@, n)],
            None => match attribute_value(part, "element"@) {
                Some(r) => {
                    let ty = trim(after_last(r, ':'));
                    seq![plain_field(snake_case(ty), ty, ty)]
                },
                None => Seq::empty(),
            },
        },
    }
}

/// The fields of a sequence of parts, in order.
pub open spec fn parts_fields(wsdl: Seq<char>, parts: Seq<XmlElementView>) -> Seq<WsdlFieldView>
    decreases parts.len(),
{
    if parts.len() == 0 {
        Seq::empty()
    } else {
        parts_fields(wsdl, parts.drop_last()) + part_fields_of(wsdl, parts.last().attributes)
    }
}

/// The fields of the message elements named `name`, in order.
pub open spec fn named_block_fields(wsdl: Seq<char>, blocks: Seq<XmlElementView>, name: Seq<char>) -> Seq<WsdlFieldView>
    decreases blocks.len(),
{
    if blocks.len() == 0 {
        Seq::empty()
    } else {
        named_block_fields(wsdl, blocks.drop_last(), name) + if attribute_value(
            blocks.last().attributes,
            "name"@,
        ) == Some(name) {
            parts_fields(wsdl, elements(blocks.last().content, "part"@))
        } else {
            Seq::empty()
        }
    }
}

/// Some message element is named `name`.
pub open spec fn has_named_block(blocks: Seq<XmlElementView>, name: Seq<char>) -> bool
    decreases blocks.len(),
{
    blocks.len() > 0 && (has_named_block(blocks.drop_last(), name) || attribute_value(
        blocks.last().attributes,
        "name"@,
    ) == Some(name))
}

/// The fields of message `name` in `wsdl`: those of every `message`
/// element named so, or a single `data: String` field when there is none.
pub open spec fn message_fields(wsdl: Seq<char>, name: Seq<char>) -> Seq<WsdlFieldView> {
    let blocks = elements(wsdl, "message"@);
    if has_named_block(blocks, name) {
        named_block_fields(wsdl, blocks, name)
    } else {
        seq![plain_field("data"@, "String"@, "data"@)]
    }
}

/// `s` after its last `c`, trimmed.
fn last_segment_trimmed(s: &str, c: char) -> (r: String)
    ensures
        r@ == trim(after_last(s@, c)),
{
    let cs = chars_of(s);
    let seg = after_last_exec(cs.as_slice(), c);
    let sc = chars_of(seg.as_str());
    let (a, b) = trim_bounds(sc.as_slice(), 0, sc.len());
    proof {
        assert(sc@.subrange(0, sc@.len() as int) =~= sc@);
    }
    string_of(sc.as_slice(), a, b)
}

/// Whether attribute `attr` of `attrs` is exactly `value`.
fn attribute_is(attrs: &str, attr: &str, value: &str) -> (r: bool)
    ensures
        r == (attribute_value(attrs@, attr@) == Some(value@)),
{
    match extract_attribute(attrs, attr) {
        Some(v) => v == value.to_string(),
        None => false,
    }
}

/// The field an element declaration stands for.
fn xsd_field_exec(attrs: &str) -> (r: Option<WsdlField>)
    ensures
        match r {
            Some(f) => xsd_field(attrs@) == Some(f@),
            None => xsd_field(attrs@) is None,
        },
{
    let n = match extract_attribute(attrs, "name") {
        Some(n) => n,
        None => return None,
    };
    let base = match extract_attribute(attrs, "type") {
        Some(t) => {
            let tc = chars_of(t.as_str());
            let local = after_last_exec(tc.as_slice(), ':');
            xsd_rust_type_exec(local.as_str())
        },
        None => "String".to_string(),
    };
    let repeated = attribute_is(attrs, "maxOccurs", "unbounded");
    let optional = !repeated && (attribute_is(attrs, "minOccurs", "0") || attribute_is(
        attrs,
        "nillable",
        "true",
    ));
    let rust_type = if repeated {
        let mut t = "Vec<".to_string();
        t.append(base.as_str());
        t.append(">");
        t
    } else if optional {
        let mut t = "Option<".to_string();
        t.append(base.as_str());
        t.append(">");
        t
    } else {
        base
    };
    Some(WsdlField { name: camel_to_snake(n.as_str()), rust_type, xml_name: n, optional })
}

/// Append the fields of the given element declarations.
fn push_xsd_fields(decls: &Vec<XmlElement>, out: &mut Vec<WsdlField>)
    ensures
        fields_view(final(out)@) == fields_view(old(out)@) + xsd_fields(elements_view(decls@)),
{
    let ghost base = fields_view(out@);
    let ghost dv = elements_view(decls@);
    let mut i: usize = 0;
    while i < decls.len()
        invariant
            i <= decls@.len(),
            dv == elements_view(decls@),
            fields_view(out@) == base + xsd_fields(dv.take(i as int)),
        decreases decls@.len() - i,
    {
        let ghost prev = out@;
        match xsd_field_exec(decls[i].attributes.as_str()) {
            Some(f) => {
                out.push(f);
                proof {
                    assert(fields_view(out@) =~= fields_view(prev).push(f@));
                }
            },
            None => {},
        }
        proof {
            assert(dv.take(i + 1).drop_last() =~= dv.take(i as int));
            assert(dv.take(i + 1).last() == decls@[i as int]@);
        }
        i = i + 1;
    }
    proof {
        assert(dv.take(decls@.len() as int) =~= dv);
    }
}

/// The first of `els` whose `name` attribute is `name`, by position.
fn first_named_index(els: &Vec<XmlElement>, name: &str) -> (r: Option<usize>)
    ensures
        match r {
            Some(i) => i < els@.len() && first_named(elements_view(els@), name@) == Some(els@[i as int]@),
            None => first_named(elements_view(els@), name@) is None,
        },
{
    let ghost ev = elements_view(els@);
    let mut i: usize = 0;
    proof {
        assert(ev.skip(0) =~= ev);
    }
    while i < els.len()
        invariant
            i <= els@.len(),
            ev == elements_view(els@),
            first_named(ev, name@) == first_named(ev.skip(i as int), name@),
        decreases els@.len() - i,
    {
        proof {
            assert(ev.skip(i as int)[0] == els@[i as int]@);
            assert(ev.skip(i as int).drop_first() =~= ev.skip(i + 1));
        }
        if attribute_is(els[i].attributes.as_str(), "name", name) {
            return Some(i);
        }
        i = i + 1;
    }
    proof {
        assert(ev.skip(i as int).len() == 0);
    }
    None
}

/// Append the fields that a part (the attributes of its tag) stands for.
fn push_part_fields(wsdl: &str, part: &str, out: &mut Vec<WsdlField>)
    ensures
        fields_view(final(out)@) == fields_view(old(out)@) + part_fields_of(wsdl@, part@),
{
    let ghost base = fields_view(out@);
    let element_ref = extract_attribute(part, "element");
    if let Some(r) = &element_ref {
        let en = last_segment_trimmed(r.as_str(), ':');
        let decls = extract_elements(wsdl, "element");
        if let Some(i) = first_named_index(&decls, en.as_str()) {
            let children = extract_elements(decls[i].content.as_str(), "element");
            if children.len() > 0 {
                push_xsd_fields(&children, out);
            } else {
                let one = vec![XmlElement {
                    name: decls[i].name.clone(),
                    attributes: decls[i].attributes.clone(),
                    content: decls[i].content.clone(),
                }];
                proof {
                    assert(elements_view(one@) =~= seq![decls@[i as int]@]);
                }
                push_xsd_fields(&one, out);
            }
            return;
        }
    }
    let ghost prev = out@;
    if let Some(n) = extract_attribute(part, "name") {
        out.push(WsdlField {
            name: camel_to_snake(n.as_str()),
            rust_type: "String".to_string(),
            xml_name: n,
            optional: false,
        });
    } else if let Some(r) = element_ref {
        let ty = last_segment_trimmed(r.as_str(), ':');
        out.push(WsdlField {
            name: camel_to_snake(ty.as_str()),
            rust_type: ty.clone(),
            xml_name: ty,
            optional: false,
        });
    }
    proof {
        assert(fields_view(out@) =~= base + part_fields_of(wsdl@, part@));
    }
}

/// Parse the parts of message `msg_name` in `wsdl` into fields appended to
/// `fields_out`; a single `data: String` field when no message is so named.
pub fn parse_message_parts(
    wsdl: &str,
    msg_name: &str,
    _is_request: bool,
    fields_out: &mut Vec<WsdlField>,
)
    ensures
        fields_view(final(fields_out)@) == fields_view(old(fields_out)@) + message_fields(wsdl@, msg_name@),
{
    let ghost base = fields_view(fields_out@);
    let mut found = false;
    let blocks = extract_elements(wsdl, "message");
    let ghost bv = elements_view(blocks@);
    let mut j: usize = 0;
    while j < blocks.len()
        invariant
            j <= blocks@.len(),
            bv == elements_view(blocks@),
            bv == elements(wsdl@, "message"@),
            fields_view(fields_out@) == base + named_block_fields(wsdl@, bv.take(j as int), msg_name@),
            found == has_named_block(bv.take(j as int), msg_name@),
        decreases blocks@.len() - j,
    {
        let ghost prefix = bv.take(j as int);
        let matched = attribute_is(blocks[j].attributes.as_str(), "name", msg_name);
        let ghost before = fields_view(fields_out@);
        if matched {
            let parts = extract_elements(blocks[j].content.as_str(), "part");
            let ghost pv = elements_view(parts@);
            let mut k: usize = 0;
            while k < parts.len()
                invariant
                    k <= parts@.len(),
                    pv == elements_view(parts@),
                    fields_view(fields_out@) == before + parts_fields(wsdl@, pv.take(k as int)),
                decreases parts@.len() - k,
            {
                push_part_fields(wsdl, parts[k].attributes.as_str(), fields_out);
                proof {
                    assert(pv.take(k + 1).drop_last() =~= pv.take(k as int));
                    assert(pv.take(k + 1).last() == parts@[k as int]@);
                }
                k = k + 1;
            }
            proof {
                assert(pv.take(parts@.len() as int) =~= pv);
            }
            found = true;
        }
        proof {
            assert(bv.take(j + 1).drop_last() =~= prefix);
            assert(bv.take(j + 1).last() == blocks@[j as int]@);
        }
        j = j + 1;
    }
    proof {
        assert(bv.take(blocks@.len() as int) =~= bv);
    }
    if !found {
        let ghost prev = fields_out@;
        fields_out.push(WsdlField {
            name: "data".to_string(),
            rust_type: "String".to_string(),
            xml_name: "data".to_string(),
            optional: false,
        });
        proof {
            lemma_no_named_block_no_fields(wsdl@, bv, msg_name@);
            assert(fields_view(fields_out@) =~= base + message_fields(wsdl@, msg_name@));
        }
    }
}

/// Without a message element named `name` there are no named-block fields.
proof fn lemma_no_named_block_no_fields(wsdl: Seq<char>, blocks: Seq<XmlElementView>, name: Seq<char>)
    requires
        !has_named_block(blocks, name),
    ensures
        named_block_fields(wsdl, blocks, name) == Seq::<WsdlFieldView>::empty(),
    decreases blocks.len(),
{
    if blocks.len() > 0 {
        lemma_no_named_block_no_fields(wsdl, blocks.drop_last(), name);
        assert(named_block_fields(wsdl, blocks, name) =~= Seq::<WsdlFieldView>::empty());
    }
}

/// The fields of the messages referenced by the `message` attributes of the
/// given elements, in order; the reference is read after its last `:`.
pub open spec fn io_fields(wsdl: Seq<char>, blocks: Seq<XmlElementView>) -> Seq<WsdlFieldView>
    decreases blocks.len(),
{
    if blocks.len() == 0 {
        Seq::empty()
    } else {
        io_fields(wsdl, blocks.drop_last()) + match attribute_value(blocks.last().attributes, "message"@) {
            Some(r) => message_fields(wsdl, after_last(r, ':')),
            None => Seq::empty(),
        }
    }
}

/// Append the fields of the messages that `blocks` reference.
fn collect_io_fields(wsdl: &str, blocks: &[XmlElement], is_request: bool, out: &mut Vec<WsdlField>)
    ensures
        fields_view(final(out)@) == fields_view(old(out)@) + io_fields(wsdl@, elements_view(blocks@)),
{
    let ghost base = fields_view(out@);
    let ghost bv = elements_view(blocks@);
    let mut i: usize = 0;
    while i < blocks.len()
        invariant
            i <= blocks@.len(),
            bv == elements_view(blocks@),
            fields_view(out@) == base + io_fields(wsdl@, bv.take(i as int)),
        decreases blocks@.len() - i,
    {
        if let Some(msg_ref) = extract_attribute(blocks[i].attributes.as_str(), "message") {
            let rc = chars_of(msg_ref.as_str());
            let msg_name = after_last_exec(rc.as_slice(), ':');
            parse_message_parts(wsdl, msg_name.as_str(), is_request, out);
        }
        proof {
            assert(bv.take(i + 1).drop_last() =~= bv.take(i as int));
            assert(bv.take(i + 1).last() == blocks@[i as int]@);
            assert(fields_view(out@) =~= base + io_fields(wsdl@, bv.take(i + 1)));
        }
        i = i + 1;
    }
    proof {
        assert(bv.take(blocks@.len() as int) =~= bv);
    }
}

/// Parse input and output elements into request and response fields: the
/// request from the messages the given input elements reference, the
/// response from those that the `output` elements of `wsdl` reference.
pub fn parse_input_output(wsdl: &str, input_blocks: &[XmlElement]) -> (r: (
    Vec<WsdlField>,
    Vec<WsdlField>,
))
    ensures
        fields_view(r.0@) == io_fields(wsdl@, elements_view(input_blocks@)),
        fields_view(r.1@) == io_fields(wsdl@, elements(wsdl@, "output"@)),
{
    let mut request_fields: Vec<WsdlField> = Vec::new();
    let mut response_fields: Vec<WsdlField> = Vec::new();
    collect_io_fields(wsdl, input_blocks, true, &mut request_fields);
    let output_blocks = extract_elements(wsdl, "output");
    collect_io_fields(wsdl, output_blocks.as_slice(), false, &mut response_fields);
    proof {
        assert(fields_view(Seq::<WsdlField>::empty()) =~= Seq::<WsdlFieldView>::empty());
        assert(fields_view(request_fields@) =~= io_fields(wsdl@, elements_view(input_blocks@)));
        assert(fields_view(response_fields@) =~= io_fields(wsdl@, elements(wsdl@, "output"@)));
    }
    (request_fields, response_fields)
}

/// A WSDL message definition with its first part.
#[derive(Debug)]
pub struct WsdlMessage {
    /// The message name.
    pub name: String,
    /// The name of its first part.
    pub part_name: String,
    /// The element (or type) its first part refers to.
    pub element_name: String,
}

/// The model of a message definition.
pub struct WsdlMessageView {
    /// The message name.
    pub name: Seq<char>,
    /// The name of its first part.
    pub part_name: Seq<char>,
    /// The element (or type) its first part refers to.
    pub element_name: Seq<char>,
}

impl View for WsdlMessage {
    type V = WsdlMessageView;

    open spec fn view(&self) -> WsdlMessageView {
        WsdlMessageView { name: self.name@, part_name: self.part_name@, element_name: self.element_name@ }
    }
}

/// The message a `message` element defines: its `name`, and of its first
/// `part` the `name` and the `element` (else `type`, else empty) reference;
/// `None` when the element has no name, no part, or the part no name.
pub open spec fn message_of(msg: XmlElementView) -> Option<WsdlMessageView> {
    match attribute_value(msg.attributes, "name"@) {
        None => None,
        Some(name) => {
            let parts = elements(msg.content, "part"@);
            if parts.len() == 0 {
                None
            } else {
                let pa = parts[0].attributes;
                match attribute_value(pa, "name"@) {
                    None => None,
                    Some(part_name) => Some(
                        WsdlMessageView {
                            name,
                            part_name,
                            element_name: match attribute_value(pa, "element"@) {
                                Some(e) => e,
                                None => match attribute_value(pa, "type"@) {
                                    Some(t) => t,
                                    None => Seq::empty(),
                                },
                            },
                        },
                    ),
                }
            }
        },
    }
}

/// Parse a WSDL message definition.
pub fn parse_message(message: &XmlElement) -> (r: Option<WsdlMessage>)
    ensures
        match r {
            Some(m) => message_of(message@) == Some(m@),
            None => message_of(message@) is None,
        },
{
    let name = match extract_attribute(message.attributes.as_str(), "name") {
        Some(n) => n,
        None => return None,
    };
    let parts = extract_elements(message.content.as_str(), "part");
    if parts.len() == 0 {
        return None;
    }
    proof {
        assert(elements_view(parts@)[0] == parts@[0]@);
    }
    let pa = parts[0].attributes.as_str();
    let part_name = match extract_attribute(pa, "name") {
        Some(n) => n,
        None => return None,
    };
    let element_ref = match extract_attribute(pa, "element") {
        Some(e) => Some(e),
        None => extract_attribute(pa, "type"),
    };
    let element_name = match element_ref {
        Some(e) => e,
        None => String::new(),
    };
    Some(WsdlMessage { name, part_name, element_name })
}

/// A SOAP operation found in a WSDL.
#[derive(Debug)]
pub struct WsdlOperation {
    /// The operation name.
    pub name: String,
    /// The SOAP action URI.
    pub action: String,
    /// The service endpoint.
    pub endpoint: String,
    /// The target namespace.
    pub namespace: String,
    /// The request body element name.
    pub body_element: String,
    /// The SOAP version of the service.
    pub version: SoapVersion,
    /// The request fields.
    pub request_fields: Vec<WsdlField>,
    /// The response fields.
    pub response_fields: Vec<WsdlField>,
}

/// The model of an operation.
pub struct WsdlOperationView {
    /// The operation name.
    pub name: Seq<char>,
    /// The SOAP action URI.
    pub action: Seq<char>,
    /// The service endpoint.
    pub endpoint: Seq<char>,
    /// The target namespace.
    pub namespace: Seq<char>,
    /// The request body element name.
    pub body_element: Seq<char>,
    /// The SOAP version of the service.
    pub version: SoapVersion,
    /// The request fields.
    pub request_fields: Seq<WsdlFieldView>,
    /// The response fields.
    pub response_fields: Seq<WsdlFieldView>,
}

impl View for WsdlOperation {
    type V = WsdlOperationView;

    open spec fn view(&self) -> WsdlOperationView {
        WsdlOperationView {
            name: self.name@,
            action: self.action@,
            endpoint: self.endpoint@,
            namespace: self.namespace@,
            body_element: self.body_element@,
            version: self.version,
            request_fields: fields_view(self.request_fields@),
            response_fields: fields_view(self.response_fields@),
        }
    }
}

/// The first of `els` whose qualified name is `q`.
pub open spec fn first_qualified(els: Seq<XmlElementView>, q: Seq<char>) -> Option<XmlElementView>
    decreases els.len(),
{
    if els.len() == 0 {
        None
    } else if els[0].name == q {
        Some(els[0])
    } else {
        first_qualified(els.drop_first(), q)
    }
}

/// The address element the endpoint is read from: the first `soap:address`
/// of `wsdl`, else its first `address` element of any prefix.
pub open spec fn endpoint_element(wsdl: Seq<char>) -> Option<XmlElementView> {
    let addresses = elements(wsdl, "address"@);
    match first_qualified(addresses, "soap:address"@) {
        Some(a) => Some(a),
        None => if addresses.len() > 0 {
            Some(addresses[0])
        } else {
            None
        },
    }
}

/// The endpoint of `wsdl`: the `location` attribute of its endpoint
/// element (empty without one), else empty.
pub open spec fn endpoint_of(wsdl: Seq<char>) -> Seq<char> {
    match endpoint_element(wsdl) {
        Some(a) => match attribute_value(a.attributes, "location"@) {
            Some(l) => l,
            None => Seq::empty(),
        },
        None => Seq::empty(),
    }
}

/// The SOAP 1.2 binding namespace of WSDL.
pub const WSDL_SOAP12_NS: &'static str = "http://schemas.xmlsoap.org/wsdl/soap12/";

/// The SOAP version a WSDL binds to: 1.2 when it mentions the SOAP 1.2
/// binding namespace, 1.1 otherwise.
pub open spec fn wsdl_version(wsdl: Seq<char>) -> SoapVersion {
    if contains_seq(wsdl, WSDL_SOAP12_NS@) {
        SoapVersion::V12
    } else {
        SoapVersion::V11
    }
}

/// The SOAP version a WSDL binds to.
pub fn detect_wsdl_version(wsdl: &str) -> (r: SoapVersion)
    ensures
        r == wsdl_version(wsdl@),
{
    let w = chars_of(wsdl);
    let ns = chars_of(WSDL_SOAP12_NS);
    if find_chars(w.as_slice(), ns.as_slice(), 0).is_some() {
        SoapVersion::V12
    } else {
        SoapVersion::V11
    }
}

/// The operation an `operation` element of `wsdl` describes, in namespace
/// `ns`; `None` when the element has no `name` attribute.
pub open spec fn operation_of(wsdl: Seq<char>, op: XmlElementView, ns: Seq<char>) -> Option<WsdlOperationView> {
    match attribute_value(op.attributes, "name"@) {
        None => None,
        Some(name) => {
            let inputs = elements(op.content, "input"@);
            let default_action = ns + "#"@ + name;
            Some(
                WsdlOperationView {
                    name,
                    action: if inputs.len() > 0 {
                        match attribute_value(inputs[0].attributes, "soap:action"@) {
                            Some(a) => a,
                            None => default_action,
                        }
                    } else {
                        default_action
                    },
                    endpoint: endpoint_of(wsdl),
                    namespace: ns,
                    body_element: name + "Request"@,
                    version: wsdl_version(wsdl),
                    request_fields: io_fields(wsdl, inputs),
                    response_fields: io_fields(wsdl, elements(wsdl, "output"@)),
                },
            )
        },
    }
}

/// The position of the first of `els` whose qualified name is `q`.
fn first_qualified_index(els: &Vec<XmlElement>, q: &str) -> (r: Option<usize>)
    ensures
        match r {
            Some(i) => i < els@.len() && first_qualified(elements_view(els@), q@) == Some(els@[i as int]@),
            None => first_qualified(elements_view(els@), q@) is None,
        },
{
    let ghost ev = elements_view(els@);
    let wanted = q.to_string();
    let mut i: usize = 0;
    proof {
        assert(ev.skip(0) =~= ev);
    }
    while i < els.len()
        invariant
            i <= els@.len(),
            ev == elements_view(els@),
            wanted@ == q@,
            first_qualified(ev, q@) == first_qualified(ev.skip(i as int), q@),
        decreases els@.len() - i,
    {
        proof {
            assert(ev.skip(i as int)[0] == els@[i as int]@);
            assert(ev.skip(i as int).drop_first() =~= ev.skip(i + 1));
        }
        if els[i].name == wanted {
            return Some(i);
        }
        i = i + 1;
    }
    proof {
        assert(ev.skip(i as int).len() == 0);
    }
    None
}

/// The endpoint of `wsdl`.
fn endpoint_exec(wsdl: &str) -> (r: String)
    ensures
        r@ == endpoint_of(wsdl@),
{
    let addresses = extract_elements(wsdl, "address");
    let i = match first_qualified_index(&addresses, "soap:address") {
        Some(i) => i,
        None => {
            if addresses.len() == 0 {
                return String::new();
            }
            0
        },
    };
    proof {
        assert(elements_view(addresses@)[i as int] == addresses@[i as int]@);
    }
    match extract_attribute(addresses[i].attributes.as_str(), "location") {
        Some(l) => l,
        None => String::new(),
    }
}

/// Parse a single operation from its `operation` element.
///
/// Fails when the element has no `name` attribute.
pub fn parse_single_operation(wsdl: &str, op: &XmlElement, namespace: &str) -> (r: Result<WsdlOperation, String>)
    ensures
        match r {
            Ok(o) => operation_of(wsdl@, op@, namespace@) == Some(o@),
            Err(e) => operation_of(wsdl@, op@, namespace@) is None
                && e@ == "Could not find operation name"@,
        },
{
    let name = match extract_attribute(op.attributes.as_str(), "name") {
        Some(n) => n,
        None => return Err("Could not find operation name".to_string()),
    };
    let inputs = extract_elements(op.content.as_str(), "input");
    let mut default_action = String::new();
    default_action.append(namespace);
    default_action.append("#");
    default_action.append(name.as_str());
    let action = if inputs.len() > 0 {
        proof {
            assert(elements_view(inputs@)[0] == inputs@[0]@);
        }
        match extract_attribute(inputs[0].attributes.as_str(), "soap:action") {
            Some(a) => a,
            None => default_action,
        }
    } else {
        default_action
    };
    let address = endpoint_exec(wsdl);
    let (request_fields, response_fields) = parse_input_output(wsdl, inputs.as_slice());
    let mut body_element = String::new();
    body_element.append(name.as_str());
    body_element.append("Request");
    let ns = namespace.to_string();
    Ok(
        WsdlOperation {
            name,
            action,
            endpoint: address,
            namespace: ns,
            body_element,
            version: detect_wsdl_version(wsdl),
            request_fields,
            response_fields,
        },
    )
}

/// A parsed WSDL document with operations and message definitions.
#[derive(Debug)]
pub struct ParsedWsdl {
    /// The content of the `targetNamespace` element, or empty.
    pub target_namespace: String,
    /// The operations found, in order.
    pub operations: Vec<WsdlOperation>,
    /// The message definitions found, in order.
    pub messages: Vec<WsdlMessage>,
}

/// The model of a parsed WSDL document.
pub struct ParsedWsdlView {
    /// The target namespace.
    pub target_namespace: Seq<char>,
    /// The operations.
    pub operations: Seq<WsdlOperationView>,
    /// The message definitions.
    pub messages: Seq<WsdlMessageView>,
}

impl View for ParsedWsdl {
    type V = ParsedWsdlView;

    open spec fn view(&self) -> ParsedWsdlView {
        ParsedWsdlView {
            target_namespace: self.target_namespace@,
            operations: self.operations@.map_values(|o: WsdlOperation| o@),
            messages: self.messages@.map_values(|m: WsdlMessage| m@),
        }
    }
}

/// The operations of the given `operation` elements that have a name, in
/// order.
pub open spec fn operations_of(wsdl: Seq<char>, blocks: Seq<XmlElementView>, ns: Seq<char>) -> Seq<WsdlOperationView>
    decreases blocks.len(),
{
    if blocks.len() == 0 {
        Seq::empty()
    } else {
        operations_of(wsdl, blocks.drop_last(), ns) + match operation_of(wsdl, blocks.last(), ns) {
            Some(op) => seq![op],
            None => Seq::empty(),
        }
    }
}

/// The messages that the given `message` elements define, in order.
pub open spec fn messages_of(blocks: Seq<XmlElementView>) -> Seq<WsdlMessageView>
    decreases blocks.len(),
{
    if blocks.len() == 0 {
        Seq::empty()
    } else {
        messages_of(blocks.drop_last()) + match message_of(blocks.last()) {
            Some(m) => seq![m],
            None => Seq::empty(),
        }
    }
}

/// The parse of a WSDL text: the `targetNamespace` element content (or
/// empty), the operations of its `operation` elements, the messages of its
/// `message` elements.
pub open spec fn parsed_wsdl(wsdl: Seq<char>) -> ParsedWsdlView {
    let ns = match tag_content(wsdl, "targetNamespace"@) {
        Some(t) => t,
        None => Seq::empty(),
    };
    ParsedWsdlView {
        target_namespace: ns,
        operations: operations_of(wsdl, elements(wsdl, "operation"@), ns),
        messages: messages_of(elements(wsdl, "message"@)),
    }
}

impl ParsedWsdl {
    /// Parse a WSDL string into operations and message definitions.
    #[verifier::rlimit(40)]
    pub fn parse(wsdl: &str) -> (r: Self)
        ensures
            r@ == parsed_wsdl(wsdl@),
    {
        let target_namespace = match extract_tag_content(wsdl, "targetNamespace") {
            Some(t) => t,
            None => String::new(),
        };
        let mut operations: Vec<WsdlOperation> = Vec::new();
        let op_blocks = extract_elements(wsdl, "operation");
        let ghost ob = elements_view(op_blocks@);
        let mut i: usize = 0;
        while i < op_blocks.len()
            invariant
                i <= op_blocks@.len(),
                ob == elements_view(op_blocks@),
                operations@.map_values(|o: WsdlOperation| o@) == operations_of(
                    wsdl@,
                    ob.take(i as int),
                    target_namespace@,
                ),
            decreases op_blocks@.len() - i,
        {
            let ghost prev = operations@;
            if let Ok(op) = parse_single_operation(wsdl, &op_blocks[i], target_namespace.as_str()) {
                operations.push(op);
            }
            proof {
                assert(ob.take(i + 1).drop_last() =~= ob.take(i as int));
                assert(ob.take(i + 1).last() == op_blocks@[i as int]@);
                assert(operations@.map_values(|o: WsdlOperation| o@) =~= operations_of(
                    wsdl@,
                    ob.take(i + 1),
                    target_namespace@,
                ));
            }
            i = i + 1;
        }
        proof {
            assert(ob.take(op_blocks@.len() as int) =~= ob);
        }
        let mut messages: Vec<WsdlMessage> = Vec::new();
        let msg_blocks = extract_elements(wsdl, "message");
        let ghost mb = elements_view(msg_blocks@);
        let mut j: usize = 0;
        while j < msg_blocks.len()
            invariant
                j <= msg_blocks@.len(),
                mb == elements_view(msg_blocks@),
                messages@.map_values(|m: WsdlMessage| m@) == messages_of(mb.take(j as int)),
            decreases msg_blocks@.len() - j,
        {
            if let Some(m) = parse_message(&msg_blocks[j]) {
                messages.push(m);
            }
            proof {
                assert(mb.take(j + 1).drop_last() =~= mb.take(j as int));
                assert(mb.take(j + 1).last() == msg_blocks@[j as int]@);
                assert(messages@.map_values(|m: WsdlMessage| m@) =~= messages_of(mb.take(j + 1)));
            }
            j = j + 1;
        }
        proof {
            assert(mb.take(msg_blocks@.len() as int) =~= mb);
        }
        ParsedWsdl { target_namespace, operations, messages }
    }
}


/// The Rust type that the schema type `t` (with any prefix) maps to:
/// `string` to `String`, `int` to `i32`, `long` to `i64`, `float`,
/// `double` and `decimal` to `f64`, `boolean` to `bool`, anything else to
/// `String`.
pub proof fn lemma_xsd_type_table(attrs: Seq<char>, t: Seq<char>)
    requires
        attribute_value(attrs, "name"@) is Some,
        attribute_value(attrs, "type"@) == Some(t),
        attribute_value(attrs, "maxOccurs"@) != Some("unbounded"@),
        attribute_value(attrs, "minOccurs"@) != Some("0"@),
        attribute_value(attrs, "nillable"@) != Some("true"@),
    ensures
        xsd_field(attrs) matches Some(f) && !f.optional && ({
            let local = after_last(t, ':');
            &&& (local == "string"@ ==> f.rust_type == "String"@)
            &&& (local == "int"@ ==> f.rust_type == "i32"@)
            &&& (local == "long"@ ==> f.rust_type == "i64"@)
            &&& (local == "float"@ ==> f.rust_type == "f64"@)
            &&& (local == "double"@ ==> f.rust_type == "f64"@)
            &&& (local == "decimal"@ ==> f.rust_type == "f64"@)
            &&& (local == "boolean"@ ==> f.rust_type == "bool"@)
            &&& (local != "int"@ && local != "long"@ && local != "float"@ && local != "double"@
                && local != "decimal"@ && local != "boolean"@ ==> f.rust_type == "String"@)
        }),
{
    reveal_strlit("string");
    reveal_strlit("int");
    reveal_strlit("long");
    reveal_strlit("float");
    reveal_strlit("double");
    reveal_strlit("decimal");
    reveal_strlit("boolean");
    reveal_strlit("bool");
    reveal_strlit("i32");
    reveal_strlit("i64");
    reveal_strlit("f64");
    reveal_strlit("String");
    let local = after_last(t, ':');
    assert("int"@.len() == 3 && "long"@.len() == 4 && "float"@.len() == 5 && "double"@.len() == 6
        && "string"@.len() == 6 && "decimal"@.len() == 7 && "boolean"@.len() == 7);
    assert("string"@ != "int"@ && "string"@ != "long"@ && "string"@ != "float"@ && "string"@ != "decimal"@
        && "string"@ != "boolean"@) by {
        assert("string"@.len() == 6);
    }
    assert("string"@ != "double"@) by {
        assert("string"@[0] != "double"@[0]);
    }
    assert("boolean"@ != "decimal"@) by {
        assert("boolean"@[0] != "decimal"@[0]);
    }
    assert("boolean"@ != "int"@ && "boolean"@ != "long"@ && "boolean"@ != "float"@ && "boolean"@
        != "double"@);
    assert("decimal"@ != "int"@ && "decimal"@ != "long"@ && "decimal"@ != "float"@ && "decimal"@
        != "double"@);
    assert("double"@ != "int"@ && "double"@ != "long"@ && "double"@ != "float"@);
    assert("float"@ != "int"@ && "float"@ != "long"@);
    assert("long"@ != "int"@);
}

/// How occurrence attributes shape a field: a repeating element
/// (`maxOccurs="unbounded"`) is a `Vec` of its type and never optional,
/// whatever its `minOccurs` and `nillable`; an element that may be absent
/// (`minOccurs="0"`) or nil (`nillable="true"`) and does not repeat is an
/// optional `Option` of its type; any other is its type, required. The
/// field keeps the element's name as its XML name and takes it in snake
/// case as its Rust name.
pub proof fn lemma_xsd_occurrence(attrs: Seq<char>, n: Seq<char>)
    requires
        attribute_value(attrs, "name"@) == Some(n),
    ensures
        xsd_field(attrs) matches Some(f) && ({
            let base = match attribute_value(attrs, "type"@) {
                Some(t) => xsd_rust_type(after_last(t, ':')),
                None => "String"@,
            };
            &&& f.xml_name == n
            &&& f.name == snake_case(n)
            &&& (attribute_value(attrs, "maxOccurs"@) == Some("unbounded"@) ==> f.rust_type == "Vec<"@
                + base + ">"@ && !f.optional)
            &&& (attribute_value(attrs, "maxOccurs"@) != Some("unbounded"@) && (attribute_value(
                attrs,
                "minOccurs"@,
            ) == Some("0"@) || attribute_value(attrs, "nillable"@) == Some("true"@))
                ==> f.rust_type == "Option<"@ + base + ">"@ && f.optional)
            &&& (attribute_value(attrs, "maxOccurs"@) != Some("unbounded"@) && attribute_value(
                attrs,
                "minOccurs"@,
            ) != Some("0"@) && attribute_value(attrs, "nillable"@) != Some("true"@) ==> f.rust_type
                == base && !f.optional)
        }),
{
}

/// Without a `soap:address`, the endpoint is the `location` of the first
/// `address` element of any prefix (such as `wsdlsoap:address`), and every
/// operation parsed from the WSDL has it; with one, the first
/// `soap:address` gives it.
pub proof fn lemma_endpoint_any_prefix(wsdl: Seq<char>, u: Seq<char>)
    requires
        ({
            let addresses = elements(wsdl, "address"@);
            match first_qualified(addresses, "soap:address"@) {
                Some(a) => attribute_value(a.attributes, "location"@) == Some(u),
                None => addresses.len() > 0 && attribute_value(addresses[0].attributes, "location"@)
                    == Some(u),
            }
        }),
    ensures
        endpoint_of(wsdl) == u,
        forall|i: int|
            0 <= i < parsed_wsdl(wsdl).operations.len() ==> (#[trigger] parsed_wsdl(wsdl).operations[i]).endpoint
                == u,
{
    let ns = parsed_wsdl(wsdl).target_namespace;
    lemma_operations_endpoint(wsdl, elements(wsdl, "operation"@), ns);
}

/// Every operation of a WSDL has the WSDL's endpoint.
proof fn lemma_operations_endpoint(wsdl: Seq<char>, blocks: Seq<XmlElementView>, ns: Seq<char>)
    ensures
        forall|i: int|
            0 <= i < operations_of(wsdl, blocks, ns).len() ==> (#[trigger] operations_of(wsdl, blocks, ns)[i]).endpoint
                == endpoint_of(wsdl),
    decreases blocks.len(),
{
    if blocks.len() > 0 {
        lemma_operations_endpoint(wsdl, blocks.drop_last(), ns);
        let prev = operations_of(wsdl, blocks.drop_last(), ns);
        assert forall|i: int|
            0 <= i < operations_of(wsdl, blocks, ns).len() implies (#[trigger] operations_of(
            wsdl,
            blocks,
            ns,
        )[i]).endpoint == endpoint_of(wsdl) by {
            if i < prev.len() {
                assert(operations_of(wsdl, blocks, ns)[i] == prev[i]);
            }
        }
    }
}

} // verus!
