//! SOAP envelope construction and parsing.

use vstd::prelude::*;
use vstd::string::StringExecFns;

use crate::text::{
    chars_of, contains_char_in, contains_seq, find_chars, find_from, is_white_space, is_white_space_exec,
    all_white, copy_range, lemma_find_from, lemma_find_from_at, lemma_find_from_none,
    lemma_mismatch, lemma_no_match_across, lemma_no_match_by_first, lemma_no_match_in_segment,
    lemma_contains_seq, lemma_trim_surrounded, lemma_trim_unchanged, opt_string_view, matches_at,
    matches_at_exec, push_str_chars, string_of, trim, trim_bounds, xml_trim, xml_trim_bounds,
};
use crate::xml::{
    children, children_chars, is_name_char, lemma_no_colon_local, lemma_one_child, lemma_two_children, local_name,
    simple_parts, triples_view, written_element,
};
use crate::wsdl::{attribute_value, extract_attribute, lemma_attribute_absent};

verus! {

broadcast use vstd::string::group_string_axioms;

/// The SOAP 1.1 Envelope namespace URI.
pub const SOAP_NS_ENVELOPE: &'static str = "http://schemas.xmlsoap.org/soap/envelope/";

/// The SOAP 1.2 Envelope namespace URI.
pub const SOAP_NS_ENVELOPE_12: &'static str = "http://www.w3.org/2003/05/soap-envelope";

/// The SOAP protocol version an operation speaks.
#[derive(Debug, Clone, Copy, PartialEq, Eq, Structural)]
pub enum SoapVersion {
    /// SOAP 1.1: `soap:` prefix and the legacy envelope namespace.
    V11,
    /// SOAP 1.2: `env:` prefix and the 2003 envelope namespace.
    V12,
}

/// The envelope namespace URI of a version.
pub open spec fn version_namespace(v: SoapVersion) -> Seq<char> {
    match v {
        SoapVersion::V11 => SOAP_NS_ENVELOPE@,
        SoapVersion::V12 => SOAP_NS_ENVELOPE_12@,
    }
}

/// The envelope tag prefix of a version.
pub open spec fn version_prefix(v: SoapVersion) -> Seq<char> {
    match v {
        SoapVersion::V11 => "soap"@,
        SoapVersion::V12 => "env"@,
    }
}

impl SoapVersion {
    /// The XML namespace URI for this version's envelope.
    pub fn namespace(self) -> (r: &'static str)
        ensures
            r@ == version_namespace(self),
    {
        match self {
            SoapVersion::V11 => SOAP_NS_ENVELOPE,
            SoapVersion::V12 => SOAP_NS_ENVELOPE_12,
        }
    }

    /// The prefix used in serialized XML for this version's envelope tags.
    pub fn prefix(self) -> (r: &'static str)
        ensures
            r@ == version_prefix(self),
    {
        match self {
            SoapVersion::V11 => "soap",
            SoapVersion::V12 => "env",
        }
    }
}

impl Default for SoapVersion {
    fn default() -> (r: Self)
        ensures
            r == SoapVersion::V11,
    {
        SoapVersion::V11
    }
}


/// The inner content between the first `open` and the first `close` after
/// it, trimmed; `None` when `open` is missing, ends the text, or no `close`
/// follows it.
pub open spec fn tagged_body(x: Seq<char>, open: Seq<char>, close: Seq<char>) -> Option<Seq<char>> {
    match find_from(x, open, 0) {
        None => None,
        Some(st) => if st + open.len() >= x.len() {
            None
        } else {
            match find_from(x, close, st + open.len()) {
                None => None,
                Some(e) => Some(trim(x.subrange(st + open.len(), e))),
            }
        },
    }
}

/// The content of the SOAP Body of `x`: inside `<soap:Body>`, else inside
/// `<env:Body>`, else inside an unprefixed `<Body>`.
pub open spec fn soap_body(x: Seq<char>) -> Option<Seq<char>> {
    if tagged_body(x, "<soap:Body>"@, "</soap:Body>"@) is Some {
        tagged_body(x, "<soap:Body>"@, "</soap:Body>"@)
    } else if tagged_body(x, "<env:Body>"@, "</env:Body>"@) is Some {
        tagged_body(x, "<env:Body>"@, "</env:Body>"@)
    } else {
        tagged_body(x, "<Body>"@, "</Body>"@)
    }
}

/// `tagged_body` on character slices.
fn tagged_body_chars(x: &[char], open: &[char], close: &[char]) -> (r: Option<String>)
    ensures
        match r {
            Some(b) => tagged_body(x@, open@, close@) == Some(b@),
            None => tagged_body(x@, open@, close@) is None,
        },
{
    let start = match find_chars(x, open, 0) {
        Some(st) => st,
        None => return None,
    };
    proof {
        lemma_find_from(x@, open@, 0);
        assert(start + open@.len() <= x@.len());
        assert(x@.len() == x.len());
    }
    let body_start = start + open.len();
    if body_start >= x.len() {
        return None;
    }
    let end = match find_chars(x, close, body_start) {
        Some(e) => e,
        None => return None,
    };
    proof {
        lemma_find_from(x@, close@, body_start as int);
    }
    let (a, b) = trim_bounds(x, body_start, end);
    Some(string_of(x, a, b))
}

/// Extract content between `open_tag` and `close_tag` in `xml`, if both are
/// present and `open_tag` occurs before `close_tag`.
pub fn extract_tagged_body(xml: &str, open_tag: &str, close_tag: &str) -> (r: Option<String>)
    ensures
        match r {
            Some(b) => tagged_body(xml@, open_tag@, close_tag@) == Some(b@),
            None => tagged_body(xml@, open_tag@, close_tag@) is None,
        },
{
    let x = chars_of(xml);
    let open = chars_of(open_tag);
    let close = chars_of(close_tag);
    tagged_body_chars(x.as_slice(), open.as_slice(), close.as_slice())
}

/// A custom deserialization error with the given message.
///
/// Calls `quick_xml::de::DeError::Custom`; nothing is claimed of the value.
#[verifier::external_body]
fn custom_error(message: &str) -> quick_xml::de::DeError {
    quick_xml::de::DeError::Custom(message.to_string())
}

/// The content of the SOAP Body of `x`, from its characters.
fn soap_body_chars(x: &[char]) -> (r: Option<String>)
    ensures
        match r {
            Some(b) => soap_body(x@) == Some(b@),
            None => soap_body(x@) is None,
        },
{
    let open = chars_of("<soap:Body>");
    let close = chars_of("</soap:Body>");
    if let Some(b) = tagged_body_chars(x, open.as_slice(), close.as_slice()) {
        return Some(b);
    }
    let open = chars_of("<env:Body>");
    let close = chars_of("</env:Body>");
    if let Some(b) = tagged_body_chars(x, open.as_slice(), close.as_slice()) {
        return Some(b);
    }
    let open = chars_of("<Body>");
    let close = chars_of("</Body>");
    tagged_body_chars(x, open.as_slice(), close.as_slice())
}

/// Extract the inner XML content from inside `<soap:Body>` (or `<env:Body>`)
/// tags, falling back to an unprefixed `<Body>`.
///
/// Returns an error if no Body tag is found.
pub fn extract_body(xml: &str) -> (r: Result<String, quick_xml::de::DeError>)
    ensures
        match r {
            Ok(b) => soap_body(xml@) == Some(b@),
            Err(_) => soap_body(xml@) is None,
        },
{
    let x = chars_of(xml);
    match soap_body_chars(x.as_slice()) {
        Some(b) => Ok(b),
        None => Err(custom_error("could not find Body tag in SOAP envelope")),
    }
}

/// The `is_soap_fault` marker test.
pub open spec fn looks_like_fault(x: Seq<char>) -> bool {
    contains_seq(x, "<soap:Fault"@) || contains_seq(x, "<env:Fault"@) || contains_seq(
        x,
        "<Fault xmlns="@,
    )
}

/// Whether `pat` occurs in `x`.
fn contains_chars(x: &[char], pat: &str) -> (r: bool)
    ensures
        r == contains_seq(x@, pat@),
{
    let p = chars_of(pat);
    find_chars(x, p.as_slice(), 0).is_some()
}

/// Quick check for whether an XML payload appears to be a SOAP fault:
/// it contains `<soap:Fault`, `<env:Fault`, or `<Fault xmlns=`.
pub fn is_soap_fault(xml: &str) -> (r: bool)
    ensures
        r == looks_like_fault(xml@),
{
    let x = chars_of(xml);
    contains_chars(x.as_slice(), "<soap:Fault") || contains_chars(x.as_slice(), "<env:Fault")
        || contains_chars(x.as_slice(), "<Fault xmlns=")
}

/// The SOAP version a fault document is read as: 1.2 when it mentions the
/// 1.2 envelope namespace, 1.1 otherwise.
pub open spec fn fault_version(x: Seq<char>) -> SoapVersion {
    if contains_seq(x, SOAP_NS_ENVELOPE_12@) {
        SoapVersion::V12
    } else {
        SoapVersion::V11
    }
}

/// Detect whether `xml` holds a SOAP 1.1 or 1.2 fault, by whether it
/// mentions the 1.2 envelope namespace. Defaults to 1.1.
pub fn detect_fault_version(xml: &str) -> (r: SoapVersion)
    ensures
        r == fault_version(xml@),
{
    let x = chars_of(xml);
    if contains_chars(x.as_slice(), SOAP_NS_ENVELOPE_12) {
        SoapVersion::V12
    } else {
        SoapVersion::V11
    }
}

/// The markup of a SOAP 1.1 fault before its code.
pub open spec fn fault11_head() -> Seq<char> {
    "<soap:Fault xmlns:soap=\"http://schemas.xmlsoap.org/soap/envelope/\"><faultcode>"@
}

/// The markup of a SOAP 1.1 fault between code and message.
pub open spec fn fault11_mid() -> Seq<char> {
    "</faultcode><faultstring>"@
}

/// The markup of a SOAP 1.1 fault after its message.
pub open spec fn fault11_tail() -> Seq<char> {
    "</faultstring></soap:Fault>"@
}

/// The markup of a SOAP 1.2 fault before its code.
pub open spec fn fault12_head() -> Seq<char> {
    "<env:Fault xmlns:env=\"http://www.w3.org/2003/05/soap-envelope\"><Code><Value>"@
}

/// The markup of a SOAP 1.2 fault between code and message.
pub open spec fn fault12_mid() -> Seq<char> {
    "</Value></Code><Reason><Text xml:lang=\"en\">"@
}

/// The markup of a SOAP 1.2 fault after its message.
pub open spec fn fault12_tail() -> Seq<char> {
    "</Text></Reason></env:Fault>"@
}

/// The text of a serialized fault: the version's `Fault` element, with its
/// namespace declared on it, holding the code and the message.
pub open spec fn fault_text(v: SoapVersion, code: Seq<char>, message: Seq<char>) -> Seq<char> {
    match v {
        SoapVersion::V11 => fault11_head() + code + fault11_mid() + message + fault11_tail(),
        SoapVersion::V12 => fault12_head() + code + fault12_mid() + message + fault12_tail(),
    }
}

/// Serialize a SOAP fault into an XML string for manual transport.
///
/// Uses `<faultcode>` / `<faultstring>` for SOAP 1.1 and
/// `<Code><Value>` / `<Reason><Text>` for SOAP 1.2.
pub fn serialize_fault(version: SoapVersion, code: &str, message: &str) -> (r: String)
    ensures
        r@ == fault_text(version, code@, message@),
{
    let mut r = String::new();
    match version {
        SoapVersion::V11 => {
            r.append("<soap:Fault xmlns:soap=\"http://schemas.xmlsoap.org/soap/envelope/\"><faultcode>");
            r.append(code);
            r.append("</faultcode><faultstring>");
            r.append(message);
            r.append("</faultstring></soap:Fault>");
        },
        SoapVersion::V12 => {
            r.append("<env:Fault xmlns:env=\"http://www.w3.org/2003/05/soap-envelope\"><Code><Value>");
            r.append(code);
            r.append("</Value></Code><Reason><Text xml:lang=\"en\">");
            r.append(message);
            r.append("</Text></Reason></env:Fault>");
        },
    }
    r
}

/// The markup of a SOAP 1.1 envelope before its action.
pub open spec fn envelope11_head() -> Seq<char> {
    "<?xml version=\"1.0\" encoding=\"UTF-8\"?>\n<soap:Envelope xmlns:soap=\"http://schemas.xmlsoap.org/soap/envelope/\">\n    <soap:Header>\n       <Action soap:mustUnderstand=\"true\" xmlns=\"http://schemas.xmlsoap.org/ws/2004/08/addressing\">"@
}

/// The markup of a SOAP 1.1 envelope between its action and its body.
pub open spec fn envelope11_mid() -> Seq<char> {
    "</Action>\n    </soap:Header>\n    <soap:Body>\n       "@
}

/// The markup of a SOAP 1.1 envelope after its body.
pub open spec fn envelope11_tail() -> Seq<char> {
    "\n    </soap:Body>\n</soap:Envelope>"@
}

/// The markup of a SOAP 1.2 envelope before its body.
pub open spec fn envelope12_head() -> Seq<char> {
    "<?xml version=\"1.0\" encoding=\"UTF-8\"?>\n<env:Envelope xmlns:env=\"http://www.w3.org/2003/05/soap-envelope\">\n    <env:Header/>\n    <env:Body>\n       "@
}

/// The markup of a SOAP 1.2 envelope after its body.
pub open spec fn envelope12_tail() -> Seq<char> {
    "\n    </env:Body>\n</env:Envelope>"@
}

/// The text of a built envelope: an XML declaration, then the version's
/// `Envelope` with its namespace; 1.1 carries the action in a WS-Addressing
/// `Action` header element, 1.2 an empty header; then the body.
pub open spec fn envelope_text(v: SoapVersion, action: Seq<char>, body: Seq<char>) -> Seq<char> {
    match v {
        SoapVersion::V11 => envelope11_head() + action + envelope11_mid() + body + envelope11_tail(),
        SoapVersion::V12 => envelope12_head() + body + envelope12_tail(),
    }
}

/// Build a SOAP envelope XML string wrapping `action` and `body_xml` for the
/// given protocol version.
///
/// SOAP 1.1 embeds the action in a WS-Addressing `<Action>` header element;
/// SOAP 1.2 leaves the header empty (the action travels in the HTTP
/// `Content-Type`).
pub fn build_envelope(version: SoapVersion, action: &str, body_xml: &str) -> (r: String)
    ensures
        r@ == envelope_text(version, action@, body_xml@),
{
    let mut r = String::new();
    match version {
        SoapVersion::V11 => {
            r.append(
                "<?xml version=\"1.0\" encoding=\"UTF-8\"?>\n<soap:Envelope xmlns:soap=\"http://schemas.xmlsoap.org/soap/envelope/\">\n    <soap:Header>\n       <Action soap:mustUnderstand=\"true\" xmlns=\"http://schemas.xmlsoap.org/ws/2004/08/addressing\">",
            );
            r.append(action);
            r.append("</Action>\n    </soap:Header>\n    <soap:Body>\n       ");
            r.append(body_xml);
            r.append("\n    </soap:Body>\n</soap:Envelope>");
        },
        SoapVersion::V12 => {
            r.append(
                "<?xml version=\"1.0\" encoding=\"UTF-8\"?>\n<env:Envelope xmlns:env=\"http://www.w3.org/2003/05/soap-envelope\">\n    <env:Header/>\n    <env:Body>\n       ",
            );
            r.append(body_xml);
            r.append("\n    </env:Body>\n</env:Envelope>");
        },
    }
    r
}

/// An element marked nil by `xsi:nil="true"` among its attributes.
pub open spec fn is_nil(attrs: Seq<char>) -> bool {
    attribute_value(attrs, "xsi:nil"@) == Some("true"@)
}

/// Whether attributes `attrs` mark an element nil.
fn is_nil_exec(attrs: &str) -> (r: bool)
    ensures
        r == is_nil(attrs@),
{
    match extract_attribute(attrs, "xsi:nil") {
        Some(v) => v == "true".to_string(),
        None => false,
    }
}

/// The unique entry named `name` among `kids` (local name, attributes, raw
/// text) that is not marked nil, as its raw text: `Some(None)` when there
/// is none, `None` when there are several.
pub open spec fn child_named(kids: Seq<(Seq<char>, Seq<char>, Seq<char>)>, name: Seq<char>) -> Option<Option<Seq<char>>>
    decreases kids.len(),
{
    if kids.len() == 0 {
        Some(None)
    } else {
        match child_named(kids.drop_last(), name) {
            None => None,
            Some(prev) => if kids.last().0 == name && !is_nil(kids.last().1) {
                if prev is Some {
                    None
                } else {
                    Some(Some(kids.last().2))
                }
            } else {
                Some(prev)
            },
        }
    }
}

/// The raw text of the child element of local name `name` of the content
/// `s`, leaving out children marked nil: `Some(None)` when there is no such
/// child, `None` when the children are not well closed or there are several
/// such children.
pub open spec fn child_text(s: Seq<char>, name: Seq<char>) -> Option<Option<Seq<char>>> {
    match children(s) {
        None => None,
        Some(kids) => child_named(kids, name),
    }
}

/// The raw text of child `inner` of child `outer` of the content `s`.
pub open spec fn nested_text(s: Seq<char>, outer: Seq<char>, inner: Seq<char>) -> Option<Option<Seq<char>>> {
    match child_text(s, outer) {
        None => None,
        Some(None) => Some(None),
        Some(Some(c)) => child_text(c, inner),
    }
}

/// The content of the root element of `p`: its first element, which must
/// be closed, as must the elements after it. `None` otherwise.
pub open spec fn root_content(p: Seq<char>) -> Option<Seq<char>> {
    match children(p) {
        Some(kids) => if kids.len() > 0 {
            Some(kids[0].2)
        } else {
            None
        },
        None => None,
    }
}

/// The view of an optional optional string.
pub open spec fn opt_opt_view(o: Option<Option<String>>) -> Option<Option<Seq<char>>> {
    match o {
        None => None,
        Some(None) => Some(None),
        Some(Some(t)) => Some(Some(t@)),
    }
}

/// `child_named` on one entry that is not marked nil.
proof fn lemma_child_named_one(n: Seq<char>, a: Seq<char>, x: Seq<char>, name: Seq<char>)
    requires
        !is_nil(a),
    ensures
        child_named(seq![(n, a, x)], name) == (if n == name {
            Some(Some(x))
        } else {
            Some(None)
        }),
{
    assert(seq![(n, a, x)].drop_last() =~= Seq::<(Seq<char>, Seq<char>, Seq<char>)>::empty());
    assert(child_named(Seq::<(Seq<char>, Seq<char>, Seq<char>)>::empty(), name) == Some(Option::<Seq<char>>::None));
    assert(seq![(n, a, x)].last() == (n, a, x));
}

/// No attributes mark no element nil.
proof fn lemma_empty_not_nil()
    ensures
        !is_nil(Seq::empty()),
{
    reveal_strlit("xsi:nil=");
    lemma_not_nil(Seq::empty());
}

/// The language attribute of a SOAP 1.2 fault reason does not mark it nil.
proof fn lemma_lang_not_nil()
    ensures
        !is_nil(" xml:lang=\"en\""@),
{
    reveal_strlit(" xml:lang=\"en\"");
    reveal_strlit("xsi:nil=");
    let ta = " xml:lang=\"en\""@;
    assert forall|i: int| 0 <= i implies !matches_at(ta, "xsi:nil="@, i) by {
        if i < ta.len() {
            if ta[i] == 'x' {
                assert(i == 1);
                lemma_mismatch(ta, "xsi:nil="@, i, 1);
            } else {
                lemma_mismatch(ta, "xsi:nil="@, i, 0);
            }
        }
    }
    lemma_not_nil(ta);
}

/// `child_named` on two entries that are not marked nil.
proof fn lemma_child_named_two(
    n1: Seq<char>,
    a1: Seq<char>,
    x1: Seq<char>,
    n2: Seq<char>,
    a2: Seq<char>,
    x2: Seq<char>,
    name: Seq<char>,
)
    requires
        !is_nil(a1),
        !is_nil(a2),
    ensures
        child_named(seq![(n1, a1, x1), (n2, a2, x2)], name) == (if n1 == name && n2 == name {
            None
        } else if n2 == name {
            Some(Some(x2))
        } else if n1 == name {
            Some(Some(x1))
        } else {
            Some(None)
        }),
{
    lemma_child_named_one(n1, a1, x1, name);
    assert(seq![(n1, a1, x1), (n2, a2, x2)].drop_last() =~= seq![(n1, a1, x1)]);
}

/// Attributes without `xsi:nil=` do not mark an element nil.
proof fn lemma_not_nil(attrs: Seq<char>)
    requires
        forall|i: int| 0 <= i ==> !matches_at(attrs, "xsi:nil="@, i),
    ensures
        !is_nil(attrs),
{
    reveal_strlit("xsi:nil");
    reveal_strlit("=");
    assert("xsi:nil"@ + "="@ =~= "xsi:nil="@) by {
        reveal_strlit("xsi:nil=");
    }
    lemma_attribute_absent(attrs, "xsi:nil"@);
}

/// Once a prefix of `kids` repeats `name`, all of `kids` does.
proof fn lemma_child_named_none_extends(kids: Seq<(Seq<char>, Seq<char>, Seq<char>)>, name: Seq<char>, j: int)
    requires
        0 <= j <= kids.len(),
        child_named(kids.take(j), name) is None,
    ensures
        child_named(kids, name) is None,
    decreases kids.len() - j,
{
    if j < kids.len() {
        assert(kids.take(j + 1).drop_last() =~= kids.take(j));
        lemma_child_named_none_extends(kids, name, j + 1);
    } else {
        assert(kids.take(j) =~= kids);
    }
}

/// The raw text of child `name` of the content `s`.
fn child_text_exec(s: &[char], name: &str) -> (r: Option<Option<String>>)
    ensures
        opt_opt_view(r) == child_text(s@, name@),
{
    let kids = match children_chars(s) {
        Some(k) => k,
        None => return None,
    };
    let ghost kv = triples_view(kids@);
    let wanted = name.to_string();
    let mut found: Option<String> = None;
    let mut j: usize = 0;
    while j < kids.len()
        invariant
            j <= kids@.len(),
            kv == triples_view(kids@),
            children(s@) == Some(kv),
            wanted@ == name@,
            child_named(kv.take(j as int), name@) == opt_opt_view(Some(found)),
        decreases kids@.len() - j,
    {
        proof {
            assert(kv.take(j + 1).drop_last() =~= kv.take(j as int));
            assert(kv.take(j + 1).last() == (kids@[j as int].0@, kids@[j as int].1@, kids@[j as int].2@));
        }
        if kids[j].0 == wanted && !is_nil_exec(kids[j].1.as_str()) {
            if found.is_some() {
                proof {
                    assert(kv.take(j + 1).last().0 == name@);
                    assert(child_named(kv.take(j + 1), name@) is None);
                    lemma_child_named_none_extends(kv, name@, j + 1);
                }
                return None;
            }
            found = Some(kids[j].2.clone());
        }
        j = j + 1;
    }
    proof {
        assert(kv.take(kids@.len() as int) =~= kv);
    }
    Some(found)
}

/// The raw text of child `inner` of child `outer` of the content `s`.
fn nested_text_exec(s: &[char], outer: &str, inner: &str) -> (r: Option<Option<String>>)
    ensures
        opt_opt_view(r) == nested_text(s@, outer@, inner@),
{
    match child_text_exec(s, outer) {
        None => None,
        Some(None) => Some(None),
        Some(Some(c)) => {
            let cs = chars_of(c.as_str());
            child_text_exec(cs.as_slice(), inner)
        },
    }
}

/// The content of the root element of `p`.
fn root_content_exec(p: &[char]) -> (r: Option<String>)
    ensures
        opt_string_view(r) == root_content(p@),
{
    match children_chars(p) {
        None => None,
        Some(kids) => {
            if kids.len() == 0 {
                return None;
            }
            proof {
                assert(triples_view(kids@)[0] == (kids@[0].0@, kids@[0].1@, kids@[0].2@));
            }
            Some(kids[0].2.clone())
        },
    }
}

/// What `quick_xml::escape::unescape` gives for `raw`: the text with its
/// character and entity references replaced, or `None` when it rejects it.
pub uninterp spec fn xml_unescape(raw: Seq<char>) -> Option<Seq<char>>;

/// Replaces XML character and entity references in `raw`.
///
/// Calls `quick_xml::escape::unescape`, mapping its error into a `DeError`;
/// its result is named by `xml_unescape`. The error value itself is not
/// described.
#[verifier::external_body]
fn unescape_text(raw: &str) -> (r: Result<String, quick_xml::de::DeError>)
    ensures
        match r {
            Ok(t) => xml_unescape(raw@) == Some(t@),
            Err(_) => xml_unescape(raw@) is None,
        },
{
    match quick_xml::escape::unescape(raw) {
        Ok(t) => Ok(t.into_owned()),
        Err(e) => Err(quick_xml::de::DeError::from(e)),
    }
}

/// The text of a CDATA section `<![CDATA[...]]>` making up all of `u`.
pub open spec fn cdata_text(u: Seq<char>) -> Option<Seq<char>> {
    if u.len() >= 12 && u.subrange(0, 9) == "<![CDATA["@ && u.subrange(u.len() - 3, u.len() as int)
        == "]]>"@ {
        Some(u.subrange(9, u.len() - 3))
    } else {
        None
    }
}

/// `t` without its comments `<!-- ... -->`; an unterminated comment is
/// left as it stands.
pub open spec fn without_comments(t: Seq<char>) -> Seq<char>
    decreases t.len(),
{
    match find_from(t, "<!--"@, 0) {
        None => t,
        Some(a) => match find_from(t, "-->"@, a + 4) {
            None => t,
            Some(b) => {
                proof {
                    reveal_strlit("-->");
                    lemma_find_from(t, "-->"@, a + 4);
                }
                t.subrange(0, a) + without_comments(t.subrange(b + 3, t.len() as int))
            },
        },
    }
}

/// The text of a raw content: without comments, stripped of XML white space
/// at both ends.
pub open spec fn plain_text(t: Seq<char>) -> Seq<char> {
    xml_trim(without_comments(t))
}

/// The decoded value of an optional raw text: without comments and XML
/// white space at both ends; then, when it is a CDATA section, its text as
/// it stands; else, when it still holds markup (a `<`, such as a child
/// element), no text; else, when it holds a reference (an `&`), unescaped.
/// `None` when the text holds markup or unescaping fails; `Some(None)` when
/// the text is absent.
pub open spec fn decoded(raw: Option<Seq<char>>) -> Option<Option<Seq<char>>> {
    match raw {
        None => Some(None),
        Some(t) => match cdata_text(plain_text(t)) {
            Some(d) => Some(Some(d)),
            None => if plain_text(t).contains('<') {
                None
            } else if plain_text(t).contains('&') {
                match xml_unescape(plain_text(t)) {
                    None => None,
                    Some(u) => Some(Some(u)),
                }
            } else {
                Some(Some(plain_text(t)))
            },
        },
    }
}

/// `t` without its comments.
fn without_comments_exec(t: &[char]) -> (r: Vec<char>)
    ensures
        r@ == without_comments(t@),
    decreases t@.len(),
{
    let open = chars_of("<!--");
    let close = chars_of("-->");
    proof {
        reveal_strlit("<!--");
        reveal_strlit("-->");
        assert(t@.len() == t.len());
    }
    let a = match find_chars(t, open.as_slice(), 0) {
        Some(a) => a,
        None => return copy_range(t, 0, t.len()),
    };
    proof {
        lemma_find_from(t@, "<!--"@, 0);
    }
    let b = match find_chars(t, close.as_slice(), a + 4) {
        Some(b) => b,
        None => {
            proof {
                assert(t@.subrange(0, t@.len() as int) =~= t@);
            }
            return copy_range(t, 0, t.len());
        },
    };
    proof {
        lemma_find_from(t@, "-->"@, a + 4);
    }
    let mut r = copy_range(t, 0, a);
    let rest = copy_range(t, b + 3, t.len());
    let tail = without_comments_exec(rest.as_slice());
    let ghost head = r@;
    let mut k: usize = 0;
    while k < tail.len()
        invariant
            k <= tail@.len(),
            r@ == head + tail@.subrange(0, k as int),
        decreases tail@.len() - k,
    {
        r.push(tail[k]);
        proof {
            assert(tail@.subrange(0, k + 1) =~= tail@.subrange(0, k as int).push(tail@[k as int]));
        }
        k = k + 1;
    }
    proof {
        assert(tail@.subrange(0, tail@.len() as int) =~= tail@);
    }
    r
}

/// A text without markup has no comments and is no CDATA section.
proof fn lemma_markup_free_not_cdata(t: Seq<char>)
    requires
        markup_free(t),
    ensures
        cdata_text(t) is None,
        without_comments(t) == t,
{
    reveal_strlit("<![CDATA[");
    reveal_strlit("<!--");
    if t.len() >= 12 {
        assert(t.subrange(0, 9)[0] == t[0]);
    }
    assert("<!--"@[0] == '<');
    lemma_no_match_by_first(t, "<!--"@, 0, t.len() as int);
    assert forall|j: int| 0 <= j implies !matches_at(t, "<!--"@, j) by {}
    lemma_find_from_none(t, "<!--"@, 0);
}

/// Decode a raw text: drop comments, strip XML white space, then take a
/// CDATA section as it stands or unescape references.
fn decode_text(raw: &[char]) -> (r: Result<String, quick_xml::de::DeError>)
    ensures
        match r {
            Ok(t) => decoded(Some(raw@)) == Some(Some(t@)),
            Err(_) => decoded(Some(raw@)) is None,
        },
{
    let s = without_comments_exec(raw);
    let s = s.as_slice();
    let a: usize = 0;
    let b = s.len();
    proof {
        assert(s@.subrange(0, s@.len() as int) =~= s@);
    }
    let (x, y) = xml_trim_bounds(s, a, b);
    let ghost u = s@.subrange(x as int, y as int);
    if y - x >= 12 {
        let open = chars_of("<![CDATA[");
        let close = chars_of("]]>");
        proof {
            reveal_strlit("<![CDATA[");
            reveal_strlit("]]>");
        }
        if matches_at_exec(s, open.as_slice(), x) && matches_at_exec(s, close.as_slice(), y - 3) {
            proof {
                assert(u.subrange(0, 9) =~= s@.subrange(x as int, x + 9));
                assert(u.subrange(u.len() - 3, u.len() as int) =~= s@.subrange(y - 3, y as int));
                assert(u.subrange(9, u.len() - 3) =~= s@.subrange(x + 9, y - 3));
            }
            return Ok(string_of(s, x + 9, y - 3));
        }
        proof {
            if u.subrange(0, 9) == "<![CDATA["@ && u.subrange(u.len() - 3, u.len() as int) == "]]>"@ {
                assert(u.subrange(0, 9) =~= s@.subrange(x as int, x + 9));
                assert(u.subrange(u.len() - 3, u.len() as int) =~= s@.subrange(y - 3, y as int));
                assert(matches_at(s@, open@, x as int));
                assert(matches_at(s@, close@, y - 3));
            }
        }
    }
    let raw = string_of(s, x, y);
    if contains_char_in(s, x, y, '<') {
        return Err(custom_error("unexpected element inside a fault field"));
    }
    if contains_char_in(s, x, y, '&') {
        unescape_text(raw.as_str())
    } else {
        Ok(raw)
    }
}

/// The raw code and message texts of the content of a fault element, per
/// version: the `faultcode` and `faultstring` children for SOAP 1.1, the
/// `Value` child of `Code` and the `Text` child of `Reason` for SOAP 1.2.
pub open spec fn fault_texts(v: SoapVersion, r: Seq<char>) -> (Option<Option<Seq<char>>>, Option<Option<Seq<char>>>) {
    match v {
        SoapVersion::V11 => (child_text(r, "faultcode"@), child_text(r, "faultstring"@)),
        SoapVersion::V12 => (nested_text(r, "Code"@, "Value"@), nested_text(r, "Reason"@, "Text"@)),
    }
}

/// The payload a fault is read from: the SOAP Body when there is one, the
/// whole text otherwise.
pub open spec fn fault_payload(x: Seq<char>) -> Seq<char> {
    match soap_body(x) {
        Some(b) => b,
        None => x,
    }
}

/// The `(code, message)` given by the raw code and message texts of a fault,
/// with the defaults "unknown" and "no details" for an absent text; `None`
/// when a present text cannot be decoded.
pub open spec fn fault_fields(rc: Option<Seq<char>>, rm: Option<Seq<char>>) -> Option<(Seq<char>, Seq<char>)> {
    match (decoded(rc), decoded(rm)) {
        (Some(dc), Some(dm)) => Some(
            (
                match dc {
                    Some(t) => t,
                    None => "unknown"@,
                },
                match dm {
                    Some(t) => t,
                    None => "no details"@,
                },
            ),
        ),
        _ => None,
    }
}

/// The `(code, message)` given by the located raw texts; `None` when
/// either could not be located or decoded.
pub open spec fn fault_fields_of(c: Option<Option<Seq<char>>>, m: Option<Option<Seq<char>>>) -> Option<(Seq<char>, Seq<char>)> {
    match (c, m) {
        (Some(c), Some(m)) => fault_fields(c, m),
        _ => None,
    }
}

/// The `(code, message)` read from a fault document: from the root element
/// of its payload, per version; `None` when there is no well-closed root
/// element, a field is repeated, or a present text cannot be decoded.
pub open spec fn fault_of(x: Seq<char>) -> Option<(Seq<char>, Seq<char>)> {
    match root_content(fault_payload(x)) {
        None => None,
        Some(r) => {
            let (c, m) = fault_texts(fault_version(x), r);
            fault_fields_of(c, m)
        },
    }
}

/// Decode an optional raw text.
fn decode_field(raw: Option<String>) -> (r: Result<Option<String>, quick_xml::de::DeError>)
    ensures
        match r {
            Ok(o) => decoded(opt_string_view(raw)) == Some(opt_string_view(o)),
            Err(_) => decoded(opt_string_view(raw)) is None,
        },
{
    match raw {
        None => Ok(None),
        Some(t) => {
            let cs = chars_of(t.as_str());
            match decode_text(cs.as_slice()) {
                Ok(d) => Ok(Some(d)),
                Err(e) => Err(e),
            }
        },
    }
}

/// The `(code, message)` of located raw texts.
fn fields_from_texts(c: Option<Option<String>>, m: Option<Option<String>>) -> (r: Result<(String, String), quick_xml::de::DeError>)
    ensures
        match r {
            Ok((a, b)) => fault_fields_of(opt_opt_view(c), opt_opt_view(m)) == Some((a@, b@)),
            Err(_) => fault_fields_of(opt_opt_view(c), opt_opt_view(m)) is None,
        },
{
    let (c, m) = match (c, m) {
        (Some(c), Some(m)) => (c, m),
        _ => return Err(custom_error("malformed or repeated fault field")),
    };
    let code = match decode_field(c) {
        Ok(c) => c,
        Err(e) => return Err(e),
    };
    let message = match decode_field(m) {
        Ok(m) => m,
        Err(e) => return Err(e),
    };
    Ok((text_or(code, "unknown"), text_or(message, "no details")))
}

/// The text of `o`, or `default` when it is absent.
fn text_or(o: Option<String>, default: &str) -> (r: String)
    ensures
        r@ == (match o {
            Some(t) => t@,
            None => default@,
        }),
{
    match o {
        Some(t) => t,
        None => default.to_string(),
    }
}

/// Read the code and message of the content of a SOAP 1.1 fault element,
/// from its `faultcode` and `faultstring` children.
fn parse_fault_v11(r: &[char]) -> (res: Result<(String, String), quick_xml::de::DeError>)
    ensures
        ({
            let (c, m) = fault_texts(SoapVersion::V11, r@);
            match res {
                Ok((a, b)) => fault_fields_of(c, m) == Some((a@, b@)),
                Err(_) => fault_fields_of(c, m) is None,
            }
        }),
{
    let c = child_text_exec(r, "faultcode");
    let m = child_text_exec(r, "faultstring");
    fields_from_texts(c, m)
}

/// Read the code and message of the content of a SOAP 1.2 fault element,
/// from the `Value` child of its `Code` and the `Text` child of its
/// `Reason`.
fn parse_fault_v12(r: &[char]) -> (res: Result<(String, String), quick_xml::de::DeError>)
    ensures
        ({
            let (c, m) = fault_texts(SoapVersion::V12, r@);
            match res {
                Ok((a, b)) => fault_fields_of(c, m) == Some((a@, b@)),
                Err(_) => fault_fields_of(c, m) is None,
            }
        }),
{
    let c = nested_text_exec(r, "Code", "Value");
    let m = nested_text_exec(r, "Reason", "Text");
    fields_from_texts(c, m)
}

/// Deserialize a SOAP fault from XML content.
///
/// Accepts either a raw `<soap:Fault>` / `<env:Fault>` element or a full
/// envelope wrapping one. The version is read as 1.2 when the text mentions
/// the 1.2 envelope namespace, 1.1 otherwise. The fields are the direct
/// children of the fault element, matched by local name whatever their
/// prefix; a child marked `xsi:nil="true"` counts as absent. A field's
/// text loses its comments and the XML white space at its ends; a CDATA
/// section is taken as it stands, other text has its references replaced.
/// Returns `(code, message)`, with "unknown" and "no details" for what is
/// absent, or an error when there is no well-closed fault element, a field
/// is repeated, a field's text still holds markup (such as a child
/// element), or a present text holds a reference that cannot be decoded.
pub fn parse_soap_fault(xml: &str) -> (r: Result<(String, String), quick_xml::de::DeError>)
    ensures
        match r {
            Ok((c, m)) => fault_of(xml@) == Some((c@, m@)),
            Err(_) => fault_of(xml@) is None,
        },
{
    let version = detect_fault_version(xml);
    let x = chars_of(xml);
    let payload = match soap_body_chars(x.as_slice()) {
        Some(b) => chars_of(b.as_str()),
        None => x,
    };
    let root = match root_content_exec(payload.as_slice()) {
        Some(r) => chars_of(r.as_str()),
        None => return Err(custom_error("no well-formed root element in SOAP fault")),
    };
    match version {
        SoapVersion::V11 => parse_fault_v11(root.as_slice()),
        SoapVersion::V12 => parse_fault_v12(root.as_slice()),
    }
}

/// The text contains no `<`.
pub open spec fn markup_free(t: Seq<char>) -> bool {
    forall|i: int| 0 <= i < t.len() ==> t[i] != '<'
}

/// Where `close` occurs first in `s` at or after `from`, when the text from
/// `from` is: white space `w1`, then `b` (which does not contain `close`),
/// then white space `w2` starting with a character that is not in `close`,
/// then `close`.
proof fn lemma_close_after_body(s: Seq<char>, close: Seq<char>, from: int, w1: Seq<char>, b: Seq<char>, w2: Seq<char>)
    requires
        0 <= from,
        close.len() > 0,
        close[0] == '<',
        all_white(w1),
        all_white(w2),
        w2.len() > 0,
        !close.contains(w2[0]),
        !contains_seq(b, close),
        from + w1.len() + b.len() + w2.len() + close.len() <= s.len(),
        s.subrange(from, from + w1.len()) == w1,
        s.subrange(from + w1.len(), from + w1.len() + b.len()) == b,
        s.subrange(from + w1.len() + b.len(), from + w1.len() + b.len() + w2.len()) == w2,
        matches_at(s, close, from + w1.len() + b.len() + w2.len()),
    ensures
        find_from(s, close, from) == Some(from + w1.len() + b.len() + w2.len()),
        s.subrange(from, from + w1.len() + b.len() + w2.len()) == w1 + b + w2,
{
    let q0 = from + w1.len() + b.len();
    let q = q0 + w2.len();
    assert forall|i: int| from <= i < from + w1.len() implies s[i] != close[0] by {
        assert(s[i] == w1[i - from]);
    }
    lemma_no_match_by_first(s, close, from, from + w1.len());
    lemma_no_match_in_segment(s, close, b, from + w1.len());
    assert(s[q0] == w2[0]);
    lemma_no_match_across(s, close, q0);
    assert forall|i: int| q0 <= i < q implies s[i] != close[0] by {
        assert(s[i] == w2[i - q0]);
    }
    lemma_no_match_by_first(s, close, q0, q);
    lemma_find_from_at(s, close, from, q);
    assert(s.subrange(from, q) =~= w1 + b + w2);
}

/// A SOAP 1.1 envelope gives back its body: `extract_body` reads the body
/// that `build_envelope` wrapped, trimmed, provided the action holds no
/// `<soap:Body>` tag and the body does not itself close the `soap:Body`
/// element.
pub proof fn lemma_envelope11_body(action: Seq<char>, body: Seq<char>)
    requires
        !contains_seq(action, "<soap:Body>"@),
        !contains_seq(body, "</soap:Body>"@),
    ensures
        soap_body(envelope_text(SoapVersion::V11, action, body)) == Some(trim(body)),
{
    reveal_strlit("<?xml version=\"1.0\" encoding=\"UTF-8\"?>\n<soap:Envelope xmlns:soap=\"http://schemas.xmlsoap.org/soap/envelope/\">\n    <soap:Header>\n       <Action soap:mustUnderstand=\"true\" xmlns=\"http://schemas.xmlsoap.org/ws/2004/08/addressing\">");
    reveal_strlit("</Action>\n    </soap:Header>\n    <soap:Body>\n       ");
    reveal_strlit("\n    </soap:Body>\n</soap:Envelope>");
    reveal_strlit("<soap:Body>");
    reveal_strlit("</soap:Body>");
    let h = envelope11_head();
    let m = envelope11_mid();
    let t = envelope11_tail();
    let open = "<soap:Body>"@;
    let close = "</soap:Body>"@;
    let e = envelope_text(SoapVersion::V11, action, body);
    let la: int = action.len() as int;
    assert(e == h + action + m + body + t);
    assert(h.len() == 227);
    assert(m.len() == 52);
    assert(t.len() == 34);
    let p: int = 227 + la + 33;
    // the opening tag is found where the middle part holds it
    assert(e.subrange(227, 227 + la) =~= action);
    lemma_no_match_in_segment(e, open, action, 227);
    assert(e[227 + la] == m[0]);
    assert forall|i: int| 0 <= i < p implies !matches_at(e, open, i) by {
        if i < 227 {
            assert(e[i] == h[i]);
            if i == 39 || i == 114 {
                lemma_mismatch(e, open, i, 6);
            } else if i == 0 || i == 135 {
                lemma_mismatch(e, open, i, 1);
            } else {
                lemma_mismatch(e, open, i, 0);
            }
        } else if i < 227 + la {
            if i + 11 > 227 + la {
                lemma_mismatch(e, open, i, 227 + la - i);
            }
        } else {
            assert(e[i] == m[i - 227 - la]);
            if i == 227 + la || i == 227 + la + 14 {
                lemma_mismatch(e, open, i, 1);
            } else {
                lemma_mismatch(e, open, i, 0);
            }
        }
    }
    assert(e.subrange(p, p + 11) =~= open);
    lemma_find_from_at(e, open, 0, p);
    // the closing tag is the one in the tail
    let w1 = m.subrange(44, 52);
    let w2 = t.subrange(0, 5);
    assert(all_white(w1));
    assert(all_white(w2));
    assert(!close.contains(w2[0]));
    assert(e.subrange(p + 11, p + 11 + 8) =~= w1);
    assert(e.subrange(p + 19, p + 19 + body.len() as int) =~= body);
    assert(e.subrange(p + 19 + body.len() as int, p + 19 + body.len() as int + 5) =~= w2);
    assert(e.subrange(p + 24 + body.len() as int, p + 24 + body.len() as int + 12) =~= close);
    lemma_close_after_body(e, close, p + 11, w1, body, w2);
    lemma_trim_surrounded(w1, body, w2);
}

/// A SOAP 1.2 envelope gives back its body: `extract_body` reads the body
/// that `build_envelope` wrapped, trimmed, provided the body does not hold
/// a `<soap:Body>` tag (which is looked for first) nor close `env:Body`.
pub proof fn lemma_envelope12_body(action: Seq<char>, body: Seq<char>)
    requires
        !contains_seq(body, "<soap:Body>"@),
        !contains_seq(body, "</env:Body>"@),
    ensures
        soap_body(envelope_text(SoapVersion::V12, action, body)) == Some(trim(body)),
{
    reveal_strlit("<?xml version=\"1.0\" encoding=\"UTF-8\"?>\n<env:Envelope xmlns:env=\"http://www.w3.org/2003/05/soap-envelope\">\n    <env:Header/>\n    <env:Body>\n       ");
    reveal_strlit("\n    </env:Body>\n</env:Envelope>");
    reveal_strlit("<soap:Body>");
    reveal_strlit("<env:Body>");
    reveal_strlit("</env:Body>");
    let h = envelope12_head();
    let t = envelope12_tail();
    let soap_open = "<soap:Body>"@;
    let open = "<env:Body>"@;
    let close = "</env:Body>"@;
    let e = envelope_text(SoapVersion::V12, action, body);
    let lb: int = body.len() as int;
    assert(h.len() == 146);
    assert(t.len() == 32);
    // no `<soap:Body>` anywhere
    assert forall|i: int| 0 <= i < 146 implies !matches_at(e, soap_open, i) by {
        assert(e[i] == h[i]);
        if i == 0 || i == 39 || i == 110 || i == 128 {
            lemma_mismatch(e, soap_open, i, 1);
        } else {
            lemma_mismatch(e, soap_open, i, 0);
        }
    }
    assert(e.subrange(146, 146 + lb) =~= body);
    lemma_no_match_in_segment(e, soap_open, body, 146);
    assert(e[146 + lb] == t[0]);
    assert(!soap_open.contains(t[0]));
    lemma_no_match_across(e, soap_open, 146 + lb);
    assert forall|i: int| 146 + lb <= i < e.len() implies !matches_at(e, soap_open, i) by {
        assert(e[i] == t[i - 146 - lb]);
        if i == 146 + lb + 5 || i == 146 + lb + 17 {
            lemma_mismatch(e, soap_open, i, 1);
        } else {
            lemma_mismatch(e, soap_open, i, 0);
        }
    }
    assert forall|i: int| 0 <= i implies !matches_at(e, soap_open, i) by {
        if i >= e.len() {
        }
    }
    lemma_find_from_none(e, soap_open, 0);
    // `<env:Body>` is found in the head
    assert forall|i: int| 0 <= i < 128 implies !matches_at(e, open, i) by {
        assert(e[i] == h[i]);
        if i == 39 || i == 110 {
            lemma_mismatch(e, open, i, 5);
        } else if i == 0 {
            lemma_mismatch(e, open, i, 1);
        } else {
            lemma_mismatch(e, open, i, 0);
        }
    }
    assert(e.subrange(128, 138) =~= open);
    lemma_find_from_at(e, open, 0, 128);
    let w1 = h.subrange(138, 146);
    let w2 = t.subrange(0, 5);
    assert(all_white(w1));
    assert(all_white(w2));
    assert(!close.contains(w2[0]));
    assert(e.subrange(138, 146) =~= w1);
    assert(e.subrange(146 + lb, 146 + lb + 5) =~= w2);
    assert(e.subrange(151 + lb, 151 + lb + 11) =~= close);
    lemma_close_after_body(e, close, 138, w1, body, w2);
    lemma_trim_surrounded(w1, body, w2);
}



/// Where the parts of a SOAP 1.1 fault text stand.
proof fn lemma_fault11_layout(code: Seq<char>, message: Seq<char>)
    ensures
        ({
            let f = fault_text(SoapVersion::V11, code, message);
            let lc = code.len() as int;
            let lm = message.len() as int;
            &&& fault11_head().len() == 78
            &&& fault11_mid().len() == 25
            &&& fault11_tail().len() == 27
            &&& f.len() == 130 + lc + lm
            &&& forall|i: int| 0 <= i < 78 ==> f[i] == #[trigger] fault11_head()[i]
            &&& forall|i: int| 78 <= i < 78 + lc ==> #[trigger] f[i] == code[i - 78]
            &&& forall|i: int| 78 + lc <= i < 103 + lc ==> #[trigger] f[i] == fault11_mid()[i - 78 - lc]
            &&& forall|i: int| 103 + lc <= i < 103 + lc + lm ==> #[trigger] f[i] == message[i - 103 - lc]
            &&& forall|i: int| 103 + lc + lm <= i < 130 + lc + lm ==> #[trigger] f[i] == fault11_tail()[i - 103 - lc - lm]
            &&& f.subrange(78, 78 + lc) == code
            &&& f.subrange(103 + lc, 103 + lc + lm) == message
        }),
{
    reveal_strlit("<soap:Fault xmlns:soap=\"http://schemas.xmlsoap.org/soap/envelope/\"><faultcode>");
    reveal_strlit("</faultcode><faultstring>");
    reveal_strlit("</faultstring></soap:Fault>");
    let f = fault_text(SoapVersion::V11, code, message);
    let lc = code.len() as int;
    let lm = message.len() as int;
    assert(f.subrange(78, 78 + lc) =~= code);
    assert(f.subrange(103 + lc, 103 + lc + lm) =~= message);
}

/// A SOAP 1.1 fault text does not mention the 1.2 namespace unless its code
/// or message does.
proof fn lemma_fault11_version(code: Seq<char>, message: Seq<char>)
    requires
        !contains_seq(code, SOAP_NS_ENVELOPE_12@),
        !contains_seq(message, SOAP_NS_ENVELOPE_12@),
    ensures
        fault_version(fault_text(SoapVersion::V11, code, message)) == SoapVersion::V11,
{
    reveal_strlit("<soap:Fault xmlns:soap=\"http://schemas.xmlsoap.org/soap/envelope/\"><faultcode>");
    reveal_strlit("</faultcode><faultstring>");
    reveal_strlit("</faultstring></soap:Fault>");
    reveal_strlit("http://www.w3.org/2003/05/soap-envelope");
    lemma_fault11_layout(code, message);
    let f = fault_text(SoapVersion::V11, code, message);
    let lc: int = code.len() as int;
    let lm: int = message.len() as int;
    let m0: int = 103 + lc;
    let t0: int = 103 + lc + lm;
    let ns = SOAP_NS_ENVELOPE_12@;
    assert(ns.len() == 39);
    assert forall|i: int| 0 <= i < 78 implies !matches_at(f, ns, i) by {
        assert(f[i] == fault11_head()[i]);
        if i == 24 {
            assert(f[i + 7] == fault11_head()[i + 7]);
            lemma_mismatch(f, ns, i, 7);
        } else if i == 33 {
            assert(f[i + 1] == fault11_head()[i + 1]);
            lemma_mismatch(f, ns, i, 1);
        } else {
            lemma_mismatch(f, ns, i, 0);
        }
    }
    lemma_no_match_in_segment(f, ns, code, 78);
    assert(f[78 + lc] == fault11_mid()[0]);
    assert(!ns.contains(f[78 + lc]));
    lemma_no_match_across(f, ns, 78 + lc);
    assert forall|i: int| 78 + lc <= i < m0 implies f[i] != ns[0] by {
        assert(f[i] == fault11_mid()[i - 78 - lc]);
    }
    lemma_no_match_by_first(f, ns, 78 + lc, m0);
    lemma_no_match_in_segment(f, ns, message, m0);
    assert(f[t0] == fault11_tail()[0]);
    assert(!ns.contains(f[t0]));
    lemma_no_match_across(f, ns, t0);
    assert forall|i: int| t0 <= i < f.len() implies f[i] != ns[0] by {
        assert(f[i] == fault11_tail()[i - t0]);
    }
    lemma_no_match_by_first(f, ns, t0, f.len() as int);
    assert forall|i: int| 0 <= i implies !matches_at(f, ns, i) by {}
    lemma_find_from_none(f, ns, 0);
}

/// A SOAP 1.1 fault text holds no Body tag when its code and message hold
/// no markup, so it is read as its own payload.
proof fn lemma_fault11_payload(code: Seq<char>, message: Seq<char>)
    requires
        markup_free(code),
        markup_free(message),
    ensures
        fault_payload(fault_text(SoapVersion::V11, code, message)) == fault_text(
            SoapVersion::V11,
            code,
            message,
        ),
{
    reveal_strlit("<soap:Fault xmlns:soap=\"http://schemas.xmlsoap.org/soap/envelope/\"><faultcode>");
    reveal_strlit("</faultcode><faultstring>");
    reveal_strlit("</faultstring></soap:Fault>");
    reveal_strlit("<soap:Body>");
    reveal_strlit("<env:Body>");
    reveal_strlit("<Body>");
    lemma_fault11_layout(code, message);
    let f = fault_text(SoapVersion::V11, code, message);
    let lc: int = code.len() as int;
    let lm: int = message.len() as int;
    let tags = seq!["<soap:Body>"@, "<env:Body>"@, "<Body>"@];
    assert forall|k: int| 0 <= k < 3 implies find_from(f, #[trigger] tags[k], 0) is None by {
        let pat = tags[k];
        assert(pat[0] == '<');
        assert forall|i: int| 0 <= i implies !matches_at(f, pat, i) by {
            if i >= f.len() {
            } else if i < 78 {
                assert(f[i] == fault11_head()[i]);
                if i == 0 && k == 0 {
                    assert(f[i + 6] == fault11_head()[i + 6]);
                    lemma_mismatch(f, pat, i, 6);
                } else if f[i] == '<' {
                    assert(f[i + 1] == fault11_head()[i + 1]);
                    lemma_mismatch(f, pat, i, 1);
                } else {
                    lemma_mismatch(f, pat, i, 0);
                }
            } else if i < 78 + lc {
                lemma_mismatch(f, pat, i, 0);
            } else if i < 103 + lc {
                assert(f[i] == fault11_mid()[i - 78 - lc]);
                if f[i] == '<' {
                    assert(f[i + 1] == fault11_mid()[i + 1 - 78 - lc]);
                    lemma_mismatch(f, pat, i, 1);
                } else {
                    lemma_mismatch(f, pat, i, 0);
                }
            } else if i < 103 + lc + lm {
                lemma_mismatch(f, pat, i, 0);
            } else {
                assert(f[i] == fault11_tail()[i - 103 - lc - lm]);
                if f[i] == '<' {
                    assert(f[i + 1] == fault11_tail()[i + 1 - 103 - lc - lm]);
                    lemma_mismatch(f, pat, i, 1);
                } else {
                    lemma_mismatch(f, pat, i, 0);
                }
            }
        }
        lemma_find_from_none(f, pat, 0);
    }
    assert(find_from(f, tags[0], 0) is None);
    assert(find_from(f, tags[1], 0) is None);
    assert(find_from(f, tags[2], 0) is None);
}


/// A SOAP 1.1 fault reads back as the code and message it was made from:
/// `parse_soap_fault` of what `serialize_fault` wrote reads it as a 1.1
/// fault and finds the code and the message texts unchanged; provided both
/// hold no markup and no references, have no XML white space at their
/// ends, and do not mention the SOAP 1.2 namespace (which would make the text read as a 1.2
/// fault).
pub proof fn lemma_fault11_round_trip(code: Seq<char>, message: Seq<char>)
    requires
        markup_free(code),
        markup_free(message),
        xml_trim(code) == code,
        xml_trim(message) == message,
        !code.contains('&'),
        !message.contains('&'),
        !contains_seq(code, SOAP_NS_ENVELOPE_12@),
        !contains_seq(message, SOAP_NS_ENVELOPE_12@),
    ensures
        fault_version(fault_text(SoapVersion::V11, code, message)) == SoapVersion::V11,
        fault_of(fault_text(SoapVersion::V11, code, message)) == Some((code, message)),
{
    lemma_markup_free_not_cdata(code);
    lemma_markup_free_not_cdata(message);
    lemma_fault11_version(code, message);
    lemma_fault11_payload(code, message);
    lemma_fault_content(SoapVersion::V11, code, message);
}

/// Where the parts of a SOAP 1.2 fault text stand.
proof fn lemma_fault12_layout(code: Seq<char>, message: Seq<char>)
    ensures
        ({
            let f = fault_text(SoapVersion::V12, code, message);
            let lc = code.len() as int;
            let lm = message.len() as int;
            &&& fault12_head().len() == 76
            &&& fault12_mid().len() == 43
            &&& fault12_tail().len() == 28
            &&& f.len() == 147 + lc + lm
            &&& forall|i: int| 0 <= i < 76 ==> f[i] == #[trigger] fault12_head()[i]
            &&& forall|i: int| 76 <= i < 76 + lc ==> #[trigger] f[i] == code[i - 76]
            &&& forall|i: int| 76 + lc <= i < 119 + lc ==> #[trigger] f[i] == fault12_mid()[i - 76 - lc]
            &&& forall|i: int| 119 + lc <= i < 119 + lc + lm ==> #[trigger] f[i] == message[i - 119 - lc]
            &&& forall|i: int| 119 + lc + lm <= i < 147 + lc + lm ==> #[trigger] f[i] == fault12_tail()[i - 119 - lc - lm]
        }),
{
    reveal_strlit("<env:Fault xmlns:env=\"http://www.w3.org/2003/05/soap-envelope\"><Code><Value>");
    reveal_strlit("</Value></Code><Reason><Text xml:lang=\"en\">");
    reveal_strlit("</Text></Reason></env:Fault>");
}

/// A SOAP 1.2 fault text mentions the 1.2 namespace.
proof fn lemma_fault12_version(code: Seq<char>, message: Seq<char>)
    ensures
        fault_version(fault_text(SoapVersion::V12, code, message)) == SoapVersion::V12,
{
    reveal_strlit("<env:Fault xmlns:env=\"http://www.w3.org/2003/05/soap-envelope\"><Code><Value>");
    reveal_strlit("http://www.w3.org/2003/05/soap-envelope");
    lemma_fault12_layout(code, message);
    let f = fault_text(SoapVersion::V12, code, message);
    let ns = SOAP_NS_ENVELOPE_12@;
    assert forall|j: int| 22 <= j < 61 implies f[j] == #[trigger] fault12_head()[j] by {}
    assert(f.subrange(22, 61) =~= ns);
    assert(matches_at(f, ns, 22));
    lemma_contains_seq(f, ns);
}

/// A SOAP 1.2 fault text holds no Body tag when its code and message hold
/// no markup, so it is read as its own payload.
proof fn lemma_fault12_payload(code: Seq<char>, message: Seq<char>)
    requires
        markup_free(code),
        markup_free(message),
    ensures
        fault_payload(fault_text(SoapVersion::V12, code, message)) == fault_text(
            SoapVersion::V12,
            code,
            message,
        ),
        !contains_seq(fault_text(SoapVersion::V12, code, message), "<soap:Body>"@),
{
    reveal_strlit("<env:Fault xmlns:env=\"http://www.w3.org/2003/05/soap-envelope\"><Code><Value>");
    reveal_strlit("</Value></Code><Reason><Text xml:lang=\"en\">");
    reveal_strlit("</Text></Reason></env:Fault>");
    reveal_strlit("<soap:Body>");
    reveal_strlit("<env:Body>");
    reveal_strlit("<Body>");
    lemma_fault12_layout(code, message);
    let f = fault_text(SoapVersion::V12, code, message);
    let lc: int = code.len() as int;
    let lm: int = message.len() as int;
    let tags = seq!["<soap:Body>"@, "<env:Body>"@, "<Body>"@];
    assert forall|k: int| 0 <= k < 3 implies find_from(f, #[trigger] tags[k], 0) is None by {
        let pat = tags[k];
        assert(pat[0] == '<');
        assert forall|i: int| 0 <= i implies !matches_at(f, pat, i) by {
            if i >= f.len() {
            } else if i < 76 {
                assert(f[i] == fault12_head()[i]);
                if i == 0 && k == 1 {
                    assert(f[i + 5] == fault12_head()[i + 5]);
                    lemma_mismatch(f, pat, i, 5);
                } else if f[i] == '<' {
                    assert(f[i + 1] == fault12_head()[i + 1]);
                    lemma_mismatch(f, pat, i, 1);
                } else {
                    lemma_mismatch(f, pat, i, 0);
                }
            } else if i < 76 + lc {
                lemma_mismatch(f, pat, i, 0);
            } else if i < 119 + lc {
                assert(f[i] == fault12_mid()[i - 76 - lc]);
                if f[i] == '<' {
                    assert(f[i + 1] == fault12_mid()[i + 1 - 76 - lc]);
                    lemma_mismatch(f, pat, i, 1);
                } else {
                    lemma_mismatch(f, pat, i, 0);
                }
            } else if i < 119 + lc + lm {
                lemma_mismatch(f, pat, i, 0);
            } else {
                assert(f[i] == fault12_tail()[i - 119 - lc - lm]);
                if f[i] == '<' {
                    assert(f[i + 1] == fault12_tail()[i + 1 - 119 - lc - lm]);
                    lemma_mismatch(f, pat, i, 1);
                } else {
                    lemma_mismatch(f, pat, i, 0);
                }
            }
        }
        lemma_find_from_none(f, pat, 0);
    }
    assert(find_from(f, tags[0], 0) is None);
    assert(find_from(f, tags[1], 0) is None);
    assert(find_from(f, tags[2], 0) is None);
}



/// A SOAP 1.2 fault reads back as the code and message it was made from:
/// `parse_soap_fault` of what `serialize_fault` wrote reads it as a 1.2
/// fault and finds the code and the message texts unchanged; provided both
/// hold no markup and no references and have no XML white space at their
/// ends.
pub proof fn lemma_fault12_round_trip(code: Seq<char>, message: Seq<char>)
    requires
        markup_free(code),
        markup_free(message),
        xml_trim(code) == code,
        xml_trim(message) == message,
        !code.contains('&'),
        !message.contains('&'),
    ensures
        fault_version(fault_text(SoapVersion::V12, code, message)) == SoapVersion::V12,
        fault_of(fault_text(SoapVersion::V12, code, message)) == Some((code, message)),
{
    lemma_markup_free_not_cdata(code);
    lemma_markup_free_not_cdata(message);
    lemma_fault12_version(code, message);
    lemma_fault12_payload(code, message);
    lemma_fault_content(SoapVersion::V12, code, message);
}

/// A fault text whose code and message hold no markup closes no Body
/// element, and it begins with `<` and ends with `>`.
proof fn lemma_fault_no_body_close(v: SoapVersion, code: Seq<char>, message: Seq<char>)
    requires
        markup_free(code),
        markup_free(message),
    ensures
        !contains_seq(fault_text(v, code, message), "</soap:Body>"@),
        !contains_seq(fault_text(v, code, message), "</env:Body>"@),
        trim(fault_text(v, code, message)) == fault_text(v, code, message),
{
    reveal_strlit("<soap:Fault xmlns:soap=\"http://schemas.xmlsoap.org/soap/envelope/\"><faultcode>");
    reveal_strlit("</faultcode><faultstring>");
    reveal_strlit("</faultstring></soap:Fault>");
    reveal_strlit("<env:Fault xmlns:env=\"http://www.w3.org/2003/05/soap-envelope\"><Code><Value>");
    reveal_strlit("</Value></Code><Reason><Text xml:lang=\"en\">");
    reveal_strlit("</Text></Reason></env:Fault>");
    reveal_strlit("</soap:Body>");
    reveal_strlit("</env:Body>");
    let f = fault_text(v, code, message);
    let lc: int = code.len() as int;
    let lm: int = message.len() as int;
    let pats = seq!["</soap:Body>"@, "</env:Body>"@];
    let bs = seq![7int, 6int];
    match v {
        SoapVersion::V11 => {
            lemma_fault11_layout(code, message);
            let t0: int = 103 + lc + lm;
            assert forall|k: int| 0 <= k < 2 implies find_from(f, #[trigger] pats[k], 0) is None by {
                let pat = pats[k];
                let b = bs[k];
                assert(pat[0] == '<' && pat[1] == '/' && pat.len() > b && pat[b] == 'B');
                assert forall|i: int| 0 <= i implies !matches_at(f, pat, i) by {
                    if i >= f.len() {
                    } else if i < 78 {
                        assert(f[i] == fault11_head()[i]);
                        if f[i] == '<' {
                            assert(f[i + 1] == fault11_head()[i + 1]);
                            lemma_mismatch(f, pat, i, 1);
                        } else {
                            lemma_mismatch(f, pat, i, 0);
                        }
                    } else if i < 78 + lc {
                        lemma_mismatch(f, pat, i, 0);
                    } else if i < 103 + lc {
                        assert(f[i] == fault11_mid()[i - 78 - lc]);
                        if f[i] == '<' {
                            assert(f[i + 1] == fault11_mid()[i + 1 - 78 - lc]);
                            if f[i + 1] != '/' {
                                lemma_mismatch(f, pat, i, 1);
                            } else {
                                assert(f[i + 2] == fault11_mid()[i + 2 - 78 - lc]);
                                lemma_mismatch(f, pat, i, 2);
                            }
                        } else {
                            lemma_mismatch(f, pat, i, 0);
                        }
                    } else if i < t0 {
                        lemma_mismatch(f, pat, i, 0);
                    } else {
                        assert(f[i] == fault11_tail()[i - t0]);
                        if f[i] == '<' {
                            assert(f[i + 1] == fault11_tail()[i + 1 - t0]);
                            assert(f[i + 2] == fault11_tail()[i + 2 - t0]);
                            if f[i + 2] != pat[2] {
                                lemma_mismatch(f, pat, i, 2);
                            } else {
                                assert(f[i + b] == fault11_tail()[i + b - t0]);
                                lemma_mismatch(f, pat, i, b);
                            }
                        } else {
                            lemma_mismatch(f, pat, i, 0);
                        }
                    }
                }
                lemma_find_from_none(f, pat, 0);
            }
            assert(f[0] == fault11_head()[0]);
            assert(f.last() == fault11_tail()[26]);
        },
        SoapVersion::V12 => {
            lemma_fault12_layout(code, message);
            let t0: int = 119 + lc + lm;
            assert forall|k: int| 0 <= k < 2 implies find_from(f, #[trigger] pats[k], 0) is None by {
                let pat = pats[k];
                let b = bs[k];
                assert(pat[0] == '<' && pat[1] == '/' && pat.len() > b && pat[b] == 'B');
                assert forall|i: int| 0 <= i implies !matches_at(f, pat, i) by {
                    if i >= f.len() {
                    } else if i < 76 {
                        assert(f[i] == fault12_head()[i]);
                        if f[i] == '<' {
                            assert(f[i + 1] == fault12_head()[i + 1]);
                            lemma_mismatch(f, pat, i, 1);
                        } else {
                            lemma_mismatch(f, pat, i, 0);
                        }
                    } else if i < 76 + lc {
                        lemma_mismatch(f, pat, i, 0);
                    } else if i < 119 + lc {
                        assert(f[i] == fault12_mid()[i - 76 - lc]);
                        if f[i] == '<' {
                            assert(f[i + 1] == fault12_mid()[i + 1 - 76 - lc]);
                            if f[i + 1] != '/' {
                                lemma_mismatch(f, pat, i, 1);
                            } else {
                                assert(f[i + 2] == fault12_mid()[i + 2 - 76 - lc]);
                                lemma_mismatch(f, pat, i, 2);
                            }
                        } else {
                            lemma_mismatch(f, pat, i, 0);
                        }
                    } else if i < t0 {
                        lemma_mismatch(f, pat, i, 0);
                    } else {
                        assert(f[i] == fault12_tail()[i - t0]);
                        if f[i] == '<' {
                            assert(f[i + 1] == fault12_tail()[i + 1 - t0]);
                            assert(f[i + 2] == fault12_tail()[i + 2 - t0]);
                            if f[i + 2] != pat[2] {
                                lemma_mismatch(f, pat, i, 2);
                            } else {
                                assert(f[i + b] == fault12_tail()[i + b - t0]);
                                lemma_mismatch(f, pat, i, b);
                            }
                        } else {
                            lemma_mismatch(f, pat, i, 0);
                        }
                    }
                }
                lemma_find_from_none(f, pat, 0);
            }
            assert(f[0] == fault12_head()[0]);
            assert(f.last() == fault12_tail()[27]);
        },
    }
    assert(find_from(f, pats[0], 0) is None);
    assert(find_from(f, pats[1], 0) is None);
    lemma_trim_unchanged(f);
}

/// A SOAP 1.1 envelope does not mention the SOAP 1.2 namespace unless its
/// action or its body does.
proof fn lemma_envelope11_version(action: Seq<char>, body: Seq<char>)
    requires
        !contains_seq(action, SOAP_NS_ENVELOPE_12@),
        !contains_seq(body, SOAP_NS_ENVELOPE_12@),
    ensures
        fault_version(envelope_text(SoapVersion::V11, action, body)) == SoapVersion::V11,
{
    reveal_strlit("<?xml version=\"1.0\" encoding=\"UTF-8\"?>\n<soap:Envelope xmlns:soap=\"http://schemas.xmlsoap.org/soap/envelope/\">\n    <soap:Header>\n       <Action soap:mustUnderstand=\"true\" xmlns=\"http://schemas.xmlsoap.org/ws/2004/08/addressing\">");
    reveal_strlit("</Action>\n    </soap:Header>\n    <soap:Body>\n       ");
    reveal_strlit("\n    </soap:Body>\n</soap:Envelope>");
    reveal_strlit("http://www.w3.org/2003/05/soap-envelope");
    let h = envelope11_head();
    let m = envelope11_mid();
    let t = envelope11_tail();
    let ns = SOAP_NS_ENVELOPE_12@;
    let e = envelope_text(SoapVersion::V11, action, body);
    let la: int = action.len() as int;
    let lb: int = body.len() as int;
    let b0: int = 279 + la;
    assert(e == h + action + m + body + t);
    assert(h.len() == 227);
    assert(m.len() == 52);
    assert(t.len() == 34);
    assert(ns.len() == 39);
    assert forall|i: int| 0 <= i < 227 implies !matches_at(e, ns, i) by {
        assert(e[i] == h[i]);
        if i == 66 || i == 177 {
            assert(e[i + 7] == h[i + 7]);
            lemma_mismatch(e, ns, i, 7);
        } else if i == 75 || i == 186 {
            assert(e[i + 1] == h[i + 1]);
            lemma_mismatch(e, ns, i, 1);
        } else {
            lemma_mismatch(e, ns, i, 0);
        }
    }
    assert(e.subrange(227, 227 + la) =~= action);
    lemma_no_match_in_segment(e, ns, action, 227);
    assert(e[227 + la] == m[0]);
    assert(!ns.contains(m[0]));
    lemma_no_match_across(e, ns, 227 + la);
    assert forall|i: int| 227 + la <= i < b0 implies e[i] != ns[0] by {
        assert(e[i] == m[i - 227 - la]);
    }
    lemma_no_match_by_first(e, ns, 227 + la, b0);
    assert(e.subrange(b0, b0 + lb) =~= body);
    lemma_no_match_in_segment(e, ns, body, b0);
    assert(e[b0 + lb] == t[0]);
    assert(!ns.contains(t[0]));
    lemma_no_match_across(e, ns, b0 + lb);
    assert forall|i: int| b0 + lb <= i < e.len() implies e[i] != ns[0] by {
        assert(e[i] == t[i - b0 - lb]);
    }
    lemma_no_match_by_first(e, ns, b0 + lb, e.len() as int);
    assert forall|i: int| 0 <= i implies !matches_at(e, ns, i) by {}
    lemma_find_from_none(e, ns, 0);
}

/// A SOAP 1.2 envelope mentions the SOAP 1.2 namespace.
proof fn lemma_envelope12_version(action: Seq<char>, body: Seq<char>)
    ensures
        fault_version(envelope_text(SoapVersion::V12, action, body)) == SoapVersion::V12,
{
    reveal_strlit("<?xml version=\"1.0\" encoding=\"UTF-8\"?>\n<env:Envelope xmlns:env=\"http://www.w3.org/2003/05/soap-envelope\">\n    <env:Header/>\n    <env:Body>\n       ");
    reveal_strlit("http://www.w3.org/2003/05/soap-envelope");
    let h = envelope12_head();
    let ns = SOAP_NS_ENVELOPE_12@;
    let e = envelope_text(SoapVersion::V12, action, body);
    assert(h.len() == 146);
    assert forall|j: int| 64 <= j < 103 implies e[j] == #[trigger] h[j] by {}
    assert(e.subrange(64, 103) =~= ns);
    lemma_find_from(e, ns, 0);
    assert(matches_at(e, ns, 64));
}

/// A fault sent in an envelope reads back: `parse_soap_fault` of the
/// envelope that `build_envelope` wraps around what `serialize_fault`
/// wrote, in the same version, gives the code and the message; provided
/// both hold no markup and no references and have no XML white space at
/// their ends, and, for
/// SOAP 1.1, the action holds no `<soap:Body>` tag and none of the three
/// mentions the SOAP 1.2 namespace.
pub proof fn lemma_enveloped_fault_round_trip(
    v: SoapVersion,
    action: Seq<char>,
    code: Seq<char>,
    message: Seq<char>,
)
    requires
        markup_free(code),
        markup_free(message),
        xml_trim(code) == code,
        xml_trim(message) == message,
        !code.contains('&'),
        !message.contains('&'),
        v == SoapVersion::V11 ==> {
            &&& !contains_seq(action, "<soap:Body>"@)
            &&& !contains_seq(action, SOAP_NS_ENVELOPE_12@)
            &&& !contains_seq(code, SOAP_NS_ENVELOPE_12@)
            &&& !contains_seq(message, SOAP_NS_ENVELOPE_12@)
        },
    ensures
        fault_of(envelope_text(v, action, fault_text(v, code, message))) == Some((code, message)),
{
    lemma_markup_free_not_cdata(code);
    lemma_markup_free_not_cdata(message);
    let f = fault_text(v, code, message);
    lemma_fault_no_body_close(v, code, message);
    lemma_fault_content(v, code, message);
    match v {
        SoapVersion::V11 => {
            lemma_fault11_version(code, message);
            lemma_envelope11_version(action, f);
            lemma_envelope11_body(action, f);
        },
        SoapVersion::V12 => {
            lemma_fault12_payload(code, message);
            lemma_envelope12_version(action, f);
            lemma_envelope12_body(action, f);
        },
    }
}

/// The namespace declaration of a version: `xmlns:<prefix>="<namespace>"`.
pub open spec fn namespace_declaration(v: SoapVersion) -> Seq<char> {
    "xmlns:"@ + version_prefix(v) + "=\""@ + version_namespace(v) + "\""@
}

/// Built envelopes and serialized faults declare their version's envelope
/// namespace on their version's prefix.
pub proof fn lemma_declares_version_namespace(
    v: SoapVersion,
    action: Seq<char>,
    body: Seq<char>,
    code: Seq<char>,
    message: Seq<char>,
)
    ensures
        contains_seq(envelope_text(v, action, body), namespace_declaration(v)),
        contains_seq(fault_text(v, code, message), namespace_declaration(v)),
{
    reveal_strlit("<?xml version=\"1.0\" encoding=\"UTF-8\"?>\n<soap:Envelope xmlns:soap=\"http://schemas.xmlsoap.org/soap/envelope/\">\n    <soap:Header>\n       <Action soap:mustUnderstand=\"true\" xmlns=\"http://schemas.xmlsoap.org/ws/2004/08/addressing\">");
    reveal_strlit("<?xml version=\"1.0\" encoding=\"UTF-8\"?>\n<env:Envelope xmlns:env=\"http://www.w3.org/2003/05/soap-envelope\">\n    <env:Header/>\n    <env:Body>\n       ");
    reveal_strlit("<soap:Fault xmlns:soap=\"http://schemas.xmlsoap.org/soap/envelope/\"><faultcode>");
    reveal_strlit("<env:Fault xmlns:env=\"http://www.w3.org/2003/05/soap-envelope\"><Code><Value>");
    reveal_strlit("http://schemas.xmlsoap.org/soap/envelope/");
    reveal_strlit("http://www.w3.org/2003/05/soap-envelope");
    reveal_strlit("xmlns:");
    reveal_strlit("soap");
    reveal_strlit("env");
    reveal_strlit("=\"");
    reveal_strlit("\"");
    let d = namespace_declaration(v);
    let e = envelope_text(v, action, body);
    let f = fault_text(v, code, message);
    match v {
        SoapVersion::V11 => {
            let h = envelope11_head();
            assert(h.len() == 227);
            assert(d.len() == 54);
            assert forall|j: int| 54 <= j < 108 implies e[j] == #[trigger] h[j] by {}
            assert(e.subrange(54, 108) =~= d);
            assert(matches_at(e, d, 54));
            lemma_fault11_layout(code, message);
            assert(f.subrange(12, 66) =~= d);
            assert(matches_at(f, d, 12));
        },
        SoapVersion::V12 => {
            let h = envelope12_head();
            assert(h.len() == 146);
            assert(d.len() == 51);
            assert forall|j: int| 53 <= j < 104 implies e[j] == #[trigger] h[j] by {}
            assert(e.subrange(53, 104) =~= d);
            assert(matches_at(e, d, 53));
            lemma_fault12_layout(code, message);
            assert(f.subrange(11, 62) =~= d);
            assert(matches_at(f, d, 11));
        },
    }
    lemma_find_from(e, d, 0);
    lemma_find_from(f, d, 0);
}

/// Every `<` of `y` is followed by two more characters, the first not `/`
/// or the second not `c`: so no closing tag whose name starts with `c`
/// begins in `y`.
pub open spec fn lt_ok(y: Seq<char>, c: char) -> bool {
    forall|j: int|
        0 <= j < y.len() && #[trigger] y[j] == '<' ==> j + 2 < y.len() && (y[j + 1] != '/' || y[j + 2]
            != c)
}

proof fn lemma_lt_ok_concat(y1: Seq<char>, y2: Seq<char>, c: char)
    requires
        lt_ok(y1, c),
        lt_ok(y2, c),
    ensures
        lt_ok(y1 + y2, c),
{
    let y = y1 + y2;
    assert forall|j: int| 0 <= j < y.len() && #[trigger] y[j] == '<' implies j + 2 < y.len() && (y[j + 1]
        != '/' || y[j + 2] != c) by {
        if j < y1.len() {
            assert(y1[j] == '<');
            assert(y[j + 1] == y1[j + 1] && y[j + 2] == y1[j + 2]);
        } else {
            assert(y2[j - y1.len()] == '<');
            assert(y[j + 1] == y2[j + 1 - y1.len()] && y[j + 2] == y2[j + 2 - y1.len()]);
        }
    }
}

proof fn lemma_lt_ok_markup_free(y: Seq<char>, c: char)
    requires
        markup_free(y),
    ensures
        lt_ok(y, c),
{
}

/// No closing tag `</n...` starts in a text where every `<` is followed by
/// something else than `/` and the first character of `n`.
proof fn lemma_no_close(y: Seq<char>, n: Seq<char>)
    requires
        n.len() > 0,
        lt_ok(y, n[0]),
    ensures
        !contains_seq(y, "</"@ + n + ">"@),
{
    reveal_strlit("</");
    reveal_strlit(">");
    let pat = "</"@ + n + ">"@;
    assert(pat[0] == '<' && pat[1] == '/' && pat[2] == n[0]);
    assert forall|j: int| 0 <= j implies !matches_at(y, pat, j) by {
        if j < y.len() {
            if y[j] == '<' {
                if y[j + 1] != '/' {
                    lemma_mismatch(y, pat, j, 1);
                } else {
                    lemma_mismatch(y, pat, j, 2);
                }
            } else {
                lemma_mismatch(y, pat, j, 0);
            }
        }
    }
    lemma_find_from_none(y, pat, 0);
}

/// The content of a SOAP 1.1 fault element as written.
pub open spec fn fault11_inner(code: Seq<char>, message: Seq<char>) -> Seq<char> {
    written_element("faultcode"@, Seq::empty(), code) + written_element("faultstring"@, Seq::empty(), message)
}

/// The content of a SOAP 1.2 fault element as written.
pub open spec fn fault12_inner(code: Seq<char>, message: Seq<char>) -> Seq<char> {
    written_element("Code"@, Seq::empty(), written_element("Value"@, Seq::empty(), code)) + written_element(
        "Reason"@,
        Seq::empty(),
        written_element("Text"@, " xml:lang=\"en\""@, message),
    )
}

/// A serialized SOAP 1.1 fault whose code and message hold no markup is
/// one root element whose `faultcode` and `faultstring` children hold them.
#[verifier::rlimit(50)]
proof fn lemma_fault11_content(code: Seq<char>, message: Seq<char>)
    requires
        markup_free(code),
        markup_free(message),
    ensures
        root_content(fault_text(SoapVersion::V11, code, message)) == Some(fault11_inner(code, message)),
        fault_texts(SoapVersion::V11, fault11_inner(code, message)) == (Some(Some(code)), Some(Some(message))),
{
    reveal_strlit("<soap:Fault xmlns:soap=\"http://schemas.xmlsoap.org/soap/envelope/\"><faultcode>");
    reveal_strlit("</faultcode><faultstring>");
    reveal_strlit("</faultstring></soap:Fault>");
    reveal_strlit("<env:Fault xmlns:env=\"http://www.w3.org/2003/05/soap-envelope\"><Code><Value>");
    reveal_strlit("</Value></Code><Reason><Text xml:lang=\"en\">");
    reveal_strlit("</Text></Reason></env:Fault>");
    reveal_strlit("<");
    reveal_strlit(">");
    reveal_strlit("</");
    reveal_strlit("faultcode");
    reveal_strlit("faultstring");
    reveal_strlit("Code");
    reveal_strlit("Value");
    reveal_strlit("Reason");
    reveal_strlit("Text");
    reveal_strlit(" xml:lang=\"en\"");
    reveal_strlit("soap:Fault");
    reveal_strlit("env:Fault");
    reveal_strlit(" xmlns:soap=\"http://schemas.xmlsoap.org/soap/envelope/\"");
    reveal_strlit(" xmlns:env=\"http://www.w3.org/2003/05/soap-envelope\"");
    let e: Seq<char> = Seq::empty();
    lemma_lt_ok_markup_free(code, 'f');
    lemma_lt_ok_markup_free(message, 'f');
    lemma_lt_ok_markup_free(code, 's');
    lemma_lt_ok_markup_free(message, 's');
    let f = fault_text(SoapVersion::V11, code, message);
    let q = "soap:Fault"@;
    let a = " xmlns:soap=\"http://schemas.xmlsoap.org/soap/envelope/\""@;
    let w1 = written_element("faultcode"@, e, code);
    let w2 = written_element("faultstring"@, e, message);
    let inner = fault11_inner(code, message);
    assert(fault11_head() =~= "<"@ + q + a + ">"@ + "<"@ + "faultcode"@ + e + ">"@);
    assert(fault11_mid() =~= "</"@ + "faultcode"@ + ">"@ + "<"@ + "faultstring"@ + e + ">"@);
    assert(fault11_tail() =~= "</"@ + "faultstring"@ + ">"@ + "</"@ + q + ">"@);
    assert(f =~= written_element(q, a, inner));
    // the fields
    lemma_no_close(code, "faultcode"@);
    lemma_no_close(message, "faultstring"@);
    assert(simple_parts("faultcode"@, e, code));
    assert(simple_parts("faultstring"@, e, message));
    lemma_two_children("faultcode"@, e, code, "faultstring"@, e, message);
    lemma_no_colon_local("faultcode"@);
    lemma_no_colon_local("faultstring"@);
    assert("faultstring"@ != "faultcode"@) by {
        assert("faultstring"@.len() != "faultcode"@.len());
    }
    lemma_empty_not_nil();
    lemma_child_named_two("faultcode"@, e, code, "faultstring"@, e, message, "faultcode"@);
    lemma_child_named_two("faultcode"@, e, code, "faultstring"@, e, message, "faultstring"@);
    // the root
    assert(lt_ok("<"@ + "faultcode"@ + e + ">"@, 's'));
    assert(lt_ok("</"@ + "faultcode"@ + ">"@, 's'));
    assert(lt_ok("<"@ + "faultstring"@ + e + ">"@, 's'));
    assert(lt_ok("</"@ + "faultstring"@ + ">"@, 's'));
    lemma_lt_ok_concat("<"@ + "faultcode"@ + e + ">"@, code, 's');
    lemma_lt_ok_concat("<"@ + "faultcode"@ + e + ">"@ + code, "</"@ + "faultcode"@ + ">"@, 's');
    assert(w1 =~= "<"@ + "faultcode"@ + e + ">"@ + code + ("</"@ + "faultcode"@ + ">"@));
    lemma_lt_ok_concat("<"@ + "faultstring"@ + e + ">"@, message, 's');
    lemma_lt_ok_concat("<"@ + "faultstring"@ + e + ">"@ + message, "</"@ + "faultstring"@ + ">"@, 's');
    assert(w2 =~= "<"@ + "faultstring"@ + e + ">"@ + message + ("</"@ + "faultstring"@ + ">"@));
    lemma_lt_ok_concat(w1, w2, 's');
    lemma_no_close(inner, q);
    assert(simple_parts(q, a, inner));
    lemma_one_child(q, a, inner);
}

/// A serialized SOAP 1.2 fault whose code and message hold no markup is
/// one root element whose `Code` holds a `Value` with the code and whose
/// `Reason` holds a `Text` with the message.
#[verifier::rlimit(100)]
proof fn lemma_fault12_content(code: Seq<char>, message: Seq<char>)
    requires
        markup_free(code),
        markup_free(message),
    ensures
        root_content(fault_text(SoapVersion::V12, code, message)) == Some(fault12_inner(code, message)),
        fault_texts(SoapVersion::V12, fault12_inner(code, message)) == (Some(Some(code)), Some(Some(message))),
{
    reveal_strlit("<soap:Fault xmlns:soap=\"http://schemas.xmlsoap.org/soap/envelope/\"><faultcode>");
    reveal_strlit("</faultcode><faultstring>");
    reveal_strlit("</faultstring></soap:Fault>");
    reveal_strlit("<env:Fault xmlns:env=\"http://www.w3.org/2003/05/soap-envelope\"><Code><Value>");
    reveal_strlit("</Value></Code><Reason><Text xml:lang=\"en\">");
    reveal_strlit("</Text></Reason></env:Fault>");
    reveal_strlit("<");
    reveal_strlit(">");
    reveal_strlit("</");
    reveal_strlit("faultcode");
    reveal_strlit("faultstring");
    reveal_strlit("Code");
    reveal_strlit("Value");
    reveal_strlit("Reason");
    reveal_strlit("Text");
    reveal_strlit(" xml:lang=\"en\"");
    reveal_strlit("soap:Fault");
    reveal_strlit("env:Fault");
    reveal_strlit(" xmlns:soap=\"http://schemas.xmlsoap.org/soap/envelope/\"");
    reveal_strlit(" xmlns:env=\"http://www.w3.org/2003/05/soap-envelope\"");
    let e: Seq<char> = Seq::empty();
    lemma_lt_ok_markup_free(code, 'V');
    lemma_lt_ok_markup_free(message, 'V');
    lemma_lt_ok_markup_free(code, 'C');
    lemma_lt_ok_markup_free(message, 'C');
    lemma_lt_ok_markup_free(code, 'e');
    lemma_lt_ok_markup_free(message, 'e');
    lemma_lt_ok_markup_free(code, 'T');
    lemma_lt_ok_markup_free(message, 'T');
    lemma_lt_ok_markup_free(code, 'R');
    lemma_lt_ok_markup_free(message, 'R');
    let f = fault_text(SoapVersion::V12, code, message);
    let q = "env:Fault"@;
    let a = " xmlns:env=\"http://www.w3.org/2003/05/soap-envelope\""@;
    let ta = " xml:lang=\"en\""@;
    let wv = written_element("Value"@, e, code);
    let wt = written_element("Text"@, ta, message);
    let wc = written_element("Code"@, e, wv);
    let wr = written_element("Reason"@, e, wt);
    let inner = fault12_inner(code, message);
    assert(fault12_head() =~= "<"@ + q + a + ">"@ + "<"@ + "Code"@ + e + ">"@ + "<"@ + "Value"@ + e + ">"@);
    assert(fault12_mid() =~= "</"@ + "Value"@ + ">"@ + "</"@ + "Code"@ + ">"@ + "<"@ + "Reason"@ + e + ">"@
        + "<"@ + "Text"@ + ta + ">"@);
    assert(fault12_tail() =~= "</"@ + "Text"@ + ">"@ + "</"@ + "Reason"@ + ">"@ + "</"@ + q + ">"@);
    assert(f =~= written_element(q, a, inner));
    // the innermost fields
    lemma_no_close(code, "Value"@);
    lemma_no_close(message, "Text"@);
    assert(simple_parts("Value"@, e, code));
    assert(simple_parts("Text"@, ta, message));
    lemma_one_child("Value"@, e, code);
    lemma_one_child("Text"@, ta, message);
    lemma_no_colon_local("Value"@);
    lemma_no_colon_local("Text"@);
    // `Code` and `Reason`
    assert(lt_ok("<"@ + "Value"@ + e + ">"@, 'C'));
    assert(lt_ok("</"@ + "Value"@ + ">"@, 'C'));
    lemma_lt_ok_concat("<"@ + "Value"@ + e + ">"@, code, 'C');
    lemma_lt_ok_concat("<"@ + "Value"@ + e + ">"@ + code, "</"@ + "Value"@ + ">"@, 'C');
    assert(wv =~= "<"@ + "Value"@ + e + ">"@ + code + ("</"@ + "Value"@ + ">"@));
    lemma_no_close(wv, "Code"@);
    assert(lt_ok("<"@ + "Text"@ + ta + ">"@, 'R'));
    assert(lt_ok("</"@ + "Text"@ + ">"@, 'R'));
    lemma_lt_ok_concat("<"@ + "Text"@ + ta + ">"@, message, 'R');
    lemma_lt_ok_concat("<"@ + "Text"@ + ta + ">"@ + message, "</"@ + "Text"@ + ">"@, 'R');
    assert(wt =~= "<"@ + "Text"@ + ta + ">"@ + message + ("</"@ + "Text"@ + ">"@));
    lemma_no_close(wt, "Reason"@);
    assert(simple_parts("Code"@, e, wv));
    assert(simple_parts("Reason"@, e, wr.subrange(0, 0) + wt)) by {
        assert(wr.subrange(0, 0) + wt =~= wt);
    }
    lemma_two_children("Code"@, e, wv, "Reason"@, e, wt);
    lemma_no_colon_local("Code"@);
    lemma_no_colon_local("Reason"@);
    assert("Reason"@ != "Code"@) by {
        assert("Reason"@.len() != "Code"@.len());
    }
    lemma_empty_not_nil();
    lemma_lang_not_nil();
    lemma_child_named_two("Code"@, e, wv, "Reason"@, e, wt, "Code"@);
    lemma_child_named_two("Code"@, e, wv, "Reason"@, e, wt, "Reason"@);
    lemma_child_named_one("Value"@, e, code, "Value"@);
    lemma_child_named_one("Text"@, ta, message, "Text"@);
    // the root
    assert(lt_ok("<"@ + "Code"@ + e + ">"@, 'e'));
    assert(lt_ok("</"@ + "Code"@ + ">"@, 'e'));
    assert(lt_ok("<"@ + "Value"@ + e + ">"@, 'e'));
    assert(lt_ok("</"@ + "Value"@ + ">"@, 'e'));
    assert(lt_ok("<"@ + "Reason"@ + e + ">"@, 'e'));
    assert(lt_ok("</"@ + "Reason"@ + ">"@, 'e'));
    assert(lt_ok("<"@ + "Text"@ + ta + ">"@, 'e'));
    assert(lt_ok("</"@ + "Text"@ + ">"@, 'e'));
    lemma_lt_ok_concat("<"@ + "Value"@ + e + ">"@, code, 'e');
    lemma_lt_ok_concat("<"@ + "Value"@ + e + ">"@ + code, "</"@ + "Value"@ + ">"@, 'e');
    lemma_lt_ok_concat("<"@ + "Code"@ + e + ">"@, wv, 'e');
    lemma_lt_ok_concat("<"@ + "Code"@ + e + ">"@ + wv, "</"@ + "Code"@ + ">"@, 'e');
    assert(wc =~= "<"@ + "Code"@ + e + ">"@ + wv + ("</"@ + "Code"@ + ">"@));
    lemma_lt_ok_concat("<"@ + "Text"@ + ta + ">"@, message, 'e');
    lemma_lt_ok_concat("<"@ + "Text"@ + ta + ">"@ + message, "</"@ + "Text"@ + ">"@, 'e');
    lemma_lt_ok_concat("<"@ + "Reason"@ + e + ">"@, wt, 'e');
    lemma_lt_ok_concat("<"@ + "Reason"@ + e + ">"@ + wt, "</"@ + "Reason"@ + ">"@, 'e');
    assert(wr =~= "<"@ + "Reason"@ + e + ">"@ + wt + ("</"@ + "Reason"@ + ">"@));
    lemma_lt_ok_concat(wc, wr, 'e');
    lemma_no_close(inner, q);
    assert(simple_parts(q, a, inner));
    lemma_one_child(q, a, inner);
}

/// A serialized fault whose code and message hold no markup is one root
/// element, and its fields are found as its children: the code and the
/// message, unchanged.
proof fn lemma_fault_content(v: SoapVersion, code: Seq<char>, message: Seq<char>)
    requires
        markup_free(code),
        markup_free(message),
    ensures
        ({
            let f = fault_text(v, code, message);
            let inner = match v {
                SoapVersion::V11 => fault11_inner(code, message),
                SoapVersion::V12 => fault12_inner(code, message),
            };
            &&& root_content(f) == Some(inner)
            &&& fault_texts(v, inner) == (Some(Some(code)), Some(Some(message)))
        }),
{
    match v {
        SoapVersion::V11 => lemma_fault11_content(code, message),
        SoapVersion::V12 => lemma_fault12_content(code, message),
    }
}

/// Every serialized fault is recognised as a fault by `is_soap_fault`.
pub proof fn lemma_serialized_fault_detected(v: SoapVersion, code: Seq<char>, message: Seq<char>)
    ensures
        looks_like_fault(fault_text(v, code, message)),
{
    reveal_strlit("<soap:Fault xmlns:soap=\"http://schemas.xmlsoap.org/soap/envelope/\"><faultcode>");
    reveal_strlit("<env:Fault xmlns:env=\"http://www.w3.org/2003/05/soap-envelope\"><Code><Value>");
    reveal_strlit("<soap:Fault");
    reveal_strlit("<env:Fault");
    let f = fault_text(v, code, message);
    match v {
        SoapVersion::V11 => {
            lemma_fault11_layout(code, message);
            assert forall|j: int| 0 <= j < 11 implies f[j] == #[trigger] fault11_head()[j] by {}
            assert(f.subrange(0, 11) =~= "<soap:Fault"@);
            lemma_contains_seq(f, "<soap:Fault"@);
            assert(matches_at(f, "<soap:Fault"@, 0));
        },
        SoapVersion::V12 => {
            lemma_fault12_layout(code, message);
            assert forall|j: int| 0 <= j < 10 implies f[j] == #[trigger] fault12_head()[j] by {}
            assert(f.subrange(0, 10) =~= "<env:Fault"@);
            lemma_contains_seq(f, "<env:Fault"@);
            assert(matches_at(f, "<env:Fault"@, 0));
        },
    }
}

/// A fault marker anywhere in a text makes it a fault: wherever
/// `<soap:Fault`, `<env:Fault` or `<Fault xmlns=` starts, `is_soap_fault`
/// holds of the text.
pub proof fn lemma_fault_marker_anywhere(x: Seq<char>, i: int)
    requires
        matches_at(x, "<soap:Fault"@, i) || matches_at(x, "<env:Fault"@, i) || matches_at(
            x,
            "<Fault xmlns="@,
            i,
        ),
    ensures
        looks_like_fault(x),
{
    lemma_contains_seq(x, "<soap:Fault"@);
    lemma_contains_seq(x, "<env:Fault"@);
    lemma_contains_seq(x, "<Fault xmlns="@);
}

/// A fault response is a fault: `is_soap_fault` holds of every envelope
/// that `build_envelope` wraps around what `serialize_fault` wrote, in the
/// same version, whatever the action, code and message.
pub proof fn lemma_enveloped_fault_detected(v: SoapVersion, action: Seq<char>, code: Seq<char>, message: Seq<char>)
    ensures
        looks_like_fault(envelope_text(v, action, fault_text(v, code, message))),
{
    reveal_strlit("<?xml version=\"1.0\" encoding=\"UTF-8\"?>\n<soap:Envelope xmlns:soap=\"http://schemas.xmlsoap.org/soap/envelope/\">\n    <soap:Header>\n       <Action soap:mustUnderstand=\"true\" xmlns=\"http://schemas.xmlsoap.org/ws/2004/08/addressing\">");
    reveal_strlit("</Action>\n    </soap:Header>\n    <soap:Body>\n       ");
    reveal_strlit("<?xml version=\"1.0\" encoding=\"UTF-8\"?>\n<env:Envelope xmlns:env=\"http://www.w3.org/2003/05/soap-envelope\">\n    <env:Header/>\n    <env:Body>\n       ");
    reveal_strlit("<soap:Fault xmlns:soap=\"http://schemas.xmlsoap.org/soap/envelope/\"><faultcode>");
    reveal_strlit("<env:Fault xmlns:env=\"http://www.w3.org/2003/05/soap-envelope\"><Code><Value>");
    reveal_strlit("<soap:Fault");
    reveal_strlit("<env:Fault");
    let f = fault_text(v, code, message);
    let e = envelope_text(v, action, f);
    match v {
        SoapVersion::V11 => {
            lemma_fault11_layout(code, message);
            let o: int = 279 + action.len() as int;
            assert(envelope11_head().len() == 227);
            assert(envelope11_mid().len() == 52);
            assert(e == envelope11_head() + action + envelope11_mid() + f + envelope11_tail());
            assert forall|j: int| 0 <= j < 11 implies e[o + j] == #[trigger] "<soap:Fault"@[j] by {
                assert(e[o + j] == f[j]);
                assert(f[j] == fault11_head()[j]);
            }
            assert(e.subrange(o, o + 11) =~= "<soap:Fault"@);
            lemma_fault_marker_anywhere(e, o);
        },
        SoapVersion::V12 => {
            lemma_fault12_layout(code, message);
            assert(envelope12_head().len() == 146);
            assert(e == envelope12_head() + f + envelope12_tail());
            assert forall|j: int| 0 <= j < 10 implies e[146 + j] == #[trigger] "<env:Fault"@[j] by {
                assert(e[146 + j] == f[j]);
                assert(f[j] == fault12_head()[j]);
            }
            assert(e.subrange(146, 156) =~= "<env:Fault"@);
            lemma_fault_marker_anywhere(e, 146);
        },
    }
}

/// Every text that mentions the SOAP 1.2 envelope namespace, on whatever
/// prefix, is read as a SOAP 1.2 fault: its code is the `Value` inside the
/// `Code` child of its root element and its message the `Text` inside the
/// `Reason` child.
pub proof fn lemma_soap12_namespace_read_as_12(x: Seq<char>)
    requires
        contains_seq(x, SOAP_NS_ENVELOPE_12@),
    ensures
        fault_of(x) == match root_content(fault_payload(x)) {
            None => None,
            Some(r) => fault_fields_of(nested_text(r, "Code"@, "Value"@), nested_text(r, "Reason"@, "Text"@)),
        },
{
}


/// A SOAP 1.2 fault element written on the prefix `p`, with code `c` and
/// message `m`.
pub open spec fn prefixed_fault12(p: Seq<char>, c: Seq<char>, m: Seq<char>) -> Seq<char> {
    "<"@ + p + ":Fault xmlns:"@ + p + "=\""@ + SOAP_NS_ENVELOPE_12@ + "\"><Code><Value>"@ + c
        + "</Value></Code><Reason><Text>"@ + m + "</Text></Reason></"@ + p + ":Fault>"@
}

/// The content of a SOAP 1.2 fault element with code `c` and message `m`.
pub open spec fn plain_fault12_inner(c: Seq<char>, m: Seq<char>) -> Seq<char> {
    "<Code><Value>"@ + c + "</Value></Code><Reason><Text>"@ + m + "</Text></Reason>"@
}

/// Every `<` of `y` is followed by a character other than `d`.
pub open spec fn next_ok(y: Seq<char>, d: char) -> bool {
    forall|j: int| 0 <= j < y.len() && #[trigger] y[j] == '<' ==> j + 1 < y.len() && y[j + 1] != d
}

proof fn lemma_next_ok_concat(y1: Seq<char>, y2: Seq<char>, d: char)
    requires
        next_ok(y1, d),
        next_ok(y2, d),
    ensures
        next_ok(y1 + y2, d),
{
    let y = y1 + y2;
    assert forall|j: int| 0 <= j < y.len() && #[trigger] y[j] == '<' implies j + 1 < y.len() && y[j + 1]
        != d by {
        if j < y1.len() {
            assert(y1[j] == '<');
            assert(y[j + 1] == y1[j + 1]);
        } else {
            assert(y2[j - y1.len()] == '<');
            assert(y[j + 1] == y2[j + 1 - y1.len()]);
        }
    }
}

/// The content of a SOAP 1.2 fault holds no opening tag whose second
/// character is `d` (`d` not `/` nor the start of its element names).
proof fn lemma_inner12_next_ok(c: Seq<char>, m: Seq<char>, d: char)
    requires
        markup_free(c),
        markup_free(m),
        d != '/' && d != 'C' && d != 'V' && d != 'R' && d != 'T',
    ensures
        next_ok(plain_fault12_inner(c, m), d),
{
    reveal_strlit("<Code><Value>");
    reveal_strlit("</Value></Code><Reason><Text>");
    reveal_strlit("</Text></Reason>");
    assert(next_ok("<Code><Value>"@, d));
    assert(next_ok("</Value></Code><Reason><Text>"@, d));
    assert(next_ok("</Text></Reason>"@, d));
    lemma_next_ok_concat("<Code><Value>"@, c, d);
    lemma_next_ok_concat("<Code><Value>"@ + c, "</Value></Code><Reason><Text>"@, d);
    lemma_next_ok_concat("<Code><Value>"@ + c + "</Value></Code><Reason><Text>"@, m, d);
    lemma_next_ok_concat("<Code><Value>"@ + c + "</Value></Code><Reason><Text>"@ + m, "</Text></Reason>"@, d);
}

/// The content of a SOAP 1.2 fault does not close an element whose
/// qualified name has at least seven characters.
proof fn lemma_inner12_no_long_close(c: Seq<char>, m: Seq<char>, q: Seq<char>)
    requires
        markup_free(c),
        markup_free(m),
        q.len() >= 7,
        forall|k: int| 0 <= k < q.len() ==> is_name_char(#[trigger] q[k]),
    ensures
        !contains_seq(plain_fault12_inner(c, m), "</"@ + q + ">"@),
{
    reveal_strlit("<Code><Value>");
    reveal_strlit("</Value></Code><Reason><Text>");
    reveal_strlit("</Text></Reason>");
    reveal_strlit("</");
    reveal_strlit(">");
    let a = "<Code><Value>"@;
    let b = "</Value></Code><Reason><Text>"@;
    let t = "</Text></Reason>"@;
    let y = plain_fault12_inner(c, m);
    let pat = "</"@ + q + ">"@;
    let lc = c.len() as int;
    let lm = m.len() as int;
    let b0 = 13 + lc;
    let m0 = 42 + lc;
    let t0 = 42 + lc + lm;
    assert(a.len() == 13 && b.len() == 29 && t.len() == 16);
    assert(y.len() == 58 + lc + lm);
    assert forall|j: int| 0 <= j < 13 implies #[trigger] y[j] == a[j] by {}
    assert forall|j: int| b0 <= j < m0 implies #[trigger] y[j] == b[j - b0] by {}
    assert forall|j: int| t0 <= j < t0 + 16 implies #[trigger] y[j] == t[j - t0] by {}
    assert forall|j: int| 13 <= j < b0 implies #[trigger] y[j] == c[j - 13] by {}
    assert forall|j: int| m0 <= j < t0 implies #[trigger] y[j] == m[j - m0] by {}
    assert(pat[0] == '<' && pat[1] == '/');
    assert forall|k: int| 2 <= k < 2 + q.len() implies #[trigger] pat[k] != '>' by {
        assert(pat[k] == q[k - 2]);
    }
    assert forall|j: int| 0 <= j implies !matches_at(y, pat, j) by {
        if j < y.len() {
            if y[j] != '<' {
                lemma_mismatch(y, pat, j, 0);
            } else if j < 13 {
                assert(y[j + 1] == a[j + 1]);
                lemma_mismatch(y, pat, j, 1);
            } else if j < b0 {
                assert(c[j - 13] == '<');
            } else if j < m0 {
                let o = j - b0;
                if o == 0 {
                    assert(y[j + 7] == b[7]);
                    lemma_mismatch(y, pat, j, 7);
                } else if o == 8 {
                    assert(y[j + 6] == b[14]);
                    lemma_mismatch(y, pat, j, 6);
                } else {
                    assert(y[j + 1] == b[o + 1]);
                    lemma_mismatch(y, pat, j, 1);
                }
            } else if j < t0 {
                assert(m[j - m0] == '<');
            } else {
                let o = j - t0;
                if o == 0 {
                    assert(y[j + 6] == t[6]);
                    lemma_mismatch(y, pat, j, 6);
                } else {
                    assert(o == 7);
                    assert(y[j + 8] == t[15]);
                    lemma_mismatch(y, pat, j, 8);
                }
            }
        }
    }
    lemma_find_from_none(y, pat, 0);
}

/// The children of the content of a SOAP 1.2 fault give its code and
/// message.
proof fn lemma_inner12_texts(c: Seq<char>, m: Seq<char>)
    requires
        markup_free(c),
        markup_free(m),
    ensures
        fault_texts(SoapVersion::V12, plain_fault12_inner(c, m)) == (Some(Some(c)), Some(Some(m))),
{
    reveal_strlit("<Code><Value>");
    reveal_strlit("</Value></Code><Reason><Text>");
    reveal_strlit("</Text></Reason>");
    reveal_strlit("<");
    reveal_strlit(">");
    reveal_strlit("</");
    reveal_strlit("Code");
    reveal_strlit("Value");
    reveal_strlit("Reason");
    reveal_strlit("Text");
    let e: Seq<char> = Seq::empty();
    lemma_lt_ok_markup_free(c, 'V');
    lemma_lt_ok_markup_free(c, 'C');
    lemma_lt_ok_markup_free(m, 'T');
    lemma_lt_ok_markup_free(m, 'R');
    let wv = written_element("Value"@, e, c);
    let wt = written_element("Text"@, e, m);
    let wc = written_element("Code"@, e, wv);
    let wr = written_element("Reason"@, e, wt);
    assert(plain_fault12_inner(c, m) =~= wc + wr);
    lemma_no_close(c, "Value"@);
    lemma_no_close(m, "Text"@);
    assert(simple_parts("Value"@, e, c));
    assert(simple_parts("Text"@, e, m));
    lemma_one_child("Value"@, e, c);
    lemma_one_child("Text"@, e, m);
    lemma_no_colon_local("Value"@);
    lemma_no_colon_local("Text"@);
    assert(lt_ok("<"@ + "Value"@ + e + ">"@, 'C'));
    assert(lt_ok("</"@ + "Value"@ + ">"@, 'C'));
    lemma_lt_ok_concat("<"@ + "Value"@ + e + ">"@, c, 'C');
    lemma_lt_ok_concat("<"@ + "Value"@ + e + ">"@ + c, "</"@ + "Value"@ + ">"@, 'C');
    assert(wv =~= "<"@ + "Value"@ + e + ">"@ + c + ("</"@ + "Value"@ + ">"@));
    lemma_no_close(wv, "Code"@);
    assert(lt_ok("<"@ + "Text"@ + e + ">"@, 'R'));
    assert(lt_ok("</"@ + "Text"@ + ">"@, 'R'));
    lemma_lt_ok_concat("<"@ + "Text"@ + e + ">"@, m, 'R');
    lemma_lt_ok_concat("<"@ + "Text"@ + e + ">"@ + m, "</"@ + "Text"@ + ">"@, 'R');
    assert(wt =~= "<"@ + "Text"@ + e + ">"@ + m + ("</"@ + "Text"@ + ">"@));
    lemma_no_close(wt, "Reason"@);
    assert(simple_parts("Code"@, e, wv));
    assert(simple_parts("Reason"@, e, wt));
    lemma_two_children("Code"@, e, wv, "Reason"@, e, wt);
    lemma_no_colon_local("Code"@);
    lemma_no_colon_local("Reason"@);
    assert("Reason"@ != "Code"@) by {
        assert("Reason"@.len() != "Code"@.len());
    }
    lemma_empty_not_nil();
    lemma_child_named_two("Code"@, e, wv, "Reason"@, e, wt, "Code"@);
    lemma_child_named_two("Code"@, e, wv, "Reason"@, e, wt, "Reason"@);
    lemma_child_named_one("Value"@, e, c, "Value"@);
    lemma_child_named_one("Text"@, e, m, "Text"@);
}

/// A text opening with `<p:F...` for a name `p` without `:` does not open
/// with `<w>` when every `:` of `w` is followed by something else than `F`.
proof fn lemma_prefixed_start_not(x: Seq<char>, p: Seq<char>, w: Seq<char>)
    requires
        p.len() > 0,
        forall|k: int| 0 <= k < p.len() ==> is_name_char(#[trigger] p[k]),
        x.len() > p.len() + 3,
        x.subrange(0, p.len() as int + 3) == "<"@ + p + ":F"@,
        w.len() > 0,
        forall|k: int| 0 <= k < w.len() && #[trigger] w[k] == ':' ==> k + 1 < w.len() && w[k + 1] != 'F',
    ensures
        !matches_at(x, "<"@ + w + ">"@, 0),
{
    reveal_strlit("<");
    reveal_strlit(">");
    reveal_strlit(":F");
    let k = p.len() as int;
    let pat = "<"@ + w + ">"@;
    assert(x.subrange(0, k + 3)[k + 1] == x[k + 1]);
    assert(x.subrange(0, k + 3)[k + 2] == x[k + 2]);
    assert(x[k + 1] == ':' && x[k + 2] == 'F');
    if k < w.len() {
        assert(pat[k + 1] == w[k]);
        if w[k] != ':' {
            lemma_mismatch(x, pat, 0, k + 1);
        } else {
            assert(pat[k + 2] == w[k + 1]);
            lemma_mismatch(x, pat, 0, k + 2);
        }
    } else if k == w.len() {
        assert(pat[k + 1] == '>');
        lemma_mismatch(x, pat, 0, k + 1);
    } else {
        let i = w.len() as int;
        assert(pat[i + 1] == '>');
        assert(x.subrange(0, k + 3)[i + 1] == x[i + 1]);
        assert(x[i + 1] == p[i]);
        lemma_mismatch(x, pat, 0, i + 1);
    }
}

/// The start tag of a SOAP 1.2 fault element written on the prefix `p`.
pub open spec fn prefixed12_head(p: Seq<char>) -> Seq<char> {
    "<"@ + p + ":Fault xmlns:"@ + p + "=\""@ + SOAP_NS_ENVELOPE_12@ + "\">"@
}

/// The attributes of a SOAP 1.2 fault element written on the prefix `p`.
pub open spec fn prefixed12_attributes(p: Seq<char>) -> Seq<char> {
    " xmlns:"@ + p + "=\""@ + SOAP_NS_ENVELOPE_12@ + "\""@
}

/// The end tag of a SOAP 1.2 fault element written on the prefix `p`.
pub open spec fn prefixed12_tail(p: Seq<char>) -> Seq<char> {
    "</"@ + p + ":Fault>"@
}

/// A SOAP 1.2 fault on the prefix `p` is its start tag, its content and
/// its end tag.
proof fn lemma_prefixed12_layout(p: Seq<char>, c: Seq<char>, m: Seq<char>)
    ensures
        prefixed_fault12(p, c, m) == prefixed12_head(p) + plain_fault12_inner(c, m) + prefixed12_tail(p),
        prefixed_fault12(p, c, m) == written_element(p + ":Fault"@, prefixed12_attributes(p), plain_fault12_inner(c, m)),
{
    reveal_strlit("<");
    reveal_strlit(">");
    reveal_strlit("</");
    reveal_strlit(":Fault");
    reveal_strlit(":Fault xmlns:");
    reveal_strlit(" xmlns:");
    reveal_strlit("=\"");
    reveal_strlit("\"");
    reveal_strlit("\">");
    reveal_strlit("\"><Code><Value>");
    reveal_strlit("<Code><Value>");
    reveal_strlit("</Value></Code><Reason><Text>");
    reveal_strlit("</Text></Reason>");
    reveal_strlit("</Text></Reason></");
    reveal_strlit(":Fault>");
    let x = prefixed_fault12(p, c, m);
    assert(x =~= prefixed12_head(p) + plain_fault12_inner(c, m) + prefixed12_tail(p));
    assert(x =~= written_element(p + ":Fault"@, prefixed12_attributes(p), plain_fault12_inner(c, m)));
}

/// The shape of the start and end tags of a SOAP 1.2 fault on a prefix `p`
/// that is a name without `:`.
proof fn lemma_prefixed12_tags(p: Seq<char>)
    requires
        p.len() > 0,
        forall|k: int| 0 <= k < p.len() ==> is_name_char(#[trigger] p[k]) && p[k] != ':',
    ensures
        prefixed12_head(p).len() == 57 + 2 * p.len(),
        prefixed12_head(p)[0] == '<',
        forall|j: int| 0 < j < prefixed12_head(p).len() ==> #[trigger] prefixed12_head(p)[j] != '<',
        prefixed12_head(p).subrange(16 + 2 * (p.len() as int), 55 + 2 * (p.len() as int)) == SOAP_NS_ENVELOPE_12@,
        prefixed12_head(p).subrange(0, p.len() as int + 3) == "<"@ + p + ":F"@,
        prefixed12_tail(p).len() == p.len() + 9,
        prefixed12_tail(p)[0] == '<',
        prefixed12_tail(p)[1] == '/',
        forall|j: int| 0 < j < prefixed12_tail(p).len() ==> #[trigger] prefixed12_tail(p)[j] != '<',
{
    reveal_strlit("<");
    reveal_strlit("</");
    reveal_strlit(":F");
    reveal_strlit(":Fault xmlns:");
    reveal_strlit("=\"");
    reveal_strlit("\">");
    reveal_strlit(":Fault>");
    reveal_strlit("http://www.w3.org/2003/05/soap-envelope");
    let k = p.len() as int;
    let ns = SOAP_NS_ENVELOPE_12@;
    let head = prefixed12_head(p);
    let tail = prefixed12_tail(p);
    let pre = "<"@ + p + ":Fault xmlns:"@ + p + "=\""@;
    assert(head =~= pre + ns + "\">"@);
    assert(pre.len() == 16 + 2 * k);
    assert(ns.len() == 39);
    assert(head.subrange(16 + 2 * k, 55 + 2 * k) =~= ns);
    assert(head.subrange(0, k + 3) =~= "<"@ + p + ":F"@);
    assert forall|j: int| 0 < j < head.len() implies #[trigger] head[j] != '<' by {
        if j < 1 + k {
            assert(head[j] == p[j - 1]);
        } else if j < 14 + k {
            assert(head[j] == ":Fault xmlns:"@[j - 1 - k]);
        } else if j < 14 + 2 * k {
            assert(head[j] == p[j - 14 - k]);
        } else if j < 16 + 2 * k {
            assert(head[j] == "=\""@[j - 14 - 2 * k]);
        } else if j < 55 + 2 * k {
            assert(head[j] == ns[j - 16 - 2 * k]);
        } else {
            assert(head[j] == "\">"@[j - 55 - 2 * k]);
        }
    }
    assert forall|j: int| 0 < j < tail.len() implies #[trigger] tail[j] != '<' by {
        if j < 2 {
            assert(tail[j] == "</"@[j]);
        } else if j < 2 + k {
            assert(tail[j] == p[j - 2]);
        } else {
            assert(tail[j] == ":Fault>"@[j - 2 - k]);
        }
    }
    assert(tail[0] == "</"@[0]);
    assert(tail[1] == "</"@[1]);
}

/// A SOAP 1.2 fault on any prefix mentions the 1.2 envelope namespace.
proof fn lemma_prefixed12_version(p: Seq<char>, c: Seq<char>, m: Seq<char>)
    requires
        p.len() > 0,
        forall|k: int| 0 <= k < p.len() ==> is_name_char(#[trigger] p[k]) && p[k] != ':',
    ensures
        fault_version(prefixed_fault12(p, c, m)) == SoapVersion::V12,
{
    lemma_prefixed12_layout(p, c, m);
    lemma_prefixed12_tags(p);
    let k = p.len() as int;
    let ns = SOAP_NS_ENVELOPE_12@;
    let x = prefixed_fault12(p, c, m);
    let head = prefixed12_head(p);
    assert(x.subrange(16 + 2 * k, 55 + 2 * k) =~= ns) by {
        assert forall|j: int| 0 <= j < 39 implies x.subrange(16 + 2 * k, 55 + 2 * k)[j] == ns[j] by {
            assert(x[16 + 2 * k + j] == head[16 + 2 * k + j]);
            assert(head.subrange(16 + 2 * k, 55 + 2 * k)[j] == head[16 + 2 * k + j]);
        }
    }
    assert(matches_at(x, ns, 16 + 2 * k));
    lemma_find_from(x, ns, 0);
}

/// A SOAP 1.2 fault on a prefix `p` holds no start tag `<w>` of a name `w`
/// whose first character starts none of its own element names and whose
/// `:`s are not followed by `F`.
#[verifier::rlimit(40)]
proof fn lemma_prefixed12_no_tag(p: Seq<char>, c: Seq<char>, m: Seq<char>, w: Seq<char>)
    requires
        p.len() > 0,
        forall|k: int| 0 <= k < p.len() ==> is_name_char(#[trigger] p[k]) && p[k] != ':',
        markup_free(c),
        markup_free(m),
        w.len() > 0,
        w[0] != '/' && w[0] != 'C' && w[0] != 'V' && w[0] != 'R' && w[0] != 'T',
        forall|k: int| 0 <= k < w.len() && #[trigger] w[k] == ':' ==> k + 1 < w.len() && w[k + 1] != 'F',
    ensures
        find_from(prefixed_fault12(p, c, m), "<"@ + w + ">"@, 0) is None,
{
    reveal_strlit("<");
    reveal_strlit(">");
    lemma_prefixed12_layout(p, c, m);
    lemma_prefixed12_tags(p);
    let k = p.len() as int;
    let x = prefixed_fault12(p, c, m);
    let head = prefixed12_head(p);
    let inner = plain_fault12_inner(c, m);
    let tail = prefixed12_tail(p);
    let h = head.len() as int;
    let il = inner.len() as int;
    let pat = "<"@ + w + ">"@;
    assert(pat[0] == '<');
    assert(pat[1] == w[0]);
    lemma_inner12_next_ok(c, m, w[0]);
    assert(x.subrange(0, k + 3) =~= "<"@ + p + ":F"@) by {
        assert forall|j: int| 0 <= j < k + 3 implies #[trigger] x.subrange(0, k + 3)[j] == head.subrange(0, k + 3)[j] by {
            assert(x[j] == head[j]);
        }
    }
    lemma_prefixed_start_not(x, p, w);
    assert forall|j: int| 0 <= j implies !matches_at(x, pat, j) by {
        if 0 < j < x.len() {
            if j < h {
                assert(x[j] == head[j]);
                lemma_mismatch(x, pat, j, 0);
            } else if j < h + il {
                assert(x[j] == inner[j - h]);
                if inner[j - h] == '<' {
                    assert(x[j + 1] == inner[j - h + 1]);
                    lemma_mismatch(x, pat, j, 1);
                } else {
                    lemma_mismatch(x, pat, j, 0);
                }
            } else {
                let o = j - h - il;
                assert(x[j] == tail[o]);
                if o == 0 {
                    assert(x[j + 1] == tail[1]);
                    lemma_mismatch(x, pat, j, 1);
                } else {
                    lemma_mismatch(x, pat, j, 0);
                }
            }
        }
    }
    lemma_find_from_none(x, pat, 0);
}

/// A SOAP 1.2 fault on any prefix has no SOAP Body, so it is read whole.
proof fn lemma_prefixed12_payload(p: Seq<char>, c: Seq<char>, m: Seq<char>)
    requires
        p.len() > 0,
        forall|k: int| 0 <= k < p.len() ==> is_name_char(#[trigger] p[k]) && p[k] != ':',
        markup_free(c),
        markup_free(m),
    ensures
        fault_payload(prefixed_fault12(p, c, m)) == prefixed_fault12(p, c, m),
{
    reveal_strlit("<");
    reveal_strlit(">");
    reveal_strlit("<soap:Body>");
    reveal_strlit("<env:Body>");
    reveal_strlit("<Body>");
    reveal_strlit("soap:Body");
    reveal_strlit("env:Body");
    reveal_strlit("Body");
    let w1 = "soap:Body"@;
    let w2 = "env:Body"@;
    let w3 = "Body"@;
    assert(forall|k: int| 0 <= k < w1.len() && #[trigger] w1[k] == ':' ==> k == 4);
    assert(forall|k: int| 0 <= k < w2.len() && #[trigger] w2[k] == ':' ==> k == 3);
    assert(forall|k: int| 0 <= k < w3.len() ==> #[trigger] w3[k] != ':');
    lemma_prefixed12_no_tag(p, c, m, w1);
    lemma_prefixed12_no_tag(p, c, m, w2);
    lemma_prefixed12_no_tag(p, c, m, w3);
    assert("<soap:Body>"@ =~= "<"@ + w1 + ">"@);
    assert("<env:Body>"@ =~= "<"@ + w2 + ">"@);
    assert("<Body>"@ =~= "<"@ + w3 + ">"@);
}

/// The root element of a SOAP 1.2 fault on any prefix holds its content.
proof fn lemma_prefixed12_root(p: Seq<char>, c: Seq<char>, m: Seq<char>)
    requires
        p.len() > 0,
        forall|k: int| 0 <= k < p.len() ==> is_name_char(#[trigger] p[k]) && p[k] != ':',
        markup_free(c),
        markup_free(m),
    ensures
        root_content(prefixed_fault12(p, c, m)) == Some(plain_fault12_inner(c, m)),
{
    reveal_strlit(":Fault");
    reveal_strlit(" xmlns:");
    reveal_strlit("=\"");
    reveal_strlit("\"");
    reveal_strlit("http://www.w3.org/2003/05/soap-envelope");
    lemma_prefixed12_layout(p, c, m);
    let k = p.len() as int;
    let q = p + ":Fault"@;
    let a = prefixed12_attributes(p);
    let inner = plain_fault12_inner(c, m);
    assert forall|j: int| 0 <= j < q.len() implies is_name_char(#[trigger] q[j]) by {
        if j >= k {
            assert(q[j] == ":Fault"@[j - k]);
        }
    }
    lemma_inner12_no_long_close(c, m, q);
    assert forall|j: int| 0 <= j < a.len() implies #[trigger] a[j] != '>' by {
        if j < 7 {
            assert(a[j] == " xmlns:"@[j]);
        } else if j < 7 + k {
            assert(a[j] == p[j - 7]);
        } else if j < 9 + k {
            assert(a[j] == "=\""@[j - 7 - k]);
        } else if j < 48 + k {
            assert(a[j] == SOAP_NS_ENVELOPE_12@[j - 9 - k]);
        } else {
            assert(a[j] == "\""@[j - 48 - k]);
        }
    }
    assert(a[0] == ' ');
    assert(a.last() == '"');
    assert(simple_parts(q, a, inner));
    lemma_one_child(q, a, inner);
}

/// Every SOAP 1.2 fault reads back, on whatever prefix its envelope
/// namespace is declared: `parse_soap_fault` of
/// `<p:Fault xmlns:p="http://www.w3.org/2003/05/soap-envelope"><Code><Value>c</Value></Code><Reason><Text>m</Text></Reason></p:Fault>`
/// gives `(c, m)`, for every name `p` without `:` and every code and
/// message without markup or references and without XML white space at
/// their ends.
pub proof fn lemma_soap12_fault_any_prefix(p: Seq<char>, c: Seq<char>, m: Seq<char>)
    requires
        p.len() > 0,
        forall|k: int| 0 <= k < p.len() ==> is_name_char(#[trigger] p[k]) && p[k] != ':',
        markup_free(c),
        markup_free(m),
        xml_trim(c) == c,
        xml_trim(m) == m,
        !c.contains('&'),
        !m.contains('&'),
    ensures
        fault_of(prefixed_fault12(p, c, m)) == Some((c, m)),
{
    lemma_prefixed12_version(p, c, m);
    lemma_prefixed12_payload(p, c, m);
    lemma_prefixed12_root(p, c, m);
    lemma_inner12_texts(c, m);
    lemma_markup_free_not_cdata(c);
    lemma_markup_free_not_cdata(m);
    assert(!c.contains('<')) by {
        if c.contains('<') {
            let i = choose|i: int| 0 <= i < c.len() && c[i] == '<';
            assert(c[i] != '<');
        }
    }
    assert(!m.contains('<')) by {
        if m.contains('<') {
            let i = choose|i: int| 0 <= i < m.len() && m[i] == '<';
            assert(m[i] != '<');
        }
    }
}

} // verus!
