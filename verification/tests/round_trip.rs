//! What is written is read back: envelopes, faults, tags.

use rsoap::envelope::{
    build_envelope, detect_fault_version, extract_body, extract_tagged_body, is_soap_fault, parse_soap_fault,
    serialize_fault, SOAP_NS_ENVELOPE, SOAP_NS_ENVELOPE_12,
};
use rsoap::text::is_white_space_exec;
use rsoap::wsdl::{extract_tag_content, extract_tag_contents};
use rsoap::SoapVersion;

#[test]
fn envelope_11_gives_back_its_body() {
    let env = build_envelope(SoapVersion::V11, "urn:GetWeather", "  <Resp><t>1</t></Resp>\n");
    assert_eq!(extract_body(&env).unwrap(), "<Resp><t>1</t></Resp>");
}

#[test]
fn envelope_12_gives_back_its_body() {
    let env = build_envelope(SoapVersion::V12, "urn:GetWeather", "<Resp/>");
    assert_eq!(extract_body(&env).unwrap(), "<Resp/>");
}

#[test]
fn envelope_with_empty_body() {
    let env = build_envelope(SoapVersion::V11, "a", "");
    assert_eq!(extract_body(&env).unwrap(), "");
}

#[test]
fn envelope_11_exact_text() {
    let env = build_envelope(SoapVersion::V11, "Act", "<B/>");
    let expected = "<?xml version=\"1.0\" encoding=\"UTF-8\"?>\n<soap:Envelope xmlns:soap=\"http://schemas.xmlsoap.org/soap/envelope/\">\n    <soap:Header>\n       <Action soap:mustUnderstand=\"true\" xmlns=\"http://schemas.xmlsoap.org/ws/2004/08/addressing\">Act</Action>\n    </soap:Header>\n    <soap:Body>\n       <B/>\n    </soap:Body>\n</soap:Envelope>";
    assert_eq!(env, expected);
}

#[test]
fn envelope_12_exact_text() {
    let env = build_envelope(SoapVersion::V12, "Act", "<B/>");
    let expected = "<?xml version=\"1.0\" encoding=\"UTF-8\"?>\n<env:Envelope xmlns:env=\"http://www.w3.org/2003/05/soap-envelope\">\n    <env:Header/>\n    <env:Body>\n       <B/>\n    </env:Body>\n</env:Envelope>";
    assert_eq!(env, expected);
}

#[test]
fn fault_11_reads_back() {
    let xml = serialize_fault(SoapVersion::V11, "Server", "Something broke");
    assert_eq!(
        parse_soap_fault(&xml).unwrap(),
        ("Server".to_string(), "Something broke".to_string())
    );
}

#[test]
fn fault_12_reads_back() {
    let xml = serialize_fault(SoapVersion::V12, "env:Receiver", "Try later");
    assert_eq!(
        parse_soap_fault(&xml).unwrap(),
        ("env:Receiver".to_string(), "Try later".to_string())
    );
}

#[test]
fn fault_exact_text() {
    assert_eq!(
        serialize_fault(SoapVersion::V11, "C", "M"),
        "<soap:Fault xmlns:soap=\"http://schemas.xmlsoap.org/soap/envelope/\"><faultcode>C</faultcode><faultstring>M</faultstring></soap:Fault>"
    );
    assert_eq!(
        serialize_fault(SoapVersion::V12, "C", "M"),
        "<env:Fault xmlns:env=\"http://www.w3.org/2003/05/soap-envelope\"><Code><Value>C</Value></Code><Reason><Text xml:lang=\"en\">M</Text></Reason></env:Fault>"
    );
}

#[test]
fn fault_wrapped_in_envelope_reads_back() {
    for v in [SoapVersion::V11, SoapVersion::V12] {
        let env = build_envelope(v, "urn:Op", &serialize_fault(v, "Client", "Bad zip"));
        assert_eq!(
            parse_soap_fault(&env).unwrap(),
            ("Client".to_string(), "Bad zip".to_string())
        );
    }
}

#[test]
fn serialized_faults_are_detected() {
    assert!(is_soap_fault(&serialize_fault(SoapVersion::V11, "a", "b")));
    assert!(is_soap_fault(&serialize_fault(SoapVersion::V12, "a", "b")));
    assert!(!is_soap_fault("<Fault>unqualified</Fault>"));
}

#[test]
fn fault_references_are_decoded() {
    let xml = "<soap:Fault><faultcode> A&amp;B </faultcode><faultstring>x &lt; &#65;</faultstring></soap:Fault>";
    assert_eq!(
        parse_soap_fault(xml).unwrap(),
        ("A&B".to_string(), "x < A".to_string())
    );
}

#[test]
fn fault_bad_reference_is_an_error() {
    assert!(parse_soap_fault("<soap:Fault><faultstring>x &bogus; y</faultstring></soap:Fault>").is_err());
    assert!(parse_soap_fault("<soap:Fault><faultcode>a & b</faultcode></soap:Fault>").is_err());
}

#[test]
fn fault_12_missing_fields_default() {
    let xml = format!("<env:Fault xmlns:env=\"{}\"><Code></Code></env:Fault>", SOAP_NS_ENVELOPE_12);
    assert_eq!(
        parse_soap_fault(&xml).unwrap(),
        ("unknown".to_string(), "no details".to_string())
    );
}

#[test]
fn fault_self_closing_element_is_empty() {
    let xml = "<soap:Fault><faultcode/><faultstring>m</faultstring></soap:Fault>";
    assert_eq!(parse_soap_fault(xml).unwrap(), (String::new(), "m".to_string()));
}

#[test]
fn fault_element_name_prefix_is_not_a_match() {
    // `<faultcodes>` is another element; the code is absent.
    let xml = "<soap:Fault><faultcodes>x</faultcodes></soap:Fault>";
    assert_eq!(
        parse_soap_fault(xml).unwrap(),
        ("unknown".to_string(), "no details".to_string())
    );
}

#[test]
fn body_prefers_soap_then_env_then_plain() {
    let xml = "<Body>c</Body><env:Body>b</env:Body><soap:Body>a</soap:Body>";
    assert_eq!(extract_body(xml).unwrap(), "a");
    let xml = "<Body>c</Body><env:Body>b</env:Body>";
    assert_eq!(extract_body(xml).unwrap(), "b");
}

#[test]
fn body_missing_is_an_error() {
    assert!(extract_body("<soap:Envelope/>").is_err());
    assert!(extract_body("<soap:Body>never closed").is_err());
}

#[test]
fn tagged_body_edge_cases() {
    assert_eq!(extract_tagged_body("<a> x </a>", "<a>", "</a>"), Some("x".to_string()));
    assert_eq!(extract_tagged_body("<b>x</b>", "<a>", "</a>"), None);
    assert_eq!(extract_tagged_body("text<a>", "<a>", "</a>"), None);
    assert_eq!(extract_tagged_body("</a><a>x", "<a>", "</a>"), None);
    assert_eq!(extract_tagged_body("<a></a>", "<a>", "</a>"), Some(String::new()));
}

#[test]
fn version_constants() {
    assert_eq!(SoapVersion::V11.namespace(), SOAP_NS_ENVELOPE);
    assert_eq!(SoapVersion::V12.namespace(), SOAP_NS_ENVELOPE_12);
    assert_eq!(SoapVersion::V11.prefix(), "soap");
    assert_eq!(SoapVersion::V12.prefix(), "env");
    assert_eq!(SOAP_NS_ENVELOPE, "http://schemas.xmlsoap.org/soap/envelope/");
    assert_eq!(SOAP_NS_ENVELOPE_12, "http://www.w3.org/2003/05/soap-envelope");
}

#[test]
fn tag_content_is_first_of_tag_contents() {
    let s = "<t> one </t> <t>two</t><t>three";
    assert_eq!(extract_tag_contents(s, "t"), vec!["one".to_string(), "two".to_string()]);
    assert_eq!(extract_tag_content(s, "t"), Some("one".to_string()));
    assert_eq!(extract_tag_content("<u>x</u>", "t"), None);
    assert_eq!(extract_tag_contents("<u>x</u>", "t"), Vec::<String>::new());
}

#[test]
fn white_space_matches_std() {
    for u in 0u32..=0x10FFFF {
        if let Some(c) = char::from_u32(u) {
            assert_eq!(is_white_space_exec(c), c.is_whitespace(), "{u:#x}");
        }
    }
}

#[test]
fn fault_version_detection() {
    assert_eq!(detect_fault_version(&serialize_fault(SoapVersion::V12, "a", "b")), SoapVersion::V12);
    assert_eq!(detect_fault_version(&serialize_fault(SoapVersion::V11, "a", "b")), SoapVersion::V11);
    assert_eq!(detect_fault_version(""), SoapVersion::V11);
    assert_eq!(
        detect_fault_version(&build_envelope(SoapVersion::V12, "a", "<x/>")),
        SoapVersion::V12
    );
}

#[test]
fn fault_children_match_by_local_name() {
    let xml = "<soap:Fault><soap:faultcode>C</soap:faultcode><soap:faultstring>M</soap:faultstring></soap:Fault>";
    assert_eq!(parse_soap_fault(xml).unwrap(), ("C".to_string(), "M".to_string()));
    let xml = format!(
        "<env:Fault xmlns:env=\"{}\"><env:Code><env:Value>env:Sender</env:Value></env:Code><env:Reason><env:Text xml:lang=\"en\">Bad</env:Text></env:Reason></env:Fault>",
        SOAP_NS_ENVELOPE_12
    );
    assert_eq!(parse_soap_fault(&xml).unwrap(), ("env:Sender".to_string(), "Bad".to_string()));
}

#[test]
fn fault_fields_are_direct_children_only() {
    let xml = "<soap:Fault><detail><faultcode>x</faultcode></detail></soap:Fault>";
    assert_eq!(
        parse_soap_fault(xml).unwrap(),
        ("unknown".to_string(), "no details".to_string())
    );
}

#[test]
fn fault_repeated_field_is_an_error() {
    let xml = "<soap:Fault><faultcode>a</faultcode><faultcode>b</faultcode></soap:Fault>";
    assert!(parse_soap_fault(xml).is_err());
}

#[test]
fn fault_without_root_element_is_an_error() {
    assert!(parse_soap_fault("").is_err());
    assert!(parse_soap_fault("not xml at all").is_err());
    assert!(parse_soap_fault("<soap:Fault><faultcode>x</faultcode>").is_err());
}

#[test]
fn fault_text_trims_xml_white_space_only() {
    let xml = "<soap:Fault><faultstring>\n\t\u{a0}m\u{a0} \r\n</faultstring></soap:Fault>";
    assert_eq!(
        parse_soap_fault(xml).unwrap(),
        ("unknown".to_string(), "\u{a0}m\u{a0}".to_string())
    );
}

#[test]
fn fault_cdata_text_is_taken_as_it_stands() {
    let xml = "<soap:Fault><faultstring> <![CDATA[a &amp; b]]> </faultstring></soap:Fault>";
    assert_eq!(
        parse_soap_fault(xml).unwrap(),
        ("unknown".to_string(), "a &amp; b".to_string())
    );
}

#[test]
fn fault_nil_field_is_absent() {
    let xml = "<soap:Fault><faultcode xsi:nil=\"true\"/><faultstring>m</faultstring></soap:Fault>";
    assert_eq!(parse_soap_fault(xml).unwrap(), ("unknown".to_string(), "m".to_string()));
}

#[test]
fn fault_text_comments_are_dropped() {
    let xml = "<soap:Fault><faultstring>a<!-- note -->b <!-- more --></faultstring></soap:Fault>";
    assert_eq!(parse_soap_fault(xml).unwrap(), ("unknown".to_string(), "ab".to_string()));
}

#[test]
fn fault_field_with_child_element_is_an_error() {
    assert!(parse_soap_fault("<soap:Fault><faultcode>a<b/></faultcode></soap:Fault>").is_err());
    assert!(parse_soap_fault("<soap:Fault><faultstring><x>m</x></faultstring></soap:Fault>").is_err());
}
