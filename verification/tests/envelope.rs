//! Envelope construction and parsing.

use rsoap::envelope::{
    build_envelope, extract_body, is_soap_fault, parse_soap_fault, serialize_fault,
};
use rsoap::SoapVersion;

#[test]
fn test_extract_body_from_soap_envelope() {
    let xml = r#"<soap:Envelope xmlns:soap="http://schemas.xmlsoap.org/soap/envelope/">
       <soap:Body>
         <GetWeatherResponse>
           <temperature>72</temperature>
         </GetWeatherResponse>
       </soap:Body>
     </soap:Envelope>"#;

    let body = extract_body(xml).unwrap();
    assert!(body.contains("GetWeatherResponse"));
    assert!(body.contains("72"));
}

#[test]
fn test_parse_soap_fault() {
    let xml = r#"<soap:Fault xmlns:soap="http://schemas.xmlsoap.org/soap/envelope/">
            <faultcode>Client</faultcode>
             <faultstring>Invalid credentials</faultstring>
          </soap:Fault>"#;

    let (code, message) = parse_soap_fault(xml).unwrap();
    assert_eq!(code, "Client");
    assert_eq!(message, "Invalid credentials");
}

#[test]
fn test_serialize_fault_11() {
    let xml = serialize_fault(SoapVersion::V11, "ServerFault", "Something went wrong");
    assert!(xml.contains("<faultcode>ServerFault</faultcode>"));
    assert!(xml.contains("<faultstring>Something went wrong</faultstring>"));
    assert!(xml.contains("xmlns:soap=\"http://schemas.xmlsoap.org/soap/envelope/\""));
}

#[test]
fn test_serialize_fault_12() {
    let xml = serialize_fault(SoapVersion::V12, "soap:Sender", "Bad input");
    assert!(xml.contains("<Value>soap:Sender</Value>"));
    assert!(xml.contains("<Text xml:lang=\"en\">Bad input</Text>"));
    assert!(xml.contains("xmlns:env=\"http://www.w3.org/2003/05/soap-envelope\""));
}

#[test]
fn test_parse_soap_fault_12() {
    let xml = r#"<env:Fault xmlns:env="http://www.w3.org/2003/05/soap-envelope">
            <Code><Value>env:Sender</Value></Code>
            <Reason><Text xml:lang="en">Malformed request</Text></Reason>
        </env:Fault>"#;

    let (code, message) = parse_soap_fault(xml).unwrap();
    assert_eq!(code, "env:Sender");
    assert_eq!(message, "Malformed request");
}

#[test]
fn test_build_envelope_11() {
    let xml = build_envelope(
        SoapVersion::V11,
        "GetTemperature",
        "<req:GetTemperature><lat>40</lat></req:GetTemperature>",
    );
    assert!(xml.contains("<soap:Envelope"));
    assert!(xml.contains("<soap:Header>"));
    assert!(xml.contains("<Action"));
    assert!(xml.contains(">GetTemperature</Action>"));
    assert!(xml.contains("<soap:Body"));
    assert!(xml.contains("<req:GetTemperature>"));
}

#[test]
fn test_build_envelope_12() {
    let xml = build_envelope(
        SoapVersion::V12,
        "GetTemperature",
        "<req:GetTemperature><lat>40</lat></req:GetTemperature>",
    );
    assert!(xml.contains("<env:Envelope"));
    assert!(xml.contains("xmlns:env=\"http://www.w3.org/2003/05/soap-envelope\""));
    assert!(xml.contains("<env:Header"));
    assert!(xml.contains("<env:Body"));
    assert!(xml.contains("<req:GetTemperature>"));
    // 1.2 puts action in HTTP header, not in envelope.
    assert!(!xml.contains("<Action"));
}

#[test]
fn test_is_soap_fault_detects_both_versions() {
    assert!(is_soap_fault("<soap:Fault>code</soap:Fault>"));
    assert!(is_soap_fault("<env:Fault>code</env:Fault>"));
    assert!(is_soap_fault("<Fault xmlns=\"...\">msg</Fault>"));
    assert!(!is_soap_fault(
        "<GetTempResponse><temp>72</temp></GetTempResponse>"
    ));
}

#[test]
fn test_extract_body_fallback() {
    let xml = r#"<Envelope><Body><Resp/></Body></Envelope>"#;
    let body = extract_body(xml).unwrap();
    assert_eq!(body, "<Resp/>");
}

#[test]
fn test_soap_version_default_is_v11() {
    assert_eq!(SoapVersion::default(), SoapVersion::V11);
}
