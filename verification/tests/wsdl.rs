//! WSDL walking and code-generation planning.

use rsoap::codegen::{generated_names, plan_codegen, CodegenPlan};
use rsoap::wsdl::{
    camel_to_snake, detect_wsdl_version, extract_attribute, extract_elements,
    extract_tag_content, extract_tag_contents, parse_input_output, parse_message,
    parse_message_parts, parse_single_operation, ParsedWsdl, WsdlField,
};
use rsoap::xml::XmlElement;
use rsoap::SoapVersion;

const WSDL: &str = r#"<?xml version="1.0"?>
<wsdl:definitions name="Customer" targetNamespace="urn:customer" xmlns:wsdl="http://schemas.xmlsoap.org/wsdl/" xmlns:soap="http://schemas.xmlsoap.org/wsdl/soap/" xmlns:xs="http://www.w3.org/2001/XMLSchema" xmlns:tns="urn:customer">
  <targetNamespace>urn:customer</targetNamespace>
  <wsdl:types>
    <xs:schema targetNamespace="urn:customer">
      <xs:element name="GetCustomerRequest">
        <xs:complexType><xs:sequence>
          <xs:element name="id" type="xs:int"/>
          <xs:element name="middleName" type="xs:string" minOccurs="0"/>
          <xs:element name="deathDate" type="xs:date" nillable="true"/>
          <xs:element name="tag" type="xs:string" maxOccurs="unbounded"/>
        </xs:sequence></xs:complexType>
      </xs:element>
      <xs:element name="GetCustomerResponse">
        <xs:complexType><xs:sequence>
          <xs:element name="status" type="xs:string"/>
          <xs:element name="note" type="xs:string" minOccurs="0"/>
        </xs:sequence></xs:complexType>
      </xs:element>
      <xs:element name="Zip" type="xs:long"/>
    </xs:schema>
  </wsdl:types>
  <wsdl:message name="GetCustomerIn"><wsdl:part name="parameters" element="tns:GetCustomerRequest"/></wsdl:message>
  <wsdl:message name="GetCustomerOut"><wsdl:part name="parameters" element="tns:GetCustomerResponse"/></wsdl:message>
  <wsdl:message name="PingIn"><wsdl:part name="zipCode"/><wsdl:part element="tns:Zip"/><wsdl:part element="tns:Unknown"/></wsdl:message>
  <wsdl:portType name="CustomerPort">
    <wsdl:operation name="GetCustomer">
      <wsdl:input message="tns:GetCustomerIn" soap:action="urn:customer/GetCustomer"/>
      <wsdl:output message="tns:GetCustomerOut"/>
    </wsdl:operation>
    <wsdl:operation name="Ping">
      <wsdl:input message="tns:PingIn"/>
    </wsdl:operation>
  </wsdl:portType>
  <wsdl:service name="CustomerService"><wsdl:port name="P" binding="tns:B"><soap:address location="http://example.com/customer"/></wsdl:port></wsdl:service>
</wsdl:definitions>"#;

fn field(name: &str, rust_type: &str, xml_name: &str, optional: bool) -> WsdlField {
    WsdlField {
        name: name.to_string(),
        rust_type: rust_type.to_string(),
        xml_name: xml_name.to_string(),
        optional,
    }
}

fn customer_request() -> Vec<WsdlField> {
    vec![
        field("id", "i32", "id", false),
        field("middle_name", "Option<String>", "middleName", true),
        field("death_date", "Option<String>", "deathDate", true),
        field("tag", "Vec<String>", "tag", false),
    ]
}

fn customer_response() -> Vec<WsdlField> {
    vec![
        field("status", "String", "status", false),
        field("note", "Option<String>", "note", true),
    ]
}

fn element(attributes: &str, content: &str) -> XmlElement {
    XmlElement {
        name: "x".to_string(),
        attributes: attributes.to_string(),
        content: content.to_string(),
    }
}

#[test]
fn attribute_forms() {
    let tag = r#"a="1" b='2' c=3 d e="xyz"#;
    assert_eq!(extract_attribute(tag, "a"), Some("1".to_string()));
    assert_eq!(extract_attribute(tag, "b"), Some("2".to_string()));
    assert_eq!(extract_attribute(tag, "c"), Some("3".to_string()));
    assert_eq!(extract_attribute(tag, "d"), None);
    assert_eq!(extract_attribute(tag, "e"), Some("xyz".to_string()));
    assert_eq!(extract_attribute("x=", "x"), None);
    assert_eq!(extract_attribute("x=\"\"", "x"), Some(String::new()));
}

#[test]
fn attribute_unquoted_value_ends_at_gt() {
    assert_eq!(extract_attribute("name=foo>", "name"), Some("foo".to_string()));
    assert_eq!(extract_attribute("name=>", "name"), None);
}

#[test]
fn attribute_names_match_whole() {
    assert_eq!(
        extract_attribute(r#"typename="t" name="n""#, "name"),
        Some("n".to_string())
    );
    assert_eq!(extract_attribute(r#"soap:action="a""#, "action"), None);
    assert_eq!(extract_attribute(r#"soap:action="a""#, "soap:action"), Some("a".to_string()));
}

#[test]
fn attribute_first_occurrence_wins() {
    assert_eq!(extract_attribute("n=1 n=2", "n"), Some("1".to_string()));
}

#[test]
fn elements_with_prefixes_attributes_and_self_closing() {
    let s = r#"<a:item id="1">one</a:item><item/><item x='2'>two</item><items>no</items>"#;
    let els = extract_elements(s, "item");
    assert_eq!(els.len(), 3);
    assert_eq!(els[0].name, "a:item");
    assert_eq!(els[1].name, "item");
    assert_eq!(els[0].attributes, r#"id="1""#);
    assert_eq!(els[0].content, "one");
    assert_eq!(els[1].attributes, "");
    assert_eq!(els[1].content, "");
    assert_eq!(els[2].attributes, "x='2'");
    assert_eq!(els[2].content, "two");
    assert_eq!(
        extract_tag_contents(s, "item"),
        vec!["one".to_string(), String::new(), "two".to_string()]
    );
    assert_eq!(extract_tag_content(s, "items"), Some("no".to_string()));
}

#[test]
fn camel_to_snake_cases() {
    assert_eq!(camel_to_snake("GetWeather"), "get_weather");
    assert_eq!(camel_to_snake("zipCode"), "zip_code");
    assert_eq!(camel_to_snake("ID"), "i_d");
    assert_eq!(camel_to_snake(""), "");
    assert_eq!(camel_to_snake("already_snake"), "already_snake");
    assert_eq!(camel_to_snake("ÀB"), "à_b");
}

#[test]
fn camel_to_snake_ascii_law() {
    for s in ["GetWeather", "ID", "aB1C", "x", ""] {
        let once = camel_to_snake(s);
        assert_eq!(camel_to_snake(&once), once);
        assert!(!once.chars().any(|c| c.is_ascii_uppercase()));
        let inner = s.chars().skip(1).filter(|c| c.is_ascii_uppercase()).count();
        assert_eq!(once.len(), s.len() + inner);
    }
}

#[test]
fn message_with_element() {
    let m = parse_message(&element(r#"name="In""#, r#"<part name="zip" element="tns:Zip"/>"#)).unwrap();
    assert_eq!(m.name, "In");
    assert_eq!(m.part_name, "zip");
    assert_eq!(m.element_name, "tns:Zip");
}

#[test]
fn message_with_type_or_nothing() {
    let m = parse_message(&element(r#"name="In""#, r#"<part name="zip" type="xsd:string"/>"#)).unwrap();
    assert_eq!(m.element_name, "xsd:string");
    let m = parse_message(&element(r#"name="In""#, r#"<wsdl:part name="zip"></wsdl:part>"#)).unwrap();
    assert_eq!(m.element_name, "");
}

#[test]
fn message_without_name_or_part() {
    assert!(parse_message(&element("", r#"<part name="zip"/>"#)).is_none());
    assert!(parse_message(&element(r#"name="In""#, "")).is_none());
    assert!(parse_message(&element(r#"name="In""#, r#"<part element="x"/>"#)).is_none());
}

#[test]
fn message_parts_typed_from_schema() {
    let mut fields = vec![field("keep", "Me", "keep", false)];
    parse_message_parts(WSDL, "GetCustomerIn", true, &mut fields);
    let mut expected = vec![field("keep", "Me", "keep", false)];
    expected.extend(customer_request());
    assert_eq!(fields, expected);
}

#[test]
fn message_parts_without_schema_declaration() {
    let mut fields = Vec::new();
    parse_message_parts(WSDL, "PingIn", true, &mut fields);
    assert_eq!(
        fields,
        vec![
            field("zip_code", "String", "zipCode", false),
            field("zip", "i64", "Zip", false),
            field("unknown", "Unknown", "Unknown", false),
        ]
    );
}

#[test]
fn message_parts_fallback() {
    let mut fields = Vec::new();
    parse_message_parts(WSDL, "Missing", true, &mut fields);
    assert_eq!(fields, vec![field("data", "String", "data", false)]);
}

#[test]
fn input_output_fields() {
    let inputs = vec![
        element(r#"message="tns:GetCustomerIn""#, ""),
        element("", "no message here"),
    ];
    let (req, resp) = parse_input_output(WSDL, &inputs);
    assert_eq!(req, customer_request());
    assert_eq!(resp, customer_response());
}

#[test]
fn single_operation_full() {
    let ops = extract_elements(WSDL, "operation");
    let op = parse_single_operation(WSDL, &ops[0], "urn:customer").unwrap();
    assert_eq!(op.name, "GetCustomer");
    assert_eq!(op.action, "urn:customer/GetCustomer");
    assert_eq!(op.endpoint, "http://example.com/customer");
    assert_eq!(op.namespace, "urn:customer");
    assert_eq!(op.body_element, "GetCustomerRequest");
    assert_eq!(op.version, SoapVersion::V11);
    assert_eq!(op.request_fields, customer_request());
    assert_eq!(op.response_fields, customer_response());
}

#[test]
fn single_operation_default_action_and_address() {
    let wsdl = r#"<address location=http://plain/x/>"#;
    let op = parse_single_operation(wsdl, &element(r#"name="Ping""#, ""), "urn:n").unwrap();
    assert_eq!(op.action, "urn:n#Ping");
    // The `/` before `>` closes the element; it is not part of the value.
    assert_eq!(op.endpoint, "http://plain/x");
    assert!(op.request_fields.is_empty());
    assert!(op.response_fields.is_empty());
    let op = parse_single_operation("", &element("name=Ping", r#"<input message="m"/>"#), "").unwrap();
    assert_eq!(op.action, "#Ping");
    assert_eq!(op.endpoint, "");
    assert_eq!(op.request_fields, vec![field("data", "String", "data", false)]);
}

#[test]
fn single_operation_without_name() {
    let err = parse_single_operation(WSDL, &element("", "<input/>"), "urn:customer").unwrap_err();
    assert_eq!(err, "Could not find operation name");
}

#[test]
fn parse_whole_document() {
    let parsed = ParsedWsdl::parse(WSDL);
    assert_eq!(parsed.target_namespace, "urn:customer");
    assert_eq!(parsed.operations.len(), 2);
    assert_eq!(parsed.operations[0].name, "GetCustomer");
    assert_eq!(parsed.operations[1].name, "Ping");
    assert_eq!(parsed.operations[1].action, "urn:customer#Ping");
    assert_eq!(parsed.messages.len(), 3);
    assert_eq!(parsed.messages[0].name, "GetCustomerIn");
    assert_eq!(parsed.messages[0].part_name, "parameters");
    assert_eq!(parsed.messages[0].element_name, "tns:GetCustomerRequest");
}

#[test]
fn parse_skips_unnamed_operations() {
    let parsed = ParsedWsdl::parse("<operation>nameless</operation><operation name=A/>");
    assert_eq!(parsed.target_namespace, "");
    assert_eq!(parsed.operations.len(), 1);
    assert_eq!(parsed.operations[0].name, "A");
    assert_eq!(parsed.operations[0].action, "#A");
}

#[test]
fn parse_finds_operation_tags_with_attributes() {
    let parsed = ParsedWsdl::parse(r#"<operation name="A"></operation>"#);
    assert_eq!(parsed.operations.len(), 1);
    assert_eq!(parsed.operations[0].name, "A");
}

#[test]
fn soap12_binding_is_detected() {
    let wsdl = r#"<definitions xmlns:soap12="http://schemas.xmlsoap.org/wsdl/soap12/"><operation name="A"/></definitions>"#;
    assert_eq!(detect_wsdl_version(wsdl), SoapVersion::V12);
    assert_eq!(ParsedWsdl::parse(wsdl).operations[0].version, SoapVersion::V12);
    assert_eq!(detect_wsdl_version(WSDL), SoapVersion::V11);
}

#[test]
fn names_for_generated_items() {
    let n = generated_names("GetWeather");
    assert_eq!(n.module, "getweather");
    assert_eq!(n.request, "GetWeatherRequest");
    assert_eq!(n.response, "GetWeatherResponse");
}

#[test]
fn plan_placeholder_without_wsdl() {
    assert!(matches!(plan_codegen("", "GetWeather"), CodegenPlan::Placeholder));
}

#[test]
fn plan_generates_found_operation() {
    match plan_codegen(WSDL, "GetCustomer") {
        CodegenPlan::Generate(op) => {
            assert_eq!(op.name, "GetCustomer");
            assert_eq!(op.body_element, "GetCustomerRequest");
            assert_eq!(op.request_fields, customer_request());
        }
        other => panic!("unexpected plan: {other:?}"),
    }
}

#[test]
fn plan_lists_available_operations() {
    match plan_codegen(WSDL, "Nope") {
        CodegenPlan::Unknown { available } => assert_eq!(available, "GetCustomer, Ping"),
        other => panic!("unexpected plan: {other:?}"),
    }
    match plan_codegen("<x/>", "Nope") {
        CodegenPlan::Unknown { available } => assert_eq!(available, ""),
        other => panic!("unexpected plan: {other:?}"),
    }
}

#[test]
fn endpoint_prefers_soap_address() {
    let wsdl = r#"<port><soap12:address location="http://v12"/></port><port><soap:address location="http://v11"/></port>"#;
    let op = parse_single_operation(wsdl, &element("name=A", ""), "").unwrap();
    assert_eq!(op.endpoint, "http://v11");
    let wsdl = r#"<port><soap12:address location="http://v12"/></port><port><http:address location="http://h"/></port>"#;
    let op = parse_single_operation(wsdl, &element("name=A", ""), "").unwrap();
    assert_eq!(op.endpoint, "http://v12");
    let wsdl = r#"<soap:address/><address location="http://later"/>"#;
    let op = parse_single_operation(wsdl, &element("name=A", ""), "").unwrap();
    assert_eq!(op.endpoint, "");
}
