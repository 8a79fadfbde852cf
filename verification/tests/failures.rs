use xmpp_lib::Error;
use xmpp_lib::Field;
use xmpp_lib::XmppPubSubParser;

fn extract(document: &str) -> Result<Vec<Field>, Error> {
    XmppPubSubParser::from_str(document).parse_fields()
}

fn failure(document: &str) -> Error {
    extract(document).unwrap_err()
}

#[test]
fn unknown_type_is_refused_with_its_value() {
    assert_eq!(
        failure("<field var='a' type='text-triple'/>"),
        Error::UnrecognizedFieldType("text-triple".to_string())
    );
}

#[test]
fn type_names_are_matched_exactly() {
    assert_eq!(
        failure("<field var='a' type='Hidden'/>"),
        Error::UnrecognizedFieldType("Hidden".to_string())
    );
    assert_eq!(
        failure("<field var='a' type=' hidden'/>"),
        Error::UnrecognizedFieldType(" hidden".to_string())
    );
    assert_eq!(
        failure("<field var='a' type='hidde'/>"),
        Error::UnrecognizedFieldType("hidde".to_string())
    );
    assert_eq!(failure("<field var='a' type=''/>"), Error::UnrecognizedFieldType(String::new()));
    assert_eq!(
        failure("<field var='a' type='text_single'><value>1</value></field>"),
        Error::UnrecognizedFieldType("text_single".to_string())
    );
}

#[test]
fn unknown_type_is_reported_unescaped() {
    assert_eq!(
        failure("<field var='a' type='a&lt;b'/>"),
        Error::UnrecognizedFieldType("a<b".to_string())
    );
}

#[test]
fn unknown_attribute_is_refused_with_its_key() {
    assert_eq!(
        failure("<field var='a' type='hidden' colour='red'><value>1</value></field>"),
        Error::UnknownFieldAttribute("colour".to_string())
    );
    assert_eq!(
        failure("<field values='x' var='a' type='hidden'/>"),
        Error::UnknownFieldAttribute("values".to_string())
    );
    assert_eq!(
        failure("<field xml:lang='en' var='a' type='hidden'/>"),
        Error::UnknownFieldAttribute("xml:lang".to_string())
    );
    assert_eq!(
        failure("<field Var='a' type='hidden'/>"),
        Error::UnknownFieldAttribute("Var".to_string())
    );
}

#[test]
fn first_failing_attribute_decides() {
    assert_eq!(
        failure("<field colour='red' type='nothing'/>"),
        Error::UnknownFieldAttribute("colour".to_string())
    );
    assert_eq!(
        failure("<field type='nothing' colour='red'/>"),
        Error::UnrecognizedFieldType("nothing".to_string())
    );
}

#[test]
fn unexpected_child_is_refused_with_its_name() {
    assert_eq!(
        failure("<field var='a' type='hidden'><value>1</value><desc>d</desc></field>"),
        Error::UnexpectedChildElement("desc".to_string())
    );
    assert_eq!(
        failure("<field var='a' type='hidden'><required/></field>"),
        Error::UnexpectedChildElement("required".to_string())
    );
    assert_eq!(
        failure("<field var='a' type='hidden'><field var='b' type='hidden'/></field>"),
        Error::UnexpectedChildElement("field".to_string())
    );
    assert_eq!(
        failure("<field var='a' type='hidden'><x:option/></field>"),
        Error::UnexpectedChildElement("x:option".to_string())
    );
}

#[test]
fn truncated_field_is_an_unexpected_end() {
    assert_eq!(failure("<field var='a' type='hidden'>"), Error::UnexpectedEndOfDocument);
    assert_eq!(
        failure("<x><field var='a' type='hidden'><value>1</value>"),
        Error::UnexpectedEndOfDocument
    );
    assert_eq!(
        failure("<x><field var='a' type='hidden'><value>1</value>  "),
        Error::UnexpectedEndOfDocument
    );
}

#[test]
fn truncated_value_is_an_unexpected_end() {
    assert_eq!(failure("<field var='a' type='hidden'><value>1"), Error::UnexpectedEndOfDocument);
    assert_eq!(failure("<field var='a' type='hidden'><value>"), Error::UnexpectedEndOfDocument);
    assert_eq!(
        failure("<field var='a' type='hidden'><value>1<b>2</b>"),
        Error::UnexpectedEndOfDocument
    );
}

#[test]
fn input_that_stops_inside_a_tag_of_a_field_is_an_unexpected_end() {
    assert_eq!(failure("<field var='a' type='hidden'><value"), Error::UnexpectedEndOfDocument);
    assert_eq!(failure("<field var='a' type='hidden'><!-- note"), Error::UnexpectedEndOfDocument);
    assert_eq!(
        failure("<field var='a' type='hidden'><value>1<b x='"),
        Error::UnexpectedEndOfDocument
    );
}

#[test]
fn truncation_discards_the_fields_before_it() {
    let whole = "<x><field var='a' type='hidden'><value>1</value></field>\
                 <field var='b' type='hidden'><value>2</value></field></x>";
    assert_eq!(extract(whole).unwrap().len(), 2);
    let cut = &whole[..whole.len() - "</field></x>".len()];
    assert!(cut.ends_with("</value>"));
    assert_eq!(failure(cut), Error::UnexpectedEndOfDocument);
}

#[test]
fn mismatched_end_tag_is_malformed() {
    assert_eq!(failure("<a><field var='a' type='hidden'/></b>"), Error::MalformedDocument);
    assert_eq!(failure("<field var='a' type='hidden'></x>"), Error::MalformedDocument);
    assert_eq!(
        failure("<field var='a' type='hidden'><value>1</valu"),
        Error::MalformedDocument
    );
}

#[test]
fn malformed_value_content_is_malformed() {
    assert_eq!(
        failure("<field var='a' type='hidden'><value><b></c></value></field>"),
        Error::MalformedDocument
    );
}

#[test]
fn input_that_stops_inside_a_tag_outside_fields_is_malformed() {
    assert_eq!(failure("<x><field var='a' type='hidden'/><y "), Error::MalformedDocument);
    assert_eq!(failure("<field var='a' type='hid"), Error::MalformedDocument);
}

#[test]
fn malformed_attribute_is_malformed() {
    assert_eq!(failure("<field var=a type='hidden'/>"), Error::MalformedDocument);
    assert_eq!(failure("<field var='a' var='b'/>"), Error::MalformedDocument);
    assert_eq!(failure("<field var='a' type/>"), Error::MalformedDocument);
}

#[test]
fn escape_that_cannot_be_resolved_is_malformed() {
    assert_eq!(failure("<field var='&nothing;' type='hidden'/>"), Error::MalformedDocument);
    assert_eq!(failure("<field var='a' type='&nothing;'/>"), Error::MalformedDocument);
}

#[test]
fn escape_in_a_value_that_cannot_be_resolved_is_malformed() {
    assert_eq!(
        failure("<field var='a' type='hidden'><value>&nothing;</value></field>"),
        Error::MalformedDocument
    );
    assert_eq!(
        failure("<field var='a' type='hidden'><value>a & b</value></field>"),
        Error::MalformedDocument
    );
    assert_eq!(
        failure("<field var='a' type='hidden'><value><![CDATA[a & b]]></value></field>"),
        Error::MalformedDocument
    );
}

#[test]
fn malformed_attributes_of_other_elements_do_not_matter() {
    let fields = extract("<x a=b><field var='a' type='hidden'/></x>").unwrap();
    assert_eq!(fields.len(), 1);
}

#[test]
fn failure_leaves_no_fields() {
    let document = "<x><field var='a' type='hidden'/><field var='b' type='nothing'/></x>";
    assert_eq!(
        extract(document).unwrap_err(),
        Error::UnrecognizedFieldType("nothing".to_string())
    );
}
