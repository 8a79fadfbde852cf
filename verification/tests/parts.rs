use quick_xml::events::Event;
use quick_xml::reader::Reader;
use xmpp_lib::bytes::local_name;
use xmpp_lib::bytes::same_bytes;
use xmpp_lib::bytes::spells;
use xmpp_lib::elements::field::names_field;
use xmpp_lib::elements::field::names_value;
use xmpp_lib::elements::field::role;
use xmpp_lib::bytes::same_text;
use xmpp_lib::grammar::Role;
use xmpp_lib::lexer::Element;
use xmpp_lib::lexer::RawAttribute;
use xmpp_lib::selection::among;
use xmpp_lib::selection::requested;
use xmpp_lib::Error;
use xmpp_lib::Field;
use xmpp_lib::FieldType;
use xmpp_lib::XmppPubSubParser;

fn attribute(key: &str, value: &str) -> Option<RawAttribute> {
    Some(RawAttribute::new(key.as_bytes().to_vec(), value.as_bytes().to_vec()))
}

fn element(attributes: Vec<Option<RawAttribute>>) -> Element {
    Element::new(b"field".to_vec(), attributes)
}

/// A reader over `document` that has read the first start tag, and the element of that tag.
fn behind_first_start(document: &str) -> (Element, Reader<&[u8]>) {
    let mut reader = Reader::from_str(document);
    loop {
        match reader.read_event().unwrap() {
            Event::Start(start) => {
                let attributes = start
                    .attributes()
                    .map(|a| a.ok().map(|a| RawAttribute::new(a.key.0.to_vec(), a.value.into_owned())))
                    .collect();
                return (Element::new(start.name().0.to_vec(), attributes), reader);
            }
            Event::Eof => panic!("no start tag"),
            _ => (),
        }
    }
}

#[test]
fn same_bytes_compares_contents() {
    assert!(same_bytes(b"", b""));
    assert!(same_bytes(b"abc", b"abc"));
    assert!(!same_bytes(b"abc", b"abd"));
    assert!(!same_bytes(b"abc", b"ab"));
    assert!(!same_bytes(b"ab", b"abc"));
}

#[test]
fn spells_compares_bytes_with_text() {
    assert!(spells(b"field", "field"));
    assert!(spells("é".as_bytes(), "é"));
    assert!(!spells(b"Field", "field"));
    assert!(!spells(b"fiel", "field"));
}

#[test]
fn same_text_compares_strings() {
    assert!(same_text("jid-multi", "jid-multi"));
    assert!(!same_text("jid-multi", "jid-single"));
    assert!(!same_text("", "x"));
}

#[test]
fn local_name_drops_the_prefix() {
    assert_eq!(local_name(b"field"), b"field");
    assert_eq!(local_name(b"x:field"), b"field");
    assert_eq!(local_name(b"a:b:c"), b"b:c");
    assert_eq!(local_name(b":field"), b"field");
    assert_eq!(local_name(b"field:"), b"");
    assert_eq!(local_name(b""), b"");
}

#[test]
fn local_name_agrees_with_the_reader() {
    for name in ["field", "x:field", "a:b:c", ":x", "x:", ""] {
        let expected = quick_xml::name::QName(name.as_bytes()).local_name();
        assert_eq!(local_name(name.as_bytes()), expected.as_ref());
    }
}

#[test]
fn field_and_value_names_are_recognized() {
    assert!(names_field(b"field"));
    assert!(names_field(b"data:field"));
    assert!(!names_field(b"fields"));
    assert!(!names_field(b"Field"));
    assert!(!names_field(b"value"));
    assert!(!names_field(b"field:x"));
    assert!(names_value(b"value"));
    assert!(names_value(b"data:value"));
    assert!(!names_value(b"field"));
    assert!(!names_value(b"values"));
}

#[test]
fn keys_have_their_roles() {
    assert_eq!(role(b"var"), Role::Var);
    assert_eq!(role(b"type"), Role::Type);
    assert_eq!(role(b"label"), Role::Reserved);
    assert_eq!(role(b"required"), Role::Reserved);
    assert_eq!(role(b"options"), Role::Reserved);
    assert_eq!(role(b"media"), Role::Reserved);
    assert_eq!(role(b"values"), Role::Unknown);
    assert_eq!(role(b"x:var"), Role::Unknown);
    assert_eq!(role(b"VAR"), Role::Unknown);
    assert_eq!(role(b""), Role::Unknown);
}

#[test]
fn attributes_give_key_and_type() {
    let reader = Reader::from_str("");
    let start = element(vec![
        attribute("label", "L"),
        attribute("type", "text-private"),
        attribute("var", "secret &amp; more"),
    ]);
    let field = Field::from_attributes(&start, &reader).unwrap();
    assert_eq!(field.var, "secret & more");
    assert_eq!(field.type_, FieldType::TextPrivate);
    assert!(field.label.is_none());
    assert!(field.values.is_empty());
}

#[test]
fn no_attributes_give_the_blank_field() {
    let reader = Reader::from_str("");
    let field = Field::from_attributes(&element(vec![]), &reader).unwrap();
    assert_eq!(field.var, "");
    assert_eq!(field.type_, FieldType::Fixed);
}

#[test]
fn later_attribute_of_the_same_key_wins() {
    let reader = Reader::from_str("");
    let start = element(vec![attribute("var", "one"), attribute("var", "two")]);
    assert_eq!(Field::from_attributes(&start, &reader).unwrap().var, "two");
}

#[test]
fn attributes_fail_at_the_first_that_is_wrong() {
    let reader = Reader::from_str("");
    let start = element(vec![attribute("var", "v"), None, attribute("colour", "red")]);
    assert_eq!(Field::from_attributes(&start, &reader).unwrap_err(), Error::MalformedDocument);
    let start = element(vec![attribute("colour", "red"), None]);
    assert_eq!(
        Field::from_attributes(&start, &reader).unwrap_err(),
        Error::UnknownFieldAttribute("colour".to_string())
    );
    let start = element(vec![attribute("type", "none"), attribute("colour", "red")]);
    assert_eq!(
        Field::from_attributes(&start, &reader).unwrap_err(),
        Error::UnrecognizedFieldType("none".to_string())
    );
    let start = element(vec![attribute("var", "&#xZZ;")]);
    assert_eq!(Field::from_attributes(&start, &reader).unwrap_err(), Error::MalformedDocument);
}

#[test]
fn attribute_value_that_is_not_utf8_is_malformed() {
    let reader = Reader::from_str("");
    let start = element(vec![Some(RawAttribute::new(b"var".to_vec(), vec![0xff, 0xfe]))]);
    assert_eq!(Field::from_attributes(&start, &reader).unwrap_err(), Error::MalformedDocument);
}

#[test]
fn unknown_key_that_is_not_utf8_is_shown_with_replacements() {
    let reader = Reader::from_str("");
    let start = element(vec![Some(RawAttribute::new(vec![b'a', 0xff], b"v".to_vec()))]);
    assert_eq!(
        Field::from_attributes(&start, &reader).unwrap_err(),
        Error::UnknownFieldAttribute("a\u{fffd}".to_string())
    );
}

#[test]
fn element_is_read_up_to_its_end_tag() {
    let (start, mut reader) = behind_first_start(
        "<field var='a' type='hidden'> <value>1</value> <value>2</value> </field><next/>",
    );
    let field = Field::from_element(&start, &mut reader).unwrap();
    assert_eq!(field.var, "a");
    assert_eq!(field.type_, FieldType::Hidden);
    assert_eq!(field.values, vec!["1", "2"]);
    match reader.read_event().unwrap() {
        Event::Empty(next) => assert_eq!(next.name().0, b"next"),
        other => panic!("unexpected {:?}", other),
    }
}

#[test]
fn element_with_wrong_attributes_reads_nothing() {
    let (start, mut reader) = behind_first_start("<field colour='red'><value>1</value></field>");
    assert_eq!(
        Field::from_element(&start, &mut reader).unwrap_err(),
        Error::UnknownFieldAttribute("colour".to_string())
    );
    match reader.read_event().unwrap() {
        Event::Start(next) => assert_eq!(next.name().0, b"value"),
        other => panic!("unexpected {:?}", other),
    }
}

#[test]
fn element_fails_on_another_child() {
    let (start, mut reader) = behind_first_start("<field var='a'><value>1</value><option/></field>");
    assert_eq!(
        Field::from_element(&start, &mut reader).unwrap_err(),
        Error::UnexpectedChildElement("option".to_string())
    );
}

#[test]
fn element_fails_where_the_input_ends() {
    let (start, mut reader) = behind_first_start("<field var='a'><value>1</value>");
    assert_eq!(
        Field::from_element(&start, &mut reader).unwrap_err(),
        Error::UnexpectedEndOfDocument
    );
}

#[test]
fn value_text_that_is_not_utf8_is_malformed() {
    let bytes: &[u8] = b"<field var='a'><value>\xff</value></field>";
    let mut parser = XmppPubSubParser::from_reader(Reader::from_reader(bytes));
    assert_eq!(parser.parse_fields().unwrap_err(), Error::MalformedDocument);
}

#[test]
fn expanded_empty_elements_are_read_alike() {
    let mut reader = Reader::from_str("<x><field var='a' type='fixed'/><field var='b'><value/></field></x>");
    reader.expand_empty_elements(true);
    let fields = XmppPubSubParser::from_reader(reader).parse_fields().unwrap();
    assert_eq!(fields.len(), 2);
    assert_eq!(fields[0].var, "a");
    assert!(fields[0].values.is_empty());
    assert_eq!(fields[1].values, vec![""]);
}

#[test]
fn among_looks_a_name_up() {
    assert!(among("b", &["a", "b"]));
    assert!(!among("c", &["a", "b"]));
    assert!(!among("a", &[]));
    assert!(!among("A", &["a"]));
}

#[test]
fn requested_keeps_the_named_fields_in_order() {
    let fields = XmppPubSubParser::from_str(
        "<x><field var='a'><value>1</value></field><field var='b'/><field var='c'/>\
         <field var='a'><value>2</value></field></x>",
    )
    .parse_fields()
    .unwrap();
    let found = requested(&fields, &["c", "a"]);
    let vars: Vec<&str> = found.iter().map(|field| field.var.as_str()).collect();
    assert_eq!(vars, vec!["a", "c", "a"]);
    assert_eq!(found[0].values, vec!["1"]);
    assert_eq!(found[2].values, vec!["2"]);
    assert!(requested(&fields, &[]).is_empty());
    assert!(requested(&fields, &["d"]).is_empty());
}
