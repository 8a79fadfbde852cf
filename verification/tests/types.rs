use xmpp_lib::Error;
use xmpp_lib::Field;
use xmpp_lib::FieldType;
use xmpp_lib::MediaElement;
use xmpp_lib::Option_;
use xmpp_lib::URI;

#[test]
fn every_type_name_is_recognized() {
    assert_eq!(FieldType::classify("boolean"), Ok(FieldType::Boolean));
    assert_eq!(FieldType::classify("fixed"), Ok(FieldType::Fixed));
    assert_eq!(FieldType::classify("hidden"), Ok(FieldType::Hidden));
    assert_eq!(FieldType::classify("jid-multi"), Ok(FieldType::JidMulti));
    assert_eq!(FieldType::classify("jid-single"), Ok(FieldType::JidSingle));
    assert_eq!(FieldType::classify("list-multi"), Ok(FieldType::ListMulti));
    assert_eq!(FieldType::classify("list-single"), Ok(FieldType::ListSingle));
    assert_eq!(FieldType::classify("text-multi"), Ok(FieldType::TextMulti));
    assert_eq!(FieldType::classify("text-private"), Ok(FieldType::TextPrivate));
    assert_eq!(FieldType::classify("text-single"), Ok(FieldType::TextSingle));
}

#[test]
fn other_names_are_refused_as_they_are() {
    for name in ["", "Boolean", "boolean ", "text", "text-singl", "text-single-", "jid_multi", "é"] {
        assert_eq!(
            FieldType::classify(name),
            Err(Error::UnrecognizedFieldType(name.to_string()))
        );
    }
}

#[test]
fn default_field_is_blank() {
    let field = Field::default();
    assert_eq!(field.var, "");
    assert_eq!(field.type_, FieldType::Fixed);
    assert!(field.label.is_none());
    assert!(!field.required);
    assert!(field.options.is_empty());
    assert!(field.values.is_empty());
    assert!(field.media.is_empty());
}

#[test]
fn parts_have_defaults() {
    let option = Option_::default();
    assert!(option.label.is_none());
    assert_eq!(option.value, "");
    let media = MediaElement::default();
    assert!(media.width.is_none());
    assert!(media.height.is_none());
    assert!(media.uris.is_empty());
    let uri = URI::default();
    assert_eq!(uri.type_, "");
    assert_eq!(uri.uri, "");
}
