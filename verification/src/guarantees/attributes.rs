//! The names that are looked for, and the attributes that a field cannot
//! have.

use crate::bytes::bytes_of;
use crate::bytes::lemma_ascii_has_no_prefix;
use crate::bytes::lemma_encoding_tells_apart;
use crate::bytes::lemma_prefix_is_dropped;
use crate::elements::field::FieldModel;
use crate::elements::field::FieldType;
use crate::errors::ErrorModel;
use crate::grammar::blank;
use crate::grammar::classified;
use crate::grammar::extracted;
use crate::grammar::is_field;
use crate::grammar::is_value;
use crate::grammar::Role;
use crate::grammar::role_of;
use crate::grammar::with_attribute;
use crate::grammar::with_attributes;
use crate::guarantees::documents::failure_leaves_no_fields;
use crate::guarantees::documents::interleaved;
use crate::guarantees::documents::is_layout;
use crate::lexer::AttributeModel;
use crate::lexer::Item;
use crate::lexer::shown;
use crate::lexer::TokenModel;
use crate::lexer::value_of;
use vstd::prelude::*;

verus! {

/// Whether `raw` is one of the ten names of field types.
pub open spec fn is_type_name(raw: Seq<char>) -> bool {
    ||| raw == "boolean"@
    ||| raw == "fixed"@
    ||| raw == "hidden"@
    ||| raw == "jid-multi"@
    ||| raw == "jid-single"@
    ||| raw == "list-multi"@
    ||| raw == "list-single"@
    ||| raw == "text-multi"@
    ||| raw == "text-private"@
    ||| raw == "text-single"@
}

/// Whether `key` is one of the six keys that an attribute of a field can
/// have.
pub open spec fn is_field_attribute(key: Seq<u8>) -> bool {
    ||| key == bytes_of("var")
    ||| key == bytes_of("type")
    ||| key == bytes_of("label")
    ||| key == bytes_of("required")
    ||| key == bytes_of("options")
    ||| key == bytes_of("media")
}

/// A type is found for the ten type names and for nothing else.
pub proof fn only_type_names_are_classified(raw: Seq<char>)
    ensures
        classified(raw) is Some <==> is_type_name(raw),
{
}

/// Each of the ten type names stands for its own type.
pub proof fn each_type_name_has_its_type()
    ensures
        classified("boolean"@) == Some(FieldType::Boolean),
        classified("fixed"@) == Some(FieldType::Fixed),
        classified("hidden"@) == Some(FieldType::Hidden),
        classified("jid-multi"@) == Some(FieldType::JidMulti),
        classified("jid-single"@) == Some(FieldType::JidSingle),
        classified("list-multi"@) == Some(FieldType::ListMulti),
        classified("list-single"@) == Some(FieldType::ListSingle),
        classified("text-multi"@) == Some(FieldType::TextMulti),
        classified("text-private"@) == Some(FieldType::TextPrivate),
        classified("text-single"@) == Some(FieldType::TextSingle),
{
    reveal_strlit("boolean");
    reveal_strlit("fixed");
    reveal_strlit("hidden");
    reveal_strlit("jid-multi");
    reveal_strlit("jid-single");
    reveal_strlit("list-multi");
    reveal_strlit("list-single");
    reveal_strlit("text-multi");
    reveal_strlit("text-private");
    reveal_strlit("text-single");
    assert("boolean"@.len() == 7 && "fixed"@.len() == 5 && "hidden"@.len() == 6);
    assert("jid-multi"@.len() == 9 && "jid-single"@.len() == 10 && "jid-single"@[0] == 'j');
    assert("list-multi"@.len() == 10 && "list-multi"@[0] == 'l');
    assert("list-single"@.len() == 11 && "list-single"@[0] == 'l');
    assert("text-multi"@.len() == 10 && "text-multi"@[0] == 't');
    assert("text-single"@.len() == 11 && "text-single"@[0] == 't');
    assert("text-private"@.len() == 12);
}

/// Each of the six keys that an attribute of a field can have has its role.
pub proof fn each_key_has_its_role()
    ensures
        role_of(bytes_of("var")) == Role::Var,
        role_of(bytes_of("type")) == Role::Type,
        role_of(bytes_of("label")) == Role::Reserved,
        role_of(bytes_of("required")) == Role::Reserved,
        role_of(bytes_of("options")) == Role::Reserved,
        role_of(bytes_of("media")) == Role::Reserved,
{
    reveal_strlit("var");
    reveal_strlit("type");
    reveal_strlit("label");
    reveal_strlit("required");
    reveal_strlit("options");
    reveal_strlit("media");
    assert("var"@.len() == 3 && "type"@.len() == 4 && "label"@.len() == 5);
    assert("required"@.len() == 8 && "options"@.len() == 7 && "media"@.len() == 5);
    lemma_encoding_tells_apart("type"@, "var"@);
    lemma_encoding_tells_apart("label"@, "var"@);
    lemma_encoding_tells_apart("label"@, "type"@);
    lemma_encoding_tells_apart("required"@, "var"@);
    lemma_encoding_tells_apart("required"@, "type"@);
    lemma_encoding_tells_apart("options"@, "var"@);
    lemma_encoding_tells_apart("options"@, "type"@);
    lemma_encoding_tells_apart("media"@, "var"@);
    lemma_encoding_tells_apart("media"@, "type"@);
}

/// Elements called `field` and `value` are what their names say, with or
/// without a prefix, and neither is the other.
pub proof fn fields_and_values_are_told_apart(prefix: Seq<u8>)
    requires
        !prefix.contains(0x3a),
    ensures
        is_field(bytes_of("field")),
        is_value(bytes_of("value")),
        !is_value(bytes_of("field")),
        !is_field(bytes_of("value")),
        is_field(prefix + seq![0x3au8] + bytes_of("field")),
        is_value(prefix + seq![0x3au8] + bytes_of("value")),
{
    reveal_strlit("field");
    reveal_strlit("value");
    assert("field"@.len() == 5 && "field"@[0] == 'f');
    assert("value"@.len() == 5 && "value"@[0] == 'v');
    lemma_encoding_tells_apart("field"@, "value"@);
    lemma_ascii_has_no_prefix("field"@);
    lemma_ascii_has_no_prefix("value"@);
    lemma_prefix_is_dropped(prefix, bytes_of("field"));
    lemma_prefix_is_dropped(prefix, bytes_of("value"));
}

/// Going through attributes one run after another is going through all of
/// them.
pub proof fn lemma_attributes_in_turn(
    field: FieldModel,
    before: Seq<Option<AttributeModel>>,
    after: Seq<Option<AttributeModel>>,
)
    ensures
        with_attributes(field, before + after) == match with_attributes(field, before) {
            Ok(found) => with_attributes(found, after),
            Err(error) => Err(error),
        },
    decreases before.len(),
{
    let whole = before + after;
    if before.len() == 0 {
        assert(whole == after);
    } else {
        assert(whole[0] == before[0]);
        assert(whole.skip(1) == before.skip(1) + after);
        if let Some(attribute) = before[0] {
            if let Ok(found) = with_attribute(field, attribute) {
                lemma_attributes_in_turn(found, before.skip(1), after);
            }
        }
    }
}

/// Going through attributes starts with the first of them.
pub proof fn lemma_first_attribute(
    field: FieldModel,
    attribute: AttributeModel,
    after: Seq<Option<AttributeModel>>,
)
    ensures
        with_attributes(field, seq![Some(attribute)] + after) == match with_attribute(
            field,
            attribute,
        ) {
            Ok(found) => with_attributes(found, after),
            Err(error) => Err(error),
        },
{
    let slots = seq![Some(attribute)] + after;
    assert(slots[0] == Some(attribute));
    assert(slots.skip(1) == after);
}

/// The attributes of a field may come in any order: two attributes of
/// different keys that stand side by side may change places, and the field
/// stays the same.
pub proof fn attributes_may_change_places(
    field: FieldModel,
    before: Seq<Option<AttributeModel>>,
    one: AttributeModel,
    other: AttributeModel,
    after: Seq<Option<AttributeModel>>,
)
    requires
        one.key != other.key,
        with_attributes(field, before + seq![Some(one), Some(other)] + after) is Ok,
    ensures
        with_attributes(field, before + seq![Some(other), Some(one)] + after) == with_attributes(
            field,
            before + seq![Some(one), Some(other)] + after,
        ),
{
    let first = seq![Some(one)] + (seq![Some(other)] + after);
    let second = seq![Some(other)] + (seq![Some(one)] + after);
    assert(before + seq![Some(one), Some(other)] + after == before + first);
    assert(before + seq![Some(other), Some(one)] + after == before + second);
    lemma_attributes_in_turn(field, before, first);
    lemma_attributes_in_turn(field, before, second);
    let start = with_attributes(field, before)->Ok_0;
    lemma_first_attribute(start, one, seq![Some(other)] + after);
    let after_one = with_attribute(start, one)->Ok_0;
    lemma_first_attribute(after_one, other, after);
    let after_both = with_attribute(after_one, other)->Ok_0;
    lemma_first_attribute(start, other, seq![Some(one)] + after);
    let after_other = with_attribute(start, other)->Ok_0;
    lemma_first_attribute(after_other, one, after);
    assert(with_attribute(after_other, one) == Ok::<FieldModel, ErrorModel>(after_both));
}

/// Whether the field element that starts with `start` has the attributes
/// `before`, then `attribute`, then `behind`, of which those in `before` are
/// in order.
pub open spec fn meets_attribute(
    start: Item,
    before: Seq<Option<AttributeModel>>,
    attribute: AttributeModel,
    behind: Seq<Option<AttributeModel>>,
) -> bool {
    &&& start.token matches (TokenModel::Open(element) | TokenModel::Empty(element))
    &&& is_field(element.name)
    &&& element.attributes == before + seq![Some(attribute)] + behind
    &&& with_attributes(blank(), before) is Ok
}

/// A field whose `type` attribute holds anything but one of the ten type
/// names fails the extraction with `UnrecognizedFieldType`, which carries
/// the value found, unescaped.
pub proof fn unknown_type_fails_the_extraction(
    wrapping: Seq<Seq<Item>>,
    spans: Seq<Seq<Item>>,
    fields: Seq<FieldModel>,
    start: Item,
    before: Seq<Option<AttributeModel>>,
    attribute: AttributeModel,
    behind: Seq<Option<AttributeModel>>,
    after: Seq<Item>,
    raw: Seq<char>,
)
    requires
        is_layout(wrapping, spans, fields),
        meets_attribute(start, before, attribute, behind),
        attribute.key == bytes_of("type"),
        value_of(attribute.value) == Some(raw),
        !is_type_name(raw),
    ensures
        extracted(interleaved(wrapping, spans) + (seq![start] + after)) == Err::<
            Seq<FieldModel>,
            ErrorModel,
        >(ErrorModel::UnrecognizedFieldType(raw)),
{
    let error = ErrorModel::UnrecognizedFieldType(raw);
    let rest = seq![Some(attribute)] + behind;
    assert(before + seq![Some(attribute)] + behind == before + rest);
    lemma_attributes_in_turn(blank(), before, rest);
    assert(rest[0] == Some(attribute));
    assert(role_of(attribute.key) == Role::Type) by {
        each_key_has_its_role();
    }
    failure_leaves_no_fields(wrapping, spans, fields, start, after, error);
}

/// A field with an attribute whose key is none of `var`, `type`, `label`,
/// `required`, `options` and `media` fails the extraction with
/// `UnknownFieldAttribute`, which carries the key.
pub proof fn unknown_attribute_fails_the_extraction(
    wrapping: Seq<Seq<Item>>,
    spans: Seq<Seq<Item>>,
    fields: Seq<FieldModel>,
    start: Item,
    before: Seq<Option<AttributeModel>>,
    attribute: AttributeModel,
    behind: Seq<Option<AttributeModel>>,
    after: Seq<Item>,
)
    requires
        is_layout(wrapping, spans, fields),
        meets_attribute(start, before, attribute, behind),
        !is_field_attribute(attribute.key),
    ensures
        extracted(interleaved(wrapping, spans) + (seq![start] + after)) == Err::<
            Seq<FieldModel>,
            ErrorModel,
        >(ErrorModel::UnknownFieldAttribute(shown(attribute.key))),
{
    let error = ErrorModel::UnknownFieldAttribute(shown(attribute.key));
    let rest = seq![Some(attribute)] + behind;
    assert(before + seq![Some(attribute)] + behind == before + rest);
    lemma_attributes_in_turn(blank(), before, rest);
    assert(rest[0] == Some(attribute));
    failure_leaves_no_fields(wrapping, spans, fields, start, after, error);
}

} // verus!
