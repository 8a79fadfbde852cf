//! The field of a data form, and the parts it is made of.

use crate::bytes::local_name;
use crate::bytes::same_text;
use crate::bytes::spells;
use crate::bytes::text_of;
use crate::errors::Error;
use crate::errors::ErrorModel;
use crate::grammar::blank;
use crate::grammar::built;
use crate::grammar::classified;
use crate::grammar::is_field;
use crate::grammar::is_value;
use crate::grammar::later;
use crate::grammar::lemma_closing_in_range;
use crate::grammar::Role;
use crate::grammar::role_of;
use crate::grammar::with_attributes;
use crate::grammar::with_children;
use crate::lexer::ahead;
use crate::lexer::attribute_value;
use crate::lexer::Element;
use crate::lexer::enclosed_text;
use crate::lexer::next_token;
use crate::lexer::Shortfall;
use crate::lexer::show;
use crate::lexer::text_read;
use crate::lexer::Token;
use crate::lexer::unescape;
use quick_xml::reader::Reader;
use vstd::prelude::*;

verus! {

/// The types that a field can declare. There are no others.
#[derive(Debug, Clone, Copy, PartialEq, Eq, Structural)]
pub enum FieldType {
    Boolean,
    Fixed,
    Hidden,
    JidMulti,
    JidSingle,
    ListMulti,
    ListSingle,
    TextMulti,
    TextPrivate,
    TextSingle,
}

/// One of the values that a list field offers.
#[derive(Debug, Clone, Default)]
pub struct Option_ {
    pub label: Option<String>,
    pub value: String,
}

/// A reference to a media item.
#[derive(Debug, Clone, Default)]
pub struct URI {
    pub type_: String,
    pub uri: String,
}

/// A media element of a field.
#[derive(Debug, Clone, Default)]
pub struct MediaElement {
    pub width: Option<usize>,
    pub height: Option<usize>,
    pub uris: Vec<URI>,
}

/// One entry of a data form: a key, a declared type and the values given.
#[derive(Debug, Clone)]
pub struct Field {
    pub var: String,
    pub type_: FieldType,
    pub label: Option<String>,
    pub required: bool,
    pub options: Vec<Option_>,
    pub values: Vec<String>,
    pub media: Vec<MediaElement>,
}

/// The mathematical content of an [`Option_`].
pub struct OptionModel {
    pub label: Option<Seq<char>>,
    pub value: Seq<char>,
}

/// The mathematical content of a [`URI`].
pub struct UriModel {
    pub type_: Seq<char>,
    pub uri: Seq<char>,
}

/// The mathematical content of a [`MediaElement`].
pub struct MediaModel {
    pub width: Option<usize>,
    pub height: Option<usize>,
    pub uris: Seq<UriModel>,
}

/// The mathematical content of a [`Field`].
pub struct FieldModel {
    pub var: Seq<char>,
    pub type_: FieldType,
    pub label: Option<Seq<char>>,
    pub required: bool,
    pub options: Seq<OptionModel>,
    pub values: Seq<Seq<char>>,
    pub media: Seq<MediaModel>,
}

/// The texts that a list of strings holds.
pub open spec fn texts(strings: Seq<String>) -> Seq<Seq<char>> {
    strings.map_values(|text: String| text@)
}

impl View for Option_ {
    type V = OptionModel;

    open spec fn view(&self) -> OptionModel {
        OptionModel { label: text_of(self.label), value: self.value@ }
    }
}

impl View for URI {
    type V = UriModel;

    open spec fn view(&self) -> UriModel {
        UriModel { type_: self.type_@, uri: self.uri@ }
    }
}

impl View for MediaElement {
    type V = MediaModel;

    open spec fn view(&self) -> MediaModel {
        MediaModel {
            width: self.width,
            height: self.height,
            uris: self.uris@.map_values(|uri: URI| uri@),
        }
    }
}

impl View for Field {
    type V = FieldModel;

    open spec fn view(&self) -> FieldModel {
        FieldModel {
            var: self.var@,
            type_: self.type_,
            label: text_of(self.label),
            required: self.required,
            options: self.options@.map_values(|option: Option_| option@),
            values: texts(self.values@),
            media: self.media@.map_values(|media: MediaElement| media@),
        }
    }
}

impl FieldModel {
    /// The field with one more value at the end.
    pub open spec fn with_value(self, text: Seq<char>) -> FieldModel {
        FieldModel { values: self.values.push(text), ..self }
    }
}

impl FieldType {
    /// The type that the value of a `type` attribute names.
    ///
    /// The value has to be one of the ten type names, letter for letter.
    /// Any other value is refused and handed back in the error.
    pub fn classify(raw: &str) -> (result: Result<FieldType, Error>)
        ensures
            match classified(raw@) {
                Some(type_) => result == Ok::<FieldType, Error>(type_),
                None => result matches Err(Error::UnrecognizedFieldType(value)) && value@ == raw@,
            },
    {
        if same_text(raw, "boolean") {
            Ok(FieldType::Boolean)
        } else if same_text(raw, "fixed") {
            Ok(FieldType::Fixed)
        } else if same_text(raw, "hidden") {
            Ok(FieldType::Hidden)
        } else if same_text(raw, "jid-multi") {
            Ok(FieldType::JidMulti)
        } else if same_text(raw, "jid-single") {
            Ok(FieldType::JidSingle)
        } else if same_text(raw, "list-multi") {
            Ok(FieldType::ListMulti)
        } else if same_text(raw, "list-single") {
            Ok(FieldType::ListSingle)
        } else if same_text(raw, "text-multi") {
            Ok(FieldType::TextMulti)
        } else if same_text(raw, "text-private") {
            Ok(FieldType::TextPrivate)
        } else if same_text(raw, "text-single") {
            Ok(FieldType::TextSingle)
        } else {
            Err(Error::UnrecognizedFieldType(raw.to_owned()))
        }
    }
}

/// What a result holds: the model of the field, or of the error.
pub open spec fn outcome(result: Result<Field, Error>) -> Result<FieldModel, ErrorModel> {
    match result {
        Ok(field) => Ok(field@),
        Err(error) => Err(error@),
    }
}

/// Whether an element of this name is a field.
pub fn names_field(name: &[u8]) -> (yes: bool)
    ensures
        yes == is_field(name@),
{
    spells(local_name(name), "field")
}

/// Whether an element of this name is a value of a field.
pub fn names_value(name: &[u8]) -> (yes: bool)
    ensures
        yes == is_value(name@),
{
    spells(local_name(name), "value")
}

/// The role of the attribute with this key.
pub fn role(key: &[u8]) -> (role: Role)
    ensures
        role == role_of(key@),
{
    if spells(key, "var") {
        Role::Var
    } else if spells(key, "type") {
        Role::Type
    } else if spells(key, "label") || spells(key, "required") || spells(key, "options") || spells(
        key,
        "media",
    ) {
        Role::Reserved
    } else {
        Role::Unknown
    }
}

impl Default for Field {
    /// The field of which nothing is known yet.
    fn default() -> (field: Field)
        ensures
            field@ == blank(),
    {
        let field = Field {
            var: String::new(),
            type_: FieldType::Fixed,
            label: None,
            required: false,
            options: Vec::new(),
            values: Vec::new(),
            media: Vec::new(),
        };
        proof {
            assert(field@.options == blank().options);
            assert(field@.values == blank().values);
            assert(field@.media == blank().media);
        }
        field
    }
}

impl Field {
    /// The field that the attributes of a start tag describe, without values.
    ///
    /// The attributes are gone through in the order written. `var` and `type`
    /// are unescaped and taken over, `type` as one of the known types;
    /// `label`, `required`, `options` and `media` are allowed and left alone.
    /// The first attribute that is malformed, cannot be unescaped, names no
    /// known type or has another key ends the work with its error.
    pub fn from_attributes(element: &Element, reader: &Reader<&[u8]>) -> (result: Result<
        Field,
        Error,
    >)
        ensures
            outcome(result) == with_attributes(blank(), element@.attributes),
    {
        let mut field = Field::default();
        let mut i: usize = 0;
        proof {
            assert(element@.attributes.skip(0) == element@.attributes);
        }
        while i < element.attributes.len()
            invariant
                i <= element.attributes.len(),
                with_attributes(blank(), element@.attributes) == with_attributes(
                    field@,
                    element@.attributes.skip(i as int),
                ),
            decreases element.attributes.len() - i,
        {
            proof {
                assert(element@.attributes.skip(i as int).skip(1) == element@.attributes.skip(
                    i + 1,
                ));
            }
            match &element.attributes[i] {
                None => {
                    return Err(Error::MalformedDocument);
                },
                Some(attribute) => {
                    match role(attribute.key.as_slice()) {
                        Role::Var => match attribute_value(attribute, reader) {
                            Some(text) => {
                                field.var = text;
                            },
                            None => {
                                return Err(Error::MalformedDocument);
                            },
                        },
                        Role::Type => match attribute_value(attribute, reader) {
                            Some(text) => match FieldType::classify(text.as_str()) {
                                Ok(type_) => {
                                    field.type_ = type_;
                                },
                                Err(error) => {
                                    return Err(error);
                                },
                            },
                            None => {
                                return Err(Error::MalformedDocument);
                            },
                        },
                        Role::Reserved => {},
                        Role::Unknown => {
                            return Err(Error::UnknownFieldAttribute(show(attribute.key.as_slice())));
                        },
                    }
                },
            }
            i += 1;
        }
        Ok(field)
    }

    /// The field that a start tag and what follows it make up.
    ///
    /// `element` is the start tag of the field, already read; `reader` stands
    /// right behind it. First the attributes are gone through, as
    /// [`Field::from_attributes`] does. Then the reader is read up to the end
    /// tag of the field: the text of each `value` child, unescaped, becomes
    /// one value; any other child element, and the end of the input, end the
    /// work with an error.
    ///
    /// On success the reader stands right behind the end tag of the field.
    /// After a failure nothing is promised of it.
    pub fn from_element(element: &Element, reader: &mut Reader<&[u8]>) -> (result: Result<
        Field,
        Error,
    >)
        ensures
            match built(element@, ahead(*old(reader))) {
                Ok(built) => {
                    &&& result matches Ok(field)
                    &&& field@ == built.field
                    &&& ahead(*final(reader)) == ahead(*old(reader)).skip(built.used as int)
                },
                Err(error) => result matches Err(found) && found@ == error,
            },
    {
        let mut field = match Field::from_attributes(element, reader) {
            Ok(field) => field,
            Err(error) => {
                return Err(error);
            },
        };
        let ghost start = field@;
        let ghost mut read: nat = 0;
        proof {
            assert(ahead(*reader).skip(0) == ahead(*reader));
        }
        loop
            invariant
                with_attributes(blank(), element@.attributes) == Ok::<FieldModel, ErrorModel>(start),
                read <= ahead(*old(reader)).len(),
                ahead(*reader) == ahead(*old(reader)).skip(read as int),
                with_children(start, ahead(*old(reader))) == later(
                    with_children(field@, ahead(*reader)),
                    read,
                ),
            decreases ahead(*reader).len(),
        {
            let ghost items = ahead(*reader);
            let ghost before = field@;
            let token = next_token(reader);
            proof {
                assert(items.skip(1) == ahead(*old(reader)).skip(read as int + 1));
            }
            match token {
                Token::End | Token::Truncated => {
                    return Err(Error::UnexpectedEndOfDocument);
                },
                Token::Malformed => {
                    return Err(Error::MalformedDocument);
                },
                Token::Other => {},
                Token::Close(name) => {
                    if names_field(name.as_slice()) {
                        return Ok(field);
                    }
                },
                Token::Empty(child) => {
                    if names_value(child.name.as_slice()) {
                        field.values.push(String::new());
                        proof {
                            assert(field@.values == before.values.push(Seq::empty()));
                            assert(field@ == before.with_value(Seq::empty()));
                        }
                    } else {
                        return Err(Error::UnexpectedChildElement(show(child.name.as_slice())));
                    }
                },
                Token::Open(child) => {
                    if names_value(child.name.as_slice()) {
                        match enclosed_text(reader, child.name.as_slice()) {
                            Ok(raw) => match unescape(raw.as_str()) {
                                Some(text) => {
                                    proof {
                                        lemma_closing_in_range(items.skip(1), child.name@, 0);
                                        let used = text_read(items.skip(1), child.name@)->Ok_0.1;
                                        assert(items.skip(1).skip(used as int) == ahead(
                                            *old(reader),
                                        ).skip(read as int + 1 + used as int));
                                        read = read + used;
                                    }
                                    field.values.push(text);
                                    proof {
                                        assert(field@.values == before.values.push(text@));
                                        assert(field@ == before.with_value(text@));
                                    }
                                },
                                None => {
                                    return Err(Error::MalformedDocument);
                                },
                            },
                            Err(Shortfall::Ended) => {
                                return Err(Error::UnexpectedEndOfDocument);
                            },
                            Err(Shortfall::Broken) => {
                                return Err(Error::MalformedDocument);
                            },
                        }
                    } else {
                        return Err(Error::UnexpectedChildElement(show(child.name.as_slice())));
                    }
                },
            }
            proof {
                read = read + 1;
            }
        }
    }
}

} // verus!
