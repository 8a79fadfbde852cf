//! What a document means: the fields that a sequence of lexical items holds.
//!
//! Everything here is mathematics over [`Item`]s. The functions that read a
//! document are specified by these definitions.

use crate::bytes::bytes_of;
use crate::bytes::local_part;
use crate::elements::field::FieldModel;
use crate::elements::field::FieldType;
use crate::errors::ErrorModel;
use crate::lexer::AttributeModel;
use crate::lexer::Closing;
use crate::lexer::closing;
use crate::lexer::ElementModel;
use crate::lexer::Item;
use crate::lexer::Shortfall;
use crate::lexer::shown;
use crate::lexer::text_read;
use crate::lexer::TokenModel;
use crate::lexer::unescaped;
use crate::lexer::value_of;
use vstd::prelude::*;

verus! {

/// Whether an element of this name is a field.
pub open spec fn is_field(name: Seq<u8>) -> bool {
    local_part(name) == bytes_of("field")
}

/// Whether an element of this name is a value of a field.
pub open spec fn is_value(name: Seq<u8>) -> bool {
    local_part(name) == bytes_of("value")
}

/// The type that a `type` attribute names. The comparison is exact.
pub open spec fn classified(raw: Seq<char>) -> Option<FieldType> {
    if raw == "boolean"@ {
        Some(FieldType::Boolean)
    } else if raw == "fixed"@ {
        Some(FieldType::Fixed)
    } else if raw == "hidden"@ {
        Some(FieldType::Hidden)
    } else if raw == "jid-multi"@ {
        Some(FieldType::JidMulti)
    } else if raw == "jid-single"@ {
        Some(FieldType::JidSingle)
    } else if raw == "list-multi"@ {
        Some(FieldType::ListMulti)
    } else if raw == "list-single"@ {
        Some(FieldType::ListSingle)
    } else if raw == "text-multi"@ {
        Some(FieldType::TextMulti)
    } else if raw == "text-private"@ {
        Some(FieldType::TextPrivate)
    } else if raw == "text-single"@ {
        Some(FieldType::TextSingle)
    } else {
        None
    }
}

/// What an attribute of a field is for.
#[derive(Debug, Clone, Copy, PartialEq, Eq, Structural)]
pub enum Role {
    /// `var`: the key of the field.
    Var,
    /// `type`: the type of the field.
    Type,
    /// `label`, `required`, `options`, `media`: allowed, and not looked into.
    Reserved,
    /// Anything else: not an attribute of a field.
    Unknown,
}

/// The role of the attribute with this key. Keys are compared as written,
/// prefix included.
pub open spec fn role_of(key: Seq<u8>) -> Role {
    if key == bytes_of("var") {
        Role::Var
    } else if key == bytes_of("type") {
        Role::Type
    } else if key == bytes_of("label") || key == bytes_of("required") || key == bytes_of("options")
        || key == bytes_of("media") {
        Role::Reserved
    } else {
        Role::Unknown
    }
}

/// The field before anything is known of it: no key, the type `fixed`, no
/// values.
pub open spec fn blank() -> FieldModel {
    FieldModel {
        var: Seq::empty(),
        type_: FieldType::Fixed,
        label: None,
        required: false,
        options: Seq::empty(),
        values: Seq::empty(),
        media: Seq::empty(),
    }
}

/// What one attribute makes of a field: `var` gives the key and `type` the
/// type, both unescaped; the reserved keys change nothing; any other key is
/// a failure.
pub open spec fn with_attribute(field: FieldModel, attribute: AttributeModel) -> Result<
    FieldModel,
    ErrorModel,
> {
    match role_of(attribute.key) {
        Role::Var => match value_of(attribute.value) {
            Some(text) => Ok(FieldModel { var: text, ..field }),
            None => Err(ErrorModel::MalformedDocument),
        },
        Role::Type => match value_of(attribute.value) {
            Some(text) => match classified(text) {
                Some(type_) => Ok(FieldModel { type_, ..field }),
                None => Err(ErrorModel::UnrecognizedFieldType(text)),
            },
            None => Err(ErrorModel::MalformedDocument),
        },
        Role::Reserved => Ok(field),
        Role::Unknown => Err(ErrorModel::UnknownFieldAttribute(shown(attribute.key))),
    }
}

/// `field` after the attribute slots have been gone through from left to
/// right, or the first failure met on the way. A slot without an attribute
/// stands for one that is not well-formed, and is a failure.
pub open spec fn with_attributes(field: FieldModel, slots: Seq<Option<AttributeModel>>) -> Result<
    FieldModel,
    ErrorModel,
>
    decreases slots.len(),
{
    if slots.len() == 0 {
        Ok(field)
    } else {
        match slots[0] {
            None => Err(ErrorModel::MalformedDocument),
            Some(attribute) => match with_attribute(field, attribute) {
                Ok(found) => with_attributes(found, slots.skip(1)),
                Err(error) => Err(error),
            },
        }
    }
}

/// A field that was built, and the number of items that were read for it,
/// its end tag among them.
pub struct Built {
    pub field: FieldModel,
    pub used: nat,
}

/// The same result, reached after `count` more items.
pub open spec fn later(result: Result<Built, ErrorModel>, count: nat) -> Result<Built, ErrorModel> {
    match result {
        Ok(built) => Ok(Built { field: built.field, used: built.used + count }),
        Err(error) => Err(error),
    }
}

/// The end tag that closes an element stands inside the items searched.
pub proof fn lemma_closing_in_range(items: Seq<Item>, name: Seq<u8>, depth: nat)
    ensures
        closing(items, name, depth) matches Closing::At(index) ==> index < items.len(),
    decreases items.len(),
{
    if items.len() > 0 {
        let rest = items.skip(1);
        lemma_closing_in_range(rest, name, depth);
        lemma_closing_in_range(rest, name, depth + 1);
        if depth > 0 {
            lemma_closing_in_range(rest, name, (depth - 1) as nat);
        }
    }
}

/// `field` after the items that follow its start tag have been read up to its
/// end tag.
///
/// Each `value` child adds its text, unescaped, to the values, a
/// self-closing one the empty text. Text, comments and the like between the
/// children are passed over, as are end tags of other names. It is a failure
/// - `UnexpectedChildElement`, with the name, where a child is another
///   element;
/// - `UnexpectedEndOfDocument` where the input ends, or stops inside markup,
///   before the end tag of the field;
/// - `MalformedDocument` where the input is not well-formed, and where the
///   text of a value is not UTF-8 or cannot be unescaped.
pub open spec fn with_children(field: FieldModel, items: Seq<Item>) -> Result<Built, ErrorModel>
    decreases items.len(),
{
    if items.len() == 0 {
        Err(ErrorModel::UnexpectedEndOfDocument)
    } else {
        let rest = items.skip(1);
        match items[0].token {
            TokenModel::End | TokenModel::Truncated => Err(ErrorModel::UnexpectedEndOfDocument),
            TokenModel::Malformed => Err(ErrorModel::MalformedDocument),
            TokenModel::Other => later(with_children(field, rest), 1),
            TokenModel::Close(name) => if is_field(name) {
                Ok(Built { field, used: 1 })
            } else {
                later(with_children(field, rest), 1)
            },
            TokenModel::Empty(element) => if is_value(element.name) {
                later(with_children(field.with_value(Seq::empty()), rest), 1)
            } else {
                Err(ErrorModel::UnexpectedChildElement(shown(element.name)))
            },
            TokenModel::Open(element) => if is_value(element.name) {
                match text_read(rest, element.name) {
                    Ok((raw, used)) => match unescaped(raw) {
                        Some(text) => {
                            proof {
                                lemma_closing_in_range(rest, element.name, 0);
                            }
                            later(
                                with_children(field.with_value(text), rest.skip(used as int)),
                                used + 1,
                            )
                        },
                        None => Err(ErrorModel::MalformedDocument),
                    },
                    Err(Shortfall::Ended) => Err(ErrorModel::UnexpectedEndOfDocument),
                    Err(Shortfall::Broken) => Err(ErrorModel::MalformedDocument),
                }
            } else {
                Err(ErrorModel::UnexpectedChildElement(shown(element.name)))
            },
        }
    }
}

/// The field that the start tag `element` and the items after it make up.
/// The attributes are gone through first; nothing is read where they fail.
pub open spec fn built(element: ElementModel, items: Seq<Item>) -> Result<Built, ErrorModel> {
    match with_attributes(blank(), element.attributes) {
        Ok(field) => with_children(field, items),
        Err(error) => Err(error),
    }
}

/// A field is built from items that are there, its end tag for one.
pub proof fn lemma_used_in_range(field: FieldModel, items: Seq<Item>)
    ensures
        with_children(field, items) matches Ok(built) ==> 1 <= built.used <= items.len(),
    decreases items.len(),
{
    if items.len() > 0 {
        let rest = items.skip(1);
        match items[0].token {
            TokenModel::Other => lemma_used_in_range(field, rest),
            TokenModel::Close(name) => lemma_used_in_range(field, rest),
            TokenModel::Empty(element) => lemma_used_in_range(
                field.with_value(Seq::empty()),
                rest,
            ),
            TokenModel::Open(element) => {
                if let Ok((raw, used)) = text_read(rest, element.name) {
                    if let Some(text) = unescaped(raw) {
                        lemma_closing_in_range(rest, element.name, 0);
                        lemma_used_in_range(field.with_value(text), rest.skip(used as int));
                    }
                }
            },
            _ => {},
        }
    }
}

/// `first` in front of the fields of `rest`, where there are any.
pub open spec fn preceded(first: FieldModel, rest: Result<Seq<FieldModel>, ErrorModel>) -> Result<
    Seq<FieldModel>,
    ErrorModel,
> {
    match rest {
        Ok(fields) => Ok(seq![first] + fields),
        Err(error) => Err(error),
    }
}

/// `found` in front of the fields of `rest`, where there are any.
pub open spec fn continued(found: Seq<FieldModel>, rest: Result<Seq<FieldModel>, ErrorModel>) -> Result<
    Seq<FieldModel>,
    ErrorModel,
> {
    match rest {
        Ok(fields) => Ok(found + fields),
        Err(error) => Err(error),
    }
}

/// The fields of a document, in the order in which they are opened, or the
/// first failure met.
///
/// Only elements called `field` are looked at, wherever they stand; all other
/// items are passed over. A field fails as [`built`] says. Outside of fields,
/// input that is not well-formed, or that stops inside markup, is a
/// `MalformedDocument`. A failure leaves no fields.
pub open spec fn extracted(items: Seq<Item>) -> Result<Seq<FieldModel>, ErrorModel>
    decreases items.len(),
{
    if items.len() == 0 {
        Ok(Seq::empty())
    } else {
        let rest = items.skip(1);
        match items[0].token {
            TokenModel::End => Ok(Seq::empty()),
            TokenModel::Truncated | TokenModel::Malformed => Err(ErrorModel::MalformedDocument),
            TokenModel::Open(element) => if is_field(element.name) {
                match built(element, rest) {
                    Ok(first) => {
                        proof {
                            if let Ok(start) = with_attributes(blank(), element.attributes) {
                                lemma_used_in_range(start, rest);
                            }
                        }
                        preceded(first.field, extracted(rest.skip(first.used as int)))
                    },
                    Err(error) => Err(error),
                }
            } else {
                extracted(rest)
            },
            TokenModel::Empty(element) => if is_field(element.name) {
                match with_attributes(blank(), element.attributes) {
                    Ok(first) => preceded(first, extracted(rest)),
                    Err(error) => Err(error),
                }
            } else {
                extracted(rest)
            },
            _ => extracted(rest),
        }
    }
}

} // verus!
