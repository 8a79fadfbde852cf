//! The values of a field: the texts of its `value` children, in their
//! order.

use crate::elements::field::FieldModel;
use crate::errors::ErrorModel;
use crate::grammar::blank;
use crate::grammar::built;
use crate::grammar::Built;
use crate::grammar::is_field;
use crate::grammar::is_value;
use crate::grammar::later;
use crate::grammar::with_attribute;
use crate::grammar::with_attributes;
use crate::grammar::with_children;
use crate::guarantees::documents::holds_field;
use crate::guarantees::documents::interleaved;
use crate::guarantees::documents::lemma_text_is_local;
use crate::lexer::AttributeModel;
use crate::lexer::Closing;
use crate::lexer::closing;
use crate::lexer::ElementModel;
use crate::lexer::Item;
use crate::lexer::joined;
use crate::lexer::text_read;
use crate::lexer::TokenModel;
use crate::lexer::unescaped;
use vstd::prelude::*;
use vstd::utf8::decode_utf8;
use vstd::utf8::valid_utf8;

verus! {

/// Whether an item inside a field is passed over: text, comments and the
/// like, and end tags that do not end the field.
pub open spec fn passed_over_in_field(item: Item) -> bool {
    match item.token {
        TokenModel::Other => true,
        TokenModel::Close(name) => !is_field(name),
        _ => false,
    }
}

/// Whether `items` is made of items that are passed over inside a field.
pub open spec fn is_padding(items: Seq<Item>) -> bool {
    forall|i: int| 0 <= i < items.len() ==> passed_over_in_field(#[trigger] items[i])
}

/// Whether `span` is one whole `value` element with the text `text`: a
/// self-closing tag, which has the empty text, or a start tag with all that
/// is read up to its end tag, the text being what stands in between,
/// unescaped.
pub open spec fn holds_value(span: Seq<Item>, text: Seq<char>) -> bool {
    span.len() > 0 && match span[0].token {
        TokenModel::Empty(element) => {
            &&& is_value(element.name)
            &&& span.len() == 1
            &&& text == Seq::<char>::empty()
        },
        TokenModel::Open(element) => {
            &&& is_value(element.name)
            &&& text_read(span.skip(1), element.name) matches Ok((raw, used))
            &&& used == span.len() - 1
            &&& unescaped(raw) == Some(text)
        },
        _ => false,
    }
}

/// Whether `padding` and `children` describe the inside of a field in which
/// the `value` elements `children`, with the texts `texts`, stand among
/// padding.
pub open spec fn is_content(
    padding: Seq<Seq<Item>>,
    children: Seq<Seq<Item>>,
    texts: Seq<Seq<char>>,
) -> bool {
    &&& padding.len() == children.len() + 1
    &&& texts.len() == children.len()
    &&& forall|i: int| 0 <= i < padding.len() ==> is_padding(#[trigger] padding[i])
    &&& forall|i: int| 0 <= i < children.len() ==> holds_value(#[trigger] children[i], texts[i])
}

/// Padding in front of the children of a field changes nothing but the number
/// of items read.
pub proof fn lemma_padding_is_passed_over(field: FieldModel, padding: Seq<Item>, rest: Seq<Item>)
    requires
        is_padding(padding),
    ensures
        with_children(field, padding + rest) == later(with_children(field, rest), padding.len()),
    decreases padding.len(),
{
    if padding.len() == 0 {
        assert(padding + rest == rest);
    } else {
        let whole = padding + rest;
        assert(whole[0] == padding[0]);
        assert(passed_over_in_field(padding[0]));
        assert(whole.skip(1) == padding.skip(1) + rest);
        assert forall|i: int| 0 <= i < padding.skip(1).len() implies passed_over_in_field(
            #[trigger] padding.skip(1)[i],
        ) by {
            assert(padding.skip(1)[i] == padding[i + 1]);
        }
        lemma_padding_is_passed_over(field, padding.skip(1), rest);
    }
}

/// A whole `value` element in front of the children of a field adds its text
/// to the values.
pub proof fn lemma_value_comes_first(
    field: FieldModel,
    span: Seq<Item>,
    text: Seq<char>,
    rest: Seq<Item>,
)
    requires
        holds_value(span, text),
    ensures
        with_children(field, span + rest) == later(
            with_children(field.with_value(text), rest),
            span.len(),
        ),
{
    let whole = span + rest;
    assert(whole[0] == span[0]);
    assert(whole.skip(1) == span.skip(1) + rest);
    match span[0].token {
        TokenModel::Empty(element) => {
            assert(span.skip(1) + rest == rest);
        },
        TokenModel::Open(element) => {
            lemma_text_is_local(span.skip(1), rest, element.name);
            assert((span.skip(1) + rest).skip(span.len() - 1) == rest);
        },
        _ => {},
    }
}

/// The values of a field are the texts of its `value` children, in the order
/// in which the children stand; a field without such children has no values.
///
/// Where `value` elements with the texts `texts` stand among padding and the
/// end tag of the field follows, the field is built, and its values are those
/// it had before followed by `texts`.
pub proof fn values_come_in_document_order(
    field: FieldModel,
    padding: Seq<Seq<Item>>,
    children: Seq<Seq<Item>>,
    texts: Seq<Seq<char>>,
    end: Item,
    rest: Seq<Item>,
)
    requires
        is_content(padding, children, texts),
        end.token matches TokenModel::Close(name) && is_field(name),
    ensures
        with_children(field, interleaved(padding, children) + (seq![end] + rest)) == Ok::<
            Built,
            ErrorModel,
        >(
            Built {
                field: FieldModel { values: field.values + texts, ..field },
                used: interleaved(padding, children).len() + 1,
            },
        ),
    decreases children.len(),
{
    let tail = seq![end] + rest;
    assert(tail[0] == end);
    if children.len() == 0 {
        lemma_padding_is_passed_over(field, padding[0], tail);
        assert(texts == Seq::<Seq<char>>::empty());
        assert(field.values + texts == field.values);
    } else {
        let later = interleaved(padding.skip(1), children.skip(1));
        assert(interleaved(padding, children) + tail == padding[0] + (children[0] + (later + tail)));
        lemma_padding_is_passed_over(field, padding[0], children[0] + (later + tail));
        lemma_value_comes_first(field, children[0], texts[0], later + tail);
        assert forall|i: int| 0 <= i < children.skip(1).len() implies holds_value(
            #[trigger] children.skip(1)[i],
            texts.skip(1)[i],
        ) by {
            assert(children.skip(1)[i] == children[i + 1]);
        }
        assert forall|i: int| 0 <= i < padding.skip(1).len() implies is_padding(
            #[trigger] padding.skip(1)[i],
        ) by {
            assert(padding.skip(1)[i] == padding[i + 1]);
        }
        values_come_in_document_order(
            field.with_value(texts[0]),
            padding.skip(1),
            children.skip(1),
            texts.skip(1),
            end,
            rest,
        );
        assert(field.values.push(texts[0]) + texts.skip(1) == field.values + texts);
    }
}

/// Going through attributes changes nothing of a field but its key and its
/// type.
pub proof fn lemma_attributes_set_key_and_type(
    field: FieldModel,
    slots: Seq<Option<AttributeModel>>,
)
    ensures
        with_attributes(field, slots) matches Ok(found) ==> found == (FieldModel {
            var: found.var,
            type_: found.type_,
            ..field
        }),
    decreases slots.len(),
{
    if slots.len() > 0 {
        if let Some(attribute) = slots[0] {
            if let Ok(found) = with_attribute(field, attribute) {
                lemma_attributes_set_key_and_type(found, slots.skip(1));
            }
        }
    }
}

/// A field element whose attributes are in order and whose `value` children
/// have the texts `texts` yields a field with exactly the values `texts`, in
/// that order; without such children it has no values, and is a field all
/// the same.
pub proof fn field_has_the_texts_of_its_values(
    element: ElementModel,
    padding: Seq<Seq<Item>>,
    children: Seq<Seq<Item>>,
    texts: Seq<Seq<char>>,
    end: Item,
    rest: Seq<Item>,
)
    requires
        with_attributes(blank(), element.attributes) is Ok,
        is_content(padding, children, texts),
        end.token matches TokenModel::Close(name) && is_field(name),
    ensures
        built(element, interleaved(padding, children) + (seq![end] + rest)) matches Ok(found)
            && found.field.values == texts,
{
    let start = with_attributes(blank(), element.attributes)->Ok_0;
    lemma_attributes_set_key_and_type(blank(), element.attributes);
    values_come_in_document_order(start, padding, children, texts, end, rest);
    assert(start.values + texts == texts);
}

/// A field element without `value` children is a field without values,
/// whether it is written as a self-closing tag or as a start tag and an end
/// tag with nothing but padding in between.
pub proof fn field_without_values_has_none(
    start: Item,
    padding: Seq<Item>,
    end: Item,
    field: FieldModel,
)
    requires
        start.token matches (TokenModel::Open(element) | TokenModel::Empty(element)) && is_field(
            element.name,
        ) && with_attributes(blank(), element.attributes) == Ok::<FieldModel, ErrorModel>(field),
        is_padding(padding),
        end.token matches TokenModel::Close(name) && is_field(name),
    ensures
        field.values == Seq::<Seq<char>>::empty(),
        start.token is Empty ==> holds_field(seq![start], field),
        start.token is Open ==> holds_field(seq![start] + padding + seq![end], field),
{
    let element = match start.token {
        TokenModel::Open(element) => element,
        TokenModel::Empty(element) => element,
        _ => arbitrary(),
    };
    lemma_attributes_set_key_and_type(blank(), element.attributes);
    if start.token is Open {
        let span = seq![start] + padding + seq![end];
        assert(span[0] == start);
        assert(span.skip(1) == padding + (seq![end] + Seq::<Item>::empty()));
        let gaps = seq![padding];
        assert(interleaved(gaps, Seq::empty()) == padding);
        assert(is_content(gaps, Seq::empty(), Seq::empty()));
        values_come_in_document_order(
            field,
            gaps,
            Seq::empty(),
            Seq::empty(),
            end,
            Seq::empty(),
        );
        assert(field.values + Seq::<Seq<char>>::empty() == field.values);
    } else {
        assert(seq![start][0] == start);
    }
}

/// Whether nothing in `items` ends the reading, or opens or closes an element
/// called `name`.
pub open spec fn is_plain(items: Seq<Item>, name: Seq<u8>) -> bool {
    forall|i: int|
        0 <= i < items.len() ==> match (#[trigger] items[i]).token {
            TokenModel::Open(element) => element.name != name,
            TokenModel::Close(found) => found != name,
            TokenModel::End | TokenModel::Truncated | TokenModel::Malformed => false,
            _ => true,
        }
}

/// The end tag of an element stands where its name is first closed, if the
/// name does not occur in between.
pub proof fn lemma_plain_content_is_closed(
    inner: Seq<Item>,
    end: Item,
    rest: Seq<Item>,
    name: Seq<u8>,
)
    requires
        is_plain(inner, name),
        end.token == TokenModel::Close(name),
    ensures
        closing(inner + (seq![end] + rest), name, 0) == Closing::At(inner.len()),
    decreases inner.len(),
{
    let whole = inner + (seq![end] + rest);
    if inner.len() == 0 {
        assert(whole[0] == end);
    } else {
        assert(whole[0] == inner[0]);
        assert(whole.skip(1) == inner.skip(1) + (seq![end] + rest));
        assert forall|i: int| 0 <= i < inner.skip(1).len() implies match (
        #[trigger] inner.skip(1)[i]).token {
            TokenModel::Open(element) => element.name != name,
            TokenModel::Close(found) => found != name,
            TokenModel::End | TokenModel::Truncated | TokenModel::Malformed => false,
            _ => true,
        } by {
            assert(inner.skip(1)[i] == inner[i + 1]);
        }
        lemma_plain_content_is_closed(inner.skip(1), end, rest, name);
    }
}

/// The text of a `value` element is the input between its tags, decoded and
/// unescaped; where that input holds no `&`, it is that input, decoded.
///
/// This is stated for an element in whose content the name of the element
/// does not occur again: then the first end tag of that name closes it.
pub proof fn value_text_is_the_input_between_its_tags(
    start: Item,
    inner: Seq<Item>,
    end: Item,
    text: Seq<char>,
)
    requires
        start.token matches TokenModel::Open(element) && is_value(element.name) && is_plain(
            inner,
            element.name,
        ) && end.token == TokenModel::Close(element.name),
        valid_utf8(joined(inner)),
        unescaped(decode_utf8(joined(inner))) == Some(text),
    ensures
        holds_value(seq![start] + inner + seq![end], text),
        !decode_utf8(joined(inner)).contains('&') ==> text == decode_utf8(joined(inner)),
{
    let name = start.token->Open_0.name;
    let span = seq![start] + inner + seq![end];
    assert(span[0] == start);
    assert(span.skip(1) == inner + (seq![end] + Seq::<Item>::empty()));
    lemma_plain_content_is_closed(inner, end, Seq::empty(), name);
    assert(span.skip(1).take(inner.len() as int) == inner);
}

} // verus!
