//! Fields among wrapping: the fields of a document are those of its field
//! elements, in their order, whatever surrounds them; and where one field
//! element fails, the extraction fails.

use crate::elements::field::FieldModel;
use crate::errors::ErrorModel;
use crate::grammar::blank;
use crate::grammar::built;
use crate::grammar::Built;
use crate::grammar::continued;
use crate::grammar::extracted;
use crate::grammar::is_field;
use crate::grammar::is_value;
use crate::grammar::lemma_closing_in_range;
use crate::grammar::preceded;
use crate::grammar::with_attributes;
use crate::grammar::with_children;
use crate::lexer::closing;
use crate::lexer::Item;
use crate::lexer::text_read;
use crate::lexer::TokenModel;
use crate::lexer::unescaped;
use vstd::prelude::*;

verus! {

/// Whether an extraction passes over `item` when it is not inside a field:
/// it does unless the item starts a field or ends the reading.
pub open spec fn passed_over(item: Item) -> bool {
    match item.token {
        TokenModel::Other | TokenModel::Close(_) => true,
        TokenModel::Open(element) | TokenModel::Empty(element) => !is_field(element.name),
        TokenModel::End | TokenModel::Truncated | TokenModel::Malformed => false,
    }
}

/// Whether `items` is made of items that are passed over outside of fields:
/// the tags of elements that are no fields, text, comments and the like.
pub open spec fn is_wrapping(items: Seq<Item>) -> bool {
    forall|i: int| 0 <= i < items.len() ==> passed_over(#[trigger] items[i])
}

/// Whether `span` is one whole field element that yields `field`: a
/// self-closing tag, or a start tag with all that is read up to its end tag.
pub open spec fn holds_field(span: Seq<Item>, field: FieldModel) -> bool {
    span.len() > 0 && match span[0].token {
        TokenModel::Empty(element) => {
            &&& is_field(element.name)
            &&& span.len() == 1
            &&& with_attributes(blank(), element.attributes) == Ok::<FieldModel, ErrorModel>(field)
        },
        TokenModel::Open(element) => {
            &&& is_field(element.name)
            &&& built(element, span.skip(1)) == Ok::<Built, ErrorModel>(
                Built { field, used: (span.len() - 1) as nat },
            )
        },
        _ => false,
    }
}

/// `gaps` and `parts` taken in turn: a gap, a part, a gap, and so on, ending
/// with the gap that follows the last part.
pub open spec fn interleaved(gaps: Seq<Seq<Item>>, parts: Seq<Seq<Item>>) -> Seq<Item>
    recommends
        gaps.len() == parts.len() + 1,
    decreases parts.len(),
{
    if gaps.len() == 0 {
        Seq::empty()
    } else if parts.len() == 0 {
        gaps[0]
    } else {
        gaps[0] + parts[0] + interleaved(gaps.skip(1), parts.skip(1))
    }
}

/// Whether `wrapping` and `spans` describe a stretch of a document in which
/// the field elements `spans`, which yield `fields`, stand among wrapping.
pub open spec fn is_layout(
    wrapping: Seq<Seq<Item>>,
    spans: Seq<Seq<Item>>,
    fields: Seq<FieldModel>,
) -> bool {
    &&& wrapping.len() == spans.len() + 1
    &&& fields.len() == spans.len()
    &&& forall|i: int| 0 <= i < wrapping.len() ==> is_wrapping(#[trigger] wrapping[i])
    &&& forall|i: int| 0 <= i < spans.len() ==> holds_field(#[trigger] spans[i], fields[i])
}

/// Wrapping in front of a document does not change what is extracted.
pub proof fn lemma_wrapping_is_passed_over(wrapping: Seq<Item>, rest: Seq<Item>)
    requires
        is_wrapping(wrapping),
    ensures
        extracted(wrapping + rest) == extracted(rest),
    decreases wrapping.len(),
{
    if wrapping.len() == 0 {
        assert(wrapping + rest == rest);
    } else {
        let whole = wrapping + rest;
        assert(whole[0] == wrapping[0]);
        assert(passed_over(wrapping[0]));
        assert(whole.skip(1) == wrapping.skip(1) + rest);
        assert forall|i: int| 0 <= i < wrapping.skip(1).len() implies passed_over(
            #[trigger] wrapping.skip(1)[i],
        ) by {
            assert(wrapping.skip(1)[i] == wrapping[i + 1]);
        }
        lemma_wrapping_is_passed_over(wrapping.skip(1), rest);
    }
}

/// Where the end tag of an element is found does not depend on what follows
/// it.
pub proof fn lemma_closing_is_local(items: Seq<Item>, more: Seq<Item>, name: Seq<u8>, depth: nat)
    requires
        closing(items, name, depth) is At,
    ensures
        closing(items + more, name, depth) == closing(items, name, depth),
    decreases items.len(),
{
    let whole = items + more;
    assert(items.len() > 0);
    assert(whole[0] == items[0]);
    assert(whole.skip(1) == items.skip(1) + more);
    let rest = items.skip(1);
    match items[0].token {
        TokenModel::Open(element) => {
            let inner: nat = if element.name == name {
                depth + 1
            } else {
                depth
            };
            lemma_closing_is_local(rest, more, name, inner);
        },
        TokenModel::Close(found) => {
            if found != name {
                lemma_closing_is_local(rest, more, name, depth);
            } else if depth > 0 {
                lemma_closing_is_local(rest, more, name, (depth - 1) as nat);
            }
        },
        TokenModel::End | TokenModel::Truncated | TokenModel::Malformed => {},
        _ => {
            lemma_closing_is_local(rest, more, name, depth);
        },
    }
}

/// The text of an element that is closed does not depend on what follows its
/// end tag.
pub proof fn lemma_text_is_local(items: Seq<Item>, more: Seq<Item>, name: Seq<u8>)
    requires
        closing(items, name, 0) is At,
    ensures
        text_read(items + more, name) == text_read(items, name),
{
    lemma_closing_is_local(items, more, name, 0);
    lemma_closing_in_range(items, name, 0);
    let index = closing(items, name, 0)->At_0;
    assert((items + more).take(index as int) == items.take(index as int));
}

/// A field that is built does not depend on what follows its end tag.
pub proof fn lemma_field_is_local(field: FieldModel, items: Seq<Item>, more: Seq<Item>)
    requires
        with_children(field, items) is Ok,
    ensures
        with_children(field, items + more) == with_children(field, items),
    decreases items.len(),
{
    let whole = items + more;
    assert(items.len() > 0);
    assert(whole[0] == items[0]);
    assert(whole.skip(1) == items.skip(1) + more);
    let rest = items.skip(1);
    match items[0].token {
        TokenModel::Other => lemma_field_is_local(field, rest, more),
        TokenModel::Close(name) => {
            if !is_field(name) {
                lemma_field_is_local(field, rest, more);
            }
        },
        TokenModel::Empty(element) => {
            if is_value(element.name) {
                lemma_field_is_local(field.with_value(Seq::empty()), rest, more);
            }
        },
        TokenModel::Open(element) => {
            if is_value(element.name) {
                if let Ok((raw, used)) = text_read(rest, element.name) {
                    if let Some(text) = unescaped(raw) {
                        lemma_text_is_local(rest, more, element.name);
                        lemma_closing_in_range(rest, element.name, 0);
                        assert((rest + more).skip(used as int) == rest.skip(used as int) + more);
                        lemma_field_is_local(field.with_value(text), rest.skip(used as int), more);
                    }
                }
            }
        },
        _ => {},
    }
}

/// A whole field element in front of a document yields its field in front of
/// the fields of the document.
pub proof fn lemma_field_comes_first(span: Seq<Item>, field: FieldModel, rest: Seq<Item>)
    requires
        holds_field(span, field),
    ensures
        extracted(span + rest) == preceded(field, extracted(rest)),
{
    let whole = span + rest;
    assert(whole[0] == span[0]);
    assert(whole.skip(1) == span.skip(1) + rest);
    match span[0].token {
        TokenModel::Empty(element) => {
            assert(span.skip(1) + rest == rest);
        },
        TokenModel::Open(element) => {
            let start = with_attributes(blank(), element.attributes)->Ok_0;
            lemma_field_is_local(start, span.skip(1), rest);
            assert((span.skip(1) + rest).skip(span.len() - 1) == rest);
        },
        _ => {},
    }
}

/// The fields of a document are those of its field elements, in the order in
/// which the elements stand, whatever surrounds them.
///
/// Where field elements that yield `fields` stand among wrapping, the
/// extraction yields `fields` in front of what the rest of the document
/// yields, and fails as the rest does.
pub proof fn fields_come_in_document_order(
    wrapping: Seq<Seq<Item>>,
    spans: Seq<Seq<Item>>,
    fields: Seq<FieldModel>,
    rest: Seq<Item>,
)
    requires
        is_layout(wrapping, spans, fields),
    ensures
        extracted(interleaved(wrapping, spans) + rest) == continued(fields, extracted(rest)),
    decreases spans.len(),
{
    if spans.len() == 0 {
        lemma_wrapping_is_passed_over(wrapping[0], rest);
        assert(fields == Seq::<FieldModel>::empty());
        if let Ok(more) = extracted(rest) {
            assert(fields + more == more);
        }
    } else {
        let later = interleaved(wrapping.skip(1), spans.skip(1));
        assert(interleaved(wrapping, spans) + rest == wrapping[0] + (spans[0] + (later + rest)));
        lemma_wrapping_is_passed_over(wrapping[0], spans[0] + (later + rest));
        lemma_field_comes_first(spans[0], fields[0], later + rest);
        assert forall|i: int| 0 <= i < spans.skip(1).len() implies holds_field(
            #[trigger] spans.skip(1)[i],
            fields.skip(1)[i],
        ) by {
            assert(spans.skip(1)[i] == spans[i + 1]);
        }
        assert forall|i: int| 0 <= i < wrapping.skip(1).len() implies is_wrapping(
            #[trigger] wrapping.skip(1)[i],
        ) by {
            assert(wrapping.skip(1)[i] == wrapping[i + 1]);
        }
        fields_come_in_document_order(wrapping.skip(1), spans.skip(1), fields.skip(1), rest);
        if let Ok(more) = extracted(rest) {
            assert(seq![fields[0]] + (fields.skip(1) + more) == fields + more);
        }
    }
}

/// A document that is made of field elements among wrapping, and then ends,
/// yields the fields of the elements, in their order.
pub proof fn whole_document_yields_its_fields(
    wrapping: Seq<Seq<Item>>,
    spans: Seq<Seq<Item>>,
    fields: Seq<FieldModel>,
    end: Item,
)
    requires
        is_layout(wrapping, spans, fields),
        end.token is End,
    ensures
        extracted(interleaved(wrapping, spans) + seq![end]) == Ok::<Seq<FieldModel>, ErrorModel>(
            fields,
        ),
{
    fields_come_in_document_order(wrapping, spans, fields, seq![end]);
    assert(fields + Seq::<FieldModel>::empty() == fields);
}

/// What surrounds the field elements of a document does not matter: the same
/// field elements in another wrapping give the same result.
pub proof fn wrapping_does_not_matter(
    one: Seq<Seq<Item>>,
    other: Seq<Seq<Item>>,
    spans: Seq<Seq<Item>>,
    fields: Seq<FieldModel>,
    rest: Seq<Item>,
)
    requires
        is_layout(one, spans, fields),
        is_layout(other, spans, fields),
    ensures
        extracted(interleaved(one, spans) + rest) == extracted(interleaved(other, spans) + rest),
{
    fields_come_in_document_order(one, spans, fields, rest);
    fields_come_in_document_order(other, spans, fields, rest);
}

/// Whether the field element that starts with `start` and goes on with the
/// items `after` fails with `error`.
pub open spec fn fails(start: Item, after: Seq<Item>, error: ErrorModel) -> bool {
    match start.token {
        TokenModel::Empty(element) => {
            &&& is_field(element.name)
            &&& with_attributes(blank(), element.attributes) == Err::<FieldModel, ErrorModel>(error)
        },
        TokenModel::Open(element) => {
            &&& is_field(element.name)
            &&& built(element, after) == Err::<Built, ErrorModel>(error)
        },
        _ => false,
    }
}

/// An extraction is all or nothing: where a field element fails, the
/// extraction fails in the same way, whatever fields stand in front of it.
pub proof fn failure_leaves_no_fields(
    wrapping: Seq<Seq<Item>>,
    spans: Seq<Seq<Item>>,
    fields: Seq<FieldModel>,
    start: Item,
    after: Seq<Item>,
    error: ErrorModel,
)
    requires
        is_layout(wrapping, spans, fields),
        fails(start, after, error),
    ensures
        extracted(interleaved(wrapping, spans) + (seq![start] + after)) == Err::<
            Seq<FieldModel>,
            ErrorModel,
        >(error),
{
    let rest = seq![start] + after;
    fields_come_in_document_order(wrapping, spans, fields, rest);
    assert(rest[0] == start);
    assert(rest.skip(1) == after);
}

} // verus!
