//! Documents that end inside a field.

use crate::elements::field::FieldModel;
use crate::errors::ErrorModel;
use crate::grammar::blank;
use crate::grammar::Built;
use crate::grammar::extracted;
use crate::grammar::is_field;
use crate::grammar::lemma_closing_in_range;
use crate::grammar::lemma_used_in_range;
use crate::grammar::with_attributes;
use crate::grammar::with_children;
use crate::guarantees::documents::failure_leaves_no_fields;
use crate::guarantees::documents::holds_field;
use crate::guarantees::documents::interleaved;
use crate::guarantees::documents::is_layout;
use crate::lexer::Closing;
use crate::lexer::closing;
use crate::lexer::Item;
use crate::lexer::text_read;
use crate::lexer::TokenModel;
use crate::lexer::unescaped;
use vstd::prelude::*;

verus! {

/// Whether a document ends with these items: the first of them is the end
/// of the input, or the point at which the input stops inside markup.
pub open spec fn is_ending(items: Seq<Item>) -> bool {
    items.len() > 0 && (items[0].token is End || items[0].token is Truncated)
}

/// Where the end tag of an element is found depends only on the items up to
/// and including that tag.
pub proof fn lemma_closing_reads_a_prefix(
    items: Seq<Item>,
    other: Seq<Item>,
    name: Seq<u8>,
    depth: nat,
)
    requires
        closing(items, name, depth) matches Closing::At(index) && index < other.len()
            && other.take(index as int + 1) == items.take(index as int + 1),
    ensures
        closing(other, name, depth) == closing(items, name, depth),
    decreases items.len(),
{
    lemma_closing_in_range(items, name, depth);
    let index = closing(items, name, depth)->At_0 as int;
    assert(other[0] == other.take(index + 1)[0]);
    assert(items[0] == items.take(index + 1)[0]);
    let rest = items.skip(1);
    let inner: nat = match items[0].token {
        TokenModel::Open(element) => if element.name == name {
            depth + 1
        } else {
            depth
        },
        TokenModel::Close(found) => if found == name {
            (depth - 1) as nat
        } else {
            depth
        },
        _ => depth,
    };
    if index > 0 {
        assert(closing(rest, name, inner) == Closing::At((index - 1) as nat));
        assert(other.skip(1).take(index) == other.take(index + 1).skip(1));
        assert(rest.take(index) == items.take(index + 1).skip(1));
        lemma_closing_reads_a_prefix(rest, other.skip(1), name, inner);
    }
}

/// An element is not closed in a document that ends before its end tag.
pub proof fn lemma_cut_before_closing(
    items: Seq<Item>,
    name: Seq<u8>,
    depth: nat,
    cut: int,
    ending: Seq<Item>,
)
    requires
        closing(items, name, depth) matches Closing::At(index) && 0 <= cut <= index,
        is_ending(ending),
    ensures
        closing(items.take(cut) + ending, name, depth) == Closing::Ended,
    decreases cut,
{
    lemma_closing_in_range(items, name, depth);
    let whole = items.take(cut) + ending;
    if cut == 0 {
        assert(whole[0] == ending[0]);
    } else {
        assert(whole[0] == items[0]);
        assert(whole.skip(1) == items.skip(1).take(cut - 1) + ending);
        let rest = items.skip(1);
        let inner: nat = match items[0].token {
            TokenModel::Open(element) => if element.name == name {
                depth + 1
            } else {
                depth
            },
            TokenModel::Close(found) => if found == name {
                (depth - 1) as nat
            } else {
                depth
            },
            _ => depth,
        };
        lemma_cut_before_closing(rest, name, inner, cut - 1, ending);
    }
}

/// A field is not built from a document that ends before its end tag: the
/// attempt fails with `UnexpectedEndOfDocument`.
pub proof fn lemma_cut_before_end_tag(
    field: FieldModel,
    items: Seq<Item>,
    cut: int,
    ending: Seq<Item>,
)
    requires
        with_children(field, items) matches Ok(built) && 0 <= cut < built.used,
        is_ending(ending),
    ensures
        with_children(field, items.take(cut) + ending) == Err::<Built, ErrorModel>(
            ErrorModel::UnexpectedEndOfDocument,
        ),
    decreases items.len(),
{
    lemma_used_in_range(field, items);
    let whole = items.take(cut) + ending;
    if cut == 0 {
        assert(whole[0] == ending[0]);
    } else {
        assert(whole[0] == items[0]);
        assert(whole.skip(1) == items.skip(1).take(cut - 1) + ending);
        let rest = items.skip(1);
        match items[0].token {
            TokenModel::Other => lemma_cut_before_end_tag(field, rest, cut - 1, ending),
            TokenModel::Close(name) => {
                if !is_field(name) {
                    lemma_cut_before_end_tag(field, rest, cut - 1, ending);
                }
            },
            TokenModel::Empty(element) => {
                lemma_cut_before_end_tag(field.with_value(Seq::empty()), rest, cut - 1, ending);
            },
            TokenModel::Open(element) => {
                let name = element.name;
                lemma_closing_in_range(rest, name, 0);
                let (raw, used) = text_read(rest, name)->Ok_0;
                let text = unescaped(raw)->Some_0;
                if cut - 1 < used {
                    lemma_cut_before_closing(rest, name, 0, cut - 1, ending);
                } else {
                    let shorter = rest.take(cut - 1) + ending;
                    assert(shorter.take(used as int) == rest.take(used as int));
                    lemma_closing_reads_a_prefix(rest, shorter, name, 0);
                    assert(shorter.take(used - 1) == rest.take(used - 1));
                    assert(shorter.skip(used as int) == rest.skip(used as int).take(
                        cut - 1 - used,
                    ) + ending);
                    lemma_cut_before_end_tag(
                        field.with_value(text),
                        rest.skip(used as int),
                        cut - 1 - used,
                        ending,
                    );
                }
            },
            _ => {},
        }
    }
}

/// A document that ends inside a field, before the end tag of the field,
/// fails with `UnexpectedEndOfDocument`, and no field is returned, not even
/// those that stand complete in front of it.
///
/// `span` is a whole field element; the document holds the first `cut` of
/// its items, at least the start tag and not yet the end tag, and then ends.
pub proof fn truncated_field_fails_the_extraction(
    wrapping: Seq<Seq<Item>>,
    spans: Seq<Seq<Item>>,
    fields: Seq<FieldModel>,
    span: Seq<Item>,
    field: FieldModel,
    cut: int,
    ending: Seq<Item>,
)
    requires
        is_layout(wrapping, spans, fields),
        holds_field(span, field),
        0 < cut < span.len(),
        is_ending(ending),
    ensures
        extracted(interleaved(wrapping, spans) + (span.take(cut) + ending)) == Err::<
            Seq<FieldModel>,
            ErrorModel,
        >(ErrorModel::UnexpectedEndOfDocument),
{
    let element = span[0].token->Open_0;
    let start = with_attributes(blank(), element.attributes)->Ok_0;
    let after = span.skip(1).take(cut - 1) + ending;
    lemma_cut_before_end_tag(start, span.skip(1), cut - 1, ending);
    assert(span.take(cut) + ending == seq![span[0]] + after);
    failure_leaves_no_fields(
        wrapping,
        spans,
        fields,
        span[0],
        after,
        ErrorModel::UnexpectedEndOfDocument,
    );
}

} // verus!
