//! The lexical items of a document, and the reader that yields them.
//!
//! Splitting a document into items is the work of `quick_xml`. This module
//! holds everything that is taken on trust about it: what a reader still has
//! to yield is given a name, [`ahead`], and the few operations used on a
//! reader are described over that name.

use crate::bytes::text_of;
use quick_xml::Error::UnexpectedEof;
use quick_xml::events::attributes::Attribute;
use quick_xml::events::BytesStart;
use quick_xml::events::Event;
use quick_xml::name::QName;
use quick_xml::reader::Reader;
use vstd::prelude::*;
use vstd::utf8::*;

verus! {

/// One attribute as it stands in a tag: its key and its value, the value
/// still escaped.
#[derive(Debug, Clone, PartialEq, Eq)]
pub struct RawAttribute {
    pub key: Vec<u8>,
    pub value: Vec<u8>,
}

/// The tag that opens an element: its qualified name and its attributes in
/// the order written. An attribute that is not well-formed (or repeats a key)
/// is `None`.
#[derive(Debug, Clone, PartialEq, Eq)]
pub struct Element {
    pub name: Vec<u8>,
    pub attributes: Vec<Option<RawAttribute>>,
}

/// What one read of a document yields.
#[derive(Debug, Clone, PartialEq, Eq)]
pub enum Token {
    /// A start tag, `<name ...>`.
    Open(Element),
    /// A self-closing tag, `<name .../>`.
    Empty(Element),
    /// An end tag, `</name>`, with its qualified name.
    Close(Vec<u8>),
    /// Text, a comment, a CDATA section, a declaration, a processing
    /// instruction or a document type.
    Other,
    /// The input is used up.
    End,
    /// The input stops in the middle of a piece of markup.
    Truncated,
    /// The input is not well-formed here.
    Malformed,
}

/// The mathematical content of a [`RawAttribute`].
pub struct AttributeModel {
    pub key: Seq<u8>,
    pub value: Seq<u8>,
}

/// The mathematical content of an [`Element`].
pub struct ElementModel {
    pub name: Seq<u8>,
    pub attributes: Seq<Option<AttributeModel>>,
}

/// The mathematical content of a [`Token`].
pub enum TokenModel {
    Open(ElementModel),
    Empty(ElementModel),
    Close(Seq<u8>),
    Other,
    End,
    Truncated,
    Malformed,
}

impl RawAttribute {
    /// An attribute of the given key and value.
    pub fn new(key: Vec<u8>, value: Vec<u8>) -> (attribute: RawAttribute)
        ensures
            attribute.key == key,
            attribute.value == value,
    {
        RawAttribute { key, value }
    }
}

impl Element {
    /// An element of the given name and attributes.
    pub fn new(name: Vec<u8>, attributes: Vec<Option<RawAttribute>>) -> (element: Element)
        ensures
            element.name == name,
            element.attributes == attributes,
    {
        Element { name, attributes }
    }
}

impl View for RawAttribute {
    type V = AttributeModel;

    open spec fn view(&self) -> AttributeModel {
        AttributeModel { key: self.key@, value: self.value@ }
    }
}

/// The models of a list of attribute slots.
pub open spec fn slots(attributes: Seq<Option<RawAttribute>>) -> Seq<Option<AttributeModel>> {
    attributes.map_values(
        |slot: Option<RawAttribute>|
            match slot {
                Some(attribute) => Some(attribute@),
                None => None,
            },
    )
}

impl View for Element {
    type V = ElementModel;

    open spec fn view(&self) -> ElementModel {
        ElementModel { name: self.name@, attributes: slots(self.attributes@) }
    }
}

impl View for Token {
    type V = TokenModel;

    open spec fn view(&self) -> TokenModel {
        match self {
            Token::Open(element) => TokenModel::Open(element@),
            Token::Empty(element) => TokenModel::Empty(element@),
            Token::Close(name) => TokenModel::Close(name@),
            Token::Other => TokenModel::Other,
            Token::End => TokenModel::End,
            Token::Truncated => TokenModel::Truncated,
            Token::Malformed => TokenModel::Malformed,
        }
    }
}

impl TokenModel {
    /// Whether nothing is read after this token.
    pub open spec fn is_last(self) -> bool {
        self is End || self is Truncated || self is Malformed
    }
}

/// Whether these items are those of a reader that has reached the end of its
/// input.
pub open spec fn used_up(items: Seq<Item>) -> bool {
    items.len() == 1 && items[0].token is End
}

/// A token together with the stretch of input it was read from: the bytes
/// between the reader's position before the read and its position after.
pub struct Item {
    pub token: TokenModel,
    pub source: Seq<u8>,
}

/// The input that a run of items was read from.
pub open spec fn joined(items: Seq<Item>) -> Seq<u8>
    decreases items.len(),
{
    if items.len() == 0 {
        Seq::empty()
    } else {
        items[0].source + joined(items.skip(1))
    }
}

/// Where the end tag that closes an element stands among the items that
/// follow its start tag.
pub enum Closing {
    /// At this index.
    At(nat),
    /// Nowhere: the input ends first.
    Ended,
    /// Nowhere: the input is not well-formed before it.
    Broken,
}

impl Closing {
    /// The same place, seen from one item earlier.
    pub open spec fn later(self) -> Closing {
        match self {
            Closing::At(index) => Closing::At(index + 1),
            other => other,
        }
    }
}

/// Looks through `items` for the end tag called `name` that closes an element
/// of which `depth` more of the same name are open around the reader. Start
/// and end tags of other names do not count, nor do self-closing tags.
pub open spec fn closing(items: Seq<Item>, name: Seq<u8>, depth: nat) -> Closing
    decreases items.len(),
{
    if items.len() == 0 {
        Closing::Ended
    } else {
        let rest = items.skip(1);
        match items[0].token {
            TokenModel::End | TokenModel::Truncated => Closing::Ended,
            TokenModel::Malformed => Closing::Broken,
            TokenModel::Open(element) => closing(
                rest,
                name,
                if element.name == name {
                    depth + 1
                } else {
                    depth
                },
            ).later(),
            TokenModel::Close(found) => if found != name {
                closing(rest, name, depth).later()
            } else if depth == 0 {
                Closing::At(0)
            } else {
                closing(rest, name, (depth - 1) as nat).later()
            },
            _ => closing(rest, name, depth).later(),
        }
    }
}

/// Why the text of an element could not be read.
#[derive(Debug, Clone, Copy, PartialEq, Eq)]
pub enum Shortfall {
    /// The input ended before the element was closed.
    Ended,
    /// The input is not well-formed, or the text is not UTF-8.
    Broken,
}

/// `quick_xml::reader::Reader`. Nothing is known of a reader but what the
/// functions below say of it.
#[verifier::external_type_specification]
#[verifier::external_body]
#[verifier::reject_recursive_types(R)]
pub struct ExReader<R>(Reader<R>);

/// The items that `reader` has yet to yield, in order, up to and including
/// the first one after which nothing is read.
pub uninterp spec fn ahead(reader: Reader<&[u8]>) -> Seq<Item>;

/// Whether `reader` stands right behind a start tag, that is, whether the
/// last item read from it was a [`TokenModel::Open`].
pub uninterp spec fn opened(reader: Reader<&[u8]>) -> bool;

/// The items of a whole document.
pub uninterp spec fn lexed(document: Seq<char>) -> Seq<Item>;

/// `Reader::from_str`: a reader at the start of `document`. All that is
/// claimed is that what it will yield depends on the text alone.
#[verifier::external_body]
pub(crate) fn reader_over<'a>(document: &'a str) -> (reader: Reader<&'a [u8]>)
    ensures
        ahead(reader) == lexed(document@),
{
    Reader::from_str(document)
}

/// `Reader::read_event`, with the event copied into a [`Token`].
///
/// Claimed: the token is the first of the items ahead, of which there is
/// always one. Unless it is a last one, the reader then has the remaining
/// items ahead; after a last one it yields nothing but the end of the input,
/// however often it is read. Behind a start tag the reader is `opened`.
/// `Error::UnexpectedEof` is reported as [`Token::Truncated`], every other
/// error as [`Token::Malformed`].
#[verifier::external_body]
pub(crate) fn next_token(reader: &mut Reader<&[u8]>) -> (token: Token)
    ensures
        ahead(*old(reader)).len() > 0,
        token@ == ahead(*old(reader))[0].token,
        !token@.is_last() ==> ahead(*final(reader)) == ahead(*old(reader)).skip(1),
        token@.is_last() ==> used_up(ahead(*final(reader))),
        token is Open ==> opened(*final(reader)),
{
    let element = |e: BytesStart| Element::new(e.name().0.to_vec(), e.attributes().map(|a| {
        a.ok().map(|a| RawAttribute::new(a.key.0.to_vec(), a.value.into_owned()))
    }).collect());
    match reader.read_event() {
        Ok(Event::Start(e)) => Token::Open(element(e)),
        Ok(Event::Empty(e)) => Token::Empty(element(e)),
        Ok(Event::End(e)) => Token::Close(e.name().0.to_vec()),
        Ok(Event::Eof) => Token::End,
        Ok(_) => Token::Other,
        Err(UnexpectedEof(_)) => Token::Truncated,
        Err(_) => Token::Malformed,
    }
}

/// What reading the text of an element gives, by where its end tag stands
/// among `items` and by the input in front of that tag: the text and the
/// number of items read, the end tag among them.
pub open spec fn text_read(items: Seq<Item>, name: Seq<u8>) -> Result<(Seq<char>, nat), Shortfall> {
    match closing(items, name, 0) {
        Closing::At(index) => {
            let source = joined(items.take(index as int));
            if valid_utf8(source) {
                Ok((decode_utf8(source), index + 1))
            } else {
                Err(Shortfall::Broken)
            }
        },
        Closing::Ended => Err(Shortfall::Ended),
        Closing::Broken => Err(Shortfall::Broken),
    }
}

/// `Reader::read_text`, for a reader that stands right behind the start tag
/// of an element called `name`, which is where the function is meant to be
/// called.
///
/// Claimed: it reads on to the end tag that closes the element, counting
/// nested elements of the same name, and returns the input in between as it
/// stands, decoded as UTF-8; the reader then has ahead what follows the end
/// tag. It fails with `Error::UnexpectedEof`, reported as
/// [`Shortfall::Ended`], where the input ends first, and with another error,
/// reported as [`Shortfall::Broken`], where the input is not well-formed or
/// the text is not UTF-8.
#[verifier::external_body]
pub(crate) fn enclosed_text(reader: &mut Reader<&[u8]>, name: &[u8]) -> (text: Result<
    String,
    Shortfall,
>)
    requires
        opened(*old(reader)),
    ensures
        match text_read(ahead(*old(reader)), name@) {
            Ok((content, used)) => {
                &&& text matches Ok(found)
                &&& found@ == content
                &&& ahead(*final(reader)) == ahead(*old(reader)).skip(used as int)
            },
            Err(shortfall) => text == Err::<String, Shortfall>(shortfall),
        },
{
    match reader.read_text(QName(name)) {
        Ok(text) => Ok(text.into_owned()),
        Err(UnexpectedEof(_)) => Err(Shortfall::Ended),
        Err(_) => Err(Shortfall::Broken),
    }
}

/// The text that `text` stands for once its escapes, such as `&lt;` and
/// `&#60;`, are resolved; `None` where one of them cannot be resolved.
pub uninterp spec fn resolved(text: Seq<char>) -> Option<Seq<char>>;

/// The text that `text` stands for: a text without `&` holds no escapes and
/// stands for itself, any other for itself with its escapes resolved.
pub open spec fn unescaped(text: Seq<char>) -> Option<Seq<char>> {
    if text.contains('&') {
        resolved(text)
    } else {
        Some(text)
    }
}

/// The text that an attribute value stands for: the value decoded as UTF-8,
/// with its escapes resolved. `None` where the value is not UTF-8 or holds an
/// escape that cannot be resolved.
pub open spec fn value_of(value: Seq<u8>) -> Option<Seq<char>> {
    if valid_utf8(value) {
        unescaped(decode_utf8(value))
    } else {
        None
    }
}

/// `Attribute::decode_and_unescape_value`. The reader only supplies the
/// decoder, which is always the one for UTF-8.
///
/// Claimed: a value that is not UTF-8 is refused; one without `&` is
/// returned as it is; of any other, only that the result depends on nothing
/// but the value, and is what [`unescape`] gives for the decoded value.
#[verifier::external_body]
pub(crate) fn attribute_value(attribute: &RawAttribute, reader: &Reader<&[u8]>) -> (text: Option<
    String,
>)
    ensures
        text_of(text) == value_of(attribute.value@),
        valid_utf8(attribute.value@) && decode_utf8(attribute.value@).contains('&') ==> text_of(
            text,
        ) == resolved(decode_utf8(attribute.value@)),
{
    let attribute = Attribute::from((attribute.key.as_slice(), attribute.value.as_slice()));
    attribute.decode_and_unescape_value(reader).ok().map(|text| text.into_owned())
}

/// `quick_xml::escape::unescape`.
///
/// Claimed: a text without `&` is returned as it is; of any other, only that
/// the result depends on nothing but the text.
#[verifier::external_body]
pub(crate) fn unescape(text: &str) -> (plain: Option<String>)
    ensures
        text_of(plain) == unescaped(text@),
        text@.contains('&') ==> text_of(plain) == resolved(text@),
{
    quick_xml::escape::unescape(text).ok().map(|plain| plain.into_owned())
}

/// The text that bytes which are not UTF-8 are shown as: what can be decoded
/// of them, with a replacement character for each stretch that cannot.
pub uninterp spec fn patched(bytes: Seq<u8>) -> Seq<char>;

/// The text that bytes are shown as: what they encode, where they are UTF-8.
pub open spec fn shown(bytes: Seq<u8>) -> Seq<char> {
    if valid_utf8(bytes) {
        decode_utf8(bytes)
    } else {
        patched(bytes)
    }
}

/// `String::from_utf8_lossy`.
#[verifier::external_body]
pub(crate) fn show(bytes: &[u8]) -> (text: String)
    ensures
        text@ == shown(bytes@),
        !valid_utf8(bytes@) ==> text@ == patched(bytes@),
{
    String::from_utf8_lossy(bytes).into_owned()
}

} // verus!
