//! The parser that walks a document and collects its fields.

use crate::elements::field::Field;
use crate::elements::field::FieldModel;
use crate::elements::field::names_field;
use crate::errors::Error;
use crate::errors::ErrorModel;
use crate::grammar::blank;
use crate::grammar::continued;
use crate::grammar::extracted;
use crate::grammar::lemma_used_in_range;
use crate::grammar::with_attributes;
use crate::lexer::ahead;
use crate::lexer::Item;
use crate::lexer::lexed;
use crate::lexer::next_token;
use crate::lexer::reader_over;
use crate::lexer::Token;
use crate::lexer::used_up;
use quick_xml::reader::Reader;
use vstd::prelude::*;

verus! {

/// A parser for publish/subscribe documents that looks for fields only.
///
/// It reads its document once, front to back, and keeps nothing of it but
/// the fields it hands out.
#[verifier::reject_recursive_types(R)]
pub struct XmppPubSubParser<R> {
    /// The reader that splits the document into lexical items.
    reader: Reader<R>,
}

/// The models of a list of fields.
pub open spec fn models(fields: Seq<Field>) -> Seq<FieldModel> {
    fields.map_values(|field: Field| field@)
}

/// What the result of an extraction holds: the models of the fields, or of
/// the error.
pub open spec fn harvest(result: Result<Vec<Field>, Error>) -> Result<Seq<FieldModel>, ErrorModel> {
    match result {
        Ok(fields) => Ok(models(fields@)),
        Err(error) => Err(error@),
    }
}

impl<R> XmppPubSubParser<R> {
    /// The reader that the parser reads from.
    pub closed spec fn source(self) -> Reader<R> {
        self.reader
    }

    /// A parser that reads from `reader`, from where the reader stands.
    pub fn from_reader(reader: Reader<R>) -> (parser: Self)
        ensures
            parser.source() == reader,
    {
        Self { reader }
    }
}

impl<'a> XmppPubSubParser<&'a [u8]> {
    /// The lexical items that the parser has yet to read.
    pub open spec fn pending(self) -> Seq<Item> {
        ahead(self.source())
    }

    /// A parser at the start of the document `slice`.
    pub fn from_str(slice: &'a str) -> (parser: Self)
        ensures
            parser.pending() == lexed(slice@),
    {
        Self::from_reader(reader_over(slice))
    }

    /// Extracts the fields of the document.
    ///
    /// The items that the parser has yet to read are gone through once. An
    /// element called `field` becomes a [`Field`], whatever surrounds it;
    /// nothing else is looked at. The fields come in the order in which they
    /// are opened. The first failure ends the extraction, and then no field
    /// is returned at all.
    ///
    /// After a successful extraction the parser has reached the end of its
    /// document: a further extraction yields no fields. After a failure
    /// nothing is promised of the parser; to try again, make a new one.
    pub fn parse_fields(&mut self) -> (result: Result<Vec<Field>, Error>)
        ensures
            harvest(result) == extracted(old(self).pending()),
            result is Ok ==> used_up(final(self).pending()),
    {
        let mut fields: Vec<Field> = Vec::new();
        proof {
            assert(models(fields@) + extracted(self.pending())->Ok_0 == extracted(
                self.pending(),
            )->Ok_0);
        }
        loop
            invariant
                extracted(old(self).pending()) == continued(
                    models(fields@),
                    extracted(self.pending()),
                ),
            decreases self.pending().len(),
        {
            let ghost items = self.pending();
            let ghost found = models(fields@);
            let token = next_token(&mut self.reader);
            match token {
                Token::End => {
                    proof {
                        assert(found + Seq::<FieldModel>::empty() == found);
                    }
                    return Ok(fields);
                },
                Token::Truncated | Token::Malformed => {
                    return Err(Error::MalformedDocument);
                },
                Token::Open(element) => {
                    if names_field(element.name.as_slice()) {
                        match Field::from_element(&element, &mut self.reader) {
                            Ok(field) => {
                                proof {
                                    lemma_used_in_range(
                                        with_attributes(blank(), element@.attributes)->Ok_0,
                                        items.skip(1),
                                    );
                                    let rest = extracted(self.pending());
                                    if let Ok(more) = rest {
                                        assert(found.push(field@) + more == found + (seq![field@]
                                            + more));
                                    }
                                }
                                fields.push(field);
                                proof {
                                    assert(models(fields@) == found.push(field@));
                                }
                            },
                            Err(error) => {
                                return Err(error);
                            },
                        }
                    }
                },
                Token::Empty(element) => {
                    if names_field(element.name.as_slice()) {
                        match Field::from_attributes(&element, &self.reader) {
                            Ok(field) => {
                                proof {
                                    let rest = extracted(self.pending());
                                    if let Ok(more) = rest {
                                        assert(found.push(field@) + more == found + (seq![field@]
                                            + more));
                                    }
                                }
                                fields.push(field);
                                proof {
                                    assert(models(fields@) == found.push(field@));
                                }
                            },
                            Err(error) => {
                                return Err(error);
                            },
                        }
                    }
                },
                Token::Close(_) | Token::Other => {},
            }
        }
    }
}

} // verus!
