//! Extraction of data-form fields from publish/subscribe documents.
//!
//! A document is read once, front to back. Every `field` element found on the
//! way, at whatever depth, becomes one [`Field`]; everything else is passed
//! over. The result is either the complete list of fields in document order,
//! or a single [`Error`].
//!
//! ```text
//! let fields = XmppPubSubParser::from_str(document).parse_fields()?;
//! ```
//!
//! # How the crate is laid out
//!
//! - [`lexer`] holds the lexical items of a document and the reader that
//!   yields them. The reading is done by `quick_xml`; what is assumed of it
//!   is written down there, operation by operation, and nowhere else.
//! - [`grammar`] says which fields a sequence of lexical items holds. It is
//!   mathematics only.
//! - [`elements`] and [`parser`] hold the code that reads a document. It is
//!   proved to return what [`grammar`] says, to end, and not to panic.
//! - [`guarantees`] holds what follows for every document: that fields and
//!   values come in document order, that wrapping does not matter, that an
//!   extraction is all or nothing, and how it fails.
//! - [`selection`] picks fields out of an extraction by their keys.
//! - [`bytes`] compares texts and byte strings.

pub mod bytes;
pub mod elements;
pub mod errors;
pub mod grammar;
pub mod guarantees;
pub mod lexer;
pub mod parser;
pub mod selection;

pub use elements::field::Field;
pub use elements::field::FieldType;
pub use elements::field::MediaElement;
pub use elements::field::Option_;
pub use elements::field::URI;
pub use errors::Error;
pub use parser::XmppPubSubParser;
