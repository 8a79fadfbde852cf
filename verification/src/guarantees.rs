//! What holds of every extraction, proved from the definitions in
//! [`crate::grammar`].
//!
//! A document is taken as the sequence of its lexical items. The statements
//! speak of [`crate::grammar::extracted`], which is what
//! [`crate::XmppPubSubParser::parse_fields`] returns, and of the functions it
//! is made of.

pub mod attributes;
pub mod documents;
pub mod truncation;
pub mod values;
