//! The elements of a data form.

pub mod field;
