//! Conversion of identifiers and phrases between naming conventions.
//!
//! A text is cut into words where its characters change from letters and
//! numbers to anything else, and where the case of its letters changes. The
//! words are then written anew, each through a formatter, with a delimiter
//! between them.

pub mod acronyms;
pub mod chars;
pub mod laws;
pub mod offsets;
pub mod recipes;
pub mod rereading;
pub mod transform;
pub mod words;

pub use recipes::{
    to_camel, to_kebab, to_lower, to_pascal, to_screaming_kebab, to_screaming_snake, to_snake,
    to_title, to_train, to_upper,
};
