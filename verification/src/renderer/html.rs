//! HTML: attributes, tokens and the tokenizer.

pub mod attribute;
pub mod token;
