//! The front end of a small browser engine: URL decomposition, HTTP response
//! parsing, the decisions of a minimal HTTP client and an HTML tokenizer.
//! Every function is stated over sequences of characters and proved against
//! that statement.

pub mod client;
pub mod error;
pub mod http;
pub mod renderer;
pub mod response_text;
pub mod text;
pub mod url;
