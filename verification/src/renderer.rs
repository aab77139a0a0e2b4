//! Turning a document into what is drawn. So far: the lexical analysis of HTML.

pub mod html;
