//! Syntax and search highlighting for JSON text shown line by line: a
//! tokenizer that classifies each character of a line, themes that colour the
//! classes, a pattern matcher with case and whole-word rules, a mapper from text
//! positions to (line, column), and a compositor that lays search matches over
//! the syntax colours. Also the request-side values of the HTTP client around
//! it: query parameters, form fields and the URL they make.

use vstd::prelude::*;

pub mod compose;
pub mod http;
pub mod offsets;
pub mod request;
pub mod results;
pub mod search;
pub mod session;
pub mod text;
pub mod theme;
pub mod tokenizer;

verus! {

} // verus!
