//! The core of a C+ compiler front end: the borrow checker, diagnostics, the formatter, and the
//! tools for documentation.
#![allow(unused_imports)]
use vstd::prelude::*;

pub mod text;
pub mod chars;
pub mod ordered;
pub mod table;
pub mod ast;
pub mod errors;
pub mod diagnostics;
pub mod lexer;
pub mod spelling;
pub mod cutting;
pub mod doctest;
pub mod fences;
pub mod docgen;
pub mod pages;
pub mod fmt;
pub mod stability;
pub mod layout;
pub mod positions;
pub mod place;
pub mod oracle;
pub mod holding;
pub mod elision;
pub mod sigs;
pub mod flow;
pub mod rounds;
pub mod addr;
pub mod messages;
pub mod walks;
pub mod infer;
pub mod borrows;
pub mod conflicts;
pub mod analyzer;
pub mod views;
pub mod escapes;
pub mod captures;
pub mod viewwalk;
pub mod borrowck;
pub mod parts;
pub mod carrying;
pub mod mentions;
pub mod results;
pub mod ownership;
pub mod reaching;
pub mod joining;
pub mod steps;
pub mod following;
pub mod tracing;
pub mod owners;
pub mod guarantees;
pub mod promises;

verus! {

} // verus!
