//! Front end of a small scripting-language interpreter: a scanner that turns
//! raw source bytes into classified tokens, an expression syntax tree over
//! those tokens, and a recursive-descent parser that assembles one expression
//! from the token stream.

pub mod expr;
pub mod parser;
pub mod scanner;
pub mod token;

use vstd::prelude::*;

use crate::scanner::{diags_view, spec_scan, tokens_view, Diagnostic, Scanner};
use crate::token::Token;

verus! {

/// Scans one source buffer: the tokens it holds, in order and closed by the
/// end-of-input token, together with the diagnostics for its lexical errors.
pub fn run(source: Vec<u8>) -> (r: (Vec<Token>, Vec<Diagnostic>))
    requires
        source@.len() < usize::MAX,
    ensures
        tokens_view(r.0@) == spec_scan(source@, 0, 1).tokens,
        diags_view(r.1@) == spec_scan(source@, 0, 1).diags,
{
    let scanner = Scanner::new(source);
    scanner.scan()
}

} // verus!
