//! PyCN: Python written with Chinese keywords. The library lexes PyCN source, parses it
//! into a syntax tree and writes the tree out as Python source.
use vstd::prelude::*;

pub mod ast;
pub mod bootstrap;
pub mod chinese_to_digits;
pub mod emit;
pub mod grammar;
pub mod imports;
pub mod lexer;
pub mod parser;
pub mod scan;
pub mod text;
pub mod token;

use crate::emit::{ast_to_python, render};
use crate::grammar::program_of;
use crate::lexer::{lex, lex_spec};
use crate::parser::{parse, try_parse};
use crate::token::{Token, LexKind, TokView, lex_kind, toks_view};

verus! {

/// Whether the tokens hold a Chinese numeral left unconverted (one outside the range in which
/// the converter is known to work).
pub open spec fn has_raw_numeral(toks: Seq<TokView>) -> bool {
    exists|j: int| 0 <= j < toks.len() && #[trigger] toks[j].0 == LexKind::Plain(Token::ChineseNumber)
}

/// Translates PyCN source to Python source: the tokens of `code`, parsed into a program and
/// written out without indentation at the top level.
///
/// The token count must fit in a `usize`, every Chinese numeral in `code` must be one that
/// the converter handles (else its text would be lost in the translation), and the program
/// must be one that the parser finishes on (on some inputs the parser makes no progress and
/// never returns).
pub fn parse_pycn(code: &str) -> (s: String)
    requires
        code@.len() < usize::MAX,
        lex_spec(code@).len() < usize::MAX,
        !has_raw_numeral(lex_spec(code@)),
        program_of(lex_spec(code@)) is Some,
    ensures
        s@ == render(program_of(lex_spec(code@)).unwrap(), 0),
{
    let tokens = lex(code);
    let ast = parse(tokens.as_slice());
    ast_to_python(&ast, 0)
}

/// Whether a token is a Chinese numeral left unconverted.
fn is_raw_numeral(t: &(Token, String)) -> (b: bool)
    ensures
        b == (lex_kind(t.0) == LexKind::Plain(Token::ChineseNumber)),
{
    match t.0 {
        Token::ChineseNumber => true,
        _ => false,
    }
}

/// `parse_pycn` where it is defined: `None` when the token count does not fit in a `usize`,
/// when a Chinese numeral is outside the range the converter handles, or when the parser
/// would not finish on the program.
pub fn try_parse_pycn(code: &str) -> (r: Option<String>)
    requires
        code@.len() < usize::MAX,
    ensures
        match r {
            Some(s) => lex_spec(code@).len() < usize::MAX && !has_raw_numeral(lex_spec(code@)) && program_of(
                lex_spec(code@),
            ) is Some && s@ == render(program_of(lex_spec(code@)).unwrap(), 0),
            None => lex_spec(code@).len() >= usize::MAX || has_raw_numeral(lex_spec(code@)) || program_of(
                lex_spec(code@),
            ) is None,
        },
{
    let tokens = lex(code);
    if tokens.len() == usize::MAX {
        return None;
    }
    let mut i: usize = 0;
    while i < tokens.len()
        invariant
            i <= tokens@.len(),
            toks_view(tokens@) == lex_spec(code@),
            forall|j: int| 0 <= j < i ==> #[trigger] toks_view(tokens@)[j].0 != LexKind::Plain(Token::ChineseNumber),
        decreases tokens@.len() - i,
    {
        if is_raw_numeral(&tokens[i]) {
            assert(toks_view(tokens@)[i as int].0 == lex_kind(tokens@[i as int].0));
            return None;
        }
        assert(toks_view(tokens@)[i as int].0 == lex_kind(tokens@[i as int].0));
        i += 1;
    }
    match try_parse(tokens.as_slice()) {
        Some(_) => Some(parse_pycn(code)),
        None => None,
    }
}

} // verus!
