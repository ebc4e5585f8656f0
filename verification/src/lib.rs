//! Six — a microscopic general-purpose programming language: its lexer,
//! parser and the decisions around them.

pub mod error;
pub mod token;
pub mod chars;
pub mod lexer;
pub mod ast;
pub mod grammar;
pub mod parser;
pub mod repl;
pub mod host;
pub mod builtins;
pub mod scope;
pub mod text;

use vstd::prelude::*;

use crate::ast::Stmt;
use crate::error::SixError;
use crate::ast::SStmt;
use crate::error::ErrView;
use crate::ast::BinOp;
use crate::chars::spec_is_alphabetic;
use crate::lexer::{
    is_blank, is_digit, law_lex_errors_name_a_line, law_lex_shape, lex, lex_spec, token_at,
};
use crate::grammar::{
    law_bindings_record_immutability, law_parse_errors_name_a_line, marked_stmts, parse_spec,
    program_view, tier_op,
};

verus! {

/// The program (or the error) that the text `cs` reads as: lexing errors
/// come first, then parsing errors.
pub open spec fn program_of(cs: Seq<char>) -> Result<Seq<SStmt>, ErrView> {
    match lex_spec(cs) {
        Ok(ts) => parse_spec(ts),
        Err(e) => Err(e),
    }
}

/// Parse `source` into a program (a list of statements): lexing errors come
/// first, then parsing errors.
pub fn parse(source: &str) -> (r: Result<Vec<Stmt>, SixError>)
    requires
        source@.len() < usize::MAX,
    ensures
        program_view(r) == program_of(source@),
{
    let tokens = match lex(source) {
        Ok(t) => t,
        Err(e) => return Err(e),
    };
    proof {
        law_lex_shape(source@);
        assert(tokens@.last().tok@ is Eof);
    }
    parser::parse(tokens)
}

/// Every error that reading a program reports, in lexing or in parsing, names
/// the source line it was found on.
pub proof fn law_errors_name_a_line(cs: Seq<char>)
    ensures
        program_of(cs) matches Err(e) ==> e.1 is Some,
{
    law_lex_errors_name_a_line(cs);
    if let Ok(ts) = lex_spec(cs) {
        law_parse_errors_name_a_line(ts);
    }
}

/// In every program read from text, each binding and function declaration
/// records as its immutability whether its name's first alphabetic character
/// is uppercase.
pub proof fn law_programs_record_immutability(cs: Seq<char>)
    ensures
        program_of(cs) matches Ok(ss) ==> marked_stmts(ss),
{
    if let Ok(ts) = lex_spec(cs) {
        law_bindings_record_immutability(ts);
    }
}

/// How each binary operator is written in source text.
pub open spec fn op_text(op: BinOp) -> Seq<char> {
    match op {
        BinOp::Add => seq!['+'],
        BinOp::Sub => seq!['-'],
        BinOp::Mul => seq!['*'],
        BinOp::Div => seq!['/'],
        BinOp::Mod => seq!['%'],
        BinOp::Eq => seq!['=', '='],
        BinOp::Ne => seq!['!', '='],
        BinOp::Lt => seq!['<'],
        BinOp::Gt => seq!['>'],
        BinOp::Le => seq!['<', '='],
        BinOp::Ge => seq!['>', '='],
        BinOp::And => seq!['&', '&'],
        BinOp::Or => seq!['|', '|'],
    }
}

/// Operators read back as themselves: wherever a binary operator's written
/// form stands in the text (its first character being no letter), followed by
/// the end of the text, a blank or a digit, the lexer reads exactly those
/// characters as one token, and one of the parser's operator tiers takes that
/// token for the very same operator. So `<` is less-than and `>` greater-than,
/// `!=` is not-equal and never equality, and likewise for every operator.
pub proof fn law_operators_read_back(op: BinOp, cs: Seq<char>, p: int)
    requires
        0 <= p,
        p + op_text(op).len() <= cs.len(),
        cs.subrange(p, p + op_text(op).len()) == op_text(op),
        p + op_text(op).len() == cs.len() || is_blank(cs[p + op_text(op).len()]) || is_digit(
            cs[p + op_text(op).len()],
        ),
        !spec_is_alphabetic(cs[p]),
    ensures
        token_at(cs, p) matches Ok((k, e)) && e == p + op_text(op).len() && exists|tier: int|
            0 <= tier <= 5 && #[trigger] tier_op(tier, k) == Some(op),
{
    let t = op_text(op);
    let n = t.len() as int;
    assert(cs[p] == t[0]) by {
        assert(cs.subrange(p, p + n)[0] == cs[p]);
    }
    if n == 2 {
        assert(cs[p + 1] == t[1]) by {
            assert(cs.subrange(p, p + n)[1] == cs[p + 1]);
        }
    }
    let tier: int = match op {
        BinOp::Or => 0,
        BinOp::And => 1,
        BinOp::Eq | BinOp::Ne => 2,
        BinOp::Lt | BinOp::Gt | BinOp::Le | BinOp::Ge => 3,
        BinOp::Add | BinOp::Sub => 4,
        _ => 5,
    };
    if let Ok((k, e)) = token_at(cs, p) {
        assert(tier_op(tier, k) == Some(op));
    }
}

} // verus!
