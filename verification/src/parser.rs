//! The Six parser: `Vec<Token>` to a `Vec<Stmt>` program.
//!
//! The canonical Six surface syntax:
//!
//! * **Calls are parenthesised**: `find(items name i)`, `out(output "")`. Arguments
//!   are separated by whitespace or newlines inside the parentheses; there is no
//!   bare `f x y` application. A bare name is the function value itself.
//! * **Declarations start with `:`**: `:name(params)` then a body terminated by
//!   `.`. A statement-initial `:` is a declaration; an infix `:` is a binding.
//! * **`>>`** is transformation flow (and the conditional arm separator). The
//!   flowing value becomes the first argument of the next call stage.
//! * **Postfix math**: `x~` `x~2` `x^` `x_` `x**` `x**y` `x//`, and the mutating
//!   `x++` / `x--`.
//! * Inside parentheses, newlines are insignificant, so an expression may
//!   continue onto the next line (including a leading `+`).
//!
//! Each parsing routine is proved to agree with its rule in the grammar
//! model (`crate::grammar`).

use std::rc::Rc;

use vstd::prelude::*;

use crate::ast::{
    Arg, Arm, BinOp, Expr, FuncDef, PostOp, SArg, SExpr, SStmt, Stmt, UnOp, arg_view, arm_view,
    args_view, arms_view, copy_expr, expr_view, exprs_view, lemma_args_view, names_view,
    stmt_view, stmts_view,
};
use crate::chars::{ascii, chars_of, is_alphabetic, is_uppercase, push_char, string_of, text};
use crate::error::{ErrView, SixError};
use crate::grammar::{
    adv, arm_header, ascii_immutable_from, cond_head, describe, drop_leading_zeros,
    drop_trailing_zeros, expected_err, flow, header_scan, ident_err, immutable_from, immutable_name,
    insig, ln, lvalue, number_display,
    parse_spec, point_at, program_view, rest, shift, sk, skip, sp_args, sp_arm_body, sp_arms,
    sp_block, sp_body_lines, sp_conditional, sp_expr, sp_flow, sp_func_decl, sp_group, sp_members,
    sp_params, sp_postfix, sp_primary, sp_program, sp_stmt, sp_suffix, sp_suffixes, sp_tier,
    sp_tier_rest, sp_unary, spaced, starts_primary, tier_op, unfold_args, unfold_arm_body,
    unfold_arms, unfold_block, unfold_body_lines, unfold_conditional, unfold_expr, unfold_flow,
    unfold_func_decl, unfold_group, unfold_members, unfold_params, unfold_postfix, unfold_primary,
    unfold_program, unfold_stmt, unfold_suffix, unfold_suffixes, unfold_tier, unfold_tier_rest,
    unfold_unary,
};
use crate::token::{STok, SToken, Tok, Token, tokens_view};

verus! {

// --- the executable parser ----------------------------------------------------------

struct Parser {
    tokens: Vec<Token>,
    pos: usize,
    /// Depth of enclosing `(` / `[`; while > 0, newlines are insignificant.
    paren_depth: usize,
}

/// A parsing outcome that agrees with the model `m`: the same node on success,
/// with the cursor moved `k` tokens plus the node's span, or the same error.
spec fn expr_outcome(
    r: Result<Expr, SixError>,
    m: Result<(SExpr, nat), ErrView>,
    before: Parser,
    after: Parser,
    k: int,
) -> bool {
    match m {
        Ok((v, n)) => match r {
            Ok(x) => expr_view(&x) == v && before.moved(after, k + n),
            Err(_) => false,
        },
        Err(e) => match r {
            Ok(_) => false,
            Err(x) => x@ == e,
        },
    }
}

spec fn stmt_outcome(
    r: Result<Stmt, SixError>,
    m: Result<(SStmt, nat), ErrView>,
    before: Parser,
    after: Parser,
    k: int,
) -> bool {
    match m {
        Ok((v, n)) => match r {
            Ok(x) => stmt_view(&x) == v && before.moved(after, k + n),
            Err(_) => false,
        },
        Err(e) => match r {
            Ok(_) => false,
            Err(x) => x@ == e,
        },
    }
}

spec fn stmts_outcome(
    r: Result<Vec<Stmt>, SixError>,
    m: Result<(Seq<SStmt>, nat), ErrView>,
    before: Parser,
    after: Parser,
    k: int,
) -> bool {
    match m {
        Ok((v, n)) => match r {
            Ok(x) => stmts_view(x@) == v && before.moved(after, k + n),
            Err(_) => false,
        },
        Err(e) => match r {
            Ok(_) => false,
            Err(x) => x@ == e,
        },
    }
}

spec fn args_outcome(
    r: Result<Vec<Arg>, SixError>,
    m: Result<(Seq<SArg>, nat), ErrView>,
    before: Parser,
    after: Parser,
    k: int,
) -> bool {
    match m {
        Ok((v, n)) => match r {
            Ok(x) => args_view(x@) == v && before.moved(after, k + n),
            Err(_) => false,
        },
        Err(e) => match r {
            Ok(_) => false,
            Err(x) => x@ == e,
        },
    }
}

/// The model of the parser's tokens, kept folded so that proofs about the
/// grammar do not look inside each token.
#[verifier::opaque]
spec fn folded(ts: Seq<Token>) -> Seq<SToken> {
    tokens_view(ts)
}

impl Parser {
    spec fn toks(&self) -> Seq<SToken> {
        folded(self.tokens@)
    }

    spec fn at(&self) -> int {
        self.pos as int
    }

    spec fn depth(&self) -> int {
        self.paren_depth as int
    }

    /// The tokens end with `Eof`, the cursor is on one of them, and the
    /// bracket depth never exceeds the number of tokens consumed.
    spec fn wf(&self) -> bool {
        &&& 0 < self.tokens@.len() <= usize::MAX
        &&& self.toks().len() == self.tokens@.len()
        &&& self.tokens@.last().tok is Eof
        &&& self.pos < self.tokens@.len()
        &&& self.paren_depth <= self.pos
    }

    /// `after` is this state moved forward `k` tokens, at the same depth.
    spec fn moved(self, after: Parser, k: int) -> bool {
        &&& after.wf()
        &&& after.tokens@ == self.tokens@
        &&& after.paren_depth == self.paren_depth
        &&& after.pos == self.pos + k
    }

    proof fn lemma_tok(&self, p: int)
        requires
            self.wf(),
            0 <= p < self.tokens@.len(),
        ensures
            self.toks().len() == self.tokens@.len(),
            self.toks()[p] == self.tokens@[p]@,
            sk(self.toks(), p) == self.tokens@[p].tok@,
            ln(self.toks(), p) == self.tokens@[p].line,
            spaced(self.toks(), p) == self.tokens@[p].space_before,
            p == self.tokens@.len() - 1 ==> self.tokens@[p].tok@ is Eof,
    {
        reveal(folded);
    }

    fn peek(&self) -> (r: &Tok)
        requires
            self.wf(),
        ensures
            r@ == sk(self.toks(), self.at()),
    {
        proof {
            self.lemma_tok(self.at());
        }
        &self.tokens[self.pos].tok
    }

    /// The token after the current one (`Eof` past the end).
    fn peek_next(&self) -> (r: &Tok)
        requires
            self.wf(),
        ensures
            r@ == sk(self.toks(), self.at() + 1),
    {
        if self.pos < self.tokens.len() - 1 {
            proof {
                self.lemma_tok(self.at() + 1);
            }
            &self.tokens[self.pos + 1].tok
        } else {
            proof {
                self.lemma_tok(self.at());
            }
            &self.tokens[self.pos].tok
        }
    }

    fn line(&self) -> (r: usize)
        requires
            self.wf(),
        ensures
            r == ln(self.toks(), self.at()),
    {
        proof {
            self.lemma_tok(self.at());
        }
        self.tokens[self.pos].line
    }

    fn spaced_here(&self) -> (r: bool)
        requires
            self.wf(),
        ensures
            r == spaced(self.toks(), self.at()),
    {
        proof {
            self.lemma_tok(self.at());
        }
        self.tokens[self.pos].space_before
    }

    /// Whether whitespace precedes the next token (the final token past the end).
    fn spaced_next(&self) -> (r: bool)
        requires
            self.wf(),
        ensures
            r == spaced(self.toks(), self.at() + 1),
    {
        proof {
            self.lemma_tok(self.tokens@.len() - 1);
        }
        if self.pos < self.tokens.len() - 1 {
            proof {
                self.lemma_tok(self.at() + 1);
            }
            self.tokens[self.pos + 1].space_before
        } else {
            self.tokens[self.tokens.len() - 1].space_before
        }
    }

    fn advance(&mut self)
        requires
            old(self).wf(),
        ensures
            final(self).wf(),
            final(self).tokens@ == old(self).tokens@,
            final(self).paren_depth == old(self).paren_depth,
            final(self).at() == adv(old(self).toks(), old(self).at()),
    {
        proof {
            self.lemma_tok(self.at());
        }
        if self.pos < self.tokens.len() - 1 {
            self.pos = self.pos + 1;
        }
    }

    fn check(&self, tok: &Tok) -> (r: bool)
        requires
            self.wf(),
        ensures
            r == (sk(self.toks(), self.at()) == tok@),
    {
        self.peek().same(tok)
    }

    fn eat(&mut self, tok: &Tok) -> (r: bool)
        requires
            old(self).wf(),
            !(tok@ is Eof),
        ensures
            r == (sk(old(self).toks(), old(self).at()) == tok@),
            old(self).moved(*final(self), if r { 1 } else { 0 }),
    {
        if self.check(tok) {
            proof {
                self.lemma_tok(self.at());
            }
            self.advance();
            true
        } else {
            false
        }
    }

    /// Consumes `tok`, answering the line it stood on, or reports `what` as
    /// missing.
    fn expect(&mut self, tok: &Tok, what: &str) -> (r: Result<usize, SixError>)
        requires
            old(self).wf(),
            !(tok@ is Eof),
        ensures
            sk(old(self).toks(), old(self).at()) == tok@ ==> r == Ok::<usize, SixError>(
                ln(old(self).toks(), old(self).at()),
            ) && old(self).moved(*final(self), 1),
            sk(old(self).toks(), old(self).at()) != tok@ ==> (r matches Err(e) && e@ == expected_err(
                old(self).toks(),
                old(self).at(),
                what@,
            )),
    {
        if self.check(tok) {
            let line = self.line();
            proof {
                self.lemma_tok(self.at());
            }
            self.advance();
            Ok(line)
        } else {
            let mut m = text("expected ");
            m.append(what);
            m.append(" but found ");
            m.append(describe_tok(self.peek()).as_str());
            Err(SixError::at(self.line(), m))
        }
    }

    fn skip_newlines(&mut self)
        requires
            old(self).wf(),
        ensures
            old(self).moved(*final(self), skip(old(self).toks(), old(self).at()) as int),
    {
        let ghost start = self.at();
        while self.check(&Tok::Newline)
            invariant
                self.wf(),
                self.tokens@ == old(self).tokens@,
                self.paren_depth == old(self).paren_depth,
                start == old(self).at(),
                start <= self.at(),
                self.at() + skip(self.toks(), self.at()) == start + skip(self.toks(), start),
            decreases self.tokens@.len() - self.pos,
        {
            proof {
                self.lemma_tok(self.at());
            }
            self.advance();
        }
    }

    /// Skips newlines only inside parentheses or brackets, where they are
    /// insignificant: this is what lets an expression continue across lines.
    fn skip_insignificant_newlines(&mut self)
        requires
            old(self).wf(),
        ensures
            old(self).moved(
                *final(self),
                insig(old(self).toks(), old(self).at(), old(self).depth()) as int,
            ),
    {
        if self.paren_depth > 0 {
            self.skip_newlines();
        }
    }

    fn expect_ident(&mut self, what: &str) -> (r: Result<String, SixError>)
        requires
            old(self).wf(),
        ensures
            match sk(old(self).toks(), old(self).at()) {
                STok::Ident(n) => (r matches Ok(s) && s@ == n && old(self).moved(*final(self), 1)),
                _ => (r matches Err(e) && e@ == ident_err(old(self).toks(), old(self).at(), what@)),
            },
    {
        proof {
            self.lemma_tok(self.at());
        }
        match self.peek() {
            Tok::Ident(n) => {
                let name = n.clone();
                self.advance();
                Ok(name)
            },
            other => {
                let found = describe_tok(other);
                self.advance();
                let mut m = text("expected ");
                m.append(what);
                m.append(", found ");
                m.append(found.as_str());
                Err(SixError::at(self.line(), m))
            },
        }
    }

    // --- program -----------------------------------------------------------------

    #[verifier::loop_isolation(false)]
    fn parse_program(&mut self) -> (r: Result<Vec<Stmt>, SixError>)
        requires
            old(self).wf(),
            old(self).paren_depth == 0,
        ensures
            program_view(r) == sp_program(old(self).toks(), old(self).at(), Seq::empty()),
    {
        let ghost t = self.toks();
        let mut stmts: Vec<Stmt> = Vec::new();
        loop
            invariant
                self.wf(),
                self.tokens@ == old(self).tokens@,
                self.paren_depth == 0,
                sp_program(t, old(self).at(), Seq::empty()) == sp_program(
                    t,
                    self.at(),
                    stmts_view(stmts@),
                ),
            decreases self.tokens@.len() - self.pos,
        {
            proof {
                unfold_program(t, self.at(), stmts_view(stmts@));
            }
            self.skip_newlines();
            if self.check(&Tok::Eof) {
                break;
            }
            if self.check(&Tok::Dot) {
                return Err(SixError::at(self.line(), text("stray block terminator '.'")));
            }
            let ghost before = stmts@;
            let s = match self.parse_stmt() {
                Ok(s) => s,
                Err(e) => return Err(e),
            };
            stmts.push(s);
            proof {
                lemma_push_stmt(before, s);
            }
        }
        Ok(stmts)
    }

    // --- statements --------------------------------------------------------------

    #[verifier::loop_isolation(false)]
    fn parse_stmt(&mut self) -> (r: Result<Stmt, SixError>)
        requires
            old(self).wf(),
        ensures
            stmt_outcome(
                r,
                sp_stmt(old(self).toks(), old(self).at(), old(self).depth()),
                *old(self),
                *final(self),
                1,
            ),
        decreases rest(old(self).toks(), old(self).at()), 40nat,
    {
        proof {
            unfold_stmt(self.toks(), self.at(), self.depth());
        }
        // `@name` imports a module.
        if self.check(&Tok::At) {
            let line = self.line();
            self.advance();
            let name = match self.expect_ident("a module name after '@'") {
                Ok(n) => n,
                Err(e) => return Err(e),
            };
            return Ok(Stmt::Import { name, line });
        }
        // A statement-initial `:` introduces a function declaration.
        if self.check(&Tok::Colon) {
            return self.parse_func_decl();
        }
        let line = self.line();
        let expr = match self.parse_expr() {
            Ok(e) => e,
            Err(e) => return Err(e),
        };
        let k = self.peek();
        if matches!(k, Tok::PlusPlus | Tok::MinusMinus) {
            // `x++` / `x--` desugar to an increment/decrement assignment.
            let inc = matches!(k, Tok::PlusPlus);
            self.advance();
            if !is_lvalue(&expr) {
                return Err(SixError::at(line, text("'++' and '--' need a name or an index")));
            }
            let op = if inc {
                BinOp::Add
            } else {
                BinOp::Sub
            };
            let mut one = String::new();
            push_char(&mut one, '1');
            let left = copy_expr(&expr);
            let right = Expr::Number(one);
            proof {
                assert(expr_view(&right) == SExpr::Number(seq!['1']));
            }
            let value = Expr::Binary { op, left: Box::new(left), right: Box::new(right), line };
            return Ok(Stmt::Assign { target: expr, value, line });
        }
        if matches!(k, Tok::Colon | Tok::ColonColon) {
            let deep = matches!(k, Tok::ColonColon);
            self.advance();
            let name = match expr {
                Expr::Var { name, .. } => name,
                _ => {
                    return Err(
                        SixError::at(line, text("the left side of a binding must be a name")),
                    )
                },
            };
            self.skip_newlines();
            let value = match self.parse_expr() {
                Ok(e) => e,
                Err(e) => return Err(e),
            };
            let immutable = is_immutable_name(name.as_str());
            return Ok(Stmt::Bind { name, value, deep, immutable, line });
        }
        if matches!(k, Tok::Assign) {
            self.advance();
            if !is_lvalue(&expr) {
                return Err(
                    SixError::at(line, text("the left side of '=' must be a name or an index")),
                );
            }
            self.skip_newlines();
            let value = match self.parse_expr() {
                Ok(e) => e,
                Err(e) => return Err(e),
            };
            return Ok(Stmt::Assign { target: expr, value, line });
        }
        Ok(Stmt::Expr(expr))
    }

    /// `:name(params)` NEWLINE body `.`
    #[verifier::loop_isolation(false)]
    fn parse_func_decl(&mut self) -> (r: Result<Stmt, SixError>)
        requires
            old(self).wf(),
        ensures
            stmt_outcome(
                r,
                sp_func_decl(old(self).toks(), old(self).at(), old(self).depth()),
                *old(self),
                *final(self),
                1,
            ),
        decreases rest(old(self).toks(), old(self).at()), 39nat,
    {
        let ghost t = self.toks();
        let ghost p = self.at();
        let ghost d = self.depth();
        proof {
            unfold_func_decl(t, p, d);
        }
        let line = self.line();
        match self.expect(&Tok::Colon, "':' to start a function declaration") {
            Ok(_) => {},
            Err(e) => return Err(e),
        }
        let name = match self.expect_ident("a function name") {
            Ok(n) => n,
            Err(e) => return Err(e),
        };
        match self.expect(&Tok::LParen, "'(' to start the parameter list") {
            Ok(_) => {},
            Err(e) => return Err(e),
        }
        self.paren_depth = self.paren_depth + 1;
        let mut params: Vec<String> = Vec::new();
        proof {
            assert(names_view(params@) =~= Seq::empty());
        }
        loop
            invariant
                self.wf(),
                self.tokens@ == old(self).tokens@,
                self.depth() == d + 1,
                p + 3 <= self.at(),
                sp_params(t, p + 3, Seq::empty()) == shift(
                    sp_params(t, self.at(), names_view(params@)),
                    self.at() - (p + 3),
                ),
            decreases self.tokens@.len() - self.pos,
        {
            proof {
                unfold_params(t, self.at(), names_view(params@));
            }
            self.skip_newlines();
            if self.check(&Tok::RParen) {
                break;
            }
            let ghost before = params@;
            let n = match self.expect_ident("a parameter name") {
                Ok(n) => n,
                Err(e) => return Err(e),
            };
            params.push(n);
            proof {
                assert(names_view(params@) =~= names_view(before).push(n@));
            }
        }
        match self.expect(&Tok::RParen, "')' to close the parameter list") {
            Ok(_) => {},
            Err(e) => return Err(e),
        }
        self.paren_depth = self.paren_depth - 1;
        let body = match self.parse_block() {
            Ok(b) => b,
            Err(e) => return Err(e),
        };
        let immutable = is_immutable_name(name.as_str());
        let def = Rc::new(FuncDef { name, params, body, line });
        Ok(Stmt::Func { def, immutable, line })
    }

    /// Parses statements until the matching `.` terminator, which is consumed.
    #[verifier::loop_isolation(false)]
    fn parse_block(&mut self) -> (r: Result<Vec<Stmt>, SixError>)
        requires
            old(self).wf(),
        ensures
            stmts_outcome(
                r,
                sp_block(old(self).toks(), old(self).at(), old(self).depth(), Seq::empty()),
                *old(self),
                *final(self),
                0,
            ),
        decreases rest(old(self).toks(), old(self).at()), 50nat,
    {
        let ghost t = self.toks();
        let ghost p = self.at();
        let ghost d = self.depth();
        let mut stmts: Vec<Stmt> = Vec::new();
        loop
            invariant
                self.wf(),
                self.tokens@ == old(self).tokens@,
                self.depth() == d,
                p <= self.at(),
                sp_block(t, p, d, Seq::empty()) == shift(
                    sp_block(t, self.at(), d, stmts_view(stmts@)),
                    self.at() - p,
                ),
            decreases self.tokens@.len() - self.pos,
        {
            proof {
                unfold_block(t, self.at(), d, stmts_view(stmts@));
            }
            self.skip_newlines();
            if self.check(&Tok::Dot) {
                self.advance();
                break;
            }
            if self.check(&Tok::Eof) {
                return Err(SixError::at(self.line(), text("unterminated block: expected '.'")));
            }
            let ghost before = stmts@;
            let s = match self.parse_stmt() {
                Ok(s) => s,
                Err(e) => return Err(e),
            };
            stmts.push(s);
            proof {
                lemma_push_stmt(before, s);
            }
        }
        Ok(stmts)
    }

    // --- expressions -------------------------------------------------------------

    /// A full expression, including `>>` flow chains.
    #[verifier::loop_isolation(false)]
    fn parse_expr(&mut self) -> (r: Result<Expr, SixError>)
        requires
            old(self).wf(),
        ensures
            expr_outcome(
                r,
                sp_expr(old(self).toks(), old(self).at(), old(self).depth()),
                *old(self),
                *final(self),
                1,
            ),
        decreases rest(old(self).toks(), old(self).at()), 32nat,
    {
        let ghost t = self.toks();
        let ghost d = self.depth();
        proof {
            unfold_expr(t, self.at(), d);
        }
        let mut left = match self.parse_tier(0) {
            Ok(e) => e,
            Err(e) => return Err(e),
        };
        let ghost p1 = self.at();
        let ghost first = expr_view(&left);
        // Flow continues only when `>>` immediately follows on the same line.
        loop
            invariant
                self.wf(),
                self.tokens@ == old(self).tokens@,
                self.depth() == d,
                p1 <= self.at(),
                sp_flow(t, p1, d, first) == shift(
                    sp_flow(t, self.at(), d, expr_view(&left)),
                    self.at() - p1,
                ),
            decreases self.tokens@.len() - self.pos,
        {
            proof {
                unfold_flow(t, self.at(), d, expr_view(&left));
            }
            if !self.check(&Tok::FatArrow) {
                break;
            }
            let line = self.line();
            self.advance();
            self.skip_newlines();
            let stage = match self.parse_postfix() {
                Ok(e) => e,
                Err(e) => return Err(e),
            };
            left = apply_flow(left, stage, line);
        }
        Ok(left)
    }

    /// A binary expression of operator tier `tier`: 0 `or`, 1 `and`,
    /// 2 equality, 3 comparison, 4 additive, 5 multiplicative; tier 6 is a
    /// unary expression. Each tier folds its operators to the left.
    #[verifier::loop_isolation(false)]
    fn parse_tier(&mut self, tier: usize) -> (r: Result<Expr, SixError>)
        requires
            old(self).wf(),
            tier <= 6,
        ensures
            expr_outcome(
                r,
                sp_tier(old(self).toks(), old(self).at(), old(self).depth(), tier as int),
                *old(self),
                *final(self),
                1,
            ),
        decreases rest(old(self).toks(), old(self).at()), 31 - tier,
    {
        proof {
            unfold_tier(self.toks(), self.at(), self.depth(), tier as int);
        }
        if tier >= 6 {
            return self.parse_unary();
        }
        let ghost t = self.toks();
        let ghost d = self.depth();
        proof {
            unfold_tier(t, self.at(), d, tier as int);
        }
        let mut left = match self.parse_tier(tier + 1) {
            Ok(e) => e,
            Err(e) => return Err(e),
        };
        let ghost p1 = self.at();
        let ghost first = expr_view(&left);
        loop
            invariant
                self.wf(),
                self.tokens@ == old(self).tokens@,
                self.depth() == d,
                p1 <= self.at(),
                sp_tier_rest(t, p1, d, tier as int, first) == shift(
                    sp_tier_rest(t, self.at(), d, tier as int, expr_view(&left)),
                    self.at() - p1,
                ),
            decreases self.tokens@.len() - self.pos,
        {
            proof {
                unfold_tier_rest(t, self.at(), d, tier as int, expr_view(&left));
            }
            self.skip_insignificant_newlines();
            let op = match self.tier_op_here(tier) {
                Some(op) => op,
                None => break,
            };
            let line = self.line();
            self.advance();
            self.skip_newlines();
            let right = match self.parse_tier(tier + 1) {
                Ok(e) => e,
                Err(e) => return Err(e),
            };
            left = Expr::Binary { op, left: Box::new(left), right: Box::new(right), line };
        }
        Ok(left)
    }

    #[verifier::loop_isolation(false)]
    fn parse_unary(&mut self) -> (r: Result<Expr, SixError>)
        requires
            old(self).wf(),
        ensures
            expr_outcome(
                r,
                sp_unary(old(self).toks(), old(self).at(), old(self).depth()),
                *old(self),
                *final(self),
                1,
            ),
        decreases rest(old(self).toks(), old(self).at()), 24nat,
    {
        proof {
            unfold_unary(self.toks(), self.at(), self.depth());
        }
        let k = self.peek();
        if matches!(k, Tok::Not | Tok::Minus) {
            let op = if matches!(k, Tok::Not) {
                UnOp::Not
            } else {
                UnOp::Neg
            };
            let line = self.line();
            self.advance();
            let expr = match self.parse_unary() {
                Ok(e) => e,
                Err(e) => return Err(e),
            };
            return Ok(Expr::Unary { op, expr: Box::new(expr), line });
        }
        self.parse_postfix()
    }

    /// A primary followed by the postfix suffixes that hug it.
    #[verifier::loop_isolation(false)]
    fn parse_postfix(&mut self) -> (r: Result<Expr, SixError>)
        requires
            old(self).wf(),
        ensures
            expr_outcome(
                r,
                sp_postfix(old(self).toks(), old(self).at(), old(self).depth()),
                *old(self),
                *final(self),
                1,
            ),
        decreases rest(old(self).toks(), old(self).at()), 23nat,
    {
        let ghost t = self.toks();
        let ghost d = self.depth();
        proof {
            unfold_postfix(t, self.at(), d);
        }
        let mut expr = match self.parse_primary() {
            Ok(e) => e,
            Err(e) => return Err(e),
        };
        let ghost p1 = self.at();
        let ghost first = expr_view(&expr);
        loop
            invariant
                self.wf(),
                self.tokens@ == old(self).tokens@,
                self.depth() == d,
                p1 <= self.at(),
                sp_suffixes(t, p1, d, first) == shift(
                    sp_suffixes(t, self.at(), d, expr_view(&expr)),
                    self.at() - p1,
                ),
            decreases self.tokens@.len() - self.pos,
        {
            proof {
                unfold_suffixes(t, self.at(), d, expr_view(&expr));
            }
            let (next, more) = match self.parse_suffix(expr) {
                Ok(x) => x,
                Err(e) => return Err(e),
            };
            expr = next;
            if !more {
                break;
            }
        }
        Ok(expr)
    }

    /// One postfix suffix applied to `expr`: calls `(...)`, indexes `[...]`,
    /// dot-flow `.name`, and numeric postfix operators. Answers the extended
    /// expression and `true`, or `expr` itself and `false` when no suffix hugs
    /// it (a suffix must follow with no space before it).
    fn parse_suffix(&mut self, expr: Expr) -> (r: Result<(Expr, bool), SixError>)
        requires
            old(self).wf(),
        ensures
            match sp_suffix(old(self).toks(), old(self).at(), old(self).depth(), expr_view(&expr)) {
                Err(e) => (r matches Err(x) && x@ == e),
                Ok(None) => (r matches Ok((x, more)) && !more && expr_view(&x) == expr_view(&expr)
                    && *final(self) == *old(self)),
                Ok(Some((v, used))) => (r matches Ok((x, more)) && more && expr_view(&x) == v
                    && used >= 1 && old(self).at() < old(self).tokens@.len() - 1
                    && old(self).moved(*final(self), used as int)),
            },
        decreases rest(old(self).toks(), old(self).at()), 21nat,
    {
        proof {
            unfold_suffix(self.toks(), self.at(), self.depth(), expr_view(&expr));
        }
        if self.spaced_here() {
            return Ok((expr, false));
        }
        let line = self.line();
        let k = self.peek();
        if matches!(k, Tok::LParen) {
            let args = match self.parse_call_args(Vec::new()) {
                Ok(a) => a,
                Err(e) => return Err(e),
            };
            proof {
                assert(args_view(Seq::<Arg>::empty()) =~= Seq::<SArg>::empty());
            }
            Ok((Expr::Call { callee: Box::new(expr), args, line }, true))
        } else if matches!(k, Tok::LBracket) {
            self.advance();
            self.paren_depth = self.paren_depth + 1;
            self.skip_newlines();
            let index = match self.parse_expr() {
                Ok(e) => e,
                Err(e) => return Err(e),
            };
            self.skip_newlines();
            match self.expect(&Tok::RBracket, "']' to close an index") {
                Ok(_) => {},
                Err(e) => return Err(e),
            }
            self.paren_depth = self.paren_depth - 1;
            Ok((Expr::Index { base: Box::new(expr), index: Box::new(index), line }, true))
        } else if matches!(k, Tok::Dot) && matches!(self.peek_next(), Tok::Ident(_)) {
            self.advance();
            let name = match self.expect_ident("a name after '.'") {
                Ok(n) => n,
                Err(e) => return Err(e),
            };
            // Dot-flow: `recv.name` == `name(recv)`, optionally with a
            // parenthesised argument list that receives `recv` first.
            let ghost name_v = name@;
            let callee = Expr::Var { name, line };
            proof {
                assert(expr_view(&callee) == SExpr::Var { name: name_v, line });
            }
            let mut args = vec![Arg::Normal(expr)];
            proof {
                lemma_args_view(args@);
                assert(args_view(args@) =~= seq![arg_view(&args@[0])]);
            }
            if self.check(&Tok::LParen) && !self.spaced_here() {
                args = match self.parse_call_args(args) {
                    Ok(a) => a,
                    Err(e) => return Err(e),
                };
            }
            Ok((Expr::Call { callee: Box::new(callee), args, line }, true))
        } else if matches!(k, Tok::Tilde) {
            self.advance();
            // Optional adjacent decimal count.
            let arg = if !self.spaced_here() && matches!(self.peek(), Tok::Number(_)) {
                match self.parse_primary() {
                    Ok(e) => Some(Box::new(e)),
                    Err(e) => return Err(e),
                }
            } else {
                None
            };
            Ok((Expr::Postfix { op: PostOp::Round, expr: Box::new(expr), arg, line }, true))
        } else if matches!(k, Tok::Caret | Tok::Underscore | Tok::SlashSlash) {
            let op = if matches!(k, Tok::Caret) {
                PostOp::Ceil
            } else if matches!(k, Tok::Underscore) {
                PostOp::Floor
            } else {
                PostOp::Sqrt
            };
            self.advance();
            Ok((Expr::Postfix { op, expr: Box::new(expr), arg: None, line }, true))
        } else if matches!(k, Tok::StarStar) {
            self.advance();
            // `x**y` is power; a bare `x**` is square.
            let arg = if !self.spaced_here() && self.can_start_primary() {
                match self.parse_primary() {
                    Ok(e) => Some(Box::new(e)),
                    Err(e) => return Err(e),
                }
            } else {
                None
            };
            let op = if arg.is_some() {
                PostOp::Power
            } else {
                PostOp::Square
            };
            Ok((Expr::Postfix { op, expr: Box::new(expr), arg, line }, true))
        } else {
            Ok((expr, false))
        }
    }

    /// A parenthesised, whitespace-separated argument list, its arguments
    /// appended to `args`. `<group>` splat-opens a Group into separate
    /// arguments.
    #[verifier::loop_isolation(false)]
    fn parse_call_args(&mut self, args: Vec<Arg>) -> (r: Result<Vec<Arg>, SixError>)
        requires
            old(self).wf(),
            sk(old(self).toks(), old(self).at()) is LParen,
        ensures
            args_outcome(
                r,
                sp_args(
                    old(self).toks(),
                    old(self).at() + 1,
                    old(self).depth() + 1,
                    args_view(args@),
                ),
                *old(self),
                *final(self),
                1,
            ),
        decreases rest(old(self).toks(), old(self).at() + 1), 35nat,
    {
        let ghost t = self.toks();
        let ghost p = self.at();
        let ghost d = self.depth();
        let ghost first = args_view(args@);
        self.advance();
        self.paren_depth = self.paren_depth + 1;
        let mut args = args;
        loop
            invariant
                self.wf(),
                self.tokens@ == old(self).tokens@,
                self.depth() == d + 1,
                p + 1 <= self.at(),
                sp_args(t, p + 1, d + 1, first) == shift(
                    sp_args(t, self.at(), d + 1, args_view(args@)),
                    self.at() - (p + 1),
                ),
            decreases self.tokens@.len() - self.pos,
        {
            proof {
                unfold_args(t, self.at(), d + 1, args_view(args@));
            }
            self.skip_newlines();
            if self.check(&Tok::RParen) {
                break;
            }
            if self.check(&Tok::Eof) {
                let mut m = text("unexpected ");
                m.append(describe_tok(self.peek()).as_str());
                return Err(SixError::at(self.line(), m));
            }
            let ghost before = args@;
            if self.check(&Tok::Lt) && !self.spaced_next() {
                self.advance();
                let e = match self.parse_postfix() {
                    Ok(e) => e,
                    Err(e) => return Err(e),
                };
                match self.expect(&Tok::Gt, "'>' to close a splat argument") {
                    Ok(_) => {},
                    Err(e) => return Err(e),
                }
                args.push(Arg::Splat(e));
            } else {
                let e = match self.parse_expr() {
                    Ok(e) => e,
                    Err(e) => return Err(e),
                };
                args.push(Arg::Normal(e));
            }
            proof {
                lemma_push_arg(before, args@.last());
                assert(args@ == before.push(args@.last()));
            }
        }
        match self.expect(&Tok::RParen, "')' to close a call") {
            Ok(_) => {},
            Err(e) => return Err(e),
        }
        self.paren_depth = self.paren_depth - 1;
        Ok(args)
    }

    #[verifier::loop_isolation(false)]
    fn parse_primary(&mut self) -> (r: Result<Expr, SixError>)
        requires
            old(self).wf(),
        ensures
            expr_outcome(
                r,
                sp_primary(old(self).toks(), old(self).at(), old(self).depth()),
                *old(self),
                *final(self),
                1,
            ),
        decreases rest(old(self).toks(), old(self).at()), 21nat,
    {
        proof {
            unfold_primary(self.toks(), self.at(), self.depth());
        }
        let line = self.line();
        match self.peek() {
            Tok::Number(n) => {
                let e = Expr::Number(n.clone());
                self.advance();
                Ok(e)
            },
            Tok::Text(s) => {
                let e = Expr::Text(s.clone());
                self.advance();
                Ok(e)
            },
            Tok::True => {
                self.advance();
                Ok(Expr::Bool(true))
            },
            Tok::False => {
                self.advance();
                Ok(Expr::Bool(false))
            },
            Tok::Nil | Tok::Empty => {
                self.advance();
                Ok(Expr::Empty)
            },
            Tok::Dollar => {
                self.advance();
                Ok(Expr::Last)
            },
            Tok::Ident(name) => {
                let name = name.clone();
                self.advance();
                // Typed empty: `number ..` and `text ..` (the only bare
                // application forms Six keeps).
                if self.check(&Tok::Empty) {
                    if name == text("number") {
                        self.advance();
                        return Ok(Expr::Empty);
                    }
                    if name == text("text") {
                        self.advance();
                        return Ok(Expr::Text(String::new()));
                    }
                }
                Ok(Expr::Var { name, line })
            },
            Tok::LParen => {
                self.advance();
                self.paren_depth = self.paren_depth + 1;
                self.skip_newlines();
                let expr = match self.parse_expr() {
                    Ok(e) => e,
                    Err(e) => return Err(e),
                };
                self.skip_newlines();
                match self.expect(&Tok::RParen, "')'") {
                    Ok(_) => {},
                    Err(e) => return Err(e),
                }
                self.paren_depth = self.paren_depth - 1;
                Ok(expr)
            },
            Tok::LBracket => self.parse_group(),
            Tok::If | Tok::QIf | Tok::QAny => self.parse_conditional(),
            other => {
                let mut m = text("unexpected ");
                m.append(describe_tok(other).as_str());
                Err(SixError::at(line, m))
            },
        }
    }

    /// A Group literal. Multi-line mode (`[` immediately followed by a newline)
    /// takes one full expression per line; inline mode takes whitespace-
    /// separated atoms (a primary with its postfix suffixes).
    #[verifier::loop_isolation(false)]
    fn parse_group(&mut self) -> (r: Result<Expr, SixError>)
        requires
            old(self).wf(),
        ensures
            expr_outcome(
                r,
                sp_group(old(self).toks(), old(self).at(), old(self).depth()),
                *old(self),
                *final(self),
                1,
            ),
        decreases rest(old(self).toks(), old(self).at()), 20nat,
    {
        let ghost t = self.toks();
        let ghost p = self.at();
        let ghost d = self.depth();
        proof {
            unfold_group(t, p, d);
        }
        let line = self.line();
        match self.expect(&Tok::LBracket, "'['") {
            Ok(_) => {},
            Err(e) => return Err(e),
        }
        self.paren_depth = self.paren_depth + 1;
        let multiline = self.check(&Tok::Newline);
        let mut members: Vec<Expr> = Vec::new();
        loop
            invariant
                self.wf(),
                self.tokens@ == old(self).tokens@,
                self.depth() == d + 1,
                p + 1 <= self.at(),
                sp_members(t, p + 1, d + 1, multiline, line, Seq::empty()) == shift(
                    sp_members(t, self.at(), d + 1, multiline, line, exprs_view(members@)),
                    self.at() - (p + 1),
                ),
            decreases self.tokens@.len() - self.pos,
        {
            proof {
                unfold_members(t, self.at(), d + 1, multiline, line, exprs_view(members@));
            }
            self.skip_newlines();
            if self.check(&Tok::RBracket) {
                break;
            }
            if self.check(&Tok::Eof) {
                return Err(SixError::at(line, text("unterminated Group literal: expected ']'")));
            }
            let ghost before = members@;
            let member = if multiline {
                self.parse_expr()
            } else {
                self.parse_postfix()
            };
            let m = match member {
                Ok(e) => e,
                Err(e) => return Err(e),
            };
            members.push(m);
            proof {
                lemma_push_expr(before, m);
            }
        }
        match self.expect(&Tok::RBracket, "']' to close a Group") {
            Ok(_) => {},
            Err(e) => return Err(e),
        }
        self.paren_depth = self.paren_depth - 1;
        Ok(Expr::Group { members, line })
    }

    /// `if` / `if any` / `?` / `?*`, through the closing `.`.
    #[verifier::loop_isolation(false)]
    fn parse_conditional(&mut self) -> (r: Result<Expr, SixError>)
        requires
            old(self).wf(),
            ({
                let k = sk(old(self).toks(), old(self).at());
                k is If || k is QIf || k is QAny
            }),
        ensures
            expr_outcome(
                r,
                sp_conditional(old(self).toks(), old(self).at(), old(self).depth()),
                *old(self),
                *final(self),
                1,
            ),
        decreases rest(old(self).toks(), old(self).at()), 20nat,
    {
        let ghost t = self.toks();
        let ghost p = self.at();
        let ghost d = self.depth();
        proof {
            unfold_conditional(t, p, d);
        }
        let line = self.line();
        let any = match self.peek() {
            Tok::If => {
                self.advance();
                self.eat(&Tok::Any)
            },
            Tok::QIf => {
                self.advance();
                false
            },
            _ => {
                self.advance();
                true
            },
        };
        let ghost start = self.at();
        proof {
            assert((any, start) == cond_head(t, p));
        }
        let mut arms: Vec<Arm> = Vec::new();
        let mut else_body: Option<Vec<Stmt>> = None;
        loop
            invariant
                self.wf(),
                self.tokens@ == old(self).tokens@,
                self.depth() == d,
                start <= self.at(),
                sp_arms(t, start, d, line, Seq::empty(), None) == shift(
                    sp_arms(t, self.at(), d, line, arms_view(arms@), else_view(&else_body)),
                    self.at() - start,
                ),
            decreases self.tokens@.len() - self.pos,
        {
            proof {
                unfold_arms(t, self.at(), d, line, arms_view(arms@), else_view(&else_body));
            }
            self.skip_newlines();
            if self.check(&Tok::Dot) {
                self.advance();
                break;
            }
            if self.check(&Tok::Eof) {
                return Err(SixError::at(line, text("unterminated conditional: expected '.'")));
            }
            if self.check(&Tok::Else) || self.check(&Tok::QElse) {
                self.advance();
                let arrow = match self.expect(&Tok::FatArrow, "'>>' after 'else'") {
                    Ok(l) => l,
                    Err(e) => return Err(e),
                };
                let body = match self.parse_arm_body(arrow) {
                    Ok(b) => b,
                    Err(e) => return Err(e),
                };
                else_body = Some(body);
            } else {
                let cond = match self.parse_tier(0) {
                    Ok(e) => e,
                    Err(e) => return Err(e),
                };
                let arrow = match self.expect(&Tok::FatArrow, "'>>' after a condition") {
                    Ok(l) => l,
                    Err(e) => return Err(e),
                };
                let body = match self.parse_arm_body(arrow) {
                    Ok(b) => b,
                    Err(e) => return Err(e),
                };
                let ghost before = arms@;
                let arm = Arm { cond, body };
                arms.push(arm);
                proof {
                    lemma_push_arm(before, arm);
                }
            }
        }
        Ok(Expr::If { any, arms, else_body, line })
    }

    /// An arm's consequent: an inline single statement when it shares the
    /// arrow's line, otherwise statements up to the next arm header or the
    /// conditional's terminator.
    #[verifier::loop_isolation(false)]
    fn parse_arm_body(&mut self, arrow_line: usize) -> (r: Result<Vec<Stmt>, SixError>)
        requires
            old(self).wf(),
        ensures
            stmts_outcome(
                r,
                sp_arm_body(old(self).toks(), old(self).at(), old(self).depth(), arrow_line),
                *old(self),
                *final(self),
                0,
            ),
        decreases rest(old(self).toks(), old(self).at()), 51nat,
    {
        let ghost t = self.toks();
        let ghost p = self.at();
        let ghost d = self.depth();
        proof {
            unfold_arm_body(t, p, d, arrow_line);
        }
        let k = self.peek();
        if self.line() == arrow_line && !matches!(k, Tok::Newline | Tok::Dot | Tok::Eof) {
            let s = match self.parse_stmt() {
                Ok(s) => s,
                Err(e) => return Err(e),
            };
            let body = vec![s];
            proof {
                lemma_push_stmt(Seq::empty(), s);
                assert(body@ =~= Seq::<Stmt>::empty().push(s));
            }
            return Ok(body);
        }
        let mut body: Vec<Stmt> = Vec::new();
        loop
            invariant
                self.wf(),
                self.tokens@ == old(self).tokens@,
                self.depth() == d,
                p <= self.at(),
                sp_body_lines(t, p, d, Seq::empty()) == shift(
                    sp_body_lines(t, self.at(), d, stmts_view(body@)),
                    self.at() - p,
                ),
            decreases self.tokens@.len() - self.pos,
        {
            proof {
                unfold_body_lines(t, self.at(), d, stmts_view(body@));
            }
            self.skip_newlines();
            if self.check(&Tok::Dot) || self.check(&Tok::Eof) {
                break;
            }
            if self.line_is_arm_header() {
                break;
            }
            let ghost before = body@;
            let s = match self.parse_stmt() {
                Ok(s) => s,
                Err(e) => return Err(e),
            };
            body.push(s);
            proof {
                lemma_push_stmt(before, s);
            }
        }
        Ok(body)
    }

    /// The operator of tier `tier` at the cursor, if there is one.
    fn tier_op_here(&self, tier: usize) -> (r: Option<BinOp>)
        requires
            self.wf(),
        ensures
            r == tier_op(tier as int, sk(self.toks(), self.at())),
    {
        let k = self.peek();
        if tier == 0 {
            if matches!(k, Tok::Or) { Some(BinOp::Or) } else { None }
        } else if tier == 1 {
            if matches!(k, Tok::And) { Some(BinOp::And) } else { None }
        } else if tier == 2 {
            match k {
                Tok::EqEq => Some(BinOp::Eq),
                Tok::NotEq => Some(BinOp::Ne),
                _ => None,
            }
        } else if tier == 3 {
            match k {
                Tok::Lt => Some(BinOp::Lt),
                Tok::Gt => Some(BinOp::Gt),
                Tok::Le => Some(BinOp::Le),
                Tok::Ge => Some(BinOp::Ge),
                _ => None,
            }
        } else if tier == 4 {
            match k {
                Tok::Plus => Some(BinOp::Add),
                Tok::Minus => Some(BinOp::Sub),
                _ => None,
            }
        } else {
            match k {
                Tok::Star => Some(BinOp::Mul),
                Tok::Slash => Some(BinOp::Div),
                Tok::Percent => Some(BinOp::Mod),
                _ => None,
            }
        }
    }

    fn can_start_primary(&self) -> (r: bool)
        requires
            self.wf(),
        ensures
            r == starts_primary(sk(self.toks(), self.at())),
    {
        matches!(
            self.peek(),
            Tok::Number(_) | Tok::Text(_) | Tok::True | Tok::False | Tok::Nil | Tok::Empty
                | Tok::Dollar | Tok::Ident(_) | Tok::LParen | Tok::LBracket
        )
    }

    /// Does the current logical line begin a new conditional arm? An arm
    /// header carries a top-level `>>` before its newline and does not itself
    /// begin a nested conditional.
    fn line_is_arm_header(&self) -> (r: bool)
        requires
            self.wf(),
        ensures
            r == arm_header(self.toks(), self.at()),
    {
        match self.peek() {
            Tok::Else | Tok::QElse => return true,
            Tok::If | Tok::QIf | Tok::QAny => return false,
            _ => {},
        }
        let ghost t = self.toks();
        let mut opens: usize = 0;
        let mut closes: usize = 0;
        let mut i: usize = self.pos;
        proof {
            self.lemma_tok(self.at());
            assert(arm_header(t, self.at()) == header_scan(t, self.at(), 0));
        }
        while i < self.tokens.len()
            invariant
                self.wf(),
                t == self.toks(),
                t.len() == self.tokens@.len(),
                self.pos <= i <= self.tokens@.len(),
                opens <= i,
                closes <= i,
                arm_header(t, self.at()) == header_scan(t, i as int, opens - closes),
            decreases self.tokens@.len() - i,
        {
            proof {
                self.lemma_tok(i as int);
                assert(t[i as int].tok == self.tokens@[i as int].tok@);
            }
            match self.tokens[i].tok {
                Tok::Newline | Tok::Eof => return false,
                Tok::LParen | Tok::LBracket => opens = opens + 1,
                Tok::RParen | Tok::RBracket => closes = closes + 1,
                Tok::FatArrow => {
                    if opens == closes {
                        return true;
                    }
                },
                _ => {},
            }
            i = i + 1;
        }
        false
    }
}

/// The model of an optional `else` body.
spec fn else_view(b: &Option<Vec<Stmt>>) -> Option<Seq<SStmt>> {
    match b {
        Some(b) => Some(stmts_view(b@)),
        None => None,
    }
}

proof fn lemma_push_stmt(ss: Seq<Stmt>, s: Stmt)
    ensures
        stmts_view(ss.push(s)) == stmts_view(ss).push(stmt_view(&s)),
{
    assert(ss.push(s).drop_last() =~= ss);
}

proof fn lemma_push_expr(es: Seq<Expr>, e: Expr)
    ensures
        exprs_view(es.push(e)) == exprs_view(es).push(expr_view(&e)),
{
    assert(es.push(e).drop_last() =~= es);
}

proof fn lemma_push_arg(args: Seq<Arg>, a: Arg)
    ensures
        args_view(args.push(a)) == args_view(args).push(arg_view(&a)),
{
    assert(args.push(a).drop_last() =~= args);
}

proof fn lemma_push_arm(arms: Seq<Arm>, a: Arm)
    ensures
        arms_view(arms.push(a)) == arms_view(arms).push(arm_view(&a)),
{
    assert(arms.push(a).drop_last() =~= arms);
}

/// Parses a token sequence (which ends with `Eof`, as the lexer's output does)
/// into a program.
pub fn parse(tokens: Vec<Token>) -> (r: Result<Vec<Stmt>, SixError>)
    requires
        tokens@.len() > 0,
        tokens@.last().tok is Eof,
    ensures
        program_view(r) == parse_spec(tokens_view(tokens@)),
{
    let mut parser = Parser { tokens, pos: 0, paren_depth: 0 };
    proof {
        vstd::std_specs::vec::axiom_spec_len(&parser.tokens);
        reveal(folded);
        assert(parser.toks() == tokens_view(tokens@));
    }
    parser.parse_program()
}

/// Desugars `value >> stage` into a call whose first argument is `value`.
fn apply_flow(value: Expr, stage: Expr, line: usize) -> (r: Expr)
    ensures
        expr_view(&r) == flow(expr_view(&value), expr_view(&stage), line),
{
    match stage {
        Expr::Call { callee, args, line: cline } => {
            let ghost old_args = args@;
            let mut args = args;
            args.insert(0, Arg::Normal(value));
            proof {
                lemma_args_view(old_args);
                lemma_args_view(args@);
                assert(args_view(args@) =~= seq![arg_view(&args@[0])] + args_view(old_args));
            }
            Expr::Call { callee, args, line: cline }
        },
        other => {
            let args = vec![Arg::Normal(value)];
            proof {
                lemma_args_view(args@);
                assert(args_view(args@) =~= seq![arg_view(&args@[0])]);
            }
            Expr::Call { callee: Box::new(other), args, line }
        },
    }
}

/// Only a name or an index can be assigned to.
fn is_lvalue(expr: &Expr) -> (r: bool)
    ensures
        r == lvalue(expr_view(expr)),
{
    matches!(expr, Expr::Var { .. } | Expr::Index { .. })
}

/// A name is immutable when its first alphabetic character is uppercase; for
/// a name written in ASCII, when its first letter is one of `A`..`Z`.
pub fn is_immutable_name(name: &str) -> (r: bool)
    ensures
        r == immutable_name(name@),
        (forall|i: int| 0 <= i < name@.len() ==> ascii(#[trigger] name@[i])) ==> r
            == ascii_immutable_from(name@, 0),
{
    let cs = chars_of(name);
    let mut i: usize = 0;
    while i < cs.len()
        invariant
            cs@ == name@,
            i <= cs@.len(),
            immutable_from(cs@, 0) == immutable_from(cs@, i as int),
            (forall|j: int| 0 <= j < cs@.len() ==> ascii(#[trigger] cs@[j])) ==> ascii_immutable_from(
                cs@,
                0,
            ) == ascii_immutable_from(cs@, i as int),
        decreases cs@.len() - i,
    {
        if is_alphabetic(cs[i]) {
            return is_uppercase(cs[i]);
        }
        i = i + 1;
    }
    false
}

/// A number literal as the number it denotes is written.
fn number_display_of(n: &str) -> (r: String)
    ensures
        r@ == number_display(n@),
{
    let cs = chars_of(n);
    let len = cs.len();
    let mut k: usize = 0;
    while k < len && cs[k] != '.'
        invariant
            cs@ == n@,
            len == cs@.len(),
            k <= len,
            point_at(cs@, 0) == point_at(cs@, k as int),
        decreases len - k,
    {
        k = k + 1;
    }
    // The whole part, leading zeros dropped.
    let mut a: usize = 0;
    while a < k && cs[a] == '0'
        invariant
            cs@ == n@,
            len == cs@.len(),
            k <= len,
            a <= k,
            drop_leading_zeros(cs@.subrange(0, k as int)) == drop_leading_zeros(
                cs@.subrange(a as int, k as int),
            ),
        decreases k - a,
    {
        assert(cs@.subrange(a as int, k as int).drop_first() =~= cs@.subrange(
            a + 1,
            k as int,
        ));
        a = a + 1;
    }
    let ghost whole = cs@.subrange(a as int, k as int);
    assert(drop_leading_zeros(whole) == whole);
    let mut out = if a < k {
        string_of(&cs.as_slice()[a..k])
    } else {
        let mut zero = String::new();
        push_char(&mut zero, '0');
        zero
    };
    assert(k == point_at(cs@, 0));
    // The fraction, trailing zeros dropped.
    if k < len {
        let mut b: usize = len;
        while b > k + 1 && cs[b - 1] == '0'
            invariant
                cs@ == n@,
                len == cs@.len(),
                k < len,
                k + 1 <= b <= len,
                drop_trailing_zeros(cs@.subrange(k + 1, len as int)) == drop_trailing_zeros(
                    cs@.subrange(k + 1, b as int),
                ),
            decreases b,
        {
            assert(cs@.subrange(k + 1, b as int).drop_last() =~= cs@.subrange(
                k + 1,
                b - 1,
            ));
            b = b - 1;
        }
        let ghost frac = cs@.subrange(k + 1, b as int);
        assert(drop_trailing_zeros(frac) == frac);
        if b > k + 1 {
            push_char(&mut out, '.');
            out.append(string_of(&cs.as_slice()[k + 1..b]).as_str());
        }
    }
    out
}

/// How a token is named in error messages.
fn describe_tok(tok: &Tok) -> (r: String)
    ensures
        r@ == describe(tok@),
{
    match tok {
        Tok::Number(n) => {
            let mut s = text("number ");
            s.append(number_display_of(n.as_str()).as_str());
            s
        },
        Tok::Text(_) => text("text"),
        Tok::True => text("'true'"),
        Tok::False => text("'false'"),
        Tok::Nil => text("'nil'"),
        Tok::Empty => text("'..'"),
        Tok::Ident(n) => {
            let mut s = text("name '");
            s.append(n.as_str());
            s.append("'");
            s
        },
        Tok::Dollar => text("'$'"),
        Tok::At => text("'@'"),
        Tok::Colon => text("':'"),
        Tok::ColonColon => text("'::'"),
        Tok::Assign => text("'='"),
        Tok::LBracket => text("'['"),
        Tok::RBracket => text("']'"),
        Tok::LParen => text("'('"),
        Tok::RParen => text("')'"),
        Tok::Lt => text("'<'"),
        Tok::Gt => text("'>'"),
        Tok::Le => text("'<='"),
        Tok::Ge => text("'>='"),
        Tok::EqEq => text("'=='"),
        Tok::NotEq => text("'!='"),
        Tok::Plus => text("'+'"),
        Tok::Minus => text("'-'"),
        Tok::Star => text("'*'"),
        Tok::Slash => text("'/'"),
        Tok::Percent => text("'%'"),
        Tok::Tilde => text("'~'"),
        Tok::Caret => text("'^'"),
        Tok::Underscore => text("'_'"),
        Tok::StarStar => text("'**'"),
        Tok::SlashSlash => text("'//'"),
        Tok::PlusPlus => text("'++'"),
        Tok::MinusMinus => text("'--'"),
        Tok::And => text("'and'"),
        Tok::Or => text("'or'"),
        Tok::Not => text("'not'"),
        Tok::FatArrow => text("'>>'"),
        Tok::Dot => text("'.'"),
        Tok::If => text("'if'"),
        Tok::Any => text("'any'"),
        Tok::Else => text("'else'"),
        Tok::QIf => text("'?'"),
        Tok::QElse => text("'??'"),
        Tok::QAny => text("'?*'"),
        Tok::Newline => text("end of line"),
        Tok::Eof => text("end of input"),
    }
}

} // verus!
