//! The grammar of Six as a mathematical model: for a token sequence, a
//! position and the current bracket depth, which node is parsed there and how
//! many tokens it spans, or which error is reported. Positions at or past the
//! final token read as `Eof`, as the final token of a lexed program always is.
//!
//! Rules that always consume at least one token when they succeed report the
//! span *beyond their first token* (`Spanned1`); those that may consume
//! nothing report the full span (`Spanned0`). Written this way, every loop and
//! every recursive step visibly moves forward, which is what makes the
//! definitions well founded.
//!
//! Each rule is restated one step at a time by an `unfold_*` lemma, and the
//! laws of the grammar are proved here: what the sugar desugars to, where
//! newlines matter, that every binding records its immutability and that
//! every error names a line.

use vstd::prelude::*;

use crate::ast::{BinOp, PostOp, SArg, SArm, SExpr, SFuncDef, SStmt, Stmt, UnOp, stmts_view};
use crate::chars::{ascii_letter, spec_is_alphabetic, spec_is_uppercase};
use crate::error::{ErrView, SixError, err_at};
use crate::token::{STok, SToken};

verus! {

/// A node and the number of tokens it spans beyond its first one.
pub type Spanned1<X> = Result<(X, nat), ErrView>;

/// A node (or list) and the number of tokens it spans.
pub type Spanned0<X> = Result<(X, nat), ErrView>;

// --- reading the token sequence -----------------------------------------------------

/// The token at `p`; the final position and anything past it read as `Eof`.
pub open spec fn sk(t: Seq<SToken>, p: int) -> STok {
    if 0 <= p < t.len() - 1 {
        t[p].tok
    } else {
        STok::Eof
    }
}

/// The line of the token at `p` (the final token's line past the end).
pub open spec fn ln(t: Seq<SToken>, p: int) -> usize {
    if 0 <= p < t.len() {
        t[p].line
    } else if t.len() > 0 {
        t.last().line
    } else {
        0
    }
}

/// Whether whitespace precedes the token at `p` (as for the final token past
/// the end).
pub open spec fn spaced(t: Seq<SToken>, p: int) -> bool {
    if 0 <= p < t.len() {
        t[p].space_before
    } else if t.len() > 0 {
        t.last().space_before
    } else {
        true
    }
}

/// How far a cursor at `p` moves on `advance`: it stays on the final token.
pub open spec fn adv(t: Seq<SToken>, p: int) -> int {
    if p < t.len() - 1 {
        p + 1
    } else {
        p
    }
}

/// The number of `Newline` tokens starting at `p`.
pub open spec fn skip(t: Seq<SToken>, p: int) -> nat
    decreases t.len() - p,
{
    if 0 <= p && sk(t, p) is Newline {
        1 + skip(t, p + 1)
    } else {
        0
    }
}

/// The newlines skipped at `p` where newlines are insignificant: inside
/// parentheses or brackets (`depth > 0`).
pub open spec fn insig(t: Seq<SToken>, p: int, depth: int) -> nat {
    if depth > 0 {
        skip(t, p)
    } else {
        0
    }
}

/// What remains of the sequence from `p`.
pub open spec fn rest(t: Seq<SToken>, p: int) -> nat {
    if p < t.len() {
        (t.len() - p) as nat
    } else {
        0
    }
}

// --- small pieces ---------------------------------------------------------------------

/// A name is immutable when its first alphabetic character is uppercase.
pub open spec fn immutable_from(name: Seq<char>, i: int) -> bool
    decreases name.len() - i,
{
    if i < 0 || i >= name.len() {
        false
    } else if spec_is_alphabetic(name[i]) {
        spec_is_uppercase(name[i])
    } else {
        immutable_from(name, i + 1)
    }
}

pub open spec fn immutable_name(name: Seq<char>) -> bool {
    immutable_from(name, 0)
}

/// The same rule read on ASCII text: the first letter is one of `A`..`Z`.
pub open spec fn ascii_immutable_from(name: Seq<char>, i: int) -> bool
    decreases name.len() - i,
{
    if i < 0 || i >= name.len() {
        false
    } else if ascii_letter(name[i]) {
        'A' <= name[i] && name[i] <= 'Z'
    } else {
        ascii_immutable_from(name, i + 1)
    }
}

proof fn lemma_immutable_skips(name: Seq<char>, k: int, i: int)
    requires
        0 <= k <= i,
        forall|j: int| k <= j < i ==> !spec_is_alphabetic(#[trigger] name[j]),
    ensures
        i <= name.len() ==> immutable_from(name, k) == immutable_from(name, i),
    decreases i - k,
{
    if k < i {
        lemma_immutable_skips(name, k + 1, i);
    }
}

/// Immutability is decided by the first alphabetic character of a name alone:
/// the name is immutable exactly when that character is uppercase, whatever
/// follows it (`totalCount` is mutable, `Total` and `_Max2` are not).
pub proof fn law_first_letter_decides(name: Seq<char>, i: int)
    requires
        0 <= i < name.len(),
        spec_is_alphabetic(name[i]),
        forall|j: int| 0 <= j < i ==> !spec_is_alphabetic(#[trigger] name[j]),
    ensures
        immutable_name(name) == spec_is_uppercase(name[i]),
{
    lemma_immutable_skips(name, 0, i);
}

/// A name with no alphabetic character at all is mutable.
pub proof fn law_letterless_names_are_mutable(name: Seq<char>)
    requires
        forall|j: int| 0 <= j < name.len() ==> !spec_is_alphabetic(#[trigger] name[j]),
    ensures
        !immutable_name(name),
{
    lemma_immutable_skips(name, 0, name.len() as int);
}

proof fn lemma_ascii_immutable_skips(name: Seq<char>, k: int, i: int)
    requires
        0 <= k <= i,
        forall|j: int| k <= j < i ==> !ascii_letter(#[trigger] name[j]),
    ensures
        i <= name.len() ==> ascii_immutable_from(name, k) == ascii_immutable_from(name, i),
    decreases i - k,
{
    if k < i {
        lemma_ascii_immutable_skips(name, k + 1, i);
    }
}

/// The same rule on ASCII text: the first letter alone decides, immutable
/// exactly when it is one of `A`..`Z`; with no letter the name is mutable.
pub proof fn law_first_ascii_letter_decides(name: Seq<char>)
    ensures
        forall|i: int|
            0 <= i < name.len() && ascii_letter(#[trigger] name[i]) && (forall|j: int|
                0 <= j < i ==> !ascii_letter(#[trigger] name[j])) ==> (ascii_immutable_from(name, 0)
                <==> ('A' <= name[i] && name[i] <= 'Z')),
        (forall|j: int| 0 <= j < name.len() ==> !ascii_letter(#[trigger] name[j]))
            ==> !ascii_immutable_from(name, 0),
{
    assert forall|i: int|
        0 <= i < name.len() && ascii_letter(#[trigger] name[i]) && (forall|j: int|
            0 <= j < i ==> !ascii_letter(#[trigger] name[j])) implies (ascii_immutable_from(name, 0)
        <==> ('A' <= name[i] && name[i] <= 'Z')) by {
        lemma_ascii_immutable_skips(name, 0, i);
    }
    if forall|j: int| 0 <= j < name.len() ==> !ascii_letter(#[trigger] name[j]) {
        lemma_ascii_immutable_skips(name, 0, name.len() as int);
    }
}

/// Only a name or an index can be assigned to.
pub open spec fn lvalue(e: SExpr) -> bool {
    e is Var || e is Index
}

/// `value >> stage`: a call whose first argument is `value`.
pub open spec fn flow(value: SExpr, stage: SExpr, line: usize) -> SExpr {
    match stage {
        SExpr::Call { callee, args, line: cline } => SExpr::Call {
            callee,
            args: seq![SArg::Normal(value)] + args,
            line: cline,
        },
        other => SExpr::Call { callee: Box::new(other), args: seq![SArg::Normal(value)], line },
    }
}

/// Tokens that can begin a primary expression.
pub open spec fn starts_primary(k: STok) -> bool {
    ||| k is Number
    ||| k is Text
    ||| k is True
    ||| k is False
    ||| k is Nil
    ||| k is Empty
    ||| k is Dollar
    ||| k is Ident
    ||| k is LParen
    ||| k is LBracket
}

/// Where the first point in `n` is, searching from `i` (the length if none).
pub open spec fn point_at(n: Seq<char>, i: int) -> int
    decreases n.len() - i,
{
    if i < 0 || i >= n.len() {
        n.len() as int
    } else if n[i] == '.' {
        i
    } else {
        point_at(n, i + 1)
    }
}

/// `s` without its leading zeros.
pub open spec fn drop_leading_zeros(s: Seq<char>) -> Seq<char>
    decreases s.len(),
{
    if s.len() > 0 && s[0] == '0' {
        drop_leading_zeros(s.drop_first())
    } else {
        s
    }
}

/// `s` without its trailing zeros.
pub open spec fn drop_trailing_zeros(s: Seq<char>) -> Seq<char>
    decreases s.len(),
{
    if s.len() > 0 && s.last() == '0' {
        drop_trailing_zeros(s.drop_last())
    } else {
        s
    }
}

/// A number literal as the number it denotes is written: no leading zeros in
/// the whole part (which is `0` when it has no other digit), no trailing
/// zeros in the fraction, and no point when no fraction remains.
pub open spec fn number_display(n: Seq<char>) -> Seq<char> {
    let k = point_at(n, 0);
    let whole = drop_leading_zeros(n.subrange(0, k));
    let whole = if whole.len() == 0 {
        seq!['0']
    } else {
        whole
    };
    let frac = if k < n.len() {
        drop_trailing_zeros(n.subrange(k + 1, n.len() as int))
    } else {
        Seq::empty()
    };
    if frac.len() == 0 {
        whole
    } else {
        whole + seq!['.'] + frac
    }
}

/// How a token is named in error messages.
pub open spec fn describe(k: STok) -> Seq<char> {
    match k {
        STok::Number(n) => "number "@ + number_display(n),
        STok::Text(_) => "text"@,
        STok::Ident(n) => "name '"@ + n + "'"@,
        STok::True => "'true'"@,
        STok::False => "'false'"@,
        STok::Nil => "'nil'"@,
        STok::Empty => "'..'"@,
        STok::Dollar => "'$'"@,
        STok::At => "'@'"@,
        STok::Colon => "':'"@,
        STok::ColonColon => "'::'"@,
        STok::Assign => "'='"@,
        STok::LBracket => "'['"@,
        STok::RBracket => "']'"@,
        STok::LParen => "'('"@,
        STok::RParen => "')'"@,
        STok::Lt => "'<'"@,
        STok::Gt => "'>'"@,
        STok::Le => "'<='"@,
        STok::Ge => "'>='"@,
        STok::EqEq => "'=='"@,
        STok::NotEq => "'!='"@,
        STok::Plus => "'+'"@,
        STok::Minus => "'-'"@,
        STok::Star => "'*'"@,
        STok::Slash => "'/'"@,
        STok::Percent => "'%'"@,
        STok::Tilde => "'~'"@,
        STok::Caret => "'^'"@,
        STok::Underscore => "'_'"@,
        STok::StarStar => "'**'"@,
        STok::SlashSlash => "'//'"@,
        STok::PlusPlus => "'++'"@,
        STok::MinusMinus => "'--'"@,
        STok::And => "'and'"@,
        STok::Or => "'or'"@,
        STok::Not => "'not'"@,
        STok::FatArrow => "'>>'"@,
        STok::Dot => "'.'"@,
        STok::If => "'if'"@,
        STok::Any => "'any'"@,
        STok::Else => "'else'"@,
        STok::QIf => "'?'"@,
        STok::QElse => "'??'"@,
        STok::QAny => "'?*'"@,
        STok::Newline => "end of line"@,
        STok::Eof => "end of input"@,
    }
}

/// The error `expect` reports at `p` when `what` is missing there.
pub open spec fn expected_err(t: Seq<SToken>, p: int, what: Seq<char>) -> ErrView {
    err_at(ln(t, p), "expected "@ + what + " but found "@ + describe(sk(t, p)))
}

/// The error `expect_ident` reports when the token at `p` is not a name (it
/// has already stepped past that token when it reports).
pub open spec fn ident_err(t: Seq<SToken>, p: int, what: Seq<char>) -> ErrView {
    err_at(ln(t, adv(t, p)), "expected "@ + what + ", found "@ + describe(sk(t, p)))
}

/// Does the line starting at `p` begin a new conditional arm? An arm header
/// carries a top-level `>>` (bracket depth 0 relative to `p`) before the end
/// of its line, and does not itself begin a nested conditional.
pub open spec fn arm_header(t: Seq<SToken>, p: int) -> bool {
    let k = sk(t, p);
    if k is Else || k is QElse {
        true
    } else if k is If || k is QIf || k is QAny {
        false
    } else {
        header_scan(t, p, 0)
    }
}

pub open spec fn header_scan(t: Seq<SToken>, i: int, depth: int) -> bool
    decreases t.len() - i,
{
    if i < 0 || i >= t.len() {
        false
    } else {
        let k = t[i].tok;
        if k is Newline || k is Eof {
            false
        } else if k is FatArrow && depth == 0 {
            true
        } else if k is LParen || k is LBracket {
            header_scan(t, i + 1, depth + 1)
        } else if k is RParen || k is RBracket {
            header_scan(t, i + 1, depth - 1)
        } else {
            header_scan(t, i + 1, depth)
        }
    }
}

/// The parameter names of a declaration, starting after its `(` and ending
/// with its `)`.
#[verifier::opaque]
pub open spec fn sp_params(t: Seq<SToken>, p: int, acc: Seq<Seq<char>>) -> Spanned0<
    Seq<Seq<char>>,
>
    decreases rest(t, p),
{
    let q = p + skip(t, p);
    if sk(t, q) is RParen {
        Ok((acc, (q + 1 - p) as nat))
    } else {
        match sk(t, q) {
            STok::Ident(n) => match sp_params(t, q + 1, acc.push(n)) {
                Ok((ps, c)) => Ok((ps, (q + 1 - p + c) as nat)),
                Err(e) => Err(e),
            },
            _ => Err(ident_err(t, q, "a parameter name"@)),
        }
    }
}

/// A binary operator tier: which token kinds it accepts and what they mean.
pub open spec fn tier_op(tier: int, k: STok) -> Option<BinOp> {
    if tier == 0 {
        if k is Or {
            Some(BinOp::Or)
        } else {
            None
        }
    } else if tier == 1 {
        if k is And {
            Some(BinOp::And)
        } else {
            None
        }
    } else if tier == 2 {
        if k is EqEq {
            Some(BinOp::Eq)
        } else if k is NotEq {
            Some(BinOp::Ne)
        } else {
            None
        }
    } else if tier == 3 {
        if k is Lt {
            Some(BinOp::Lt)
        } else if k is Gt {
            Some(BinOp::Gt)
        } else if k is Le {
            Some(BinOp::Le)
        } else if k is Ge {
            Some(BinOp::Ge)
        } else {
            None
        }
    } else if tier == 4 {
        if k is Plus {
            Some(BinOp::Add)
        } else if k is Minus {
            Some(BinOp::Sub)
        } else {
            None
        }
    } else {
        if k is Star {
            Some(BinOp::Mul)
        } else if k is Slash {
            Some(BinOp::Div)
        } else if k is Percent {
            Some(BinOp::Mod)
        } else {
            None
        }
    }
}

// --- the grammar ------------------------------------------------------------------------

/// A statement at `p`.
#[verifier::opaque]
pub open spec fn sp_stmt(t: Seq<SToken>, p: int, d: int) -> Spanned1<SStmt>
    decreases rest(t, p), 40nat,
{
    if sk(t, p) is At {
        // `@name` imports a module.
        match sk(t, p + 1) {
            STok::Ident(name) => Ok((SStmt::Import { name, line: ln(t, p) }, 1)),
            _ => Err(ident_err(t, p + 1, "a module name after '@'"@)),
        }
    } else if sk(t, p) is Colon {
        sp_func_decl(t, p, d)
    } else {
        let line = ln(t, p);
        match sp_expr(t, p, d) {
            Err(e) => Err(e),
            Ok((expr, n)) => {
                let q = p + 1 + n;
                let k = sk(t, q);
                if k is PlusPlus || k is MinusMinus {
                    // `x++` / `x--` desugar to an increment/decrement assignment.
                    if !lvalue(expr) {
                        Err(err_at(line, "'++' and '--' need a name or an index"@))
                    } else {
                        let op = if k is PlusPlus {
                            BinOp::Add
                        } else {
                            BinOp::Sub
                        };
                        let value = SExpr::Binary {
                            op,
                            left: Box::new(expr),
                            right: Box::new(SExpr::Number(seq!['1'])),
                            line,
                        };
                        Ok((SStmt::Assign { target: expr, value, line }, n + 1))
                    }
                } else if k is Colon || k is ColonColon {
                    match expr {
                        SExpr::Var { name, .. } => {
                            let r = q + 1 + skip(t, q + 1);
                            match sp_expr(t, r, d) {
                                Ok((value, m)) => Ok(
                                    (
                                        SStmt::Bind {
                                            name,
                                            value,
                                            deep: k is ColonColon,
                                            immutable: immutable_name(name),
                                            line,
                                        },
                                        (r + 1 + m - p - 1) as nat,
                                    ),
                                ),
                                Err(e) => Err(e),
                            }
                        },
                        _ => Err(err_at(line, "the left side of a binding must be a name"@)),
                    }
                } else if k is Assign {
                    if !lvalue(expr) {
                        Err(err_at(line, "the left side of '=' must be a name or an index"@))
                    } else {
                        let r = q + 1 + skip(t, q + 1);
                        match sp_expr(t, r, d) {
                            Ok((value, m)) => Ok(
                                (
                                    SStmt::Assign { target: expr, value, line },
                                    (r + 1 + m - p - 1) as nat,
                                ),
                            ),
                            Err(e) => Err(e),
                        }
                    }
                } else {
                    Ok((SStmt::Expr(expr), n))
                }
            },
        }
    }
}

/// `:name(params)` NEWLINE body `.` at `p`.
#[verifier::opaque]
pub open spec fn sp_func_decl(t: Seq<SToken>, p: int, d: int) -> Spanned1<SStmt>
    decreases rest(t, p), 39nat,
{
    let line = ln(t, p);
    if !(sk(t, p) is Colon) {
        Err(expected_err(t, p, "':' to start a function declaration"@))
    } else {
        match sk(t, p + 1) {
            STok::Ident(name) => {
                if !(sk(t, p + 2) is LParen) {
                    Err(expected_err(t, p + 2, "'(' to start the parameter list"@))
                } else {
                    match sp_params(t, p + 3, Seq::empty()) {
                        Err(e) => Err(e),
                        Ok((params, c)) => match sp_block(t, p + 3 + c, d, Seq::empty()) {
                            Err(e) => Err(e),
                            Ok((body, m)) => Ok(
                                (
                                    SStmt::Func {
                                        def: SFuncDef { name, params, body, line },
                                        immutable: immutable_name(name),
                                        line,
                                    },
                                    2 + c + m,
                                ),
                            ),
                        },
                    }
                }
            },
            _ => Err(ident_err(t, p + 1, "a function name"@)),
        }
    }
}

/// Statements up to the matching `.` terminator, which is consumed.
#[verifier::opaque]
pub open spec fn sp_block(t: Seq<SToken>, p: int, d: int, acc: Seq<SStmt>) -> Spanned0<Seq<SStmt>>
    decreases rest(t, p), 50nat,
{
    let q = p + skip(t, p);
    if sk(t, q) is Dot {
        Ok((acc, (q + 1 - p) as nat))
    } else if sk(t, q) is Eof {
        Err(err_at(ln(t, q), "unterminated block: expected '.'"@))
    } else {
        match sp_stmt(t, q, d) {
            Err(e) => Err(e),
            Ok((s, n)) => match sp_block(t, q + 1 + n, d, acc.push(s)) {
                Err(e) => Err(e),
                Ok((ss, m)) => Ok((ss, (q + 1 + n + m - p) as nat)),
            },
        }
    }
}

/// A full expression, including `>>` flow chains.
#[verifier::opaque]
pub open spec fn sp_expr(t: Seq<SToken>, p: int, d: int) -> Spanned1<SExpr>
    decreases rest(t, p), 32nat,
{
    match sp_tier(t, p, d, 0) {
        Err(e) => Err(e),
        Ok((left, n)) => match sp_flow(t, p + 1 + n, d, left) {
            Err(e) => Err(e),
            Ok((e, m)) => Ok((e, n + m)),
        },
    }
}

/// The `>> stage` continuations of a flow chain at `p`.
#[verifier::opaque]
pub open spec fn sp_flow(t: Seq<SToken>, p: int, d: int, left: SExpr) -> Spanned0<SExpr>
    decreases rest(t, p), 31nat,
{
    if sk(t, p) is FatArrow {
        let line = ln(t, p);
        let q = p + 1 + skip(t, p + 1);
        match sp_postfix(t, q, d) {
            Err(e) => Err(e),
            Ok((stage, n)) => match sp_flow(t, q + 1 + n, d, flow(left, stage, line)) {
                Err(e) => Err(e),
                Ok((e, m)) => Ok((e, (q + 1 + n + m - p) as nat)),
            },
        }
    } else {
        Ok((left, 0))
    }
}

/// A binary expression of operator tier `tier` (0 `or`, 1 `and`, 2 equality,
/// 3 comparison, 4 additive, 5 multiplicative); tier 6 is a unary expression.
#[verifier::opaque]
pub open spec fn sp_tier(t: Seq<SToken>, p: int, d: int, tier: int) -> Spanned1<SExpr>
    decreases rest(t, p), 31nat - (if 0 <= tier <= 6 { tier } else { 6 }) as nat,
{
    if tier < 0 || tier >= 6 {
        sp_unary(t, p, d)
    } else {
        match sp_tier(t, p, d, tier + 1) {
            Err(e) => Err(e),
            Ok((left, n)) => match sp_tier_rest(t, p + 1 + n, d, tier, left) {
                Err(e) => Err(e),
                Ok((e, m)) => Ok((e, n + m)),
            },
        }
    }
}

/// The `op operand` continuations of tier `tier` at `p`, folded to the left.
#[verifier::opaque]
pub open spec fn sp_tier_rest(t: Seq<SToken>, p: int, d: int, tier: int, left: SExpr) -> Spanned0<
    SExpr,
>
    decreases rest(t, p), 30nat - (if 0 <= tier <= 6 { tier } else { 6 }) as nat,
{
    let q = p + insig(t, p, d);
    match tier_op(tier, sk(t, q)) {
        None => Ok((left, (q - p) as nat)),
        Some(op) => {
            let line = ln(t, q);
            let r = q + 1 + skip(t, q + 1);
            match sp_tier(t, r, d, tier + 1) {
                Err(e) => Err(e),
                Ok((right, n)) => match sp_tier_rest(
                    t,
                    r + 1 + n,
                    d,
                    tier,
                    SExpr::Binary { op, left: Box::new(left), right: Box::new(right), line },
                ) {
                    Err(e) => Err(e),
                    Ok((e, m)) => Ok((e, (r + 1 + n + m - p) as nat)),
                },
            }
        },
    }
}

/// `not e`, `-e`, or a postfix expression.
#[verifier::opaque]
pub open spec fn sp_unary(t: Seq<SToken>, p: int, d: int) -> Spanned1<SExpr>
    decreases rest(t, p), 24nat,
{
    let k = sk(t, p);
    if k is Not || k is Minus {
        let op = if k is Not {
            UnOp::Not
        } else {
            UnOp::Neg
        };
        match sp_unary(t, p + 1, d) {
            Err(e) => Err(e),
            Ok((e, n)) => Ok((SExpr::Unary { op, expr: Box::new(e), line: ln(t, p) }, n + 1)),
        }
    } else {
        sp_postfix(t, p, d)
    }
}

/// A primary followed by the postfix suffixes that hug it.
#[verifier::opaque]
pub open spec fn sp_postfix(t: Seq<SToken>, p: int, d: int) -> Spanned1<SExpr>
    decreases rest(t, p), 23nat,
{
    match sp_primary(t, p, d) {
        Err(e) => Err(e),
        Ok((e, n)) => match sp_suffixes(t, p + 1 + n, d, e) {
            Err(e) => Err(e),
            Ok((e, m)) => Ok((e, n + m)),
        },
    }
}

/// One postfix suffix at `p` applied to `e`: `None` when no suffix hugs the
/// operand there, otherwise the extended expression and the number of tokens
/// the suffix spans. Suffixes are calls `(...)`, indexes `[...]`, dot-flow
/// `.name`, and the numeric postfix operators; each must hug the operand (no
/// space before it).
#[verifier::opaque]
pub open spec fn sp_suffix(t: Seq<SToken>, p: int, d: int, e: SExpr) -> Result<
    Option<(SExpr, nat)>,
    ErrView,
>
    decreases rest(t, p), 21nat,
{
    let k = sk(t, p);
    let line = ln(t, p);
    if spaced(t, p) {
        Ok(None)
    } else if k is LParen {
        match sp_args(t, p + 1, d + 1, Seq::empty()) {
            Err(err) => Err(err),
            Ok((args, c)) => Ok(Some((SExpr::Call { callee: Box::new(e), args, line }, 1 + c))),
        }
    } else if k is LBracket {
        let q = p + 1 + skip(t, p + 1);
        match sp_expr(t, q, d + 1) {
            Err(err) => Err(err),
            Ok((index, n)) => {
                let r = q + 1 + n + skip(t, q + 1 + n);
                if !(sk(t, r) is RBracket) {
                    Err(expected_err(t, r, "']' to close an index"@))
                } else {
                    Ok(
                        Some(
                            (
                                SExpr::Index { base: Box::new(e), index: Box::new(index), line },
                                (r + 1 - p) as nat,
                            ),
                        ),
                    )
                }
            },
        }
    } else if k is Dot && sk(t, p + 1) is Ident {
        // Dot-flow: `recv.name` == `name(recv)`, optionally with a
        // parenthesised argument list that receives `recv` first.
        let name = sk(t, p + 1)->Ident_0;
        let callee = Box::new(SExpr::Var { name, line });
        if sk(t, p + 2) is LParen && !spaced(t, p + 2) {
            match sp_args(t, p + 3, d + 1, seq![SArg::Normal(e)]) {
                Err(err) => Err(err),
                Ok((args, c)) => Ok(Some((SExpr::Call { callee, args, line }, 3 + c))),
            }
        } else {
            Ok(Some((SExpr::Call { callee, args: seq![SArg::Normal(e)], line }, 2)))
        }
    } else if k is Tilde {
        // Optional adjacent decimal count.
        if !spaced(t, p + 1) && sk(t, p + 1) is Number {
            match sp_primary(t, p + 1, d) {
                Err(err) => Err(err),
                Ok((places, n)) => Ok(
                    Some(
                        (
                            SExpr::Postfix {
                                op: PostOp::Round,
                                expr: Box::new(e),
                                arg: Some(Box::new(places)),
                                line,
                            },
                            2 + n,
                        ),
                    ),
                ),
            }
        } else {
            Ok(
                Some(
                    (SExpr::Postfix { op: PostOp::Round, expr: Box::new(e), arg: None, line }, 1),
                ),
            )
        }
    } else if k is Caret || k is Underscore || k is SlashSlash {
        let op = if k is Caret {
            PostOp::Ceil
        } else if k is Underscore {
            PostOp::Floor
        } else {
            PostOp::Sqrt
        };
        Ok(Some((SExpr::Postfix { op, expr: Box::new(e), arg: None, line }, 1)))
    } else if k is StarStar {
        // `x**y` is power; a bare `x**` is square.
        if !spaced(t, p + 1) && starts_primary(sk(t, p + 1)) {
            match sp_primary(t, p + 1, d) {
                Err(err) => Err(err),
                Ok((y, n)) => Ok(
                    Some(
                        (
                            SExpr::Postfix {
                                op: PostOp::Power,
                                expr: Box::new(e),
                                arg: Some(Box::new(y)),
                                line,
                            },
                            2 + n,
                        ),
                    ),
                ),
            }
        } else {
            Ok(
                Some(
                    (SExpr::Postfix { op: PostOp::Square, expr: Box::new(e), arg: None, line }, 1),
                ),
            )
        }
    } else {
        Ok(None)
    }
}

/// The postfix suffixes at `p` applied to `e`, one after another until none
/// hugs the operand.
#[verifier::opaque]
pub open spec fn sp_suffixes(t: Seq<SToken>, p: int, d: int, e: SExpr) -> Spanned0<SExpr>
    decreases rest(t, p), 22nat,
{
    match sp_suffix(t, p, d, e) {
        Err(err) => Err(err),
        Ok(None) => Ok((e, 0)),
        Ok(Some((e2, used))) => if used == 0 || p < 0 || p >= t.len() - 1 {
            Ok((e2, used))
        } else {
            match sp_suffixes(t, p + used, d, e2) {
                Err(err) => Err(err),
                Ok((e3, m)) => Ok((e3, used + m)),
            }
        },
    }
}

/// The arguments of a call after its `(`, up to and including its `)`.
/// `<group>` splat-opens a Group into separate arguments.
#[verifier::opaque]
pub open spec fn sp_args(t: Seq<SToken>, p: int, d: int, acc: Seq<SArg>) -> Spanned0<Seq<SArg>>
    decreases rest(t, p), 35nat,
{
    let q = p + skip(t, p);
    if sk(t, q) is RParen {
        Ok((acc, (q + 1 - p) as nat))
    } else if sk(t, q) is Eof {
        // An argument was due: the input ends instead.
        Err(err_at(ln(t, q), "unexpected "@ + describe(STok::Eof)))
    } else if sk(t, q) is Lt && !spaced(t, q + 1) {
        match sp_postfix(t, q + 1, d) {
            Err(e) => Err(e),
            Ok((e, n)) => {
                let r = q + 2 + n;
                if !(sk(t, r) is Gt) {
                    Err(expected_err(t, r, "'>' to close a splat argument"@))
                } else {
                    match sp_args(t, r + 1, d, acc.push(SArg::Splat(e))) {
                        Err(err) => Err(err),
                        Ok((args, m)) => Ok((args, (r + 1 + m - p) as nat)),
                    }
                }
            },
        }
    } else {
        match sp_expr(t, q, d) {
            Err(e) => Err(e),
            Ok((e, n)) => match sp_args(t, q + 1 + n, d, acc.push(SArg::Normal(e))) {
                Err(err) => Err(err),
                Ok((args, m)) => Ok((args, (q + 1 + n + m - p) as nat)),
            },
        }
    }
}

/// A primary expression at `p`.
#[verifier::opaque]
pub open spec fn sp_primary(t: Seq<SToken>, p: int, d: int) -> Spanned1<SExpr>
    decreases rest(t, p), 21nat,
{
    let line = ln(t, p);
    match sk(t, p) {
        STok::Number(n) => Ok((SExpr::Number(n), 0)),
        STok::Text(s) => Ok((SExpr::Text(s), 0)),
        STok::True => Ok((SExpr::Bool(true), 0)),
        STok::False => Ok((SExpr::Bool(false), 0)),
        STok::Nil => Ok((SExpr::Empty, 0)),
        STok::Empty => Ok((SExpr::Empty, 0)),
        STok::Dollar => Ok((SExpr::Last, 0)),
        STok::Ident(name) => {
            // Typed empty: `number ..` and `text ..` (the only bare
            // application forms Six keeps).
            if sk(t, p + 1) is Empty && name == "number"@ {
                Ok((SExpr::Empty, 1))
            } else if sk(t, p + 1) is Empty && name == "text"@ {
                Ok((SExpr::Text(Seq::empty()), 1))
            } else {
                Ok((SExpr::Var { name, line }, 0))
            }
        },
        STok::LParen => {
            let q = p + 1 + skip(t, p + 1);
            match sp_expr(t, q, d + 1) {
                Err(e) => Err(e),
                Ok((e, n)) => {
                    let r = q + 1 + n + skip(t, q + 1 + n);
                    if !(sk(t, r) is RParen) {
                        Err(expected_err(t, r, "')'"@))
                    } else {
                        Ok((e, (r - p) as nat))
                    }
                },
            }
        },
        STok::LBracket => sp_group(t, p, d),
        STok::If | STok::QIf | STok::QAny => sp_conditional(t, p, d),
        other => Err(err_at(line, "unexpected "@ + describe(other))),
    }
}

/// `if` / `if any` / `?` / `?*` at `p`, through its closing `.`.
#[verifier::opaque]
pub open spec fn sp_conditional(t: Seq<SToken>, p: int, d: int) -> Spanned1<SExpr>
    decreases rest(t, p), 20nat,
{
    let k = sk(t, p);
    let line = ln(t, p);
    if !(k is If || k is QIf || k is QAny) {
        Err(err_at(line, "unexpected "@ + describe(k)))
    } else {
        let (any, start) = cond_head(t, p);
        match sp_arms(t, start, d, line, Seq::empty(), None) {
            Err(e) => Err(e),
            Ok(((arms, else_body), c)) => Ok(
                (SExpr::If { any, arms, else_body, line }, (start + c - p - 1) as nat),
            ),
        }
    }
}

/// A Group literal `[...]` at `p`. Multi-line mode (`[` directly followed by a
/// newline) takes one full expression per line; inline mode takes
/// whitespace-separated atoms.
#[verifier::opaque]
pub open spec fn sp_group(t: Seq<SToken>, p: int, d: int) -> Spanned1<SExpr>
    decreases rest(t, p), 20nat,
{
    let line = ln(t, p);
    if !(sk(t, p) is LBracket) {
        Err(expected_err(t, p, "'['"@))
    } else {
        match sp_members(t, p + 1, d + 1, sk(t, p + 1) is Newline, line, Seq::empty()) {
            Err(e) => Err(e),
            Ok((members, c)) => Ok((SExpr::Group { members, line }, c)),
        }
    }
}

/// The members of a Group literal from `p`, up to and including its `]`.
#[verifier::opaque]
pub open spec fn sp_members(
    t: Seq<SToken>,
    p: int,
    d: int,
    multiline: bool,
    line: usize,
    acc: Seq<SExpr>,
) -> Spanned0<Seq<SExpr>>
    decreases rest(t, p), 35nat,
{
    let q = p + skip(t, p);
    if sk(t, q) is RBracket {
        Ok((acc, (q + 1 - p) as nat))
    } else if sk(t, q) is Eof {
        Err(err_at(line, "unterminated Group literal: expected ']'"@))
    } else {
        let member = if multiline {
            sp_expr(t, q, d)
        } else {
            sp_postfix(t, q, d)
        };
        match member {
            Err(e) => Err(e),
            Ok((e, n)) => match sp_members(t, q + 1 + n, d, multiline, line, acc.push(e)) {
                Err(err) => Err(err),
                Ok((ms, m)) => Ok((ms, (q + 1 + n + m - p) as nat)),
            },
        }
    }
}

/// How a conditional at `p` opens: whether it runs every matching arm
/// (`if any`, `?*`), and where its first arm starts.
pub open spec fn cond_head(t: Seq<SToken>, p: int) -> (bool, int) {
    let k = sk(t, p);
    let any_word = k is If && sk(t, p + 1) is Any;
    (any_word || k is QAny, if any_word { p + 2 } else { p + 1 })
}

/// The arms (and optional `else`) of a conditional from `p`, through its `.`.
#[verifier::opaque]
pub open spec fn sp_arms(
    t: Seq<SToken>,
    p: int,
    d: int,
    line: usize,
    arms: Seq<SArm>,
    else_body: Option<Seq<SStmt>>,
) -> Spanned0<(Seq<SArm>, Option<Seq<SStmt>>)>
    decreases rest(t, p), 35nat,
{
    let q = p + skip(t, p);
    let k = sk(t, q);
    if k is Dot {
        Ok(((arms, else_body), (q + 1 - p) as nat))
    } else if k is Eof {
        Err(err_at(line, "unterminated conditional: expected '.'"@))
    } else if k is Else || k is QElse {
        if !(sk(t, q + 1) is FatArrow) {
            Err(expected_err(t, q + 1, "'>>' after 'else'"@))
        } else {
            match sp_arm_body(t, q + 2, d, ln(t, q + 1)) {
                Err(e) => Err(e),
                Ok((body, c)) => match sp_arms(t, q + 2 + c, d, line, arms, Some(body)) {
                    Err(e) => Err(e),
                    Ok((r, m)) => Ok((r, (q + 2 + c + m - p) as nat)),
                },
            }
        }
    } else {
        match sp_tier(t, q, d, 0) {
            Err(e) => Err(e),
            Ok((cond, n)) => {
                let a = q + 1 + n;
                if !(sk(t, a) is FatArrow) {
                    Err(expected_err(t, a, "'>>' after a condition"@))
                } else {
                    match sp_arm_body(t, a + 1, d, ln(t, a)) {
                        Err(e) => Err(e),
                        Ok((body, c)) => match sp_arms(
                            t,
                            a + 1 + c,
                            d,
                            line,
                            arms.push(SArm { cond, body }),
                            else_body,
                        ) {
                            Err(e) => Err(e),
                            Ok((r, m)) => Ok((r, (a + 1 + c + m - p) as nat)),
                        },
                    }
                }
            },
        }
    }
}

/// An arm's consequent from `p`: an inline single statement when it shares the
/// arrow's line, otherwise statements up to the next arm header or the
/// conditional's terminator.
#[verifier::opaque]
pub open spec fn sp_arm_body(t: Seq<SToken>, p: int, d: int, arrow_line: usize) -> Spanned0<
    Seq<SStmt>,
>
    decreases rest(t, p), 51nat,
{
    let k = sk(t, p);
    if ln(t, p) == arrow_line && !(k is Newline || k is Dot || k is Eof) {
        match sp_stmt(t, p, d) {
            Err(e) => Err(e),
            Ok((s, n)) => Ok((seq![s], n + 1)),
        }
    } else {
        sp_body_lines(t, p, d, Seq::empty())
    }
}

/// The statements of a multi-line arm body from `p`.
#[verifier::opaque]
pub open spec fn sp_body_lines(t: Seq<SToken>, p: int, d: int, acc: Seq<SStmt>) -> Spanned0<
    Seq<SStmt>,
>
    decreases rest(t, p), 50nat,
{
    let q = p + skip(t, p);
    let k = sk(t, q);
    if k is Dot || k is Eof || arm_header(t, q) {
        Ok((acc, (q - p) as nat))
    } else {
        match sp_stmt(t, q, d) {
            Err(e) => Err(e),
            Ok((s, n)) => match sp_body_lines(t, q + 1 + n, d, acc.push(s)) {
                Err(e) => Err(e),
                Ok((ss, m)) => Ok((ss, (q + 1 + n + m - p) as nat)),
            },
        }
    }
}

/// The statements of a whole program from `p`.
#[verifier::opaque]
pub open spec fn sp_program(t: Seq<SToken>, p: int, acc: Seq<SStmt>) -> Result<Seq<SStmt>, ErrView>
    decreases rest(t, p),
{
    let q = p + skip(t, p);
    if sk(t, q) is Eof {
        Ok(acc)
    } else if sk(t, q) is Dot {
        Err(err_at(ln(t, q), "stray block terminator '.'"@))
    } else {
        match sp_stmt(t, q, 0) {
            Err(e) => Err(e),
            Ok((s, n)) => sp_program(t, q + 1 + n, acc.push(s)),
        }
    }
}

/// `r` with `k` more tokens counted in its span.
pub open spec fn shift<V>(r: Result<(V, nat), ErrView>, k: int) -> Result<(V, nat), ErrView> {
    match r {
        Ok((v, n)) => Ok((v, (k + n) as nat)),
        Err(e) => Err(e),
    }
}

/// The model of a parsing result.
pub open spec fn program_view(r: Result<Vec<Stmt>, SixError>) -> Result<Seq<SStmt>, ErrView> {
    match r {
        Ok(v) => Ok(stmts_view(v@)),
        Err(e) => Err(e@),
    }
}

/// The program (or the error) that parsing the tokens `t` yields.
pub open spec fn parse_spec(t: Seq<SToken>) -> Result<Seq<SStmt>, ErrView> {
    sp_program(t, 0, Seq::empty())
}


// --- the grammar, one step at a time --------------------------------------------------
//
// Each rule restated as an equation for a single position, so that a proof
// about one parsing step sees that step and nothing deeper.

/// The rule [`sp_params`] at a single position.
pub proof fn unfold_params(t: Seq<SToken>, p: int, acc: Seq<Seq<char>>)
    ensures
        sp_params(t, p, acc) == ({
            let q = p + skip(t, p);
            if sk(t, q) is RParen {
                Ok((acc, (q + 1 - p) as nat))
            } else {
                match sk(t, q) {
                    STok::Ident(n) => match sp_params(t, q + 1, acc.push(n)) {
                        Ok((ps, c)) => Ok((ps, (q + 1 - p + c) as nat)),
                        Err(e) => Err(e),
                    },
                    _ => Err(ident_err(t, q, "a parameter name"@)),
                }
            }
        }),
{
    reveal(sp_params);
}

/// The rule [`sp_stmt`] at a single position.
pub proof fn unfold_stmt(t: Seq<SToken>, p: int, d: int)
    ensures
        sp_stmt(t, p, d) == ({
            if sk(t, p) is At {
                // `@name` imports a module.
                match sk(t, p + 1) {
                    STok::Ident(name) => Ok((SStmt::Import { name, line: ln(t, p) }, 1)),
                    _ => Err(ident_err(t, p + 1, "a module name after '@'"@)),
                }
            } else if sk(t, p) is Colon {
                sp_func_decl(t, p, d)
            } else {
                let line = ln(t, p);
                match sp_expr(t, p, d) {
                    Err(e) => Err(e),
                    Ok((expr, n)) => {
                        let q = p + 1 + n;
                        let k = sk(t, q);
                        if k is PlusPlus || k is MinusMinus {
                            // `x++` / `x--` desugar to an increment/decrement assignment.
                            if !lvalue(expr) {
                                Err(err_at(line, "'++' and '--' need a name or an index"@))
                            } else {
                                let op = if k is PlusPlus {
                                    BinOp::Add
                                } else {
                                    BinOp::Sub
                                };
                                let value = SExpr::Binary {
                                    op,
                                    left: Box::new(expr),
                                    right: Box::new(SExpr::Number(seq!['1'])),
                                    line,
                                };
                                Ok((SStmt::Assign { target: expr, value, line }, n + 1))
                            }
                        } else if k is Colon || k is ColonColon {
                            match expr {
                                SExpr::Var { name, .. } => {
                                    let r = q + 1 + skip(t, q + 1);
                                    match sp_expr(t, r, d) {
                                        Ok((value, m)) => Ok(
                                            (
                                                SStmt::Bind {
                                                    name,
                                                    value,
                                                    deep: k is ColonColon,
                                                    immutable: immutable_name(name),
                                                    line,
                                                },
                                                (r + 1 + m - p - 1) as nat,
                                            ),
                                        ),
                                        Err(e) => Err(e),
                                    }
                                },
                                _ => Err(err_at(line, "the left side of a binding must be a name"@)),
                            }
                        } else if k is Assign {
                            if !lvalue(expr) {
                                Err(err_at(line, "the left side of '=' must be a name or an index"@))
                            } else {
                                let r = q + 1 + skip(t, q + 1);
                                match sp_expr(t, r, d) {
                                    Ok((value, m)) => Ok(
                                        (
                                            SStmt::Assign { target: expr, value, line },
                                            (r + 1 + m - p - 1) as nat,
                                        ),
                                    ),
                                    Err(e) => Err(e),
                                }
                            }
                        } else {
                            Ok((SStmt::Expr(expr), n))
                        }
                    },
                }
            }
        }),
{
    reveal(sp_stmt);
    reveal(sp_expr);
    reveal(sp_func_decl);
}

/// The rule [`sp_func_decl`] at a single position.
pub proof fn unfold_func_decl(t: Seq<SToken>, p: int, d: int)
    ensures
        sp_func_decl(t, p, d) == ({
            let line = ln(t, p);
            if !(sk(t, p) is Colon) {
                Err(expected_err(t, p, "':' to start a function declaration"@))
            } else {
                match sk(t, p + 1) {
                    STok::Ident(name) => {
                        if !(sk(t, p + 2) is LParen) {
                            Err(expected_err(t, p + 2, "'(' to start the parameter list"@))
                        } else {
                            match sp_params(t, p + 3, Seq::empty()) {
                                Err(e) => Err(e),
                                Ok((params, c)) => match sp_block(t, p + 3 + c, d, Seq::empty()) {
                                    Err(e) => Err(e),
                                    Ok((body, m)) => Ok(
                                        (
                                            SStmt::Func {
                                                def: SFuncDef { name, params, body, line },
                                                immutable: immutable_name(name),
                                                line,
                                            },
                                            2 + c + m,
                                        ),
                                    ),
                                },
                            }
                        }
                    },
                    _ => Err(ident_err(t, p + 1, "a function name"@)),
                }
            }
        }),
{
    reveal(sp_func_decl);
    reveal(sp_block);
    reveal(sp_params);
}

/// The rule [`sp_block`] at a single position.
pub proof fn unfold_block(t: Seq<SToken>, p: int, d: int, acc: Seq<SStmt>)
    ensures
        sp_block(t, p, d, acc) == ({
            let q = p + skip(t, p);
            if sk(t, q) is Dot {
                Ok((acc, (q + 1 - p) as nat))
            } else if sk(t, q) is Eof {
                Err(err_at(ln(t, q), "unterminated block: expected '.'"@))
            } else {
                match sp_stmt(t, q, d) {
                    Err(e) => Err(e),
                    Ok((s, n)) => match sp_block(t, q + 1 + n, d, acc.push(s)) {
                        Err(e) => Err(e),
                        Ok((ss, m)) => Ok((ss, (q + 1 + n + m - p) as nat)),
                    },
                }
            }
        }),
{
    reveal(sp_block);
    reveal(sp_stmt);
}

/// The rule [`sp_expr`] at a single position.
pub proof fn unfold_expr(t: Seq<SToken>, p: int, d: int)
    ensures
        sp_expr(t, p, d) == ({
            match sp_tier(t, p, d, 0) {
                Err(e) => Err(e),
                Ok((left, n)) => match sp_flow(t, p + 1 + n, d, left) {
                    Err(e) => Err(e),
                    Ok((e, m)) => Ok((e, n + m)),
                },
            }
        }),
{
    reveal(sp_expr);
    reveal(sp_flow);
    reveal(sp_tier);
}

/// The rule [`sp_flow`] at a single position.
pub proof fn unfold_flow(t: Seq<SToken>, p: int, d: int, left: SExpr)
    ensures
        sp_flow(t, p, d, left) == ({
            if sk(t, p) is FatArrow {
                let line = ln(t, p);
                let q = p + 1 + skip(t, p + 1);
                match sp_postfix(t, q, d) {
                    Err(e) => Err(e),
                    Ok((stage, n)) => match sp_flow(t, q + 1 + n, d, flow(left, stage, line)) {
                        Err(e) => Err(e),
                        Ok((e, m)) => Ok((e, (q + 1 + n + m - p) as nat)),
                    },
                }
            } else {
                Ok((left, 0))
            }
        }),
{
    reveal(sp_flow);
    reveal(sp_postfix);
}

/// The rule [`sp_tier`] at a single position.
pub proof fn unfold_tier(t: Seq<SToken>, p: int, d: int, tier: int)
    ensures
        sp_tier(t, p, d, tier) == ({
            if tier < 0 || tier >= 6 {
                sp_unary(t, p, d)
            } else {
                match sp_tier(t, p, d, tier + 1) {
                    Err(e) => Err(e),
                    Ok((left, n)) => match sp_tier_rest(t, p + 1 + n, d, tier, left) {
                        Err(e) => Err(e),
                        Ok((e, m)) => Ok((e, n + m)),
                    },
                }
            }
        }),
{
    reveal(sp_tier);
    reveal(sp_tier_rest);
    reveal(sp_unary);
}

/// The rule [`sp_tier_rest`] at a single position.
pub proof fn unfold_tier_rest(t: Seq<SToken>, p: int, d: int, tier: int, left: SExpr)
    ensures
        sp_tier_rest(t, p, d, tier, left) == ({
            let q = p + insig(t, p, d);
            match tier_op(tier, sk(t, q)) {
                None => Ok((left, (q - p) as nat)),
                Some(op) => {
                    let line = ln(t, q);
                    let r = q + 1 + skip(t, q + 1);
                    match sp_tier(t, r, d, tier + 1) {
                        Err(e) => Err(e),
                        Ok((right, n)) => match sp_tier_rest(
                            t,
                            r + 1 + n,
                            d,
                            tier,
                            SExpr::Binary { op, left: Box::new(left), right: Box::new(right), line },
                        ) {
                            Err(e) => Err(e),
                            Ok((e, m)) => Ok((e, (r + 1 + n + m - p) as nat)),
                        },
                    }
                },
            }
        }),
{
    reveal(sp_tier_rest);
    reveal(sp_tier);
}

/// The rule [`sp_unary`] at a single position.
pub proof fn unfold_unary(t: Seq<SToken>, p: int, d: int)
    ensures
        sp_unary(t, p, d) == ({
            let k = sk(t, p);
            if k is Not || k is Minus {
                let op = if k is Not {
                    UnOp::Not
                } else {
                    UnOp::Neg
                };
                match sp_unary(t, p + 1, d) {
                    Err(e) => Err(e),
                    Ok((e, n)) => Ok((SExpr::Unary { op, expr: Box::new(e), line: ln(t, p) }, n + 1)),
                }
            } else {
                sp_postfix(t, p, d)
            }
        }),
{
    reveal(sp_unary);
    reveal(sp_postfix);
}

/// The rule [`sp_postfix`] at a single position.
pub proof fn unfold_postfix(t: Seq<SToken>, p: int, d: int)
    ensures
        sp_postfix(t, p, d) == ({
            match sp_primary(t, p, d) {
                Err(e) => Err(e),
                Ok((e, n)) => match sp_suffixes(t, p + 1 + n, d, e) {
                    Err(e) => Err(e),
                    Ok((e, m)) => Ok((e, n + m)),
                },
            }
        }),
{
    reveal(sp_postfix);
    reveal(sp_primary);
    reveal(sp_suffixes);
}

/// The rule [`sp_suffix`] at a single position.
pub proof fn unfold_suffix(t: Seq<SToken>, p: int, d: int, e: SExpr)
    ensures
        sp_suffix(t, p, d, e) == ({
            let k = sk(t, p);
            let line = ln(t, p);
            if spaced(t, p) {
                Ok(None)
            } else if k is LParen {
                match sp_args(t, p + 1, d + 1, Seq::empty()) {
                    Err(err) => Err(err),
                    Ok((args, c)) => Ok(Some((SExpr::Call { callee: Box::new(e), args, line }, 1 + c))),
                }
            } else if k is LBracket {
                let q = p + 1 + skip(t, p + 1);
                match sp_expr(t, q, d + 1) {
                    Err(err) => Err(err),
                    Ok((index, n)) => {
                        let r = q + 1 + n + skip(t, q + 1 + n);
                        if !(sk(t, r) is RBracket) {
                            Err(expected_err(t, r, "']' to close an index"@))
                        } else {
                            Ok(
                                Some(
                                    (
                                        SExpr::Index { base: Box::new(e), index: Box::new(index), line },
                                        (r + 1 - p) as nat,
                                    ),
                                ),
                            )
                        }
                    },
                }
            } else if k is Dot && sk(t, p + 1) is Ident {
                // Dot-flow: `recv.name` == `name(recv)`, optionally with a
                // parenthesised argument list that receives `recv` first.
                let name = sk(t, p + 1)->Ident_0;
                let callee = Box::new(SExpr::Var { name, line });
                if sk(t, p + 2) is LParen && !spaced(t, p + 2) {
                    match sp_args(t, p + 3, d + 1, seq![SArg::Normal(e)]) {
                        Err(err) => Err(err),
                        Ok((args, c)) => Ok(Some((SExpr::Call { callee, args, line }, 3 + c))),
                    }
                } else {
                    Ok(Some((SExpr::Call { callee, args: seq![SArg::Normal(e)], line }, 2)))
                }
            } else if k is Tilde {
                // Optional adjacent decimal count.
                if !spaced(t, p + 1) && sk(t, p + 1) is Number {
                    match sp_primary(t, p + 1, d) {
                        Err(err) => Err(err),
                        Ok((places, n)) => Ok(
                            Some(
                                (
                                    SExpr::Postfix {
                                        op: PostOp::Round,
                                        expr: Box::new(e),
                                        arg: Some(Box::new(places)),
                                        line,
                                    },
                                    2 + n,
                                ),
                            ),
                        ),
                    }
                } else {
                    Ok(
                        Some(
                            (SExpr::Postfix { op: PostOp::Round, expr: Box::new(e), arg: None, line }, 1),
                        ),
                    )
                }
            } else if k is Caret || k is Underscore || k is SlashSlash {
                let op = if k is Caret {
                    PostOp::Ceil
                } else if k is Underscore {
                    PostOp::Floor
                } else {
                    PostOp::Sqrt
                };
                Ok(Some((SExpr::Postfix { op, expr: Box::new(e), arg: None, line }, 1)))
            } else if k is StarStar {
                // `x**y` is power; a bare `x**` is square.
                if !spaced(t, p + 1) && starts_primary(sk(t, p + 1)) {
                    match sp_primary(t, p + 1, d) {
                        Err(err) => Err(err),
                        Ok((y, n)) => Ok(
                            Some(
                                (
                                    SExpr::Postfix {
                                        op: PostOp::Power,
                                        expr: Box::new(e),
                                        arg: Some(Box::new(y)),
                                        line,
                                    },
                                    2 + n,
                                ),
                            ),
                        ),
                    }
                } else {
                    Ok(
                        Some(
                            (SExpr::Postfix { op: PostOp::Square, expr: Box::new(e), arg: None, line }, 1),
                        ),
                    )
                }
            } else {
                Ok(None)
            }
        }),
{
    reveal(sp_suffix);
    reveal(sp_args);
    reveal(sp_expr);
    reveal(sp_primary);
}

/// The rule [`sp_suffixes`] at a single position.
pub proof fn unfold_suffixes(t: Seq<SToken>, p: int, d: int, e: SExpr)
    ensures
        sp_suffixes(t, p, d, e) == ({
            match sp_suffix(t, p, d, e) {
                Err(err) => Err(err),
                Ok(None) => Ok((e, 0)),
                Ok(Some((e2, used))) => if used == 0 || p < 0 || p >= t.len() - 1 {
                    Ok((e2, used))
                } else {
                    match sp_suffixes(t, p + used, d, e2) {
                        Err(err) => Err(err),
                        Ok((e3, m)) => Ok((e3, used + m)),
                    }
                },
            }
        }),
{
    reveal(sp_suffixes);
    reveal(sp_suffix);
}

/// The rule [`sp_args`] at a single position.
pub proof fn unfold_args(t: Seq<SToken>, p: int, d: int, acc: Seq<SArg>)
    ensures
        sp_args(t, p, d, acc) == ({
            let q = p + skip(t, p);
            if sk(t, q) is RParen {
                Ok((acc, (q + 1 - p) as nat))
            } else if sk(t, q) is Eof {
                // An argument was due: the input ends instead.
                Err(err_at(ln(t, q), "unexpected "@ + describe(STok::Eof)))
            } else if sk(t, q) is Lt && !spaced(t, q + 1) {
                match sp_postfix(t, q + 1, d) {
                    Err(e) => Err(e),
                    Ok((e, n)) => {
                        let r = q + 2 + n;
                        if !(sk(t, r) is Gt) {
                            Err(expected_err(t, r, "'>' to close a splat argument"@))
                        } else {
                            match sp_args(t, r + 1, d, acc.push(SArg::Splat(e))) {
                                Err(err) => Err(err),
                                Ok((args, m)) => Ok((args, (r + 1 + m - p) as nat)),
                            }
                        }
                    },
                }
            } else {
                match sp_expr(t, q, d) {
                    Err(e) => Err(e),
                    Ok((e, n)) => match sp_args(t, q + 1 + n, d, acc.push(SArg::Normal(e))) {
                        Err(err) => Err(err),
                        Ok((args, m)) => Ok((args, (q + 1 + n + m - p) as nat)),
                    },
                }
            }
        }),
{
    reveal(sp_args);
    reveal(sp_expr);
    reveal(sp_postfix);
}

/// The rule [`sp_primary`] at a single position.
pub proof fn unfold_primary(t: Seq<SToken>, p: int, d: int)
    ensures
        sp_primary(t, p, d) == ({
            let line = ln(t, p);
            match sk(t, p) {
                STok::Number(n) => Ok((SExpr::Number(n), 0)),
                STok::Text(s) => Ok((SExpr::Text(s), 0)),
                STok::True => Ok((SExpr::Bool(true), 0)),
                STok::False => Ok((SExpr::Bool(false), 0)),
                STok::Nil => Ok((SExpr::Empty, 0)),
                STok::Empty => Ok((SExpr::Empty, 0)),
                STok::Dollar => Ok((SExpr::Last, 0)),
                STok::Ident(name) => {
                    // Typed empty: `number ..` and `text ..` (the only bare
                    // application forms Six keeps).
                    if sk(t, p + 1) is Empty && name == "number"@ {
                        Ok((SExpr::Empty, 1))
                    } else if sk(t, p + 1) is Empty && name == "text"@ {
                        Ok((SExpr::Text(Seq::empty()), 1))
                    } else {
                        Ok((SExpr::Var { name, line }, 0))
                    }
                },
                STok::LParen => {
                    let q = p + 1 + skip(t, p + 1);
                    match sp_expr(t, q, d + 1) {
                        Err(e) => Err(e),
                        Ok((e, n)) => {
                            let r = q + 1 + n + skip(t, q + 1 + n);
                            if !(sk(t, r) is RParen) {
                                Err(expected_err(t, r, "')'"@))
                            } else {
                                Ok((e, (r - p) as nat))
                            }
                        },
                    }
                },
                STok::LBracket => sp_group(t, p, d),
                STok::If | STok::QIf | STok::QAny => sp_conditional(t, p, d),
                other => Err(err_at(line, "unexpected "@ + describe(other))),
            }
        }),
{
    reveal(sp_primary);
    reveal(sp_conditional);
    reveal(sp_expr);
    reveal(sp_group);
}

/// The rule [`sp_conditional`] at a single position.
pub proof fn unfold_conditional(t: Seq<SToken>, p: int, d: int)
    ensures
        sp_conditional(t, p, d) == ({
            let k = sk(t, p);
            let line = ln(t, p);
            if !(k is If || k is QIf || k is QAny) {
                Err(err_at(line, "unexpected "@ + describe(k)))
            } else {
                let (any, start) = cond_head(t, p);
                match sp_arms(t, start, d, line, Seq::empty(), None) {
                    Err(e) => Err(e),
                    Ok(((arms, else_body), c)) => Ok(
                        (SExpr::If { any, arms, else_body, line }, (start + c - p - 1) as nat),
                    ),
                }
            }
        }),
{
    reveal(sp_conditional);
    reveal(sp_arms);
}

/// The rule [`sp_group`] at a single position.
pub proof fn unfold_group(t: Seq<SToken>, p: int, d: int)
    ensures
        sp_group(t, p, d) == ({
            let line = ln(t, p);
            if !(sk(t, p) is LBracket) {
                Err(expected_err(t, p, "'['"@))
            } else {
                match sp_members(t, p + 1, d + 1, sk(t, p + 1) is Newline, line, Seq::empty()) {
                    Err(e) => Err(e),
                    Ok((members, c)) => Ok((SExpr::Group { members, line }, c)),
                }
            }
        }),
{
    reveal(sp_group);
    reveal(sp_members);
}

/// The rule [`sp_members`] at a single position.
pub proof fn unfold_members(
    t: Seq<SToken>,
    p: int,
    d: int,
    multiline: bool,
    line: usize,
    acc: Seq<SExpr>,
)
    ensures
        sp_members(t, p, d, multiline, line, acc) == ({
            let q = p + skip(t, p);
            if sk(t, q) is RBracket {
                Ok((acc, (q + 1 - p) as nat))
            } else if sk(t, q) is Eof {
                Err(err_at(line, "unterminated Group literal: expected ']'"@))
            } else {
                let member = if multiline {
                    sp_expr(t, q, d)
                } else {
                    sp_postfix(t, q, d)
                };
                match member {
                    Err(e) => Err(e),
                    Ok((e, n)) => match sp_members(t, q + 1 + n, d, multiline, line, acc.push(e)) {
                        Err(err) => Err(err),
                        Ok((ms, m)) => Ok((ms, (q + 1 + n + m - p) as nat)),
                    },
                }
            }
        }),
{
    reveal(sp_members);
    reveal(sp_expr);
    reveal(sp_postfix);
}

/// The rule [`sp_arms`] at a single position.
pub proof fn unfold_arms(
    t: Seq<SToken>,
    p: int,
    d: int,
    line: usize,
    arms: Seq<SArm>,
    else_body: Option<Seq<SStmt>>,
)
    ensures
        sp_arms(t, p, d, line, arms, else_body) == ({
            let q = p + skip(t, p);
            let k = sk(t, q);
            if k is Dot {
                Ok(((arms, else_body), (q + 1 - p) as nat))
            } else if k is Eof {
                Err(err_at(line, "unterminated conditional: expected '.'"@))
            } else if k is Else || k is QElse {
                if !(sk(t, q + 1) is FatArrow) {
                    Err(expected_err(t, q + 1, "'>>' after 'else'"@))
                } else {
                    match sp_arm_body(t, q + 2, d, ln(t, q + 1)) {
                        Err(e) => Err(e),
                        Ok((body, c)) => match sp_arms(t, q + 2 + c, d, line, arms, Some(body)) {
                            Err(e) => Err(e),
                            Ok((r, m)) => Ok((r, (q + 2 + c + m - p) as nat)),
                        },
                    }
                }
            } else {
                match sp_tier(t, q, d, 0) {
                    Err(e) => Err(e),
                    Ok((cond, n)) => {
                        let a = q + 1 + n;
                        if !(sk(t, a) is FatArrow) {
                            Err(expected_err(t, a, "'>>' after a condition"@))
                        } else {
                            match sp_arm_body(t, a + 1, d, ln(t, a)) {
                                Err(e) => Err(e),
                                Ok((body, c)) => match sp_arms(
                                    t,
                                    a + 1 + c,
                                    d,
                                    line,
                                    arms.push(SArm { cond, body }),
                                    else_body,
                                ) {
                                    Err(e) => Err(e),
                                    Ok((r, m)) => Ok((r, (a + 1 + c + m - p) as nat)),
                                },
                            }
                        }
                    },
                }
            }
        }),
{
    reveal(sp_arms);
    reveal(sp_arm_body);
    reveal(sp_tier);
}

/// The rule [`sp_arm_body`] at a single position.
pub proof fn unfold_arm_body(t: Seq<SToken>, p: int, d: int, arrow_line: usize)
    ensures
        sp_arm_body(t, p, d, arrow_line) == ({
            let k = sk(t, p);
            if ln(t, p) == arrow_line && !(k is Newline || k is Dot || k is Eof) {
                match sp_stmt(t, p, d) {
                    Err(e) => Err(e),
                    Ok((s, n)) => Ok((seq![s], n + 1)),
                }
            } else {
                sp_body_lines(t, p, d, Seq::empty())
            }
        }),
{
    reveal(sp_arm_body);
    reveal(sp_body_lines);
    reveal(sp_stmt);
}

/// The rule [`sp_body_lines`] at a single position.
pub proof fn unfold_body_lines(t: Seq<SToken>, p: int, d: int, acc: Seq<SStmt>)
    ensures
        sp_body_lines(t, p, d, acc) == ({
            let q = p + skip(t, p);
            let k = sk(t, q);
            if k is Dot || k is Eof || arm_header(t, q) {
                Ok((acc, (q - p) as nat))
            } else {
                match sp_stmt(t, q, d) {
                    Err(e) => Err(e),
                    Ok((s, n)) => match sp_body_lines(t, q + 1 + n, d, acc.push(s)) {
                        Err(e) => Err(e),
                        Ok((ss, m)) => Ok((ss, (q + 1 + n + m - p) as nat)),
                    },
                }
            }
        }),
{
    reveal(sp_body_lines);
    reveal(sp_stmt);
}

/// The rule [`sp_program`] at a single position.
pub proof fn unfold_program(t: Seq<SToken>, p: int, acc: Seq<SStmt>)
    ensures
        sp_program(t, p, acc) == ({
            let q = p + skip(t, p);
            if sk(t, q) is Eof {
                Ok(acc)
            } else if sk(t, q) is Dot {
                Err(err_at(ln(t, q), "stray block terminator '.'"@))
            } else {
                match sp_stmt(t, q, 0) {
                    Err(e) => Err(e),
                    Ok((s, n)) => sp_program(t, q + 1 + n, acc.push(s)),
                }
            }
        }),
{
    reveal(sp_program);
    reveal(sp_stmt);
}

// --- laws ---------------------------------------------------------------------------

/// `value >> f(args)` is the call `f(value args)`: the flowing value becomes
/// the first argument of the stage; a stage that is not a call is called with
/// the value alone.
pub proof fn law_flow_feeds_first_argument(value: SExpr, stage: SExpr, line: usize)
    ensures
        (stage matches SExpr::Call { callee, args, line: l } ==> flow(value, stage, line)
            == (SExpr::Call { callee, args: seq![SArg::Normal(value)] + args, line: l })),
        (!(stage is Call) ==> flow(value, stage, line) == (SExpr::Call {
            callee: Box::new(stage),
            args: seq![SArg::Normal(value)],
            line,
        })),
{
}

/// Dot-flow is call sugar: `recv.name` hugging its operand reads as
/// `name(recv)`, and `recv.name(args)` as `name(recv args)`.
pub proof fn law_dot_flow_is_call_sugar(t: Seq<SToken>, p: int, d: int, recv: SExpr)
    requires
        sk(t, p) is Dot,
        !spaced(t, p),
        sk(t, p + 1) is Ident,
    ensures
        (sk(t, p + 2) is LParen && !spaced(t, p + 2)) ==> sp_suffix(t, p, d, recv) == dot_call(
            sp_args(t, p + 3, d + 1, seq![SArg::Normal(recv)]),
            sk(t, p + 1)->Ident_0,
            ln(t, p),
            3,
        ),
        !(sk(t, p + 2) is LParen && !spaced(t, p + 2)) ==> sp_suffix(t, p, d, recv) == dot_call(
            Ok((seq![SArg::Normal(recv)], 0)),
            sk(t, p + 1)->Ident_0,
            ln(t, p),
            2,
        ),
{
    unfold_suffix(t, p, d, recv);
}

/// The call `name(args)` on `line`, the arguments read over `k` more tokens.
pub open spec fn dot_call(args: Spanned0<Seq<SArg>>, name: Seq<char>, line: usize, k: nat) -> Result<
    Option<(SExpr, nat)>,
    ErrView,
> {
    match args {
        Err(e) => Err(e),
        Ok((args, c)) => Ok(
            Some(
                (
                    SExpr::Call { callee: Box::new(SExpr::Var { name, line }), args, line },
                    k + c,
                ),
            ),
        ),
    }
}

/// A postfix suffix must hug its operand: with space before the next token,
/// no suffix applies and nothing is read.
pub proof fn law_suffixes_hug(t: Seq<SToken>, p: int, d: int, e: SExpr)
    requires
        spaced(t, p),
    ensures
        sp_suffixes(t, p, d, e) == Ok::<(SExpr, nat), ErrView>((e, 0)),
{
    unfold_suffixes(t, p, d, e);
    unfold_suffix(t, p, d, e);
}

proof fn lemma_skip_stops(t: Seq<SToken>, p: int)
    requires
        p >= 0,
    ensures
        !(sk(t, p + skip(t, p)) is Newline),
        skip(t, p + skip(t, p)) == 0,
    decreases t.len() - p,
{
    if sk(t, p) is Newline {
        lemma_skip_stops(t, p + 1);
    }
}

/// Inside parentheses or brackets, newlines are insignificant: an operator
/// on a later line continues the expression. Outside them, a newline ends
/// it.
pub proof fn law_newlines_inside_brackets(
    t: Seq<SToken>,
    p: int,
    d: int,
    tier: int,
    left: SExpr,
)
    requires
        p >= 0,
    ensures
        d > 0 ==> sp_tier_rest(t, p, d, tier, left) == shift(
            sp_tier_rest(t, p + skip(t, p), d, tier, left),
            skip(t, p) as int,
        ),
        d <= 0 && sk(t, p) is Newline ==> sp_tier_rest(t, p, d, tier, left) == Ok::<
            (SExpr, nat),
            ErrView,
        >((left, 0)),
{
    lemma_skip_stops(t, p);
    unfold_tier_rest(t, p, d, tier, left);
    unfold_tier_rest(t, p + skip(t, p), d, tier, left);
    let q = p + skip(t, p);
    if d > 0 {
        if let Some(op) = tier_op(tier, sk(t, q)) {
            let r = q + 1 + skip(t, q + 1);
            if let Ok((right, n)) = sp_tier(t, r, d, tier + 1) {
                let e = SExpr::Binary { op, left: Box::new(left), right: Box::new(right), line: ln(
                    t,
                    q,
                ) };
                assert(sp_tier_rest(t, r + 1 + n, d, tier, e) matches Ok((x, m)) ==> (r + 1 + n
                    + m - p) as nat == skip(t, p) + (r + 1 + n + m - q) as nat);
            }
        }
    }
}

/// `x++` and `x--` desugar to the assignments `x = x + 1` and `x = x - 1`,
/// and only a name or an index can be incremented.
pub proof fn law_increment_desugars(t: Seq<SToken>, p: int, d: int)
    requires
        !(sk(t, p) is At),
        !(sk(t, p) is Colon),
        sp_expr(t, p, d) is Ok,
        ({
            let k = sk(t, p + 1 + sp_expr(t, p, d)->Ok_0.1);
            k is PlusPlus || k is MinusMinus
        }),
    ensures
        ({
            let (x, n) = sp_expr(t, p, d)->Ok_0;
            let line = ln(t, p);
            let op = if sk(t, p + 1 + n) is PlusPlus {
                BinOp::Add
            } else {
                BinOp::Sub
            };
            let one = SExpr::Number(seq!['1']);
            if lvalue(x) {
                sp_stmt(t, p, d) == Ok::<(SStmt, nat), ErrView>(
                    (
                        SStmt::Assign {
                            target: x,
                            value: SExpr::Binary {
                                op,
                                left: Box::new(x),
                                right: Box::new(one),
                                line,
                            },
                            line,
                        },
                        n + 1,
                    ),
                )
            } else {
                sp_stmt(t, p, d) == Err::<(SStmt, nat), ErrView>(
                    err_at(line, "'++' and '--' need a name or an index"@),
                )
            }
        }),
{
    unfold_stmt(t, p, d);
}

// --- every binding records its immutability ------------------------------------------

/// Every binding and declaration in a statement records as its immutability
/// whether its name's first alphabetic character is uppercase; so do those
/// nested in function bodies and conditional arms.
pub open spec fn marked_stmt(s: SStmt) -> bool
    decreases s,
{
    match s {
        SStmt::Bind { name, value, immutable, .. } => immutable == immutable_name(name)
            && marked_expr(value),
        SStmt::Assign { target, value, .. } => marked_expr(target) && marked_expr(value),
        SStmt::Func { def, immutable, .. } => immutable == immutable_name(def.name) && marked_stmts(
            def.body,
        ),
        SStmt::Import { .. } => true,
        SStmt::Expr(e) => marked_expr(e),
    }
}

pub open spec fn marked_stmts(ss: Seq<SStmt>) -> bool
    decreases ss,
{
    if ss.len() == 0 {
        true
    } else {
        marked_stmts(ss.drop_last()) && marked_stmt(ss.last())
    }
}

pub open spec fn marked_expr(e: SExpr) -> bool
    decreases e,
{
    match e {
        SExpr::Group { members, .. } => marked_exprs(members),
        SExpr::Index { base, index, .. } => marked_expr(*base) && marked_expr(*index),
        SExpr::Call { callee, args, .. } => marked_expr(*callee) && marked_args(args),
        SExpr::Unary { expr, .. } => marked_expr(*expr),
        SExpr::Postfix { expr, arg, .. } => marked_expr(*expr) && match arg {
            Some(a) => marked_expr(*a),
            None => true,
        },
        SExpr::Binary { left, right, .. } => marked_expr(*left) && marked_expr(*right),
        SExpr::If { arms, else_body, .. } => marked_arms(arms) && match else_body {
            Some(b) => marked_stmts(b),
            None => true,
        },
        _ => true,
    }
}

pub open spec fn marked_exprs(es: Seq<SExpr>) -> bool
    decreases es,
{
    if es.len() == 0 {
        true
    } else {
        marked_exprs(es.drop_last()) && marked_expr(es.last())
    }
}

pub open spec fn marked_args(args: Seq<SArg>) -> bool
    decreases args,
{
    if args.len() == 0 {
        true
    } else {
        marked_args(args.drop_last()) && match args.last() {
            SArg::Normal(e) => marked_expr(e),
            SArg::Splat(e) => marked_expr(e),
        }
    }
}

pub open spec fn marked_arms(arms: Seq<SArm>) -> bool
    decreases arms,
{
    if arms.len() == 0 {
        true
    } else {
        marked_arms(arms.drop_last()) && marked_expr(arms.last().cond) && marked_stmts(
            arms.last().body,
        )
    }
}

proof fn lemma_marked_push_stmt(ss: Seq<SStmt>, s: SStmt)
    requires
        marked_stmts(ss),
        marked_stmt(s),
    ensures
        marked_stmts(ss.push(s)),
{
    assert(ss.push(s).drop_last() =~= ss);
}

proof fn lemma_marked_push_expr(es: Seq<SExpr>, e: SExpr)
    requires
        marked_exprs(es),
        marked_expr(e),
    ensures
        marked_exprs(es.push(e)),
{
    assert(es.push(e).drop_last() =~= es);
}

proof fn lemma_marked_push_arg(args: Seq<SArg>, a: SArg)
    requires
        marked_args(args),
        match a {
            SArg::Normal(e) => marked_expr(e),
            SArg::Splat(e) => marked_expr(e),
        },
    ensures
        marked_args(args.push(a)),
{
    assert(args.push(a).drop_last() =~= args);
}

proof fn lemma_marked_push_arm(arms: Seq<SArm>, a: SArm)
    requires
        marked_arms(arms),
        marked_expr(a.cond),
        marked_stmts(a.body),
    ensures
        marked_arms(arms.push(a)),
{
    assert(arms.push(a).drop_last() =~= arms);
}

proof fn lemma_marked_prepend_arg(v: SExpr, args: Seq<SArg>)
    requires
        marked_expr(v),
        marked_args(args),
    ensures
        marked_args(seq![SArg::Normal(v)] + args),
    decreases args.len(),
{
    if args.len() == 0 {
        assert(seq![SArg::Normal(v)] + args =~= Seq::<SArg>::empty().push(SArg::Normal(v)));
        assert(marked_args(Seq::<SArg>::empty()));
        lemma_marked_push_arg(Seq::<SArg>::empty(), SArg::Normal(v));
    } else {
        lemma_marked_prepend_arg(v, args.drop_last());
        assert(seq![SArg::Normal(v)] + args =~= (seq![SArg::Normal(v)] + args.drop_last()).push(
            args.last(),
        ));
        lemma_marked_push_arg(seq![SArg::Normal(v)] + args.drop_last(), args.last());
    }
}

proof fn lemma_marked_flow(value: SExpr, stage: SExpr, line: usize)
    requires
        marked_expr(value),
        marked_expr(stage),
    ensures
        marked_expr(flow(value, stage, line)),
{
    match stage {
        SExpr::Call { callee, args, line: l } => {
            lemma_marked_prepend_arg(value, args);
        },
        _ => {
            lemma_marked_prepend_arg(value, Seq::empty());
            assert(seq![SArg::Normal(value)] + Seq::<SArg>::empty() =~= seq![SArg::Normal(value)]);
        },
    }
}

/// An outcome that, when it is an error, names a source line.
pub open spec fn lined<V>(r: Result<V, ErrView>) -> bool {
    r matches Err(e) ==> e.1 is Some
}

proof fn lemma_lined_params(t: Seq<SToken>, p: int, acc: Seq<Seq<char>>)
    ensures
        lined(sp_params(t, p, acc)),
    decreases rest(t, p),
{
    unfold_params(t, p, acc);
    let q = p + skip(t, p);
    if !(sk(t, q) is RParen) {
        if let STok::Ident(n) = sk(t, q) {
            lemma_lined_params(t, q + 1, acc.push(n));
        }
    }
}

proof fn lemma_marked_stmt(t: Seq<SToken>, p: int, d: int)
    ensures
        sp_stmt(t, p, d) matches Ok((s, _)) ==> marked_stmt(s),
        lined(sp_stmt(t, p, d)),
    decreases rest(t, p), 40nat,
{
    unfold_stmt(t, p, d);
    if sk(t, p) is At {
    } else if sk(t, p) is Colon {
        lemma_marked_func_decl(t, p, d);
    } else {
        lemma_marked_expr(t, p, d);
        if let Ok((expr, n)) = sp_expr(t, p, d) {
            let q = p + 1 + n;
            let k = sk(t, q);
            assert(marked_expr(SExpr::Number(seq!['1'])));
            if k is Colon || k is ColonColon || k is Assign {
                let r = q + 1 + skip(t, q + 1);
                lemma_marked_expr(t, r, d);
            }
        }
    }
}

proof fn lemma_marked_func_decl(t: Seq<SToken>, p: int, d: int)
    ensures
        sp_func_decl(t, p, d) matches Ok((s, _)) ==> marked_stmt(s),
        lined(sp_func_decl(t, p, d)),
    decreases rest(t, p), 39nat,
{
    unfold_func_decl(t, p, d);
    if sk(t, p) is Colon && sk(t, p + 1) is Ident && sk(t, p + 2) is LParen {
        lemma_lined_params(t, p + 3, Seq::empty());
        if let Ok((params, c)) = sp_params(t, p + 3, Seq::empty()) {
            lemma_marked_block(t, p + 3 + c, d, Seq::empty());
        }
    }
}

proof fn lemma_marked_block(t: Seq<SToken>, p: int, d: int, acc: Seq<SStmt>)
    requires
        marked_stmts(acc),
    ensures
        sp_block(t, p, d, acc) matches Ok((ss, _)) ==> marked_stmts(ss),
        lined(sp_block(t, p, d, acc)),
    decreases rest(t, p), 50nat,
{
    unfold_block(t, p, d, acc);
    let q = p + skip(t, p);
    if !(sk(t, q) is Dot) && !(sk(t, q) is Eof) {
        lemma_marked_stmt(t, q, d);
        if let Ok((s, n)) = sp_stmt(t, q, d) {
            lemma_marked_push_stmt(acc, s);
            lemma_marked_block(t, q + 1 + n, d, acc.push(s));
        }
    }
}

proof fn lemma_marked_expr(t: Seq<SToken>, p: int, d: int)
    ensures
        sp_expr(t, p, d) matches Ok((e, _)) ==> marked_expr(e),
        lined(sp_expr(t, p, d)),
    decreases rest(t, p), 32nat,
{
    unfold_expr(t, p, d);
    lemma_marked_tier(t, p, d, 0);
    if let Ok((left, n)) = sp_tier(t, p, d, 0) {
        lemma_marked_flow_chain(t, p + 1 + n, d, left);
    }
}

proof fn lemma_marked_flow_chain(t: Seq<SToken>, p: int, d: int, left: SExpr)
    requires
        marked_expr(left),
    ensures
        sp_flow(t, p, d, left) matches Ok((e, _)) ==> marked_expr(e),
        lined(sp_flow(t, p, d, left)),
    decreases rest(t, p), 31nat,
{
    unfold_flow(t, p, d, left);
    if sk(t, p) is FatArrow {
        let line = ln(t, p);
        let q = p + 1 + skip(t, p + 1);
        lemma_marked_postfix(t, q, d);
        if let Ok((stage, n)) = sp_postfix(t, q, d) {
            lemma_marked_flow(left, stage, line);
            lemma_marked_flow_chain(t, q + 1 + n, d, flow(left, stage, line));
        }
    }
}

proof fn lemma_marked_tier(t: Seq<SToken>, p: int, d: int, tier: int)
    ensures
        sp_tier(t, p, d, tier) matches Ok((e, _)) ==> marked_expr(e),
        lined(sp_tier(t, p, d, tier)),
    decreases rest(t, p), 31nat - (if 0 <= tier <= 6 {
        tier
    } else {
        6
    }) as nat,
{
    unfold_tier(t, p, d, tier);
    if tier < 0 || tier >= 6 {
        lemma_marked_unary(t, p, d);
    } else {
        lemma_marked_tier(t, p, d, tier + 1);
        if let Ok((left, n)) = sp_tier(t, p, d, tier + 1) {
            lemma_marked_tier_rest(t, p + 1 + n, d, tier, left);
        }
    }
}

proof fn lemma_marked_tier_rest(t: Seq<SToken>, p: int, d: int, tier: int, left: SExpr)
    requires
        marked_expr(left),
    ensures
        sp_tier_rest(t, p, d, tier, left) matches Ok((e, _)) ==> marked_expr(e),
        lined(sp_tier_rest(t, p, d, tier, left)),
    decreases rest(t, p), 30nat - (if 0 <= tier <= 6 {
        tier
    } else {
        6
    }) as nat,
{
    unfold_tier_rest(t, p, d, tier, left);
    let q = p + insig(t, p, d);
    if let Some(op) = tier_op(tier, sk(t, q)) {
        let line = ln(t, q);
        let r = q + 1 + skip(t, q + 1);
        lemma_marked_tier(t, r, d, tier + 1);
        if let Ok((right, n)) = sp_tier(t, r, d, tier + 1) {
            let e = SExpr::Binary { op, left: Box::new(left), right: Box::new(right), line };
            lemma_marked_tier_rest(t, r + 1 + n, d, tier, e);
        }
    }
}

proof fn lemma_marked_unary(t: Seq<SToken>, p: int, d: int)
    ensures
        sp_unary(t, p, d) matches Ok((e, _)) ==> marked_expr(e),
        lined(sp_unary(t, p, d)),
    decreases rest(t, p), 24nat,
{
    unfold_unary(t, p, d);
    let k = sk(t, p);
    if k is Not || k is Minus {
        lemma_marked_unary(t, p + 1, d);
    } else {
        lemma_marked_postfix(t, p, d);
    }
}

proof fn lemma_marked_postfix(t: Seq<SToken>, p: int, d: int)
    ensures
        sp_postfix(t, p, d) matches Ok((e, _)) ==> marked_expr(e),
        lined(sp_postfix(t, p, d)),
    decreases rest(t, p), 23nat,
{
    unfold_postfix(t, p, d);
    lemma_marked_primary(t, p, d);
    if let Ok((e, n)) = sp_primary(t, p, d) {
        lemma_marked_suffixes(t, p + 1 + n, d, e);
    }
}

proof fn lemma_marked_suffix(t: Seq<SToken>, p: int, d: int, e: SExpr)
    requires
        marked_expr(e),
    ensures
        sp_suffix(t, p, d, e) matches Ok(Some((e2, _))) ==> marked_expr(e2),
        lined(sp_suffix(t, p, d, e)),
    decreases rest(t, p), 21nat,
{
    unfold_suffix(t, p, d, e);
    let k = sk(t, p);
    if spaced(t, p) {
    } else if k is LParen {
        lemma_marked_args(t, p + 1, d + 1, Seq::empty());
    } else if k is LBracket {
        let q = p + 1 + skip(t, p + 1);
        lemma_marked_expr(t, q, d + 1);
    } else if k is Dot && sk(t, p + 1) is Ident {
        assert(marked_expr(SExpr::Var { name: sk(t, p + 1)->Ident_0, line: ln(t, p) }));
        assert(seq![SArg::Normal(e)] =~= Seq::<SArg>::empty().push(SArg::Normal(e)));
        lemma_marked_push_arg(Seq::empty(), SArg::Normal(e));
        if sk(t, p + 2) is LParen && !spaced(t, p + 2) {
            lemma_marked_args(t, p + 3, d + 1, seq![SArg::Normal(e)]);
        }
    } else if k is Tilde {
        if !spaced(t, p + 1) && sk(t, p + 1) is Number {
            lemma_marked_primary(t, p + 1, d);
        }
    } else if k is StarStar {
        if !spaced(t, p + 1) && starts_primary(sk(t, p + 1)) {
            lemma_marked_primary(t, p + 1, d);
        }
    }
}

proof fn lemma_marked_suffixes(t: Seq<SToken>, p: int, d: int, e: SExpr)
    requires
        marked_expr(e),
    ensures
        sp_suffixes(t, p, d, e) matches Ok((e2, _)) ==> marked_expr(e2),
        lined(sp_suffixes(t, p, d, e)),
    decreases rest(t, p), 22nat,
{
    unfold_suffixes(t, p, d, e);
    lemma_marked_suffix(t, p, d, e);
    if let Ok(Some((e2, used))) = sp_suffix(t, p, d, e) {
        if !(used == 0 || p < 0 || p >= t.len() - 1) {
            lemma_marked_suffixes(t, p + used, d, e2);
        }
    }
}

proof fn lemma_marked_args(t: Seq<SToken>, p: int, d: int, acc: Seq<SArg>)
    requires
        marked_args(acc),
    ensures
        sp_args(t, p, d, acc) matches Ok((args, _)) ==> marked_args(args),
        lined(sp_args(t, p, d, acc)),
    decreases rest(t, p), 35nat,
{
    unfold_args(t, p, d, acc);
    let q = p + skip(t, p);
    if sk(t, q) is RParen || sk(t, q) is Eof {
    } else if sk(t, q) is Lt && !spaced(t, q + 1) {
        lemma_marked_postfix(t, q + 1, d);
        if let Ok((e, n)) = sp_postfix(t, q + 1, d) {
            let r = q + 2 + n;
            if sk(t, r) is Gt {
                lemma_marked_push_arg(acc, SArg::Splat(e));
                lemma_marked_args(t, r + 1, d, acc.push(SArg::Splat(e)));
            }
        }
    } else {
        lemma_marked_expr(t, q, d);
        if let Ok((e, n)) = sp_expr(t, q, d) {
            lemma_marked_push_arg(acc, SArg::Normal(e));
            lemma_marked_args(t, q + 1 + n, d, acc.push(SArg::Normal(e)));
        }
    }
}

proof fn lemma_marked_primary(t: Seq<SToken>, p: int, d: int)
    ensures
        sp_primary(t, p, d) matches Ok((e, _)) ==> marked_expr(e),
        lined(sp_primary(t, p, d)),
    decreases rest(t, p), 21nat,
{
    unfold_primary(t, p, d);
    let k = sk(t, p);
    if k is LParen {
        let q = p + 1 + skip(t, p + 1);
        lemma_marked_expr(t, q, d + 1);
    } else if k is LBracket {
        lemma_marked_group(t, p, d);
    } else if k is If || k is QIf || k is QAny {
        lemma_marked_conditional(t, p, d);
    }
}

proof fn lemma_marked_conditional(t: Seq<SToken>, p: int, d: int)
    ensures
        sp_conditional(t, p, d) matches Ok((e, _)) ==> marked_expr(e),
        lined(sp_conditional(t, p, d)),
    decreases rest(t, p), 20nat,
{
    unfold_conditional(t, p, d);
    let k = sk(t, p);
    if k is If || k is QIf || k is QAny {
        let (any, start) = cond_head(t, p);
        lemma_marked_arms(t, start, d, ln(t, p), Seq::empty(), None);
    }
}

proof fn lemma_marked_group(t: Seq<SToken>, p: int, d: int)
    ensures
        sp_group(t, p, d) matches Ok((e, _)) ==> marked_expr(e),
        lined(sp_group(t, p, d)),
    decreases rest(t, p), 20nat,
{
    unfold_group(t, p, d);
    if sk(t, p) is LBracket {
        lemma_marked_members(t, p + 1, d + 1, sk(t, p + 1) is Newline, ln(t, p), Seq::empty());
    }
}

proof fn lemma_marked_members(
    t: Seq<SToken>,
    p: int,
    d: int,
    multiline: bool,
    line: usize,
    acc: Seq<SExpr>,
)
    requires
        marked_exprs(acc),
    ensures
        sp_members(t, p, d, multiline, line, acc) matches Ok((es, _)) ==> marked_exprs(es),
        lined(sp_members(t, p, d, multiline, line, acc)),
    decreases rest(t, p), 35nat,
{
    unfold_members(t, p, d, multiline, line, acc);
    let q = p + skip(t, p);
    if !(sk(t, q) is RBracket) && !(sk(t, q) is Eof) {
        if multiline {
            lemma_marked_expr(t, q, d);
        } else {
            lemma_marked_postfix(t, q, d);
        }
        let member = if multiline {
            sp_expr(t, q, d)
        } else {
            sp_postfix(t, q, d)
        };
        if let Ok((e, n)) = member {
            lemma_marked_push_expr(acc, e);
            lemma_marked_members(t, q + 1 + n, d, multiline, line, acc.push(e));
        }
    }
}

proof fn lemma_marked_arms(
    t: Seq<SToken>,
    p: int,
    d: int,
    line: usize,
    arms: Seq<SArm>,
    else_body: Option<Seq<SStmt>>,
)
    requires
        marked_arms(arms),
        else_body matches Some(b) ==> marked_stmts(b),
    ensures
        sp_arms(t, p, d, line, arms, else_body) matches Ok(((a, e), _)) ==> marked_arms(a) && (
        e matches Some(b) ==> marked_stmts(b)),
        lined(sp_arms(t, p, d, line, arms, else_body)),
    decreases rest(t, p), 35nat,
{
    unfold_arms(t, p, d, line, arms, else_body);
    let q = p + skip(t, p);
    let k = sk(t, q);
    if k is Dot || k is Eof {
    } else if k is Else || k is QElse {
        if sk(t, q + 1) is FatArrow {
            lemma_marked_arm_body(t, q + 2, d, ln(t, q + 1));
            if let Ok((body, c)) = sp_arm_body(t, q + 2, d, ln(t, q + 1)) {
                lemma_marked_arms(t, q + 2 + c, d, line, arms, Some(body));
            }
        }
    } else {
        lemma_marked_tier(t, q, d, 0);
        if let Ok((cond, n)) = sp_tier(t, q, d, 0) {
            let a = q + 1 + n;
            if sk(t, a) is FatArrow {
                lemma_marked_arm_body(t, a + 1, d, ln(t, a));
                if let Ok((body, c)) = sp_arm_body(t, a + 1, d, ln(t, a)) {
                    lemma_marked_push_arm(arms, SArm { cond, body });
                    lemma_marked_arms(
                        t,
                        a + 1 + c,
                        d,
                        line,
                        arms.push(SArm { cond, body }),
                        else_body,
                    );
                }
            }
        }
    }
}

proof fn lemma_marked_arm_body(t: Seq<SToken>, p: int, d: int, arrow_line: usize)
    ensures
        sp_arm_body(t, p, d, arrow_line) matches Ok((ss, _)) ==> marked_stmts(ss),
        lined(sp_arm_body(t, p, d, arrow_line)),
    decreases rest(t, p), 51nat,
{
    unfold_arm_body(t, p, d, arrow_line);
    let k = sk(t, p);
    if ln(t, p) == arrow_line && !(k is Newline || k is Dot || k is Eof) {
        lemma_marked_stmt(t, p, d);
        if let Ok((s, n)) = sp_stmt(t, p, d) {
            lemma_marked_push_stmt(Seq::empty(), s);
            assert(seq![s] =~= Seq::<SStmt>::empty().push(s));
        }
    } else {
        lemma_marked_body_lines(t, p, d, Seq::empty());
    }
}

proof fn lemma_marked_body_lines(t: Seq<SToken>, p: int, d: int, acc: Seq<SStmt>)
    requires
        marked_stmts(acc),
    ensures
        sp_body_lines(t, p, d, acc) matches Ok((ss, _)) ==> marked_stmts(ss),
        lined(sp_body_lines(t, p, d, acc)),
    decreases rest(t, p), 50nat,
{
    unfold_body_lines(t, p, d, acc);
    let q = p + skip(t, p);
    let k = sk(t, q);
    if !(k is Dot || k is Eof || arm_header(t, q)) {
        lemma_marked_stmt(t, q, d);
        if let Ok((s, n)) = sp_stmt(t, q, d) {
            lemma_marked_push_stmt(acc, s);
            lemma_marked_body_lines(t, q + 1 + n, d, acc.push(s));
        }
    }
}

proof fn lemma_marked_program(t: Seq<SToken>, p: int, acc: Seq<SStmt>)
    requires
        marked_stmts(acc),
    ensures
        sp_program(t, p, acc) matches Ok(ss) ==> marked_stmts(ss),
        lined(sp_program(t, p, acc)),
    decreases rest(t, p),
{
    unfold_program(t, p, acc);
    let q = p + skip(t, p);
    if !(sk(t, q) is Eof) && !(sk(t, q) is Dot) {
        lemma_marked_stmt(t, q, 0);
        if let Ok((s, n)) = sp_stmt(t, q, 0) {
            lemma_marked_push_stmt(acc, s);
            lemma_marked_program(t, q + 1 + n, acc.push(s));
        }
    }
}

/// A name is immutable exactly when its first alphabetic character is
/// uppercase, and the parser records this on every binding and function
/// declaration it produces, at any depth of a program.
pub proof fn law_bindings_record_immutability(t: Seq<SToken>)
    ensures
        parse_spec(t) matches Ok(ss) ==> marked_stmts(ss),
{
    lemma_marked_program(t, 0, Seq::empty());
}

/// Every parsing error names the source line it was found on.
pub proof fn law_parse_errors_name_a_line(t: Seq<SToken>)
    ensures
        lined(parse_spec(t)),
{
    lemma_marked_program(t, 0, Seq::empty());
}

} // verus!
