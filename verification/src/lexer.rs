//! The Six lexer: source text to a flat `Vec<Token>`.
//!
//! Six is whitespace-sensitive in several places, so the lexer records, for
//! every token, its line/column and whether whitespace preceded it. Blank lines
//! and comments collapse away; a single `Newline` token marks each logical line
//! break so the parser can treat newlines as statement separators.
//!
//! The model: [`lex_spec`] describes the token sequence (or the error) that a
//! source text yields, one step at a time ([`scan`]); each kind of token is
//! described by its own function ([`text_body`], [`number_at`], [`ident_end`]
//! and [`keyword`], [`symbol_at`]).

use vstd::prelude::*;

use crate::chars::{
    ascii, ascii_digit, ascii_letter, chars_of, is_alphabetic, is_alphanumeric, push_char,
    spec_is_alphabetic, spec_is_alphanumeric, spells, string_of, text,
};
use crate::error::{ErrView, SixError, err_at};
use crate::token::{STok, SToken, Tok, Token, tokens_view};

verus! {

// --- positions ----------------------------------------------------------------

/// The 1-based line of position `p`: one more than the newlines before it.
pub open spec fn line_at(cs: Seq<char>, p: int) -> int
    decreases p,
{
    if p <= 0 {
        1
    } else {
        line_at(cs, p - 1) + if cs[p - 1] == '\n' { 1int } else { 0int }
    }
}

/// The 1-based column of position `p`: it restarts after every newline.
pub open spec fn col_at(cs: Seq<char>, p: int) -> int
    decreases p,
{
    if p <= 0 {
        1
    } else if cs[p - 1] == '\n' {
        1
    } else {
        col_at(cs, p - 1) + 1
    }
}

pub proof fn lemma_line_col_bounds(cs: Seq<char>, p: int)
    requires
        0 <= p,
    ensures
        1 <= line_at(cs, p) <= p + 1,
        1 <= col_at(cs, p) <= p + 1,
    decreases p,
{
    if p > 0 {
        lemma_line_col_bounds(cs, p - 1);
    }
}

/// The character at `i`, if any.
pub open spec fn char_at(cs: Seq<char>, i: int) -> Option<char> {
    if 0 <= i < cs.len() {
        Some(cs[i])
    } else {
        None
    }
}

// --- character classes ----------------------------------------------------------

pub open spec fn is_blank(c: char) -> bool {
    c == ' ' || c == '\t' || c == '\r'
}

pub open spec fn is_digit(c: char) -> bool {
    '0' <= c && c <= '9'
}

pub open spec fn ident_start(c: char) -> bool {
    c == '_' || spec_is_alphabetic(c)
}

pub open spec fn ident_continue(c: char) -> bool {
    c == '_' || spec_is_alphanumeric(c)
}

fn is_ascii_digit(c: char) -> (r: bool)
    ensures
        r == is_digit(c),
{
    '0' <= c && c <= '9'
}

/// Whether a name may begin with `c`: an underscore or a letter. Whatever
/// may begin a name may go on with it; of the ASCII characters, exactly `_`
/// and the letters begin one (so a digit or `-` does not).
fn is_ident_start(c: char) -> (r: bool)
    ensures
        r == ident_start(c),
        r ==> ident_continue(c),
        ascii(c) ==> (r <==> (c == '_' || ascii_letter(c))),
{
    c == '_' || is_alphabetic(c)
}

/// Whether a name may go on with `c`: an underscore, a letter or a digit. Of
/// the ASCII characters, exactly `_`, the letters and the digits go on with
/// one (so `-` alone does not).
fn is_ident_continue(c: char) -> (r: bool)
    ensures
        r == ident_continue(c),
        ascii(c) ==> (r <==> (c == '_' || ascii_letter(c) || ascii_digit(c))),
{
    c == '_' || is_alphanumeric(c)
}

// --- trivia -------------------------------------------------------------------

/// Where a block comment whose body starts at `q` ends (just past its closing
/// `##`), or `None` when it is never closed.
pub open spec fn block_close(cs: Seq<char>, q: int) -> Option<int>
    decreases cs.len() - q,
{
    if q >= cs.len() {
        None
    } else if cs[q] == '#' && q + 1 < cs.len() && cs[q + 1] == '#' {
        Some(q + 2)
    } else {
        block_close(cs, q + 1)
    }
}

/// The first newline at or after `q`, or the end of the source.
pub open spec fn line_end(cs: Seq<char>, q: int) -> int
    decreases cs.len() - q,
{
    if q >= cs.len() {
        cs.len() as int
    } else if cs[q] == '\n' {
        q
    } else {
        line_end(cs, q + 1)
    }
}

pub proof fn lemma_block_close(cs: Seq<char>, q: int)
    requires
        0 <= q,
    ensures
        block_close(cs, q) matches Some(e) ==> q + 2 <= e <= cs.len(),
    decreases cs.len() - q,
{
    if q < cs.len() && !(cs[q] == '#' && q + 1 < cs.len() && cs[q + 1] == '#') {
        lemma_block_close(cs, q + 1);
    }
}

pub proof fn lemma_line_end(cs: Seq<char>, q: int)
    requires
        0 <= q <= cs.len(),
    ensures
        q <= line_end(cs, q) <= cs.len(),
        q < cs.len() && cs[q] != '\n' ==> q < line_end(cs, q),
    decreases cs.len() - q,
{
    if q < cs.len() && cs[q] != '\n' {
        lemma_line_end(cs, q + 1);
    }
}

// --- text literals --------------------------------------------------------------

/// What a backslash followed by `n` stands for inside a text literal.
pub open spec fn escape(n: char) -> Seq<char> {
    if n == 'n' {
        seq!['\n']
    } else if n == 't' {
        seq!['\t']
    } else if n == '\\' {
        seq!['\\']
    } else if n == '"' {
        seq!['"']
    } else {
        seq!['\\', n]
    }
}

/// The contents of a text literal whose body starts at `q`, and the position
/// just past its closing quote; `None` when the literal is never closed.
pub open spec fn text_body(cs: Seq<char>, q: int) -> Option<(Seq<char>, int)>
    decreases cs.len() - q,
{
    if q >= cs.len() {
        None
    } else if cs[q] == '"' {
        Some((Seq::empty(), q + 1))
    } else if cs[q] == '\\' {
        if q + 1 >= cs.len() {
            None
        } else {
            match text_body(cs, q + 2) {
                Some((s, e)) => Some((escape(cs[q + 1]) + s, e)),
                None => None,
            }
        }
    } else {
        match text_body(cs, q + 1) {
            Some((s, e)) => Some((seq![cs[q]] + s, e)),
            None => None,
        }
    }
}

pub proof fn lemma_text_body(cs: Seq<char>, q: int)
    requires
        0 <= q,
    ensures
        text_body(cs, q) matches Some((s, e)) ==> q < e <= cs.len(),
    decreases cs.len() - q,
{
    if q < cs.len() && cs[q] != '"' {
        if cs[q] == '\\' {
            if q + 1 < cs.len() {
                lemma_text_body(cs, q + 2);
            }
        } else {
            lemma_text_body(cs, q + 1);
        }
    }
}

// --- number literals --------------------------------------------------------------

/// The end of the run of digits and commas starting at `q`.
pub open spec fn num_run_end(cs: Seq<char>, q: int) -> int
    decreases cs.len() - q,
{
    if q < cs.len() && (is_digit(cs[q]) || cs[q] == ',') {
        num_run_end(cs, q + 1)
    } else {
        q
    }
}

/// The end of the run of digits starting at `q`.
pub open spec fn digit_run_end(cs: Seq<char>, q: int) -> int
    decreases cs.len() - q,
{
    if q < cs.len() && is_digit(cs[q]) {
        digit_run_end(cs, q + 1)
    } else {
        q
    }
}

pub proof fn lemma_run_ends(cs: Seq<char>, q: int)
    requires
        0 <= q,
    ensures
        q <= num_run_end(cs, q),
        q <= cs.len() ==> num_run_end(cs, q) <= cs.len(),
        q <= digit_run_end(cs, q),
        q <= cs.len() ==> digit_run_end(cs, q) <= cs.len(),
        forall|i: int| q <= i < num_run_end(cs, q) ==> (is_digit(#[trigger] cs[i]) || cs[i] == ','),
    decreases cs.len() - q,
{
    if q < cs.len() {
        lemma_run_ends(cs, q + 1);
    }
}

/// The first comma at or after `i`, or the length.
pub open spec fn comma_index(raw: Seq<char>, i: int) -> int
    decreases raw.len() - i,
{
    if i >= raw.len() {
        raw.len() as int
    } else if raw[i] == ',' {
        i
    } else {
        comma_index(raw, i + 1)
    }
}

/// Thousands separators group the integer part as one to three
/// leading digits followed by groups of exactly three digits. A literal with
/// no comma is always well grouped.
pub open spec fn grouping_ok(raw: Seq<char>) -> bool {
    let k = comma_index(raw, 0);
    ||| k == raw.len()
    ||| {
        &&& 1 <= k <= 3
        &&& (raw.len() - k) % 4 == 0
        &&& forall|i: int| k <= i < raw.len() ==> (#[trigger] raw[i] == ',' <==> (i - k) % 4 == 0)
    }
}

/// `s` with its commas removed.
pub open spec fn strip_commas(s: Seq<char>) -> Seq<char>
    decreases s.len(),
{
    if s.len() == 0 {
        s
    } else {
        strip_commas(s.drop_last()) + if s.last() == ',' {
            Seq::empty()
        } else {
            seq![s.last()]
        }
    }
}

/// The number literal starting at the digit at `p`: its text (separators
/// removed) and where it ends, or the error message it produces.
pub open spec fn number_at(cs: Seq<char>, p: int) -> Result<(STok, int), Seq<char>> {
    let e1 = num_run_end(cs, p);
    let raw = cs.subrange(p, e1);
    if !grouping_ok(raw) {
        Err("malformed numeric separator: "@ + raw)
    } else if e1 + 1 < cs.len() && cs[e1] == '.' && is_digit(cs[e1 + 1]) {
        let fe = digit_run_end(cs, e1 + 1);
        if fe < cs.len() && cs[fe] == ',' {
            Err("malformed numeric separator: commas are not allowed in a fractional part"@)
        } else {
            Ok((STok::Number(strip_commas(raw) + seq!['.'] + cs.subrange(e1 + 1, fe)), fe))
        }
    } else {
        Ok((STok::Number(strip_commas(raw)), e1))
    }
}

// --- identifiers ------------------------------------------------------------------

/// Where an identifier continues to, scanning from `q`: identifier characters,
/// a hyphen directly followed by an identifier start (`build-first`), and at
/// most one trailing `?` (`even?`), which ends the name.
pub open spec fn ident_end(cs: Seq<char>, q: int) -> int
    decreases cs.len() - q,
{
    if q >= cs.len() {
        q
    } else if ident_continue(cs[q]) {
        ident_end(cs, q + 1)
    } else if cs[q] == '-' && q + 1 < cs.len() && ident_start(cs[q + 1]) {
        ident_end(cs, q + 1)
    } else if cs[q] == '?' {
        q + 1
    } else {
        q
    }
}

pub proof fn lemma_ident_end(cs: Seq<char>, q: int)
    requires
        0 <= q <= cs.len(),
    ensures
        q <= ident_end(cs, q) <= cs.len(),
    decreases cs.len() - q,
{
    if q < cs.len() {
        lemma_ident_end(cs, q + 1);
    }
}

/// The token a scanned name stands for: a keyword, or an identifier.
pub open spec fn keyword(name: Seq<char>) -> STok {
    if name == "true"@ {
        STok::True
    } else if name == "false"@ {
        STok::False
    } else if name == "nil"@ {
        STok::Nil
    } else if name == "if"@ {
        STok::If
    } else if name == "any"@ {
        STok::Any
    } else if name == "else"@ {
        STok::Else
    } else if name == "and"@ {
        STok::And
    } else if name == "or"@ {
        STok::Or
    } else if name == "not"@ {
        STok::Not
    } else {
        STok::Ident(name)
    }
}

// --- symbols ------------------------------------------------------------------------

/// The operator or punctuation token at `p` and where it ends (two-character
/// operators win over their one-character prefixes), or the error message.
pub open spec fn symbol_at(cs: Seq<char>, p: int) -> Result<(STok, int), Seq<char>> {
    let c = cs[p];
    let n = char_at(cs, p + 1);
    if c == '(' {
        Ok((STok::LParen, p + 1))
    } else if c == ')' {
        Ok((STok::RParen, p + 1))
    } else if c == '[' {
        Ok((STok::LBracket, p + 1))
    } else if c == ']' {
        Ok((STok::RBracket, p + 1))
    } else if c == '$' {
        Ok((STok::Dollar, p + 1))
    } else if c == '@' {
        Ok((STok::At, p + 1))
    } else if c == '~' {
        Ok((STok::Tilde, p + 1))
    } else if c == '^' {
        Ok((STok::Caret, p + 1))
    } else if c == '_' {
        Ok((STok::Underscore, p + 1))
    } else if c == '+' {
        if n == Some('+') {
            Ok((STok::PlusPlus, p + 2))
        } else {
            Ok((STok::Plus, p + 1))
        }
    } else if c == '-' {
        if n == Some('-') {
            Ok((STok::MinusMinus, p + 2))
        } else {
            Ok((STok::Minus, p + 1))
        }
    } else if c == '*' {
        if n == Some('*') {
            Ok((STok::StarStar, p + 2))
        } else {
            Ok((STok::Star, p + 1))
        }
    } else if c == '/' {
        if n == Some('/') {
            Ok((STok::SlashSlash, p + 2))
        } else {
            Ok((STok::Slash, p + 1))
        }
    } else if c == '%' {
        Ok((STok::Percent, p + 1))
    } else if c == ':' {
        if n == Some(':') {
            Ok((STok::ColonColon, p + 2))
        } else {
            Ok((STok::Colon, p + 1))
        }
    } else if c == '=' {
        if n == Some('=') {
            Ok((STok::EqEq, p + 2))
        } else {
            Ok((STok::Assign, p + 1))
        }
    } else if c == '!' {
        if n == Some('=') {
            Ok((STok::NotEq, p + 2))
        } else {
            Ok((STok::Not, p + 1))
        }
    } else if c == '<' {
        if n == Some('=') {
            Ok((STok::Le, p + 2))
        } else {
            Ok((STok::Lt, p + 1))
        }
    } else if c == '>' {
        if n == Some('>') {
            Ok((STok::FatArrow, p + 2))
        } else if n == Some('=') {
            Ok((STok::Ge, p + 2))
        } else {
            Ok((STok::Gt, p + 1))
        }
    } else if c == '&' {
        if n == Some('&') {
            Ok((STok::And, p + 2))
        } else {
            Err("unexpected character '&' (did you mean '&&'?)"@)
        }
    } else if c == '|' {
        if n == Some('|') {
            Ok((STok::Or, p + 2))
        } else {
            Err("unexpected character '|' (did you mean '||'?)"@)
        }
    } else if c == '.' {
        if n == Some('.') {
            Ok((STok::Empty, p + 2))
        } else {
            Ok((STok::Dot, p + 1))
        }
    } else if c == '?' {
        if n == Some('?') {
            Ok((STok::QElse, p + 2))
        } else if n == Some('*') {
            Ok((STok::QAny, p + 2))
        } else {
            Ok((STok::QIf, p + 1))
        }
    } else {
        Err("unexpected character '"@ + seq![c, '\''])
    }
}

// --- one token ------------------------------------------------------------------

/// The token starting at `p` (a position that holds neither whitespace, a
/// comment nor a newline) and where it ends, or the error message.
pub open spec fn token_at(cs: Seq<char>, p: int) -> Result<(STok, int), Seq<char>> {
    let c = cs[p];
    if c == '"' {
        match text_body(cs, p + 1) {
            Some((s, e)) => Ok((STok::Text(s), e)),
            None => Err("unterminated text literal"@),
        }
    } else if is_digit(c) {
        number_at(cs, p)
    } else if c == '_' && !(p + 1 < cs.len() && ident_continue(cs[p + 1])) {
        symbol_at(cs, p)
    } else if ident_start(c) {
        let e = ident_end(cs, p + 1);
        Ok((keyword(cs.subrange(p, e)), e))
    } else {
        symbol_at(cs, p)
    }
}

pub proof fn lemma_token_at_end(cs: Seq<char>, p: int)
    requires
        0 <= p < cs.len(),
    ensures
        token_at(cs, p) matches Ok((_, e)) ==> p < e <= cs.len(),
{
    lemma_text_body(cs, p + 1);
    lemma_run_ends(cs, p);
    lemma_run_ends(cs, num_run_end(cs, p) + 1);
    lemma_ident_end(cs, p + 1);
}

// --- the whole source ---------------------------------------------------------------

/// A token placed at position `p`.
pub open spec fn placed(cs: Seq<char>, tok: STok, p: int, space_before: bool) -> SToken {
    SToken {
        tok,
        line: line_at(cs, p) as usize,
        col: col_at(cs, p) as usize,
        space_before,
    }
}

/// Lexing from position `pos` onward, given the tokens produced so far and
/// whether whitespace (or a comment, a newline, or the start of input)
/// precedes the next token.
pub open spec fn scan(cs: Seq<char>, pos: int, pending: bool, toks: Seq<SToken>) -> Result<
    Seq<SToken>,
    ErrView,
>
    decreases cs.len() - pos,
    via scan_decreases
{
    if pos < 0 || pos >= cs.len() {
        Ok(toks.push(placed(cs, STok::Eof, pos, pending)))
    } else {
        let c = cs[pos];
        if is_blank(c) {
            scan(cs, pos + 1, true, toks)
        } else if c == '#' {
            if pos + 1 < cs.len() && cs[pos + 1] == '#' {
                match block_close(cs, pos + 2) {
                    Some(e) => scan(cs, e, true, toks),
                    None => Err(err_at(line_at(cs, pos) as usize, "unterminated block comment"@)),
                }
            } else {
                scan(cs, line_end(cs, pos), true, toks)
            }
        } else if c == '\n' {
            let emit = toks.len() > 0 && !(toks.last().tok is Newline);
            scan(
                cs,
                pos + 1,
                true,
                if emit {
                    toks.push(placed(cs, STok::Newline, pos, true))
                } else {
                    toks
                },
            )
        } else {
            match token_at(cs, pos) {
                Ok((t, e)) => scan(cs, e, false, toks.push(placed(cs, t, pos, pending))),
                Err(m) => Err(err_at(line_at(cs, pos) as usize, m)),
            }
        }
    }
}

#[via_fn]
proof fn scan_decreases(cs: Seq<char>, pos: int, pending: bool, toks: Seq<SToken>) {
    if 0 <= pos < cs.len() {
        lemma_block_close(cs, pos + 2);
        lemma_line_end(cs, pos);
        lemma_token_at_end(cs, pos);
    }
}

/// The tokens (or the error) that lexing `cs` yields.
pub open spec fn lex_spec(cs: Seq<char>) -> Result<Seq<SToken>, ErrView> {
    scan(cs, 0, true, Seq::empty())
}

/// The model of a lexing result.
pub open spec fn lex_view(r: Result<Vec<Token>, SixError>) -> Result<Seq<SToken>, ErrView> {
    match r {
        Ok(v) => Ok(tokens_view(v@)),
        Err(e) => Err(e@),
    }
}

// --- laws -------------------------------------------------------------------------

/// No token of `ts` is `Eof`.
pub open spec fn free_of_eof(ts: Seq<SToken>) -> bool {
    forall|i: int| 0 <= i < ts.len() ==> !(#[trigger] ts[i].tok is Eof)
}

/// `ts` begins with no `Newline` and never holds two `Newline` tokens in a row.
pub open spec fn newlines_collapsed(ts: Seq<SToken>) -> bool {
    &&& ts.len() > 0 ==> !(ts[0].tok is Newline)
    &&& forall|i: int, j: int|
        0 <= i && j == i + 1 && j < ts.len() ==> !(#[trigger] ts[i].tok is Newline && #[trigger] ts[j].tok
            is Newline)
}

/// The lines of `ts` never go down.
pub open spec fn lines_ordered(ts: Seq<SToken>) -> bool {
    forall|i: int, j: int| 0 <= i <= j < ts.len() ==> #[trigger] ts[i].line <= #[trigger] ts[j].line
}

pub proof fn lemma_line_at_monotone(cs: Seq<char>, p: int, q: int)
    requires
        0 <= p <= q,
    ensures
        line_at(cs, p) <= line_at(cs, q),
    decreases q - p,
{
    if p < q {
        lemma_line_at_monotone(cs, p, q - 1);
    }
}

proof fn lemma_scan_shape(cs: Seq<char>, pos: int, pending: bool, toks: Seq<SToken>)
    requires
        0 <= pos <= cs.len(),
        cs.len() < usize::MAX,
        free_of_eof(toks),
        newlines_collapsed(toks),
        lines_ordered(toks),
        forall|i: int| 0 <= i < toks.len() ==> #[trigger] toks[i].line <= line_at(cs, pos),
        toks.len() == 0 ==> pending,
        toks.len() > 0 ==> toks[0].space_before,
    ensures
        scan(cs, pos, pending, toks) matches Ok(ts) ==> {
            &&& ts.len() >= 1
            &&& ts.last().tok is Eof
            &&& free_of_eof(ts.drop_last())
            &&& newlines_collapsed(ts)
            &&& lines_ordered(ts)
            &&& ts[0].space_before
        },
    decreases cs.len() - pos,
{
    lemma_line_col_bounds(cs, pos);
    if pos >= cs.len() {
        let ts = toks.push(placed(cs, STok::Eof, pos, pending));
        assert(ts.drop_last() =~= toks);
    } else {
        let c = cs[pos];
        lemma_block_close(cs, pos + 2);
        lemma_line_end(cs, pos);
        lemma_token_at_end(cs, pos);
        if is_blank(c) {
            lemma_line_at_monotone(cs, pos, pos + 1);
            lemma_scan_shape(cs, pos + 1, true, toks);
        } else if c == '#' {
            if pos + 1 < cs.len() && cs[pos + 1] == '#' {
                if let Some(e) = block_close(cs, pos + 2) {
                    lemma_line_at_monotone(cs, pos, e);
                    lemma_scan_shape(cs, e, true, toks);
                }
            } else {
                lemma_line_at_monotone(cs, pos, line_end(cs, pos));
                lemma_scan_shape(cs, line_end(cs, pos), true, toks);
            }
        } else if c == '\n' {
            lemma_line_at_monotone(cs, pos, pos + 1);
            let emit = toks.len() > 0 && !(toks.last().tok is Newline);
            if emit {
                let t2 = toks.push(placed(cs, STok::Newline, pos, true));
                assert(t2[0] == toks[0]);
                assert forall|i: int| 0 <= i < t2.len() implies #[trigger] t2[i].line <= line_at(
                    cs,
                    pos + 1,
                ) by {
                    if i < toks.len() {
                        assert(t2[i] == toks[i]);
                    }
                }
                lemma_scan_shape(cs, pos + 1, true, t2);
            } else {
                lemma_scan_shape(cs, pos + 1, true, toks);
            }
        } else {
            if let Ok((t, e)) = token_at(cs, pos) {
                lemma_line_at_monotone(cs, pos, e);
                let t2 = toks.push(placed(cs, t, pos, pending));
                assert(t2[0].space_before);
                assert(!(t is Newline) && !(t is Eof)) by {
                    reveal_with_fuel(text_body, 1);
                }
                assert forall|i: int| 0 <= i < t2.len() implies #[trigger] t2[i].line <= line_at(
                    cs,
                    e,
                ) by {
                    if i < toks.len() {
                        assert(t2[i] == toks[i]);
                    }
                }
                lemma_scan_shape(cs, e, false, t2);
            }
        }
    }
}

/// Lexing either fails, or yields tokens that end with exactly one `Eof`,
/// where blank lines and comments have collapsed away (no `Newline` first, no
/// two `Newline` tokens in a row), whose line numbers never go down, and whose
/// first token counts as spaced (the start of input is a separator).
pub proof fn law_lex_shape(cs: Seq<char>)
    requires
        cs.len() < usize::MAX,
    ensures
        lex_spec(cs) matches Ok(ts) ==> {
            &&& ts.len() >= 1
            &&& ts.last().tok is Eof
            &&& free_of_eof(ts.drop_last())
            &&& newlines_collapsed(ts)
            &&& lines_ordered(ts)
            &&& ts[0].space_before
        },
{
    lemma_scan_shape(cs, 0, true, Seq::empty());
}

proof fn lemma_scan_errors(cs: Seq<char>, pos: int, pending: bool, toks: Seq<SToken>)
    ensures
        scan(cs, pos, pending, toks) matches Err(e) ==> e.1 is Some,
    decreases cs.len() - pos,
{
    if 0 <= pos < cs.len() {
        lemma_block_close(cs, pos + 2);
        lemma_line_end(cs, pos);
        lemma_token_at_end(cs, pos);
        let c = cs[pos];
        if is_blank(c) {
            lemma_scan_errors(cs, pos + 1, true, toks);
        } else if c == '#' {
            if pos + 1 < cs.len() && cs[pos + 1] == '#' {
                if let Some(e) = block_close(cs, pos + 2) {
                    lemma_scan_errors(cs, e, true, toks);
                }
            } else {
                lemma_scan_errors(cs, line_end(cs, pos), true, toks);
            }
        } else if c == '\n' {
            let emit = toks.len() > 0 && !(toks.last().tok is Newline);
            let next = if emit {
                toks.push(placed(cs, STok::Newline, pos, true))
            } else {
                toks
            };
            lemma_scan_errors(cs, pos + 1, true, next);
        } else if let Ok((t, e)) = token_at(cs, pos) {
            lemma_scan_errors(cs, e, false, toks.push(placed(cs, t, pos, pending)));
        }
    }
}

/// Every lexing error names the source line it was found on.
pub proof fn law_lex_errors_name_a_line(cs: Seq<char>)
    ensures
        lex_spec(cs) matches Err(e) ==> e.1 is Some,
{
    lemma_scan_errors(cs, 0, true, Seq::empty());
}

/// Plain decimal text: digits, with at most one point, which has a digit on
/// either side.
pub open spec fn plain_decimal(s: Seq<char>) -> bool {
    &&& s.len() > 0
    &&& is_digit(s[0])
    &&& is_digit(s.last())
    &&& forall|i: int| 0 <= i < s.len() ==> is_digit(#[trigger] s[i]) || s[i] == '.'
    &&& forall|i: int, j: int|
        0 <= i < s.len() && 0 <= j < s.len() && #[trigger] s[i] == '.' && #[trigger] s[j] == '.'
            ==> i == j
}

/// Every number token among `ts` carries plain decimal text.
pub open spec fn numbers_plain(ts: Seq<SToken>) -> bool {
    forall|i: int| 0 <= i < ts.len() ==> (#[trigger] ts[i].tok matches STok::Number(n) ==> plain_decimal(n))
}

proof fn lemma_strip_commas(raw: Seq<char>)
    requires
        forall|i: int| 0 <= i < raw.len() ==> is_digit(#[trigger] raw[i]) || raw[i] == ',',
    ensures
        forall|i: int| 0 <= i < strip_commas(raw).len() ==> is_digit(#[trigger] strip_commas(raw)[i]),
        raw.len() > 0 && raw[0] != ',' ==> strip_commas(raw).len() > 0 && strip_commas(raw)[0]
            == raw[0],
    decreases raw.len(),
{
    if raw.len() > 0 {
        let init = raw.drop_last();
        assert forall|i: int| 0 <= i < init.len() implies is_digit(#[trigger] init[i]) || init[i]
            == ',' by {
            assert(init[i] == raw[i]);
        }
        lemma_strip_commas(init);
        let tail = if raw.last() == ',' {
            Seq::<char>::empty()
        } else {
            seq![raw.last()]
        };
        assert(strip_commas(raw) == strip_commas(init) + tail);
        assert forall|i: int| 0 <= i < strip_commas(raw).len() implies is_digit(
            #[trigger] strip_commas(raw)[i],
        ) by {
            if i < strip_commas(init).len() {
                assert(strip_commas(raw)[i] == strip_commas(init)[i]);
            } else {
                assert(strip_commas(raw)[i] == raw.last());
            }
        }
        if raw.len() == 1 && raw[0] != ',' {
            assert(init.len() == 0);
            assert(strip_commas(init) =~= Seq::<char>::empty());
            assert(strip_commas(raw) =~= seq![raw[0]]);
        }
    }
}

proof fn lemma_digit_run(cs: Seq<char>, q: int)
    requires
        0 <= q,
    ensures
        forall|i: int| q <= i < digit_run_end(cs, q) ==> is_digit(#[trigger] cs[i]),
    decreases cs.len() - q,
{
    if q < cs.len() && is_digit(cs[q]) {
        lemma_digit_run(cs, q + 1);
    }
}

proof fn lemma_number_plain(cs: Seq<char>, p: int)
    requires
        0 <= p < cs.len(),
        is_digit(cs[p]),
    ensures
        number_at(cs, p) matches Ok((STok::Number(n), _)) ==> plain_decimal(n),
{
    lemma_run_ends(cs, p);
    let e1 = num_run_end(cs, p);
    let raw = cs.subrange(p, e1);
    lemma_run_ends(cs, p + 1);
    assert forall|i: int| 0 <= i < raw.len() implies is_digit(#[trigger] raw[i]) || raw[i] == ',' by {
        assert(raw[i] == cs[p + i]);
    }
    lemma_strip_commas(raw);
    let whole = strip_commas(raw);
    assert(raw[0] == cs[p]);
    if grouping_ok(raw) {
        if e1 + 1 < cs.len() && cs[e1] == '.' && is_digit(cs[e1 + 1]) {
            let fe = digit_run_end(cs, e1 + 1);
            lemma_run_ends(cs, e1 + 1);
            lemma_digit_run(cs, e1 + 1);
            lemma_run_ends(cs, e1 + 2);
            let frac = cs.subrange(e1 + 1, fe);
            let n = whole + seq!['.'] + frac;
            assert forall|i: int| 0 <= i < n.len() implies is_digit(#[trigger] n[i]) || n[i] == '.' by {
                if i < whole.len() {
                    assert(n[i] == whole[i]);
                } else if i > whole.len() {
                    assert(n[i] == cs[e1 + 1 + (i - whole.len() - 1)]);
                }
            }
            assert forall|i: int, j: int|
                0 <= i < n.len() && 0 <= j < n.len() && #[trigger] n[i] == '.' && #[trigger] n[j]
                    == '.' implies i == j by {
                if i < whole.len() {
                    assert(n[i] == whole[i]);
                } else if i > whole.len() {
                    assert(n[i] == cs[e1 + 1 + (i - whole.len() - 1)]);
                }
                if j < whole.len() {
                    assert(n[j] == whole[j]);
                } else if j > whole.len() {
                    assert(n[j] == cs[e1 + 1 + (j - whole.len() - 1)]);
                }
            }
            assert(n[0] == whole[0]);
            assert(n.last() == cs[fe - 1]);
        } else {
            assert(whole.last() == whole[whole.len() - 1]);
        }
    }
}

proof fn lemma_scan_numbers(cs: Seq<char>, pos: int, pending: bool, toks: Seq<SToken>)
    requires
        numbers_plain(toks),
    ensures
        scan(cs, pos, pending, toks) matches Ok(ts) ==> numbers_plain(ts),
    decreases cs.len() - pos,
{
    if pos < 0 || pos >= cs.len() {
        let ts = toks.push(placed(cs, STok::Eof, pos, pending));
        assert forall|i: int| 0 <= i < ts.len() implies (#[trigger] ts[i].tok matches STok::Number(
            n,
        ) ==> plain_decimal(n)) by {
            if i < toks.len() {
                assert(ts[i] == toks[i]);
            }
        }
    } else {
        lemma_block_close(cs, pos + 2);
        lemma_line_end(cs, pos);
        lemma_token_at_end(cs, pos);
        let c = cs[pos];
        if is_blank(c) {
            lemma_scan_numbers(cs, pos + 1, true, toks);
        } else if c == '#' {
            if pos + 1 < cs.len() && cs[pos + 1] == '#' {
                if let Some(e) = block_close(cs, pos + 2) {
                    lemma_scan_numbers(cs, e, true, toks);
                }
            } else {
                lemma_scan_numbers(cs, line_end(cs, pos), true, toks);
            }
        } else if c == '\n' {
            let emit = toks.len() > 0 && !(toks.last().tok is Newline);
            let next = if emit {
                toks.push(placed(cs, STok::Newline, pos, true))
            } else {
                toks
            };
            assert forall|i: int| 0 <= i < next.len() implies (
            #[trigger] next[i].tok matches STok::Number(n) ==> plain_decimal(n)) by {
                if i < toks.len() {
                    assert(next[i] == toks[i]);
                }
            }
            lemma_scan_numbers(cs, pos + 1, true, next);
        } else if let Ok((t, e)) = token_at(cs, pos) {
            if is_digit(c) {
                lemma_number_plain(cs, pos);
            }
            assert(t matches STok::Number(n) ==> is_digit(c));
            let next = toks.push(placed(cs, t, pos, pending));
            assert forall|i: int| 0 <= i < next.len() implies (
            #[trigger] next[i].tok matches STok::Number(n) ==> plain_decimal(n)) by {
                if i < toks.len() {
                    assert(next[i] == toks[i]);
                }
            }
            lemma_scan_numbers(cs, e, false, next);
        }
    }
}

/// A number literal reaches the parser as plain decimal text: thousands
/// separators removed, digits with at most one point between digits.
pub proof fn law_numbers_are_plain_decimals(cs: Seq<char>)
    ensures
        lex_spec(cs) matches Ok(ts) ==> numbers_plain(ts),
{
    lemma_scan_numbers(cs, 0, true, Seq::empty());
}

/// The pieces of `raw` from `i` on, cut at each comma with the commas
/// dropped: the text before the first comma, then the pieces after it. A
/// text with `n` commas has `n + 1` pieces, empty ones included.
pub open spec fn parts_from(raw: Seq<char>, i: int) -> Seq<Seq<char>>
    decreases raw.len() - i,
    via parts_from_decreases
{
    let k = comma_index(raw, i);
    if 0 <= i && k < raw.len() {
        seq![raw.subrange(i, k)] + parts_from(raw, k + 1)
    } else {
        seq![raw.subrange(i, raw.len() as int)]
    }
}

#[via_fn]
proof fn parts_from_decreases(raw: Seq<char>, i: int) {
    if 0 <= i <= raw.len() {
        lemma_comma_index(raw, i);
    }
}

/// `raw` cut at each comma.
pub open spec fn split_commas(raw: Seq<char>) -> Seq<Seq<char>> {
    parts_from(raw, 0)
}

/// Whether every character of `p` is a decimal digit.
pub open spec fn digits_only(p: Seq<char>) -> bool {
    forall|m: int| 0 <= m < p.len() ==> is_digit(#[trigger] p[m])
}

/// The grouping rule read piece by piece: a literal with no comma is well
/// grouped; one with commas is when every comma-separated piece is a
/// non-empty run of digits, the first of one to three digits and each later
/// one of exactly three.
pub open spec fn grouped_by_parts(raw: Seq<char>) -> bool {
    let ps = split_commas(raw);
    ||| !raw.contains(',')
    ||| {
        &&& forall|j: int| 0 <= j < ps.len() ==> #[trigger] ps[j].len() > 0 && digits_only(ps[j])
        &&& 1 <= ps[0].len() <= 3
        &&& forall|j: int| 1 <= j < ps.len() ==> #[trigger] ps[j].len() == 3
    }
}

proof fn lemma_comma_index(raw: Seq<char>, i: int)
    requires
        0 <= i <= raw.len(),
    ensures
        i <= comma_index(raw, i) <= raw.len(),
        comma_index(raw, i) < raw.len() ==> raw[comma_index(raw, i)] == ',',
        forall|m: int| i <= m < comma_index(raw, i) ==> #[trigger] raw[m] != ',',
    decreases raw.len() - i,
{
    if i < raw.len() && raw[i] != ',' {
        lemma_comma_index(raw, i + 1);
    }
}

/// The pieces from `i` on: the first runs up to the next comma, and each is
/// made of digits when `raw` holds only digits and commas.
proof fn lemma_parts_from(raw: Seq<char>, i: int)
    requires
        0 <= i <= raw.len(),
        forall|m: int| 0 <= m < raw.len() ==> (is_digit(#[trigger] raw[m]) || raw[m] == ','),
    ensures
        parts_from(raw, i).len() >= 1,
        parts_from(raw, i)[0] == raw.subrange(i, comma_index(raw, i)),
        forall|j: int|
            0 <= j < parts_from(raw, i).len() ==> digits_only(#[trigger] parts_from(raw, i)[j]),
    decreases raw.len() - i,
{
    lemma_comma_index(raw, i);
    let k = comma_index(raw, i);
    let ps = parts_from(raw, i);
    assert(digits_only(raw.subrange(i, k))) by {
        assert forall|m: int| 0 <= m < k - i implies is_digit(#[trigger] raw.subrange(i, k)[m]) by {
            assert(raw[i + m] != ',');
        }
    }
    if k < raw.len() {
        lemma_parts_from(raw, k + 1);
        let rest = parts_from(raw, k + 1);
        assert forall|j: int| 0 <= j < ps.len() implies digits_only(#[trigger] ps[j]) by {
            if j > 0 {
                assert(ps[j] == rest[j - 1]);
            }
        }
    }
}

/// After the comma at `q`, every piece has exactly three digits just when
/// the commas from `q` on stand every fourth place and end one group short of
/// the end.
proof fn lemma_groups_of_three(raw: Seq<char>, q: int)
    requires
        0 <= q < raw.len(),
        raw[q] == ',',
    ensures
        (forall|j: int|
            0 <= j < parts_from(raw, q + 1).len() ==> #[trigger] parts_from(raw, q + 1)[j].len()
                == 3) <==> ((raw.len() - q) % 4 == 0 && forall|i: int|
            q <= i < raw.len() ==> (#[trigger] raw[i] == ',' <==> (i - q) % 4 == 0)),
    decreases raw.len() - q,
{
    let n = raw.len() as int;
    lemma_comma_index(raw, q + 1);
    let k = comma_index(raw, q + 1);
    let ps = parts_from(raw, q + 1);
    if k == n {
        assert(ps =~= seq![raw.subrange(q + 1, n)]);
        assert(ps[0].len() == n - q - 1);
        if n - q == 4 {
            assert forall|i: int| q <= i < n implies (#[trigger] raw[i] == ',' <==> (i - q) % 4
                == 0) by {
                if i > q {
                    assert(raw[i] != ',');
                }
            }
        } else if n - q > 4 {
            assert(raw[q + 4] != ',');
        }
    } else {
        lemma_groups_of_three(raw, k);
        let rest = parts_from(raw, k + 1);
        assert(ps =~= seq![raw.subrange(q + 1, k)] + rest);
        assert(ps[0].len() == k - q - 1);
        if k - q == 4 {
            assert((forall|j: int| 0 <= j < ps.len() ==> #[trigger] ps[j].len() == 3) <==> (forall|
                j: int,
            | 0 <= j < rest.len() ==> #[trigger] rest[j].len() == 3)) by {
                if forall|j: int| 0 <= j < rest.len() ==> #[trigger] rest[j].len() == 3 {
                    assert forall|j: int| 0 <= j < ps.len() implies #[trigger] ps[j].len() == 3 by {
                        if j > 0 {
                            assert(ps[j] == rest[j - 1]);
                        }
                    }
                }
                if forall|j: int| 0 <= j < ps.len() ==> #[trigger] ps[j].len() == 3 {
                    assert forall|j: int| 0 <= j < rest.len() implies #[trigger] rest[j].len() == 3 by {
                        assert(ps[j + 1] == rest[j]);
                    }
                }
            }
            assert((forall|i: int| q <= i < n ==> (#[trigger] raw[i] == ',' <==> (i - q) % 4 == 0))
                <==> (forall|i: int| k <= i < n ==> (#[trigger] raw[i] == ',' <==> (i - k) % 4 == 0)))
                by {
                if forall|i: int| k <= i < n ==> (#[trigger] raw[i] == ',' <==> (i - k) % 4 == 0) {
                    assert forall|i: int| q <= i < n implies (#[trigger] raw[i] == ',' <==> (i - q) % 4
                        == 0) by {
                        if q < i < k {
                            assert(raw[i] != ',');
                        }
                    }
                }
            }
        } else {
            assert(ps[0].len() != 3);
            if k - q < 4 {
                assert(raw[k] == ',');
            } else {
                assert(raw[q + 4] != ',');
            }
        }
    }
}

/// The thousands-grouping rule is the rule on comma-separated pieces: for a
/// literal made of digits and commas, it is well grouped exactly when it has
/// no comma, or when every piece between commas is a non-empty run of digits,
/// the first one to three long and every later one exactly three long.
pub proof fn law_grouping_by_parts(raw: Seq<char>)
    requires
        forall|m: int| 0 <= m < raw.len() ==> (is_digit(#[trigger] raw[m]) || raw[m] == ','),
    ensures
        grouping_ok(raw) <==> grouped_by_parts(raw),
{
    let n = raw.len() as int;
    lemma_comma_index(raw, 0);
    lemma_parts_from(raw, 0);
    let k = comma_index(raw, 0);
    let ps = split_commas(raw);
    if k == n {
        assert(!raw.contains(','));
    } else {
        assert(raw.contains(','));
        lemma_groups_of_three(raw, k);
        let rest = parts_from(raw, k + 1);
        lemma_parts_from(raw, k + 1);
        assert(ps =~= seq![raw.subrange(0, k)] + rest);
        assert((forall|j: int| 1 <= j < ps.len() ==> #[trigger] ps[j].len() == 3) <==> (forall|
            j: int,
        | 0 <= j < rest.len() ==> #[trigger] rest[j].len() == 3)) by {
            if forall|j: int| 0 <= j < rest.len() ==> #[trigger] rest[j].len() == 3 {
                assert forall|j: int| 1 <= j < ps.len() implies #[trigger] ps[j].len() == 3 by {
                    assert(ps[j] == rest[j - 1]);
                }
            }
            if forall|j: int| 1 <= j < ps.len() ==> #[trigger] ps[j].len() == 3 {
                assert forall|j: int| 0 <= j < rest.len() implies #[trigger] rest[j].len() == 3 by {
                    assert(ps[j + 1] == rest[j]);
                }
            }
        }
        if grouping_ok(raw) {
            assert forall|j: int| 0 <= j < ps.len() implies #[trigger] ps[j].len() > 0 && digits_only(
                ps[j],
            ) by {
                if j > 0 {
                    assert(ps[j] == rest[j - 1]);
                }
            }
        }
    }
}

// --- the lexer --------------------------------------------------------------------

/// Lex `source` into tokens; the sequence always ends with a single `Eof`.
pub fn lex(source: &str) -> (r: Result<Vec<Token>, SixError>)
    requires
        source@.len() < usize::MAX,
    ensures
        lex_view(r) == lex_spec(source@),
{
    Lexer::new(source).run()
}

/// The token a scanned name stands for.
fn keyword_tok(name: &Vec<char>) -> (t: Tok)
    ensures
        t@ == keyword(name@),
{
    let n = name.as_slice();
    if spells(n, "true") {
        Tok::True
    } else if spells(n, "false") {
        Tok::False
    } else if spells(n, "nil") {
        Tok::Nil
    } else if spells(n, "if") {
        Tok::If
    } else if spells(n, "any") {
        Tok::Any
    } else if spells(n, "else") {
        Tok::Else
    } else if spells(n, "and") {
        Tok::And
    } else if spells(n, "or") {
        Tok::Or
    } else if spells(n, "not") {
        Tok::Not
    } else {
        Tok::Ident(string_of(n))
    }
}

/// Validate that an integer literal uses proper three-digit thousands grouping.
/// Only a literal that actually contains a comma can fail.
#[verifier::loop_isolation(false)]
fn validate_thousands(raw: &Vec<char>, line: usize) -> (r: Result<(), SixError>)
    requires
        forall|i: int| 0 <= i < raw@.len() ==> (is_digit(#[trigger] raw@[i]) || raw@[i] == ','),
    ensures
        r is Ok <==> grouping_ok(raw@),
        r is Ok <==> grouped_by_parts(raw@),
        r matches Err(e) ==> e@ == err_at(line, "malformed numeric separator: "@ + raw@),
{
    let ghost s = raw@;
    proof {
        law_grouping_by_parts(s);
    }
    let n = raw.len();
    // The first group runs up to the first comma.
    let mut k: usize = 0;
    while k < n && raw[k] != ','
        invariant
            s == raw@,
            n == s.len(),
            k <= n,
            comma_index(s, 0) == comma_index(s, k as int),
        decreases n - k,
    {
        k = k + 1;
    }
    if k == n {
        return Ok(());
    }
    if k < 1 || k > 3 {
        return Err(bad_separator(raw, line));
    }
    // Every later group is a comma followed by exactly three digits.
    let mut i: usize = k;
    while i < n
        invariant
            s == raw@,
            forall|j: int| 0 <= j < s.len() ==> (is_digit(#[trigger] s[j]) || s[j] == ','),
            n == s.len(),
            comma_index(s, 0) == k,
            1 <= k <= 3,
            k <= i <= n,
            (i - k) % 4 == 0,
            forall|j: int| k <= j < i ==> (#[trigger] s[j] == ',' <==> (j - k) % 4 == 0),
        decreases n - i,
    {
        if raw[i] != ',' {
            return Err(bad_separator(raw, line));
        }
        if n - i < 4 {
            assert(!grouping_ok(s)) by {
                assert((n - k) % 4 != 0);
            }
            return Err(bad_separator(raw, line));
        }
        if raw[i + 1] == ',' || raw[i + 2] == ',' || raw[i + 3] == ',' {
            assert(!grouping_ok(s)) by {
                if raw[i + 1] == ',' {
                    assert(s[i + 1] == ',');
                } else if raw[i + 2] == ',' {
                    assert(s[i + 2] == ',');
                } else {
                    assert(s[i + 3] == ',');
                }
            }
            return Err(bad_separator(raw, line));
        }
        i = i + 4;
    }
    Ok(())
}

fn bad_separator(raw: &Vec<char>, line: usize) -> (e: SixError)
    ensures
        e@ == err_at(line, "malformed numeric separator: "@ + raw@),
{
    let mut m = text("malformed numeric separator: ");
    m.append(string_of(raw.as_slice()).as_str());
    SixError::at(line, m)
}

struct Lexer {
    chars: Vec<char>,
    pos: usize,
    line: usize,
    col: usize,
    /// True when whitespace / newline / start-of-input precedes the next token.
    pending_space: bool,
    tokens: Vec<Token>,
}

impl Lexer {
    spec fn wf(&self) -> bool {
        &&& self.chars@.len() < usize::MAX
        &&& self.pos <= self.chars@.len()
        &&& self.line == line_at(self.chars@, self.pos as int)
        &&& self.col == col_at(self.chars@, self.pos as int)
    }

    spec fn toks(&self) -> Seq<SToken> {
        tokens_view(self.tokens@)
    }

    /// What lexing the rest of the input from this state yields.
    spec fn here(&self) -> Result<Seq<SToken>, ErrView> {
        scan(self.chars@, self.pos as int, self.pending_space, self.toks())
    }

    /// This state is `old` moved forward with the same outcome ahead.
    spec fn advanced_from(&self, old: &Lexer) -> bool {
        &&& self.wf()
        &&& self.chars@ == old.chars@
        &&& self.pos > old.pos
        &&& self.here() == old.here()
    }

    /// The next character starts a token (it is not whitespace, a comment or
    /// a newline).
    spec fn at_token(&self) -> bool {
        &&& self.wf()
        &&& self.pos < self.chars@.len()
        &&& !is_blank(self.chars@[self.pos as int])
        &&& self.chars@[self.pos as int] != '#'
        &&& self.chars@[self.pos as int] != '\n'
    }

    fn new(source: &str) -> (l: Lexer)
        requires
            source@.len() < usize::MAX,
        ensures
            l.wf(),
            l.chars@ == source@,
            l.pos == 0,
            l.pending_space,
            l.tokens@.len() == 0,
    {
        Lexer {
            chars: chars_of(source),
            pos: 0,
            line: 1,
            col: 1,
            pending_space: true,
            tokens: Vec::new(),
        }
    }

    fn peek(&self) -> (r: Option<char>)
        requires
            self.wf(),
        ensures
            r == char_at(self.chars@, self.pos as int),
    {
        if self.pos < self.chars.len() {
            Some(self.chars[self.pos])
        } else {
            None
        }
    }

    fn peek_at(&self, offset: usize) -> (r: Option<char>)
        requires
            self.wf(),
            offset <= 1,
        ensures
            r == char_at(self.chars@, self.pos + offset),
    {
        if self.pos + offset < self.chars.len() {
            Some(self.chars[self.pos + offset])
        } else {
            None
        }
    }

    fn advance(&mut self) -> (r: Option<char>)
        requires
            old(self).wf(),
        ensures
            final(self).wf(),
            r == char_at(old(self).chars@, old(self).pos as int),
            final(self).pos == if old(self).pos < old(self).chars@.len() {
                old(self).pos + 1
            } else {
                old(self).pos as int
            },
            final(self).chars@ == old(self).chars@,
            final(self).tokens@ == old(self).tokens@,
            final(self).pending_space == old(self).pending_space,
    {
        proof {
            lemma_line_col_bounds(self.chars@, self.pos as int);
        }
        if self.pos < self.chars.len() {
            let c = self.chars[self.pos];
            self.pos = self.pos + 1;
            if c == '\n' {
                self.line = self.line + 1;
                self.col = 1;
            } else {
                self.col = self.col + 1;
            }
            Some(c)
        } else {
            None
        }
    }

    fn push(&mut self, tok: Tok, line: usize, col: usize)
        ensures
            final(self).toks() == old(self).toks().push(
                SToken { tok: tok@, line, col, space_before: old(self).pending_space },
            ),
            !final(self).pending_space,
            final(self).chars@ == old(self).chars@,
            final(self).pos == old(self).pos,
            final(self).line == old(self).line,
            final(self).col == old(self).col,
    {
        let space_before = self.pending_space;
        let t = Token::new(tok, line, col, space_before);
        self.tokens.push(t);
        self.pending_space = false;
        assert(self.toks() =~= old(self).toks().push(t@));
    }

    fn next_continues_ident(&self) -> (r: bool)
        requires
            self.wf(),
        ensures
            r == (self.pos + 1 < self.chars@.len() && ident_continue(self.chars@[self.pos + 1])),
    {
        match self.peek_at(1) {
            Some(n) => is_ident_continue(n),
            None => false,
        }
    }

    /// Skip a `## ... ##` block comment or a `#` line comment.
    #[verifier::loop_isolation(false)]
    fn skip_comment(&mut self) -> (r: Result<(), SixError>)
        requires
            old(self).wf(),
            old(self).pos < old(self).chars@.len(),
            old(self).chars@[old(self).pos as int] == '#',
        ensures
            r is Ok ==> final(self).advanced_from(old(self)),
            r matches Err(e) ==> old(self).here() == Err::<Seq<SToken>, ErrView>(e@),
            r is Err ==> final(self).tokens@ == old(self).tokens@,
    {
        let ghost cs = self.chars@;
        let ghost p = self.pos as int;
        proof {
            lemma_line_col_bounds(cs, p);
            lemma_line_end(cs, p);
        }
        if matches!(self.peek_at(1), Some('#')) {
            // Block comment: `##` ... `##`.
            let start_line = self.line;
            self.advance();
            self.advance();
            loop
                invariant
                    self.wf(),
                    self.chars@ == cs,
                    self.tokens@ == old(self).tokens@,
                    self.pending_space == old(self).pending_space,
                    p + 2 <= self.pos <= cs.len(),
                    block_close(cs, p + 2) == block_close(cs, self.pos as int),
                decreases cs.len() - self.pos,
            {
                match self.peek() {
                    None => {
                        assert(block_close(cs, p + 2) is None);
                        assert(cs[p + 1] == '#');
                        assert(scan(cs, p, old(self).pending_space, old(self).toks()) == Err::<Seq<SToken>, ErrView>(err_at(line_at(cs, p) as usize, "unterminated block comment"@)));
                        return Err(SixError::at(start_line, text("unterminated block comment")));
                    },
                    Some(c) => {
                        if c == '#' && matches!(self.peek_at(1), Some('#')) {
                            self.advance();
                            self.advance();
                            break;
                        } else {
                            self.advance();
                        }
                    },
                }
            }
        } else {
            // Line comment to end of line.
            self.advance();
            loop
                invariant
                    self.wf(),
                    self.chars@ == cs,
                    self.tokens@ == old(self).tokens@,
                    p < self.pos <= cs.len(),
                    line_end(cs, p) == line_end(cs, self.pos as int),
                decreases cs.len() - self.pos,
            {
                match self.peek() {
                    None => {
                        break;
                    },
                    Some(c) => {
                        if c == '\n' {
                            break;
                        }
                        self.advance();
                    },
                }
            }
        }
        self.pending_space = true;
        Ok(())
    }

    #[verifier::loop_isolation(false)]
    fn lex_text(&mut self, line: usize, col: usize) -> (r: Result<(), SixError>)
        requires
            old(self).wf(),
            old(self).pos < old(self).chars@.len(),
            old(self).chars@[old(self).pos as int] == '"',
            line == line_at(old(self).chars@, old(self).pos as int),
            col == col_at(old(self).chars@, old(self).pos as int),
        ensures
            r is Ok ==> final(self).advanced_from(old(self)),
            r matches Err(e) ==> old(self).here() == Err::<Seq<SToken>, ErrView>(e@),
            r is Err ==> final(self).tokens@ == old(self).tokens@,
    {
        let ghost cs = self.chars@;
        let ghost p = self.pos as int;
        self.advance();  // opening quote
        let mut s = String::new();
        loop
            invariant
                self.wf(),
                self.chars@ == cs,
                self.tokens@ == old(self).tokens@,
                self.pending_space == old(self).pending_space,
                p < self.pos <= cs.len(),
                text_body(cs, p + 1) == match text_body(cs, self.pos as int) {
                    Some((t, e)) => Some((s@ + t, e)),
                    None => None,
                },
            decreases cs.len() - self.pos,
        {
            let ghost q = self.pos as int;
            let ghost before = s@;
            match self.advance() {
                None => {
                    return Err(SixError::at(line, text("unterminated text literal")));
                },
                Some(c) => {
                    if c == '"' {
                        assert(s@ + Seq::empty() =~= s@);
                        break;
                    } else if c == '\\' {
                        // Minimal escape support keeps text a plain value type.
                        match self.advance() {
                            Some(e) => {
                                if e == 'n' {
                                    push_char(&mut s, '\n');
                                } else if e == 't' {
                                    push_char(&mut s, '\t');
                                } else if e == '\\' {
                                    push_char(&mut s, '\\');
                                } else if e == '"' {
                                    push_char(&mut s, '"');
                                } else {
                                    push_char(&mut s, '\\');
                                    push_char(&mut s, e);
                                }
                                assert(s@ =~= before + escape(e));
                                assert forall|t: Seq<char>| #![auto] before + (escape(e) + t) =~= s@ + t by {}
                            },
                            None => {
                                return Err(SixError::at(line, text("unterminated text literal")));
                            },
                        }
                    } else {
                        push_char(&mut s, c);
                        assert forall|t: Seq<char>| #![auto] before + (seq![c] + t) =~= s@ + t by {}
                    }
                },
            }
        }
        self.push(Tok::Text(s), line, col);
        Ok(())
    }

    #[verifier::loop_isolation(false)]
    fn lex_number(&mut self, line: usize, col: usize) -> (r: Result<(), SixError>)
        requires
            old(self).at_token(),
            is_digit(old(self).chars@[old(self).pos as int]),
            line == line_at(old(self).chars@, old(self).pos as int),
            col == col_at(old(self).chars@, old(self).pos as int),
        ensures
            r is Ok ==> final(self).advanced_from(old(self)),
            r matches Err(e) ==> old(self).here() == Err::<Seq<SToken>, ErrView>(e@),
            r is Err ==> final(self).tokens@ == old(self).tokens@,
    {
        let ghost cs = self.chars@;
        let start = self.pos;
        let ghost p = start as int;
        // Integer part: digits and thousands separators.
        let mut raw: Vec<char> = Vec::new();
        loop
            invariant
                self.wf(),
                self.chars@ == cs,
                self.tokens@ == old(self).tokens@,
                self.pending_space == old(self).pending_space,
                p <= self.pos <= cs.len(),
                raw@ == cs.subrange(p, self.pos as int),
                num_run_end(cs, p) == num_run_end(cs, self.pos as int),
            decreases cs.len() - self.pos,
        {
            match self.peek() {
                Some(c) => {
                    if is_ascii_digit(c) || c == ',' {
                        raw.push(c);
                        self.advance();
                        assert(raw@ =~= cs.subrange(p, self.pos as int));
                    } else {
                        break;
                    }
                },
                None => {
                    break;
                },
            }
        }
        proof {
            lemma_run_ends(cs, p);
        }
        validate_thousands(&raw, line)?;
        let e1 = self.pos;
        let mut digits: Vec<char> = Vec::new();
        let mut i: usize = 0;
        while i < raw.len()
            invariant
                i <= raw@.len(),
                digits@ == strip_commas(raw@.subrange(0, i as int)),
            decreases raw@.len() - i,
        {
            assert(raw@.subrange(0, i + 1).drop_last() =~= raw@.subrange(0, i as int));
            if raw[i] != ',' {
                digits.push(raw[i]);
            }
            i = i + 1;
        }
        assert(raw@.subrange(0, raw@.len() as int) =~= raw@);
        // Optional fractional part (only when a digit follows the dot, so that
        // `5.text` stays `5` `.text` and a trailing `.` is a terminator).
        let frac = match self.peek_at(1) {
            Some(d) => matches!(self.peek(), Some('.')) && is_ascii_digit(d),
            None => false,
        };
        if frac {
            self.advance();
            digits.push('.');
            let ghost head = digits@;
            assert(head =~= strip_commas(raw@) + seq!['.']);
            loop
                invariant
                    self.wf(),
                    self.chars@ == cs,
                    self.tokens@ == old(self).tokens@,
                    self.pending_space == old(self).pending_space,
                    e1 < self.pos <= cs.len(),
                    digits@ == head + cs.subrange(e1 + 1, self.pos as int),
                    digit_run_end(cs, e1 + 1) == digit_run_end(cs, self.pos as int),
                decreases cs.len() - self.pos,
            {
                match self.peek() {
                    Some(c) => {
                        if is_ascii_digit(c) {
                            digits.push(c);
                            self.advance();
                            assert(digits@ =~= head + cs.subrange(e1 + 1, self.pos as int));
                        } else if c == ',' {
                            return Err(
                                SixError::at(
                                    line,
                                    text(
                                        "malformed numeric separator: commas are not allowed in a fractional part",
                                    ),
                                ),
                            );
                        } else {
                            break;
                        }
                    },
                    None => {
                        break;
                    },
                }
            }
        }
        proof {
            lemma_run_ends(cs, e1 + 1);
        }
        assert(number_at(cs, p) == Ok::<(STok, int), Seq<char>>((STok::Number(digits@), self.pos as int)));
        self.push(Tok::Number(string_of(digits.as_slice())), line, col);
        Ok(())
    }

    #[verifier::loop_isolation(false)]
    fn lex_ident(&mut self, line: usize, col: usize)
        requires
            old(self).at_token(),
            ident_start(old(self).chars@[old(self).pos as int]),
            line == line_at(old(self).chars@, old(self).pos as int),
            col == col_at(old(self).chars@, old(self).pos as int),
            token_at(old(self).chars@, old(self).pos as int) == Ok::<(STok, int), Seq<char>>(
                (
                    keyword(
                        old(self).chars@.subrange(
                            old(self).pos as int,
                            ident_end(old(self).chars@, old(self).pos + 1),
                        ),
                    ),
                    ident_end(old(self).chars@, old(self).pos + 1),
                ),
            ),
        ensures
            final(self).advanced_from(old(self)),
    {
        let ghost cs = self.chars@;
        let ghost p = self.pos as int;
        let mut name: Vec<char> = Vec::new();
        name.push(self.chars[self.pos]);
        self.advance();
        assert(name@ =~= cs.subrange(p, self.pos as int));
        loop
            invariant
                self.wf(),
                self.chars@ == cs,
                self.tokens@ == old(self).tokens@,
                self.pending_space == old(self).pending_space,
                p < self.pos <= cs.len(),
                name@ == cs.subrange(p, self.pos as int),
                ident_end(cs, p + 1) == ident_end(cs, self.pos as int),
            decreases cs.len() - self.pos,
        {
            match self.peek() {
                None => {
                    break;
                },
                Some(c) => {
                    if is_ident_continue(c) {
                        name.push(c);
                        self.advance();
                    } else if c == '-' && self.next_starts_ident() {
                        // A hyphen continues the identifier only when directly
                        // followed by another identifier char, so `build-first`
                        // is one name while `n - 1` is subtraction.
                        name.push('-');
                        self.advance();
                    } else if c == '?' {
                        // A trailing `?` marks a predicate name (`even?`, `has?`).
                        name.push('?');
                        self.advance();
                        assert(name@ =~= cs.subrange(p, self.pos as int));
                        break;
                    } else {
                        break;
                    }
                    assert(name@ =~= cs.subrange(p, self.pos as int));
                },
            }
        }
        let tok = keyword_tok(&name);
        self.push(tok, line, col);
    }

    fn next_starts_ident(&self) -> (r: bool)
        requires
            self.wf(),
        ensures
            r == (self.pos + 1 < self.chars@.len() && ident_start(self.chars@[self.pos + 1])),
    {
        match self.peek_at(1) {
            Some(n) => is_ident_start(n),
            None => false,
        }
    }

    fn lex_symbol(&mut self, line: usize, col: usize) -> (r: Result<(), SixError>)
        requires
            old(self).at_token(),
            token_at(old(self).chars@, old(self).pos as int) == symbol_at(
                old(self).chars@,
                old(self).pos as int,
            ),
            line == line_at(old(self).chars@, old(self).pos as int),
            col == col_at(old(self).chars@, old(self).pos as int),
        ensures
            r is Ok ==> final(self).advanced_from(old(self)),
            r matches Err(e) ==> old(self).here() == Err::<Seq<SToken>, ErrView>(e@),
            r is Err ==> final(self).tokens@ == old(self).tokens@,
    {
        let c = self.chars[self.pos];
        self.advance();
        let tok = if c == '(' {
            Tok::LParen
        } else if c == ')' {
            Tok::RParen
        } else if c == '[' {
            Tok::LBracket
        } else if c == ']' {
            Tok::RBracket
        } else if c == '$' {
            Tok::Dollar
        } else if c == '@' {
            Tok::At
        } else if c == '~' {
            Tok::Tilde
        } else if c == '^' {
            Tok::Caret
        } else if c == '_' {
            Tok::Underscore
        } else if c == '+' {
            if matches!(self.peek(), Some('+')) {
                self.advance();
                Tok::PlusPlus
            } else {
                Tok::Plus
            }
        } else if c == '-' {
            if matches!(self.peek(), Some('-')) {
                self.advance();
                Tok::MinusMinus
            } else {
                Tok::Minus
            }
        } else if c == '*' {
            if matches!(self.peek(), Some('*')) {
                self.advance();
                Tok::StarStar
            } else {
                Tok::Star
            }
        } else if c == '/' {
            if matches!(self.peek(), Some('/')) {
                self.advance();
                Tok::SlashSlash
            } else {
                Tok::Slash
            }
        } else if c == '%' {
            Tok::Percent
        } else if c == ':' {
            if matches!(self.peek(), Some(':')) {
                self.advance();
                Tok::ColonColon
            } else {
                Tok::Colon
            }
        } else if c == '=' {
            if matches!(self.peek(), Some('=')) {
                self.advance();
                Tok::EqEq
            } else {
                Tok::Assign
            }
        } else if c == '!' {
            if matches!(self.peek(), Some('=')) {
                self.advance();
                Tok::NotEq
            } else {
                Tok::Not
            }
        } else if c == '<' {
            if matches!(self.peek(), Some('=')) {
                self.advance();
                Tok::Le
            } else {
                Tok::Lt
            }
        } else if c == '>' {
            if matches!(self.peek(), Some('>')) {
                self.advance();
                Tok::FatArrow
            } else if matches!(self.peek(), Some('=')) {
                self.advance();
                Tok::Ge
            } else {
                Tok::Gt
            }
        } else if c == '&' {
            if matches!(self.peek(), Some('&')) {
                self.advance();
                Tok::And
            } else {
                return Err(SixError::at(line, text("unexpected character '&' (did you mean '&&'?)")));
            }
        } else if c == '|' {
            if matches!(self.peek(), Some('|')) {
                self.advance();
                Tok::Or
            } else {
                return Err(SixError::at(line, text("unexpected character '|' (did you mean '||'?)")));
            }
        } else if c == '.' {
            if matches!(self.peek(), Some('.')) {
                self.advance();
                Tok::Empty
            } else {
                Tok::Dot
            }
        } else if c == '?' {
            if matches!(self.peek(), Some('?')) {
                self.advance();
                Tok::QElse
            } else if matches!(self.peek(), Some('*')) {
                self.advance();
                Tok::QAny
            } else {
                Tok::QIf
            }
        } else {
            let mut m = text("unexpected character '");
            push_char(&mut m, c);
            push_char(&mut m, '\'');
            assert(m@ =~= "unexpected character '"@ + seq![c, '\'']);
            return Err(SixError::at(line, m));
        };
        self.push(tok, line, col);
        Ok(())
    }

    #[verifier::loop_isolation(false)]
    fn run(self) -> (r: Result<Vec<Token>, SixError>)
        requires
            self.wf(),
            self.pos == 0,
            self.pending_space,
            self.tokens@.len() == 0,
        ensures
            lex_view(r) == lex_spec(self.chars@),
    {
        let ghost cs = self.chars@;
        let mut lx = self;
        assert(lx.toks() =~= Seq::empty());
        loop
            invariant
                lx.wf(),
                lx.chars@ == cs,
                scan(cs, lx.pos as int, lx.pending_space, lx.toks()) == lex_spec(cs),
            decreases cs.len() - lx.pos,
        {
            proof {
                lemma_line_col_bounds(cs, lx.pos as int);
            }
            let line = lx.line;
            let col = lx.col;
            let c = match lx.peek() {
                Some(c) => c,
                None => {
                    lx.push(Tok::Eof, line, col);
                    return Ok(lx.tokens);
                },
            };
            if c == ' ' || c == '\t' || c == '\r' {
                lx.advance();
                lx.pending_space = true;
            } else if c == '#' {
                lx.skip_comment()?;
            } else if c == '\n' {
                lx.advance();
                // Collapse consecutive newlines: don't emit a Newline if the
                // previous token is already a Newline (or nothing yet).
                let ghost before = lx.toks();
                let n = lx.tokens.len();
                if n > 0 && !matches!(lx.tokens[n - 1].tok, Tok::Newline) {
                    let t = Token::new(Tok::Newline, line, col, true);
                    lx.tokens.push(t);
                    assert(lx.toks() =~= before.push(t@));
                }
                lx.pending_space = true;
            } else if c == '"' {
                lx.lex_text(line, col)?;
            } else if is_ascii_digit(c) {
                lx.lex_number(line, col)?;
            } else if c == '_' && !lx.next_continues_ident() {
                // A lone `_` (not starting an identifier) is the floor operator.
                lx.lex_symbol(line, col)?;
            } else if is_ident_start(c) {
                lx.lex_ident(line, col);
            } else {
                lx.lex_symbol(line, col)?;
            }
        }
    }
}

} // verus!
