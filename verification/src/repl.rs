//! The decisions of the interactive read-eval-print loop.
//!
//! The REPL reads a complete construct before evaluating: a declaration or
//! conditional spanning several lines is gathered until its `.` terminator,
//! and unbalanced parentheses or a trailing operator likewise ask for another
//! line. A blank line force-submits whatever has been typed.

use vstd::prelude::*;

use crate::chars::{chars_of, is_whitespace, spec_is_whitespace, spells, string_of};
use crate::grammar::tier_op;
use crate::lexer::{lex, lex_spec};
use crate::ast::BinOp;
use crate::token::{STok, SToken, Tok, Token};

verus! {

// --- the model ----------------------------------------------------------------------

/// Opening parentheses and brackets among the first `n` tokens.
pub open spec fn opens(ts: Seq<SToken>, n: int) -> int
    decreases n,
{
    if n <= 0 || n > ts.len() {
        0
    } else {
        let k = ts[n - 1].tok;
        opens(ts, n - 1) + if k is LParen || k is LBracket {
            1int
        } else {
            0int
        }
    }
}

/// Closing parentheses and brackets among the first `n` tokens.
pub open spec fn closes(ts: Seq<SToken>, n: int) -> int
    decreases n,
{
    if n <= 0 || n > ts.len() {
        0
    } else {
        let k = ts[n - 1].tok;
        closes(ts, n - 1) + if k is RParen || k is RBracket {
            1int
        } else {
            0int
        }
    }
}

/// Does token `i` open a block that a `.` must close: a conditional, or a
/// statement-initial `:` (a function declaration)?
pub open spec fn opens_block(ts: Seq<SToken>, i: int) -> bool {
    let k = ts[i].tok;
    ||| k is If
    ||| k is QIf
    ||| k is QAny
    ||| k is Colon && (i == 0 || ts[i - 1].tok is Newline)
}

/// Does token `i` close a block: a standalone `.`, with space before it (a
/// dot-flow `.` hugs its operand)?
pub open spec fn closes_block(ts: Seq<SToken>, i: int) -> bool {
    ts[i].tok is Dot && ts[i].space_before
}

/// Blocks opened among the first `n` tokens.
pub open spec fn block_opens(ts: Seq<SToken>, n: int) -> int
    decreases n,
{
    if n <= 0 || n > ts.len() {
        0
    } else {
        block_opens(ts, n - 1) + if opens_block(ts, n - 1) {
            1int
        } else {
            0int
        }
    }
}

/// Blocks closed among the first `n` tokens.
pub open spec fn block_closes(ts: Seq<SToken>, n: int) -> int
    decreases n,
{
    if n <= 0 || n > ts.len() {
        0
    } else {
        block_closes(ts, n - 1) + if closes_block(ts, n - 1) {
            1int
        } else {
            0int
        }
    }
}

/// The last token among the first `n` that is neither a newline nor the end.
pub open spec fn last_significant(ts: Seq<SToken>, n: int) -> Option<STok>
    decreases n,
{
    if n <= 0 || n > ts.len() {
        None
    } else if !(ts[n - 1].tok is Newline) && !(ts[n - 1].tok is Eof) {
        Some(ts[n - 1].tok)
    } else {
        last_significant(ts, n - 1)
    }
}

/// Tokens after which an expression or statement expects more input: a
/// binary or prefix operator, a binding, an assignment, or a flow arrow.
pub open spec fn expects_more(k: STok) -> bool {
    ||| k is Plus
    ||| k is Minus
    ||| k is Star
    ||| k is Slash
    ||| k is Percent
    ||| k is Lt
    ||| k is Gt
    ||| k is Le
    ||| k is Ge
    ||| k is EqEq
    ||| k is NotEq
    ||| k is And
    ||| k is Or
    ||| k is Not
    ||| k is FatArrow
    ||| k is Colon
    ||| k is ColonColon
    ||| k is Assign
}

/// A token sequence forms a complete construct: no parenthesis or bracket is
/// left open, no block awaits its `.`, and it does not end on an operator that
/// expects a right-hand side. A sequence with no significant token at all is
/// complete.
pub open spec fn complete_tokens(ts: Seq<SToken>) -> bool {
    let n = ts.len() as int;
    &&& opens(ts, n) <= closes(ts, n)
    &&& block_opens(ts, n) <= block_closes(ts, n)
    &&& !(last_significant(ts, n) matches Some(k) && expects_more(k))
}

/// Whether the typed text is ready to evaluate. Text that does not lex (for
/// instance an unterminated text literal) is not: more lines may mend it.
pub open spec fn input_complete(buffer: Seq<char>) -> bool {
    match lex_spec(buffer) {
        Ok(ts) => complete_tokens(ts),
        Err(_) => false,
    }
}

// --- deciding -----------------------------------------------------------------------

fn expects_more_tok(k: &Tok) -> (r: bool)
    ensures
        r == expects_more(k@),
{
    matches!(
        k,
        Tok::Plus | Tok::Minus | Tok::Star | Tok::Slash | Tok::Percent | Tok::Lt | Tok::Gt
            | Tok::Le | Tok::Ge | Tok::EqEq | Tok::NotEq | Tok::And | Tok::Or | Tok::Not
            | Tok::FatArrow | Tok::Colon | Tok::ColonColon | Tok::Assign
    )
}

/// Decide whether the accumulated buffer forms a complete construct.
///
/// Incomplete when parentheses or brackets are open, a block (`:decl`, `if`,
/// `?`) is still awaiting its `.`, or the last token expects a right-hand
/// side.
pub fn input_is_complete(buffer: &str) -> (r: bool)
    requires
        buffer@.len() < usize::MAX,
    ensures
        r == input_complete(buffer@),
{
    let tokens: Vec<Token> = match lex(buffer) {
        Ok(t) => t,
        // A lex error mid-typing means keep gathering; a blank line forces
        // submission if it is truly wrong.
        Err(_) => return false,
    };
    let ghost ts = crate::token::tokens_view(tokens@);
    let mut open: usize = 0;
    let mut close: usize = 0;
    let mut block_open: usize = 0;
    let mut block_close: usize = 0;
    let mut last: Option<usize> = None;
    let mut i: usize = 0;
    while i < tokens.len()
        invariant
            ts == crate::token::tokens_view(tokens@),
            ts.len() == tokens@.len(),
            i <= tokens@.len(),
            open == opens(ts, i as int),
            close == closes(ts, i as int),
            block_open == block_opens(ts, i as int),
            block_close == block_closes(ts, i as int),
            open <= i && close <= i && block_open <= i && block_close <= i,
            match last {
                Some(j) => j < i && last_significant(ts, i as int) == Some(ts[j as int].tok),
                None => last_significant(ts, i as int) is None,
            },
        decreases tokens@.len() - i,
    {
        let t = &tokens[i];
        proof {
            assert(ts[i as int] == tokens@[i as int]@);
            if i > 0 {
                assert(ts[i - 1] == tokens@[i - 1]@);
            }
        }
        match t.tok {
            Tok::LParen | Tok::LBracket => open = open + 1,
            Tok::RParen | Tok::RBracket => close = close + 1,
            Tok::If | Tok::QIf | Tok::QAny => block_open = block_open + 1,
            // A statement-initial `:` opens a function declaration.
            Tok::Colon => {
                if i == 0 || matches!(tokens[i - 1].tok, Tok::Newline) {
                    block_open = block_open + 1;
                }
            },
            // A standalone `.` (space before it) terminates a block; dot-flow
            // hugs its operand and has no space before it.
            Tok::Dot => {
                if t.space_before {
                    block_close = block_close + 1;
                }
            },
            _ => {},
        }
        if !matches!(t.tok, Tok::Newline | Tok::Eof) {
            last = Some(i);
        }
        i = i + 1;
    }
    if open > close || block_open > block_close {
        return false;
    }
    match last {
        Some(j) => !expects_more_tok(&tokens[j].tok),
        None => true,
    }
}

// --- one line of input --------------------------------------------------------------

/// Text made only of whitespace (the empty text included).
pub open spec fn all_blank(cs: Seq<char>) -> bool {
    forall|i: int| 0 <= i < cs.len() ==> spec_is_whitespace(#[trigger] cs[i])
}

/// The words of `cs` from `i` on, as `str::split_whitespace` gives them:
/// maximal runs of non-whitespace, `cur` being the run read so far and `acc`
/// the words before it.
pub open spec fn scan_words(cs: Seq<char>, i: int, cur: Seq<char>, acc: Seq<Seq<char>>) -> Seq<
    Seq<char>,
>
    decreases cs.len() - i,
{
    if i < 0 || i >= cs.len() {
        if cur.len() > 0 {
            acc.push(cur)
        } else {
            acc
        }
    } else if spec_is_whitespace(cs[i]) {
        if cur.len() > 0 {
            scan_words(cs, i + 1, Seq::empty(), acc.push(cur))
        } else {
            scan_words(cs, i + 1, cur, acc)
        }
    } else {
        scan_words(cs, i + 1, cur.push(cs[i]), acc)
    }
}

pub open spec fn words(cs: Seq<char>) -> Seq<Seq<char>> {
    scan_words(cs, 0, Seq::empty(), Seq::empty())
}

/// What the REPL does with one line of input.
pub enum Command {
    /// Nothing: an empty line, or a construct that came out empty.
    Skip,
    /// `exit` or `quit`: leave the REPL.
    Quit,
    /// `help`: show the REPL commands.
    Help,
    /// `clear_all`: reset the whole session.
    ClearAll,
    /// `clear` with no names: show how to use it.
    ClearUsage,
    /// `clear name ...`: remove these bindings.
    Clear(Vec<String>),
    /// The construct is not complete yet: read another line.
    Gather,
    /// Evaluate this source.
    Evaluate(String),
}

/// The model of a [`Command`].
pub enum SCommand {
    Skip,
    Quit,
    Help,
    ClearAll,
    ClearUsage,
    Clear(Seq<Seq<char>>),
    Gather,
    Evaluate(Seq<char>),
}

pub open spec fn command_view(c: &Command) -> SCommand {
    match c {
        Command::Skip => SCommand::Skip,
        Command::Quit => SCommand::Quit,
        Command::Help => SCommand::Help,
        Command::ClearAll => SCommand::ClearAll,
        Command::ClearUsage => SCommand::ClearUsage,
        Command::Clear(names) => SCommand::Clear(names@.map_values(|n: String| n@)),
        Command::Gather => SCommand::Gather,
        Command::Evaluate(s) => SCommand::Evaluate(s@),
    }
}

/// The REPL meta-command a line names, when nothing has been gathered yet and
/// the line is not blank: `None` for ordinary Six input.
pub open spec fn meta_command(ws: Seq<Seq<char>>) -> Option<SCommand> {
    let first = ws[0];
    if first == "exit"@ || first == "quit"@ {
        Some(SCommand::Quit)
    } else if first == "help"@ {
        Some(SCommand::Help)
    } else if first == "clear_all"@ {
        Some(SCommand::ClearAll)
    } else if first == "clear"@ {
        if ws.len() == 1 {
            Some(SCommand::ClearUsage)
        } else {
            Some(SCommand::Clear(ws.subrange(1, ws.len() as int)))
        }
    } else {
        None
    }
}

/// One step of the REPL: given what has been gathered so far and the next line
/// read (with its line break), the new gathered text and what to do.
///
/// Meta-commands count only when nothing is gathered. Otherwise the line is
/// added; a blank line force-submits, any other line submits once the whole
/// is a complete construct. Submitting empties the gathered text.
pub open spec fn repl_step(buffer: Seq<char>, line: Seq<char>) -> (Seq<char>, SCommand) {
    if buffer.len() == 0 && all_blank(line) {
        (buffer, SCommand::Skip)
    } else if buffer.len() == 0 && meta_command(words(line)) is Some {
        (buffer, meta_command(words(line))->Some_0)
    } else {
        let gathered = buffer + line;
        if !all_blank(line) && !input_complete(gathered) {
            (gathered, SCommand::Gather)
        } else if all_blank(gathered) {
            (Seq::empty(), SCommand::Skip)
        } else {
            (Seq::empty(), SCommand::Evaluate(gathered))
        }
    }
}

proof fn lemma_words_found(cs: Seq<char>, i: int, cur: Seq<char>, acc: Seq<Seq<char>>, j: int)
    requires
        0 <= i <= j < cs.len(),
        !spec_is_whitespace(cs[j]),
    ensures
        scan_words(cs, i, cur, acc).len() > acc.len(),
    decreases cs.len() - i,
{
    lemma_words_grow(cs, i, cur, acc);
    if i < j {
        if spec_is_whitespace(cs[i]) && cur.len() > 0 {
            lemma_words_grow(cs, i + 1, Seq::empty(), acc.push(cur));
        } else if spec_is_whitespace(cs[i]) {
            lemma_words_found(cs, i + 1, cur, acc, j);
        } else {
            lemma_words_found(cs, i + 1, cur.push(cs[i]), acc, j);
        }
    } else {
        lemma_words_grow(cs, i + 1, cur.push(cs[i]), acc);
        if cur.len() == 0 {
            lemma_words_nonempty_cur(cs, i + 1, cur.push(cs[i]), acc);
        } else {
            lemma_words_nonempty_cur(cs, i + 1, cur.push(cs[i]), acc);
        }
    }
}

proof fn lemma_words_grow(cs: Seq<char>, i: int, cur: Seq<char>, acc: Seq<Seq<char>>)
    ensures
        scan_words(cs, i, cur, acc).len() >= acc.len(),
    decreases cs.len() - i,
{
    if 0 <= i < cs.len() {
        if spec_is_whitespace(cs[i]) {
            if cur.len() > 0 {
                lemma_words_grow(cs, i + 1, Seq::empty(), acc.push(cur));
            } else {
                lemma_words_grow(cs, i + 1, cur, acc);
            }
        } else {
            lemma_words_grow(cs, i + 1, cur.push(cs[i]), acc);
        }
    }
}

proof fn lemma_words_nonempty_cur(cs: Seq<char>, i: int, cur: Seq<char>, acc: Seq<Seq<char>>)
    requires
        cur.len() > 0,
    ensures
        scan_words(cs, i, cur, acc).len() > acc.len(),
    decreases cs.len() - i,
{
    if 0 <= i < cs.len() {
        if spec_is_whitespace(cs[i]) {
            lemma_words_grow(cs, i + 1, Seq::empty(), acc.push(cur));
        } else {
            lemma_words_nonempty_cur(cs, i + 1, cur.push(cs[i]), acc);
        }
    }
}

/// Whether `s` is made only of whitespace.
fn is_blank(cs: &Vec<char>) -> (r: bool)
    ensures
        r == all_blank(cs@),
{
    let mut i: usize = 0;
    while i < cs.len()
        invariant
            i <= cs@.len(),
            forall|j: int| 0 <= j < i ==> spec_is_whitespace(#[trigger] cs@[j]),
        decreases cs@.len() - i,
    {
        if !is_whitespace(cs[i]) {
            return false;
        }
        i = i + 1;
    }
    true
}

/// The whitespace-separated words of `cs`.
fn split_words(cs: &Vec<char>) -> (r: Vec<String>)
    ensures
        r@.map_values(|w: String| w@) == words(cs@),
{
    let mut out: Vec<String> = Vec::new();
    let mut cur: Vec<char> = Vec::new();
    let mut i: usize = 0;
    assert(out@.map_values(|w: String| w@) =~= Seq::<Seq<char>>::empty());
    assert(cur@ =~= Seq::<char>::empty());
    while i < cs.len()
        invariant
            i <= cs@.len(),
            words(cs@) == scan_words(cs@, i as int, cur@, out@.map_values(|w: String| w@)),
        decreases cs@.len() - i,
    {
        let c = cs[i];
        if is_whitespace(c) {
            if cur.len() > 0 {
                let ghost before = out@.map_values(|w: String| w@);
                let w = string_of(cur.as_slice());
                out.push(w);
                assert(out@.map_values(|w: String| w@) =~= before.push(cur@));
                cur = Vec::new();
                assert(cur@ =~= Seq::<char>::empty());
            }
        } else {
            cur.push(c);
        }
        i = i + 1;
    }
    if cur.len() > 0 {
        let ghost before = out@.map_values(|w: String| w@);
        let w = string_of(cur.as_slice());
        out.push(w);
        assert(out@.map_values(|w: String| w@) =~= before.push(cur@));
    }
    out
}

/// The meta-command the words of a non-blank line name, if any.
fn find_meta(ws: Vec<String>) -> (r: Option<Command>)
    requires
        ws@.len() > 0,
    ensures
        match meta_command(ws@.map_values(|w: String| w@)) {
            Some(c) => (r matches Some(x) && command_view(&x) == c),
            None => r is None,
        },
{
    let ghost wv = ws@.map_values(|w: String| w@);
    let first = chars_of(ws[0].as_str());
    assert(wv[0] == ws@[0]@);
    if spells(first.as_slice(), "exit") || spells(first.as_slice(), "quit") {
        Some(Command::Quit)
    } else if spells(first.as_slice(), "help") {
        Some(Command::Help)
    } else if spells(first.as_slice(), "clear_all") {
        Some(Command::ClearAll)
    } else if spells(first.as_slice(), "clear") {
        if ws.len() == 1 {
            Some(Command::ClearUsage)
        } else {
            let mut names: Vec<String> = Vec::new();
            let mut i: usize = 1;
            while i < ws.len()
                invariant
                    1 <= i <= ws@.len(),
                    wv == ws@.map_values(|w: String| w@),
                    names@.map_values(|w: String| w@) =~= wv.subrange(1, i as int),
                decreases ws@.len() - i,
            {
                let ghost before = names@.map_values(|w: String| w@);
                names.push(ws[i].clone());
                assert(names@.map_values(|w: String| w@) =~= before.push(wv[i as int]));
                i = i + 1;
            }
            Some(Command::Clear(names))
        }
    } else {
        None
    }
}

/// One step of the REPL: `buffer` holds what has been gathered so far and
/// `line` is the next line read, with its line break.
pub fn step(buffer: &mut String, line: &str) -> (c: Command)
    requires
        old(buffer)@.len() + line@.len() < usize::MAX,
    ensures
        (final(buffer)@, command_view(&c)) == repl_step(old(buffer)@, line@),
{
    let cs = chars_of(line);
    let blank = is_blank(&cs);
    let empty = buffer.unicode_len() == 0;
    if empty && blank {
        return Command::Skip;
    }
    if empty {
        let ws = split_words(&cs);
        proof {
            let j = choose|j: int| 0 <= j < cs@.len() && !spec_is_whitespace(cs@[j]);
            lemma_words_found(cs@, 0, Seq::empty(), Seq::empty(), j);
        }
        if let Some(command) = find_meta(ws) {
            return command;
        }
    }
    buffer.append(line);
    if !blank && !input_is_complete(buffer.as_str()) {
        return Command::Gather;
    }
    let mut source = String::new();
    std::mem::swap(&mut source, buffer);
    let gathered = chars_of(source.as_str());
    if is_blank(&gathered) {
        return Command::Skip;
    }
    Command::Evaluate(source)
}

// --- laws ---------------------------------------------------------------------------

/// A blank line force-submits whatever has been gathered, so the REPL never
/// gets stuck: the gathered text is emptied, and everything typed is
/// evaluated (or skipped when it was all blank).
pub proof fn law_blank_line_submits(buffer: Seq<char>, line: Seq<char>)
    requires
        buffer.len() > 0,
        all_blank(line),
    ensures
        repl_step(buffer, line).0 == Seq::<char>::empty(),
        repl_step(buffer, line).1 == (if all_blank(buffer + line) {
            SCommand::Skip
        } else {
            SCommand::Evaluate(buffer + line)
        }),
{
}

/// Meta-commands (`exit`, `help`, `clear`, ...) count only when nothing has
/// been gathered: mid-construct, every line is ordinary Six input.
pub proof fn law_meta_commands_only_at_start(buffer: Seq<char>, line: Seq<char>)
    requires
        buffer.len() > 0,
    ensures
        ({
            let c = repl_step(buffer, line).1;
            c is Gather || c is Evaluate || c is Skip
        }),
{
}

/// Nothing typed is lost: input is either kept for later in full, or handed
/// over in full for evaluation (and the gathered text emptied).
pub proof fn law_input_is_kept(buffer: Seq<char>, line: Seq<char>)
    requires
        buffer.len() > 0 || !all_blank(line),
        meta_command(words(line)) is None || buffer.len() > 0,
    ensures
        match repl_step(buffer, line).1 {
            SCommand::Gather => repl_step(buffer, line).0 == buffer + line,
            SCommand::Evaluate(src) => src == buffer + line && repl_step(buffer, line).0.len() == 0,
            SCommand::Skip => all_blank(buffer + line) && repl_step(buffer, line).0.len() == 0,
            _ => false,
        },
{
    if all_blank(buffer + line) {
        assert forall|i: int| 0 <= i < line.len() implies spec_is_whitespace(#[trigger] line[i]) by {
            assert((buffer + line)[buffer.len() + i] == line[i]);
        }
    }
}

proof fn lemma_no_block_closes(ts: Seq<SToken>, n: int)
    requires
        forall|j: int| 0 <= j < ts.len() ==> !(#[trigger] ts[j].tok is Dot && ts[j].space_before),
    ensures
        block_closes(ts, n) == 0,
    decreases n,
{
    if 0 < n <= ts.len() {
        lemma_no_block_closes(ts, n - 1);
    }
}

proof fn lemma_block_opens_nonneg(ts: Seq<SToken>, n: int)
    ensures
        block_opens(ts, n) >= 0,
    decreases n,
{
    if 0 < n <= ts.len() {
        lemma_block_opens_nonneg(ts, n - 1);
    }
}

proof fn lemma_block_opened(ts: Seq<SToken>, i: int, n: int)
    requires
        0 <= i < n <= ts.len(),
        opens_block(ts, i),
    ensures
        block_opens(ts, n) >= 1,
    decreases n,
{
    if i < n - 1 {
        lemma_block_opened(ts, i, n - 1);
    } else {
        lemma_block_opens_nonneg(ts, n - 1);
    }
}

/// Every block opener awaits its `.`: tokens that hold an `if`, a `?`, a `?*`
/// or a `:` that begins a line, and no standalone `.` (one with space before
/// it), never form a complete construct.
pub proof fn law_open_conditional_is_incomplete(ts: Seq<SToken>, i: int)
    requires
        0 <= i < ts.len(),
        ts[i].tok is If || ts[i].tok is QIf || ts[i].tok is QAny || (ts[i].tok is Colon && (i == 0
            || ts[i - 1].tok is Newline)),
        forall|j: int| 0 <= j < ts.len() ==> !(#[trigger] ts[j].tok is Dot && ts[j].space_before),
    ensures
        !complete_tokens(ts),
{
    lemma_no_block_closes(ts, ts.len() as int);
    lemma_block_opened(ts, i, ts.len() as int);
}

/// So the REPL keeps gathering: when the text gathered with a new, non-blank
/// line lexes to tokens holding a conditional opener and no standalone `.`,
/// the step keeps all of it and asks for another line (unless, with nothing
/// gathered before, the line is a meta-command).
pub proof fn law_open_conditional_gathers(buffer: Seq<char>, line: Seq<char>, i: int)
    requires
        !all_blank(line),
        buffer.len() > 0 || meta_command(words(line)) is None,
        lex_spec(buffer + line) matches Ok(ts) && 0 <= i < ts.len() && (ts[i].tok is If
            || ts[i].tok is QIf || ts[i].tok is QAny) && forall|j: int|
            0 <= j < ts.len() ==> !(#[trigger] ts[j].tok is Dot && ts[j].space_before),
    ensures
        !input_complete(buffer + line),
        repl_step(buffer, line) == (buffer + line, SCommand::Gather),
{
    if let Ok(ts) = lex_spec(buffer + line) {
        law_open_conditional_is_incomplete(ts, i);
    }
}

proof fn lemma_blank_has_no_words(cs: Seq<char>, i: int, acc: Seq<Seq<char>>)
    requires
        all_blank(cs),
    ensures
        scan_words(cs, i, Seq::empty(), acc) == acc,
    decreases cs.len() - i,
{
    if 0 <= i < cs.len() {
        lemma_blank_has_no_words(cs, i + 1, acc);
    }
}

/// The word `clear` is none of the other meta-commands.
proof fn lemma_clear_is_no_other_command()
    ensures
        "clear"@ != "exit"@,
        "clear"@ != "quit"@,
        "clear"@ != "help"@,
        "clear"@ != "clear_all"@,
{
    reveal_strlit("clear");
    reveal_strlit("clear_all");
    reveal_strlit("exit");
    reveal_strlit("quit");
    reveal_strlit("help");
    assert("clear"@.len() == 5 && "clear"@[0] == 'c');
    assert("exit"@[0] == 'e' && "quit"@[0] == 'q' && "help"@[0] == 'h');
    assert("clear_all"@.len() == 9);
}

/// `clear` followed by one or more names, with nothing gathered, clears
/// exactly those names, in the order given, and gathers nothing.
pub proof fn law_clear_takes_every_name(line: Seq<char>)
    requires
        words(line).len() >= 2,
        words(line)[0] == "clear"@,
    ensures
        repl_step(Seq::empty(), line) == (Seq::<char>::empty(), SCommand::Clear(
            words(line).drop_first(),
        )),
{
    lemma_clear_is_no_other_command();
    if all_blank(line) {
        lemma_blank_has_no_words(line, 0, Seq::empty());
    }
    assert(words(line).subrange(1, words(line).len() as int) =~= words(line).drop_first());
    assert(meta_command(words(line)) == Some(SCommand::Clear(words(line).drop_first())));
}

/// The usage hint for `clear` comes exactly when, with nothing gathered, the
/// line's only word is `clear`: never when names follow it, never mid-construct.
pub proof fn law_clear_usage_only_when_bare(buffer: Seq<char>, line: Seq<char>)
    ensures
        repl_step(buffer, line).1 is ClearUsage <==> (buffer.len() == 0 && words(line) == seq![
            "clear"@,
        ]),
{
    lemma_clear_is_no_other_command();
    if all_blank(line) {
        lemma_blank_has_no_words(line, 0, Seq::empty());
    }
    if repl_step(buffer, line).1 is ClearUsage {
        assert(buffer.len() == 0 && meta_command(words(line)) == Some(SCommand::ClearUsage));
        assert(words(line) =~= seq!["clear"@]);
    }
    if buffer.len() == 0 && words(line) == seq!["clear"@] {
        assert(!all_blank(line));
        assert(words(line)[0] == "clear"@);
        assert(meta_command(words(line)) == Some(SCommand::ClearUsage));
    }
}

proof fn lemma_no_closes(ts: Seq<SToken>, n: int)
    requires
        forall|j: int| 0 <= j < ts.len() ==> !(#[trigger] ts[j].tok is RParen || ts[j].tok is RBracket),
    ensures
        closes(ts, n) == 0,
    decreases n,
{
    if 0 < n <= ts.len() {
        lemma_no_closes(ts, n - 1);
    }
}

proof fn lemma_opened(ts: Seq<SToken>, i: int, n: int)
    requires
        0 <= i < n <= ts.len(),
        ts[i].tok is LParen || ts[i].tok is LBracket,
    ensures
        opens(ts, n) >= 1,
    decreases n,
{
    if i < n - 1 {
        lemma_opened(ts, i, n - 1);
    } else {
        lemma_opens_nonneg(ts, n - 1);
    }
}

proof fn lemma_opens_nonneg(ts: Seq<SToken>, n: int)
    ensures
        opens(ts, n) >= 0,
    decreases n,
{
    if 0 < n <= ts.len() {
        lemma_opens_nonneg(ts, n - 1);
    }
}

/// A `(` or `[` with no `)` or `]` anywhere leaves the construct incomplete.
pub proof fn law_unclosed_bracket_is_incomplete(ts: Seq<SToken>, i: int)
    requires
        0 <= i < ts.len(),
        ts[i].tok is LParen || ts[i].tok is LBracket,
        forall|j: int| 0 <= j < ts.len() ==> !(#[trigger] ts[j].tok is RParen || ts[j].tok is RBracket),
    ensures
        !complete_tokens(ts),
{
    lemma_no_closes(ts, ts.len() as int);
    lemma_opened(ts, i, ts.len() as int);
}

proof fn lemma_last_significant(ts: Seq<SToken>, i: int, n: int)
    requires
        0 <= i < n <= ts.len(),
        !(ts[i].tok is Newline) && !(ts[i].tok is Eof),
        forall|j: int| i < j < ts.len() ==> (#[trigger] ts[j].tok is Newline || ts[j].tok is Eof),
    ensures
        last_significant(ts, n) == Some(ts[i].tok),
    decreases n,
{
    if i < n - 1 {
        lemma_last_significant(ts, i, n - 1);
    }
}

/// Input that ends on a binary operator (one the parser's operator tiers
/// accept), with only line breaks after it, awaits its right-hand side: it is
/// never complete.
pub proof fn law_trailing_operator_is_incomplete(ts: Seq<SToken>, i: int, tier: int, op: BinOp)
    requires
        0 <= i < ts.len(),
        tier_op(tier, ts[i].tok) == Some(op),
        forall|j: int| i < j < ts.len() ==> (#[trigger] ts[j].tok is Newline || ts[j].tok is Eof),
    ensures
        !complete_tokens(ts),
{
    lemma_last_significant(ts, i, ts.len() as int);
}

/// The meta-command words are all different.
proof fn lemma_meta_words_differ()
    ensures
        "quit"@ != "exit"@,
        "help"@ != "exit"@,
        "help"@ != "quit"@,
        "clear_all"@ != "exit"@,
        "clear_all"@ != "quit"@,
        "clear_all"@ != "help"@,
{
    reveal_strlit("clear_all");
    reveal_strlit("exit");
    reveal_strlit("quit");
    reveal_strlit("help");
    assert("exit"@[0] == 'e' && "quit"@[0] == 'q' && "help"@[0] == 'h');
    assert("clear_all"@[0] == 'c');
}

/// With nothing gathered, a line whose first word is `exit` or `quit` leaves
/// the REPL, `help` shows the commands and `clear_all` resets the session,
/// whatever else the line holds; nothing is gathered.
pub proof fn law_meta_commands_by_first_word(line: Seq<char>)
    requires
        words(line).len() >= 1,
    ensures
        (words(line)[0] == "exit"@ || words(line)[0] == "quit"@) ==> repl_step(Seq::empty(), line)
            == (Seq::<char>::empty(), SCommand::Quit),
        words(line)[0] == "help"@ ==> repl_step(Seq::empty(), line) == (
            Seq::<char>::empty(),
            SCommand::Help,
        ),
        words(line)[0] == "clear_all"@ ==> repl_step(Seq::empty(), line) == (
            Seq::<char>::empty(),
            SCommand::ClearAll,
        ),
{
    lemma_meta_words_differ();
    if all_blank(line) {
        lemma_blank_has_no_words(line, 0, Seq::empty());
    }
}

} // verus!
