//! Token definitions for the Six lexer.

use vstd::prelude::*;

verus! {

/// The lexical categories Six recognises.
#[derive(Debug, Clone)]
pub enum Tok {
    /// literal text of a number, thousands separators removed
    Number(String),
    Text(String),
    True,
    False,
    /// `nil`
    Nil,
    /// `..`
    Empty,
    Ident(String),
    /// `$` — the final valid index
    Dollar,
    /// `@` — module import
    At,
    /// `:`   new binding
    Colon,
    /// `::`  deep-copy binding
    ColonColon,
    /// `=`   rebind
    Assign,
    /// `[`
    LBracket,
    /// `]`
    RBracket,
    /// `(`
    LParen,
    /// `)`
    RParen,
    /// `<`
    Lt,
    /// `>`
    Gt,
    /// `<=`
    Le,
    /// `>=`
    Ge,
    /// `==`
    EqEq,
    /// `!=`
    NotEq,
    Plus,
    Minus,
    Star,
    Slash,
    Percent,
    /// `~`  round
    Tilde,
    /// `^`  ceiling
    Caret,
    /// `_`  floor
    Underscore,
    /// `**` square / power
    StarStar,
    /// `//` square root
    SlashSlash,
    /// `++` increment
    PlusPlus,
    /// `--` decrement
    MinusMinus,
    /// `and` / `&&`
    And,
    /// `or`  / `||`
    Or,
    /// `not` / `!`
    Not,
    /// `>>`
    FatArrow,
    /// `.` (block terminator or dot-flow, decided by the parser)
    Dot,
    /// `if`
    If,
    /// `any`
    Any,
    /// `else`
    Else,
    /// `?`
    QIf,
    /// `??`
    QElse,
    /// `?*`
    QAny,
    Newline,
    Eof,
}

/// The mathematical model of a [`Tok`]: text payloads become character sequences.
pub enum STok {
    Number(Seq<char>),
    Text(Seq<char>),
    True,
    False,
    Nil,
    Empty,
    Ident(Seq<char>),
    Dollar,
    At,
    Colon,
    ColonColon,
    Assign,
    LBracket,
    RBracket,
    LParen,
    RParen,
    Lt,
    Gt,
    Le,
    Ge,
    EqEq,
    NotEq,
    Plus,
    Minus,
    Star,
    Slash,
    Percent,
    Tilde,
    Caret,
    Underscore,
    StarStar,
    SlashSlash,
    PlusPlus,
    MinusMinus,
    And,
    Or,
    Not,
    FatArrow,
    Dot,
    If,
    Any,
    Else,
    QIf,
    QElse,
    QAny,
    Newline,
    Eof,
}

impl View for Tok {
    type V = STok;

    open spec fn view(&self) -> STok {
        match self {
            Tok::Number(s) => STok::Number(s@),
            Tok::Text(s) => STok::Text(s@),
            Tok::True => STok::True,
            Tok::False => STok::False,
            Tok::Nil => STok::Nil,
            Tok::Empty => STok::Empty,
            Tok::Ident(s) => STok::Ident(s@),
            Tok::Dollar => STok::Dollar,
            Tok::At => STok::At,
            Tok::Colon => STok::Colon,
            Tok::ColonColon => STok::ColonColon,
            Tok::Assign => STok::Assign,
            Tok::LBracket => STok::LBracket,
            Tok::RBracket => STok::RBracket,
            Tok::LParen => STok::LParen,
            Tok::RParen => STok::RParen,
            Tok::Lt => STok::Lt,
            Tok::Gt => STok::Gt,
            Tok::Le => STok::Le,
            Tok::Ge => STok::Ge,
            Tok::EqEq => STok::EqEq,
            Tok::NotEq => STok::NotEq,
            Tok::Plus => STok::Plus,
            Tok::Minus => STok::Minus,
            Tok::Star => STok::Star,
            Tok::Slash => STok::Slash,
            Tok::Percent => STok::Percent,
            Tok::Tilde => STok::Tilde,
            Tok::Caret => STok::Caret,
            Tok::Underscore => STok::Underscore,
            Tok::StarStar => STok::StarStar,
            Tok::SlashSlash => STok::SlashSlash,
            Tok::PlusPlus => STok::PlusPlus,
            Tok::MinusMinus => STok::MinusMinus,
            Tok::And => STok::And,
            Tok::Or => STok::Or,
            Tok::Not => STok::Not,
            Tok::FatArrow => STok::FatArrow,
            Tok::Dot => STok::Dot,
            Tok::If => STok::If,
            Tok::Any => STok::Any,
            Tok::Else => STok::Else,
            Tok::QIf => STok::QIf,
            Tok::QElse => STok::QElse,
            Tok::QAny => STok::QAny,
            Tok::Newline => STok::Newline,
            Tok::Eof => STok::Eof,
        }
    }
}

impl Tok {
    /// Whether two tokens are equal, payloads included.
    pub fn same(&self, other: &Tok) -> (r: bool)
        ensures
            r == (self@ == other@),
    {
        match self {
            Tok::Number(a) => match other {
                Tok::Number(b) => *a == *b,
                _ => false,
            },
            Tok::Text(a) => match other {
                Tok::Text(b) => *a == *b,
                _ => false,
            },
            Tok::True => matches!(other, Tok::True),
            Tok::False => matches!(other, Tok::False),
            Tok::Nil => matches!(other, Tok::Nil),
            Tok::Empty => matches!(other, Tok::Empty),
            Tok::Ident(a) => match other {
                Tok::Ident(b) => *a == *b,
                _ => false,
            },
            Tok::Dollar => matches!(other, Tok::Dollar),
            Tok::At => matches!(other, Tok::At),
            Tok::Colon => matches!(other, Tok::Colon),
            Tok::ColonColon => matches!(other, Tok::ColonColon),
            Tok::Assign => matches!(other, Tok::Assign),
            Tok::LBracket => matches!(other, Tok::LBracket),
            Tok::RBracket => matches!(other, Tok::RBracket),
            Tok::LParen => matches!(other, Tok::LParen),
            Tok::RParen => matches!(other, Tok::RParen),
            Tok::Lt => matches!(other, Tok::Lt),
            Tok::Gt => matches!(other, Tok::Gt),
            Tok::Le => matches!(other, Tok::Le),
            Tok::Ge => matches!(other, Tok::Ge),
            Tok::EqEq => matches!(other, Tok::EqEq),
            Tok::NotEq => matches!(other, Tok::NotEq),
            Tok::Plus => matches!(other, Tok::Plus),
            Tok::Minus => matches!(other, Tok::Minus),
            Tok::Star => matches!(other, Tok::Star),
            Tok::Slash => matches!(other, Tok::Slash),
            Tok::Percent => matches!(other, Tok::Percent),
            Tok::Tilde => matches!(other, Tok::Tilde),
            Tok::Caret => matches!(other, Tok::Caret),
            Tok::Underscore => matches!(other, Tok::Underscore),
            Tok::StarStar => matches!(other, Tok::StarStar),
            Tok::SlashSlash => matches!(other, Tok::SlashSlash),
            Tok::PlusPlus => matches!(other, Tok::PlusPlus),
            Tok::MinusMinus => matches!(other, Tok::MinusMinus),
            Tok::And => matches!(other, Tok::And),
            Tok::Or => matches!(other, Tok::Or),
            Tok::Not => matches!(other, Tok::Not),
            Tok::FatArrow => matches!(other, Tok::FatArrow),
            Tok::Dot => matches!(other, Tok::Dot),
            Tok::If => matches!(other, Tok::If),
            Tok::Any => matches!(other, Tok::Any),
            Tok::Else => matches!(other, Tok::Else),
            Tok::QIf => matches!(other, Tok::QIf),
            Tok::QElse => matches!(other, Tok::QElse),
            Tok::QAny => matches!(other, Tok::QAny),
            Tok::Newline => matches!(other, Tok::Newline),
            Tok::Eof => matches!(other, Tok::Eof),
        }
    }
}

/// A token plus the source metadata Six's whitespace-sensitive grammar needs.
#[derive(Debug, Clone)]
pub struct Token {
    pub tok: Tok,
    pub line: usize,
    pub col: usize,
    /// Whether whitespace (or a newline, or start-of-input) preceded this token.
    /// This is how the parser distinguishes `arr[0]` (index) from `f [1 2 3]`
    /// (a Group argument), and `x.size` (dot-flow) from a standalone `.`
    /// (block terminator).
    pub space_before: bool,
}

/// The mathematical model of a [`Token`].
pub struct SToken {
    pub tok: STok,
    pub line: usize,
    pub col: usize,
    pub space_before: bool,
}

impl View for Token {
    type V = SToken;

    open spec fn view(&self) -> SToken {
        SToken { tok: self.tok@, line: self.line, col: self.col, space_before: self.space_before }
    }
}

/// The model of a token sequence.
pub open spec fn tokens_view(ts: Seq<Token>) -> Seq<SToken> {
    ts.map_values(|t: Token| t@)
}

impl Token {
    pub fn new(tok: Tok, line: usize, col: usize, space_before: bool) -> (t: Token)
        ensures
            t.tok == tok,
            t.line == line,
            t.col == col,
            t.space_before == space_before,
    {
        Token { tok, line, col, space_before }
    }
}

} // verus!
