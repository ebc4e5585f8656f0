//! The error type shared by the lexer and the parser.

use vstd::prelude::*;

use crate::chars::{push_char, text};

verus! {

/// A single error produced anywhere in the pipeline: a message and, where
/// known, the source line it refers to.
#[derive(Debug, Clone)]
pub struct SixError {
    pub message: String,
    pub line: Option<usize>,
}

/// The model of an error: its message and its line.
pub type ErrView = (Seq<char>, Option<usize>);

impl View for SixError {
    type V = ErrView;

    open spec fn view(&self) -> ErrView {
        (self.message@, self.line)
    }
}

/// The model of an error with `message` at `line`.
pub open spec fn err_at(line: usize, message: Seq<char>) -> ErrView {
    (message, Some(line))
}

/// The character for a decimal digit.
pub open spec fn digit_char(d: nat) -> char {
    if d == 0 {
        '0'
    } else if d == 1 {
        '1'
    } else if d == 2 {
        '2'
    } else if d == 3 {
        '3'
    } else if d == 4 {
        '4'
    } else if d == 5 {
        '5'
    } else if d == 6 {
        '6'
    } else if d == 7 {
        '7'
    } else if d == 8 {
        '8'
    } else {
        '9'
    }
}

/// The decimal numeral for `n`, without leading zeros.
pub open spec fn decimal(n: nat) -> Seq<char>
    decreases n,
{
    if n < 10 {
        seq![digit_char(n)]
    } else {
        decimal(n / 10).push(digit_char(n % 10))
    }
}

/// How an error reads on the command line: `error (line N): message`, or
/// `error: message` where no line is known.
pub open spec fn rendered(e: ErrView) -> Seq<char> {
    match e.1 {
        Some(line) => "error (line "@ + decimal(line as nat) + "): "@ + e.0,
        None => "error: "@ + e.0,
    }
}

fn digit(d: usize) -> (c: char)
    requires
        d < 10,
    ensures
        c == digit_char(d as nat),
{
    if d == 0 {
        '0'
    } else if d == 1 {
        '1'
    } else if d == 2 {
        '2'
    } else if d == 3 {
        '3'
    } else if d == 4 {
        '4'
    } else if d == 5 {
        '5'
    } else if d == 6 {
        '6'
    } else if d == 7 {
        '7'
    } else if d == 8 {
        '8'
    } else {
        '9'
    }
}

/// The decimal numeral for `n`.
pub fn numeral(n: usize) -> (s: String)
    ensures
        s@ == decimal(n as nat),
    decreases n,
{
    if n < 10 {
        let mut s = String::new();
        push_char(&mut s, digit(n));
        s
    } else {
        let mut s = numeral(n / 10);
        push_char(&mut s, digit(n % 10));
        s
    }
}

impl SixError {
    /// The error as the command line shows it.
    pub fn render(&self) -> (s: String)
        ensures
            s@ == rendered(self@),
    {
        match self.line {
            Some(line) => {
                let mut s = text("error (line ");
                s.append(numeral(line).as_str());
                s.append("): ");
                s.append(self.message.as_str());
                s
            },
            None => {
                let mut s = text("error: ");
                s.append(self.message.as_str());
                s
            },
        }
    }

    /// An error with no source line.
    pub fn new(message: String) -> (e: SixError)
        ensures
            e.message@ == message@,
            e.line is None,
    {
        SixError { message, line: None }
    }

    /// An error tied to a source line.
    pub fn at(line: usize, message: String) -> (e: SixError)
        ensures
            e.message@ == message@,
            e.line == Some(line),
    {
        SixError { message, line: Some(line) }
    }
}

} // verus!
