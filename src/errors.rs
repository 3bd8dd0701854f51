//! The three kinds of error that the pipeline reports.
use vstd::prelude::*;
use crate::number::{nat_text, push_nat_text};
use crate::text::{append_chars, chars_of};

verus! {

/// A lexical error, with the text of the line it occurred on.
#[derive(Clone, Debug)]
pub struct InvalidTokenError {
    pub message: Vec<char>,
    pub line_as_string: Vec<char>,
    pub line: usize,
    pub col: usize,
}

/// What a lexical error holds, as plain sequences.
pub struct InvalidTokenErrorModel {
    pub message: Seq<char>,
    pub line_as_string: Seq<char>,
    pub line: nat,
    pub col: nat,
}

impl View for InvalidTokenError {
    type V = InvalidTokenErrorModel;

    open spec fn view(&self) -> InvalidTokenErrorModel {
        InvalidTokenErrorModel {
            message: self.message@,
            line_as_string: self.line_as_string@,
            line: self.line as nat,
            col: self.col as nat,
        }
    }
}

/// `line:col`.
pub open spec fn location_text(line: nat, col: nat) -> Seq<char> {
    nat_text(line) + ":"@ + nat_text(col)
}

fn location(line: usize, col: usize) -> (r: Vec<char>)
    ensures
        r@ == location_text(line as nat, col as nat),
{
    let mut out: Vec<char> = Vec::new();
    push_nat_text(line as u64, &mut out);
    let colon = chars_of(":");
    append_chars(&mut out, &colon);
    push_nat_text(col as u64, &mut out);
    proof {
        assert(out@ =~= Seq::<char>::empty() + nat_text(line as nat) + ":"@ + nat_text(col as nat));
    }
    out
}

impl InvalidTokenError {
    /// The report of the error: where it is and the text of its line, then
    /// the message on a line of its own.
    pub fn to_text(&self) -> (r: Vec<char>)
        ensures
            r@ == location_text(self.line as nat, self.col as nat) + "    "@ + self.line_as_string@ + "\n"@
                + self.message@,
    {
        let mut out = location(self.line, self.col);
        let gap = chars_of("    ");
        append_chars(&mut out, &gap);
        append_chars(&mut out, &self.line_as_string);
        let newline = chars_of("\n");
        append_chars(&mut out, &newline);
        append_chars(&mut out, &self.message);
        out
    }
}

/// A syntax error at a token.
#[derive(Clone, Debug)]
pub struct ParserError {
    pub message: Vec<char>,
    pub line: usize,
    pub col: usize,
}

/// A runtime error; it stops the program.
#[derive(Clone, Debug)]
pub struct InterpreterRuntimeError {
    pub message: Vec<char>,
    pub line: usize,
    pub col: usize,
}

impl InterpreterRuntimeError {
    /// The report of the error: where it is, then the message.
    pub fn to_text(&self) -> (r: Vec<char>)
        ensures
            r@ == location_text(self.line as nat, self.col as nat) + " "@ + self.message@,
    {
        let mut out = location(self.line, self.col);
        let gap = chars_of(" ");
        append_chars(&mut out, &gap);
        append_chars(&mut out, &self.message);
        out
    }
}

/// What an error holds, as a plain sequence and numbers.
pub struct ErrorModel {
    pub message: Seq<char>,
    pub line: nat,
    pub col: nat,
}

impl View for ParserError {
    type V = ErrorModel;

    open spec fn view(&self) -> ErrorModel {
        ErrorModel { message: self.message@, line: self.line as nat, col: self.col as nat }
    }
}

impl View for InterpreterRuntimeError {
    type V = ErrorModel;

    open spec fn view(&self) -> ErrorModel {
        ErrorModel { message: self.message@, line: self.line as nat, col: self.col as nat }
    }
}

} // verus!
