use crate::circuit::tokenizer::{Lexeme, LexicalUnit, Location, Token};
use crate::text::{chars_to_string, decimal, push_decimal, push_str};
use vstd::prelude::*;

verus! {

/// Why a circuit text was refused.
#[derive(Debug)]
pub enum ParserError {
    /// The next token was not of the expected kind.
    Token { expected: &'static str, actual: Token },
    /// The tokens were of the right kinds but do not form an acceptable circuit.
    Syntax { message: String, location: Location },
}

/// What a refusal says, as a mathematical value: the kind of token expected and the one
/// found, or the message and place of a syntax error.
pub enum Failure {
    Token { expected: Seq<char>, actual: Lexeme, location: Location },
    Syntax { message: Seq<char>, location: Location },
}

impl View for ParserError {
    type V = Failure;

    open spec fn view(&self) -> Failure {
        match self {
            ParserError::Token { expected, actual } => Failure::Token {
                expected: expected@,
                actual: actual.value@,
                location: actual.location,
            },
            ParserError::Syntax { message, location } => Failure::Syntax {
                message: message@,
                location: *location,
            },
        }
    }
}

/// A token as the error text shows it.
pub open spec fn lexeme_text(u: Lexeme) -> Seq<char> {
    match u {
        Lexeme::Number(n) => "Number("@ + decimal(n) + ")"@,
        Lexeme::Identifier(s) => "Identifier("@ + s + ")"@,
        Lexeme::NewLine => "NewLine"@,
        Lexeme::EndOfFile => "EndOfFile"@,
    }
}

/// `in line L, column C: `
pub open spec fn place_text(l: Location) -> Seq<char> {
    " in line "@ + decimal(l.line as nat) + ", column "@ + decimal(l.column as nat) + ": "@
}

fn push_place(v: &mut Vec<char>, l: Location)
    ensures
        final(v)@ == old(v)@ + place_text(l),
{
    push_str(v, " in line ");
    push_decimal(v, l.line);
    push_str(v, ", column ");
    push_decimal(v, l.column);
    push_str(v, ": ");
    proof {
        assert(final(v)@ =~= old(v)@ + place_text(l));
    }
}

fn push_lexeme(v: &mut Vec<char>, u: &LexicalUnit)
    ensures
        final(v)@ == old(v)@ + lexeme_text(u@),
{
    match u {
        LexicalUnit::Number(n) => {
            push_str(v, "Number(");
            push_decimal(v, *n);
            push_str(v, ")");
        },
        LexicalUnit::Identifier(s) => {
            push_str(v, "Identifier(");
            push_str(v, s.as_str());
            push_str(v, ")");
        },
        LexicalUnit::NewLine => push_str(v, "NewLine"),
        LexicalUnit::EndOfFile => push_str(v, "EndOfFile"),
    }
    proof {
        assert(final(v)@ =~= old(v)@ + lexeme_text(u@));
    }
}

impl ParserError {
    /// The error as one line of text: its kind, its place, and what went wrong.
    pub open spec fn spec_describe(&self) -> Seq<char> {
        match self {
            ParserError::Token { expected, actual } => "TokenError"@ + place_text(actual.location)
                + "Expected "@ + expected@ + " but got "@ + lexeme_text(actual.value@),
            ParserError::Syntax { message, location } => "Syntax Error"@ + place_text(*location)
                + message@,
        }
    }

    /// A one-line description of the error, with its line and column.
    pub fn describe(&self) -> (r: String)
        ensures
            r@ == self.spec_describe(),
    {
        let mut v: Vec<char> = Vec::new();
        match self {
            ParserError::Token { expected, actual } => {
                push_str(&mut v, "TokenError");
                push_place(&mut v, actual.location);
                push_str(&mut v, "Expected ");
                push_str(&mut v, expected);
                push_str(&mut v, " but got ");
                push_lexeme(&mut v, &actual.value);
            },
            ParserError::Syntax { message, location } => {
                push_str(&mut v, "Syntax Error");
                push_place(&mut v, *location);
                push_str(&mut v, message.as_str());
            },
        }
        proof {
            assert(v@ =~= self.spec_describe());
        }
        chars_to_string(&v)
    }
}

} // verus!
