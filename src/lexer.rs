//! Character classes and the atom state machine.
use vstd::prelude::*;
use crate::expr::{ParseError, Sexp, SymbolicExpr};

verus! {

/// The five classes that drive the reader.
#[derive(Debug, Clone, Copy, PartialEq, Eq, Structural)]
pub enum CharClass {
    Whitespace,
    OpenParen,
    CloseParen,
    Digit,
    Other,
}

pub open spec fn is_whitespace(c: char) -> bool {
    c == ' ' || c == '\t' || c == '\n' || c == '\r'
}

pub open spec fn is_digit(c: char) -> bool {
    '0' <= c && c <= '9'
}

pub open spec fn class_of(c: char) -> CharClass {
    if is_whitespace(c) {
        CharClass::Whitespace
    } else if c == '(' {
        CharClass::OpenParen
    } else if c == ')' {
        CharClass::CloseParen
    } else if is_digit(c) {
        CharClass::Digit
    } else {
        CharClass::Other
    }
}

/// Classifies one character of input.
pub fn classify(c: char) -> (r: CharClass)
    ensures
        r == class_of(c),
{
    if c == ' ' || c == '\t' || c == '\n' || c == '\r' {
        CharClass::Whitespace
    } else if c == '(' {
        CharClass::OpenParen
    } else if c == ')' {
        CharClass::CloseParen
    } else if '0' <= c && c <= '9' {
        CharClass::Digit
    } else {
        CharClass::Other
    }
}

/// The kind of atom being accumulated.
#[derive(Debug, Clone, Copy, PartialEq, Eq, Structural)]
pub enum AtomState {
    /// No atom in progress.
    Start,
    Symbol,
    Integer,
    /// A decimal point has been seen, with no digit after it yet.
    IncompleteFloat,
    /// At least one digit follows the decimal point.
    Float,
}

/// The transition on a character that is neither whitespace nor a paren;
/// `None` when numeric grammar rejects it.
pub open spec fn next_state(s: AtomState, c: char) -> Option<AtomState> {
    match s {
        AtomState::Start => if is_digit(c) {
            Some(AtomState::Integer)
        } else {
            Some(AtomState::Symbol)
        },
        AtomState::Symbol => Some(AtomState::Symbol),
        AtomState::Integer => if is_digit(c) {
            Some(AtomState::Integer)
        } else if c == '.' {
            Some(AtomState::IncompleteFloat)
        } else {
            None
        },
        AtomState::IncompleteFloat => if is_digit(c) {
            Some(AtomState::Float)
        } else {
            None
        },
        AtomState::Float => if is_digit(c) {
            Some(AtomState::Float)
        } else {
            None
        },
    }
}

/// Drives the state machine by one character that is neither whitespace nor
/// a paren.
pub fn advance(s: AtomState, c: char) -> (r: Result<AtomState, ParseError>)
    ensures
        r == (match next_state(s, c) {
            Some(n) => Ok(n),
            None => Err(ParseError::InvalidNumber),
        }),
{
    let digit = '0' <= c && c <= '9';
    match s {
        AtomState::Start => if digit {
            Ok(AtomState::Integer)
        } else {
            Ok(AtomState::Symbol)
        },
        AtomState::Symbol => Ok(AtomState::Symbol),
        AtomState::Integer => if digit {
            Ok(AtomState::Integer)
        } else if c == '.' {
            Ok(AtomState::IncompleteFloat)
        } else {
            Err(ParseError::InvalidNumber)
        },
        AtomState::IncompleteFloat => if digit {
            Ok(AtomState::Float)
        } else {
            Err(ParseError::InvalidNumber)
        },
        AtomState::Float => if digit {
            Ok(AtomState::Float)
        } else {
            Err(ParseError::InvalidNumber)
        },
    }
}

/// The node that an atom boundary yields from the accumulated text.
pub open spec fn atom_of(s: AtomState, text: Seq<char>) -> Result<Sexp, ParseError> {
    match s {
        AtomState::Symbol => Ok(Sexp::Symbol(text)),
        AtomState::Integer | AtomState::Float => Ok(Sexp::Number(text)),
        _ => Err(ParseError::InvalidAtom),
    }
}

/// Finalizes an accumulated atom into a node.
pub fn to_atom(s: AtomState, accum: String) -> (r: Result<SymbolicExpr, ParseError>)
    ensures
        match (r, atom_of(s, accum@)) {
            (Ok(e), Ok(m)) => e@ == m,
            (Err(e), Err(f)) => e == f,
            _ => false,
        },
{
    match s {
        AtomState::Symbol => Ok(SymbolicExpr::Symbol(accum)),
        AtomState::Integer | AtomState::Float => Ok(SymbolicExpr::Number(accum)),
        _ => Err(ParseError::InvalidAtom),
    }
}

} // verus!
