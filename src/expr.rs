//! The syntax tree, its mathematical model, and the reader's error kinds.
use vstd::prelude::*;

verus! {

/// A parsed node. Numbers keep the decimal numeral exactly as it was read
/// (digits, optionally one point followed by at least one digit); turning it
/// into a machine number is left to the consumer of the tree.
#[derive(Debug, PartialEq)]
pub enum SymbolicExpr {
    Number(String),
    Symbol(String),
    List(Vec<SymbolicExpr>),
}

/// The mathematical model of a node: atoms as character sequences, lists as
/// sequences of models.
pub enum Sexp {
    Number(Seq<char>),
    Symbol(Seq<char>),
    List(Seq<Sexp>),
}

/// Why a text was rejected.
#[derive(Debug, Clone, Copy, PartialEq, Eq, Structural)]
pub enum ParseError {
    /// A digit-started atom met a character that numeric grammar does not allow.
    InvalidNumber,
    /// An atom boundary was reached in a state that cannot yield a value.
    InvalidAtom,
    /// Numeric text that could not be converted to a number.
    NumberParseFailure,
    /// A close paren with no open paren to match.
    MissingOpenParen,
    /// The input ended with open parens still unclosed.
    UnmatchedOpenParen,
}

pub open spec fn sexp_of(e: SymbolicExpr) -> Sexp
    decreases e,
{
    match e {
        SymbolicExpr::Number(t) => Sexp::Number(t@),
        SymbolicExpr::Symbol(t) => Sexp::Symbol(t@),
        SymbolicExpr::List(v) => Sexp::List(sexps_of(v@)),
    }
}

pub open spec fn sexps_of(s: Seq<SymbolicExpr>) -> Seq<Sexp>
    decreases s,
{
    if s.len() == 0 {
        Seq::empty()
    } else {
        sexps_of(s.subrange(0, s.len() - 1)).push(sexp_of(s[s.len() - 1]))
    }
}

impl View for SymbolicExpr {
    type V = Sexp;

    open spec fn view(&self) -> Sexp {
        sexp_of(*self)
    }
}

pub proof fn lemma_sexps_of_push(s: Seq<SymbolicExpr>, e: SymbolicExpr)
    ensures
        sexps_of(s.push(e)) == sexps_of(s).push(sexp_of(e)),
{
    assert(s.push(e).subrange(0, s.len() as int) =~= s);
}

} // verus!
