//! The reader: one forward pass over the text, with an explicit stack of
//! partial lists in place of recursion.
use vstd::prelude::*;
use crate::expr::{ParseError, Sexp, SymbolicExpr, sexps_of, lemma_sexps_of_push};
use crate::lexer::{
    AtomState, CharClass, class_of, next_state, atom_of, classify, advance, to_atom,
};

verus! {

/// The reader's whole state between two characters.
pub struct ReaderModel {
    pub state: AtomState,
    pub accum: Seq<char>,
    pub current: Seq<Sexp>,
    pub stack: Seq<Seq<Sexp>>,
}

/// A state with no atom in progress.
pub open spec fn at_rest(current: Seq<Sexp>, stack: Seq<Seq<Sexp>>) -> ReaderModel {
    ReaderModel { state: AtomState::Start, accum: Seq::empty(), current, stack }
}

pub open spec fn initial() -> ReaderModel {
    at_rest(Seq::empty(), Seq::empty())
}

/// The current list once the atom in progress, if any, has been finalized
/// into it.
pub open spec fn flushed(state: AtomState, accum: Seq<char>, current: Seq<Sexp>) -> Result<
    Seq<Sexp>,
    ParseError,
> {
    if state == AtomState::Start {
        Ok(current)
    } else {
        match atom_of(state, accum) {
            Ok(e) => Ok(current.push(e)),
            Err(e) => Err(e),
        }
    }
}

/// The effect of one character.
pub open spec fn step(r: ReaderModel, c: char) -> Result<ReaderModel, ParseError> {
    match class_of(c) {
        CharClass::Whitespace => match flushed(r.state, r.accum, r.current) {
            Ok(cur) => Ok(at_rest(cur, r.stack)),
            Err(e) => Err(e),
        },
        CharClass::OpenParen => match flushed(r.state, r.accum, r.current) {
            Ok(cur) => Ok(at_rest(Seq::empty(), r.stack.push(cur))),
            Err(e) => Err(e),
        },
        CharClass::CloseParen => match flushed(r.state, r.accum, r.current) {
            Ok(cur) => if r.stack.len() == 0 {
                Err(ParseError::MissingOpenParen)
            } else {
                Ok(at_rest(r.stack.last().push(Sexp::List(cur)), r.stack.drop_last()))
            },
            Err(e) => Err(e),
        },
        _ => match next_state(r.state, c) {
            Some(n) => Ok(ReaderModel { state: n, accum: r.accum.push(c), ..r }),
            None => Err(ParseError::InvalidNumber),
        },
    }
}

/// The effect of a run of characters, stopping at the first error.
pub open spec fn run(r: ReaderModel, s: Seq<char>) -> Result<ReaderModel, ParseError>
    decreases s.len(),
{
    if s.len() == 0 {
        Ok(r)
    } else {
        match run(r, s.drop_last()) {
            Ok(m) => step(m, s.last()),
            Err(e) => Err(e),
        }
    }
}

/// What the end of input makes of a state.
pub open spec fn finish(r: ReaderModel) -> Result<Seq<Sexp>, ParseError> {
    match flushed(r.state, r.accum, r.current) {
        Ok(cur) => if r.stack.len() == 0 {
            Ok(cur)
        } else {
            Err(ParseError::UnmatchedOpenParen)
        },
        Err(e) => Err(e),
    }
}

/// The result of reading a whole text.
pub open spec fn read_text(s: Seq<char>) -> Result<Seq<Sexp>, ParseError> {
    match run(initial(), s) {
        Ok(r) => finish(r),
        Err(e) => Err(e),
    }
}

pub open spec fn stack_model(stack: Seq<Vec<SymbolicExpr>>) -> Seq<Seq<Sexp>> {
    stack.map_values(|v: Vec<SymbolicExpr>| sexps_of(v@))
}

/// Relies on String::push: the character is appended at the end.
#[verifier::external_body]
fn push_char(s: &mut String, c: char)
    ensures
        final(s)@ == old(s)@.push(c),
{
    s.push(c)
}

/// A step that failed leaves the rest of the text unread.
pub proof fn lemma_run_stops(r: ReaderModel, s: Seq<char>, k: int)
    requires
        0 <= k <= s.len(),
        run(r, s.take(k)) is Err,
    ensures
        run(r, s) == run(r, s.take(k)),
    decreases s.len() - k,
{
    if k < s.len() {
        assert(s.take(k + 1).drop_last() =~= s.take(k));
        lemma_run_stops(r, s, k + 1);
    } else {
        assert(s.take(k) =~= s);
    }
}

/// The scan's working state: the atom state machine, the accumulator, the
/// list being filled and the suspended parent lists.
struct Reader {
    state: AtomState,
    accum: String,
    current: Vec<SymbolicExpr>,
    stack: Vec<Vec<SymbolicExpr>>,
}

impl Reader {
    spec fn model(&self) -> ReaderModel {
        ReaderModel {
            state: self.state,
            accum: self.accum@,
            current: sexps_of(self.current@),
            stack: stack_model(self.stack@),
        }
    }

    fn new() -> (r: Reader)
        ensures
            r.model() == initial(),
    {
        let r = Reader {
            state: AtomState::Start,
            accum: String::new(),
            current: Vec::new(),
            stack: Vec::new(),
        };
        assert(r.current@ =~= Seq::<SymbolicExpr>::empty());
        assert(r.model().current =~= Seq::<Sexp>::empty());
        assert(r.model().stack =~= Seq::<Seq<Sexp>>::empty());
        r
    }

    /// Finalizes the atom in progress, if any, and resets the state machine.
    fn end_atom(&mut self) -> (r: Result<(), ParseError>)
        ensures
            match r {
                Ok(()) => {
                    &&& flushed(old(self).state, old(self).accum@, sexps_of(old(self).current@))
                        == Ok::<Seq<Sexp>, ParseError>(sexps_of(final(self).current@))
                    &&& final(self).model() == at_rest(
                        sexps_of(final(self).current@),
                        old(self).model().stack,
                    )
                },
                Err(e) => flushed(old(self).state, old(self).accum@, sexps_of(old(self).current@))
                    == Err::<Seq<Sexp>, ParseError>(e),
            },
    {
        if self.state != AtomState::Start {
            let mut text = String::new();
            std::mem::swap(&mut text, &mut self.accum);
            match to_atom(self.state, text) {
                Ok(e) => {
                    proof {
                        lemma_sexps_of_push(self.current@, e);
                    }
                    self.current.push(e);
                },
                Err(e) => return Err(e),
            }
        }
        self.state = AtomState::Start;
        self.accum = String::new();
        Ok(())
    }

    /// Consumes one character.
    fn feed(&mut self, c: char) -> (r: Result<(), ParseError>)
        ensures
            match r {
                Ok(()) => step(old(self).model(), c) == Ok::<ReaderModel, ParseError>(
                    final(self).model(),
                ),
                Err(e) => step(old(self).model(), c) == Err::<ReaderModel, ParseError>(e),
            },
    {
        let ghost before = self.model();
        match classify(c) {
            CharClass::Whitespace => self.end_atom(),
            CharClass::OpenParen => {
                match self.end_atom() {
                    Ok(()) => {},
                    Err(e) => return Err(e),
                }
                let ghost parent = self.current@;
                let mut filled: Vec<SymbolicExpr> = Vec::new();
                std::mem::swap(&mut filled, &mut self.current);
                self.stack.push(filled);
                proof {
                    assert(stack_model(self.stack@) =~= before.stack.push(sexps_of(parent)));
                    assert(sexps_of(self.current@) =~= Seq::<Sexp>::empty());
                }
                Ok(())
            },
            CharClass::CloseParen => {
                match self.end_atom() {
                    Ok(()) => {},
                    Err(e) => return Err(e),
                }
                match self.stack.pop() {
                    Some(parent) => {
                        let mut children = parent;
                        std::mem::swap(&mut children, &mut self.current);
                        let list = SymbolicExpr::List(children);
                        proof {
                            lemma_sexps_of_push(self.current@, list);
                            assert(stack_model(self.stack@) =~= before.stack.drop_last());
                        }
                        self.current.push(list);
                        Ok(())
                    },
                    None => Err(ParseError::MissingOpenParen),
                }
            },
            _ => {
                match advance(self.state, c) {
                    Ok(n) => self.state = n,
                    Err(e) => return Err(e),
                }
                push_char(&mut self.accum, c);
                Ok(())
            },
        }
    }

    /// Ends the scan: finalizes the last atom and hands back the top-level
    /// nodes, provided every open paren was closed.
    fn finish(self) -> (r: Result<Vec<SymbolicExpr>, ParseError>)
        ensures
            match (r, finish(self.model())) {
                (Ok(v), Ok(m)) => sexps_of(v@) == m,
                (Err(e), Err(f)) => e == f,
                _ => false,
            },
    {
        let mut me = self;
        match me.end_atom() {
            Ok(()) => {},
            Err(e) => return Err(e),
        }
        if me.stack.len() == 0 {
            Ok(me.current)
        } else {
            Err(ParseError::UnmatchedOpenParen)
        }
    }
}

/// Reads a whole text into its top-level nodes, or the first error met.
pub fn read(code: &str) -> (r: Result<Vec<SymbolicExpr>, ParseError>)
    ensures
        match (r, read_text(code@)) {
            (Ok(v), Ok(m)) => sexps_of(v@) == m,
            (Err(e), Err(f)) => e == f,
            _ => false,
        },
{
    let mut reader = Reader::new();
    for c in it: code.chars()
        invariant
            it.seq() == code@,
            run(initial(), code@.take(it.index() as int)) == Ok::<ReaderModel, ParseError>(
                reader.model(),
            ),
    {
        proof {
            assert(code@.take(it.index() + 1).drop_last() =~= code@.take(it.index() as int));
        }
        match reader.feed(c) {
            Ok(()) => {},
            Err(e) => {
                proof {
                    lemma_run_stops(initial(), code@, it.index() + 1);
                }
                return Err(e);
            },
        }
    }
    proof {
        assert(code@.take(code@.len() as int) =~= code@);
    }
    reader.finish()
}

} // verus!
