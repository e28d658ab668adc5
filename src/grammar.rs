//! What the reader accepts, stated over well-formed trees and their written
//! form, and proved of the reader's state machine.
use vstd::prelude::*;
use crate::expr::{ParseError, Sexp};
use crate::lexer::{AtomState, is_digit, is_whitespace};
use crate::reader::{ReaderModel, at_rest, initial, step, run, read_text};

verus! {

/// Whitespace and parens end an atom.
pub open spec fn is_terminator(c: char) -> bool {
    is_whitespace(c) || c == '(' || c == ')'
}

/// A non-empty run of decimal digits.
pub open spec fn is_digits(t: Seq<char>) -> bool {
    t.len() > 0 && forall|i: int| 0 <= i < t.len() ==> is_digit(#[trigger] t[i])
}

/// Digits, optionally followed by one decimal point and at least one digit.
pub open spec fn is_numeral(t: Seq<char>) -> bool {
    is_digits(t) || exists|k: int|
        0 < k < t.len() - 1 && #[trigger] t[k] == '.' && is_digits(t.take(k)) && is_digits(
            t.skip(k + 1),
        )
}

/// Text that reads as a symbol: it does not start with a digit and holds no
/// whitespace or paren.
pub open spec fn is_symbol_text(t: Seq<char>) -> bool {
    &&& t.len() > 0
    &&& !is_digit(t[0])
    &&& forall|i: int| 0 <= i < t.len() ==> !is_terminator(#[trigger] t[i])
}

pub open spec fn well_formed(e: Sexp) -> bool
    decreases e,
{
    match e {
        Sexp::Number(t) => is_numeral(t),
        Sexp::Symbol(t) => is_symbol_text(t),
        Sexp::List(xs) => all_well_formed(xs),
    }
}

pub open spec fn all_well_formed(xs: Seq<Sexp>) -> bool
    decreases xs,
{
    xs.len() == 0 || (all_well_formed(xs.subrange(0, xs.len() - 1)) && well_formed(
        xs[xs.len() - 1],
    ))
}

/// The written form of a node: an atom as its text, a list as its written
/// children between parens.
pub open spec fn render(e: Sexp) -> Seq<char>
    decreases e,
{
    match e {
        Sexp::Number(t) => t,
        Sexp::Symbol(t) => t,
        Sexp::List(xs) => seq!['('] + render_all(xs) + seq![')'],
    }
}

/// The written form of a sequence of nodes, each followed by a space.
pub open spec fn render_all(xs: Seq<Sexp>) -> Seq<char>
    decreases xs,
{
    if xs.len() == 0 {
        Seq::empty()
    } else {
        render_all(xs.subrange(0, xs.len() - 1)) + render(xs[xs.len() - 1]) + seq![' ']
    }
}

proof fn lemma_run_single(r: ReaderModel, c: char)
    ensures
        run(r, seq![c]) == step(r, c),
{
    assert(seq![c].drop_last() =~= Seq::<char>::empty());
    assert(run(r, Seq::<char>::empty()) == Ok::<ReaderModel, ParseError>(r));
    assert(seq![c].last() == c);
}

/// Reading a concatenation is reading its first part, then the second.
pub proof fn lemma_run_concat(r: ReaderModel, a: Seq<char>, b: Seq<char>)
    ensures
        run(r, a + b) == (match run(r, a) {
            Ok(m) => run(m, b),
            Err(e) => Err(e),
        }),
    decreases b.len(),
{
    if b.len() == 0 {
        assert(a + b =~= a);
    } else {
        lemma_run_concat(r, a, b.drop_last());
        assert((a + b).drop_last() =~= a + b.drop_last());
        assert((a + b).last() == b.last());
    }
}

proof fn lemma_run_more_digits(r: ReaderModel, a: Seq<char>)
    requires
        r.state == AtomState::Integer || r.state == AtomState::Float,
        forall|i: int| 0 <= i < a.len() ==> is_digit(#[trigger] a[i]),
    ensures
        run(r, a) == Ok::<ReaderModel, ParseError>(ReaderModel { accum: r.accum + a, ..r }),
    decreases a.len(),
{
    if a.len() == 0 {
        assert(r.accum + a =~= r.accum);
        assert(ReaderModel { accum: r.accum + a, ..r } == r);
    } else {
        lemma_run_more_digits(r, a.drop_last());
        assert((r.accum + a.drop_last()).push(a.last()) =~= r.accum + a);
    }
}

proof fn lemma_run_digits(cur: Seq<Sexp>, st: Seq<Seq<Sexp>>, d: Seq<char>)
    requires
        is_digits(d),
    ensures
        run(at_rest(cur, st), d) == Ok::<ReaderModel, ParseError>(
            ReaderModel { state: AtomState::Integer, accum: d, current: cur, stack: st },
        ),
{
    let head = seq![d[0]];
    let tail = d.skip(1);
    assert(d =~= head + tail);
    lemma_run_concat(at_rest(cur, st), head, tail);
    lemma_run_single(at_rest(cur, st), d[0]);
    assert(Seq::<char>::empty().push(d[0]) =~= head);
    let m = ReaderModel { state: AtomState::Integer, accum: head, current: cur, stack: st };
    assert forall|i: int| 0 <= i < tail.len() implies is_digit(#[trigger] tail[i]) by {
        assert(tail[i] == d[i + 1]);
    }
    lemma_run_more_digits(m, tail);
}

proof fn lemma_run_numeral(cur: Seq<Sexp>, st: Seq<Seq<Sexp>>, t: Seq<char>)
    requires
        is_numeral(t),
    ensures
        run(at_rest(cur, st), t) is Ok,
        ({
            let m = run(at_rest(cur, st), t)->Ok_0;
            &&& m.state == AtomState::Integer || m.state == AtomState::Float
            &&& m.accum == t
            &&& m.current == cur
            &&& m.stack == st
        }),
{
    if is_digits(t) {
        lemma_run_digits(cur, st, t);
    } else {
        let k = choose|k: int|
            0 < k < t.len() - 1 && #[trigger] t[k] == '.' && is_digits(t.take(k)) && is_digits(
                t.skip(k + 1),
            );
        let a = t.take(k);
        let b = t.skip(k + 1);
        assert(t =~= a + (seq!['.', b[0]] + b.skip(1)));
        lemma_run_concat(at_rest(cur, st), a, seq!['.', b[0]] + b.skip(1));
        lemma_run_digits(cur, st, a);
        let m0 = ReaderModel { state: AtomState::Integer, accum: a, current: cur, stack: st };
        lemma_run_concat(m0, seq!['.', b[0]], b.skip(1));
        assert(seq!['.', b[0]].drop_last() =~= seq!['.']);
        lemma_run_single(m0, '.');
        let m2 = ReaderModel {
            state: AtomState::Float,
            accum: a.push('.').push(b[0]),
            current: cur,
            stack: st,
        };
        assert(run(m0, seq!['.', b[0]]) == Ok::<ReaderModel, ParseError>(m2));
        let rest = b.skip(1);
        assert forall|i: int| 0 <= i < rest.len() implies is_digit(#[trigger] rest[i]) by {
            assert(rest[i] == b[i + 1]);
        }
        lemma_run_more_digits(m2, rest);
        assert(a.push('.').push(b[0]) + rest =~= t);
    }
}

proof fn lemma_run_more_symbol(r: ReaderModel, a: Seq<char>)
    requires
        r.state == AtomState::Symbol,
        forall|i: int| 0 <= i < a.len() ==> !is_terminator(#[trigger] a[i]),
    ensures
        run(r, a) == Ok::<ReaderModel, ParseError>(ReaderModel { accum: r.accum + a, ..r }),
    decreases a.len(),
{
    if a.len() == 0 {
        assert(r.accum + a =~= r.accum);
        assert(ReaderModel { accum: r.accum + a, ..r } == r);
    } else {
        lemma_run_more_symbol(r, a.drop_last());
        assert((r.accum + a.drop_last()).push(a.last()) =~= r.accum + a);
    }
}

proof fn lemma_run_symbol(cur: Seq<Sexp>, st: Seq<Seq<Sexp>>, t: Seq<char>)
    requires
        is_symbol_text(t),
    ensures
        run(at_rest(cur, st), t) == Ok::<ReaderModel, ParseError>(
            ReaderModel { state: AtomState::Symbol, accum: t, current: cur, stack: st },
        ),
{
    let head = seq![t[0]];
    let tail = t.skip(1);
    assert(t =~= head + tail);
    lemma_run_concat(at_rest(cur, st), head, tail);
    lemma_run_single(at_rest(cur, st), t[0]);
    assert(Seq::<char>::empty().push(t[0]) =~= head);
    let m = ReaderModel { state: AtomState::Symbol, accum: head, current: cur, stack: st };
    assert forall|i: int| 0 <= i < tail.len() implies !is_terminator(#[trigger] tail[i]) by {
        assert(tail[i] == t[i + 1]);
    }
    lemma_run_more_symbol(m, tail);
}

proof fn lemma_run_spaces(cur: Seq<Sexp>, st: Seq<Seq<Sexp>>, w: Seq<char>)
    requires
        forall|i: int| 0 <= i < w.len() ==> is_whitespace(#[trigger] w[i]),
    ensures
        run(at_rest(cur, st), w) == Ok::<ReaderModel, ParseError>(at_rest(cur, st)),
    decreases w.len(),
{
    if w.len() > 0 {
        lemma_run_spaces(cur, st, w.drop_last());
    }
}

proof fn lemma_write_one(e: Sexp, cur: Seq<Sexp>, st: Seq<Seq<Sexp>>)
    requires
        well_formed(e),
    ensures
        run(at_rest(cur, st), render(e) + seq![' ']) == Ok::<ReaderModel, ParseError>(
            at_rest(cur.push(e), st),
        ),
    decreases e,
{
    match e {
        Sexp::Number(t) => {
            lemma_run_concat(at_rest(cur, st), t, seq![' ']);
            lemma_run_numeral(cur, st, t);
            lemma_run_single(run(at_rest(cur, st), t)->Ok_0, ' ');
        },
        Sexp::Symbol(t) => {
            lemma_run_concat(at_rest(cur, st), t, seq![' ']);
            lemma_run_symbol(cur, st, t);
            lemma_run_single(run(at_rest(cur, st), t)->Ok_0, ' ');
        },
        Sexp::List(xs) => {
            let inner = render_all(xs);
            assert(render(e) + seq![' '] =~= seq!['('] + (inner + (seq![')'] + seq![' '])));
            let r0 = at_rest(cur, st);
            lemma_run_concat(r0, seq!['('], inner + (seq![')'] + seq![' ']));
            lemma_run_single(r0, '(');
            let r1 = at_rest(Seq::empty(), st.push(cur));
            lemma_run_concat(r1, inner, seq![')'] + seq![' ']);
            lemma_write_all(xs, Seq::empty(), st.push(cur));
            assert(Seq::<Sexp>::empty() + xs =~= xs);
            let r2 = at_rest(xs, st.push(cur));
            lemma_run_concat(r2, seq![')'], seq![' ']);
            lemma_run_single(r2, ')');
            assert(st.push(cur).drop_last() =~= st);
            let r3 = at_rest(cur.push(e), st);
            lemma_run_single(r3, ' ');
        },
    }
}

proof fn lemma_write_all(xs: Seq<Sexp>, cur: Seq<Sexp>, st: Seq<Seq<Sexp>>)
    requires
        all_well_formed(xs),
    ensures
        run(at_rest(cur, st), render_all(xs)) == Ok::<ReaderModel, ParseError>(
            at_rest(cur + xs, st),
        ),
    decreases xs,
{
    if xs.len() == 0 {
        assert(cur + xs =~= cur);
    } else {
        let init = xs.subrange(0, xs.len() - 1);
        let last = xs[xs.len() - 1];
        assert(render_all(xs) =~= render_all(init) + (render(last) + seq![' ']));
        lemma_run_concat(at_rest(cur, st), render_all(init), render(last) + seq![' ']);
        lemma_write_all(init, cur, st);
        lemma_write_one(last, cur + init, st);
        assert((cur + init).push(last) =~= cur + xs);
    }
}

/// Every well-formed sequence of trees, written out with each list between
/// parens and each node followed by a space, reads back as itself: one list
/// node for each matched pair of parens, nested as written.
pub proof fn lemma_read_written(f: Seq<Sexp>)
    requires
        all_well_formed(f),
    ensures
        read_text(render_all(f)) == Ok::<Seq<Sexp>, ParseError>(f),
{
    lemma_write_all(f, Seq::empty(), Seq::empty());
    assert(Seq::<Sexp>::empty() + f =~= f);
}

/// A numeral alone reads as one number node holding that numeral.
pub proof fn lemma_read_numeral(t: Seq<char>)
    requires
        is_numeral(t),
    ensures
        read_text(t) == Ok::<Seq<Sexp>, ParseError>(seq![Sexp::Number(t)]),
{
    lemma_run_numeral(Seq::empty(), Seq::empty(), t);
    assert(Seq::<Sexp>::empty().push(Sexp::Number(t)) =~= seq![Sexp::Number(t)]);
}

/// Text that does not start with a digit and holds no whitespace or paren
/// reads as one symbol node holding that text verbatim.
pub proof fn lemma_read_symbol(t: Seq<char>)
    requires
        is_symbol_text(t),
    ensures
        read_text(t) == Ok::<Seq<Sexp>, ParseError>(seq![Sexp::Symbol(t)]),
{
    lemma_run_symbol(Seq::empty(), Seq::empty(), t);
    assert(Seq::<Sexp>::empty().push(Sexp::Symbol(t)) =~= seq![Sexp::Symbol(t)]);
}

/// Parens around nothing but whitespace read as one empty list node.
pub proof fn lemma_read_empty_list(w: Seq<char>)
    requires
        forall|i: int| 0 <= i < w.len() ==> is_whitespace(#[trigger] w[i]),
    ensures
        read_text(seq!['('] + w + seq![')']) == Ok::<Seq<Sexp>, ParseError>(
            seq![Sexp::List(Seq::empty())],
        ),
{
    let r0 = initial();
    lemma_run_concat(r0, seq!['('] + w, seq![')']);
    lemma_run_concat(r0, seq!['('], w);
    lemma_run_single(r0, '(');
    let r1 = at_rest(Seq::empty(), seq![Seq::<Sexp>::empty()]);
    assert(Seq::<Seq<Sexp>>::empty().push(Seq::<Sexp>::empty()) =~= seq![Seq::<Sexp>::empty()]);
    lemma_run_spaces(Seq::empty(), seq![Seq::<Sexp>::empty()], w);
    lemma_run_single(r1, ')');
    assert(seq![Seq::<Sexp>::empty()].drop_last() =~= Seq::<Seq<Sexp>>::empty());
    assert(Seq::<Sexp>::empty().push(Sexp::List(Seq::empty())) =~= seq![
        Sexp::List(Seq::empty()),
    ]);
}

/// An open paren that is never closed fails the read with
/// `UnmatchedOpenParen`, whatever well-formed text stands before and after it.
pub proof fn lemma_unclosed_paren(f: Seq<Sexp>, g: Seq<Sexp>)
    requires
        all_well_formed(f),
        all_well_formed(g),
    ensures
        read_text(render_all(f) + seq!['('] + render_all(g)) == Err::<Seq<Sexp>, ParseError>(
            ParseError::UnmatchedOpenParen,
        ),
{
    let r0 = initial();
    lemma_run_concat(r0, render_all(f) + seq!['('], render_all(g));
    lemma_run_concat(r0, render_all(f), seq!['(']);
    lemma_write_all(f, Seq::empty(), Seq::empty());
    assert(Seq::<Sexp>::empty() + f =~= f);
    lemma_run_single(at_rest(f, Seq::empty()), '(');
    let st = Seq::<Seq<Sexp>>::empty().push(f);
    lemma_write_all(g, Seq::empty(), st);
}

/// A close paren with no open paren before it fails the read with
/// `MissingOpenParen`, whatever follows it.
pub proof fn lemma_unopened_paren(f: Seq<Sexp>, t: Seq<char>)
    requires
        all_well_formed(f),
    ensures
        read_text(render_all(f) + seq![')'] + t) == Err::<Seq<Sexp>, ParseError>(
            ParseError::MissingOpenParen,
        ),
{
    let r0 = initial();
    lemma_run_concat(r0, render_all(f) + seq![')'], t);
    lemma_run_concat(r0, render_all(f), seq![')']);
    lemma_write_all(f, Seq::empty(), Seq::empty());
    assert(Seq::<Sexp>::empty() + f =~= f);
    lemma_run_single(at_rest(f, Seq::empty()), ')');
}

/// The reader's state after well-formed text and then a run of digits.
proof fn lemma_run_digits_after(f: Seq<Sexp>, d: Seq<char>)
    requires
        all_well_formed(f),
        is_digits(d),
    ensures
        run(initial(), render_all(f) + d) == Ok::<ReaderModel, ParseError>(
            ReaderModel { state: AtomState::Integer, accum: d, current: f, stack: Seq::empty() },
        ),
{
    lemma_run_concat(initial(), render_all(f), d);
    lemma_write_all(f, Seq::empty(), Seq::empty());
    assert(Seq::<Sexp>::empty() + f =~= f);
    lemma_run_digits(f, Seq::empty(), d);
}

/// Digits and a decimal point with no digit after it, ended by whitespace, a
/// paren or the end of input, fail the read with `InvalidAtom`.
pub proof fn lemma_trailing_point(f: Seq<Sexp>, d: Seq<char>, t: Seq<char>)
    requires
        all_well_formed(f),
        is_digits(d),
        t.len() == 0 || is_terminator(t[0]),
    ensures
        read_text(render_all(f) + d + seq!['.'] + t) == Err::<Seq<Sexp>, ParseError>(
            ParseError::InvalidAtom,
        ),
{
    let a = render_all(f) + d;
    lemma_run_digits_after(f, d);
    let m = ReaderModel { state: AtomState::Integer, accum: d, current: f, stack: Seq::empty() };
    lemma_run_concat(initial(), a + seq!['.'], t);
    lemma_run_concat(initial(), a, seq!['.']);
    lemma_run_single(m, '.');
    let m1 = ReaderModel { state: AtomState::IncompleteFloat, accum: d.push('.'), ..m };
    if t.len() > 0 {
        assert(t =~= seq![t[0]] + t.skip(1));
        lemma_run_concat(m1, seq![t[0]], t.skip(1));
        lemma_run_single(m1, t[0]);
    }
}

/// Digits followed directly by a character that is not a digit, a decimal
/// point, whitespace or a paren fail the read with `InvalidNumber`.
pub proof fn lemma_bad_number_char(f: Seq<Sexp>, d: Seq<char>, c: char, t: Seq<char>)
    requires
        all_well_formed(f),
        is_digits(d),
        !is_digit(c),
        c != '.',
        !is_terminator(c),
    ensures
        read_text(render_all(f) + d + seq![c] + t) == Err::<Seq<Sexp>, ParseError>(
            ParseError::InvalidNumber,
        ),
{
    let a = render_all(f) + d;
    lemma_run_digits_after(f, d);
    let m = ReaderModel { state: AtomState::Integer, accum: d, current: f, stack: Seq::empty() };
    lemma_run_concat(initial(), a + seq![c], t);
    lemma_run_concat(initial(), a, seq![c]);
    lemma_run_single(m, c);
}

} // verus!
