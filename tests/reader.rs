use sexpr_reader::expr::{ParseError, SymbolicExpr};
use sexpr_reader::lexer::{advance, classify, to_atom, AtomState, CharClass};
use sexpr_reader::reader::read;

fn num(t: &str) -> SymbolicExpr {
    SymbolicExpr::Number(t.to_string())
}

fn sym(t: &str) -> SymbolicExpr {
    SymbolicExpr::Symbol(t.to_string())
}

fn list(children: Vec<SymbolicExpr>) -> SymbolicExpr {
    SymbolicExpr::List(children)
}

fn value_of(e: &SymbolicExpr) -> f64 {
    match e {
        SymbolicExpr::Number(t) => t.parse::<f64>().unwrap(),
        _ => panic!("not a number"),
    }
}

#[test]
fn decimal_number() {
    let r = read("12.3").unwrap();
    assert_eq!(r, vec![num("12.3")]);
    assert_eq!(value_of(&r[0]), 12.3);
}

#[test]
fn plus_symbol() {
    assert_eq!(read("+"), Ok(vec![sym("+")]));
}

#[test]
fn empty_list() {
    assert_eq!(read("()"), Ok(vec![list(vec![])]));
}

#[test]
fn flat_list() {
    let r = read("(+ 1 2)").unwrap();
    assert_eq!(r, vec![list(vec![sym("+"), num("1"), num("2")])]);
    match &r[0] {
        SymbolicExpr::List(xs) => {
            assert_eq!(value_of(&xs[1]), 1.0);
            assert_eq!(value_of(&xs[2]), 2.0);
        }
        _ => panic!("not a list"),
    }
}

#[test]
fn nested_lists() {
    assert_eq!(
        read("(* (+ 1 2) (+ 3 4))"),
        Ok(vec![list(vec![
            sym("*"),
            list(vec![sym("+"), num("1"), num("2")]),
            list(vec![sym("+"), num("3"), num("4")]),
        ])])
    );
}

#[test]
fn lone_open_paren() {
    assert_eq!(read("("), Err(ParseError::UnmatchedOpenParen));
}

#[test]
fn lone_close_paren() {
    assert_eq!(read(")"), Err(ParseError::MissingOpenParen));
}

#[test]
fn integers_and_decimals_read_as_numbers() {
    for t in ["0", "7", "42", "007", "3.14", "10.05", "123456789012345678901234567890"] {
        let r = read(t).unwrap();
        assert_eq!(r, vec![num(t)]);
        assert_eq!(value_of(&r[0]), t.parse::<f64>().unwrap());
    }
}

#[test]
fn non_digit_start_reads_as_symbol() {
    for t in ["x", "-5", ".5", "a1.2", "+.", "foo-bar?", "λ"] {
        assert_eq!(read(t), Ok(vec![sym(t)]));
    }
}

#[test]
fn depth_follows_parens() {
    assert_eq!(
        read("((a) (1 (b 2.5)))"),
        Ok(vec![list(vec![
            list(vec![sym("a")]),
            list(vec![num("1"), list(vec![sym("b"), num("2.5")])]),
        ])])
    );
}

#[test]
fn deep_nesting_without_recursion() {
    let depth = 100_000;
    let text = "(".repeat(depth) + &")".repeat(depth);
    let r = read(&text).unwrap();
    assert_eq!(r.len(), 1);
    let mut node = &r[0];
    let mut seen = 1;
    while let SymbolicExpr::List(xs) = node {
        if xs.is_empty() {
            break;
        }
        assert_eq!(xs.len(), 1);
        node = &xs[0];
        seen += 1;
    }
    assert_eq!(seen, depth);
    std::mem::forget(r);
}

#[test]
fn whitespace_only_list_body_is_empty() {
    assert_eq!(read("( \t\n\r )"), Ok(vec![list(vec![])]));
}

#[test]
fn empty_and_blank_inputs() {
    assert_eq!(read(""), Ok(vec![]));
    assert_eq!(read("  \n\t "), Ok(vec![]));
}

#[test]
fn several_top_level_nodes() {
    assert_eq!(read("1 a (b)"), Ok(vec![num("1"), sym("a"), list(vec![sym("b")])]));
}

#[test]
fn atoms_end_at_parens() {
    assert_eq!(
        read("(a(b)1)2"),
        Ok(vec![list(vec![sym("a"), list(vec![sym("b")]), num("1")]), num("2")])
    );
}

#[test]
fn more_opens_than_closes() {
    assert_eq!(read("(()"), Err(ParseError::UnmatchedOpenParen));
    assert_eq!(read("(+ 1 (2 3)"), Err(ParseError::UnmatchedOpenParen));
}

#[test]
fn close_without_open() {
    assert_eq!(read("())"), Err(ParseError::MissingOpenParen));
    assert_eq!(read("a ) ("), Err(ParseError::MissingOpenParen));
}

#[test]
fn trailing_decimal_point() {
    assert_eq!(read("1."), Err(ParseError::InvalidAtom));
    assert_eq!(read("12. 3"), Err(ParseError::InvalidAtom));
    assert_eq!(read("(1.)"), Err(ParseError::InvalidAtom));
    assert_eq!(read("5.("), Err(ParseError::InvalidAtom));
}

#[test]
fn bad_character_in_number() {
    assert_eq!(read("1a"), Err(ParseError::InvalidNumber));
    assert_eq!(read("(+ 12x 3)"), Err(ParseError::InvalidNumber));
    assert_eq!(read("1.2.3"), Err(ParseError::InvalidNumber));
    assert_eq!(read("1..2"), Err(ParseError::InvalidNumber));
    assert_eq!(read("3.5e"), Err(ParseError::InvalidNumber));
}

#[test]
fn first_error_wins() {
    assert_eq!(read("1x )"), Err(ParseError::InvalidNumber));
    assert_eq!(read(") 1x"), Err(ParseError::MissingOpenParen));
}

#[test]
fn classify_each_class() {
    assert_eq!(classify(' '), CharClass::Whitespace);
    assert_eq!(classify('\t'), CharClass::Whitespace);
    assert_eq!(classify('\n'), CharClass::Whitespace);
    assert_eq!(classify('\r'), CharClass::Whitespace);
    assert_eq!(classify('('), CharClass::OpenParen);
    assert_eq!(classify(')'), CharClass::CloseParen);
    assert_eq!(classify('0'), CharClass::Digit);
    assert_eq!(classify('9'), CharClass::Digit);
    assert_eq!(classify('.'), CharClass::Other);
    assert_eq!(classify('a'), CharClass::Other);
}

#[test]
fn state_machine_table() {
    assert_eq!(advance(AtomState::Start, '4'), Ok(AtomState::Integer));
    assert_eq!(advance(AtomState::Start, '.'), Ok(AtomState::Symbol));
    assert_eq!(advance(AtomState::Start, 'q'), Ok(AtomState::Symbol));
    assert_eq!(advance(AtomState::Symbol, '1'), Ok(AtomState::Symbol));
    assert_eq!(advance(AtomState::Symbol, '.'), Ok(AtomState::Symbol));
    assert_eq!(advance(AtomState::Integer, '1'), Ok(AtomState::Integer));
    assert_eq!(advance(AtomState::Integer, '.'), Ok(AtomState::IncompleteFloat));
    assert_eq!(advance(AtomState::Integer, 'x'), Err(ParseError::InvalidNumber));
    assert_eq!(advance(AtomState::IncompleteFloat, '2'), Ok(AtomState::Float));
    assert_eq!(advance(AtomState::IncompleteFloat, '.'), Err(ParseError::InvalidNumber));
    assert_eq!(advance(AtomState::Float, '2'), Ok(AtomState::Float));
    assert_eq!(advance(AtomState::Float, '.'), Err(ParseError::InvalidNumber));
}

#[test]
fn finalizing_atoms() {
    assert_eq!(to_atom(AtomState::Symbol, "ab".to_string()), Ok(sym("ab")));
    assert_eq!(to_atom(AtomState::Integer, "12".to_string()), Ok(num("12")));
    assert_eq!(to_atom(AtomState::Float, "1.5".to_string()), Ok(num("1.5")));
    assert_eq!(to_atom(AtomState::IncompleteFloat, "1.".to_string()), Err(ParseError::InvalidAtom));
    assert_eq!(to_atom(AtomState::Start, String::new()), Err(ParseError::InvalidAtom));
}
