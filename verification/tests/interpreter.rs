use telescope::ast::{Atom, Builtin, Expr, Function, List, Quote, Symbol, Vector};
use telescope::error::Error;
use telescope::eval::eval_program;
use telescope::lexer::lex;
use telescope::ops;
use telescope::parser::{parser, read};
use telescope::render::render;
use telescope::token::{Literal, Token};

fn run(src: &str) -> Result<Expr, Error> {
    let env = ops::env();
    let (tokens, lex_err) = lex(src);
    assert!(lex_err.is_none(), "lexing failed");
    let (forms, rest, parse_err) = parser(&tokens);
    assert!(parse_err.is_none(), "parsing failed");
    assert!(rest.is_empty(), "leftover tokens");
    eval_program(&forms, &env)
}

fn parse_forms(src: &str) -> Vec<Expr> {
    let (tokens, lex_err) = lex(src);
    assert!(lex_err.is_none());
    let (forms, rest, parse_err) = parser(&tokens);
    assert!(parse_err.is_none());
    assert!(rest.is_empty());
    forms
}

#[test]
fn call_fn() {
    let add = Function::new(Some("add".to_owned()), Builtin::Add);
    let args = vec![Expr::Atom(Atom::Int(1)), Expr::Atom(Atom::Int(2))];
    let _ = add.call(&args);
}

#[test]
fn empty_list() {
    let input = vec![Token::LParen, Token::RParen];
    let output = vec![Expr::List(List(Vec::new()))];
    let (forms, rest, err) = parser(&input);
    assert_eq!(forms, output);
    assert!(rest.is_empty());
    assert!(err.is_none());
}

#[test]
fn empty_vector() {
    let input = vec![Token::LBracket, Token::RBracket];
    let output = vec![Expr::Vector(Vector(Vec::new()))];
    let (forms, rest, err) = parser(&input);
    assert_eq!(forms, output);
    assert!(rest.is_empty());
    assert!(err.is_none());
}

#[test]
fn add_three_ints() {
    assert_eq!(run("(+ 1 2 3)"), Ok(Expr::Atom(Atom::Int(6))));
}

#[test]
fn nested_integer_division() {
    assert_eq!(run("(+ 4 (/ 5 6))"), Ok(Expr::Atom(Atom::Int(4))));
}

#[test]
fn negate_single_argument() {
    assert_eq!(run("(- 5)"), Ok(Expr::Atom(Atom::Int(-5))));
}

#[test]
fn equal_ints() {
    assert_eq!(run("(= 1 1)"), Ok(Expr::Atom(Atom::Bool(true))));
}

#[test]
fn less_is_false() {
    assert_eq!(run("(< 2 1)"), Ok(Expr::Atom(Atom::Bool(false))));
}

#[test]
fn division_by_zero() {
    assert_eq!(run("(/ 1 0)"), Err(Error::DivisionByZero));
}

#[test]
fn unbound_symbol() {
    assert_eq!(
        run("(foo 1)"),
        Err(Error::UnboundSymbol { name: Symbol("foo".to_owned()) })
    );
}

#[test]
fn add_commutes_on_samples() {
    let a = vec![Expr::Atom(Atom::Int(17)), Expr::Atom(Atom::Int(-4))];
    let b = vec![Expr::Atom(Atom::Int(-4)), Expr::Atom(Atom::Int(17))];
    assert_eq!(ops::add(&a), ops::add(&b));
    assert_eq!(ops::mul(&a), ops::mul(&b));
}

#[test]
fn promotion_makes_floats() {
    let expected = 3.5f64.to_bits();
    assert_eq!(run("(+ 1 2.5)"), Ok(Expr::Atom(Atom::Flt(expected))));
}

#[test]
fn float_arithmetic_matches_ieee() {
    assert_eq!(run("(+ 1.5 2.25)"), Ok(Expr::Atom(Atom::Flt(3.75f64.to_bits()))));
    assert_eq!(run("(- 5.0 2.5)"), Ok(Expr::Atom(Atom::Flt(2.5f64.to_bits()))));
    assert_eq!(run("(* 2.0 3.0)"), Ok(Expr::Atom(Atom::Flt(6.0f64.to_bits()))));
    assert_eq!(run("(/ 1.0 2.0)"), Ok(Expr::Atom(Atom::Flt(0.5f64.to_bits()))));
}

#[test]
fn float_negation() {
    assert_eq!(run("(- 2.5)"), Ok(Expr::Atom(Atom::Flt((-2.5f64).to_bits()))));
}

#[test]
fn float_division_by_zero_is_total() {
    assert_eq!(run("(/ 1.0 0.0)"), Ok(Expr::Atom(Atom::Flt(f64::INFINITY.to_bits()))));
    assert_eq!(run("(/ 10 2 0)"), Err(Error::DivisionByZero));
}

#[test]
fn float_comparisons() {
    assert_eq!(run("(< 1.5 2.5)"), Ok(Expr::Atom(Atom::Bool(true))));
    assert_eq!(run("(= 2.5 2.5)"), Ok(Expr::Atom(Atom::Bool(true))));
    assert_eq!(run("(<= 3 3.0)"), Ok(Expr::Atom(Atom::Bool(true))));
    assert_eq!(run("(> 2 3.5)"), Ok(Expr::Atom(Atom::Bool(false))));
}

#[test]
fn string_order_is_lexical() {
    assert_eq!(run("(< \"abc\" \"abd\")"), Ok(Expr::Atom(Atom::Bool(true))));
    assert_eq!(run("(>= \"b\" \"aaaa\")"), Ok(Expr::Atom(Atom::Bool(true))));
}

#[test]
fn boolean_operations() {
    assert_eq!(run("(not #f)"), Ok(Expr::Atom(Atom::Bool(true))));
    assert_eq!(run("(and #t #f)"), Ok(Expr::Atom(Atom::Bool(false))));
    assert_eq!(run("(or #f #t)"), Ok(Expr::Atom(Atom::Bool(true))));
    assert_eq!(run("(and)"), Ok(Expr::Atom(Atom::Bool(true))));
    assert_eq!(run("(or)"), Ok(Expr::Atom(Atom::Bool(false))));
}

#[test]
fn type_errors() {
    assert_eq!(run("(not 5)"), Err(Error::TypeMismatch));
    assert_eq!(run("(+ 1 \"x\")"), Err(Error::TypeMismatch));
    assert_eq!(run("(< 1 #t)"), Err(Error::TypeMismatch));
}

#[test]
fn arity_errors() {
    assert_eq!(run("(not)"), Err(Error::ArityMismatch { expected: 1, got: 0 }));
    assert_eq!(run("(/ 5)"), Err(Error::ArityMismatch { expected: 2, got: 1 }));
    assert_eq!(run("(= 1)"), Err(Error::ArityMismatch { expected: 2, got: 1 }));
}

#[test]
fn not_callable() {
    assert_eq!(
        run("(1 2)"),
        Err(Error::NotCallable { value: Box::new(Expr::Atom(Atom::Int(1))) })
    );
}

#[test]
fn lex_error_position() {
    let (tokens, err) = lex("ab @");
    assert_eq!(tokens.len(), 1);
    assert_eq!(err, Some(Error::LexError { position: 3, unexpected: '@' }));
}

#[test]
fn parse_error_keeps_prefix() {
    let (tokens, lex_err) = lex("1 )");
    assert!(lex_err.is_none());
    let (forms, _rest, err) = parser(&tokens);
    assert_eq!(forms, vec![Expr::Atom(Atom::Int(1))]);
    assert_eq!(err, Some(Error::ParseError { position: 1 }));
}

#[test]
fn integer_literal_too_large() {
    let (_tokens, err) = lex("99999999999999999999");
    assert!(matches!(err, Some(Error::LexError { .. })));
}

#[test]
fn quote_suppresses_evaluation() {
    let result = run("'(+ 1 2)").unwrap();
    let expected = Expr::List(List(vec![
        Expr::Atom(Atom::Sym(Symbol("+".to_owned()))),
        Expr::Atom(Atom::Int(1)),
        Expr::Atom(Atom::Int(2)),
    ]));
    assert_eq!(result, Expr::Quote(Quote(Box::new(expected))).eval(&ops::env()).unwrap());
    assert_ne!(result, Expr::Atom(Atom::Int(3)));
}

#[test]
fn vector_is_literal() {
    let result = run("[1 (+ 1 2)]").unwrap();
    let inner = Expr::List(List(vec![
        Expr::Atom(Atom::Sym(Symbol("+".to_owned()))),
        Expr::Atom(Atom::Int(1)),
        Expr::Atom(Atom::Int(2)),
    ]));
    assert_eq!(result, Expr::Vector(Vector(vec![Expr::Atom(Atom::Int(1)), inner])));
}

#[test]
fn partial_input_round_trip() {
    let (forms1, buffer, err1) = read(&Vec::new(), "(+ 1");
    assert!(forms1.is_empty());
    assert!(err1.is_none());
    assert!(!buffer.is_empty());
    let (forms2, buffer2, err2) = read(&buffer, " 2)");
    assert!(err2.is_none());
    assert!(buffer2.is_empty());
    let whole = parse_forms("(+ 1 2)");
    assert_eq!(forms2, whole);
}

#[test]
fn render_parse_round_trip() {
    let forms = parse_forms("(+ 1 [2 'x] \"hi\" nil #t)");
    assert_eq!(forms.len(), 1);
    let text = render(&forms[0]);
    let again = parse_forms(&text);
    assert_eq!(forms, again);
}

#[test]
fn render_negative_int_round_trip() {
    let forms = parse_forms("(-5 -0)");
    let text = render(&forms[0]);
    let again = parse_forms(&text);
    assert_eq!(forms, again);
}

#[test]
fn float_render_reparses_to_same_value() {
    for v in [1.5f64, 3.0f64, -2.0f64, 0.5f64] {
        let bits = v.to_bits();
        let text = render(&Expr::Atom(Atom::Flt(bits)));
        let again = parse_forms(&text);
        assert_eq!(again, vec![Expr::Atom(Atom::Flt(bits))], "text was {:?}", text);
    }
}

#[test]
fn program_value_is_last_form() {
    assert_eq!(run("(+ 1 1) (+ 2 2)"), Ok(Expr::Atom(Atom::Int(4))));
    assert_eq!(run(""), Ok(Expr::Atom(Atom::Nil)));
}

#[test]
fn print_yields_nil() {
    assert_eq!(run("(print 5)"), Ok(Expr::Atom(Atom::Nil)));
}

#[test]
fn empty_application_is_nil() {
    assert_eq!(run("()"), Ok(Expr::Atom(Atom::Nil)));
}

#[test]
fn error_messages_name_the_kind() {
    assert_eq!(Error::DivisionByZero.message(), "division by zero");
    assert_eq!(Error::TypeMismatch.message(), "type mismatch");
    assert_eq!(Error::ParseError { position: 4 }.message(), "malformed token sequence");
    assert_eq!(
        Error::UnboundSymbol { name: Symbol("x".to_owned()) }.message(),
        "unbound symbol"
    );
}

#[test]
fn error_descriptions_carry_the_offender() {
    assert_eq!(
        Error::LexError { position: 3, unexpected: '@' }.describe(),
        "unexpected character @ at position 3"
    );
    assert_eq!(
        Error::UnboundSymbol { name: Symbol("foo".to_owned()) }.describe(),
        "unbound symbol: foo"
    );
    assert_eq!(
        Error::NotCallable { value: Box::new(Expr::Atom(Atom::Int(1))) }.describe(),
        "expected function call, found: 1"
    );
    assert_eq!(
        Error::ArityMismatch { expected: 2, got: 1 }.describe(),
        "wrong number of arguments: expected 2, got 1"
    );
    assert_eq!(Error::DivisionByZero.describe(), "division by zero");
}

#[test]
fn greater_eq_mirrors_less_eq_on_samples() {
    for (x, y) in [("2", "3"), ("2.5", "2.5"), ("4", "1.5"), ("\"a\"", "\"b\"")] {
        let ge = run(&format!("(>= {} {})", x, y));
        let le = run(&format!("(<= {} {})", y, x));
        assert_eq!(ge, le);
    }
}

#[test]
fn atom_accessors() {
    let a = Atom::Int(7);
    assert!(a.is_int());
    assert!(!a.is_flt());
    assert_eq!(a.int_val(), Some(7));
    assert_eq!(Atom::Bool(true).boolean(), Some(true));
    assert_eq!(Atom::Str("s".to_owned()).str(), Some("s"));
    assert_eq!(Atom::Flt(1.0f64.to_bits()).flt(), Some(1.0f64.to_bits()));
    let e = Expr::Atom(Atom::Nil);
    assert!(e.atom().is_some());
    assert!(e.list().is_none());
    assert!(e.quote().is_none());
    assert!(e.func().is_none());
}

#[test]
fn negative_literal_in_sum() {
    assert_eq!(run("(+ -3 4)"), Ok(Expr::Atom(Atom::Int(1))));
}

#[test]
fn lexed_literals() {
    let (tokens, err) = lex("#t 12 \"hi\" sym");
    assert!(err.is_none());
    assert_eq!(
        tokens,
        vec![
            Token::Literal(Literal::Bool(true)),
            Token::Literal(Literal::Int(12)),
            Token::Literal(Literal::Str("hi".to_owned())),
            Token::Symbol("sym".to_owned()),
        ]
    );
}
