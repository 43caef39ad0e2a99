use vstd::prelude::*;

use crate::ast::Ast;
use crate::ast::Expr;
use crate::ast::Symbol;
use crate::ast::expr_view;
use crate::render::nat_text;
use crate::render::push_nat;
use crate::render::push_str;
use crate::render::render_chars;
use crate::render::spec_render;
use crate::text::chars_to_string;

verus! {

/// Everything that can go wrong while lexing, parsing or evaluating.
/// Errors are ordinary values; nothing in the library panics.
#[derive(Debug, PartialEq)]
pub enum Error {
    /// A character that no lexical rule accepts, at its character offset.
    LexError { position: usize, unexpected: char },
    /// A token that cannot stand where it was found, at its token offset.
    ParseError { position: usize },
    /// A head-position symbol with no binding in the environment.
    UnboundSymbol { name: Symbol },
    /// A head position that resolved to something other than a function.
    NotCallable { value: Box<Expr> },
    /// An operation applied to the wrong number of arguments.
    ArityMismatch { expected: usize, got: usize },
    /// An operation applied to an atom kind it is not defined on.
    TypeMismatch,
    /// Integer division with a zero divisor.
    DivisionByZero,
}

/// The mathematical model of an error.
pub ghost enum ErrView {
    Lex { position: int, unexpected: char },
    Parse { position: int },
    Unbound { name: Seq<char> },
    NotCallable { value: Ast },
    Arity { expected: int, got: int },
    Mistyped,
    DivZero,
}

pub open spec fn err_view(e: Error) -> ErrView {
    match e {
        Error::LexError { position, unexpected } => (ErrView::Lex {
            position: position as int,
            unexpected,
        }),
        Error::ParseError { position } => (ErrView::Parse { position: position as int }),
        Error::UnboundSymbol { name } => (ErrView::Unbound { name: name@ }),
        Error::NotCallable { value } => (ErrView::NotCallable { value: expr_view(*value) }),
        Error::ArityMismatch { expected, got } => (ErrView::Arity {
            expected: expected as int,
            got: got as int,
        }),
        Error::TypeMismatch => ErrView::Mistyped,
        Error::DivisionByZero => ErrView::DivZero,
    }
}

/// The fixed text naming an error's kind.
pub open spec fn kind_text(e: ErrView) -> Seq<char> {
    match e {
        ErrView::Lex { position, unexpected } => "unexpected character"@,
        ErrView::Parse { position } => "malformed token sequence"@,
        ErrView::Unbound { name } => "unbound symbol"@,
        ErrView::NotCallable { value } => "expected function call"@,
        ErrView::Arity { expected, got } => "wrong number of arguments"@,
        ErrView::Mistyped => "type mismatch"@,
        ErrView::DivZero => "division by zero"@,
    }
}

impl Error {
    /// The short name of the error's kind, one fixed text per kind.
    pub fn message(&self) -> (r: &'static str)
        ensures
            r@ == kind_text(err_view(*self)),
            r@.len() > 0,
    {
        let m: &'static str = match self {
            Error::LexError { .. } => "unexpected character",
            Error::ParseError { .. } => "malformed token sequence",
            Error::UnboundSymbol { .. } => "unbound symbol",
            Error::NotCallable { .. } => "expected function call",
            Error::ArityMismatch { .. } => "wrong number of arguments",
            Error::TypeMismatch => "type mismatch",
            Error::DivisionByZero => "division by zero",
        };
        proof {
            reveal_strlit("unexpected character");
            reveal_strlit("malformed token sequence");
            reveal_strlit("unbound symbol");
            reveal_strlit("expected function call");
            reveal_strlit("wrong number of arguments");
            reveal_strlit("type mismatch");
            reveal_strlit("division by zero");
        }
        m
    }

    /// The message with the offending character, position or value
    /// spelled into it.
    pub fn describe(&self) -> (r: String)
        ensures
            r@ == err_text(err_view(*self)),
    {
        let mut out: Vec<char> = Vec::new();
        match self {
            Error::LexError { position, unexpected } => {
                push_str("unexpected character ", &mut out);
                out.push(*unexpected);
                push_str(" at position ", &mut out);
                push_nat(*position as u64, &mut out);
                proof {
                    assert(out@ =~= err_text(err_view(*self)));
                }
            },
            Error::ParseError { position } => {
                push_str("malformed token sequence at position ", &mut out);
                push_nat(*position as u64, &mut out);
                proof {
                    assert(out@ =~= err_text(err_view(*self)));
                }
            },
            Error::UnboundSymbol { name } => {
                push_str("unbound symbol: ", &mut out);
                push_str(name.0.as_str(), &mut out);
                proof {
                    assert(out@ =~= err_text(err_view(*self)));
                }
            },
            Error::NotCallable { value } => {
                push_str("expected function call, found: ", &mut out);
                render_chars(&**value, &mut out);
                proof {
                    assert(out@ =~= err_text(err_view(*self)));
                }
            },
            Error::ArityMismatch { expected, got } => {
                push_str("wrong number of arguments: expected ", &mut out);
                push_nat(*expected as u64, &mut out);
                push_str(", got ", &mut out);
                push_nat(*got as u64, &mut out);
                proof {
                    assert(out@ =~= err_text(err_view(*self)));
                }
            },
            Error::TypeMismatch => {
                push_str("type mismatch", &mut out);
            },
            Error::DivisionByZero => {
                push_str("division by zero", &mut out);
            },
        }
        chars_to_string(&out)
    }
}

/// The full rendered message: the kind, then the offending character,
/// position or value where the kind carries one.
pub open spec fn err_text(e: ErrView) -> Seq<char> {
    match e {
        ErrView::Lex { position, unexpected } => "unexpected character "@ + seq![unexpected]
            + " at position "@ + nat_text(position),
        ErrView::Parse { position } => "malformed token sequence at position "@ + nat_text(
            position,
        ),
        ErrView::Unbound { name } => "unbound symbol: "@ + name,
        ErrView::NotCallable { value } => "expected function call, found: "@ + spec_render(
            value,
        ),
        ErrView::Arity { expected, got } => "wrong number of arguments: expected "@ + nat_text(
            expected,
        ) + ", got "@ + nat_text(got),
        ErrView::Mistyped => "type mismatch"@,
        ErrView::DivZero => "division by zero"@,
    }
}

} // verus!
