use vstd::prelude::*;

use crate::ast::Ast;
use crate::ast::Atom;
use crate::ast::Expr;
use crate::ast::List;
use crate::ast::Quote;
use crate::ast::Symbol;
use crate::ast::Vector;
use crate::ast::expr_view;
use crate::ast::exprs_view;
use crate::ast::lemma_exprs_view;
use crate::error::Error;
use crate::lexer::lex;
use crate::lexer::spec_lex_from;
use crate::token::Literal;
use crate::token::Tok;
use crate::token::Token;
use crate::token::toks_view;
use crate::token::lemma_toks_view;
use crate::token::tok_view;

verus! {

broadcast use vstd::std_specs::vec::axiom_spec_len, lemma_toks_view;

/// How far parsing one form got: a form and the position after it, a run
/// out of tokens mid-form, or a token that cannot stand where it was found.
pub ghost enum Pstep {
    Done(Ast, int),
    More,
    Bad(int),
}

/// Parsing a row of elements up to a closing bracket: the elements and the
/// position after the closer, or one of the two failure ways.
pub ghost enum Prow {
    Done(Seq<Ast>, int),
    More,
    Bad(int),
}

/// One form, starting at token i. A literal or symbol stands alone; the
/// symbol nil is the Nil atom; a quote mark wraps the form after it; a
/// bracket opens a row of elements; a closer with no open form is refused.
pub open spec fn spec_parse_expr(ts: Seq<Tok>, i: int) -> Pstep
    decreases ts.len() - i, 1int,
{
    if i < 0 || i >= ts.len() {
        Pstep::More
    } else {
        match ts[i] {
            Tok::Bool(b) => Pstep::Done(Ast::Bool(b), i + 1),
            Tok::Int(v) => Pstep::Done(Ast::Int(v), i + 1),
            Tok::Flt(bits) => Pstep::Done(Ast::Flt(bits), i + 1),
            Tok::Str(s) => Pstep::Done(Ast::Str(s), i + 1),
            Tok::Sym(s) => Pstep::Done(
                if s == "nil"@ {
                    Ast::Nil
                } else {
                    Ast::Sym(s)
                },
                i + 1,
            ),
            Tok::Quote => match spec_parse_expr(ts, i + 1) {
                Pstep::Done(a, n) => Pstep::Done(Ast::Qt(Box::new(a)), n),
                Pstep::More => Pstep::More,
                Pstep::Bad(p) => Pstep::Bad(p),
            },
            Tok::LParen => match spec_parse_row(ts, i + 1, false) {
                Prow::Done(elems, n) => Pstep::Done(Ast::Lst(elems), n),
                Prow::More => Pstep::More,
                Prow::Bad(p) => Pstep::Bad(p),
            },
            Tok::LBracket => match spec_parse_row(ts, i + 1, true) {
                Prow::Done(elems, n) => Pstep::Done(Ast::Vtr(elems), n),
                Prow::More => Pstep::More,
                Prow::Bad(p) => Pstep::Bad(p),
            },
            Tok::RParen => Pstep::Bad(i),
            Tok::RBracket => Pstep::Bad(i),
        }
    }
}

/// The elements before the matching closer, from position j on. The
/// position guard in the recursion is never false: parsing one form always
/// moves forward, as the accompanying lemma shows.
pub open spec fn spec_parse_row(ts: Seq<Tok>, j: int, bracket: bool) -> Prow
    decreases ts.len() - j, 2int,
{
    if j < 0 || j >= ts.len() {
        Prow::More
    } else if (bracket && ts[j] is RBracket) || (!bracket && ts[j] is RParen) {
        Prow::Done(Seq::empty(), j + 1)
    } else {
        match spec_parse_expr(ts, j) {
            Pstep::Done(a, n) => if j < n <= ts.len() {
                match spec_parse_row(ts, n, bracket) {
                    Prow::Done(rest, m) => Prow::Done(seq![a] + rest, m),
                    Prow::More => Prow::More,
                    Prow::Bad(p) => Prow::Bad(p),
                }
            } else {
                Prow::More
            },
            Pstep::More => Prow::More,
            Pstep::Bad(p) => Prow::Bad(p),
        }
    }
}

/// Parsing one form consumes at least one token and stays in the text.
pub proof fn lemma_parse_expr_advances(ts: Seq<Tok>, i: int)
    ensures
        match spec_parse_expr(ts, i) {
            Pstep::Done(a, n) => i < n <= ts.len(),
            _ => true,
        },
    decreases ts.len() - i, 1int,
{
    if 0 <= i < ts.len() {
        match ts[i] {
            Tok::Quote => {
                lemma_parse_expr_advances(ts, i + 1);
            },
            Tok::LParen => {
                lemma_parse_row_advances(ts, i + 1, false);
            },
            Tok::LBracket => {
                lemma_parse_row_advances(ts, i + 1, true);
            },
            _ => {},
        }
    }
}

/// Parsing a row of elements ends past where it began.
pub proof fn lemma_parse_row_advances(ts: Seq<Tok>, j: int, bracket: bool)
    ensures
        match spec_parse_row(ts, j, bracket) {
            Prow::Done(elems, m) => j < m <= ts.len(),
            _ => true,
        },
    decreases ts.len() - j, 2int,
{
    if 0 <= j < ts.len() {
        if (bracket && ts[j] is RBracket) || (!bracket && ts[j] is RParen) {
        } else {
            lemma_parse_expr_advances(ts, j);
            match spec_parse_expr(ts, j) {
                Pstep::Done(a, n) => {
                    if j < n <= ts.len() {
                        lemma_parse_row_advances(ts, n, bracket);
                    }
                },
                _ => {},
            }
        }
    }
}

/// How far parsing one form got, in executable form.
pub enum ParseStep {
    Done(Expr, usize),
    More,
    Bad(usize),
}

/// Parse the form at token i.
fn parse_expr(ts: &Vec<Token>, i: usize) -> (r: ParseStep)
    requires
        i <= ts@.len(),
    ensures
        match r {
            ParseStep::Done(e, n) => spec_parse_expr(toks_view(ts@), i as int) == Pstep::Done(
                expr_view(e),
                n as int,
            ) && i < n <= ts@.len(),
            ParseStep::More => spec_parse_expr(toks_view(ts@), i as int) is More,
            ParseStep::Bad(p) => spec_parse_expr(toks_view(ts@), i as int) == Pstep::Bad(
                p as int,
            ),
        },
    decreases ts@.len() - i, 1int,
{
    let ghost tv = toks_view(ts@);
    if i >= ts.len() {
        return ParseStep::More;
    }
    proof {
        assert(tv[i as int] == ts@[i as int]@);
    }
    match &ts[i] {
        Token::Literal(Literal::Bool(b)) => ParseStep::Done(Expr::Atom(Atom::Bool(*b)), i + 1),
        Token::Literal(Literal::Int(v)) => ParseStep::Done(Expr::Atom(Atom::Int(*v)), i + 1),
        Token::Literal(Literal::Flt(bits)) => ParseStep::Done(
            Expr::Atom(Atom::Flt(*bits)),
            i + 1,
        ),
        Token::Literal(Literal::Str(s)) => ParseStep::Done(
            Expr::Atom(Atom::Str(s.clone())),
            i + 1,
        ),
        Token::Symbol(s) => {
            let nil_text: String = "nil".to_owned();
            if *s == nil_text {
                proof {
                    reveal_strlit("nil");
                }
                ParseStep::Done(Expr::Atom(Atom::Nil), i + 1)
            } else {
                proof {
                    reveal_strlit("nil");
                }
                ParseStep::Done(Expr::Atom(Atom::Sym(Symbol(s.clone()))), i + 1)
            }
        },
        Token::Quote => {
            match parse_expr(ts, i + 1) {
                ParseStep::Done(e, n) => ParseStep::Done(
                    Expr::Quote(Quote(Box::new(e))),
                    n,
                ),
                ParseStep::More => ParseStep::More,
                ParseStep::Bad(p) => ParseStep::Bad(p),
            }
        },
        Token::LParen => {
            match parse_row(ts, i + 1, false) {
                RowStep::Done(elems, n) => {
                    let e = Expr::List(List(elems));
                    ParseStep::Done(e, n)
                },
                RowStep::More => ParseStep::More,
                RowStep::Bad(p) => ParseStep::Bad(p),
            }
        },
        Token::LBracket => {
            match parse_row(ts, i + 1, true) {
                RowStep::Done(elems, n) => {
                    let e = Expr::Vector(Vector(elems));
                    ParseStep::Done(e, n)
                },
                RowStep::More => ParseStep::More,
                RowStep::Bad(p) => ParseStep::Bad(p),
            }
        },
        Token::RParen => ParseStep::Bad(i),
        Token::RBracket => ParseStep::Bad(i),
    }
}

/// How far parsing a row of elements got, in executable form.
pub enum RowStep {
    Done(Vec<Expr>, usize),
    More,
    Bad(usize),
}

/// Parse elements up to the matching closer, starting at j.
fn parse_row(ts: &Vec<Token>, j: usize, bracket: bool) -> (r: RowStep)
    requires
        j <= ts@.len(),
    ensures
        match r {
            RowStep::Done(elems, m) => spec_parse_row(toks_view(ts@), j as int, bracket)
                == Prow::Done(exprs_view(elems@), m as int) && j < m <= ts@.len(),
            RowStep::More => spec_parse_row(toks_view(ts@), j as int, bracket) is More,
            RowStep::Bad(p) => spec_parse_row(toks_view(ts@), j as int, bracket) == Prow::Bad(
                p as int,
            ),
        },
    decreases ts@.len() - j, 2int,
{
    let ghost tv = toks_view(ts@);
    let mut elems: Vec<Expr> = Vec::new();
    let mut cur = j;
    loop
        invariant
            j <= cur <= ts@.len(),
            tv == toks_view(ts@),
            tv.len() == ts@.len(),
            forall|k: int| 0 <= k < ts@.len() ==> tv[k] == ts@[k]@,
            spec_parse_row(tv, j as int, bracket) == row_join(
                spec_parse_row(tv, cur as int, bracket),
                exprs_view(elems@),
            ),
        decreases ts@.len() - cur, 1int,
    {
        if cur >= ts.len() {
            return RowStep::More;
        }
        proof {
            assert(tv[cur as int] == ts@[cur as int]@);
        }
        let at_closer = match &ts[cur] {
            Token::RBracket => bracket,
            Token::RParen => !bracket,
            _ => false,
        };
        if at_closer {
            proof {
                lemma_exprs_view(elems@);
                assert(exprs_view(elems@) + Seq::<Ast>::empty() =~= exprs_view(elems@));
            }
            return RowStep::Done(elems, cur + 1);
        }
        match parse_expr(ts, cur) {
            ParseStep::Done(e, n) => {
                let ghost olde = elems@;
                let ghost before = exprs_view(elems@);
                proof {
                    lemma_exprs_view(olde);
                }
                elems.push(e);
                proof {
                    lemma_exprs_view(elems@);
                    assert(exprs_view(elems@) =~= before + seq![expr_view(e)]);
                    lemma_row_join_shift(tv, n as int, bracket, before, expr_view(e));
                }
                cur = n;
            },
            ParseStep::More => {
                return RowStep::More;
            },
            ParseStep::Bad(p) => {
                return RowStep::Bad(p);
            },
        }
    }
}

/// A row outcome with already parsed elements set in front of it.
pub open spec fn row_join(r: Prow, front: Seq<Ast>) -> Prow {
    match r {
        Prow::Done(rest, m) => Prow::Done(front + rest, m),
        Prow::More => Prow::More,
        Prow::Bad(p) => Prow::Bad(p),
    }
}

/// Setting one more element in front commutes with one parsing step.
proof fn lemma_row_join_shift(ts: Seq<Tok>, n: int, bracket: bool, front: Seq<Ast>, a: Ast)
    ensures
        row_join(row_join(spec_parse_row(ts, n, bracket), seq![a]), front) == row_join(
            spec_parse_row(ts, n, bracket),
            front + seq![a],
        ),
{
    match spec_parse_row(ts, n, bracket) {
        Prow::Done(rest, m) => {
            assert(front + (seq![a] + rest) =~= (front + seq![a]) + rest);
        },
        _ => {},
    }
}

/// What parsing a whole token row yields: the forms before the leftover,
/// where the leftover begins, and the error that stopped parsing if one did.
pub open spec fn spec_parse_all(ts: Seq<Tok>, i: int) -> (Seq<Ast>, int, Option<Error>)
    decreases ts.len() - i, 3int,
{
    if i < 0 || i >= ts.len() {
        (Seq::empty(), if i < 0 {
            0
        } else {
            i
        }, None)
    } else {
        match spec_parse_expr(ts, i) {
            Pstep::Done(a, n) => if i < n <= ts.len() {
                let (rest, ri, e) = spec_parse_all(ts, n);
                (seq![a] + rest, ri, e)
            } else {
                (Seq::empty(), i, None)
            },
            Pstep::More => (Seq::empty(), i, None),
            Pstep::Bad(p) => (Seq::empty(), i, Some(Error::ParseError { position: p as usize })),
        }
    }
}

/// The forms of a token row, with whatever could not be finished.
///
/// Parsing reads complete forms from the front of the row. When the tokens
/// run out in the middle of a form, the forms read so far come back together
/// with the unconsumed trailing tokens, so the caller can append more tokens
/// and try again. When a token cannot stand where it was found, the forms
/// already read come back beside the error.
pub fn parser(tokens: &Vec<Token>) -> (r: (Vec<Expr>, Vec<Token>, Option<Error>))
    ensures
        ({
            let (forms, ri, err) = spec_parse_all(toks_view(tokens@), 0);
            &&& exprs_view(r.0@) == forms
            &&& toks_view(r.1@) == toks_view(tokens@).subrange(ri, tokens@.len() as int)
            &&& r.2 == err
        }),
{
    let (forms, i, outcome) = parse_forms(tokens);
    let mut rest: Vec<Token> = Vec::new();
    let mut k = i;
    proof {
        assert(toks_view(Seq::<Token>::empty()) =~= Seq::<Tok>::empty());
    }
    while k < tokens.len()
        invariant
            i <= k <= tokens@.len(),
            toks_view(rest@) == toks_view(tokens@).subrange(i as int, k as int),
        decreases tokens@.len() - k,
    {
        let t = tokens[k].duplicate();
        rest.push(t);
        k = k + 1;
        proof {
            assert(toks_view(rest@) =~= toks_view(tokens@).subrange(i as int, k as int));
        }
    }
    (forms, rest, outcome)
}

/// The complete forms at the front of the row, the position where the
/// leftover begins, and the error that stopped parsing if one did.
fn parse_forms(tokens: &Vec<Token>) -> (r: (Vec<Expr>, usize, Option<Error>))
    ensures
        ({
            let (forms, ri, err) = spec_parse_all(toks_view(tokens@), 0);
            &&& exprs_view(r.0@) == forms
            &&& r.1 as int == ri
            &&& r.1 <= tokens@.len()
            &&& r.2 == err
        }),
{
    let ghost tv = toks_view(tokens@);
    let mut forms: Vec<Expr> = Vec::new();
    let mut i: usize = 0;
    proof {
        assert(exprs_view(Seq::<Expr>::empty()) =~= Seq::<Ast>::empty());
    }
    while i < tokens.len()
        invariant
            i <= tokens@.len(),
            tv == toks_view(tokens@),
            tv.len() == tokens@.len(),
            forall|k: int| 0 <= k < tokens@.len() ==> tv[k] == tokens@[k]@,
            spec_parse_all(tv, 0) == all_join(
                spec_parse_all(tv, i as int),
                exprs_view(forms@),
            ),
        decreases tokens@.len() - i,
    {
        match parse_expr(tokens, i) {
            ParseStep::Done(e, n) => {
                let ghost oldf = forms@;
                let ghost before = exprs_view(forms@);
                proof {
                    lemma_exprs_view(oldf);
                }
                forms.push(e);
                proof {
                    lemma_exprs_view(forms@);
                    assert(exprs_view(forms@) =~= before + seq![expr_view(e)]);
                    lemma_all_join_shift(tv, n as int, before, expr_view(e));
                }
                i = n;
            },
            ParseStep::More => {
                proof {
                    lemma_exprs_view(forms@);
                    assert(exprs_view(forms@) + Seq::<Ast>::empty() =~= exprs_view(forms@));
                }
                return (forms, i, None);
            },
            ParseStep::Bad(p) => {
                proof {
                    lemma_exprs_view(forms@);
                    assert(exprs_view(forms@) + Seq::<Ast>::empty() =~= exprs_view(forms@));
                }
                return (forms, i, Some(Error::ParseError { position: p }));
            },
        }
    }
    proof {
        lemma_exprs_view(forms@);
        assert(exprs_view(forms@) + Seq::<Ast>::empty() =~= exprs_view(forms@));
    }
    (forms, i, None)
}

/// A whole-row outcome with already parsed forms set in front of it.
pub open spec fn all_join(r: (Seq<Ast>, int, Option<Error>), front: Seq<Ast>) -> (
    Seq<Ast>,
    int,
    Option<Error>,
) {
    (front + r.0, r.1, r.2)
}

/// Setting one more form in front commutes with one parsing step.
proof fn lemma_all_join_shift(ts: Seq<Tok>, n: int, front: Seq<Ast>, a: Ast)
    ensures
        all_join(all_join(spec_parse_all(ts, n), seq![a]), front) == all_join(
            spec_parse_all(ts, n),
            front + seq![a],
        ),
{
    let r = spec_parse_all(ts, n);
    assert(front + (seq![a] + r.0) =~= (front + seq![a]) + r.0);
}

/// What one whole reading step yields: the buffered tokens followed by the
/// freshly lexed ones, parsed as far as they go.
pub open spec fn spec_read(buffered: Seq<Tok>, text: Seq<char>) -> (
    Seq<Ast>,
    Seq<Tok>,
    Option<Error>,
) {
    let (fresh, lex_err) = spec_lex_from(text, 0);
    if lex_err is Some {
        (Seq::empty(), buffered, lex_err)
    } else {
        let ts = buffered + fresh;
        let (forms, ri, err) = spec_parse_all(ts, 0);
        (forms, ts.subrange(ri, ts.len() as int), err)
    }
}

/// One reading step of an interactive session: lex the new text, set the
/// tokens carried over from earlier steps in front, and parse as far as the
/// tokens go. The unconsumed tokens come back for the next step's carry.
/// A lexing error leaves the carried tokens untouched and reports it.
pub fn read(buffered: &Vec<Token>, text: &str) -> (r: (Vec<Expr>, Vec<Token>, Option<Error>))
    ensures
        ({
            let (forms, rest, err) = spec_read(toks_view(buffered@), text@);
            &&& exprs_view(r.0@) == forms
            &&& toks_view(r.1@) == rest
            &&& r.2 == err
        }),
{
    let (fresh, lex_err) = lex(text);
    if let Some(e) = lex_err {
        let mut keep: Vec<Token> = Vec::new();
        let mut k: usize = 0;
        while k < buffered.len()
            invariant
                k <= buffered@.len(),
                toks_view(keep@) == toks_view(buffered@).subrange(0, k as int),
            decreases buffered@.len() - k,
        {
            let t = buffered[k].duplicate();
            keep.push(t);
            k = k + 1;
            proof {
                assert(toks_view(keep@) =~= toks_view(buffered@).subrange(0, k as int));
            }
        }
        proof {
            assert(toks_view(Seq::<Token>::empty()) =~= Seq::<Tok>::empty());
            assert(toks_view(buffered@).subrange(0, buffered@.len() as int) =~= toks_view(
                buffered@,
            ));
            assert(exprs_view(Seq::<Expr>::empty()) =~= Seq::<Ast>::empty());
        }
        return (Vec::new(), keep, Some(e));
    }
    let mut all: Vec<Token> = Vec::new();
    let mut k: usize = 0;
    while k < buffered.len()
        invariant
            k <= buffered@.len(),
            toks_view(all@) == toks_view(buffered@).subrange(0, k as int),
        decreases buffered@.len() - k,
    {
        let t = buffered[k].duplicate();
        all.push(t);
        k = k + 1;
        proof {
            assert(toks_view(all@) =~= toks_view(buffered@).subrange(0, k as int));
        }
    }
    let mut fresh_moved = fresh;
    all.append(&mut fresh_moved);
    proof {
        assert(toks_view(buffered@).subrange(0, buffered@.len() as int) =~= toks_view(
            buffered@,
        ));
        assert(toks_view(all@) =~= toks_view(buffered@) + spec_lex_from(text@, 0).0);
        assert(toks_view(Seq::<Token>::empty()) =~= Seq::<Tok>::empty());
    }
    parser(&all)
}

} // verus!
