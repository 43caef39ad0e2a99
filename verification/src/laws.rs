use vstd::prelude::*;

use crate::ast::Ast;
use crate::env::Env;
use crate::error::ErrView;
use crate::eval::spec_eval;
use crate::ops::all_atomic;
use crate::ops::all_num;
use crate::ops::any_flt;
use crate::ops::flt_fold;
use crate::ops::int_fold;
use crate::ops::spec_add;
use crate::ops::spec_div;
use crate::ops::spec_greater;
use crate::ops::spec_greater_eq;
use crate::ops::spec_less;
use crate::ops::spec_less_eq;
use crate::ops::spec_mul;
use crate::ops::spec_sub;
use crate::ops::zero_in_tail;
use crate::ast::Builtin;
use crate::lexer::digits_accum;
use crate::lexer::lemma_digits_end_full;
use crate::lexer::spec_lex_from;
use crate::lexer::spec_num;
use crate::parser::Prow;
use crate::parser::Pstep;
use crate::parser::spec_parse_all;
use crate::parser::spec_parse_expr;
use crate::parser::spec_parse_row;
use crate::render::digit_char;
use crate::render::spec_render;
use crate::render::int_text;
use crate::render::nat_text;
use crate::text::is_digit;
use crate::token::Tok;
use crate::error::Error;

verus! {

broadcast use vstd::seq::axiom_seq_index_decreases, vstd::seq::axiom_seq_subrange_decreases;

/// Addition of two integer atoms does not care about their order.
pub proof fn lemma_add_commutes(a: i64, b: i64)
    ensures
        spec_add(seq![Ast::Int(a), Ast::Int(b)]) == spec_add(seq![Ast::Int(b), Ast::Int(a)]),
{
    let s1 = seq![Ast::Int(a), Ast::Int(b)];
    let s2 = seq![Ast::Int(b), Ast::Int(a)];
    assert(!any_flt(s1) && !any_flt(s2));
    assert(int_fold(Builtin::Add, s1, 1) == a);
    assert(int_fold(Builtin::Add, s2, 1) == b);
    assert(int_fold(Builtin::Add, s1, 2) == a.wrapping_add(b));
    assert(int_fold(Builtin::Add, s2, 2) == b.wrapping_add(a));
}

/// Multiplication of two integer atoms does not care about their order.
pub proof fn lemma_mul_commutes(a: i64, b: i64)
    ensures
        spec_mul(seq![Ast::Int(a), Ast::Int(b)]) == spec_mul(seq![Ast::Int(b), Ast::Int(a)]),
{
    let s1 = seq![Ast::Int(a), Ast::Int(b)];
    let s2 = seq![Ast::Int(b), Ast::Int(a)];
    assert(!any_flt(s1) && !any_flt(s2));
    assert(int_fold(Builtin::Mul, s1, 1) == a);
    assert(int_fold(Builtin::Mul, s2, 1) == b);
    assert(int_fold(Builtin::Mul, s1, 2) == a.wrapping_mul(b));
    assert(int_fold(Builtin::Mul, s2, 2) == b.wrapping_mul(a));
    assert(a.wrapping_mul(b) == b.wrapping_mul(a)) by {
        vstd::arithmetic::mul::lemma_mul_is_commutative(a as int, b as int);
    }
}

/// Promotion: over numeric arguments with at least one float atom among
/// them, each arithmetic operation yields a float atom — and never an error.
pub proof fn lemma_float_promotion(s: Seq<Ast>)
    requires
        all_atomic(s),
        all_num(s),
        any_flt(s),
        s.len() >= 1,
    ensures
        spec_add(s) == Ok::<Ast, ErrView>(Ast::Flt(flt_fold(Builtin::Add, s, s.len() as int))),
        spec_mul(s) == Ok::<Ast, ErrView>(Ast::Flt(flt_fold(Builtin::Mul, s, s.len() as int))),
        spec_sub(s) is Ok && spec_sub(s)->Ok_0 is Flt,
        s.len() >= 2 ==> spec_div(s) == Ok::<Ast, ErrView>(
            Ast::Flt(flt_fold(Builtin::Div, s, s.len() as int)),
        ),
{
    if s.len() == 1 {
        assert(s[0] is Flt);
    }
}

/// Integer division with a zero anywhere among the divisors is the explicit
/// division-by-zero error; float division never errors.
pub proof fn lemma_div_by_zero(s: Seq<Ast>)
    requires
        all_atomic(s),
        all_num(s),
        s.len() >= 2,
    ensures
        !any_flt(s) && zero_in_tail(s) ==> spec_div(s) == Err::<Ast, ErrView>(ErrView::DivZero),
        any_flt(s) ==> spec_div(s) is Ok,
{
}

/// Subtraction with a single integer argument yields its additive inverse.
pub proof fn lemma_sub_negates(x: i64)
    requires
        x != i64::MIN,
    ensures
        spec_sub(seq![Ast::Int(x)]) == Ok::<Ast, ErrView>(Ast::Int((0 - x as int) as i64)),
        spec_sub(seq![Ast::Int(x)])->Ok_0->Int_0 + x == 0,
{
    let s = seq![Ast::Int(x)];
    assert(!any_flt(s));
}

/// The strict comparisons mirror each other: asking whether a exceeds b is
/// asking whether b falls short of a, outcome for outcome.
pub proof fn lemma_greater_mirrors_less(a: Ast, b: Ast)
    ensures
        spec_greater(seq![a, b]) == spec_less(seq![b, a]),
{
    let s1 = seq![a, b];
    let s2 = seq![b, a];
    assert(s1[0] == a && s1[1] == b && s2[0] == b && s2[1] == a);
}

/// The two inclusive comparisons mirror each other: asking whether a is at
/// least b is asking whether b is at most a, outcome for outcome.
pub proof fn lemma_greater_eq_mirrors_less_eq(a: Ast, b: Ast)
    ensures
        spec_greater_eq(seq![a, b]) == spec_less_eq(seq![b, a]),
{
    let s1 = seq![a, b];
    let s2 = seq![b, a];
    assert(s1[0] == a && s1[1] == b && s2[0] == b && s2[1] == a);
}

/// Quoting suppresses evaluation: a quoted form evaluates to the wrapped
/// subtree itself, untouched, under every environment.
pub proof fn lemma_quote_suppresses(a: Ast, env: Seq<(Seq<char>, Ast)>)
    ensures
        spec_eval(Ast::Qt(Box::new(a)), env) == Ok::<Ast, ErrView>(a),
{
}

/// The forms that can come out of the reader: everything but a callable,
/// with no symbol spelled like the nil keyword.
pub open spec fn wf_form(a: Ast) -> bool
    decreases a,
{
    match a {
        Ast::Fun(name, op) => false,
        Ast::Sym(s) => s != "nil"@,
        Ast::Lst(elems) => wf_row(elems),
        Ast::Vtr(elems) => wf_row(elems),
        Ast::Qt(inner) => wf_form(*inner),
        _ => true,
    }
}

pub open spec fn wf_row(s: Seq<Ast>) -> bool
    decreases s,
{
    if s.len() == 0 {
        true
    } else {
        wf_form(s[0]) && wf_row(s.subrange(1, s.len() as int))
    }
}

/// The token spelling of a form: the tokens its printed text reads as.
pub open spec fn toks_of(a: Ast) -> Seq<Tok>
    decreases a,
{
    match a {
        Ast::Bool(b) => seq![Tok::Bool(b)],
        Ast::Int(v) => seq![Tok::Int(v)],
        Ast::Flt(bits) => seq![Tok::Flt(bits)],
        Ast::Str(s) => seq![Tok::Str(s)],
        Ast::Sym(s) => seq![Tok::Sym(s)],
        Ast::Nil => seq![Tok::Sym("nil"@)],
        Ast::Fun(name, op) => Seq::empty(),
        Ast::Lst(elems) => seq![Tok::LParen] + toks_of_row(elems) + seq![Tok::RParen],
        Ast::Vtr(elems) => seq![Tok::LBracket] + toks_of_row(elems) + seq![Tok::RBracket],
        Ast::Qt(inner) => seq![Tok::Quote] + toks_of(*inner),
    }
}

pub open spec fn toks_of_row(s: Seq<Ast>) -> Seq<Tok>
    decreases s,
{
    if s.len() == 0 {
        Seq::empty()
    } else {
        toks_of(s[0]) + toks_of_row(s.subrange(1, s.len() as int))
    }
}

/// A spelling is never empty and never begins with a closing bracket.
proof fn lemma_spelling_head(a: Ast)
    requires
        wf_form(a),
    ensures
        toks_of(a).len() >= 1,
        !(toks_of(a)[0] is RParen),
        !(toks_of(a)[0] is RBracket),
{
}

/// A slice of a matched slice matches its own part.
proof fn lemma_slice_of_slice(ts: Seq<Tok>, i: int, whole: Seq<Tok>, off: int, part: Seq<Tok>)
    requires
        0 <= i,
        i + whole.len() <= ts.len(),
        ts.subrange(i, i + whole.len() as int) == whole,
        0 <= off,
        off + part.len() <= whole.len(),
        whole.subrange(off, off + part.len() as int) == part,
    ensures
        ts.subrange(i + off, i + off + part.len() as int) == part,
{
    assert forall|k: int| 0 <= k < part.len() implies ts.subrange(
        i + off,
        i + off + part.len() as int,
    )[k] == part[k] by {
        assert(ts.subrange(i, i + whole.len() as int)[off + k] == whole[off + k]);
        assert(whole.subrange(off, off + part.len() as int)[k] == part[k]);
    }
    assert(ts.subrange(i + off, i + off + part.len() as int) =~= part);
}

/// Parsing from the start of a form's spelling yields the form and stops
/// right after it, whatever follows.
proof fn lemma_parse_spelling(ts: Seq<Tok>, i: int, a: Ast)
    requires
        wf_form(a),
        0 <= i,
        i + toks_of(a).len() <= ts.len(),
        ts.subrange(i, i + toks_of(a).len() as int) == toks_of(a),
    ensures
        spec_parse_expr(ts, i) == Pstep::Done(a, i + toks_of(a).len()),
    decreases a, 1int,
{
    lemma_spelling_head(a);
    let l = toks_of(a).len() as int;
    assert(ts[i] == toks_of(a)[0]);
    match a {
        Ast::Qt(inner) => {
            let li = toks_of(*inner).len() as int;
            assert(toks_of(a).subrange(1, 1 + li) =~= toks_of(*inner));
            lemma_slice_of_slice(ts, i, toks_of(a), 1, toks_of(*inner));
            lemma_parse_spelling(ts, i + 1, *inner);
        },
        Ast::Lst(elems) => {
            let lr = toks_of_row(elems).len() as int;
            assert(toks_of(a).subrange(1, 1 + lr) =~= toks_of_row(elems));
            lemma_slice_of_slice(ts, i, toks_of(a), 1, toks_of_row(elems));
            assert(ts.subrange(i, i + l)[1 + lr] == toks_of(a)[1 + lr]);
            assert(ts[i + 1 + lr] == toks_of(a)[1 + lr]);
            lemma_row_spelling(ts, i + 1, elems, false);
        },
        Ast::Vtr(elems) => {
            let lr = toks_of_row(elems).len() as int;
            assert(toks_of(a).subrange(1, 1 + lr) =~= toks_of_row(elems));
            lemma_slice_of_slice(ts, i, toks_of(a), 1, toks_of_row(elems));
            assert(ts.subrange(i, i + l)[1 + lr] == toks_of(a)[1 + lr]);
            assert(ts[i + 1 + lr] == toks_of(a)[1 + lr]);
            lemma_row_spelling(ts, i + 1, elems, true);
        },
        _ => {},
    }
}

/// Parsing a row from the start of its elements' spellings collects exactly
/// those elements and stops right after the closer.
proof fn lemma_row_spelling(ts: Seq<Tok>, j: int, elems: Seq<Ast>, bracket: bool)
    requires
        wf_row(elems),
        0 <= j,
        j + toks_of_row(elems).len() + 1 <= ts.len(),
        ts.subrange(j, j + toks_of_row(elems).len() as int) == toks_of_row(elems),
        ts[j + toks_of_row(elems).len() as int] == (if bracket {
            Tok::RBracket
        } else {
            Tok::RParen
        }),
    ensures
        spec_parse_row(ts, j, bracket) == Prow::Done(
            elems,
            j + toks_of_row(elems).len() + 1,
        ),
    decreases elems, 2int,
{
    if elems.len() == 0 {
        assert(spec_parse_row(ts, j, bracket) == Prow::Done(Seq::<Ast>::empty(), j + 1));
        assert(Seq::<Ast>::empty() =~= elems);
    } else {
        let a0 = elems[0];
        let rest = elems.subrange(1, elems.len() as int);
        let l0 = toks_of(a0).len() as int;
        let lr = toks_of_row(rest).len() as int;
        lemma_spelling_head(a0);
        assert(ts[j] == toks_of_row(elems)[0]);
        assert(toks_of_row(elems)[0] == toks_of(a0)[0]);
        assert(!(ts[j] is RParen) && !(ts[j] is RBracket));
        let whole = toks_of_row(elems);
        assert(whole.subrange(0, l0) =~= toks_of(a0));
        lemma_slice_of_slice(ts, j, whole, 0, toks_of(a0));
        lemma_parse_spelling(ts, j, a0);
        assert(whole.subrange(l0, l0 + lr) =~= toks_of_row(rest));
        lemma_slice_of_slice(ts, j, whole, l0, toks_of_row(rest));
        assert(ts[j + l0 + lr] == ts[j + whole.len() as int]);
        lemma_row_spelling(ts, j + l0, rest, bracket);
        assert(seq![a0] + rest =~= elems);
    }
}

/// Reading a well-formed form back from its own token spelling yields a
/// structurally equal form — the parsing half of print-and-read-again.
pub proof fn lemma_spelling_round_trip(a: Ast)
    requires
        wf_form(a),
    ensures
        spec_parse_all(toks_of(a), 0) == (seq![a], toks_of(a).len() as int, None::<
            crate::error::Error,
        >),
{
    let ts = toks_of(a);
    assert(ts.subrange(0, ts.len() as int) =~= ts);
    lemma_parse_spelling(ts, 0, a);
    lemma_spelling_head(a);
    assert(spec_parse_all(ts, ts.len() as int) == (
        Seq::<Ast>::empty(),
        ts.len() as int,
        None::<crate::error::Error>,
    ));
    assert(seq![a] + Seq::<Ast>::empty() =~= seq![a]);
}

/// Every character of a decimal rendering is a digit.
proof fn lemma_nat_text_digits(n: int)
    requires
        n >= 0,
    ensures
        nat_text(n).len() >= 1,
        forall|i: int| 0 <= i < nat_text(n).len() ==> is_digit(#[trigger] nat_text(n)[i]),
    decreases n,
{
    assert(0 <= n % 10 < 10);
    if n >= 10 {
        assert(n / 10 >= 0) by (nonlinear_arith)
            requires
                n >= 10,
        ;
        lemma_nat_text_digits(n / 10);
    }
}

/// The value a run of digit characters stands for, read from the right.
pub open spec fn digits_val(t: Seq<char>, a: int, b: int) -> int
    decreases b - a,
{
    if a >= b {
        0
    } else {
        digits_val(t, a, b - 1) * 10 + ((t[b - 1] as u32) as int - 48)
    }
}

proof fn lemma_digits_val_nonneg(t: Seq<char>, a: int, b: int)
    requires
        0 <= a <= b <= t.len(),
        forall|k: int| a <= k < b ==> is_digit(#[trigger] t[k]),
    ensures
        digits_val(t, a, b) >= 0,
    decreases b - a,
{
    if a < b {
        lemma_digits_val_nonneg(t, a, b - 1);
    }
}

/// The left fold may equally take the last digit off first.
proof fn lemma_accum_last(t: Seq<char>, a: int, b: int, acc: u64)
    requires
        0 <= a < b <= t.len(),
        forall|k: int| a <= k < b ==> is_digit(#[trigger] t[k]),
    ensures
        digits_accum(t, a, b, acc) == (match digits_accum(t, a, b - 1, acc) {
            Some(v) => if (v as int) * 10 + ((t[b - 1] as u32) as int - 48)
                <= 0x8000000000000000 {
                Some((((v as int) * 10 + ((t[b - 1] as u32) as int - 48))) as u64)
            } else {
                None::<u64>
            },
            None => None::<u64>,
        }),
    decreases b - a,
{
    let d = (t[a] as u32) as int - 48;
    if (acc as int) * 10 + d <= 0x8000000000000000 {
        let acc2 = (((acc as int) * 10 + d)) as u64;
        if a + 1 == b {
            assert(digits_accum(t, a + 1, b, acc2) == Some(acc2));
            assert(digits_accum(t, a, b - 1, acc) == Some(acc));
        } else {
            lemma_accum_last(t, a + 1, b, acc2);
            assert(digits_accum(t, a, b, acc) == digits_accum(t, a + 1, b, acc2));
            assert(digits_accum(t, a, b - 1, acc) == digits_accum(t, a + 1, b - 1, acc2));
        }
    } else {
        assert(digits_accum(t, a, b, acc) is None);
        if a + 1 == b {
            assert(digits_accum(t, a, b - 1, acc) == Some(acc));
        } else {
            assert(digits_accum(t, a, b - 1, acc) is None);
        }
    }
}

/// The fold yields exactly the digits' value whenever that value fits.
proof fn lemma_accum_value(t: Seq<char>, a: int, b: int)
    requires
        0 <= a <= b <= t.len(),
        forall|k: int| a <= k < b ==> is_digit(#[trigger] t[k]),
    ensures
        digits_accum(t, a, b, 0) == (if digits_val(t, a, b) <= 0x8000000000000000 {
            Some(digits_val(t, a, b) as u64)
        } else {
            None::<u64>
        }),
    decreases b - a,
{
    if a < b {
        lemma_accum_value(t, a, b - 1);
        lemma_accum_last(t, a, b, 0);
        lemma_digits_val_nonneg(t, a, b - 1);
    }
}

/// Reading the decimal rendering back gives the value rendered.
proof fn lemma_digits_val_of_text(t: Seq<char>, a: int, b: int, n: int)
    requires
        0 <= n,
        0 <= a <= b <= t.len(),
        t.subrange(a, b) == nat_text(n),
    ensures
        digits_val(t, a, b) == n,
    decreases n,
{
    lemma_nat_text_digits(n);
    assert(b - a == nat_text(n).len());
    if n < 10 {
        assert(t.subrange(a, b)[0] == nat_text(n)[0]);
        assert(t[a] == digit_char(n));
        assert(digits_val(t, a, a) == 0);
        assert(digits_val(t, a, b) == ((t[a] as u32) as int - 48));
    } else {
        assert(n / 10 >= 1 && n / 10 < n) by (nonlinear_arith)
            requires
                n >= 10,
        ;
        let head = nat_text(n / 10);
        assert(t.subrange(a, b)[b - a - 1] == nat_text(n)[b - a - 1]);
        assert(t[b - 1] == digit_char(n % 10));
        assert(t.subrange(a, b - 1) =~= head) by {
            assert forall|k: int| 0 <= k < head.len() implies t.subrange(a, b - 1)[k]
                == head[k] by {
                assert(t.subrange(a, b)[k] == nat_text(n)[k]);
                assert(nat_text(n)[k] == head[k]);
            }
        }
        lemma_digits_val_of_text(t, a, b - 1, n / 10);
        vstd::arithmetic::div_mod::lemma_fundamental_div_mod(n, 10);
    }
}

/// A rendered integer atom reads back as exactly its own token: the
/// lexing half of print-and-read-again, for the integer atoms.
pub proof fn lemma_int_text_relexes(v: i64)
    ensures
        spec_lex_from(int_text(v), 0) == (seq![Tok::Int(v)], None::<Error>),
{
    let t = int_text(v);
    let len = t.len() as int;
    if v >= 0 {
        lemma_nat_text_digits(v as int);
        assert(forall|k: int| 0 <= k < len ==> is_digit(#[trigger] t[k]));
        lemma_digits_end_full(t, 0);
        assert(t.subrange(0, len) =~= t);
        lemma_digits_val_of_text(t, 0, len, v as int);
        lemma_accum_value(t, 0, len);
        assert(digits_accum(t, 0, len, 0) == Some(v as u64));
        assert(spec_num(t, 0) == Ok::<(Tok, int), Error>((Tok::Int(v), len)));
        assert(spec_lex_from(t, len) == (Seq::<Tok>::empty(), None::<Error>));
        assert(seq![Tok::Int(v)] + Seq::<Tok>::empty() =~= seq![Tok::Int(v)]);
    } else {
        let m = -(v as int);
        lemma_nat_text_digits(m);
        assert(t[0] == '-');
        assert(t.subrange(1, len) =~= nat_text(m)) by {
            assert forall|k: int| 0 <= k < nat_text(m).len() implies t.subrange(1, len)[k]
                == nat_text(m)[k] by {
                assert(t[1 + k] == (seq!['-'] + nat_text(m))[1 + k]);
            }
        }
        assert(forall|k: int| 1 <= k < len ==> is_digit(#[trigger] t[k]));
        lemma_digits_end_full(t, 1);
        assert(is_digit(t[1]));
        lemma_digits_val_of_text(t, 1, len, m);
        lemma_accum_value(t, 1, len);
        assert(digits_accum(t, 1, len, 0) == Some(m as u64));
        assert(spec_num(t, 0) == Ok::<(Tok, int), Error>((Tok::Int(v), len)));
        assert(spec_lex_from(t, len) == (Seq::<Tok>::empty(), None::<Error>));
        assert(seq![Tok::Int(v)] + Seq::<Tok>::empty() =~= seq![Tok::Int(v)]);
    }
}

/// A rendered boolean atom reads back as exactly its own token.
pub proof fn lemma_bool_text_relexes(b: bool)
    ensures
        spec_lex_from(spec_render(Ast::Bool(b)), 0) == (seq![Tok::Bool(b)], None::<Error>),
{
    reveal_strlit("#t");
    reveal_strlit("#f");
    let t = spec_render(Ast::Bool(b));
    assert(t.len() == 2 && t[0] == '#' && t[1] == (if b {
        't'
    } else {
        'f'
    }));
    assert(spec_lex_from(t, 2) == (Seq::<Tok>::empty(), None::<Error>));
    assert(seq![Tok::Bool(b)] + Seq::<Tok>::empty() =~= seq![Tok::Bool(b)]);
}

} // verus!
