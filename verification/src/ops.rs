use vstd::prelude::*;

use crate::ast::Ast;
use crate::ast::Atom;
use crate::ast::Builtin;
use crate::ast::Expr;
use crate::ast::Function;
use crate::ast::Symbol;
use crate::ast::atom_view;
use crate::ast::expr_view;
use crate::ast::exprs_view;
use crate::ast::lemma_exprs_view;
use crate::ast::res_view;
use crate::env::Env;
use crate::error::ErrView;
use crate::error::Error;
use crate::error::err_view;
use crate::flt::flt_add;
use crate::flt::flt_add_of;
use crate::flt::flt_div;
use crate::flt::flt_div_of;
use crate::flt::flt_eq;
use crate::flt::flt_eq_of;
use crate::flt::flt_from_int;
use crate::flt::flt_from_int_of;
use crate::flt::flt_lt;
use crate::flt::flt_lt_of;
use crate::flt::flt_mul;
use crate::flt::flt_mul_of;
use crate::flt::flt_neg;
use crate::flt::flt_neg_of;
use crate::flt::flt_sub;
use crate::flt::flt_sub_of;
use crate::render::render;
use crate::text::emit_line;

verus! {

broadcast use vstd::seq::axiom_seq_index_decreases, vstd::seq::axiom_seq_subrange_decreases;

/// True of models of immediate values.
pub open spec fn is_atomic(a: Ast) -> bool {
    a is Bool || a is Int || a is Flt || a is Str || a is Sym || a is Nil
}

pub open spec fn all_atomic(s: Seq<Ast>) -> bool {
    forall|i: int| 0 <= i < s.len() ==> is_atomic(#[trigger] s[i])
}

pub open spec fn is_num(a: Ast) -> bool {
    a is Int || a is Flt
}

pub open spec fn all_num(s: Seq<Ast>) -> bool {
    forall|i: int| 0 <= i < s.len() ==> is_num(#[trigger] s[i])
}

pub open spec fn any_flt(s: Seq<Ast>) -> bool {
    exists|i: int| 0 <= i < s.len() && (#[trigger] s[i]) is Flt
}

/// The float a numeric atom stands for once promotion has happened.
pub open spec fn promoted(a: Ast) -> u64 {
    match a {
        Ast::Int(i) => flt_from_int_of(i),
        Ast::Flt(bits) => bits,
        _ => 0,
    }
}

/// Truncating 64-bit signed division, wrapping on the one overflowing pair.
pub open spec fn div_wrap(a: i64, b: i64) -> i64
    recommends
        b != 0,
{
    if a == i64::MIN && b == -1 {
        i64::MIN
    } else {
        div_trunc(a as int, b as int) as i64
    }
}

pub open spec fn abs_of(a: int) -> int {
    if a < 0 {
        -a
    } else {
        a
    }
}

/// Division truncated toward zero, as the host's integer division does it.
pub open spec fn div_trunc(a: int, b: int) -> int
    recommends
        b != 0,
{
    if (a < 0) == (b < 0) {
        abs_of(a) / abs_of(b)
    } else {
        -(abs_of(a) / abs_of(b))
    }
}

/// One step of integer arithmetic, by operation.
pub open spec fn int_step(op: Builtin, a: i64, b: i64) -> i64 {
    match op {
        Builtin::Add => a.wrapping_add(b),
        Builtin::Sub => a.wrapping_sub(b),
        Builtin::Mul => a.wrapping_mul(b),
        Builtin::Div => div_wrap(a, b),
        _ => 0,
    }
}

/// One step of float arithmetic, by operation.
pub open spec fn flt_step(op: Builtin, a: u64, b: u64) -> u64 {
    match op {
        Builtin::Add => flt_add_of(a, b),
        Builtin::Sub => flt_sub_of(a, b),
        Builtin::Mul => flt_mul_of(a, b),
        Builtin::Div => flt_div_of(a, b),
        _ => 0,
    }
}

pub open spec fn ival(a: Ast) -> i64 {
    a->Int_0
}

/// The left fold of the operation over the first n integer atoms.
pub open spec fn int_fold(op: Builtin, s: Seq<Ast>, n: int) -> i64
    decreases n,
{
    if n <= 1 {
        ival(s[0])
    } else {
        int_step(op, int_fold(op, s, n - 1), ival(s[n - 1]))
    }
}

/// The left fold of the operation over the first n numeric atoms,
/// every integer among them promoted to float.
pub open spec fn flt_fold(op: Builtin, s: Seq<Ast>, n: int) -> u64
    decreases n,
{
    if n <= 1 {
        promoted(s[0])
    } else {
        flt_step(op, flt_fold(op, s, n - 1), promoted(s[n - 1]))
    }
}

/// A zero among the divisors (everything after the first argument).
pub open spec fn zero_in_tail(s: Seq<Ast>) -> bool {
    exists|i: int| 1 <= i < s.len() && ival(#[trigger] s[i]) == 0
}

/// What `add`, `sub` (with two or more arguments), `mul` and `div` return.
pub open spec fn spec_fold_op(op: Builtin, s: Seq<Ast>) -> Result<Ast, ErrView> {
    if any_flt(s) {
        Ok(Ast::Flt(flt_fold(op, s, s.len() as int)))
    } else if op is Div && zero_in_tail(s) {
        Err(ErrView::DivZero)
    } else {
        Ok(Ast::Int(int_fold(op, s, s.len() as int)))
    }
}

pub open spec fn spec_add(s: Seq<Ast>) -> Result<Ast, ErrView> {
    if !all_atomic(s) {
        Err(ErrView::Mistyped)
    } else if s.len() == 0 {
        Err(ErrView::Arity { expected: 1, got: 0 })
    } else if !all_num(s) {
        Err(ErrView::Mistyped)
    } else {
        spec_fold_op(Builtin::Add, s)
    }
}

/// `sub` with one argument negates; with more it left-folds subtraction.
pub open spec fn spec_sub(s: Seq<Ast>) -> Result<Ast, ErrView> {
    if !all_atomic(s) {
        Err(ErrView::Mistyped)
    } else if s.len() == 0 {
        Err(ErrView::Arity { expected: 1, got: 0 })
    } else if !all_num(s) {
        Err(ErrView::Mistyped)
    } else if s.len() == 1 {
        match s[0] {
            Ast::Flt(bits) => Ok(Ast::Flt(flt_neg_of(bits))),
            _ => Ok(Ast::Int((0 as i64).wrapping_sub(ival(s[0])))),
        }
    } else {
        spec_fold_op(Builtin::Sub, s)
    }
}

pub open spec fn spec_mul(s: Seq<Ast>) -> Result<Ast, ErrView> {
    if !all_atomic(s) {
        Err(ErrView::Mistyped)
    } else if s.len() == 0 {
        Err(ErrView::Arity { expected: 1, got: 0 })
    } else if !all_num(s) {
        Err(ErrView::Mistyped)
    } else {
        spec_fold_op(Builtin::Mul, s)
    }
}

/// `div` needs two or more numbers. Over integers a zero divisor is an
/// explicit error; over floats division is total.
pub open spec fn spec_div(s: Seq<Ast>) -> Result<Ast, ErrView> {
    if !all_atomic(s) {
        Err(ErrView::Mistyped)
    } else if s.len() < 2 {
        Err(ErrView::Arity { expected: 2, got: s.len() as int })
    } else if !all_num(s) {
        Err(ErrView::Mistyped)
    } else {
        spec_fold_op(Builtin::Div, s)
    }
}

/// Lexicographic order on character sequences, by code point.
pub open spec fn lex_lt(a: Seq<char>, b: Seq<char>) -> bool
    decreases a,
{
    if b.len() == 0 {
        false
    } else if a.len() == 0 {
        true
    } else if a[0] != b[0] {
        (a[0] as u32) < (b[0] as u32)
    } else {
        lex_lt(a.subrange(1, a.len() as int), b.subrange(1, b.len() as int))
    }
}

/// Equality on atom models, where it is defined: per variant, with
/// integer/float promotion across the two numeric kinds.
pub open spec fn atom_eqv(a: Ast, b: Ast) -> Option<bool> {
    match (a, b) {
        (Ast::Bool(x), Ast::Bool(y)) => Some(x == y),
        (Ast::Int(x), Ast::Int(y)) => Some(x == y),
        (Ast::Flt(x), Ast::Flt(y)) => Some(flt_eq_of(x, y)),
        (Ast::Int(x), Ast::Flt(y)) => Some(flt_eq_of(flt_from_int_of(x), y)),
        (Ast::Flt(x), Ast::Int(y)) => Some(flt_eq_of(x, flt_from_int_of(y))),
        (Ast::Str(x), Ast::Str(y)) => Some(x == y),
        (Ast::Sym(x), Ast::Sym(y)) => Some(x == y),
        (Ast::Nil, Ast::Nil) => Some(true),
        _ => None,
    }
}

/// Strict order on atom models, where it is defined: numbers with
/// promotion, strings lexically, booleans as 0 and 1.
pub open spec fn atom_lt(a: Ast, b: Ast) -> Option<bool> {
    match (a, b) {
        (Ast::Int(x), Ast::Int(y)) => Some(x < y),
        (Ast::Flt(x), Ast::Flt(y)) => Some(flt_lt_of(x, y)),
        (Ast::Int(x), Ast::Flt(y)) => Some(flt_lt_of(flt_from_int_of(x), y)),
        (Ast::Flt(x), Ast::Int(y)) => Some(flt_lt_of(x, flt_from_int_of(y))),
        (Ast::Str(x), Ast::Str(y)) => Some(lex_lt(x, y)),
        (Ast::Bool(x), Ast::Bool(y)) => Some(!x && y),
        _ => None,
    }
}

pub open spec fn spec_equal(s: Seq<Ast>) -> Result<Ast, ErrView> {
    if s.len() != 2 {
        Err(ErrView::Arity { expected: 2, got: s.len() as int })
    } else {
        match atom_eqv(s[0], s[1]) {
            Some(b) => Ok(Ast::Bool(b)),
            None => Err(ErrView::Mistyped),
        }
    }
}

pub open spec fn spec_less(s: Seq<Ast>) -> Result<Ast, ErrView> {
    if s.len() != 2 {
        Err(ErrView::Arity { expected: 2, got: s.len() as int })
    } else {
        match atom_lt(s[0], s[1]) {
            Some(b) => Ok(Ast::Bool(b)),
            None => Err(ErrView::Mistyped),
        }
    }
}

pub open spec fn spec_less_eq(s: Seq<Ast>) -> Result<Ast, ErrView> {
    if s.len() != 2 {
        Err(ErrView::Arity { expected: 2, got: s.len() as int })
    } else {
        match (atom_lt(s[0], s[1]), atom_eqv(s[0], s[1])) {
            (Some(l), Some(e)) => Ok(Ast::Bool(l || e)),
            _ => Err(ErrView::Mistyped),
        }
    }
}

pub open spec fn spec_greater(s: Seq<Ast>) -> Result<Ast, ErrView> {
    if s.len() != 2 {
        Err(ErrView::Arity { expected: 2, got: s.len() as int })
    } else {
        match atom_lt(s[1], s[0]) {
            Some(b) => Ok(Ast::Bool(b)),
            None => Err(ErrView::Mistyped),
        }
    }
}

pub open spec fn spec_greater_eq(s: Seq<Ast>) -> Result<Ast, ErrView> {
    if s.len() != 2 {
        Err(ErrView::Arity { expected: 2, got: s.len() as int })
    } else {
        match (atom_lt(s[1], s[0]), atom_eqv(s[1], s[0])) {
            (Some(g), Some(e)) => Ok(Ast::Bool(g || e)),
            _ => Err(ErrView::Mistyped),
        }
    }
}

pub open spec fn spec_not(s: Seq<Ast>) -> Result<Ast, ErrView> {
    if s.len() != 1 {
        Err(ErrView::Arity { expected: 1, got: s.len() as int })
    } else {
        match s[0] {
            Ast::Bool(b) => Ok(Ast::Bool(!b)),
            _ => Err(ErrView::Mistyped),
        }
    }
}

pub open spec fn all_bool(s: Seq<Ast>) -> bool {
    forall|i: int| 0 <= i < s.len() ==> (#[trigger] s[i]) is Bool
}

/// `and` is the fold of conjunction: true exactly when no argument is false.
pub open spec fn spec_and(s: Seq<Ast>) -> Result<Ast, ErrView> {
    if !all_atomic(s) {
        Err(ErrView::Mistyped)
    } else if !all_bool(s) {
        Err(ErrView::Mistyped)
    } else {
        Ok(Ast::Bool(forall|i: int| 0 <= i < s.len() ==> (#[trigger] s[i])->Bool_0))
    }
}

/// `or` is the fold of disjunction: true exactly when some argument is true.
pub open spec fn spec_or(s: Seq<Ast>) -> Result<Ast, ErrView> {
    if !all_atomic(s) {
        Err(ErrView::Mistyped)
    } else if !all_bool(s) {
        Err(ErrView::Mistyped)
    } else {
        Ok(Ast::Bool(exists|i: int| 0 <= i < s.len() && (#[trigger] s[i])->Bool_0))
    }
}

/// `print` renders its one argument to the caller's terminal and yields Nil.
pub open spec fn spec_print(s: Seq<Ast>) -> Result<Ast, ErrView> {
    if s.len() != 1 {
        Err(ErrView::Arity { expected: 1, got: s.len() as int })
    } else {
        Ok(Ast::Nil)
    }
}

/// What applying a native operation to evaluated arguments returns.
pub open spec fn spec_apply(op: Builtin, s: Seq<Ast>) -> Result<Ast, ErrView> {
    match op {
        Builtin::Add => spec_add(s),
        Builtin::Sub => spec_sub(s),
        Builtin::Mul => spec_mul(s),
        Builtin::Div => spec_div(s),
        Builtin::Equal => spec_equal(s),
        Builtin::Less => spec_less(s),
        Builtin::LessEq => spec_less_eq(s),
        Builtin::Greater => spec_greater(s),
        Builtin::GreaterEq => spec_greater_eq(s),
        Builtin::Not => spec_not(s),
        Builtin::And => spec_and(s),
        Builtin::Or => spec_or(s),
        Builtin::Print => spec_print(s),
    }
}

/// Arguments must all be immediate values; a copy of each, in order.
fn unwrap_atoms(args: &Vec<Expr>) -> (r: Result<Vec<Atom>, Error>)
    ensures
        match r {
            Ok(v) => {
                &&& all_atomic(exprs_view(args@))
                &&& v@.len() == args@.len()
                &&& forall|i: int|
                    0 <= i < v@.len() ==> atom_view(#[trigger] v@[i]) == exprs_view(args@)[i]
            },
            Err(e) => e == Error::TypeMismatch && !all_atomic(exprs_view(args@)),
        },
{
    proof {
        lemma_exprs_view(args@);
    }
    let mut out: Vec<Atom> = Vec::new();
    let mut i: usize = 0;
    while i < args.len()
        invariant
            i <= args@.len(),
            out@.len() == i,
            forall|j: int|
                0 <= j < i ==> atom_view(#[trigger] out@[j]) == expr_view(args@[j]),
            forall|j: int| 0 <= j < i ==> is_atomic(expr_view(#[trigger] args@[j])),
        decreases args@.len() - i,
    {
        match &args[i] {
            Expr::Atom(a) => {
                out.push(a.duplicate());
            },
            _ => {
                proof {
                    lemma_exprs_view(args@);
                    assert(!is_atomic(exprs_view(args@)[i as int]));
                }
                return Err(Error::TypeMismatch);
            },
        }
        i = i + 1;
    }
    proof {
        lemma_exprs_view(args@);
        assert forall|k: int| 0 <= k < args@.len() implies is_atomic(
            #[trigger] exprs_view(args@)[k],
        ) by {
            assert(is_atomic(expr_view(args@[k])));
        }
    }
    Ok(out)
}

/// The operation takes exactly `arity` arguments.
fn check_args(args: &Vec<Expr>, arity: usize) -> (r: Result<(), Error>)
    ensures
        match r {
            Ok(_) => args@.len() == arity,
            Err(e) => args@.len() != arity && err_view(e) == (ErrView::Arity {
                expected: arity as int,
                got: args@.len() as int,
            }),
        },
{
    if args.len() == arity {
        Ok(())
    } else {
        Err(Error::ArityMismatch { expected: arity, got: args.len() })
    }
}

/// Truncating division on 64-bit words, wrapping on the one overflowing pair.
fn div_i64(a: i64, b: i64) -> (r: i64)
    requires
        b != 0,
    ensures
        r == div_wrap(a, b),
{
    if a == i64::MIN && b == -1 {
        return i64::MIN;
    }
    let ma: u64 = if a == i64::MIN {
        9223372036854775808u64
    } else if a < 0 {
        (-a) as u64
    } else {
        a as u64
    };
    let mb: u64 = if b == i64::MIN {
        9223372036854775808u64
    } else if b < 0 {
        (-b) as u64
    } else {
        b as u64
    };
    assert(ma as int == abs_of(a as int));
    assert(mb as int == abs_of(b as int));
    let q: u64 = ma / mb;
    proof {
        vstd::arithmetic::div_mod::lemma_div_nonincreasing(ma as int, mb as int);
        assert(q as int <= ma as int);
    }
    if (a < 0) != (b < 0) {
        if q == 9223372036854775808u64 {
            i64::MIN
        } else {
            -(q as i64)
        }
    } else {
        assert(q <= i64::MAX as u64) by {
            if a == i64::MIN {
                assert(b < 0 && b != -1);
                assert(mb >= 2);
                vstd::arithmetic::div_mod::lemma_div_is_ordered_by_denominator(
                    ma as int,
                    2,
                    mb as int,
                );
                assert(ma as int / 2 < 0x8000000000000000);
            } else {
                assert(ma <= i64::MAX as u64);
            }
        };
        q as i64
    }
}

/// The shared fold of the four arithmetic operations, after the atoms are
/// in hand and the argument count has been accepted.
fn fold_op(op: Builtin, atoms: &Vec<Atom>, Ghost(s): Ghost<Seq<Ast>>) -> (r: Result<Expr, Error>)
    requires
        op is Add || op is Sub || op is Mul || op is Div,
        atoms@.len() >= 1,
        s.len() == atoms@.len(),
        forall|i: int| 0 <= i < s.len() ==> #[trigger] s[i] == atom_view(atoms@[i]),
        all_atomic(s),
    ensures
        res_view(r) == (if !all_num(s) {
            Err::<Ast, ErrView>(ErrView::Mistyped)
        } else {
            spec_fold_op(op, s)
        }),
{
    let n = atoms.len();
    let mut i: usize = 0;
    let mut saw_flt = false;
    while i < n
        invariant
            n == atoms@.len(),
            s.len() == n,
            forall|k: int| 0 <= k < s.len() ==> #[trigger] s[k] == atom_view(atoms@[k]),
            i <= n,
            forall|k: int| 0 <= k < i ==> is_num(#[trigger] s[k]),
            saw_flt == exists|k: int| 0 <= k < i && (#[trigger] s[k]) is Flt,
        decreases n - i,
    {
        match &atoms[i] {
            Atom::Int(_) => {},
            Atom::Flt(_) => {
                saw_flt = true;
            },
            _ => {
                assert(!is_num(s[i as int]));
                return Err(Error::TypeMismatch);
            },
        }
        i = i + 1;
    }
    assert(all_num(s));
    assert(saw_flt == any_flt(s));
    if saw_flt {
        let mut acc: u64 = match &atoms[0] {
            Atom::Int(v) => flt_from_int(*v),
            Atom::Flt(bits) => *bits,
            _ => 0,
        };
        assert(acc == flt_fold(op, s, 1));
        let mut i: usize = 1;
        while i < n
            invariant
                n == atoms@.len(),
                s.len() == n,
                forall|k: int| 0 <= k < s.len() ==> #[trigger] s[k] == atom_view(atoms@[k]),
                all_num(s),
                op is Add || op is Sub || op is Mul || op is Div,
                1 <= i <= n,
                acc == flt_fold(op, s, i as int),
            decreases n - i,
        {
            let v: u64 = match &atoms[i] {
                Atom::Int(x) => flt_from_int(*x),
                Atom::Flt(bits) => *bits,
                _ => 0,
            };
            assert(v == promoted(s[i as int]));
            acc = match op {
                Builtin::Add => flt_add(acc, v),
                Builtin::Sub => flt_sub(acc, v),
                Builtin::Mul => flt_mul(acc, v),
                _ => flt_div(acc, v),
            };
            i = i + 1;
        }
        Ok(Expr::Atom(Atom::Flt(acc)))
    } else {
        if matches!(op, Builtin::Div) {
            let mut i: usize = 1;
            while i < n
                invariant
                    n == atoms@.len(),
                    s.len() == n,
                    forall|k: int| 0 <= k < s.len() ==> #[trigger] s[k] == atom_view(atoms@[k]),
                    all_num(s),
                    !any_flt(s),
                    op is Div,
                    1 <= i <= n,
                    forall|k: int| 1 <= k < i ==> ival(#[trigger] s[k]) != 0,
                decreases n - i,
            {
                match &atoms[i] {
                    Atom::Int(x) => {
                        if *x == 0 {
                            assert(s[i as int] == atom_view(atoms@[i as int]));
                            assert(ival(s[i as int]) == 0);
                            assert(zero_in_tail(s));
                            return Err(Error::DivisionByZero);
                        }
                    },
                    _ => {
                        assert(s[i as int] == atom_view(atoms@[i as int]));
                        assert(is_num(s[i as int]) && !(s[i as int] is Flt));
                        assert(false);
                    },
                }
                i = i + 1;
            }
            assert(!zero_in_tail(s));
        }
        let mut acc: i64 = match &atoms[0] {
            Atom::Int(v) => *v,
            _ => 0,
        };
        assert(acc == int_fold(op, s, 1));
        let mut i: usize = 1;
        while i < n
            invariant
                n == atoms@.len(),
                s.len() == n,
                forall|k: int| 0 <= k < s.len() ==> #[trigger] s[k] == atom_view(atoms@[k]),
                all_num(s),
                !any_flt(s),
                op is Add || op is Sub || op is Mul || op is Div,
                op is Div ==> !zero_in_tail(s),
                1 <= i <= n,
                acc == int_fold(op, s, i as int),
            decreases n - i,
        {
            let v: i64 = match &atoms[i] {
                Atom::Int(x) => *x,
                _ => 0,
            };
            assert(s[i as int] is Int && v == ival(s[i as int])) by {
                assert(s[i as int] == atom_view(atoms@[i as int]));
                assert(!(s[i as int] is Flt));
            };
            acc = match op {
                Builtin::Add => acc.wrapping_add(v),
                Builtin::Sub => acc.wrapping_sub(v),
                Builtin::Mul => acc.wrapping_mul(v),
                _ => {
                    assert(v != 0);
                    div_i64(acc, v)
                },
            };
            i = i + 1;
        }
        Ok(Expr::Atom(Atom::Int(acc)))
    }
}

/// Sum of one or more numbers, in floating point as soon as a float is among
/// them, else in wrapping 64-bit integer arithmetic.
pub fn add(args: &Vec<Expr>) -> (r: Result<Expr, Error>)
    ensures
        res_view(r) == spec_add(exprs_view(args@)),
{
    let ghost s = exprs_view(args@);
    proof {
        lemma_exprs_view(args@);
    }
    let atoms = match unwrap_atoms(args) {
        Ok(v) => v,
        Err(e) => {
            return Err(e);
        },
    };
    if atoms.len() == 0 {
        return Err(Error::ArityMismatch { expected: 1, got: 0 });
    }
    fold_op(Builtin::Add, &atoms, Ghost(s))
}

/// One argument negates; two or more left-fold subtraction.
pub fn sub(args: &Vec<Expr>) -> (r: Result<Expr, Error>)
    ensures
        res_view(r) == spec_sub(exprs_view(args@)),
{
    let ghost s = exprs_view(args@);
    proof {
        lemma_exprs_view(args@);
    }
    let atoms = match unwrap_atoms(args) {
        Ok(v) => v,
        Err(e) => {
            return Err(e);
        },
    };
    if atoms.len() == 0 {
        return Err(Error::ArityMismatch { expected: 1, got: 0 });
    }
    if atoms.len() == 1 {
        return match &atoms[0] {
            Atom::Int(v) => Ok(Expr::Atom(Atom::Int((0 as i64).wrapping_sub(*v)))),
            Atom::Flt(bits) => Ok(Expr::Atom(Atom::Flt(flt_neg(*bits)))),
            _ => Err(Error::TypeMismatch),
        };
    }
    fold_op(Builtin::Sub, &atoms, Ghost(s))
}

/// Product of one or more numbers, with the same promotion rule as `add`.
pub fn mul(args: &Vec<Expr>) -> (r: Result<Expr, Error>)
    ensures
        res_view(r) == spec_mul(exprs_view(args@)),
{
    let ghost s = exprs_view(args@);
    proof {
        lemma_exprs_view(args@);
    }
    let atoms = match unwrap_atoms(args) {
        Ok(v) => v,
        Err(e) => {
            return Err(e);
        },
    };
    if atoms.len() == 0 {
        return Err(Error::ArityMismatch { expected: 1, got: 0 });
    }
    fold_op(Builtin::Mul, &atoms, Ghost(s))
}

/// Quotient of two or more numbers. Integer division by zero is an explicit
/// error; float division is total.
pub fn div(args: &Vec<Expr>) -> (r: Result<Expr, Error>)
    ensures
        res_view(r) == spec_div(exprs_view(args@)),
{
    let ghost s = exprs_view(args@);
    proof {
        lemma_exprs_view(args@);
    }
    let atoms = match unwrap_atoms(args) {
        Ok(v) => v,
        Err(e) => {
            return Err(e);
        },
    };
    if atoms.len() < 2 {
        return Err(Error::ArityMismatch { expected: 2, got: atoms.len() });
    }
    fold_op(Builtin::Div, &atoms, Ghost(s))
}

/// Equality on two atoms, where spec says it is defined.
fn atom_eqv_exec(a: &Expr, b: &Expr) -> (r: Option<bool>)
    ensures
        r == atom_eqv(expr_view(*a), expr_view(*b)),
{
    match (a, b) {
        (Expr::Atom(x), Expr::Atom(y)) => match (x, y) {
            (Atom::Bool(p), Atom::Bool(q)) => Some(*p == *q),
            (Atom::Int(p), Atom::Int(q)) => Some(*p == *q),
            (Atom::Flt(p), Atom::Flt(q)) => Some(flt_eq(*p, *q)),
            (Atom::Int(p), Atom::Flt(q)) => Some(flt_eq(flt_from_int(*p), *q)),
            (Atom::Flt(p), Atom::Int(q)) => Some(flt_eq(*p, flt_from_int(*q))),
            (Atom::Str(p), Atom::Str(q)) => Some(*p == *q),
            (Atom::Sym(p), Atom::Sym(q)) => Some(p.0 == q.0),
            (Atom::Nil, Atom::Nil) => Some(true),
            _ => None,
        },
        _ => None,
    }
}

/// Lexicographic comparison of two character vectors, by code point.
fn chars_lt(a: &Vec<char>, b: &Vec<char>) -> (r: bool)
    ensures
        r == lex_lt(a@, b@),
{
    let mut i: usize = 0;
    proof {
        assert(a@.subrange(0, a@.len() as int) =~= a@);
        assert(b@.subrange(0, b@.len() as int) =~= b@);
    }
    while i < a.len() && i < b.len()
        invariant
            i <= a@.len(),
            i <= b@.len(),
            lex_lt(a@, b@) == lex_lt(
                a@.subrange(i as int, a@.len() as int),
                b@.subrange(i as int, b@.len() as int),
            ),
        decreases a@.len() - i,
    {
        let ca = a[i];
        let cb = b[i];
        let ghost sa = a@.subrange(i as int, a@.len() as int);
        let ghost sb = b@.subrange(i as int, b@.len() as int);
        if ca != cb {
            proof {
                assert(sa[0] == ca && sb[0] == cb);
            }
            return (ca as u32) < (cb as u32);
        }
        proof {
            assert(sa[0] == ca && sb[0] == cb);
            assert(sa.subrange(1, sa.len() as int) =~= a@.subrange(
                i as int + 1,
                a@.len() as int,
            ));
            assert(sb.subrange(1, sb.len() as int) =~= b@.subrange(
                i as int + 1,
                b@.len() as int,
            ));
        }
        i = i + 1;
    }
    proof {
        let sa = a@.subrange(i as int, a@.len() as int);
        let sb = b@.subrange(i as int, b@.len() as int);
        assert(sa.len() == 0 || sb.len() == 0);
    }
    i >= a.len() && i < b.len()
}

/// Strict order on two atoms, where spec says it is defined.
fn atom_lt_exec(a: &Expr, b: &Expr) -> (r: Option<bool>)
    ensures
        r == atom_lt(expr_view(*a), expr_view(*b)),
{
    match (a, b) {
        (Expr::Atom(x), Expr::Atom(y)) => match (x, y) {
            (Atom::Int(p), Atom::Int(q)) => Some(*p < *q),
            (Atom::Flt(p), Atom::Flt(q)) => Some(flt_lt(*p, *q)),
            (Atom::Int(p), Atom::Flt(q)) => Some(flt_lt(flt_from_int(*p), *q)),
            (Atom::Flt(p), Atom::Int(q)) => Some(flt_lt(*p, flt_from_int(*q))),
            (Atom::Str(p), Atom::Str(q)) => {
                let va = crate::text::str_to_chars(p.as_str());
                let vb = crate::text::str_to_chars(q.as_str());
                Some(chars_lt(&va, &vb))
            },
            (Atom::Bool(p), Atom::Bool(q)) => Some(!*p && *q),
            _ => None,
        },
        _ => None,
    }
}

/// Two arguments, equal or not under the per-variant rules.
pub fn equal(args: &Vec<Expr>) -> (r: Result<Expr, Error>)
    ensures
        res_view(r) == spec_equal(exprs_view(args@)),
{
    proof {
        lemma_exprs_view(args@);
    }
    if let Err(e) = check_args(args, 2) {
        return Err(e);
    }
    match atom_eqv_exec(&args[0], &args[1]) {
        Some(b) => Ok(Expr::Atom(Atom::Bool(b))),
        None => Err(Error::TypeMismatch),
    }
}

/// Two arguments, strictly ordered or not.
pub fn less(args: &Vec<Expr>) -> (r: Result<Expr, Error>)
    ensures
        res_view(r) == spec_less(exprs_view(args@)),
{
    proof {
        lemma_exprs_view(args@);
    }
    if let Err(e) = check_args(args, 2) {
        return Err(e);
    }
    match atom_lt_exec(&args[0], &args[1]) {
        Some(b) => Ok(Expr::Atom(Atom::Bool(b))),
        None => Err(Error::TypeMismatch),
    }
}

/// Two arguments, ordered-or-equal: the disjunction of `less` and `equal`.
pub fn less_eq(args: &Vec<Expr>) -> (r: Result<Expr, Error>)
    ensures
        res_view(r) == spec_less_eq(exprs_view(args@)),
{
    proof {
        lemma_exprs_view(args@);
    }
    if let Err(e) = check_args(args, 2) {
        return Err(e);
    }
    match (atom_lt_exec(&args[0], &args[1]), atom_eqv_exec(&args[0], &args[1])) {
        (Some(l), Some(e)) => Ok(Expr::Atom(Atom::Bool(l || e))),
        _ => Err(Error::TypeMismatch),
    }
}

/// Two arguments, strictly ordered the other way.
pub fn greater(args: &Vec<Expr>) -> (r: Result<Expr, Error>)
    ensures
        res_view(r) == spec_greater(exprs_view(args@)),
{
    proof {
        lemma_exprs_view(args@);
    }
    if let Err(e) = check_args(args, 2) {
        return Err(e);
    }
    match atom_lt_exec(&args[1], &args[0]) {
        Some(b) => Ok(Expr::Atom(Atom::Bool(b))),
        None => Err(Error::TypeMismatch),
    }
}

/// Two arguments, ordered the other way or equal.
pub fn greater_eq(args: &Vec<Expr>) -> (r: Result<Expr, Error>)
    ensures
        res_view(r) == spec_greater_eq(exprs_view(args@)),
{
    proof {
        lemma_exprs_view(args@);
    }
    if let Err(e) = check_args(args, 2) {
        return Err(e);
    }
    match (atom_lt_exec(&args[1], &args[0]), atom_eqv_exec(&args[1], &args[0])) {
        (Some(g), Some(e)) => Ok(Expr::Atom(Atom::Bool(g || e))),
        _ => Err(Error::TypeMismatch),
    }
}

/// Boolean negation of exactly one boolean atom.
pub fn not(args: &Vec<Expr>) -> (r: Result<Expr, Error>)
    ensures
        res_view(r) == spec_not(exprs_view(args@)),
{
    proof {
        lemma_exprs_view(args@);
    }
    if let Err(e) = check_args(args, 1) {
        return Err(e);
    }
    match &args[0] {
        Expr::Atom(Atom::Bool(b)) => Ok(Expr::Atom(Atom::Bool(!*b))),
        _ => Err(Error::TypeMismatch),
    }
}

/// True exactly when every argument is the boolean true; true of nothing.
pub fn and(args: &Vec<Expr>) -> (r: Result<Expr, Error>)
    ensures
        res_view(r) == spec_and(exprs_view(args@)),
{
    let ghost s = exprs_view(args@);
    proof {
        lemma_exprs_view(args@);
    }
    let mut i: usize = 0;
    let mut acc = true;
    while i < args.len()
        invariant
            s == exprs_view(args@),
            s.len() == args@.len(),
            forall|k: int| 0 <= k < s.len() ==> #[trigger] s[k] == expr_view(args@[k]),
            i <= args@.len(),
            forall|k: int| 0 <= k < i ==> (#[trigger] s[k]) is Bool,
            acc == forall|k: int| 0 <= k < i ==> (#[trigger] s[k])->Bool_0,
        decreases args@.len() - i,
    {
        match &args[i] {
            Expr::Atom(Atom::Bool(b)) => {
                if !*b {
                    acc = false;
                }
            },
            Expr::Atom(_) => {
                assert(is_atomic(s[i as int]) && !(s[i as int] is Bool));
                return Err(Error::TypeMismatch);
            },
            _ => {
                assert(!is_atomic(s[i as int]));
                return Err(Error::TypeMismatch);
            },
        }
        i = i + 1;
    }
    assert(all_atomic(s) && all_bool(s));
    Ok(Expr::Atom(Atom::Bool(acc)))
}

/// True exactly when some argument is the boolean true; false of nothing.
pub fn or(args: &Vec<Expr>) -> (r: Result<Expr, Error>)
    ensures
        res_view(r) == spec_or(exprs_view(args@)),
{
    let ghost s = exprs_view(args@);
    proof {
        lemma_exprs_view(args@);
    }
    let mut i: usize = 0;
    let mut acc = false;
    while i < args.len()
        invariant
            s == exprs_view(args@),
            s.len() == args@.len(),
            forall|k: int| 0 <= k < s.len() ==> #[trigger] s[k] == expr_view(args@[k]),
            i <= args@.len(),
            forall|k: int| 0 <= k < i ==> (#[trigger] s[k]) is Bool,
            acc == exists|k: int| 0 <= k < i && (#[trigger] s[k])->Bool_0,
        decreases args@.len() - i,
    {
        match &args[i] {
            Expr::Atom(Atom::Bool(b)) => {
                if *b {
                    acc = true;
                }
            },
            Expr::Atom(_) => {
                assert(is_atomic(s[i as int]) && !(s[i as int] is Bool));
                return Err(Error::TypeMismatch);
            },
            _ => {
                assert(!is_atomic(s[i as int]));
                return Err(Error::TypeMismatch);
            },
        }
        i = i + 1;
    }
    assert(all_atomic(s) && all_bool(s));
    Ok(Expr::Atom(Atom::Bool(acc)))
}

/// Renders its one argument to standard output and yields Nil.
pub fn print(args: &Vec<Expr>) -> (r: Result<Expr, Error>)
    ensures
        res_view(r) == spec_print(exprs_view(args@)),
{
    proof {
        lemma_exprs_view(args@);
    }
    if let Err(e) = check_args(args, 1) {
        return Err(e);
    }
    let t = render(&args[0]);
    emit_line(t.as_str());
    Ok(Expr::Atom(Atom::Nil))
}

impl Function {
    /// Apply the native operation to already evaluated arguments.
    pub fn call(&self, args: &Vec<Expr>) -> (r: Result<Expr, Error>)
        ensures
            res_view(r) == spec_apply(self.op, exprs_view(args@)),
    {
        match self.op {
            Builtin::Add => crate::ops::add(args),
            Builtin::Sub => crate::ops::sub(args),
            Builtin::Mul => crate::ops::mul(args),
            Builtin::Div => crate::ops::div(args),
            Builtin::Equal => crate::ops::equal(args),
            Builtin::Less => crate::ops::less(args),
            Builtin::LessEq => crate::ops::less_eq(args),
            Builtin::Greater => crate::ops::greater(args),
            Builtin::GreaterEq => crate::ops::greater_eq(args),
            Builtin::Not => crate::ops::not(args),
            Builtin::And => crate::ops::and(args),
            Builtin::Or => crate::ops::or(args),
            Builtin::Print => crate::ops::print(args),
        }
    }
}

/// The global environment's bindings at startup, in order.
pub open spec fn builtin_bindings() -> Seq<(Seq<char>, Ast)> {
    seq![
        ("+"@, Ast::Fun(Some("+"@), Builtin::Add)),
        ("-"@, Ast::Fun(Some("-"@), Builtin::Sub)),
        ("*"@, Ast::Fun(Some("*"@), Builtin::Mul)),
        ("/"@, Ast::Fun(Some("/"@), Builtin::Div)),
        ("="@, Ast::Fun(Some("="@), Builtin::Equal)),
        ("<"@, Ast::Fun(Some("<"@), Builtin::Less)),
        ("<="@, Ast::Fun(Some("<="@), Builtin::LessEq)),
        (">"@, Ast::Fun(Some(">"@), Builtin::Greater)),
        (">="@, Ast::Fun(Some(">="@), Builtin::GreaterEq)),
        ("not"@, Ast::Fun(Some("not"@), Builtin::Not)),
        ("and"@, Ast::Fun(Some("and"@), Builtin::And)),
        ("or"@, Ast::Fun(Some("or"@), Builtin::Or)),
        ("print"@, Ast::Fun(Some("print"@), Builtin::Print)),
    ]
}

fn bind_builtin(e: &mut Env, name: &str, op: Builtin)
    ensures
        final(e)@ == old(e)@ + seq![(name@, Ast::Fun(Some(name@), op))],
{
    let n: String = name.to_owned();
    let n2: String = name.to_owned();
    e.bind(Symbol(n), Expr::Func(Function::new(Some(n2), op)));
}

/// The global environment, every native operation bound under its
/// canonical name.
pub fn env() -> (r: Env)
    ensures
        r@ == builtin_bindings(),
{
    let mut e = Env::new();
    bind_builtin(&mut e, "+", Builtin::Add);
    bind_builtin(&mut e, "-", Builtin::Sub);
    bind_builtin(&mut e, "*", Builtin::Mul);
    bind_builtin(&mut e, "/", Builtin::Div);
    bind_builtin(&mut e, "=", Builtin::Equal);
    bind_builtin(&mut e, "<", Builtin::Less);
    bind_builtin(&mut e, "<=", Builtin::LessEq);
    bind_builtin(&mut e, ">", Builtin::Greater);
    bind_builtin(&mut e, ">=", Builtin::GreaterEq);
    bind_builtin(&mut e, "not", Builtin::Not);
    bind_builtin(&mut e, "and", Builtin::And);
    bind_builtin(&mut e, "or", Builtin::Or);
    bind_builtin(&mut e, "print", Builtin::Print);
    proof {
        assert(e@ =~= builtin_bindings());
    }
    e
}

} // verus!
