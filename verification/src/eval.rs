use vstd::prelude::*;

use crate::ast::Ast;
use crate::ast::Atom;
use crate::ast::Expr;
use crate::ast::expr_view;
use crate::ast::exprs_view;
use crate::ast::lemma_exprs_view;
use crate::ast::res_view;
use crate::env::Env;
use crate::env::lookup_in;
use crate::error::ErrView;
use crate::error::Error;
use crate::ops::spec_apply;

verus! {

broadcast use vstd::seq::axiom_seq_index_decreases, vstd::seq::axiom_seq_subrange_decreases;

/// The value of one expression under the given environment.
///
/// Atoms, vectors and callable values stand for themselves; a quotation
/// stands for the subtree it wraps; the empty application form is Nil; a
/// non-empty application form resolves its head (a bare symbol through the
/// environment, anything else by evaluation), requires a callable, then
/// evaluates the arguments left to right and applies the operation.
pub open spec fn spec_eval(a: Ast, env: Seq<(Seq<char>, Ast)>) -> Result<Ast, ErrView>
    decreases a, 1int,
{
    match a {
        Ast::Lst(elems) => {
            if elems.len() == 0 {
                Ok(Ast::Nil)
            } else {
                match spec_head(elems[0], env) {
                    Err(e) => Err(e),
                    Ok(h) => match h {
                        Ast::Fun(nm, op) => match spec_eval_list(
                            elems.subrange(1, elems.len() as int),
                            env,
                        ) {
                            Ok(vals) => spec_apply(op, vals),
                            Err(e) => Err(e),
                        },
                        _ => Err(ErrView::NotCallable { value: h }),
                    },
                }
            }
        },
        Ast::Qt(inner) => Ok(*inner),
        _ => Ok(a),
    }
}

/// What the head of an application form resolves to: a bare symbol through
/// the environment, anything else by evaluation.
pub open spec fn spec_head(a: Ast, env: Seq<(Seq<char>, Ast)>) -> Result<Ast, ErrView>
    decreases a, 2int,
{
    match a {
        Ast::Sym(name) => match lookup_in(env, name) {
            Some(v) => Ok(v),
            None => Err(ErrView::Unbound { name }),
        },
        _ => spec_eval(a, env),
    }
}

/// The values of a row of expressions, left to right; the first error stops
/// the row and is the row's outcome.
pub open spec fn spec_eval_list(s: Seq<Ast>, env: Seq<(Seq<char>, Ast)>) -> Result<
    Seq<Ast>,
    ErrView,
>
    decreases s, 0int,
{
    if s.len() == 0 {
        Ok(Seq::empty())
    } else {
        match spec_eval(s[0], env) {
            Err(e) => Err(e),
            Ok(v) => match spec_eval_list(s.subrange(1, s.len() as int), env) {
                Err(e) => Err(e),
                Ok(vs) => Ok(seq![v] + vs),
            },
        }
    }
}

/// A row whose members all evaluate evaluates to exactly those values.
proof fn lemma_eval_list_ok(s: Seq<Ast>, env: Seq<(Seq<char>, Ast)>, w: Seq<Ast>)
    requires
        w.len() == s.len(),
        forall|j: int| 0 <= j < s.len() ==> #[trigger] spec_eval(s[j], env) == Ok::<Ast, ErrView>(
            w[j],
        ),
    ensures
        spec_eval_list(s, env) == Ok::<Seq<Ast>, ErrView>(w),
    decreases s,
{
    if s.len() == 0 {
        assert(w =~= Seq::<Ast>::empty());
    } else {
        let st = s.subrange(1, s.len() as int);
        let wt = w.subrange(1, w.len() as int);
        assert(spec_eval(s[0], env) == Ok::<Ast, ErrView>(w[0]));
        assert forall|j: int| 0 <= j < st.len() implies #[trigger] spec_eval(st[j], env) == Ok::<
            Ast,
            ErrView,
        >(wt[j]) by {
            assert(st[j] == s[j + 1]);
            assert(spec_eval(s[j + 1], env) == Ok::<Ast, ErrView>(w[j + 1]));
        }
        lemma_eval_list_ok(st, env, wt);
        assert(seq![w[0]] + wt =~= w);
    }
}

/// A row whose first failure is at position k fails with that error.
proof fn lemma_eval_list_err(s: Seq<Ast>, env: Seq<(Seq<char>, Ast)>, k: int, e: ErrView)
    requires
        0 <= k < s.len(),
        forall|j: int| 0 <= j < k ==> #[trigger] spec_eval(s[j], env) is Ok,
        spec_eval(s[k], env) == Err::<Ast, ErrView>(e),
    ensures
        spec_eval_list(s, env) == Err::<Seq<Ast>, ErrView>(e),
    decreases s,
{
    if k == 0 {
        assert(spec_eval(s[0], env) == Err::<Ast, ErrView>(e));
    } else {
        let st = s.subrange(1, s.len() as int);
        assert(spec_eval(s[0], env) is Ok);
        assert forall|j: int| 0 <= j < k - 1 implies #[trigger] spec_eval(st[j], env) is Ok by {
            assert(st[j] == s[j + 1]);
            assert(spec_eval(s[j + 1], env) is Ok);
        }
        assert(st[k - 1] == s[k]);
        lemma_eval_list_err(st, env, k - 1, e);
    }
}

impl Expr {
    /// Reduce this expression to a value against the environment.
    pub fn eval(&self, env: &Env) -> (r: Result<Expr, Error>)
        ensures
            res_view(r) == spec_eval(self@, env@),
        decreases *self, 1int,
    {
        match self {
            Expr::List(l) => {
                let v = &l.0;
                proof {
                    lemma_exprs_view(v@);
                }
                let ghost elems = exprs_view(v@);
                if v.len() == 0 {
                    return Ok(Expr::Atom(Atom::Nil));
                }
                let head = &v[0];
                let head_val: Expr = match head {
                    Expr::Atom(Atom::Sym(s)) => match env.lookup(s) {
                        Some(hv) => hv,
                        None => {
                            return Err(Error::UnboundSymbol { name: s.duplicate() });
                        },
                    },
                    _ => {
                        proof {
                            assert(decreases_to!(*self, 1int => v@[0], 1int));
                        }
                        match head.eval(env) {
                            Ok(hv) => hv,
                            Err(e) => {
                                return Err(e);
                            },
                        }
                    },
                };
                let f = match head_val {
                    Expr::Func(g) => g,
                    other => {
                        return Err(Error::NotCallable { value: Box::new(other) });
                    },
                };
                let ghost tail = elems.subrange(1, elems.len() as int);
                proof {
                    assert(spec_head(elems[0], env@) == Ok::<Ast, ErrView>(
                        crate::ast::Ast::Fun(f@, f.op),
                    ));
                }
                let mut vals: Vec<Expr> = Vec::new();
                let mut i: usize = 1;
                while i < v.len()
                    invariant
                        self is List,
                        *v == (*self)->List_0.0,
                        v@.len() > 0,
                        spec_head(elems[0], env@) == Ok::<Ast, ErrView>(
                            crate::ast::Ast::Fun(f@, f.op),
                        ),
                        elems == exprs_view(v@),
                        elems.len() == v@.len(),
                        forall|j: int| 0 <= j < v@.len() ==> elems[j] == expr_view(v@[j]),
                        tail == elems.subrange(1, elems.len() as int),
                        1 <= i <= v@.len(),
                        vals@.len() == i - 1,
                        forall|j: int|
                            0 <= j < i - 1 ==> #[trigger] spec_eval(tail[j], env@) == Ok::<
                                Ast,
                                ErrView,
                            >(expr_view(vals@[j])),
                    decreases v@.len() - i,
                {
                    proof {
                        assert(decreases_to!(*self, 1int => v@[i as int], 1int));
                    }
                    match v[i].eval(env) {
                        Ok(val) => {
                            proof {
                                assert(tail[i - 1] == elems[i as int]);
                            }
                            vals.push(val);
                            proof {
                                assert(spec_eval(tail[i - 1], env@) == Ok::<Ast, ErrView>(
                                    expr_view(vals@[i - 1]),
                                ));
                            }
                        },
                        Err(e) => {
                            proof {
                                assert(tail[i - 1] == elems[i as int]);
                                lemma_eval_list_err(tail, env@, i - 1, crate::error::err_view(e));
                            }
                            return Err(e);
                        },
                    }
                    i = i + 1;
                }
                proof {
                    lemma_exprs_view(vals@);
                    lemma_eval_list_ok(tail, env@, exprs_view(vals@));
                }
                f.call(&vals)
            },
            Expr::Quote(q) => Ok(q.0.duplicate()),
            _ => Ok(self.duplicate()),
        }
    }
}

/// The value of a whole program: every form in order, the last one's value;
/// an empty program is Nil.
pub open spec fn spec_eval_program(forms: Seq<Ast>, env: Seq<(Seq<char>, Ast)>) -> Result<
    Ast,
    ErrView,
>
    decreases forms,
{
    if forms.len() == 0 {
        Ok(Ast::Nil)
    } else if forms.len() == 1 {
        spec_eval(forms[0], env)
    } else {
        match spec_eval(forms[0], env) {
            Err(e) => Err(e),
            Ok(_) => spec_eval_program(forms.subrange(1, forms.len() as int), env),
        }
    }
}

/// Evaluate the forms of a program in order against the environment; every
/// result but the last is dropped, the first error stops the run.
pub fn eval_program(forms: &Vec<Expr>, env: &Env) -> (r: Result<Expr, Error>)
    ensures
        res_view(r) == spec_eval_program(exprs_view(forms@), env@),
{
    proof {
        lemma_exprs_view(forms@);
    }
    let ghost models = exprs_view(forms@);
    if forms.len() == 0 {
        return Ok(Expr::Atom(Atom::Nil));
    }
    let mut i: usize = 0;
    let mut last: Result<Expr, Error> = Ok(Expr::Atom(Atom::Nil));
    while i < forms.len()
        invariant
            models == exprs_view(forms@),
            models.len() == forms@.len(),
            forall|j: int| 0 <= j < forms@.len() ==> models[j] == expr_view(forms@[j]),
            0 < forms@.len(),
            i <= forms@.len(),
            i > 0 ==> res_view(last) == spec_eval(models[i - 1], env@) && last is Ok,
            forall|j: int|
                0 <= j < i - 1 ==> #[trigger] spec_eval(models[j], env@) is Ok,
        decreases forms@.len() - i,
    {
        let step = forms[i].eval(env);
        if step.is_err() {
            proof {
                lemma_eval_program_err(models, env@, i as int);
            }
            return step;
        }
        last = step;
        i = i + 1;
    }
    proof {
        lemma_eval_program_last(models, env@);
    }
    last
}

/// A program whose forms all evaluate up to a failing form fails with it.
proof fn lemma_eval_program_err(forms: Seq<Ast>, env: Seq<(Seq<char>, Ast)>, k: int)
    requires
        0 <= k < forms.len(),
        forall|j: int| 0 <= j < k ==> #[trigger] spec_eval(forms[j], env) is Ok,
        spec_eval(forms[k], env) is Err,
    ensures
        spec_eval_program(forms, env) == spec_eval(forms[k], env),
    decreases forms,
{
    if k > 0 {
        lemma_eval_program_err(forms.subrange(1, forms.len() as int), env, k - 1);
    }
}

/// A program whose forms all evaluate yields the last form's value.
proof fn lemma_eval_program_last(forms: Seq<Ast>, env: Seq<(Seq<char>, Ast)>)
    requires
        forms.len() > 0,
        forall|j: int| 0 <= j < forms.len() - 1 ==> #[trigger] spec_eval(forms[j], env) is Ok,
    ensures
        spec_eval_program(forms, env) == spec_eval(forms.last(), env),
    decreases forms,
{
    if forms.len() > 1 {
        lemma_eval_program_last(forms.subrange(1, forms.len() as int), env);
    }
}

} // verus!
