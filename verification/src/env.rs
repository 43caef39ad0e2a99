use vstd::prelude::*;

use crate::ast::Ast;
use crate::ast::Expr;
use crate::ast::Symbol;
use crate::ast::expr_view;

verus! {

/// The name-binding environment: a mapping from symbols to values.
/// Binding overwrites; entries are never removed.
pub struct Env {
    entries: Vec<(Symbol, Expr)>,
}

/// The model of an environment: its bindings in the order they were made.
pub open spec fn env_view(s: Seq<(Symbol, Expr)>) -> Seq<(Seq<char>, Ast)> {
    s.map_values(|p: (Symbol, Expr)| (p.0@, expr_view(p.1)))
}

/// What a name resolves to: the latest binding wins.
pub open spec fn lookup_in(s: Seq<(Seq<char>, Ast)>, name: Seq<char>) -> Option<Ast>
    decreases s,
{
    if s.len() == 0 {
        None
    } else if s.last().0 == name {
        Some(s.last().1)
    } else {
        lookup_in(s.drop_last(), name)
    }
}

impl View for Env {
    type V = Seq<(Seq<char>, Ast)>;

    closed spec fn view(&self) -> Seq<(Seq<char>, Ast)> {
        env_view(self.entries@)
    }
}

impl Env {
    pub fn new() -> (r: Env)
        ensures
            r@ == Seq::<(Seq<char>, Ast)>::empty(),
    {
        let e = Env { entries: Vec::new() };
        proof {
            assert(e@ =~= Seq::<(Seq<char>, Ast)>::empty());
        }
        e
    }

    /// Bind a name to a value; any earlier binding of the same name is shadowed
    /// for good.
    pub fn bind(&mut self, name: Symbol, value: Expr)
        ensures
            final(self)@ == old(self)@ + seq![(name@, expr_view(value))],
    {
        let ghost oldv = self.entries@;
        self.entries.push((name, value));
        proof {
            assert(self@ =~= env_view(oldv) + seq![
                (self.entries@.last().0@, expr_view(self.entries@.last().1)),
            ]);
        }
    }

    /// Resolve a name to a copy of its latest bound value.
    pub fn lookup(&self, name: &Symbol) -> (r: Option<Expr>)
        ensures
            match r {
                Some(v) => lookup_in(self@, name@) == Some(expr_view(v)),
                None => lookup_in(self@, name@) is None,
            },
    {
        let mut i: usize = self.entries.len();
        proof {
            assert(self.entries@.subrange(0, i as int) =~= self.entries@);
        }
        while i > 0
            invariant
                i <= self.entries@.len(),
                lookup_in(self@, name@) == lookup_in(
                    env_view(self.entries@.subrange(0, i as int)),
                    name@,
                ),
        decreases i,
        {
            i = i - 1;
            let entry = &self.entries[i];
            if entry.0.0 == name.0 {
                proof {
                    assert(env_view(self.entries@.subrange(0, i as int + 1)).last() == (
                        name@,
                        expr_view(entry.1),
                    ));
                }
                return Some(entry.1.duplicate());
            }
            proof {
                assert(env_view(self.entries@.subrange(0, i as int + 1)).drop_last() =~= env_view(
                    self.entries@.subrange(0, i as int),
                ));
                assert(env_view(self.entries@.subrange(0, i as int + 1)).last().0 != name@);
            }
        }
        proof {
            assert(env_view(self.entries@.subrange(0, 0)) =~= Seq::<(Seq<char>, Ast)>::empty());
        }
        None
    }
}

} // verus!
