use vstd::prelude::*;

use crate::ast::Ast;
use crate::ast::Expr;
use crate::ast::expr_view;
use crate::ast::exprs_view;
use crate::ast::lemma_exprs_view;
use crate::flt::flt_render;
use crate::flt::flt_text_of;
use crate::text::chars_to_string;
use crate::text::is_digit;
use crate::text::str_to_chars;

verus! {

broadcast use vstd::seq::axiom_seq_index_decreases, vstd::seq::axiom_seq_subrange_decreases;

/// The decimal digit character for a value below ten.
pub open spec fn digit_char(d: int) -> char {
    ((d + 48) as u8) as char
}

/// The decimal text of a nonnegative number.
pub open spec fn nat_text(n: int) -> Seq<char>
    decreases n,
{
    if n < 10 {
        seq![digit_char(n)]
    } else {
        nat_text(n / 10) + seq![digit_char(n % 10)]
    }
}

/// The decimal text of a signed number.
pub open spec fn int_text(i: i64) -> Seq<char> {
    if i < 0 {
        seq!['-'] + nat_text(-(i as int))
    } else {
        nat_text(i as int)
    }
}

/// Text that would read back as an integer literal: an optional leading
/// minus, then digits and nothing else.
pub open spec fn plain_digits(s: Seq<char>) -> bool {
    let off: int = if s.len() > 0 && s[0] == '-' {
        1
    } else {
        0
    };
    s.len() > off && forall|i: int| off <= i < s.len() ==> is_digit(#[trigger] s[i])
}

/// The text a float atom prints as: the library that renders the value
/// writes whole doubles without a point, so one is appended to keep the
/// text reading back as a float.
pub open spec fn flt_text_marked(bits: u64) -> Seq<char> {
    if plain_digits(flt_text_of(bits)) {
        flt_text_of(bits) + ".0"@
    } else {
        flt_text_of(bits)
    }
}

/// The text an expression model prints as.
pub open spec fn spec_render(a: Ast) -> Seq<char>
    decreases a,
{
    match a {
        Ast::Bool(b) => if b {
            "#t"@
        } else {
            "#f"@
        },
        Ast::Int(i) => int_text(i),
        Ast::Flt(bits) => flt_text_marked(bits),
        Ast::Str(s) => seq!['"'] + s + seq!['"'],
        Ast::Sym(s) => s,
        Ast::Nil => "nil"@,
        Ast::Fun(name, op) => match name {
            Some(n) => seq!['#', '['] + n + seq![']'],
            None => seq!['#', '\u{03bb}'],
        },
        Ast::Lst(elems) => seq!['('] + render_each(elems) + seq![')'],
        Ast::Vtr(elems) => seq!['['] + render_each(elems) + seq![']'],
        Ast::Qt(inner) => seq!['\''] + spec_render(*inner),
    }
}

/// Elements side by side, one space between neighbours.
pub open spec fn render_each(s: Seq<Ast>) -> Seq<char>
    decreases s,
{
    if s.len() == 0 {
        Seq::empty()
    } else if s.len() == 1 {
        spec_render(s[0])
    } else {
        spec_render(s[0]) + seq![' '] + render_each(s.subrange(1, s.len() as int))
    }
}

/// The decimal digits of n, appended to out.
pub(crate) fn push_nat(n: u64, out: &mut Vec<char>)
    ensures
        final(out)@ == old(out)@ + nat_text(n as int),
    decreases n,
{
    if n < 10 {
        let c: u8 = (n as u8) + 48;
        out.push(c as char);
    } else {
        push_nat(n / 10, out);
        let d: u8 = ((n % 10) as u8) + 48;
        out.push(d as char);
        proof {
            assert(out@ =~= old(out)@ + nat_text(n as int));
        }
    }
}

/// The decimal text of a signed number, appended to out.
pub(crate) fn push_int(i: i64, out: &mut Vec<char>)
    ensures
        final(out)@ == old(out)@ + int_text(i),
{
    if i < 0 {
        out.push('-');
        let m: u64 = if i == i64::MIN {
            9223372036854775808u64
        } else {
            (-i) as u64
        };
        assert(m as int == -(i as int));
        push_nat(m, out);
        proof {
            assert(out@ =~= old(out)@ + int_text(i));
        }
    } else {
        push_nat(i as u64, out);
    }
}

/// A Vec of the characters of a str, so spec text can be appended.
pub(crate) fn push_str(s: &str, out: &mut Vec<char>)
    ensures
        final(out)@ == old(out)@ + s@,
{
    let chars = str_to_chars(s);
    let mut i: usize = 0;
    while i < chars.len()
        invariant
            i <= chars@.len(),
            chars@ == s@,
            out@ == old(out)@ + chars@.subrange(0, i as int),
        decreases chars@.len() - i,
    {
        out.push(chars[i]);
        i = i + 1;
        proof {
            assert(old(out)@ + chars@.subrange(0, i as int) =~= out@);
        }
    }
    proof {
        assert(chars@.subrange(0, chars@.len() as int) =~= chars@);
    }
}

/// The characters the expression prints as, appended to out.
pub(crate) fn render_chars(e: &Expr, out: &mut Vec<char>)
    ensures
        final(out)@ == old(out)@ + spec_render(expr_view(*e)),
    decreases *e, 1int,
{
    match e {
        Expr::Atom(a) => {
            match a {
                crate::ast::Atom::Bool(b) => {
                    if *b {
                        push_str("#t", out);
                    } else {
                        push_str("#f", out);
                    }
                },
                crate::ast::Atom::Int(i) => push_int(*i, out),
                crate::ast::Atom::Flt(bits) => {
                    let t = flt_render(*bits);
                    let chars = str_to_chars(t.as_str());
                    let start: usize = if chars.len() > 0 && chars[0] == '-' {
                        1
                    } else {
                        0
                    };
                    let mut bare = chars.len() > start;
                    let mut k = start;
                    while k < chars.len()
                        invariant
                            start <= k <= chars@.len(),
                            start == (if chars@.len() > 0 && chars@[0] == '-' {
                                1int
                            } else {
                                0int
                            }),
                            bare == (chars@.len() > start && forall|j: int|
                                start <= j < k ==> is_digit(#[trigger] chars@[j])),
                        decreases chars@.len() - k,
                    {
                        let c = chars[k];
                        if !('0' <= c && c <= '9') {
                            bare = false;
                        }
                        k = k + 1;
                    }
                    proof {
                        assert(bare == plain_digits(chars@));
                    }
                    push_str(t.as_str(), out);
                    if bare {
                        out.push('.');
                        out.push('0');
                        proof {
                            reveal_strlit(".0");
                            assert(out@ =~= old(out)@ + spec_render(expr_view(*e)));
                        }
                    }
                },
                crate::ast::Atom::Str(s) => {
                    out.push('"');
                    push_str(s.as_str(), out);
                    out.push('"');
                    proof {
                        assert(out@ =~= old(out)@ + spec_render(expr_view(*e)));
                    }
                },
                crate::ast::Atom::Sym(s) => push_str(s.0.as_str(), out),
                crate::ast::Atom::Nil => push_str("nil", out),
            }
        },
        Expr::Func(f) => {
            match &f.name {
                Some(n) => {
                    out.push('#');
                    out.push('[');
                    push_str(n.as_str(), out);
                    out.push(']');
                    proof {
                        assert(out@ =~= old(out)@ + spec_render(expr_view(*e)));
                    }
                },
                None => {
                    out.push('#');
                    out.push('\u{03bb}');
                    proof {
                        assert(out@ =~= old(out)@ + spec_render(expr_view(*e)));
                    }
                },
            }
        },
        Expr::List(l) => {
            out.push('(');
            render_kids(e, &l.0, out);
            out.push(')');
            proof {
                lemma_exprs_view(l.0@);
                assert(out@ =~= old(out)@ + spec_render(expr_view(*e)));
            }
        },
        Expr::Vector(w) => {
            out.push('[');
            render_kids(e, &w.0, out);
            out.push(']');
            proof {
                lemma_exprs_view(w.0@);
                assert(out@ =~= old(out)@ + spec_render(expr_view(*e)));
            }
        },
        Expr::Quote(q) => {
            out.push('\'');
            render_chars(&q.0, out);
            proof {
                assert(out@ =~= old(out)@ + spec_render(expr_view(*e)));
            }
        },
    }
}

/// The elements of an aggregate, space separated, appended to out.
/// `owner` is the aggregate itself; it only justifies termination.
fn render_kids(owner: &Expr, v: &Vec<Expr>, out: &mut Vec<char>)
    requires
        owner is List && *v == (*owner)->List_0.0 || owner is Vector && *v
            == (*owner)->Vector_0.0,
    ensures
        final(out)@ == old(out)@ + render_each(exprs_view(v@)),
    decreases *owner, 0int,
{
    let ghost models = exprs_view(v@);
    proof {
        lemma_exprs_view(v@);
    }
    let mut i: usize = 0;
    while i < v.len()
        invariant
            i <= v@.len(),
            owner is List && *v == (*owner)->List_0.0 || owner is Vector && *v
                == (*owner)->Vector_0.0,
            models == exprs_view(v@),
            models.len() == v@.len(),
            forall|j: int| 0 <= j < v@.len() ==> models[j] == expr_view(v@[j]),
            out@ == old(out)@ + render_prefix(models, i as int),
        decreases v@.len() - i,
    {
        proof {
            assert(decreases_to!(*owner => v@[i as int]));
        }
        if i > 0 {
            out.push(' ');
        }
        render_chars(&v[i], out);
        i = i + 1;
        proof {
            assert(out@ =~= old(out)@ + render_prefix(models, i as int));
        }
    }
    proof {
        lemma_render_prefix(models, models.len() as int);
    }
}

/// The first n elements rendered, space separated.
pub open spec fn render_prefix(s: Seq<Ast>, n: int) -> Seq<char>
    decreases n,
{
    if n <= 0 {
        Seq::empty()
    } else if n == 1 {
        spec_render(s[0])
    } else {
        render_prefix(s, n - 1) + seq![' '] + spec_render(s[n - 1])
    }
}

/// Rendering the whole prefix is rendering each element.
proof fn lemma_render_prefix(s: Seq<Ast>, n: int)
    requires
        0 <= n <= s.len(),
    ensures
        n == s.len() ==> render_prefix(s, n) == render_each(s),
    decreases s.len(),
{
    if s.len() > 0 && n == s.len() {
        lemma_render_prefix_shift(s, n);
    }
}

/// The prefix fold and the head-tail fold agree.
proof fn lemma_render_prefix_shift(s: Seq<Ast>, n: int)
    requires
        1 <= n <= s.len(),
    ensures
        render_prefix(s, n) == spec_render(s[0]) + (if n == 1 {
            Seq::<char>::empty()
        } else {
            seq![' '] + render_prefix(s.subrange(1, s.len() as int), n - 1)
        }),
        n == s.len() ==> render_prefix(s, n) == render_each(s),
    decreases n,
{
    let tail = s.subrange(1, s.len() as int);
    if n == 1 {
        assert(render_prefix(s, 1) =~= spec_render(s[0]) + Seq::<char>::empty());
        if n == s.len() {
            assert(render_prefix(s, n) == render_each(s));
        }
    } else {
        lemma_render_prefix_shift(s, n - 1);
        assert(tail[n - 2] == s[n - 1]);
        if n - 1 == 1 {
            assert(render_prefix(tail, 1) == spec_render(tail[0]));
            assert(render_prefix(s, n) =~= spec_render(s[0]) + (seq![' '] + render_prefix(
                tail,
                n - 1,
            )));
        } else {
            assert(render_prefix(s, n) =~= spec_render(s[0]) + (seq![' '] + render_prefix(
                tail,
                n - 1,
            )));
        }
        if n == s.len() {
            lemma_render_prefix_shift(tail, n - 1);
            assert(render_each(s) == spec_render(s[0]) + seq![' '] + render_each(tail));
            assert(render_prefix(tail, n - 1) == render_each(tail));
            assert(render_prefix(s, n) =~= render_each(s));
        }
    }
}

/// The printable text of an expression.
pub fn render(e: &Expr) -> (r: String)
    ensures
        r@ == spec_render(expr_view(*e)),
{
    let mut out: Vec<char> = Vec::new();
    render_chars(e, &mut out);
    proof {
        assert(Seq::<char>::empty() + spec_render(expr_view(*e)) =~= spec_render(expr_view(*e)));
    }
    chars_to_string(&out)
}

} // verus!
