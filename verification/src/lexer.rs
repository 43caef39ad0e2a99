use vstd::prelude::*;

use crate::error::Error;
use crate::flt::flt_of_text;
use crate::flt::flt_parse;
use crate::text::chars_to_string;
use crate::text::is_digit;
use crate::text::is_op_char;
use crate::text::is_space;
use crate::text::str_to_chars;
use crate::text::xid_continue;
use crate::text::xid_continue_of;
use crate::text::xid_start;
use crate::text::xid_start_of;
use crate::token::Literal;
use crate::token::Tok;
use crate::token::Token;
use crate::token::toks_view;

verus! {

broadcast use vstd::std_specs::vec::axiom_spec_len;

/// Where the run of decimal digits beginning at j ends.
pub open spec fn digits_end(t: Seq<char>, j: int) -> int
    decreases t.len() - j,
{
    if 0 <= j < t.len() && is_digit(t[j]) {
        digits_end(t, j + 1)
    } else {
        j
    }
}

pub broadcast proof fn lemma_digits_end(t: Seq<char>, j: int)
    requires
        0 <= j <= t.len(),
    ensures
        j <= #[trigger] digits_end(t, j) <= t.len(),
    decreases t.len() - j,
{
    if j < t.len() && is_digit(t[j]) {
        lemma_digits_end(t, j + 1);
    }
}

/// Every character of a digit run is a digit.
pub proof fn lemma_digits_all(t: Seq<char>, j: int)
    requires
        0 <= j <= t.len(),
    ensures
        forall|k: int| j <= k < digits_end(t, j) ==> is_digit(#[trigger] t[k]),
    decreases t.len() - j,
{
    lemma_digits_end(t, j);
    if j < t.len() && is_digit(t[j]) {
        lemma_digits_all(t, j + 1);
    }
}

/// A run of nothing but digits ends only at the text's end.
pub proof fn lemma_digits_end_full(t: Seq<char>, a: int)
    requires
        0 <= a <= t.len(),
        forall|k: int| a <= k < t.len() ==> is_digit(#[trigger] t[k]),
    ensures
        digits_end(t, a) == t.len(),
    decreases t.len() - a,
{
    if a < t.len() {
        lemma_digits_end_full(t, a + 1);
    }
}

/// Where the run of identifier-continue characters beginning at j ends.
pub open spec fn xid_end(t: Seq<char>, j: int) -> int
    decreases t.len() - j,
{
    if 0 <= j < t.len() && xid_continue_of(t[j]) {
        xid_end(t, j + 1)
    } else {
        j
    }
}

pub broadcast proof fn lemma_xid_end(t: Seq<char>, j: int)
    requires
        0 <= j <= t.len(),
    ensures
        j <= #[trigger] xid_end(t, j) <= t.len(),
    decreases t.len() - j,
{
    if j < t.len() && xid_continue_of(t[j]) {
        lemma_xid_end(t, j + 1);
    }
}

/// Where the run of operator characters beginning at j ends.
pub open spec fn op_end(t: Seq<char>, j: int) -> int
    decreases t.len() - j,
{
    if 0 <= j < t.len() && is_op_char(t[j]) {
        op_end(t, j + 1)
    } else {
        j
    }
}

pub broadcast proof fn lemma_op_end(t: Seq<char>, j: int)
    requires
        0 <= j <= t.len(),
    ensures
        j <= #[trigger] op_end(t, j) <= t.len(),
    decreases t.len() - j,
{
    if j < t.len() && is_op_char(t[j]) {
        lemma_op_end(t, j + 1);
    }
}

/// The position of the next double quote at or after j, or the text's end.
pub open spec fn find_quote(t: Seq<char>, j: int) -> int
    decreases t.len() - j,
{
    if 0 <= j < t.len() {
        if t[j] == '"' {
            j
        } else {
            find_quote(t, j + 1)
        }
    } else {
        j
    }
}

pub broadcast proof fn lemma_find_quote(t: Seq<char>, j: int)
    requires
        0 <= j <= t.len(),
    ensures
        j <= #[trigger] find_quote(t, j) <= t.len(),
    decreases t.len() - j,
{
    if j < t.len() && t[j] != '"' {
        lemma_find_quote(t, j + 1);
    }
}

/// The digits read into a value, left to right, starting from acc; None as
/// soon as the value passes the largest magnitude an integer atom can hold.
pub open spec fn digits_accum(t: Seq<char>, a: int, b: int, acc: u64) -> Option<u64>
    decreases b - a,
{
    if a >= b {
        Some(acc)
    } else {
        let d = (t[a] as u32) as int - 48;
        if (acc as int) * 10 + d > 0x8000000000000000 {
            None
        } else {
            digits_accum(t, a + 1, b, ((acc as int) * 10 + d) as u64)
        }
    }
}

/// An exponent marker with at least one digit follows at j.
pub open spec fn is_exp_at(t: Seq<char>, j: int) -> bool {
    &&& 0 <= j < t.len()
    &&& (t[j] == 'e' || t[j] == 'E')
    &&& {
        ||| (j + 1 < t.len() && is_digit(t[j + 1]))
        ||| (j + 2 < t.len() && (t[j + 1] == '+' || t[j + 1] == '-') && is_digit(t[j + 2]))
    }
}

/// Where the exponent part beginning at the marker ends.
pub open spec fn exp_end(t: Seq<char>, j: int) -> int {
    if j + 1 < t.len() && is_digit(t[j + 1]) {
        digits_end(t, j + 1)
    } else {
        digits_end(t, j + 2)
    }
}

/// After the integer digits, the text goes on as a float literal.
pub open spec fn flt_shape(t: Seq<char>, de: int) -> bool {
    ||| (de + 1 < t.len() && t[de] == '.' && is_digit(t[de + 1]))
    ||| is_exp_at(t, de)
}

/// Where the float literal whose integer digits end at de stops.
pub open spec fn flt_stop(t: Seq<char>, de: int) -> int {
    if de + 1 < t.len() && t[de] == '.' && is_digit(t[de + 1]) {
        let fe = digits_end(t, de + 1);
        if is_exp_at(t, fe) {
            exp_end(t, fe)
        } else {
            fe
        }
    } else {
        exp_end(t, de)
    }
}

/// The numeric literal beginning at i: its token and the position after it,
/// or the error for a literal too large for an integer atom.
pub open spec fn spec_num(t: Seq<char>, i: int) -> Result<(Tok, int), Error> {
    let sign = t[i] == '-';
    let ds = if sign {
        i + 1
    } else {
        i
    };
    let de = digits_end(t, ds);
    if flt_shape(t, de) {
        Ok((Tok::Flt(flt_of_text(t.subrange(i, flt_stop(t, de)))), flt_stop(t, de)))
    } else {
        match digits_accum(t, ds, de, 0) {
            None => Err(Error::LexError { position: i as usize, unexpected: t[i] }),
            Some(m) => if sign {
                Ok((Tok::Int(if m == 0x8000000000000000 {
                    i64::MIN
                } else {
                    (-(m as int)) as i64
                }), de))
            } else {
                if m > i64::MAX as u64 {
                    Err(Error::LexError { position: i as usize, unexpected: t[i] })
                } else {
                    Ok((Tok::Int(m as i64), de))
                }
            },
        }
    }
}

/// Numeric literals stop after at least one character, within the text.
proof fn lemma_spec_num_bounds(t: Seq<char>, i: int)
    requires
        0 <= i < t.len(),
        is_digit(t[i]) || (t[i] == '-' && i + 1 < t.len() && is_digit(t[i + 1])),
    ensures
        match spec_num(t, i) {
            Ok((k, n)) => i < n <= t.len(),
            Err(e) => true,
        },
{
    let sign = t[i] == '-';
    let ds = if sign {
        i + 1
    } else {
        i
    };
    assert(is_digit(t[ds]));
    assert(digits_end(t, ds) == digits_end(t, ds + 1));
    lemma_digits_end(t, ds + 1);
    let de = digits_end(t, ds);
    assert(de >= ds + 1);
    if flt_shape(t, de) {
        if de + 1 < t.len() && t[de] == '.' && is_digit(t[de + 1]) {
            lemma_digits_end(t, de + 1);
            let fe = digits_end(t, de + 1);
            if is_exp_at(t, fe) {
                if fe + 1 < t.len() && is_digit(t[fe + 1]) {
                    lemma_digits_end(t, fe + 1);
                } else {
                    lemma_digits_end(t, fe + 2);
                }
            }
        } else {
            if de + 1 < t.len() && is_digit(t[de + 1]) {
                lemma_digits_end(t, de + 1);
            } else {
                lemma_digits_end(t, de + 2);
            }
        }
    }
}

/// One token cons'd onto the rest of a lexing outcome.
pub open spec fn lex_cons(k: Tok, r: (Seq<Tok>, Option<Error>)) -> (Seq<Tok>, Option<Error>) {
    (seq![k] + r.0, r.1)
}

/// The tokens of the text from position i on, with the error that stopped
/// lexing if one did. Whitespace separates tokens and is dropped; everything
/// else follows the first rule that accepts its first character: string,
/// boolean, number, bracket, quote mark, identifier or operator symbol.
pub open spec fn spec_lex_from(t: Seq<char>, i: int) -> (Seq<Tok>, Option<Error>)
    decreases t.len() - i,
    via spec_lex_from_dec
{
    if i < 0 || i >= t.len() {
        (Seq::empty(), None)
    } else {
        let c = t[i];
        if is_space(c) {
            spec_lex_from(t, i + 1)
        } else if c == '(' {
            lex_cons(Tok::LParen, spec_lex_from(t, i + 1))
        } else if c == ')' {
            lex_cons(Tok::RParen, spec_lex_from(t, i + 1))
        } else if c == '[' {
            lex_cons(Tok::LBracket, spec_lex_from(t, i + 1))
        } else if c == ']' {
            lex_cons(Tok::RBracket, spec_lex_from(t, i + 1))
        } else if c == '\'' {
            lex_cons(Tok::Quote, spec_lex_from(t, i + 1))
        } else if c == '"' {
            let j = find_quote(t, i + 1);
            if j < t.len() {
                lex_cons(Tok::Str(t.subrange(i + 1, j)), spec_lex_from(t, j + 1))
            } else {
                (Seq::empty(), Some(Error::LexError { position: i as usize, unexpected: '"' }))
            }
        } else if c == '#' {
            if i + 1 < t.len() && t[i + 1] == 't' {
                lex_cons(Tok::Bool(true), spec_lex_from(t, i + 2))
            } else if i + 1 < t.len() && t[i + 1] == 'f' {
                lex_cons(Tok::Bool(false), spec_lex_from(t, i + 2))
            } else {
                (Seq::empty(), Some(Error::LexError { position: i as usize, unexpected: '#' }))
            }
        } else if is_digit(c) || (c == '-' && i + 1 < t.len() && is_digit(t[i + 1])) {
            match spec_num(t, i) {
                Ok((k, n)) => lex_cons(k, spec_lex_from(t, n)),
                Err(e) => (Seq::empty(), Some(e)),
            }
        } else if xid_start_of(c) {
            let e = xid_end(t, i + 1);
            lex_cons(Tok::Sym(t.subrange(i, e)), spec_lex_from(t, e))
        } else if is_op_char(c) {
            let e = op_end(t, i + 1);
            lex_cons(Tok::Sym(t.subrange(i, e)), spec_lex_from(t, e))
        } else {
            (Seq::empty(), Some(Error::LexError { position: i as usize, unexpected: c }))
        }
    }
}

#[via_fn]
proof fn spec_lex_from_dec(t: Seq<char>, i: int) {
    if 0 <= i < t.len() {
        let c = t[i];
        lemma_find_quote(t, i + 1);
        lemma_xid_end(t, i + 1);
        lemma_op_end(t, i + 1);
        if is_digit(c) || (c == '-' && i + 1 < t.len() && is_digit(t[i + 1])) {
            lemma_spec_num_bounds(t, i);
        }
    }
}

/// The characters of v from a up to b, as their own vector.
pub(crate) fn sub_chars(v: &Vec<char>, a: usize, b: usize) -> (r: Vec<char>)
    requires
        a <= b <= v@.len(),
    ensures
        r@ == v@.subrange(a as int, b as int),
{
    let mut out: Vec<char> = Vec::new();
    let mut j: usize = a;
    while j < b
        invariant
            a <= j <= b <= v@.len(),
            out@ == v@.subrange(a as int, j as int),
        decreases b - j,
    {
        out.push(v[j]);
        j = j + 1;
        proof {
            assert(out@ =~= v@.subrange(a as int, j as int));
        }
    }
    out
}

/// Lex the whole character vector from position i, pushing each token; the
/// first character no rule accepts stops the run with its error.
fn lex_from(t: &Vec<char>, i: usize, out: &mut Vec<Token>) -> (err: Option<Error>)
    requires
        i <= t@.len(),
    ensures
        toks_view(final(out)@) == toks_view(old(out)@) + spec_lex_from(t@, i as int).0,
        err == spec_lex_from(t@, i as int).1,
    decreases t@.len() - i,
{
    proof {
        broadcast use lemma_digits_end, lemma_xid_end, lemma_op_end, lemma_find_quote;
    }
    if i >= t.len() {
        proof {
            assert(toks_view(out@) =~= toks_view(out@) + spec_lex_from(t@, i as int).0);
        }
        return None;
    }
    let ghost full = t@;
    let c = t[i];
    if c == ' ' || c == '\t' || c == '\n' || c == '\r' {
        return lex_from(t, i + 1, out);
    }
    if c == '(' || c == ')' || c == '[' || c == ']' || c == '\'' {
        let k = if c == '(' {
            Token::LParen
        } else if c == ')' {
            Token::RParen
        } else if c == '[' {
            Token::LBracket
        } else if c == ']' {
            Token::RBracket
        } else {
            Token::Quote
        };
        out.push(k);
        let ghost mid = out@;
        let e2 = lex_from(t, i + 1, out);
        proof {
            assert(toks_view(mid) =~= toks_view(old(out)@) + seq![tok_view_of(full, i as int)]);
            assert(toks_view(out@) =~= toks_view(old(out)@) + spec_lex_from(full, i as int).0);
        }
        return e2;
    }
    if c == '"' {
        let mut j = i + 1;
        while j < t.len() && t[j] != '"'
            invariant
                i + 1 <= j <= t@.len(),
                find_quote(t@, i as int + 1) == find_quote(t@, j as int),
            decreases t@.len() - j,
        {
            j = j + 1;
        }
        if j < t.len() {
            let body = sub_chars(t, i + 1, j);
            out.push(Token::Literal(Literal::Str(chars_to_string(&body))));
            let ghost mid = out@;
            let e2 = lex_from(t, j + 1, out);
            proof {
                assert(toks_view(mid) =~= toks_view(old(out)@) + seq![
                    Tok::Str(full.subrange(i as int + 1, j as int)),
                ]);
                assert(toks_view(out@) =~= toks_view(old(out)@) + spec_lex_from(
                    full,
                    i as int,
                ).0);
            }
            return e2;
        } else {
            proof {
                assert(toks_view(out@) =~= toks_view(old(out)@) + spec_lex_from(
                    full,
                    i as int,
                ).0);
            }
            return Some(Error::LexError { position: i, unexpected: '"' });
        }
    }
    if c == '#' {
        if i + 1 < t.len() && (t[i + 1] == 't' || t[i + 1] == 'f') {
            let b = t[i + 1] == 't';
            out.push(Token::Literal(Literal::Bool(b)));
            let ghost mid = out@;
            let e2 = lex_from(t, i + 2, out);
            proof {
                assert(toks_view(mid) =~= toks_view(old(out)@) + seq![Tok::Bool(b)]);
                assert(toks_view(out@) =~= toks_view(old(out)@) + spec_lex_from(
                    full,
                    i as int,
                ).0);
            }
            return e2;
        } else {
            proof {
                assert(toks_view(out@) =~= toks_view(old(out)@) + spec_lex_from(
                    full,
                    i as int,
                ).0);
            }
            return Some(Error::LexError { position: i, unexpected: '#' });
        }
    }
    let c_digit = '0' <= c && c <= '9';
    let next_digit = i + 1 < t.len() && '0' <= t[i + 1] && t[i + 1] <= '9';
    if c_digit || (c == '-' && next_digit) {
        return lex_num(t, i, out);
    }
    if xid_start(c) {
        let mut j = i + 1;
        while j < t.len() && xid_continue(t[j])
            invariant
                i + 1 <= j <= t@.len(),
                xid_end(t@, i as int + 1) == xid_end(t@, j as int),
            decreases t@.len() - j,
        {
            j = j + 1;
        }
        let name = sub_chars(t, i, j);
        out.push(Token::Symbol(chars_to_string(&name)));
        let ghost mid = out@;
        let e2 = lex_from(t, j, out);
        proof {
            assert(toks_view(mid) =~= toks_view(old(out)@) + seq![
                Tok::Sym(full.subrange(i as int, j as int)),
            ]);
            assert(toks_view(out@) =~= toks_view(old(out)@) + spec_lex_from(full, i as int).0);
        }
        return e2;
    }
    if c == '+' || c == '-' || c == '*' || c == '/' || c == '=' || c == '<' || c == '>' {
        let mut j = i + 1;
        while j < t.len() && (t[j] == '+' || t[j] == '-' || t[j] == '*' || t[j] == '/' || t[j]
            == '=' || t[j] == '<' || t[j] == '>')
            invariant
                i + 1 <= j <= t@.len(),
                op_end(t@, i as int + 1) == op_end(t@, j as int),
            decreases t@.len() - j,
        {
            j = j + 1;
        }
        let name = sub_chars(t, i, j);
        out.push(Token::Symbol(chars_to_string(&name)));
        let ghost mid = out@;
        let e2 = lex_from(t, j, out);
        proof {
            assert(toks_view(mid) =~= toks_view(old(out)@) + seq![
                Tok::Sym(full.subrange(i as int, j as int)),
            ]);
            assert(toks_view(out@) =~= toks_view(old(out)@) + spec_lex_from(full, i as int).0);
        }
        return e2;
    }
    proof {
        assert(toks_view(out@) =~= toks_view(old(out)@) + spec_lex_from(full, i as int).0);
    }
    Some(Error::LexError { position: i, unexpected: c })
}

/// The token the spec assigns to a single-character delimiter.
pub open spec fn tok_view_of(t: Seq<char>, i: int) -> Tok {
    if t[i] == '(' {
        Tok::LParen
    } else if t[i] == ')' {
        Tok::RParen
    } else if t[i] == '[' {
        Tok::LBracket
    } else if t[i] == ']' {
        Tok::RBracket
    } else {
        Tok::Quote
    }
}

/// Lex the numeric literal at i, then the rest of the text.
fn lex_num(t: &Vec<char>, i: usize, out: &mut Vec<Token>) -> (err: Option<Error>)
    requires
        i < t@.len(),
        is_digit(t@[i as int]) || (t@[i as int] == '-' && i + 1 < t@.len() && is_digit(
            t@[i as int + 1],
        )),
    ensures
        toks_view(final(out)@) == toks_view(old(out)@) + spec_lex_from(t@, i as int).0,
        err == spec_lex_from(t@, i as int).1,
    decreases t@.len() - i, 0int,
{
    proof {
        broadcast use lemma_digits_end, lemma_xid_end, lemma_op_end, lemma_find_quote;
        vstd::std_specs::vec::axiom_spec_len(t);
        lemma_spec_num_bounds(t@, i as int);
    }
    let c = t[i];
    let sign = c == '-';
    let ds = if sign {
        i + 1
    } else {
        i
    };
    let mut de = ds;
    while de < t.len() && '0' <= t[de] && t[de] <= '9'
        invariant
            ds <= de <= t@.len(),
            digits_end(t@, ds as int) == digits_end(t@, de as int),
        decreases t@.len() - de,
    {
        de = de + 1;
    }
    proof {
        assert(digits_end(t@, de as int) == de as int);
        lemma_digits_all(t@, ds as int);
    }
    let is_flt_dot = de < t.len() && t[de] == '.' && de + 1 < t.len() && '0' <= t[de + 1]
        && t[de + 1] <= '9';
    let is_exp_here = exp_at(t, de);
    if is_flt_dot || is_exp_here {
        let stop: usize = if is_flt_dot {
            let mut fe = de + 1;
            while fe < t.len() && '0' <= t[fe] && t[fe] <= '9'
                invariant
                    de + 1 <= fe <= t@.len(),
                    digits_end(t@, de as int + 1) == digits_end(t@, fe as int),
                decreases t@.len() - fe,
            {
                fe = fe + 1;
            }
            if exp_at(t, fe) {
                scan_exp(t, fe)
            } else {
                fe
            }
        } else {
            scan_exp(t, de)
        };
        let body = sub_chars(t, i, stop);
        let text = chars_to_string(&body);
        let bits = flt_parse(text.as_str());
        out.push(Token::Literal(Literal::Flt(bits)));
        let ghost mid = out@;
        let e2 = lex_from(t, stop, out);
        proof {
            assert(toks_view(mid) =~= toks_view(old(out)@) + seq![
                Tok::Flt(flt_of_text(t@.subrange(i as int, stop as int))),
            ]);
            assert(toks_view(out@) =~= toks_view(old(out)@) + spec_lex_from(t@, i as int).0);
        }
        return e2;
    }
    let mut acc: u64 = 0;
    let mut cur = ds;
    while cur < de
        invariant
            i < t@.len(),
            c == t@[i as int],
            sign == (c == '-'),
            ds as int == (if sign {
                i as int + 1
            } else {
                i as int
            }),
            is_digit(t@[i as int]) || (t@[i as int] == '-' && i + 1 < t@.len() && is_digit(
                t@[i as int + 1],
            )),
            !flt_shape(t@, de as int),
            out@ == old(out)@,
            ds <= cur <= de <= t@.len(),
            digits_end(t@, ds as int) == de,
            forall|k: int| ds <= k < de ==> is_digit(#[trigger] t@[k]),
            acc <= 0x8000000000000000u64,
            digits_accum(t@, ds as int, de as int, 0) == digits_accum(
                t@,
                cur as int,
                de as int,
                acc,
            ),
        decreases de - cur,
    {
        proof {
            assert(is_digit(t@[cur as int]));
        }
        let d: u64 = ((t[cur] as u32) - 48) as u64;
        let wide: u128 = (acc as u128) * 10 + (d as u128);
        proof {
            assert(wide as int == (acc as int) * 10 + ((t@[cur as int] as u32) as int - 48));
        }
        if wide > 0x8000000000000000u128 {
            proof {
                reveal_with_fuel(digits_accum, 2);
                assert(cur < de);
                assert(wide as int > 0x8000000000000000);
                assert(wide as int == (acc as int) * 10 + ((t@[cur as int] as u32) as int
                    - 48));
                assert((acc as int) * 10 + ((t@[cur as int] as u32) as int - 48)
                    > 0x8000000000000000);
                assert(digits_accum(t@, cur as int, de as int, acc) is None);
                assert(digits_accum(t@, ds as int, de as int, 0) is None);
                assert(toks_view(out@) =~= toks_view(old(out)@) + spec_lex_from(
                    t@,
                    i as int,
                ).0);
            }
            return Some(Error::LexError { position: i, unexpected: c });
        }
        acc = wide as u64;
        cur = cur + 1;
    }
    proof {
        assert(digits_accum(t@, ds as int, de as int, 0) == Some(acc));
    }
    let value: i64 = if sign {
        if acc == 0x8000000000000000u64 {
            i64::MIN
        } else {
            -(acc as i64)
        }
    } else {
        if acc > i64::MAX as u64 {
            proof {
                assert(toks_view(out@) =~= toks_view(old(out)@) + spec_lex_from(
                    t@,
                    i as int,
                ).0);
            }
            return Some(Error::LexError { position: i, unexpected: c });
        }
        acc as i64
    };
    out.push(Token::Literal(Literal::Int(value)));
    let ghost mid = out@;
    let e2 = lex_from(t, de, out);
    proof {
        assert(toks_view(mid) =~= toks_view(old(out)@) + seq![Tok::Int(value)]);
        assert(toks_view(out@) =~= toks_view(old(out)@) + spec_lex_from(t@, i as int).0);
    }
    e2
}

/// Whether a well-formed exponent part starts at j, matching the spec's rule.
fn exp_at(t: &Vec<char>, j: usize) -> (r: bool)
    requires
        j <= t@.len(),
    ensures
        r == is_exp_at(t@, j as int),
{
    j < t.len() && (t[j] == 'e' || t[j] == 'E') && ((j + 1 < t.len() && '0' <= t[j + 1] && t[j
        + 1] <= '9') || (j + 1 < t.len() && (t[j + 1] == '+' || t[j + 1] == '-') && j + 2
        < t.len() && '0' <= t[j + 2] && t[j + 2] <= '9'))
}

/// The end of the exponent part whose marker stands at j.
fn scan_exp(t: &Vec<char>, j: usize) -> (r: usize)
    requires
        is_exp_at(t@, j as int),
    ensures
        r == exp_end(t@, j as int),
        j < r <= t@.len(),
{
    proof {
        broadcast use lemma_digits_end;
        vstd::std_specs::vec::axiom_spec_len(t);
    }
    let start: usize = if j + 1 < t.len() && '0' <= t[j + 1] && t[j + 1] <= '9' {
        j + 1
    } else {
        j + 2
    };
    let mut k = start;
    while k < t.len() && '0' <= t[k] && t[k] <= '9'
        invariant
            start <= k <= t@.len(),
            digits_end(t@, start as int) == digits_end(t@, k as int),
        decreases t@.len() - k,
    {
        k = k + 1;
    }
    k
}

/// Turn source text into tokens. The text is lexed left to right; the
/// tokens up to the first offending character are returned beside the
/// error, if one stopped the run.
pub fn lex(text: &str) -> (r: (Vec<Token>, Option<Error>))
    ensures
        toks_view(r.0@) == spec_lex_from(text@, 0).0,
        r.1 == spec_lex_from(text@, 0).1,
{
    let chars = str_to_chars(text);
    let mut out: Vec<Token> = Vec::new();
    let err = lex_from(&chars, 0, &mut out);
    proof {
        assert(toks_view(Seq::<Token>::empty()) =~= Seq::<Tok>::empty());
        assert(toks_view(out@) =~= spec_lex_from(text@, 0).0);
    }
    (out, err)
}

} // verus!
