use vstd::prelude::*;

verus! {

/// A literal constant as the lexer delivers it. A float literal carries the
/// IEEE 754 double bit pattern of its value.
#[derive(Clone, Debug, PartialEq)]
pub enum Literal {
    Bool(bool),
    Int(i64),
    Flt(u64),
    Str(String),
}

/// One lexeme of source text.
#[derive(Clone, Debug, PartialEq)]
pub enum Token {
    Literal(Literal),
    Symbol(String),
    LParen,
    RParen,
    LBracket,
    RBracket,
    Quote,
}

/// The mathematical model of a token.
pub ghost enum Tok {
    Bool(bool),
    Int(i64),
    Flt(u64),
    Str(Seq<char>),
    Sym(Seq<char>),
    LParen,
    RParen,
    LBracket,
    RBracket,
    Quote,
}

pub open spec fn tok_view(t: Token) -> Tok {
    match t {
        Token::Literal(Literal::Bool(b)) => Tok::Bool(b),
        Token::Literal(Literal::Int(i)) => Tok::Int(i),
        Token::Literal(Literal::Flt(bits)) => Tok::Flt(bits),
        Token::Literal(Literal::Str(s)) => Tok::Str(s@),
        Token::Symbol(s) => Tok::Sym(s@),
        Token::LParen => Tok::LParen,
        Token::RParen => Tok::RParen,
        Token::LBracket => Tok::LBracket,
        Token::RBracket => Tok::RBracket,
        Token::Quote => Tok::Quote,
    }
}

impl View for Token {
    type V = Tok;

    open spec fn view(&self) -> Tok {
        tok_view(*self)
    }
}

pub open spec fn toks_view(s: Seq<Token>) -> Seq<Tok> {
    s.map_values(|t: Token| tok_view(t))
}

pub broadcast proof fn lemma_toks_view(s: Seq<Token>)
    ensures
        (#[trigger] toks_view(s)).len() == s.len(),
        forall|i: int| 0 <= i < s.len() ==> toks_view(s)[i] == tok_view(s[i]),
{
}

impl Token {
    pub fn duplicate(&self) -> (r: Token)
        ensures
            r@ == self@,
    {
        match self {
            Token::Literal(Literal::Bool(b)) => Token::Literal(Literal::Bool(*b)),
            Token::Literal(Literal::Int(i)) => Token::Literal(Literal::Int(*i)),
            Token::Literal(Literal::Flt(bits)) => Token::Literal(Literal::Flt(*bits)),
            Token::Literal(Literal::Str(s)) => Token::Literal(Literal::Str(s.clone())),
            Token::Symbol(s) => Token::Symbol(s.clone()),
            Token::LParen => Token::LParen,
            Token::RParen => Token::RParen,
            Token::LBracket => Token::LBracket,
            Token::RBracket => Token::RBracket,
            Token::Quote => Token::Quote,
        }
    }
}

} // verus!
