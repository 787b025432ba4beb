use crate::token_type::TokenType;
use vstd::prelude::*;

verus! {

/// The decoded payload a literal token carries forward, so later stages
/// need not re-parse lexemes. Numbers are binary64 bit patterns.
#[derive(Debug, Clone, PartialEq)]
pub enum Literal {
    Identifier(String),
    Str(String),
    Number(u64),
    Bool(bool),
    Nil,
}

/// The mathematical value of a `Literal`.
pub enum LiteralV {
    Identifier(Seq<char>),
    Str(Seq<char>),
    Number(u64),
    Bool(bool),
    Nil,
}

impl View for Literal {
    type V = LiteralV;

    open spec fn view(&self) -> LiteralV {
        match self {
            Literal::Identifier(s) => LiteralV::Identifier(s@),
            Literal::Str(s) => LiteralV::Str(s@),
            Literal::Number(b) => LiteralV::Number(*b),
            Literal::Bool(b) => LiteralV::Bool(*b),
            Literal::Nil => LiteralV::Nil,
        }
    }
}

/// One lexeme of source text: its kind, its exact characters, the line it
/// started on, and, for literals, the decoded payload.
#[derive(Debug, Clone, PartialEq)]
pub struct Token {
    pub token_type: TokenType,
    pub lexeme: String,
    pub line: usize,
    pub literal: Option<Literal>,
}

/// The mathematical value of a `Token`.
pub struct TokenV {
    pub token_type: TokenType,
    pub lexeme: Seq<char>,
    pub line: nat,
    pub literal: Option<LiteralV>,
}

impl View for Token {
    type V = TokenV;

    open spec fn view(&self) -> TokenV {
        TokenV {
            token_type: self.token_type,
            lexeme: self.lexeme@,
            line: self.line as nat,
            literal: match self.literal {
                Option::Some(l) => Option::Some(l@),
                Option::None => Option::None,
            },
        }
    }
}

impl Token {
    pub fn new(token_type: TokenType, lexeme: String, literal: Option<Literal>, line: usize) -> (t:
        Token)
        ensures
            t@ == (TokenV {
                token_type,
                lexeme: lexeme@,
                line: line as nat,
                literal: match literal {
                    Option::Some(l) => Option::Some(l@),
                    Option::None => Option::None,
                },
            }),
    {
        Token { token_type, lexeme, literal, line }
    }

    /// An explicit copy whose mathematical value is the same; the derived
    /// `Clone` would give contracts nothing to hold on to.
    pub fn duplicate(&self) -> (t: Token)
        ensures
            t@ == self@,
    {
        Token {
            token_type: self.token_type,
            lexeme: self.lexeme.clone(),
            line: self.line,
            literal: match &self.literal {
                Option::Some(l) => Option::Some(l.duplicate()),
                Option::None => Option::None,
            },
        }
    }
}

impl Literal {
    /// An explicit copy whose mathematical value is the same.
    pub fn duplicate(&self) -> (l: Literal)
        ensures
            l@ == self@,
    {
        match self {
            Literal::Identifier(s) => Literal::Identifier(s.clone()),
            Literal::Str(s) => Literal::Str(s.clone()),
            Literal::Number(b) => Literal::Number(*b),
            Literal::Bool(b) => Literal::Bool(*b),
            Literal::Nil => Literal::Nil,
        }
    }
}

pub assume_specification[ std::string::String::push ](s: &mut std::string::String, c: char)
    ensures
        final(s)@ == old(s)@.push(c),
;

/// The characters of `v` between `from` and `to`, as an owned string.
pub fn make_string(v: &Vec<char>, from: usize, to: usize) -> (r: String)
    requires
        from <= to <= v@.len(),
    ensures
        r@ == v@.subrange(from as int, to as int),
{
    let mut r = String::new();
    let mut i: usize = from;
    while i < to
        invariant
            from <= i <= to <= v@.len(),
            r@ == v@.subrange(from as int, i as int),
        decreases to - i,
    {
        r.push(v[i]);
        i += 1;
        proof {
            assert(v@.subrange(from as int, i as int) =~= v@.subrange(from as int, i - 1).push(
                v@[i - 1],
            ));
        }
    }
    r
}

} // verus!
