//! The scanner: one left-to-right pass turning source text into tokens.
//!
//! `scan_from` is the mathematical description of the whole pass; the
//! `Scanner` methods are proved against it step by step. A scan either
//! yields the full token sequence, ended by exactly one end-marker, or
//! fails fast on the first unexpected character or unterminated string.

use crate::number::{decimal_bits, digits_end, is_decimal_lexeme, is_digit, lemma_digits_end,
    lemma_digits_end_unique};
use crate::token::{make_string, Literal, LiteralV, Token, TokenV};
use crate::token_type::TokenType;
use vstd::prelude::*;

verus! {

broadcast use vstd::std_specs::vec::group_vec_axioms;

/// A fatal scan failure: the line it was noticed on and its message.
#[derive(Debug)]
pub struct ScanError {
    line: usize,
    message: String,
}

/// The mathematical value of a `ScanError`.
pub struct ScanErrV {
    pub line: nat,
    pub message: Seq<char>,
}

impl View for ScanError {
    type V = ScanErrV;

    closed spec fn view(&self) -> ScanErrV {
        ScanErrV { line: self.line as nat, message: self.message@ }
    }
}

impl ScanError {
    pub fn new(line: usize, message: &str) -> (e: ScanError)
        ensures
            e@ == (ScanErrV { line: line as nat, message: message@ }),
    {
        ScanError { line, message: String::from_str(message) }
    }

    pub fn line(&self) -> (l: usize)
        ensures
            l as nat == self@.line,
    {
        self.line
    }

    pub fn message(&self) -> (m: &String)
        ensures
            m@ == self@.message,
    {
        &self.message
    }
}

pub open spec fn is_alpha(c: char) -> bool {
    ('A' <= c <= 'Z') || ('a' <= c <= 'z') || c == '_'
}

pub open spec fn is_alnum(c: char) -> bool {
    is_alpha(c) || is_digit(c)
}

/// The first position at or after `pos` holding a newline, or the end.
pub open spec fn line_comment_end(s: Seq<char>, pos: int) -> int
    decreases s.len() - pos,
{
    if pos < 0 {
        0
    } else if pos < s.len() && s[pos] != '\n' {
        line_comment_end(s, pos + 1)
    } else if pos <= s.len() {
        pos
    } else {
        s.len() as int
    }
}

pub proof fn lemma_line_comment_end(s: Seq<char>, pos: int)
    requires
        0 <= pos <= s.len(),
    ensures
        pos <= line_comment_end(s, pos) <= s.len(),
        line_comment_end(s, pos) < s.len() ==> s[line_comment_end(s, pos)] == '\n',
    decreases s.len() - pos,
{
    if pos < s.len() && s[pos] != '\n' {
        lemma_line_comment_end(s, pos + 1);
    }
}

/// The first position at or after `pos` holding a double quote, or the end.
pub open spec fn string_end(s: Seq<char>, pos: int) -> int
    decreases s.len() - pos,
{
    if pos < 0 {
        0
    } else if pos < s.len() && s[pos] != '"' {
        string_end(s, pos + 1)
    } else if pos <= s.len() {
        pos
    } else {
        s.len() as int
    }
}

pub proof fn lemma_string_end(s: Seq<char>, pos: int)
    requires
        0 <= pos <= s.len(),
    ensures
        pos <= string_end(s, pos) <= s.len(),
        string_end(s, pos) < s.len() ==> s[string_end(s, pos)] == '"',
    decreases s.len() - pos,
{
    if pos < s.len() && s[pos] != '"' {
        lemma_string_end(s, pos + 1);
    }
}

/// The first position at or after `pos` holding no identifier character,
/// or the end.
pub open spec fn ident_end(s: Seq<char>, pos: int) -> int
    decreases s.len() - pos,
{
    if pos < 0 {
        0
    } else if pos < s.len() && is_alnum(s[pos]) {
        ident_end(s, pos + 1)
    } else if pos <= s.len() {
        pos
    } else {
        s.len() as int
    }
}

pub proof fn lemma_ident_end(s: Seq<char>, pos: int)
    requires
        0 <= pos <= s.len(),
    ensures
        pos <= ident_end(s, pos) <= s.len(),
        ident_end(s, pos) < s.len() ==> !is_alnum(s[ident_end(s, pos)]),
    decreases s.len() - pos,
{
    if pos < s.len() && is_alnum(s[pos]) {
        lemma_ident_end(s, pos + 1);
    }
}

/// How many newlines `s` holds in `[from, to)`.
pub open spec fn count_newlines(s: Seq<char>, from: int, to: int) -> nat
    decreases to - from,
{
    if from < to && 0 <= from < s.len() {
        (if s[from] == '\n' {
            1nat
        } else {
            0nat
        }) + count_newlines(s, from + 1, to)
    } else {
        0
    }
}

pub proof fn lemma_count_newlines_bound(s: Seq<char>, from: int, to: int)
    ensures
        count_newlines(s, from, to) <= (if to - from >= 0 {
            to - from
        } else {
            0
        }),
    decreases to - from,
{
    if from < to && 0 <= from < s.len() {
        lemma_count_newlines_bound(s, from + 1, to);
    }
}

/// Counting one more character extends the count by that character.
pub proof fn lemma_count_newlines_snoc(s: Seq<char>, from: int, to: int)
    requires
        0 <= from <= to < s.len(),
    ensures
        count_newlines(s, from, to + 1) == count_newlines(s, from, to) + (if s[to] == '\n' {
            1nat
        } else {
            0nat
        }),
    decreases to - from,
{
    if from < to {
        lemma_count_newlines_snoc(s, from + 1, to);
        assert(count_newlines(s, from, to + 1) == (if s[from] == '\n' {
            1nat
        } else {
            0nat
        }) + count_newlines(s, from + 1, to + 1));
    } else {
        assert(count_newlines(s, to + 1, to + 1) == 0);
        assert(count_newlines(s, to, to + 1) == (if s[to] == '\n' {
            1nat
        } else {
            0nat
        }) + count_newlines(s, to + 1, to + 1));
    }
}

/// The numeral a number token covers: digits, then a fractional part only
/// when a digit follows the point.
pub open spec fn number_end(s: Seq<char>, pos: int) -> int {
    let nd = digits_end(s, pos);
    if nd < s.len() && s[nd] == '.' && nd + 1 < s.len() && is_digit(s[nd + 1]) {
        digits_end(s, nd + 1)
    } else {
        nd
    }
}

/// The reserved-word table: a matching identifier lexeme scans as the
/// keyword's own token kind, anything else as `Identifier`.
pub open spec fn keyword_kind(w: Seq<char>) -> TokenType {
    if w == "and"@ {
        TokenType::And
    } else if w == "class"@ {
        TokenType::Class
    } else if w == "else"@ {
        TokenType::Else
    } else if w == "false"@ {
        TokenType::False
    } else if w == "for"@ {
        TokenType::For
    } else if w == "fun"@ {
        TokenType::Fun
    } else if w == "if"@ {
        TokenType::If
    } else if w == "nil"@ {
        TokenType::Nil
    } else if w == "or"@ {
        TokenType::Or
    } else if w == "print"@ {
        TokenType::Print
    } else if w == "return"@ {
        TokenType::Return
    } else if w == "super"@ {
        TokenType::Super
    } else if w == "this"@ {
        TokenType::This
    } else if w == "true"@ {
        TokenType::True
    } else if w == "var"@ {
        TokenType::Var
    } else if w == "while"@ {
        TokenType::While
    } else {
        TokenType::Identifier
    }
}

pub open spec fn mk_token(
    token_type: TokenType,
    lexeme: Seq<char>,
    literal: Option<LiteralV>,
    line: nat,
) -> TokenV {
    TokenV { token_type, lexeme, line, literal }
}

pub open spec fn eof_token(line: nat) -> TokenV {
    TokenV { token_type: TokenType::Eof, lexeme: Seq::empty(), line, literal: Option::None }
}

/// What one call of the scanner's step does at `pos`: emit a token, skip
/// silently, or fail.
pub enum ScanStep {
    Emit { tok: TokenV, next: int, line: nat },
    Silent { next: int, line: nat },
    Fail { line: nat, message: Seq<char> },
}

pub open spec fn simple_step(s: Seq<char>, pos: int, t: TokenType, line: nat) -> ScanStep {
    ScanStep::Emit {
        tok: mk_token(t, s.subrange(pos, pos + 1), Option::None, line),
        next: pos + 1,
        line,
    }
}

/// A one-character lookahead merge: the two-character operator when `=`
/// follows, the single-character one otherwise.
pub open spec fn two_char_step(
    s: Seq<char>,
    pos: int,
    single: TokenType,
    double: TokenType,
    line: nat,
) -> ScanStep {
    if pos + 1 < s.len() && s[pos + 1] == '=' {
        ScanStep::Emit {
            tok: mk_token(double, s.subrange(pos, pos + 2), Option::None, line),
            next: pos + 2,
            line,
        }
    } else {
        simple_step(s, pos, single, line)
    }
}

/// One step of the scan at position `pos` (which must hold a character):
/// exactly the case split of the scanner's dispatch.
pub open spec fn scan_step(s: Seq<char>, pos: int, line: nat) -> ScanStep {
    let c = s[pos];
    if c == '(' {
        simple_step(s, pos, TokenType::LeftParen, line)
    } else if c == ')' {
        simple_step(s, pos, TokenType::RightParen, line)
    } else if c == '{' {
        simple_step(s, pos, TokenType::LeftBrace, line)
    } else if c == '}' {
        simple_step(s, pos, TokenType::RightBrace, line)
    } else if c == ',' {
        simple_step(s, pos, TokenType::Comma, line)
    } else if c == '.' {
        simple_step(s, pos, TokenType::Dot, line)
    } else if c == '-' {
        simple_step(s, pos, TokenType::Minus, line)
    } else if c == '+' {
        simple_step(s, pos, TokenType::Plus, line)
    } else if c == ';' {
        simple_step(s, pos, TokenType::Semicolon, line)
    } else if c == '*' {
        simple_step(s, pos, TokenType::Star, line)
    } else if c == '!' {
        two_char_step(s, pos, TokenType::Bang, TokenType::BangEqual, line)
    } else if c == '=' {
        two_char_step(s, pos, TokenType::Equal, TokenType::EqualEqual, line)
    } else if c == '>' {
        two_char_step(s, pos, TokenType::Greater, TokenType::GreaterEqual, line)
    } else if c == '<' {
        two_char_step(s, pos, TokenType::Less, TokenType::LessEqual, line)
    } else if c == '/' {
        if pos + 1 < s.len() && s[pos + 1] == '/' {
            ScanStep::Silent { next: line_comment_end(s, pos + 2), line }
        } else {
            simple_step(s, pos, TokenType::Slash, line)
        }
    } else if c == ' ' || c == '\r' || c == '\t' {
        ScanStep::Silent { next: pos + 1, line }
    } else if c == '\n' {
        ScanStep::Silent { next: pos + 1, line: line + 1 }
    } else if c == '"' {
        let e = string_end(s, pos + 1);
        if e >= s.len() {
            ScanStep::Fail {
                line: line + count_newlines(s, pos + 1, s.len() as int),
                message: "Unterminated string."@,
            }
        } else {
            let l2 = line + count_newlines(s, pos + 1, e);
            ScanStep::Emit {
                tok: mk_token(
                    TokenType::String,
                    s.subrange(pos, e + 1),
                    Option::Some(LiteralV::Str(s.subrange(pos + 1, e))),
                    l2,
                ),
                next: e + 1,
                line: l2,
            }
        }
    } else if is_digit(c) {
        let e = number_end(s, pos);
        ScanStep::Emit {
            tok: mk_token(
                TokenType::Number,
                s.subrange(pos, e),
                Option::Some(LiteralV::Number(decimal_bits(s.subrange(pos, e)))),
                line,
            ),
            next: e,
            line,
        }
    } else if is_alpha(c) {
        let e = ident_end(s, pos + 1);
        ScanStep::Emit {
            tok: mk_token(keyword_kind(s.subrange(pos, e)), s.subrange(pos, e), Option::None, line),
            next: e,
            line,
        }
    } else {
        ScanStep::Fail { line, message: "Unexpected character"@ }
    }
}

/// Every step lands strictly later, inside the text, and advances the line
/// count by at most the characters consumed.
pub proof fn lemma_scan_step_progress(s: Seq<char>, pos: int, line: nat)
    requires
        0 <= pos < s.len(),
    ensures
        match scan_step(s, pos, line) {
            ScanStep::Emit { tok, next, line: l2 } => pos < next <= s.len() && line <= l2 <= line
                + (next - pos),
            ScanStep::Silent { next, line: l2 } => pos < next <= s.len() && line <= l2 <= line + (
            next - pos),
            ScanStep::Fail { .. } => true,
        },
{
    let c = s[pos];
    if c == '/' && pos + 1 < s.len() && s[pos + 1] == '/' {
        lemma_line_comment_end(s, pos + 2);
    } else if c == '"' {
        lemma_string_end(s, pos + 1);
        let e = string_end(s, pos + 1);
        if e < s.len() {
            lemma_count_newlines_bound(s, pos + 1, e);
        }
    } else if is_digit(c) && c != '"' {
        lemma_digits_end(s, pos);
        let nd = digits_end(s, pos);
        if nd < s.len() && s[nd] == '.' && nd + 1 < s.len() && is_digit(s[nd + 1]) {
            lemma_digits_end(s, nd + 1);
        }
    } else if is_alpha(c) {
        lemma_ident_end(s, pos + 1);
    }
}

/// The token sequence the rest of the text denotes from `pos` on, ended by
/// the end-marker, or the error that cuts the scan short.
pub open spec fn scan_from(s: Seq<char>, pos: int, line: nat) -> Result<Seq<TokenV>, ScanErrV>
    decreases s.len() - pos,
{
    if !(0 <= pos < s.len()) {
        Result::Ok(seq![eof_token(line)])
    } else {
        match scan_step(s, pos, line) {
            ScanStep::Emit { tok, next, line: l2 } => if pos < next <= s.len() {
                match scan_from(s, next, l2) {
                    Result::Ok(rest) => Result::Ok(seq![tok] + rest),
                    Result::Err(e) => Result::Err(e),
                }
            } else {
                Result::Err(ScanErrV { line: l2, message: Seq::empty() })
            },
            ScanStep::Silent { next, line: l2 } => if pos < next <= s.len() {
                scan_from(s, next, l2)
            } else {
                Result::Err(ScanErrV { line: l2, message: Seq::empty() })
            },
            ScanStep::Fail { line: l2, message } => Result::Err(
                ScanErrV { line: l2, message },
            ),
        }
    }
}

pub open spec fn toks_view(s: Seq<Token>) -> Seq<TokenV> {
    Seq::new(s.len(), |i: int| s[i]@)
}

} // verus!

verus! {

/// The view of an optional literal payload.
pub open spec fn lit_view(l: Option<Literal>) -> Option<LiteralV> {
    match l {
        Option::Some(x) => Option::Some(x@),
        Option::None => Option::None,
    }
}

/// The scanner's cursor state over the source characters.
pub struct Scanner {
    source: Vec<char>,
    tokens: Vec<Token>,
    start: usize,
    current: usize,
    line: usize,
}

impl View for Scanner {
    type V = Seq<char>;

    closed spec fn view(&self) -> Seq<char> {
        self.source@
    }
}

impl Scanner {
    /// A scanner that has not consumed anything yet.
    pub closed spec fn fresh(&self) -> bool {
        &&& self.tokens@.len() == 0
        &&& self.start == 0
        &&& self.current == 0
        &&& self.line == 1
    }

    spec fn sinv(&self) -> bool {
        &&& self.start <= self.current <= self.source@.len()
        &&& 1 <= self.line
        &&& self.line <= self.current + 1
    }

    pub fn new(source: &str) -> (s: Scanner)
        ensures
            s@ == source@,
            s.fresh(),
    {
        let n = source.unicode_len();
        let mut chars: Vec<char> = Vec::new();
        let mut i: usize = 0;
        while i < n
            invariant
                n == source@.len(),
                0 <= i <= n,
                chars@ =~= source@.subrange(0, i as int),
            decreases n - i,
        {
            chars.push(source.get_char(i));
            i += 1;
            proof {
                assert(chars@ =~= source@.subrange(0, i as int));
            }
        }
        proof {
            assert(chars@ =~= source@);
        }
        Scanner { source: chars, tokens: Vec::new(), start: 0, current: 0, line: 1 }
    }

    fn is_at_end(&self) -> (r: bool)
        ensures
            r == (self.current >= self.source@.len()),
    {
        self.current >= self.source.len()
    }

    fn peek(&self) -> (c: char)
        requires
            self.current < self.source@.len(),
        ensures
            c == self.source@[self.current as int],
    {
        self.source[self.current]
    }

    fn peek_next(&self) -> (c: Option<char>)
        requires
            self.current < self.source@.len(),
        ensures
            match c {
                Option::Some(ch) => self.current + 1 < self.source@.len() && ch == self.source@[
                    self.current + 1],
                Option::None => self.current + 1 >= self.source@.len(),
            },
    {
        let n = self.source.len();
        if self.current + 1 >= n {
            Option::None
        } else {
            Option::Some(self.source[self.current + 1])
        }
    }

    fn advance(&mut self) -> (c: char)
        requires
            old(self).current < old(self).source@.len(),
        ensures
            c == old(self).source@[old(self).current as int],
            final(self).current == old(self).current + 1,
            final(self).source == old(self).source,
            final(self).tokens == old(self).tokens,
            final(self).start == old(self).start,
            final(self).line == old(self).line,
    {
        let n = self.source.len();
        let c = self.source[self.current];
        self.current = self.current + 1;
        c
    }

    fn match_char(&mut self, expected: char) -> (r: bool)
        requires
            old(self).current <= old(self).source@.len(),
        ensures
            r == (old(self).current < old(self).source@.len() && old(self).source@[old(
                self,
            ).current as int] == expected),
            final(self).current == old(self).current + (if r {
                1int
            } else {
                0int
            }),
            final(self).source == old(self).source,
            final(self).tokens == old(self).tokens,
            final(self).start == old(self).start,
            final(self).line == old(self).line,
    {
        if self.current >= self.source.len() {
            return false;
        }
        if self.source[self.current] != expected {
            return false;
        }
        self.current = self.current + 1;
        true
    }

    fn add_token(&mut self, token_type: TokenType, literal: Option<Literal>)
        requires
            old(self).start <= old(self).current <= old(self).source@.len(),
        ensures
            toks_view(final(self).tokens@) =~= toks_view(old(self).tokens@).push(
                mk_token(
                    token_type,
                    old(self).source@.subrange(old(self).start as int, old(self).current as int),
                    lit_view(literal),
                    old(self).line as nat,
                ),
            ),
            final(self).source == old(self).source,
            final(self).start == old(self).start,
            final(self).current == old(self).current,
            final(self).line == old(self).line,
    {
        let text = make_string(&self.source, self.start, self.current);
        let token = Token::new(token_type, text, literal, self.line);
        self.tokens.push(token);
        proof {
            assert(toks_view(self.tokens@) =~= toks_view(old(self).tokens@).push(
                mk_token(
                    token_type,
                    old(self).source@.subrange(old(self).start as int, old(self).current as int),
                    lit_view(literal),
                    old(self).line as nat,
                ),
            ));
        }
    }
}

} // verus!

verus! {

/// Decides whether the lexeme is a reserved word; see `keyword_kind`.
fn keyword_or_ident(text: &String) -> (t: TokenType)
    ensures
        t == keyword_kind(text@),
{
    if text.eq(&String::from_str("and")) {
        TokenType::And
    } else if text.eq(&String::from_str("class")) {
        TokenType::Class
    } else if text.eq(&String::from_str("else")) {
        TokenType::Else
    } else if text.eq(&String::from_str("false")) {
        TokenType::False
    } else if text.eq(&String::from_str("for")) {
        TokenType::For
    } else if text.eq(&String::from_str("fun")) {
        TokenType::Fun
    } else if text.eq(&String::from_str("if")) {
        TokenType::If
    } else if text.eq(&String::from_str("nil")) {
        TokenType::Nil
    } else if text.eq(&String::from_str("or")) {
        TokenType::Or
    } else if text.eq(&String::from_str("print")) {
        TokenType::Print
    } else if text.eq(&String::from_str("return")) {
        TokenType::Return
    } else if text.eq(&String::from_str("super")) {
        TokenType::Super
    } else if text.eq(&String::from_str("this")) {
        TokenType::This
    } else if text.eq(&String::from_str("true")) {
        TokenType::True
    } else if text.eq(&String::from_str("var")) {
        TokenType::Var
    } else if text.eq(&String::from_str("while")) {
        TokenType::While
    } else {
        TokenType::Identifier
    }
}

fn is_digit_char(c: char) -> (r: bool)
    ensures
        r == is_digit(c),
{
    c >= '0' && c <= '9'
}

fn is_alpha_char(c: char) -> (r: bool)
    ensures
        r == is_alpha(c),
{
    (c >= 'A' && c <= 'Z') || (c >= 'a' && c <= 'z') || c == '_'
}

fn is_alnum_char(c: char) -> (r: bool)
    ensures
        r == is_alnum(c),
{
    is_alpha_char(c) || is_digit_char(c)
}

impl Scanner {
    /// A quote was just consumed: scan the string literal to its closing
    /// quote, counting the newlines it spans; unterminated is fatal.
    fn string(&mut self) -> (r: Result<(), ScanError>)
        requires
            old(self).start + 1 == old(self).current,
            old(self).current <= old(self).source@.len(),
            old(self).source@[old(self).start as int] == '"',
            old(self).line + old(self).source@.len() - old(self).current <= usize::MAX,
            1 <= old(self).line,
        ensures
            final(self).source == old(self).source,
            final(self).start == old(self).start,
            ({
                let s = old(self).source@;
                let p1 = old(self).current as int;
                let e = string_end(s, p1);
                let l2 = (old(self).line + count_newlines(s, p1, e)) as nat;
                if e >= s.len() {
                    &&& r matches Result::Err(err) && err@ == (ScanErrV {
                        line: (old(self).line + count_newlines(s, p1, s.len() as int)) as nat,
                        message: "Unterminated string."@,
                    })
                    &&& final(self).tokens == old(self).tokens
                } else {
                    &&& r is Ok
                    &&& toks_view(final(self).tokens@) =~= toks_view(old(self).tokens@).push(
                        mk_token(
                            TokenType::String,
                            s.subrange(p1 - 1, e + 1),
                            Option::Some(LiteralV::Str(s.subrange(p1, e))),
                            l2,
                        ),
                    )
                    &&& final(self).current == e + 1
                    &&& final(self).line == l2
                }
            }),
    {
        let ghost s = self.source@;
        let ghost p1 = self.current as int;
        let ghost l0 = self.line as nat;
        proof {
            lemma_string_end(s, p1);
        }
        loop
            invariant
                s == self.source@,
                p1 == old(self).current as int,
                l0 == old(self).line as nat,
                l0 + (s.len() - p1) <= usize::MAX,
                self.source == old(self).source,
                self.start == old(self).start,
                self.tokens == old(self).tokens,
                p1 <= self.current <= s.len(),
                string_end(s, p1) == string_end(s, self.current as int),
                self.line == l0 + count_newlines(s, p1, self.current as int),
            ensures
                self.source == old(self).source,
                self.start == old(self).start,
                self.tokens == old(self).tokens,
                self.current as int == string_end(s, p1),
                self.line == l0 + count_newlines(s, p1, string_end(s, p1)),
            decreases s.len() - self.current,
        {
            proof {
                lemma_count_newlines_bound(s, p1, self.current as int);
            }
            if self.is_at_end() {
                proof {
                    assert(string_end(s, self.current as int) == self.current as int);
                }
                break ;
            }
            let c = self.peek();
            if c == '"' {
                proof {
                    assert(string_end(s, self.current as int) == self.current as int);
                }
                break ;
            }
            proof {
                lemma_count_newlines_snoc(s, p1, self.current as int);
            }
            if c == '\n' {
                self.line = self.line + 1;
            }
            self.advance();
        }
        if self.is_at_end() {
            return Result::Err(ScanError::new(self.line, "Unterminated string."));
        }
        self.advance();
        let value = make_string(&self.source, self.start + 1, self.current - 1);
        self.add_token(TokenType::String, Option::Some(Literal::Str(value)));
        Result::Ok(())
    }

    /// The first digit was just consumed: scan the rest of the numeral and
    /// decode its value.
    #[verifier::loop_isolation(false)]
    fn number(&mut self)
        requires
            old(self).start + 1 == old(self).current,
            old(self).current <= old(self).source@.len(),
            is_digit(old(self).source@[old(self).start as int]),
        ensures
            final(self).source == old(self).source,
            final(self).start == old(self).start,
            final(self).line == old(self).line,
            ({
                let s = old(self).source@;
                let pos = old(self).start as int;
                let e = number_end(s, pos);
                &&& final(self).current == e
                &&& toks_view(final(self).tokens@) =~= toks_view(old(self).tokens@).push(
                    mk_token(
                        TokenType::Number,
                        s.subrange(pos, e),
                        Option::Some(LiteralV::Number(decimal_bits(s.subrange(pos, e)))),
                        old(self).line as nat,
                    ),
                )
            }),
    {
        let ghost s = self.source@;
        let ghost pos = self.start as int;
        proof {
            lemma_digits_end(s, pos);
        }
        while !self.is_at_end() && is_digit_char(self.peek())
            invariant
                self.source == old(self).source,
                self.start == old(self).start,
                self.tokens == old(self).tokens,
                self.line == old(self).line,
                pos < self.current <= s.len(),
                digits_end(s, pos) == digits_end(s, self.current as int),
            decreases s.len() - self.current,
        {
            self.advance();
        }
        proof {
            assert(digits_end(s, self.current as int) == self.current as int);
            assert(digits_end(s, pos) == self.current as int);
        }
        let ghost nd = self.current as int;
        let mut fractional: bool = false;
        if !self.is_at_end() {
            if self.peek() == '.' {
                match self.peek_next() {
                    Option::Some(c2) => {
                        if is_digit_char(c2) {
                            fractional = true;
                        }
                    },
                    Option::None => {},
                }
            }
        }
        if fractional {
            self.advance();
            proof {
                lemma_digits_end(s, nd + 1);
            }
            while !self.is_at_end() && is_digit_char(self.peek())
                invariant
                    self.source == old(self).source,
                    self.start == old(self).start,
                    self.tokens == old(self).tokens,
                    self.line == old(self).line,
                    nd + 1 <= self.current <= s.len(),
                    digits_end(s, nd + 1) == digits_end(s, self.current as int),
                decreases s.len() - self.current,
            {
                self.advance();
            }
            proof {
                assert(digits_end(s, self.current as int) == self.current as int);
                assert(digits_end(s, nd + 1) == self.current as int);
            }
        }
        proof {
            assert(number_end(s, pos) == self.current as int);
        }
        let lexeme = make_string(&self.source, self.start, self.current);
        proof {
            let lex = lexeme@;
            let e = self.current as int;
            assert forall|i: int| 0 <= i < nd - pos implies is_digit(#[trigger] lex[i]) by {
                assert(lex[i] == s[pos + i]);
            }
            if fractional {
                assert(lex[nd - pos] == s[nd]);
                assert(!is_digit('.'));
                lemma_digits_end_unique(lex, 0, nd - pos);
                assert forall|i: int| nd - pos + 1 <= i < e - pos implies is_digit(
                    #[trigger] lex[i],
                ) by {
                    assert(lex[i] == s[pos + i]);
                }
                lemma_digits_end_unique(lex, nd - pos + 1, e - pos);
                assert(is_decimal_lexeme(lex));
            } else {
                lemma_digits_end_unique(lex, 0, e - pos);
                assert(is_decimal_lexeme(lex));
            }
        }
        let bits = crate::number::float_of_decimal(lexeme.as_str());
        self.add_token(TokenType::Number, Option::Some(Literal::Number(bits)));
    }

    /// The first identifier character was just consumed: scan the rest and
    /// look the lexeme up in the reserved-word table.
    #[verifier::loop_isolation(false)]
    fn identifier(&mut self)
        requires
            old(self).start + 1 == old(self).current,
            old(self).current <= old(self).source@.len(),
        ensures
            final(self).source == old(self).source,
            final(self).start == old(self).start,
            final(self).line == old(self).line,
            ({
                let s = old(self).source@;
                let pos = old(self).start as int;
                let e = ident_end(s, pos + 1);
                &&& final(self).current == e
                &&& toks_view(final(self).tokens@) =~= toks_view(old(self).tokens@).push(
                    mk_token(
                        keyword_kind(s.subrange(pos, e)),
                        s.subrange(pos, e),
                        Option::None,
                        old(self).line as nat,
                    ),
                )
            }),
    {
        let ghost s = self.source@;
        let ghost p1 = self.current as int;
        proof {
            lemma_ident_end(s, p1);
        }
        while !self.is_at_end() && is_alnum_char(self.peek())
            invariant
                self.source == old(self).source,
                self.start == old(self).start,
                self.tokens == old(self).tokens,
                self.line == old(self).line,
                p1 <= self.current <= s.len(),
                ident_end(s, p1) == ident_end(s, self.current as int),
            decreases s.len() - self.current,
        {
            self.advance();
        }
        proof {
            assert(ident_end(s, self.current as int) == self.current as int);
            assert(ident_end(s, p1) == self.current as int);
        }
        let text = make_string(&self.source, self.start, self.current);
        let kind = keyword_or_ident(&text);
        self.add_token(kind, Option::None);
    }
}

} // verus!

verus! {

impl Scanner {
    /// One dispatch step: consumes one lexeme (or skips blanks and
    /// comments), exactly as `scan_step` describes.
    fn scan_token(&mut self) -> (r: Result<(), ScanError>)
        requires
            old(self).current < old(self).source@.len(),
            old(self).start == old(self).current,
            1 <= old(self).line,
            old(self).line + old(self).source@.len() - old(self).current <= usize::MAX,
        ensures
            final(self).source == old(self).source,
            final(self).start == old(self).start,
            match scan_step(old(self).source@, old(self).current as int, old(self).line as nat) {
                ScanStep::Emit { tok, next, line } => r is Ok && toks_view(final(self).tokens@)
                    =~= toks_view(old(self).tokens@).push(tok) && final(self).current == next
                    && final(self).line == line,
                ScanStep::Silent { next, line } => r is Ok && final(self).tokens == old(
                    self,
                ).tokens && final(self).current == next && final(self).line == line,
                ScanStep::Fail { line, message } => (r matches Result::Err(e) && e@ == (ScanErrV {
                    line,
                    message,
                })) && final(self).tokens == old(self).tokens,
            },
    {
        let ghost s = self.source@;
        let ghost pos = self.current as int;
        let ghost l0 = self.line as nat;
        let c = self.advance();
        if c == '(' {
            self.add_token(TokenType::LeftParen, Option::None);
            Result::Ok(())
        } else if c == ')' {
            self.add_token(TokenType::RightParen, Option::None);
            Result::Ok(())
        } else if c == '{' {
            self.add_token(TokenType::LeftBrace, Option::None);
            Result::Ok(())
        } else if c == '}' {
            self.add_token(TokenType::RightBrace, Option::None);
            Result::Ok(())
        } else if c == ',' {
            self.add_token(TokenType::Comma, Option::None);
            Result::Ok(())
        } else if c == '.' {
            self.add_token(TokenType::Dot, Option::None);
            Result::Ok(())
        } else if c == '-' {
            self.add_token(TokenType::Minus, Option::None);
            Result::Ok(())
        } else if c == '+' {
            self.add_token(TokenType::Plus, Option::None);
            Result::Ok(())
        } else if c == ';' {
            self.add_token(TokenType::Semicolon, Option::None);
            Result::Ok(())
        } else if c == '*' {
            self.add_token(TokenType::Star, Option::None);
            Result::Ok(())
        } else if c == '!' {
            if self.match_char('=') {
                self.add_token(TokenType::BangEqual, Option::None);
            } else {
                self.add_token(TokenType::Bang, Option::None);
            }
            Result::Ok(())
        } else if c == '=' {
            if self.match_char('=') {
                self.add_token(TokenType::EqualEqual, Option::None);
            } else {
                self.add_token(TokenType::Equal, Option::None);
            }
            Result::Ok(())
        } else if c == '>' {
            if self.match_char('=') {
                self.add_token(TokenType::GreaterEqual, Option::None);
            } else {
                self.add_token(TokenType::Greater, Option::None);
            }
            Result::Ok(())
        } else if c == '<' {
            if self.match_char('=') {
                self.add_token(TokenType::LessEqual, Option::None);
            } else {
                self.add_token(TokenType::Less, Option::None);
            }
            Result::Ok(())
        } else if c == '/' {
            if self.match_char('/') {
                let ghost c2 = self.current as int;
                while !self.is_at_end() && self.peek() != '\n'
                    invariant
                        s == self.source@,
                        self.source == old(self).source,
                        self.start == old(self).start,
                        self.tokens == old(self).tokens,
                        self.line == old(self).line,
                        c2 <= self.current <= s.len(),
                        line_comment_end(s, c2) == line_comment_end(s, self.current as int),
                    decreases s.len() - self.current,
                {
                    self.advance();
                }
                proof {
                    assert(line_comment_end(s, self.current as int) == self.current as int);
                }
                Result::Ok(())
            } else {
                self.add_token(TokenType::Slash, Option::None);
                Result::Ok(())
            }
        } else if c == ' ' || c == '\r' || c == '\t' {
            Result::Ok(())
        } else if c == '\n' {
            self.line = self.line + 1;
            Result::Ok(())
        } else if c == '"' {
            self.string()
        } else if is_digit_char(c) {
            self.number();
            Result::Ok(())
        } else if is_alpha_char(c) {
            self.identifier();
            Result::Ok(())
        } else {
            Result::Err(ScanError::new(self.line, "Unexpected character"))
        }
    }

    /// The whole pass: tokens for the entire source, ended by exactly one
    /// end-marker, or the first failure.
    pub fn scan_tokens(&mut self) -> (r: Result<Vec<Token>, ScanError>)
        requires
            old(self).fresh(),
            old(self)@.len() < usize::MAX,
        ensures
            final(self)@ == old(self)@,
            match r {
                Result::Ok(toks) => scan_from(old(self)@, 0, 1) matches Result::Ok(tv)
                    && toks_view(toks@) =~= tv,
                Result::Err(e) => scan_from(old(self)@, 0, 1) matches Result::Err(ev) && e@ == ev,
            },
    {
        let ghost src = self.source@;
        loop
            invariant
                src == self.source@,
                self.source == old(self).source,
                self.start <= self.current <= src.len(),
                1 <= self.line,
                self.line + src.len() - self.current <= usize::MAX,
                match scan_from(src, self.current as int, self.line as nat) {
                    Result::Ok(rest) => scan_from(src, 0, 1) matches Result::Ok(all) && all
                        =~= toks_view(self.tokens@) + rest,
                    Result::Err(e) => scan_from(src, 0, 1) matches Result::Err(e2) && e2 == e,
                },
            ensures
                src == self.source@,
                self.source == old(self).source,
                self.current >= src.len(),
                1 <= self.line,
                match scan_from(src, self.current as int, self.line as nat) {
                    Result::Ok(rest) => scan_from(src, 0, 1) matches Result::Ok(all) && all
                        =~= toks_view(self.tokens@) + rest,
                    Result::Err(e) => scan_from(src, 0, 1) matches Result::Err(e2) && e2 == e,
                },
            decreases src.len() - self.current,
        {
            if self.is_at_end() {
                break ;
            }
            self.start = self.current;
            let ghost pos = self.current as int;
            let ghost l0 = self.line as nat;
            let ghost toks0 = self.tokens@;
            proof {
                lemma_scan_step_progress(src, pos, l0);
            }
            match self.scan_token() {
                Result::Ok(()) => {
                    proof {
                        match scan_step(src, pos, l0) {
                            ScanStep::Emit { tok, next, line } => {
                                assert(scan_from(src, pos, l0) == (match scan_from(src, next, line) {
                                    Result::Ok(rest) => Result::<Seq<TokenV>, ScanErrV>::Ok(
                                        seq![tok] + rest,
                                    ),
                                    Result::Err(e) => Result::<Seq<TokenV>, ScanErrV>::Err(e),
                                }));
                                match scan_from(src, next, line) {
                                    Result::Ok(rest) => {
                                        assert(toks_view(toks0).push(tok) + rest =~= toks_view(
                                            toks0,
                                        ) + (seq![tok] + rest));
                                    },
                                    Result::Err(e) => {},
                                }
                            },
                            ScanStep::Silent { next, line } => {},
                            ScanStep::Fail { .. } => {},
                        }
                    }
                },
                Result::Err(e) => {
                    proof {
                        assert(scan_from(src, pos, l0) matches Result::Err(e2) && e2 == e@);
                    }
                    return Result::Err(e);
                },
            }
        }
        let ghost eline = self.line as nat;
        proof {
            assert(scan_from(src, self.current as int, eline) == Result::<
                Seq<TokenV>,
                ScanErrV,
            >::Ok(seq![eof_token(eline)]));
        }
        let eof = Token::new(TokenType::Eof, String::new(), Option::None, self.line);
        self.tokens.push(eof);
        let mut out: Vec<Token> = Vec::new();
        core::mem::swap(&mut out, &mut self.tokens);
        proof {
            match scan_from(src, 0, 1) {
                Result::Ok(all) => {
                    assert(toks_view(out@) =~= all);
                },
                Result::Err(_) => {},
            }
        }
        Result::Ok(out)
    }
}

} // verus!
