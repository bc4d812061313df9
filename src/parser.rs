//! Lexer and recursive-descent parser for lambda terms.
//!
//! Grammar: `expr := atom+` (application, left-associative) and
//! `atom := IDENT | '(' expr ')' | ('\' | 'λ') IDENT expr`.
use vstd::prelude::*;

use crate::interpret::size;
use crate::lambda::{render, LambdaExpr, Term};

verus! {

/// Unicode White_Space, as `char::is_whitespace` documents it.
pub open spec fn is_space(c: char) -> bool {
    ||| c == ' '
    ||| ('\t' <= c && c <= '\r')
    ||| c == '\u{85}'
    ||| c == '\u{a0}'
    ||| c == '\u{1680}'
    ||| ('\u{2000}' <= c && c <= '\u{200a}')
    ||| c == '\u{2028}'
    ||| c == '\u{2029}'
    ||| c == '\u{202f}'
    ||| c == '\u{205f}'
    ||| c == '\u{3000}'
}

/// The characters with a meaning of their own.
pub open spec fn is_reserved(c: char) -> bool {
    c == '(' || c == ')' || c == '\\' || c == 'λ'
}

/// Whether `c` may stand in an identifier.
pub open spec fn ident_char(c: char) -> bool {
    !is_space(c) && !is_reserved(c)
}

/// A lexical token.
pub enum Token {
    Ident(Seq<char>),
    LParen,
    RParen,
    Lambda,
}

/// The length of the identifier at the start of `s`.
pub open spec fn ident_len(s: Seq<char>) -> nat
    decreases s.len(),
{
    if s.len() > 0 && ident_char(s[0]) {
        1 + ident_len(s.drop_first())
    } else {
        0
    }
}

proof fn lemma_ident_len(s: Seq<char>)
    ensures
        ident_len(s) <= s.len(),
    decreases s.len(),
{
    if s.len() > 0 && ident_char(s[0]) {
        lemma_ident_len(s.drop_first());
    }
}

/// The tokens of `s`; whitespace only separates them.
pub open spec fn tokens(s: Seq<char>) -> Seq<Token>
    decreases s.len() via tokens_decreases
{
    if s.len() == 0 {
        Seq::empty()
    } else if is_space(s[0]) {
        tokens(s.drop_first())
    } else if s[0] == '(' {
        seq![Token::LParen] + tokens(s.drop_first())
    } else if s[0] == ')' {
        seq![Token::RParen] + tokens(s.drop_first())
    } else if s[0] == '\\' || s[0] == 'λ' {
        seq![Token::Lambda] + tokens(s.drop_first())
    } else {
        let n = ident_len(s);
        seq![Token::Ident(s.take(n as int))] + tokens(s.skip(n as int))
    }
}

#[via_fn]
proof fn tokens_decreases(s: Seq<char>) {
    lemma_ident_len(s);
}

/// The kind of a token, or of the end of input.
#[derive(Debug, PartialEq, Eq, Structural, Clone, Copy)]
pub enum TokenType {
    Ident,
    LParen,
    RParen,
    Lambda,
    EOF,
}

/// What the parser expected where it failed.
#[derive(Debug, PartialEq, Eq, Clone, Copy)]
pub enum Expected {
    /// The start of an expression.
    Expression,
    /// A parameter name after an abstraction marker.
    Ident,
    /// A closing parenthesis.
    RParen,
    /// The end of input, after a complete expression.
    EndOfInput,
}

/// A parse failure: what was expected, and the token found instead.
#[derive(Debug, PartialEq, Eq, Clone, Copy)]
pub struct ParseError {
    pub expected: Expected,
    pub found: TokenType,
}

/// The kind of the first token of `ts`.
pub open spec fn kind(ts: Seq<Token>) -> TokenType {
    if ts.len() == 0 {
        TokenType::EOF
    } else {
        match ts[0] {
            Token::Ident(_) => TokenType::Ident,
            Token::LParen => TokenType::LParen,
            Token::RParen => TokenType::RParen,
            Token::Lambda => TokenType::Lambda,
        }
    }
}

impl TokenType {
    pub open spec fn begins_expr(self) -> bool {
        self is Ident || self is LParen || self is Lambda
    }

    /// Whether an expression can start with a token of this kind.
    pub fn can_begin_expr(&self) -> (r: bool)
        ensures
            r == self.begins_expr(),
    {
        match *self {
            TokenType::Ident => true,
            TokenType::LParen => true,
            TokenType::RParen => false,
            TokenType::Lambda => true,
            TokenType::EOF => false,
        }
    }
}

/// What parsing a prefix of a token sequence yields: the term and the
/// tokens left over, or the failure.
pub type Parsed = Result<(Term, Seq<Token>), ParseError>;

/// Parses one atom at the start of `ts`.
pub open spec fn atom_of(ts: Seq<Token>) -> Parsed
    decreases ts.len(), 0int,
{
    match kind(ts) {
        TokenType::Ident => Ok((Term::Var(ts[0]->Ident_0), ts.drop_first())),
        TokenType::LParen => match expr_of(ts.drop_first()) {
            Ok((t, rest)) => if kind(rest) is RParen {
                Ok((t, rest.drop_first()))
            } else {
                Err(ParseError { expected: Expected::RParen, found: kind(rest) })
            },
            Err(e) => Err(e),
        },
        TokenType::Lambda => if !(kind(ts.drop_first()) is Ident) {
            Err(ParseError { expected: Expected::Ident, found: kind(ts.drop_first()) })
        } else {
            match expr_of(ts.skip(2)) {
                Ok((body, rest)) => Ok((Term::Abs(ts[1]->Ident_0, Box::new(body)), rest)),
                Err(e) => Err(e),
            }
        },
        other => Err(ParseError { expected: Expected::Expression, found: other }),
    }
}

/// Parses an expression at the start of `ts`: one atom or more.
pub open spec fn expr_of(ts: Seq<Token>) -> Parsed
    decreases ts.len(), 1int,
{
    match atom_of(ts) {
        Ok((t, rest)) => if rest.len() < ts.len() {
            tail_of(t, rest)
        } else {
            Ok((t, rest))
        },
        Err(e) => Err(e),
    }
}

/// Applies `acc` to each further atom at the start of `ts`.
pub open spec fn tail_of(acc: Term, ts: Seq<Token>) -> Parsed
    decreases ts.len(), 2int,
{
    if kind(ts).begins_expr() {
        match atom_of(ts) {
            Ok((a, rest)) => if rest.len() < ts.len() {
                tail_of(Term::App(Box::new(acc), Box::new(a)), rest)
            } else {
                Ok((Term::App(Box::new(acc), Box::new(a)), rest))
            },
            Err(e) => Err(e),
        }
    } else {
        Ok((acc, ts))
    }
}

/// The term that `s` denotes, or why it denotes none: the whole text must be
/// one expression, with no token left over.
pub open spec fn parse_text(s: Seq<char>) -> Result<Term, ParseError> {
    match expr_of(tokens(s)) {
        Ok((t, rest)) => if rest.len() == 0 {
            Ok(t)
        } else {
            Err(ParseError { expected: Expected::EndOfInput, found: kind(rest) })
        },
        Err(e) => Err(e),
    }
}

/// Whether `v` can be written as an identifier.
pub open spec fn valid_name(v: Seq<char>) -> bool {
    v.len() > 0 && forall|i: int| 0 <= i < v.len() ==> ident_char(#[trigger] v[i])
}

/// Whether rendering `t` is free of ambiguity: every name is an identifier,
/// no abstraction is applied, and an abstraction is an argument only where
/// nothing follows it (`at_end`).
pub open spec fn unambiguous(t: Term, at_end: bool) -> bool
    decreases t,
{
    match t {
        Term::Var(v) => valid_name(v),
        Term::Abs(v, e) => at_end && valid_name(v) && unambiguous(*e, true),
        Term::App(a, b) => unambiguous(*a, false) && match *b {
            Term::App(_, _) => unambiguous(*b, true),
            _ => unambiguous(*b, at_end),
        },
    }
}

/// The tokens of the rendering of `t`.
pub open spec fn render_tokens(t: Term) -> Seq<Token>
    decreases t,
{
    match t {
        Term::Var(v) => seq![Token::Ident(v)],
        Term::App(a, b) => render_tokens(*a) + match *b {
            Term::App(_, _) => seq![Token::LParen] + render_tokens(*b) + seq![Token::RParen],
            _ => render_tokens(*b),
        },
        Term::Abs(v, e) => seq![Token::Lambda, Token::Ident(v)] + render_tokens(*e),
    }
}

/// The tokens of `t` as an argument: parenthesized when it is an application.
pub open spec fn atom_tokens(t: Term) -> Seq<Token> {
    match t {
        Term::App(_, _) => seq![Token::LParen] + render_tokens(t) + seq![Token::RParen],
        _ => render_tokens(t),
    }
}

proof fn lemma_ident_prefix(v: Seq<char>, s: Seq<char>)
    requires
        forall|i: int| 0 <= i < v.len() ==> ident_char(#[trigger] v[i]),
        s.len() == 0 || !ident_char(s[0]),
    ensures
        ident_len(v + s) == v.len(),
    decreases v.len(),
{
    if v.len() > 0 {
        assert((v + s).drop_first() =~= v.drop_first() + s);
        assert((v + s)[0] == v[0]);
        lemma_ident_prefix(v.drop_first(), s);
    } else {
        assert(v + s =~= s);
    }
}

proof fn lemma_tokens_ident(v: Seq<char>, s: Seq<char>)
    requires
        valid_name(v),
        s.len() == 0 || !ident_char(s[0]),
    ensures
        tokens(v + s) == seq![Token::Ident(v)] + tokens(s),
{
    lemma_ident_prefix(v, s);
    assert((v + s)[0] == v[0]);
    assert(ident_char(v[0]));
    assert((v + s).take(v.len() as int) =~= v);
    assert((v + s).skip(v.len() as int) =~= s);
}

proof fn lemma_tokens_char(c: char, s: Seq<char>)
    requires
        is_space(c) || is_reserved(c),
    ensures
        tokens(seq![c] + s) == if is_space(c) {
            tokens(s)
        } else if c == '(' {
            seq![Token::LParen] + tokens(s)
        } else if c == ')' {
            seq![Token::RParen] + tokens(s)
        } else {
            seq![Token::Lambda] + tokens(s)
        },
{
    assert((seq![c] + s).drop_first() =~= s);
    assert((seq![c] + s)[0] == c);
}

/// The rendering of `t`, followed by text that does not continue a name,
/// lexes into the tokens of `t` followed by those of the text.
proof fn lemma_tokens_render(t: Term, at_end: bool, s: Seq<char>)
    requires
        unambiguous(t, at_end),
        s.len() == 0 || !ident_char(s[0]),
    ensures
        tokens(render(t) + s) == render_tokens(t) + tokens(s),
    decreases t,
{
    match t {
        Term::Var(v) => lemma_tokens_ident(v, s),
        Term::App(a, b) => {
            let paren = match *b {
                Term::App(_, _) => seq!['('] + render(*b) + seq![')'],
                _ => render(*b),
            };
            let s1 = seq![' '] + (paren + s);
            assert(render(t) + s =~= render(*a) + s1);
            lemma_tokens_render(*a, false, s1);
            lemma_tokens_char(' ', paren + s);
            match *b {
                Term::App(_, _) => {
                    let s2 = seq![')'] + s;
                    assert(paren + s =~= seq!['('] + (render(*b) + s2));
                    lemma_tokens_char('(', render(*b) + s2);
                    lemma_tokens_render(*b, true, s2);
                    lemma_tokens_char(')', s);
                    assert(render_tokens(t) + tokens(s) =~= render_tokens(*a) + (seq![Token::LParen]
                        + (render_tokens(*b) + (seq![Token::RParen] + tokens(s)))));
                },
                _ => {
                    lemma_tokens_render(*b, at_end, s);
                    assert(render_tokens(t) + tokens(s) =~= render_tokens(*a) + (render_tokens(*b)
                        + tokens(s)));
                },
            }
        },
        Term::Abs(v, e) => {
            let s2 = seq![' '] + (render(*e) + s);
            assert(render(t) + s =~= seq!['λ'] + (v + s2));
            lemma_tokens_char('λ', v + s2);
            lemma_tokens_ident(v, s2);
            lemma_tokens_char(' ', render(*e) + s);
            lemma_tokens_render(*e, true, s);
            assert(render_tokens(t) + tokens(s) =~= seq![Token::Lambda] + (seq![Token::Ident(v)] + (
            render_tokens(*e) + tokens(s))));
        },
    }
}

pub open spec fn atom_measure(t: Term) -> nat {
    if t is App {
        size(t) + 1
    } else {
        size(t)
    }
}

/// An argument's tokens parse back as one atom.
proof fn lemma_parse_atom(b: Term, at_end: bool, rest: Seq<Token>)
    requires
        b is App ==> unambiguous(b, true),
        !(b is App) ==> unambiguous(b, at_end),
        at_end ==> !kind(rest).begins_expr(),
    ensures
        atom_of(atom_tokens(b) + rest) == Parsed::Ok((b, rest)),
    decreases atom_measure(b), 0int,
{
    let ts = atom_tokens(b) + rest;
    match b {
        Term::Var(v) => {
            assert(ts[0] == Token::Ident(v));
            assert(ts.drop_first() =~= rest);
        },
        Term::App(_, _) => {
            let inner = seq![Token::RParen] + rest;
            assert(ts[0] == Token::LParen);
            assert(ts.drop_first() =~= render_tokens(b) + inner);
            lemma_parse_expr(b, true, inner);
            assert(inner[0] == Token::RParen);
            assert(inner.drop_first() =~= rest);
        },
        Term::Abs(v, e) => {
            assert(ts[0] == Token::Lambda);
            assert(ts[1] == Token::Ident(v));
            assert(ts.drop_first()[0] == Token::Ident(v));
            assert(ts.skip(2) =~= render_tokens(*e) + rest);
            lemma_parse_expr(*e, true, rest);
        },
    }
}

/// A term's tokens parse back as an expression, ready for further arguments.
proof fn lemma_parse_expr(t: Term, at_end: bool, rest: Seq<Token>)
    requires
        unambiguous(t, at_end),
        at_end ==> !kind(rest).begins_expr(),
    ensures
        expr_of(render_tokens(t) + rest) == tail_of(t, rest),
    decreases size(t), 1int,
{
    match t {
        Term::App(a, b) => {
            let rest1 = atom_tokens(*b) + rest;
            assert(render_tokens(t) + rest =~= render_tokens(*a) + rest1);
            lemma_parse_expr(*a, false, rest1);
            lemma_parse_atom(*b, at_end, rest);
            lemma_tail_prefix(*a, *b, rest);
        },
        _ => {
            lemma_parse_atom(t, at_end, rest);
            assert(atom_tokens(t) == render_tokens(t));
        },
    }
}

proof fn lemma_tail_prefix(a: Term, b: Term, rest: Seq<Token>)
    requires
        atom_of(atom_tokens(b) + rest) == Parsed::Ok((b, rest)),
    ensures
        tail_of(a, atom_tokens(b) + rest) == tail_of(Term::App(Box::new(a), Box::new(b)), rest),
{
    let ts = atom_tokens(b) + rest;
    reveal_with_fuel(render_tokens, 2);
    assert(ts[0] == atom_tokens(b)[0]);
    assert(kind(ts).begins_expr());
}

/// Rendering an unambiguous term and parsing the text gives the term back;
/// so rendering the parsed term gives the same text again.
pub proof fn lemma_round_trip(t: Term)
    requires
        unambiguous(t, true),
    ensures
        parse_text(render(t)) == Ok::<Term, ParseError>(t),
        parse_text(render(t)) matches Ok(u) && render(u) == render(t),
{
    let empty = Seq::<char>::empty();
    lemma_tokens_render(t, true, empty);
    assert(render(t) + empty =~= render(t));
    assert(tokens(empty) =~= Seq::<Token>::empty());
    assert(render_tokens(t) + Seq::<Token>::empty() =~= render_tokens(t));
    lemma_parse_expr(t, true, Seq::<Token>::empty());
}

/// Whether `c` is whitespace.
fn is_space_char(c: char) -> (r: bool)
    ensures
        r == is_space(c),
{
    c == ' ' || ('\t' <= c && c <= '\r') || c == '\u{85}' || c == '\u{a0}' || c == '\u{1680}'
        || ('\u{2000}' <= c && c <= '\u{200a}') || c == '\u{2028}' || c == '\u{2029}'
        || c == '\u{202f}' || c == '\u{205f}' || c == '\u{3000}'
}

/// Whether `c` may stand in an identifier.
fn is_ident_char(c: char) -> (r: bool)
    ensures
        r == ident_char(c),
{
    !is_space_char(c) && c != '(' && c != ')' && c != '\\' && c != 'λ'
}

proof fn lemma_skip_space(s: Seq<char>, p: int)
    requires
        0 <= p < s.len(),
        is_space(s[p]),
    ensures
        tokens(s.skip(p)) == tokens(s.skip(p + 1)),
{
    assert(s.skip(p).drop_first() =~= s.skip(p + 1));
}

/// Whether `p` is the first position at or after `from` in `s` that holds
/// no whitespace (or the end of `s`).
pub open spec fn settles_at(s: Seq<char>, from: int, p: int) -> bool {
    &&& from <= p <= s.len()
    &&& forall|k: int| from <= k < p ==> is_space(#[trigger] s[k])
    &&& p < s.len() ==> !is_space(s[p])
}

/// A cursor over the characters of the input; it never rests on whitespace.
struct Lexer<'a> {
    contents: &'a str,
    chars: Vec<char>,
    pos: usize,
}

impl<'a> Lexer<'a> {
    spec fn wf(&self) -> bool {
        &&& self.contents@ == self.chars@
        &&& self.pos <= self.chars.len()
        &&& self.pos < self.chars.len() ==> !is_space(self.chars@[self.pos as int])
    }

    /// The tokens not yet consumed.
    spec fn rest(&self) -> Seq<Token> {
        tokens(self.chars@.skip(self.pos as int))
    }

    /// The first position at or after `from` that holds no whitespace.
    fn skip_spaces(chars: &Vec<char>, from: usize) -> (r: usize)
        requires
            from <= chars.len(),
        ensures
            settles_at(chars@, from as int, r as int),
            tokens(chars@.skip(r as int)) == tokens(chars@.skip(from as int)),
    {
        let mut i = from;
        while i < chars.len() && is_space_char(chars[i])
            invariant
                from <= i <= chars.len(),
                forall|k: int| from <= k < i ==> is_space(#[trigger] chars@[k]),
                tokens(chars@.skip(i as int)) == tokens(chars@.skip(from as int)),
            decreases chars.len() - i,
        {
            proof {
                lemma_skip_space(chars@, i as int);
            }
            i = i + 1;
        }
        i
    }

    fn new(contents: &'a str) -> (r: Lexer<'a>)
        ensures
            r.wf(),
            r.rest() == tokens(contents@),
    {
        let mut chars: Vec<char> = Vec::new();
        for c in it: contents.chars()
            invariant
                chars@ == it.seq().take(it.index() as int),
        {
            chars.push(c);
        }
        assert(chars@ =~= contents@);
        let pos = Lexer::skip_spaces(&chars, 0);
        assert(chars@.skip(0) =~= chars@);
        Lexer { contents, chars, pos }
    }

    /// The kind of the next token.
    fn peek(&self) -> (r: TokenType)
        requires
            self.wf(),
        ensures
            r == kind(self.rest()),
    {
        if self.pos < self.chars.len() {
            let ch = self.chars[self.pos];
            assert(self.chars@.skip(self.pos as int)[0] == ch);
            if ch == '(' {
                TokenType::LParen
            } else if ch == ')' {
                TokenType::RParen
            } else if ch == '\\' || ch == 'λ' {
                TokenType::Lambda
            } else {
                TokenType::Ident
            }
        } else {
            assert(self.chars@.skip(self.pos as int) =~= Seq::<char>::empty());
            TokenType::EOF
        }
    }

    /// Consumes the next token; an identifier is handed back.
    fn consume(&mut self) -> (r: Option<String>)
        requires
            old(self).wf(),
        ensures
            final(self).wf(),
            kind(old(self).rest()) is EOF ==> final(self).rest() == old(self).rest() && r is None,
            !(kind(old(self).rest()) is EOF) ==> final(self).rest() == old(self).rest().drop_first(),
            r is Some <==> kind(old(self).rest()) is Ident,
            r matches Some(n) ==> n@ == old(self).rest()[0]->Ident_0,
            final(self).chars@ == old(self).chars@,
            final(self).contents == old(self).contents,
            kind(old(self).rest()) is EOF ==> final(self).pos == old(self).pos,
            kind(old(self).rest()) is LParen || kind(old(self).rest()) is RParen || kind(
                old(self).rest(),
            ) is Lambda ==> settles_at(
                old(self).chars@,
                old(self).pos + 1,
                final(self).pos as int,
            ),
            kind(old(self).rest()) is Ident ==> settles_at(
                old(self).chars@,
                old(self).pos + ident_len(old(self).chars@.skip(old(self).pos as int)),
                final(self).pos as int,
            ),
            r matches Some(n) ==> n@ == old(self).chars@.subrange(
                old(self).pos as int,
                old(self).pos + ident_len(old(self).chars@.skip(old(self).pos as int)),
            ),
    {
        let kind = self.peek();
        let ghost s = self.chars@;
        let ghost p = self.pos as int;
        match kind {
            TokenType::EOF => None,
            TokenType::LParen | TokenType::RParen | TokenType::Lambda => {
                assert(s.skip(p).drop_first() =~= s.skip(p + 1));
                self.pos = Lexer::skip_spaces(&self.chars, self.pos + 1);
                None
            },
            TokenType::Ident => {
                let mut j = self.pos;
                while j < self.chars.len() && is_ident_char(self.chars[j])
                    invariant
                        self.wf(),
                        s == self.chars@,
                        p == self.pos,
                        p <= j <= self.chars.len(),
                        ident_len(s.skip(p)) == (j - p) + ident_len(s.skip(j as int)),
                    decreases self.chars.len() - j,
                {
                    assert(s.skip(j as int).drop_first() =~= s.skip(j + 1));
                    j = j + 1;
                }
                let ghost n = (j - self.pos) as int;
                assert(s.skip(p).take(n) =~= s.subrange(p, j as int));
                assert(s.skip(p).skip(n) =~= s.skip(j as int));
                let name = String::from_str(self.contents.substring_char(self.pos, j));
                self.pos = Lexer::skip_spaces(&self.chars, j);
                Some(name)
            },
        }
    }
}

/// Parses one atom.
fn parse_atom(lex: &mut Lexer) -> (r: Result<LambdaExpr, ParseError>)
    requires
        old(lex).wf(),
    ensures
        final(lex).wf(),
        r matches Ok(t) ==> atom_of(old(lex).rest()) == Parsed::Ok((t@, final(lex).rest()))
            && final(lex).rest().len() < old(lex).rest().len(),
        r matches Err(e) ==> atom_of(old(lex).rest()) == Parsed::Err(e),
    decreases old(lex).rest().len(), 0int,
{
    proof {
        reveal_with_fuel(crate::lambda::model, 2);
    }
    let ghost ts = lex.rest();
    match lex.peek() {
        TokenType::Ident => Ok(LambdaExpr::Variable(lex.consume().unwrap())),
        TokenType::LParen => {
            lex.consume();
            let result = match parse_expr(lex) {
                Ok(t) => t,
                Err(e) => return Err(e),
            };
            if lex.peek() != TokenType::RParen {
                Err(ParseError { expected: Expected::RParen, found: lex.peek() })
            } else {
                lex.consume();
                Ok(result)
            }
        },
        TokenType::Lambda => {
            lex.consume();
            if lex.peek() != TokenType::Ident {
                return Err(ParseError { expected: Expected::Ident, found: lex.peek() });
            }
            let param = lex.consume().unwrap();
            assert(ts.skip(2) =~= ts.drop_first().drop_first());
            match parse_expr(lex) {
                Ok(body) => Ok(LambdaExpr::Lambda(param, Box::new(body))),
                Err(e) => Err(e),
            }
        },
        other => Err(ParseError { expected: Expected::Expression, found: other }),
    }
}

/// Parses an expression: one atom or more, applied left to right.
fn parse_expr(lex: &mut Lexer) -> (r: Result<LambdaExpr, ParseError>)
    requires
        old(lex).wf(),
    ensures
        final(lex).wf(),
        r matches Ok(t) ==> expr_of(old(lex).rest()) == Parsed::Ok((t@, final(lex).rest()))
            && final(lex).rest().len() < old(lex).rest().len(),
        r matches Err(e) ==> expr_of(old(lex).rest()) == Parsed::Err(e),
    decreases old(lex).rest().len(), 1int,
{
    proof {
        reveal_with_fuel(crate::lambda::model, 2);
    }
    let ghost start = lex.rest();
    let mut tree = match parse_atom(lex) {
        Ok(t) => t,
        Err(e) => return Err(e),
    };
    while lex.peek().can_begin_expr()
        invariant
            lex.wf(),
            start == old(lex).rest(),
            lex.rest().len() < start.len(),
            expr_of(start) == tail_of(tree@, lex.rest()),
        decreases lex.rest().len(),
    {
        let arg = match parse_atom(lex) {
            Ok(a) => a,
            Err(e) => return Err(e),
        };
        tree = LambdaExpr::Apply(Box::new(tree), Box::new(arg));
    }
    Ok(tree)
}

/// Parses a lambda term. `\` and `λ` both mark an abstraction, whose body
/// extends as far right as possible.
pub fn parse(s: &str) -> (r: Result<LambdaExpr, ParseError>)
    ensures
        r matches Ok(t) ==> parse_text(s@) == Ok::<Term, ParseError>(t@),
        r matches Err(e) ==> parse_text(s@) == Err::<Term, ParseError>(e),
{
    let mut lex = Lexer::new(s);
    let tree = match parse_expr(&mut lex) {
        Ok(t) => t,
        Err(e) => return Err(e),
    };
    if lex.peek() == TokenType::EOF {
        Ok(tree)
    } else {
        Err(ParseError { expected: Expected::EndOfInput, found: lex.peek() })
    }
}

} // verus!
