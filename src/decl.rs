//! A declaration parser over the scanner's tokens: it takes the scanner's
//! tokens when it is made, and reads `const` and `let` declarations of
//! numbers from them.
use crate::scanner::{
    found_from, lemma_found_bounds, lemma_found_is_taken, lemma_scanned_unique, same_scanned, scanned,
    Found, Lexer, Token,
};
use vstd::prelude::*;

verus! {

/// What the parser hands out.
#[derive(Debug, PartialEq, Eq)]
pub enum Node {
    Stmt(Stmt),
    EOF,
}

#[derive(Debug, PartialEq, Eq)]
pub enum Stmt {
    Decl(Decl),
    Empty,
}

#[derive(Debug, PartialEq, Eq)]
pub enum Decl {
    Const { name: String, value: Expr },
    Let { name: String, mutable: bool, value: Expr },
    Fn { name: String, params: Vec<String>, body: Vec<Stmt> },
    Struct { name: String, fields: Vec<String> },
    Enum { name: String, variants: Vec<String> },
}

#[derive(Debug, PartialEq, Eq)]
pub enum Expr {
    Atom(Atom),
    Addition(Box<Expr>, Box<Expr>),
    Subtraction(Box<Expr>, Box<Expr>),
    Multiplication(Box<Expr>, Box<Expr>),
    Division(Box<Expr>, Box<Expr>),
    Power(Box<Expr>, Box<Expr>),
}

#[derive(Debug, PartialEq, Eq)]
pub enum Atom {
    Number(u64),
    Identifier(String),
    String(String),
}

/// What a declaration needed where it failed.
#[derive(Debug, Clone, Copy, PartialEq, Eq, Structural)]
pub enum DeclExpected {
    Declaration,
    Identifier,
    Assign,
    Number,
    Semicolon,
}

/// Why the parser stopped.
#[derive(Debug, PartialEq, Eq)]
pub enum DeclError {
    /// A token that no rule handles yet.
    Unhandled(Token),
    /// The token found where a part of a declaration was expected.
    Expected { expected: DeclExpected, found: Token },
    /// The tokens ran out (at `EOF`, or where scanning failed) where a part
    /// of a declaration was expected.
    UnexpectedEnd { expected: DeclExpected },
}

/// `toks` is what the scanner hands out from position `p` of `s`: its
/// tokens up to `EOF` (kept), or up to a failure (not kept).
pub open spec fn streams(s: Seq<char>, p: int, toks: Seq<Token>) -> bool
    decreases toks.len(),
{
    match found_from(s, p) {
        Found::End => toks == seq![Token::EOF],
        Found::Fail(_) => toks.len() == 0,
        Found::Token(lo, hi) => toks.len() > 0 && scanned(toks[0], s.subrange(lo, hi)) && streams(
            s,
            hi,
            toks.drop_first(),
        ),
    }
}

/// The tokens `done` take the scanner from position `p` to position `q`.
pub open spec fn streams_to(s: Seq<char>, p: int, done: Seq<Token>, q: int) -> bool
    decreases done.len(),
{
    if done.len() == 0 {
        p == q
    } else {
        match found_from(s, p) {
            Found::Token(lo, hi) => scanned(done[0], s.subrange(lo, hi)) && streams_to(
                s,
                hi,
                done.drop_first(),
                q,
            ),
            _ => false,
        }
    }
}

proof fn lemma_streams_to_push(s: Seq<char>, p: int, done: Seq<Token>, q: int, t: Token)
    requires
        streams_to(s, p, done, q),
        found_from(s, q) is Token,
        scanned(t, s.subrange(found_from(s, q)->Token_0, found_from(s, q)->Token_1)),
    ensures
        streams_to(s, p, done.push(t), found_from(s, q)->Token_1),
    decreases done.len(),
{
    if done.len() > 0 {
        if let Found::Token(lo, hi) = found_from(s, p) {
            lemma_streams_to_push(s, hi, done.drop_first(), q, t);
            assert(done.push(t).drop_first() =~= done.drop_first().push(t));
            assert(done.push(t)[0] == done[0]);
        }
    } else {
        assert(done.push(t).drop_first() =~= Seq::<Token>::empty());
        assert(done.push(t)[0] == t);
        let hi = found_from(s, q)->Token_1;
        assert(streams_to(s, hi, Seq::empty(), hi));
    }
}

proof fn lemma_streams_to_join(s: Seq<char>, p: int, done: Seq<Token>, q: int, rest: Seq<Token>)
    requires
        streams_to(s, p, done, q),
        streams(s, q, rest),
    ensures
        streams(s, p, done + rest),
    decreases done.len(),
{
    if done.len() > 0 {
        if let Found::Token(lo, hi) = found_from(s, p) {
            lemma_streams_to_join(s, hi, done.drop_first(), q, rest);
            assert((done + rest).drop_first() =~= done.drop_first() + rest);
        }
    } else {
        assert(done + rest =~= rest);
    }
}

/// Scanning is a function of the text: two token streams that the scanner
/// can hand out from the same position have the same tokens, one for one.
pub proof fn lemma_streams_agree(s: Seq<char>, p: int, a: Seq<Token>, b: Seq<Token>)
    requires
        0 <= p <= s.len(),
        streams(s, p, a),
        streams(s, p, b),
    ensures
        a.len() == b.len(),
        forall|i: int| 0 <= i < a.len() ==> same_scanned(#[trigger] a[i], b[i]),
    decreases a.len(),
{
    lemma_found_is_taken(s, p);
    lemma_found_bounds(s, p);
    if let Found::Token(lo, hi) = found_from(s, p) {
        lemma_scanned_unique(s, lo, hi, a[0], b[0]);
        lemma_streams_agree(s, hi, a.drop_first(), b.drop_first());
        assert forall|i: int| 0 <= i < a.len() implies same_scanned(#[trigger] a[i], b[i]) by {
            if i > 0 {
                assert(a[i] == a.drop_first()[i - 1]);
                assert(b[i] == b.drop_first()[i - 1]);
            }
        }
    }
}

/// The token at index `i` of the stream: past its end, `EOF` again after a
/// clean end and nothing after a failure.
pub open spec fn peek_at(toks: Seq<Token>, i: int) -> Option<Token> {
    if 0 <= i < toks.len() {
        Some(toks[i])
    } else if toks.len() > 0 && toks.last() == Token::EOF {
        Some(Token::EOF)
    } else {
        None
    }
}

/// The model of a declaration.
pub enum DeclShape {
    Const { name: Seq<char>, value: u64 },
    Let { name: Seq<char>, mutable: bool, value: u64 },
}

/// Where a declaration fails and what it needed there.
pub struct DeclFailure {
    pub pos: int,
    pub expected: DeclExpected,
}

pub open spec fn decl_fail(pos: int, expected: DeclExpected) -> Result<(DeclShape, int), DeclFailure> {
    Err(DeclFailure { pos, expected })
}

/// The declaration that starts at token `i`, and the position after it.
pub open spec fn sp_decl(toks: Seq<Token>, i: int) -> Result<(DeclShape, int), DeclFailure> {
    match peek_at(toks, i) {
        Some(Token::Const) => match peek_at(toks, i + 1) {
            Some(Token::Identifier(n)) => sp_decl_value(toks, i + 2, n@, None),
            _ => decl_fail(i + 1, DeclExpected::Identifier),
        },
        Some(Token::Let) => if peek_at(toks, i + 1) == Some(Token::Mut) {
            match peek_at(toks, i + 2) {
                Some(Token::Identifier(n)) => sp_decl_value(toks, i + 3, n@, Some(true)),
                _ => decl_fail(i + 2, DeclExpected::Identifier),
            }
        } else {
            match peek_at(toks, i + 1) {
                Some(Token::Identifier(n)) => sp_decl_value(toks, i + 2, n@, Some(false)),
                _ => decl_fail(i + 1, DeclExpected::Identifier),
            }
        },
        _ => decl_fail(i, DeclExpected::Declaration),
    }
}

/// `:= NUMBER ;` from token `i` on, ending the declaration of `name`: a
/// constant where `mutable` is `None`, else a `let`.
pub open spec fn sp_decl_value(toks: Seq<Token>, i: int, name: Seq<char>, mutable: Option<bool>) -> Result<
    (DeclShape, int),
    DeclFailure,
> {
    if peek_at(toks, i) != Some(Token::Assign) {
        decl_fail(i, DeclExpected::Assign)
    } else {
        match peek_at(toks, i + 1) {
            Some(Token::Number(v)) => if peek_at(toks, i + 2) != Some(Token::Semicolon) {
                decl_fail(i + 2, DeclExpected::Semicolon)
            } else {
                Ok(
                    (
                        match mutable {
                            None => DeclShape::Const { name, value: v },
                            Some(m) => DeclShape::Let { name, mutable: m, value: v },
                        },
                        i + 3,
                    ),
                )
            },
            _ => decl_fail(i + 1, DeclExpected::Number),
        }
    }
}

pub open spec fn decl_models(d: Decl, m: DeclShape) -> bool {
    match (d, m) {
        (Decl::Const { name, value }, DeclShape::Const { name: n, value: v }) => name@ == n && value
            == Expr::Atom(Atom::Number(v)),
        (Decl::Let { name, mutable, value }, DeclShape::Let { name: n, mutable: mm, value: v }) => name@
            == n && mutable == mm && value == Expr::Atom(Atom::Number(v)),
        _ => false,
    }
}

/// `e` reports the failure `f` on the stream `toks`.
pub open spec fn decl_reports(toks: Seq<Token>, e: DeclError, f: DeclFailure) -> bool {
    match peek_at(toks, f.pos) {
        None | Some(Token::EOF) => e == DeclError::UnexpectedEnd { expected: f.expected },
        Some(t) => e == DeclError::Expected { expected: f.expected, found: t },
    }
}

/// A parser that pulls the tokens of one file from a scanner.
pub struct Parser {
    file_name: String,
    tokens: Vec<Token>,
    pos: usize,
}

impl Parser {
    /// The scanner's whole stream.
    pub closed spec fn tokens(&self) -> Seq<Token> {
        self.tokens@
    }

    /// How many tokens have been taken.
    pub closed spec fn position(&self) -> int {
        self.pos as int
    }

    pub open spec fn wf(&self) -> bool {
        0 <= self.position() <= self.tokens().len()
    }

    pub closed spec fn name(&self) -> Seq<char> {
        self.file_name@
    }

    /// A parser over what `lexer` hands out from where it stands.
    pub fn new(file_name: &str, lexer: Lexer) -> (r: Parser)
        requires
            lexer.wf(),
        ensures
            r.wf(),
            r.position() == 0,
            r.name() == file_name@,
            streams(lexer.source(), lexer.position(), r.tokens()),
    {
        let mut lexer = lexer;
        let ghost s = lexer.source();
        let ghost p0 = lexer.position();
        let mut toks: Vec<Token> = Vec::new();
        loop
            invariant_except_break
                streams_to(s, p0, toks@, lexer.position()),
            invariant
                lexer.wf(),
                lexer.source() == s,
                0 <= p0 <= lexer.position() <= s.len(),
            ensures
                streams(s, p0, toks@),
            decreases s.len() - lexer.position(),
        {
            let ghost q = lexer.position();
            proof {
                lemma_found_bounds(s, q);
            }
            match lexer.next_token() {
                Ok(t) => {
                    if let Token::EOF = t {
                        proof {
                            lemma_streams_to_join(s, p0, toks@, q, seq![Token::EOF]);
                            assert(toks@ + seq![Token::EOF] =~= toks@.push(Token::EOF));
                        }
                        toks.push(t);
                        break ;
                    }
                    proof {
                        lemma_streams_to_push(s, p0, toks@, q, t);
                    }
                    toks.push(t);
                },
                Err(_) => {
                    proof {
                        lemma_streams_to_join(s, p0, toks@, q, Seq::empty());
                        assert(toks@ + Seq::<Token>::empty() =~= toks@);
                    }
                    break ;
                },
            }
        }
        Parser { file_name: file_name.to_string(), tokens: toks, pos: 0 }
    }

    /// The name of the file being parsed.
    pub fn file_name(&self) -> (r: &str)
        ensures
            r@ == self.name(),
    {
        self.file_name.as_str()
    }

    /// The token `k` places ahead.
    fn peek_token(&self, k: usize) -> (r: Option<Token>)
        requires
            self.wf(),
        ensures
            r == peek_at(self.tokens@, self.pos + k),
    {
        let n = self.tokens.len();
        if n - self.pos > k {
            Some(self.tokens[self.pos + k].duplicate())
        } else if n > 0 {
            match &self.tokens[n - 1] {
                Token::EOF => Some(Token::EOF),
                _ => None,
            }
        } else {
            None
        }
    }

    fn expected(&self, k: usize, expected: DeclExpected) -> (e: DeclError)
        requires
            self.wf(),
        ensures
            decl_reports(self.tokens@, e, DeclFailure { pos: self.pos + k, expected }),
    {
        match self.peek_token(k) {
            None => DeclError::UnexpectedEnd { expected },
            Some(Token::EOF) => DeclError::UnexpectedEnd { expected },
            Some(t) => DeclError::Expected { expected, found: t },
        }
    }

    /// The next node: `EOF` at the end of the stream; any other token is not
    /// handled yet.
    pub fn next_node(&mut self) -> (r: Result<Node, DeclError>)
        requires
            old(self).wf(),
        ensures
            *final(self) == *old(self),
            match peek_at(old(self).tokens(), old(self).position()) {
                None | Some(Token::EOF) => r == Ok::<Node, DeclError>(Node::EOF),
                Some(t) => r == Err::<Node, DeclError>(DeclError::Unhandled(t)),
            },
    {
        match self.peek_token(0) {
            None => Ok(Node::EOF),
            Some(Token::EOF) => Ok(Node::EOF),
            Some(t) => Err(DeclError::Unhandled(t)),
        }
    }

    /// Parses `const NAME := NUMBER ;` or `let [mut] NAME := NUMBER ;`.
    pub fn parse_decl(&mut self) -> (r: Result<Decl, DeclError>)
        requires
            old(self).wf(),
        ensures
            final(self).wf(),
            final(self).tokens() == old(self).tokens(),
            final(self).name() == old(self).name(),
            match (r, sp_decl(old(self).tokens(), old(self).position())) {
                (Ok(d), Ok((m, q))) => decl_models(d, m) && final(self).position() == q,
                (Err(e), Err(f)) => decl_reports(old(self).tokens(), e, f),
                _ => false,
            },
    {
        let constant = match self.peek_token(0) {
            Some(Token::Const) => true,
            Some(Token::Let) => false,
            _ => {
                return Err(self.expected(0, DeclExpected::Declaration));
            },
        };
        let mut at: usize = 1;
        let mutable = if !constant {
            match self.peek_token(1) {
                Some(Token::Mut) => {
                    at = 2;
                    true
                },
                _ => false,
            }
        } else {
            false
        };
        let name = match self.peek_token(at) {
            Some(Token::Identifier(n)) => n,
            _ => {
                return Err(self.expected(at, DeclExpected::Identifier));
            },
        };
        match self.peek_token(at + 1) {
            Some(Token::Assign) => {},
            _ => {
                return Err(self.expected(at + 1, DeclExpected::Assign));
            },
        }
        let value = match self.peek_token(at + 2) {
            Some(Token::Number(v)) => v,
            _ => {
                return Err(self.expected(at + 2, DeclExpected::Number));
            },
        };
        match self.peek_token(at + 3) {
            Some(Token::Semicolon) => {},
            _ => {
                return Err(self.expected(at + 3, DeclExpected::Semicolon));
            },
        }
        proof {
            assert(self.tokens@.len() == self.tokens.len());
        }
        self.pos = self.pos + at + 4;
        if constant {
            Ok(Decl::Const { name, value: Expr::Atom(Atom::Number(value)) })
        } else {
            Ok(Decl::Let { name, mutable, value: Expr::Atom(Atom::Number(value)) })
        }
    }

    /// The next node, or `None` where parsing failed.
    pub fn next(&mut self) -> (r: Option<Node>)
        requires
            old(self).wf(),
        ensures
            *final(self) == *old(self),
            match peek_at(old(self).tokens(), old(self).position()) {
                None | Some(Token::EOF) => r == Some(Node::EOF),
                Some(_) => r is None,
            },
    {
        match self.next_node() {
            Ok(n) => Some(n),
            Err(_) => None,
        }
    }
}

} // verus!
