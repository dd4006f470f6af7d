//! The parser: builds a `Program` from tokens by the language's grammar.
//!
//! ```text
//! program    := (expr ";")*
//! expr       := "const" NAME ":=" expr
//!             | "let" NAME ":=" expr
//!             | "let" "mut" NAME ":=" expr
//!             | "const" NAME ":" "fn" "(" params ")" "->" TYPE "=" expr
//!             | "const" NAME ":" "fn" "(" params ")" "->" TYPE "=" "{" (expr ";")* "}"
//!             | NAME "!" "(" args ")"
//!             | NAME "(" args ")"
//!             | NAME | INTEGER | STRING
//! params     := empty | NAME ":" TYPE ("," NAME ":" TYPE)*
//! args       := empty | expr ("," expr)*
//! ```
//!
//! Alternatives are told apart by the tokens that start them, so the parser
//! never goes back over a token it has taken.
use crate::ast::{
    all_consistent, bindings_consistent, models, models_all, Expr, ExprKind, Param, Program, Shape,
    Tree, Type,
};
use crate::lexer::{lex_spans, lexes_to, tokenize, LexError, Span, Token};
use vstd::prelude::*;

verus! {

/// The construct that the parser was looking for when it failed.
#[derive(Debug, Clone, Copy, PartialEq, Eq, Structural)]
pub enum Expected {
    Expression,
    Identifier,
    AssignOrColon,
    Assign,
    Fn,
    OParen,
    CParen,
    Arrow,
    Type,
    Equal,
    Colon,
    Semicolon,
    CBrace,
}

/// A syntax error: the token found where the construct was expected, or
/// `None` where the tokens ran out first.
#[derive(Debug)]
pub struct ParseError {
    pub found: Option<(Token, Span)>,
    pub expected: Expected,
}

/// Where parsing fails and what it expected there; a position equal to the
/// number of tokens is the end of the stream.
pub struct Failure {
    pub pos: int,
    pub expected: Expected,
}

pub open spec fn tok(ts: Seq<(Token, Span)>, i: int) -> Option<Token> {
    if 0 <= i < ts.len() {
        Some(ts[i].0)
    } else {
        None
    }
}

pub open spec fn fail<A>(pos: int, expected: Expected) -> Result<A, Failure> {
    Err(Failure { pos, expected })
}

/// The span from the start of token `p` to the end of token `q - 1`.
pub open spec fn span_of(ts: Seq<(Token, Span)>, p: int, q: int) -> Span {
    Span { lo: ts[p].1.lo, hi: ts[q - 1].1.hi }
}

/// The expression that starts at token `p`, and the position after it.
pub open spec fn sp_expr(ts: Seq<(Token, Span)>, p: int) -> Result<(Tree, int), Failure>
    decreases ts.len() - p, 1int,
{
    if p < 0 || p >= ts.len() {
        fail(ts.len() as int, Expected::Expression)
    } else {
        match ts[p].0 {
            Token::Const => match tok(ts, p + 1) {
                Some(Token::Ident(name)) => match tok(ts, p + 2) {
                    Some(Token::Assign) => match sp_expr(ts, p + 3) {
                        Ok((v, q)) => Ok(
                            (
                                Tree {
                                    span: span_of(ts, p, q),
                                    shape: Shape::VarDecl {
                                        constant: true,
                                        mutable: false,
                                        name: name@,
                                        value: Box::new(v),
                                    },
                                },
                                q,
                            ),
                        ),
                        Err(e) => Err(e),
                    },
                    Some(Token::Colon) => sp_fn_decl(ts, p, p + 3, name@),
                    _ => fail(p + 2, Expected::AssignOrColon),
                },
                _ => fail(p + 1, Expected::Identifier),
            },
            Token::Let => match tok(ts, p + 1) {
                Some(Token::Mut) => sp_binding(ts, p, p + 2, true),
                _ => sp_binding(ts, p, p + 1, false),
            },
            Token::Ident(name) => match tok(ts, p + 1) {
                Some(Token::Bang) => match tok(ts, p + 2) {
                    Some(Token::OParen) => sp_call(ts, p, p + 3, name@, true),
                    _ => fail(p + 2, Expected::OParen),
                },
                Some(Token::OParen) => sp_call(ts, p, p + 2, name@, false),
                _ => Ok((Tree { span: span_of(ts, p, p + 1), shape: Shape::Ident(name@) }, p + 1)),
            },
            Token::Integer(v) => Ok(
                (Tree { span: span_of(ts, p, p + 1), shape: Shape::Integer(v as nat) }, p + 1),
            ),
            Token::String(x) => Ok(
                (Tree { span: span_of(ts, p, p + 1), shape: Shape::Str(x@) }, p + 1),
            ),
            _ => fail(p, Expected::Expression),
        }
    }
}

/// A `let` binding that starts at token `p`, with its name at token `i`.
pub open spec fn sp_binding(ts: Seq<(Token, Span)>, p: int, i: int, mutable: bool) -> Result<
    (Tree, int),
    Failure,
>
    decreases ts.len() - i, 0int,
{
    match tok(ts, i) {
        Some(Token::Ident(name)) => match tok(ts, i + 1) {
            Some(Token::Assign) => match sp_expr(ts, i + 2) {
                Ok((v, q)) => Ok(
                    (
                        Tree {
                            span: span_of(ts, p, q),
                            shape: Shape::VarDecl {
                                constant: false,
                                mutable,
                                name: name@,
                                value: Box::new(v),
                            },
                        },
                        q,
                    ),
                ),
                Err(e) => Err(e),
            },
            _ => fail(i + 1, Expected::Assign),
        },
        _ => fail(i, Expected::Identifier),
    }
}

/// A call that starts at token `p`, with its arguments from token `i` on.
pub open spec fn sp_call(
    ts: Seq<(Token, Span)>,
    p: int,
    i: int,
    name: Seq<char>,
    is_macro: bool,
) -> Result<(Tree, int), Failure>
    decreases ts.len() - i, 4int,
{
    match sp_args(ts, i) {
        Ok((args, q)) => match tok(ts, q) {
            Some(Token::CParen) => Ok(
                (
                    Tree {
                        span: span_of(ts, p, q + 1),
                        shape: if is_macro {
                            Shape::MacroCall { name, args }
                        } else {
                            Shape::FnCall { name, args }
                        },
                    },
                    q + 1,
                ),
            ),
            _ => fail(q, Expected::CParen),
        },
        Err(e) => Err(e),
    }
}

/// The arguments from token `i` up to the closing parenthesis.
pub open spec fn sp_args(ts: Seq<(Token, Span)>, i: int) -> Result<(Seq<Tree>, int), Failure>
    decreases ts.len() - i, 3int,
{
    if tok(ts, i) == Some(Token::CParen) {
        Ok((Seq::empty(), i))
    } else {
        sp_args_from(ts, i, Seq::empty())
    }
}

/// Arguments from token `i` on, after the arguments `acc`.
pub open spec fn sp_args_from(ts: Seq<(Token, Span)>, i: int, acc: Seq<Tree>) -> Result<
    (Seq<Tree>, int),
    Failure,
>
    decreases ts.len() - i, 2int,
{
    match sp_expr(ts, i) {
        Ok((t, q)) => if q <= i || q > ts.len() {
            fail(i, Expected::Expression)
        } else if tok(ts, q) == Some(Token::Comma) {
            sp_args_from(ts, q + 1, acc.push(t))
        } else {
            Ok((acc.push(t), q))
        },
        Err(e) => Err(e),
    }
}

/// A function declaration that starts at token `p`, from token `i` (just
/// after `const NAME :`) on.
pub open spec fn sp_fn_decl(ts: Seq<(Token, Span)>, p: int, i: int, name: Seq<char>) -> Result<
    (Tree, int),
    Failure,
>
    decreases ts.len() - i, 0int,
{
    if tok(ts, i) != Some(Token::Fn) {
        fail(i, Expected::Fn)
    } else if tok(ts, i + 1) != Some(Token::OParen) {
        fail(i + 1, Expected::OParen)
    } else {
        match sp_params(ts, i + 2) {
            Ok((params, q)) => if q < i + 2 {
                fail(i + 2, Expected::Identifier)
            } else if tok(ts, q) != Some(Token::CParen) {
                fail(q, Expected::CParen)
            } else if tok(ts, q + 1) != Some(Token::Arrow) {
                fail(q + 1, Expected::Arrow)
            } else {
                match tok(ts, q + 2) {
                    Some(Token::Ident(ty)) => if tok(ts, q + 3) != Some(Token::Equal) {
                        fail(q + 3, Expected::Equal)
                    } else if tok(ts, q + 4) == Some(Token::OBrace) {
                        match sp_body(ts, q + 5, Seq::empty()) {
                            Ok((body, r)) => if r < q + 5 || r >= ts.len() {
                                fail(q + 5, Expected::CBrace)
                            } else {
                                Ok(
                                    (
                                        Tree {
                                            span: span_of(ts, p, r + 1),
                                            shape: Shape::FnDecl {
                                                name,
                                                params,
                                                ret_ty: ty@,
                                                body,
                                            },
                                        },
                                        r + 1,
                                    ),
                                )
                            },
                            Err(e) => Err(e),
                        }
                    } else {
                        match sp_expr(ts, q + 4) {
                            Ok((e, r)) => Ok(
                                (
                                    Tree {
                                        span: span_of(ts, p, r),
                                        shape: Shape::FnDecl {
                                            name,
                                            params,
                                            ret_ty: ty@,
                                            body: seq![e],
                                        },
                                    },
                                    r,
                                ),
                            ),
                            Err(e) => Err(e),
                        }
                    },
                    _ => fail(q + 2, Expected::Type),
                }
            },
            Err(e) => Err(e),
        }
    }
}

/// The expressions of a function body from token `i` on, after `acc`, up to
/// the closing brace.
pub open spec fn sp_body(ts: Seq<(Token, Span)>, i: int, acc: Seq<Tree>) -> Result<
    (Seq<Tree>, int),
    Failure,
>
    decreases ts.len() - i, 2int,
{
    if i < 0 || i >= ts.len() {
        fail(ts.len() as int, Expected::CBrace)
    } else if ts[i].0 == Token::CBrace {
        Ok((acc, i))
    } else {
        match sp_expr(ts, i) {
            Ok((t, q)) => if q <= i || q > ts.len() {
                fail(i, Expected::Expression)
            } else if tok(ts, q) == Some(Token::Semicolon) {
                sp_body(ts, q + 1, acc.push(t))
            } else {
                fail(q, Expected::Semicolon)
            },
            Err(e) => Err(e),
        }
    }
}

/// The parameters from token `i` up to the closing parenthesis.
pub open spec fn sp_params(ts: Seq<(Token, Span)>, i: int) -> Result<
    (Seq<(Seq<char>, Seq<char>)>, int),
    Failure,
> {
    if tok(ts, i) == Some(Token::CParen) {
        Ok((Seq::empty(), i))
    } else {
        sp_params_from(ts, i, Seq::empty())
    }
}

/// Parameters from token `i` on, after the parameters `acc`.
pub open spec fn sp_params_from(
    ts: Seq<(Token, Span)>,
    i: int,
    acc: Seq<(Seq<char>, Seq<char>)>,
) -> Result<(Seq<(Seq<char>, Seq<char>)>, int), Failure>
    decreases ts.len() - i,
{
    match tok(ts, i) {
        Some(Token::Ident(n)) => if tok(ts, i + 1) != Some(Token::Colon) {
            fail(i + 1, Expected::Colon)
        } else {
            match tok(ts, i + 2) {
                Some(Token::Ident(t)) => if tok(ts, i + 3) == Some(Token::Comma) {
                    sp_params_from(ts, i + 4, acc.push((n@, t@)))
                } else {
                    Ok((acc.push((n@, t@)), i + 3))
                },
                _ => fail(i + 2, Expected::Type),
            }
        },
        _ => fail(i, Expected::Identifier),
    }
}

/// The top-level expressions from token `i` on, after `acc`.
pub open spec fn sp_program(ts: Seq<(Token, Span)>, i: int, acc: Seq<Tree>) -> Result<
    Seq<Tree>,
    Failure,
>
    decreases ts.len() - i,
{
    if i < 0 || i >= ts.len() {
        Ok(acc)
    } else {
        match sp_expr(ts, i) {
            Ok((t, q)) => if q <= i || q > ts.len() {
                fail(i, Expected::Expression)
            } else if tok(ts, q) == Some(Token::Semicolon) {
                sp_program(ts, q + 1, acc.push(t))
            } else {
                fail(q, Expected::Semicolon)
            },
            Err(e) => Err(e),
        }
    }
}

/// `e` reports the failure `f` on the tokens `ts`.
pub open spec fn reports(ts: Seq<(Token, Span)>, e: ParseError, f: Failure) -> bool {
    e.expected == f.expected && if 0 <= f.pos < ts.len() {
        e.found == Some(ts[f.pos])
    } else {
        e.found is None
    }
}

pub open spec fn expr_result(
    ts: Seq<(Token, Span)>,
    r: Result<(Expr, usize), ParseError>,
    s: Result<(Tree, int), Failure>,
) -> bool {
    match (r, s) {
        (Ok((e, q)), Ok((t, q2))) => models(e, t) && q == q2,
        (Err(e), Err(f)) => reports(ts, e, f),
        _ => false,
    }
}

pub open spec fn exprs_result(
    ts: Seq<(Token, Span)>,
    r: Result<(Vec<Expr>, usize), ParseError>,
    s: Result<(Seq<Tree>, int), Failure>,
) -> bool {
    match (r, s) {
        (Ok((es, q)), Ok((t, q2))) => models_all(es@, t) && q == q2,
        (Err(e), Err(f)) => reports(ts, e, f),
        _ => false,
    }
}

/// The tokens that the grammar names by themselves.
pub open spec fn is_punct(t: Token) -> bool {
    t is Mut || t is Fn || t is Arrow || t is Assign || t is OParen || t is CParen || t is OBrace
        || t is CBrace || t is Semicolon || t is Colon || t is Comma || t is Equal || t is Bang
}

/// Whether token `i` is `t`.
fn is_token(ts: &Vec<(Token, Span)>, i: usize, t: &Token) -> (b: bool)
    requires
        is_punct(*t),
    ensures
        b == (tok(ts@, i as int) == Some(*t)),
{
    if i >= ts.len() {
        return false;
    }
    match (&ts[i].0, t) {
        (Token::Mut, Token::Mut) => true,
        (Token::Fn, Token::Fn) => true,
        (Token::Arrow, Token::Arrow) => true,
        (Token::Assign, Token::Assign) => true,
        (Token::OParen, Token::OParen) => true,
        (Token::CParen, Token::CParen) => true,
        (Token::OBrace, Token::OBrace) => true,
        (Token::CBrace, Token::CBrace) => true,
        (Token::Semicolon, Token::Semicolon) => true,
        (Token::Colon, Token::Colon) => true,
        (Token::Comma, Token::Comma) => true,
        (Token::Equal, Token::Equal) => true,
        (Token::Bang, Token::Bang) => true,
        _ => false,
    }
}

/// The name held by token `i`, where it is an identifier.
fn ident_at(ts: &Vec<(Token, Span)>, i: usize) -> (r: Option<String>)
    ensures
        match tok(ts@, i as int) {
            Some(Token::Ident(n)) => r == Some(n),
            _ => r is None,
        },
{
    if i >= ts.len() {
        return None;
    }
    match &ts[i].0 {
        Token::Ident(n) => Some(n.clone()),
        _ => None,
    }
}

/// The error for failing at token `pos` while expecting `expected`.
fn failure(ts: &Vec<(Token, Span)>, pos: usize, expected: Expected) -> (e: ParseError)
    ensures
        reports(ts@, e, Failure { pos: pos as int, expected }),
{
    if pos < ts.len() {
        ParseError { found: Some((ts[pos].0.duplicate(), ts[pos].1)), expected }
    } else {
        ParseError { found: None, expected }
    }
}

fn span_exec(ts: &Vec<(Token, Span)>, p: usize, q: usize) -> (r: Span)
    requires
        p < q <= ts@.len(),
    ensures
        r == span_of(ts@, p as int, q as int),
{
    Span { lo: ts[p].1.lo, hi: ts[q - 1].1.hi }
}

fn parse_expr(ts: &Vec<(Token, Span)>, p: usize) -> (r: Result<(Expr, usize), ParseError>)
    requires
        p <= ts@.len(),
    ensures
        expr_result(ts@, r, sp_expr(ts@, p as int)),
        r matches Ok((_, q)) ==> p < q <= ts@.len(),
    decreases ts@.len() - p, 1int,
{
    if p >= ts.len() {
        return Err(failure(ts, ts.len(), Expected::Expression));
    }
    match &ts[p].0 {
        Token::Const => {
            let name = match ident_at(ts, p + 1) {
                Some(n) => n,
                None => {
                    return Err(failure(ts, p + 1, Expected::Identifier));
                },
            };
            if is_token(ts, p + 2, &Token::Assign) {
                match parse_expr(ts, p + 3) {
                    Ok((v, q)) => {
                        let kind = ExprKind::VarDecl {
                            constant: true,
                            mutable: false,
                            name,
                            ty: None,
                            value: Box::new(v),
                        };
                        Ok((Expr { span: span_exec(ts, p, q), expr: kind }, q))
                    },
                    Err(e) => Err(e),
                }
            } else if is_token(ts, p + 2, &Token::Colon) {
                parse_fn_decl(ts, p, p + 3, name)
            } else {
                Err(failure(ts, p + 2, Expected::AssignOrColon))
            }
        },
        Token::Let => {
            if is_token(ts, p + 1, &Token::Mut) {
                parse_binding(ts, p, p + 2, true)
            } else {
                parse_binding(ts, p, p + 1, false)
            }
        },
        Token::Ident(name) => {
            if is_token(ts, p + 1, &Token::Bang) {
                if is_token(ts, p + 2, &Token::OParen) {
                    parse_call(ts, p, p + 3, name.clone(), true)
                } else {
                    Err(failure(ts, p + 2, Expected::OParen))
                }
            } else if is_token(ts, p + 1, &Token::OParen) {
                parse_call(ts, p, p + 2, name.clone(), false)
            } else {
                let e = Expr { span: span_exec(ts, p, p + 1), expr: ExprKind::Ident(name.clone()) };
                Ok((e, p + 1))
            }
        },
        Token::Integer(v) => {
            let e = Expr { span: span_exec(ts, p, p + 1), expr: ExprKind::Integer(*v) };
            Ok((e, p + 1))
        },
        Token::String(x) => {
            let e = Expr { span: span_exec(ts, p, p + 1), expr: ExprKind::String(x.clone()) };
            Ok((e, p + 1))
        },
        _ => Err(failure(ts, p, Expected::Expression)),
    }
}

fn parse_binding(ts: &Vec<(Token, Span)>, p: usize, i: usize, mutable: bool) -> (r: Result<
    (Expr, usize),
    ParseError,
>)
    requires
        p < i <= ts@.len(),
    ensures
        expr_result(ts@, r, sp_binding(ts@, p as int, i as int, mutable)),
        r matches Ok((_, q)) ==> i < q <= ts@.len(),
    decreases ts@.len() - i, 0int,
{
    proof {
        assert(ts@.len() == ts.len());
    }
    let name = match ident_at(ts, i) {
        Some(n) => n,
        None => {
            return Err(failure(ts, i, Expected::Identifier));
        },
    };
    if !is_token(ts, i + 1, &Token::Assign) {
        return Err(failure(ts, i + 1, Expected::Assign));
    }
    match parse_expr(ts, i + 2) {
        Ok((v, q)) => {
            let kind = ExprKind::VarDecl { constant: false, mutable, name, ty: None, value: Box::new(v) };
            Ok((Expr { span: span_exec(ts, p, q), expr: kind }, q))
        },
        Err(e) => Err(e),
    }
}

fn parse_call(ts: &Vec<(Token, Span)>, p: usize, i: usize, name: String, is_macro: bool) -> (r:
    Result<(Expr, usize), ParseError>)
    requires
        p < i <= ts@.len(),
    ensures
        expr_result(ts@, r, sp_call(ts@, p as int, i as int, name@, is_macro)),
        r matches Ok((_, q)) ==> i < q <= ts@.len(),
    decreases ts@.len() - i, 4int,
{
    proof {
        assert(ts@.len() == ts.len());
    }
    match parse_args(ts, i) {
        Ok((args, q)) => {
            if is_token(ts, q, &Token::CParen) {
                let kind = if is_macro {
                    ExprKind::MacroCall { name, args }
                } else {
                    ExprKind::FnCall { name, args }
                };
                Ok((Expr { span: span_exec(ts, p, q + 1), expr: kind }, q + 1))
            } else {
                Err(failure(ts, q, Expected::CParen))
            }
        },
        Err(e) => Err(e),
    }
}

fn parse_args(ts: &Vec<(Token, Span)>, i: usize) -> (r: Result<(Vec<Expr>, usize), ParseError>)
    requires
        i <= ts@.len(),
    ensures
        exprs_result(ts@, r, sp_args(ts@, i as int)),
        r matches Ok((_, q)) ==> i <= q <= ts@.len(),
    decreases ts@.len() - i, 3int,
{
    proof {
        assert(ts@.len() == ts.len());
    }
    let mut out: Vec<Expr> = Vec::new();
    if is_token(ts, i, &Token::CParen) {
        return Ok((out, i));
    }
    let mut j: usize = i;
    let ghost mut acc: Seq<Tree> = Seq::empty();
    loop
        invariant
            ts@.len() <= usize::MAX,
            i <= j <= ts@.len(),
            sp_args(ts@, i as int) == sp_args_from(ts@, j as int, acc),
            models_all(out@, acc),
        decreases ts@.len() - j,
    {
        match parse_expr(ts, j) {
            Ok((e, q)) => {
                let ghost t = sp_expr(ts@, j as int)->Ok_0.0;
                proof {
                    assert(models_all(out@.push(e), acc.push(t))) by {
                        assert forall|k: int| 0 <= k < acc.len() + 1 implies models(
                            #[trigger] out@.push(e)[k],
                            acc.push(t)[k],
                        ) by {
                            if k < acc.len() {
                                assert(models(out@[k], acc[k]));
                            }
                        }
                    }
                    acc = acc.push(t);
                }
                out.push(e);
                if is_token(ts, q, &Token::Comma) {
                    j = q + 1;
                } else {
                    return Ok((out, q));
                }
            },
            Err(e) => {
                return Err(e);
            },
        }
    }
}

fn parse_fn_decl(ts: &Vec<(Token, Span)>, p: usize, i: usize, name: String) -> (r: Result<
    (Expr, usize),
    ParseError,
>)
    requires
        p < i <= ts@.len(),
    ensures
        expr_result(ts@, r, sp_fn_decl(ts@, p as int, i as int, name@)),
        r matches Ok((_, q)) ==> i < q <= ts@.len(),
    decreases ts@.len() - i, 0int,
{
    proof {
        assert(ts@.len() == ts.len());
    }
    if !is_token(ts, i, &Token::Fn) {
        return Err(failure(ts, i, Expected::Fn));
    }
    if !is_token(ts, i + 1, &Token::OParen) {
        return Err(failure(ts, i + 1, Expected::OParen));
    }
    let (params, q) = match parse_params(ts, i + 2) {
        Ok(x) => x,
        Err(e) => {
            return Err(e);
        },
    };
    if !is_token(ts, q, &Token::CParen) {
        return Err(failure(ts, q, Expected::CParen));
    }
    if !is_token(ts, q + 1, &Token::Arrow) {
        return Err(failure(ts, q + 1, Expected::Arrow));
    }
    let ty = match ident_at(ts, q + 2) {
        Some(t) => t,
        None => {
            return Err(failure(ts, q + 2, Expected::Type));
        },
    };
    if !is_token(ts, q + 3, &Token::Equal) {
        return Err(failure(ts, q + 3, Expected::Equal));
    }
    if is_token(ts, q + 4, &Token::OBrace) {
        match parse_body(ts, q + 5) {
            Ok((body, r)) => {
                let kind = ExprKind::FnDecl { name, params, ret_ty: Type::Ident(ty), body };
                Ok((Expr { span: span_exec(ts, p, r + 1), expr: kind }, r + 1))
            },
            Err(e) => Err(e),
        }
    } else {
        match parse_expr(ts, q + 4) {
            Ok((e, r)) => {
                let ghost t = sp_expr(ts@, q + 4)->Ok_0.0;
                let mut body: Vec<Expr> = Vec::new();
                body.push(e);
                proof {
                    assert(models_all(body@, seq![t])) by {
                        assert(body@[0] == e);
                    }
                }
                let kind = ExprKind::FnDecl { name, params, ret_ty: Type::Ident(ty), body };
                Ok((Expr { span: span_exec(ts, p, r), expr: kind }, r))
            },
            Err(e) => Err(e),
        }
    }
}

/// `ps` holds the parameters `m`, each with its name and type name.
pub open spec fn params_model(ps: Seq<Param>, m: Seq<(Seq<char>, Seq<char>)>) -> bool {
    ps.len() == m.len() && forall|k: int|
        0 <= k < m.len() ==> (#[trigger] ps[k]).name@ == m[k].0 && crate::ast::ty_name(
            ps[k].value,
        ) == m[k].1
}

fn parse_params(ts: &Vec<(Token, Span)>, i: usize) -> (r: Result<(Vec<Param>, usize), ParseError>)
    requires
        i <= ts@.len(),
    ensures
        match (r, sp_params(ts@, i as int)) {
            (Ok((ps, q)), Ok((m, q2))) => params_model(ps@, m) && q == q2 && i <= q <= ts@.len(),
            (Err(e), Err(f)) => reports(ts@, e, f),
            _ => false,
        },
{
    proof {
        assert(ts@.len() == ts.len());
    }
    let mut out: Vec<Param> = Vec::new();
    if is_token(ts, i, &Token::CParen) {
        return Ok((out, i));
    }
    let mut j: usize = i;
    let ghost mut acc: Seq<(Seq<char>, Seq<char>)> = Seq::empty();
    loop
        invariant
            ts@.len() <= usize::MAX,
            i <= j <= ts@.len(),
            sp_params(ts@, i as int) == sp_params_from(ts@, j as int, acc),
            params_model(out@, acc),
        decreases ts@.len() - j,
    {
        let name = match ident_at(ts, j) {
            Some(n) => n,
            None => {
                return Err(failure(ts, j, Expected::Identifier));
            },
        };
        if !is_token(ts, j + 1, &Token::Colon) {
            return Err(failure(ts, j + 1, Expected::Colon));
        }
        let ty = match ident_at(ts, j + 2) {
            Some(t) => t,
            None => {
                return Err(failure(ts, j + 2, Expected::Type));
            },
        };
        let ghost pair = (name@, ty@);
        out.push(Param { name, value: Type::Ident(ty) });
        proof {
            assert(params_model(out@, acc.push(pair))) by {
                assert forall|k: int| 0 <= k < acc.len() + 1 implies (#[trigger] out@[k]).name@
                    == acc.push(pair)[k].0 && crate::ast::ty_name(out@[k].value) == acc.push(
                    pair,
                )[k].1 by {}
            }
            acc = acc.push(pair);
        }
        if is_token(ts, j + 3, &Token::Comma) {
            j = j + 4;
        } else {
            return Ok((out, j + 3));
        }
    }
}

fn parse_body(ts: &Vec<(Token, Span)>, i: usize) -> (r: Result<(Vec<Expr>, usize), ParseError>)
    requires
        i <= ts@.len(),
    ensures
        exprs_result(ts@, r, sp_body(ts@, i as int, Seq::empty())),
        r matches Ok((_, q)) ==> i <= q < ts@.len(),
    decreases ts@.len() - i, 2int,
{
    proof {
        assert(ts@.len() == ts.len());
    }
    let mut out: Vec<Expr> = Vec::new();
    let mut j: usize = i;
    let ghost mut acc: Seq<Tree> = Seq::empty();
    loop
        invariant
            ts@.len() <= usize::MAX,
            i <= j <= ts@.len(),
            sp_body(ts@, i as int, Seq::empty()) == sp_body(ts@, j as int, acc),
            models_all(out@, acc),
        decreases ts@.len() - j,
    {
        if j >= ts.len() {
            return Err(failure(ts, ts.len(), Expected::CBrace));
        }
        if is_token(ts, j, &Token::CBrace) {
            return Ok((out, j));
        }
        match parse_expr(ts, j) {
            Ok((e, q)) => {
                if !is_token(ts, q, &Token::Semicolon) {
                    return Err(failure(ts, q, Expected::Semicolon));
                }
                let ghost t = sp_expr(ts@, j as int)->Ok_0.0;
                proof {
                    assert(models_all(out@.push(e), acc.push(t))) by {
                        assert forall|k: int| 0 <= k < acc.len() + 1 implies models(
                            #[trigger] out@.push(e)[k],
                            acc.push(t)[k],
                        ) by {
                            if k < acc.len() {
                                assert(models(out@[k], acc[k]));
                            }
                        }
                    }
                    acc = acc.push(t);
                }
                out.push(e);
                j = q + 1;
            },
            Err(e) => {
                return Err(e);
            },
        }
    }
}

/// Parses a whole token sequence: the top-level expressions, each followed by
/// `;`, or the first syntax error.
pub fn parse(ts: &Vec<(Token, Span)>) -> (r: Result<Program, ParseError>)
    ensures
        match (r, sp_program(ts@, 0, Seq::empty())) {
            (Ok(prog), Ok(trees)) => models_all(prog.stmts@, trees),
            (Err(e), Err(f)) => reports(ts@, e, f),
            _ => false,
        },
{
    proof {
        assert(ts@.len() == ts.len());
    }
    let mut out: Vec<Expr> = Vec::new();
    let mut j: usize = 0;
    let ghost mut acc: Seq<Tree> = Seq::empty();
    loop
        invariant
            ts@.len() <= usize::MAX,
            j <= ts@.len(),
            sp_program(ts@, 0, Seq::empty()) == sp_program(ts@, j as int, acc),
            models_all(out@, acc),
        decreases ts@.len() - j,
    {
        if j >= ts.len() {
            return Ok(Program { stmts: out });
        }
        match parse_expr(ts, j) {
            Ok((e, q)) => {
                if !is_token(ts, q, &Token::Semicolon) {
                    return Err(failure(ts, q, Expected::Semicolon));
                }
                let ghost t = sp_expr(ts@, j as int)->Ok_0.0;
                proof {
                    assert(models_all(out@.push(e), acc.push(t))) by {
                        assert forall|k: int| 0 <= k < acc.len() + 1 implies models(
                            #[trigger] out@.push(e)[k],
                            acc.push(t)[k],
                        ) by {
                            if k < acc.len() {
                                assert(models(out@[k], acc[k]));
                            }
                        }
                    }
                    acc = acc.push(t);
                }
                out.push(e);
                j = q + 1;
            },
            Err(e) => {
                return Err(e);
            },
        }
    }
}

/// Why source text could not be turned into a program.
#[derive(Debug)]
pub enum SourceError {
    Lex(LexError),
    Parse(ParseError),
}

/// What parsing the tokens `ts` gives, for the result `r`.
pub open spec fn parse_outcome(ts: Seq<(Token, Span)>, r: Result<Program, SourceError>) -> bool {
    match (r, sp_program(ts, 0, Seq::empty())) {
        (Ok(prog), Ok(trees)) => models_all(prog.stmts@, trees),
        (Err(SourceError::Parse(e)), Err(f)) => reports(ts, e, f),
        _ => false,
    }
}

/// Lexes and parses `text`: a lexical failure, or the outcome of parsing all
/// of its tokens.
pub fn parse_source(text: &str) -> (r: Result<Program, SourceError>)
    ensures
        match lex_spans(text@, 0) {
            Err(e) => r matches Err(SourceError::Lex(e2)) && e2 == e,
            Ok(_) => exists|ts: Seq<(Token, Span)>| lexes_to(text@, ts) && parse_outcome(ts, r),
        },
{
    match tokenize(text) {
        Ok(ts) => {
            let r = match parse(&ts) {
                Ok(p) => Ok(p),
                Err(e) => Err(SourceError::Parse(e)),
            };
            assert(lexes_to(text@, ts@) && parse_outcome(ts@, r));
            r
        },
        Err(e) => Err(SourceError::Lex(e)),
    }
}

proof fn lemma_push_consistent(acc: Seq<Tree>, t: Tree)
    requires
        all_consistent(acc),
        bindings_consistent(t),
    ensures
        all_consistent(acc.push(t)),
{
    assert forall|k: int| 0 <= k < acc.len() + 1 implies bindings_consistent(
        #[trigger] acc.push(t)[k],
    ) by {
        if k < acc.len() {
            assert(acc.push(t)[k] == acc[k]);
        }
    }
}

proof fn lemma_expr_consistent(ts: Seq<(Token, Span)>, p: int)
    ensures
        sp_expr(ts, p) matches Ok((t, _)) ==> bindings_consistent(t),
    decreases ts.len() - p, 1int,
{
    if 0 <= p < ts.len() {
        match ts[p].0 {
            Token::Const => {
                if let Some(Token::Ident(name)) = tok(ts, p + 1) {
                    if tok(ts, p + 2) == Some(Token::Assign) {
                        lemma_expr_consistent(ts, p + 3);
                    } else if tok(ts, p + 2) == Some(Token::Colon) {
                        lemma_fn_decl_consistent(ts, p, p + 3, name@);
                    }
                }
            },
            Token::Let => {
                if tok(ts, p + 1) == Some(Token::Mut) {
                    lemma_binding_consistent(ts, p, p + 2, true);
                } else {
                    lemma_binding_consistent(ts, p, p + 1, false);
                }
            },
            Token::Ident(name) => {
                if tok(ts, p + 1) == Some(Token::Bang) && tok(ts, p + 2) == Some(Token::OParen) {
                    lemma_call_consistent(ts, p, p + 3, name@, true);
                } else if tok(ts, p + 1) == Some(Token::OParen) {
                    lemma_call_consistent(ts, p, p + 2, name@, false);
                }
            },
            _ => {},
        }
    }
}

proof fn lemma_binding_consistent(ts: Seq<(Token, Span)>, p: int, i: int, mutable: bool)
    requires
        p < i,
    ensures
        sp_binding(ts, p, i, mutable) matches Ok((t, _)) ==> bindings_consistent(t),
    decreases ts.len() - i, 0int,
{
    if 0 <= i && i + 1 < ts.len() {
        lemma_expr_consistent(ts, i + 2);
    }
}

proof fn lemma_call_consistent(
    ts: Seq<(Token, Span)>,
    p: int,
    i: int,
    name: Seq<char>,
    is_macro: bool,
)
    requires
        p < i <= ts.len(),
    ensures
        sp_call(ts, p, i, name, is_macro) matches Ok((t, _)) ==> bindings_consistent(t),
    decreases ts.len() - i, 4int,
{
    lemma_args_consistent(ts, i);
}

proof fn lemma_args_consistent(ts: Seq<(Token, Span)>, i: int)
    requires
        i <= ts.len(),
    ensures
        sp_args(ts, i) matches Ok((v, _)) ==> all_consistent(v),
    decreases ts.len() - i, 3int,
{
    if tok(ts, i) != Some(Token::CParen) {
        lemma_args_from_consistent(ts, i, Seq::empty());
    }
}

proof fn lemma_args_from_consistent(ts: Seq<(Token, Span)>, i: int, acc: Seq<Tree>)
    requires
        i <= ts.len(),
        all_consistent(acc),
    ensures
        sp_args_from(ts, i, acc) matches Ok((v, _)) ==> all_consistent(v),
    decreases ts.len() - i, 2int,
{
    lemma_expr_consistent(ts, i);
    if let Ok((t, q)) = sp_expr(ts, i) {
        if !(q <= i || q > ts.len()) {
            lemma_push_consistent(acc, t);
            if tok(ts, q) == Some(Token::Comma) {
                lemma_args_from_consistent(ts, q + 1, acc.push(t));
            }
        }
    }
}

proof fn lemma_fn_decl_consistent(ts: Seq<(Token, Span)>, p: int, i: int, name: Seq<char>)
    requires
        p < i,
    ensures
        sp_fn_decl(ts, p, i, name) matches Ok((t, _)) ==> bindings_consistent(t),
    decreases ts.len() - i, 0int,
{
    if let Ok((params, q)) = sp_params(ts, i + 2) {
        if q >= i + 2 && q + 4 <= ts.len() {
            if tok(ts, q + 4) == Some(Token::OBrace) {
                lemma_body_consistent(ts, q + 5, Seq::empty());
            }
            lemma_expr_consistent(ts, q + 4);
            if let Ok((e, r)) = sp_expr(ts, q + 4) {
                lemma_push_consistent(Seq::empty(), e);
                assert(seq![e] =~= Seq::<Tree>::empty().push(e));
            }
        }
    }
}

proof fn lemma_body_consistent(ts: Seq<(Token, Span)>, i: int, acc: Seq<Tree>)
    requires
        all_consistent(acc),
    ensures
        sp_body(ts, i, acc) matches Ok((v, _)) ==> all_consistent(v),
    decreases ts.len() - i, 2int,
{
    if 0 <= i < ts.len() && ts[i].0 != Token::CBrace {
        lemma_expr_consistent(ts, i);
        if let Ok((t, q)) = sp_expr(ts, i) {
            if !(q <= i || q > ts.len()) {
                lemma_push_consistent(acc, t);
                if tok(ts, q) == Some(Token::Semicolon) {
                    lemma_body_consistent(ts, q + 1, acc.push(t));
                }
            }
        }
    }
}

proof fn lemma_program_consistent(ts: Seq<(Token, Span)>, i: int, acc: Seq<Tree>)
    requires
        all_consistent(acc),
    ensures
        sp_program(ts, i, acc) matches Ok(v) ==> all_consistent(v),
    decreases ts.len() - i,
{
    if 0 <= i < ts.len() {
        lemma_expr_consistent(ts, i);
        if let Ok((t, q)) = sp_expr(ts, i) {
            if !(q <= i || q > ts.len()) {
                lemma_push_consistent(acc, t);
                if tok(ts, q) == Some(Token::Semicolon) {
                    lemma_program_consistent(ts, q + 1, acc.push(t));
                }
            }
        }
    }
}

/// No binding that parsing builds, at any depth, is both constant and mutable.
pub proof fn lemma_parsed_bindings_consistent(ts: Seq<(Token, Span)>)
    ensures
        sp_program(ts, 0, Seq::empty()) matches Ok(trees) ==> all_consistent(trees),
{
    lemma_program_consistent(ts, 0, Seq::empty());
}

} // verus!
