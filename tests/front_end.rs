use qlang::ast::{Expr, ExprKind, Program, Type};
use qlang::lexer::{tokenize, LexError, Lexer, Span, Token};
use qlang::parser::{parse, parse_source, Expected, SourceError};

fn program(text: &str) -> Program {
    match parse_source(text) {
        Ok(p) => p,
        Err(e) => panic!("{:?}", e),
    }
}

fn only_stmt(p: &Program) -> &Expr {
    assert_eq!(p.stmts.len(), 1);
    &p.stmts[0]
}

fn ident(t: &str) -> Token {
    Token::Ident(t.to_string())
}

#[test]
fn let_is_keyword() {
    let toks = tokenize("let").unwrap();
    assert_eq!(toks, vec![(Token::Let, Span { lo: 0, hi: 3 })]);
}

#[test]
fn letx_is_identifier() {
    let toks = tokenize("letx").unwrap();
    assert_eq!(toks, vec![(ident("letx"), Span { lo: 0, hi: 4 })]);
}

#[test]
fn keywords_and_words() {
    let toks: Vec<Token> = tokenize("const let mut fn struct enum constx _a1")
        .unwrap()
        .into_iter()
        .map(|(t, _)| t)
        .collect();
    assert_eq!(
        toks,
        vec![
            Token::Const,
            Token::Let,
            Token::Mut,
            Token::Fn,
            Token::Struct,
            Token::Enum,
            ident("constx"),
            ident("_a1")
        ]
    );
}

#[test]
fn operators_prefer_two_chars() {
    let toks: Vec<Token> = tokenize("<= >= == != && || |> -> := < > = ! - : /")
        .unwrap()
        .into_iter()
        .map(|(t, _)| t)
        .collect();
    assert_eq!(
        toks,
        vec![
            Token::LessThanEqual,
            Token::GreaterThanEqual,
            Token::DoubleEqual,
            Token::NotEqual,
            Token::And,
            Token::Or,
            Token::Pipe,
            Token::Arrow,
            Token::Assign,
            Token::LessThan,
            Token::GreaterThan,
            Token::Equal,
            Token::Bang,
            Token::Minus,
            Token::Colon,
            Token::Slash
        ]
    );
}

#[test]
fn trivia_is_skipped_and_spans_count_characters() {
    let toks = tokenize("  a // note\n/* block */ 12 \"hi\"").unwrap();
    assert_eq!(
        toks,
        vec![
            (ident("a"), Span { lo: 2, hi: 3 }),
            (Token::Integer(12), Span { lo: 24, hi: 26 }),
            (Token::String("hi".to_string()), Span { lo: 27, hi: 31 }),
        ]
    );
}

#[test]
fn spans_and_trivia_rebuild_the_text() {
    let text = "const x := f(1, \"s\"); // end\n/* c */ let mut y := 2;";
    let chars: Vec<char> = text.chars().collect();
    let toks = tokenize(text).unwrap();
    let mut rebuilt = String::new();
    let mut at = 0;
    for (_, sp) in &toks {
        let gap: String = chars[at..sp.lo].iter().collect();
        assert!(gap.trim().is_empty() || gap.contains("//") || gap.contains("/*"));
        rebuilt.push_str(&gap);
        rebuilt.extend(chars[sp.lo..sp.hi].iter());
        at = sp.hi;
    }
    rebuilt.extend(chars[at..].iter());
    assert_eq!(rebuilt, text);
}

#[test]
fn tokenizing_twice_gives_the_same_tokens() {
    let text = "let mut z := foo!(1, \"two\", three);";
    assert_eq!(tokenize(text).unwrap(), tokenize(text).unwrap());
}

#[test]
fn unterminated_string_fails() {
    assert_eq!(tokenize("\"abc"), Err(LexError::UnterminatedString { pos: 0 }));
    let mut lx = Lexer::new("x \"abc");
    assert_eq!(lx.next(), Ok(Some((ident("x"), Span { lo: 0, hi: 1 }))));
    assert_eq!(lx.next(), Err(LexError::UnterminatedString { pos: 2 }));
    assert_eq!(lx.next(), Ok(None));
}

#[test]
fn unexpected_character_fails() {
    assert_eq!(tokenize("a # b"), Err(LexError::UnexpectedChar { pos: 2, ch: '#' }));
    assert_eq!(tokenize("&"), Err(LexError::UnexpectedChar { pos: 0, ch: '&' }));
}

#[test]
fn integer_out_of_range_fails() {
    let big = "99999999999999999999999";
    assert_eq!(tokenize(big), Err(LexError::IntegerOutOfRange { lo: 0, hi: 23 }));
    let max = usize::MAX.to_string();
    assert_eq!(tokenize(&max).unwrap()[0].0, Token::Integer(usize::MAX));
}

#[test]
fn unclosed_block_comment_is_a_slash() {
    let toks: Vec<Token> = tokenize("/* a").unwrap().into_iter().map(|(t, _)| t).collect();
    assert_eq!(toks, vec![Token::Slash, Token::Asterisk, ident("a")]);
}

#[test]
fn const_binding() {
    let p = program("const X := 5;");
    let e = only_stmt(&p);
    assert_eq!(e.span, Span { lo: 0, hi: 12 });
    match &e.expr {
        ExprKind::VarDecl { constant, mutable, name, ty, value } => {
            assert!(*constant);
            assert!(!*mutable);
            assert_eq!(name, "X");
            assert!(ty.is_none());
            assert!(matches!(value.expr, ExprKind::Integer(5)));
        }
        other => panic!("{:?}", other),
    }
}

#[test]
fn mutable_binding() {
    let p = program("let mut Y := 10;");
    match &only_stmt(&p).expr {
        ExprKind::VarDecl { constant, mutable, name, value, .. } => {
            assert!(!*constant);
            assert!(*mutable);
            assert_eq!(name, "Y");
            assert!(matches!(value.expr, ExprKind::Integer(10)));
        }
        other => panic!("{:?}", other),
    }
}

#[test]
fn immutable_binding() {
    let p = program("let z := \"s\";");
    match &only_stmt(&p).expr {
        ExprKind::VarDecl { constant, mutable, name, value, .. } => {
            assert!(!*constant);
            assert!(!*mutable);
            assert_eq!(name, "z");
            assert!(matches!(&value.expr, ExprKind::String(s) if s == "s"));
        }
        other => panic!("{:?}", other),
    }
}

#[test]
fn function_declaration_with_block() {
    let p = program("const add : fn(a: Int, b: Int) -> Int = { a; };");
    match &only_stmt(&p).expr {
        ExprKind::FnDecl { name, params, ret_ty, body } => {
            assert_eq!(name, "add");
            assert_eq!(params.len(), 2);
            assert_eq!(params[0].name, "a");
            assert!(matches!(&params[0].value, Type::Ident(t) if t == "Int"));
            assert_eq!(params[1].name, "b");
            assert!(matches!(&params[1].value, Type::Ident(t) if t == "Int"));
            assert!(matches!(ret_ty, Type::Ident(t) if t == "Int"));
            assert_eq!(body.len(), 1);
            assert!(matches!(&body[0].expr, ExprKind::Ident(a) if a == "a"));
        }
        other => panic!("{:?}", other),
    }
}

#[test]
fn function_declaration_with_expression() {
    let p = program("const one : fn() -> Int = 1;");
    match &only_stmt(&p).expr {
        ExprKind::FnDecl { name, params, body, .. } => {
            assert_eq!(name, "one");
            assert!(params.is_empty());
            assert_eq!(body.len(), 1);
            assert!(matches!(body[0].expr, ExprKind::Integer(1)));
        }
        other => panic!("{:?}", other),
    }
}

#[test]
fn macro_call() {
    let p = program("foo!(1, 2);");
    let e = only_stmt(&p);
    assert_eq!(e.span, Span { lo: 0, hi: 10 });
    match &e.expr {
        ExprKind::MacroCall { name, args } => {
            assert_eq!(name, "foo");
            assert_eq!(args.len(), 2);
            assert!(matches!(args[0].expr, ExprKind::Integer(1)));
            assert!(matches!(args[1].expr, ExprKind::Integer(2)));
        }
        other => panic!("{:?}", other),
    }
}

#[test]
fn function_call_and_program_order() {
    let p = program("f(); g(x, h(y));");
    assert_eq!(p.stmts.len(), 2);
    assert!(matches!(&p.stmts[0].expr, ExprKind::FnCall { name, args } if name == "f" && args.is_empty()));
    match &p.stmts[1].expr {
        ExprKind::FnCall { name, args } => {
            assert_eq!(name, "g");
            assert_eq!(args.len(), 2);
            assert!(matches!(&args[1].expr, ExprKind::FnCall { name, .. } if name == "h"));
        }
        other => panic!("{:?}", other),
    }
}

#[test]
fn missing_identifier_reports_the_token_found() {
    match parse_source("const := 5;") {
        Err(SourceError::Parse(e)) => {
            assert_eq!(e.expected, Expected::Identifier);
            assert_eq!(e.found, Some((Token::Assign, Span { lo: 6, hi: 8 })));
        }
        other => panic!("{:?}", other),
    }
}

#[test]
fn running_out_of_tokens_reports_no_token() {
    match parse_source("let x :=") {
        Err(SourceError::Parse(e)) => {
            assert_eq!(e.expected, Expected::Expression);
            assert_eq!(e.found, None);
        }
        other => panic!("{:?}", other),
    }
}

#[test]
fn missing_semicolon_is_reported() {
    let toks = tokenize("a b").unwrap();
    let e = parse(&toks).unwrap_err();
    assert_eq!(e.expected, Expected::Semicolon);
    assert_eq!(e.found, Some((ident("b"), Span { lo: 2, hi: 3 })));
}

#[test]
fn operators_are_not_expressions() {
    match parse_source("1 + 2;") {
        Err(SourceError::Parse(e)) => {
            assert_eq!(e.expected, Expected::Semicolon);
            assert_eq!(e.found, Some((Token::Plus, Span { lo: 2, hi: 3 })));
        }
        other => panic!("{:?}", other),
    }
}

#[test]
fn lexical_failure_stops_parsing() {
    match parse_source("\"abc") {
        Err(SourceError::Lex(e)) => assert_eq!(e, LexError::UnterminatedString { pos: 0 }),
        other => panic!("{:?}", other),
    }
}

#[test]
fn empty_program() {
    assert!(program("  // nothing\n").stmts.is_empty());
}
