use qlang::decl::{Atom, Decl, DeclError, DeclExpected, Expr, Node, Parser};
use qlang::lexer;
use qlang::scanner::{move_given, Lexer, Moved, ScanError, Token};

fn all_tokens(text: &str) -> Vec<Token> {
    let mut lx = Lexer::new("test.q", text);
    let mut out = Vec::new();
    loop {
        match lx.next() {
            Some(Token::EOF) => {
                out.push(Token::EOF);
                return out;
            }
            Some(t) => out.push(t),
            None => return out,
        }
    }
}

fn ident(t: &str) -> Token {
    Token::Identifier(t.to_string())
}

#[test]
fn scanner_words_and_keywords() {
    assert_eq!(
        all_tokens("const let mut fn struct enum letx _x1 été"),
        vec![
            Token::Const,
            Token::Let,
            Token::Mut,
            Token::Fn,
            Token::Struct,
            Token::Enum,
            ident("letx"),
            ident("_x1"),
            ident("été"),
            Token::EOF
        ]
    );
}

#[test]
fn scanner_operators() {
    assert_eq!(
        all_tokens("-> - == = != ! <= < >= > && || |> := ( ) { } [ ] ; : , . + * / %"),
        vec![
            Token::Arrow,
            Token::Minus,
            Token::DoubleEqual,
            Token::Equal,
            Token::NotEqual,
            Token::Bang,
            Token::LessThanEqual,
            Token::LessThan,
            Token::GreaterThanEqual,
            Token::GreaterThan,
            Token::And,
            Token::Or,
            Token::Pipe,
            Token::Assign,
            Token::OParen,
            Token::CParen,
            Token::OBrace,
            Token::CBrace,
            Token::OBracket,
            Token::CBracket,
            Token::Semicolon,
            Token::Colon,
            Token::Comma,
            Token::Dot,
            Token::Plus,
            Token::Asterisk,
            Token::Slash,
            Token::Percent,
            Token::EOF
        ]
    );
}

#[test]
fn scanner_literals_give_text_between_quotes() {
    assert_eq!(
        all_tokens("42 \"hi there\" 'c' // comment\n7"),
        vec![
            Token::Number(42),
            Token::String("hi there".to_string()),
            Token::String("c".to_string()),
            Token::Number(7),
            Token::EOF
        ]
    );
    assert_eq!(Lexer::new("f", "\"a b\"").next_token(), Ok(Token::String("a b".to_string())));
}

#[test]
fn scanner_skips_block_comments() {
    assert_eq!(Lexer::new("f", "/* c */x").next_token(), Ok(ident("x")));
    assert_eq!(all_tokens("a /* b // c */ d"), vec![ident("a"), ident("d"), Token::EOF]);
    assert_eq!(all_tokens("/* open"), vec![Token::Slash, Token::Asterisk, ident("open"), Token::EOF]);
}

#[test]
fn scanner_assignment_is_one_token() {
    assert_eq!(all_tokens(":= : ="), vec![Token::Assign, Token::Colon, Token::Equal, Token::EOF]);
}

#[test]
fn scanners_on_the_same_text_agree() {
    let text = "let mut y := 12; // c\n\"s\" 'q' /* x */ f(a, b) -> z";
    assert_eq!(
        all_tokens(text),
        {
            let mut lx = Lexer::new("other.q", text);
            let mut out = Vec::new();
            loop {
                let t = lx.next().unwrap();
                let end = t == Token::EOF;
                out.push(t);
                if end {
                    break out;
                }
            }
        }
    );
}

#[test]
fn scanner_errors() {
    let mut lx = Lexer::new("t", "\"abc");
    assert_eq!(lx.next_token(), Err(ScanError::UnterminatedString { pos: 0 }));
    assert_eq!(lx.next_token(), Ok(Token::EOF));
    assert_eq!(Lexer::new("t", "'ab'").next_token(), Err(ScanError::InvalidCharLiteral { pos: 0 }));
    assert_eq!(Lexer::new("t", "&x").next_token(), Err(ScanError::UnexpectedChar { pos: 0, ch: '&' }));
    assert_eq!(Lexer::new("t", "|").next_token(), Err(ScanError::UnexpectedChar { pos: 0, ch: '|' }));
    assert_eq!(Lexer::new("t", "#").next_token(), Err(ScanError::UnexpectedChar { pos: 0, ch: '#' }));
    assert_eq!(
        Lexer::new("t", "18446744073709551616").next_token(),
        Err(ScanError::NumberOutOfRange { lo: 0, hi: 20 })
    );
    assert_eq!(Lexer::new("t", "18446744073709551615").next_token(), Ok(Token::Number(u64::MAX)));
    assert_eq!(all_tokens("a \"b"), vec![ident("a")]);
}

#[test]
fn scanner_keeps_file_name() {
    assert_eq!(Lexer::new("main.q", "").file_name(), "main.q");
    assert_eq!(Lexer::new("main.q", "   ").next_token(), Ok(Token::EOF));
}

fn parser(text: &str) -> Parser {
    Parser::new("test.q", Lexer::new("test.q", text))
}

#[test]
fn parser_next_node_at_end_is_eof() {
    let mut p = parser("  // only a comment");
    assert_eq!(p.next_node(), Ok(Node::EOF));
    assert_eq!(p.next(), Some(Node::EOF));
    assert_eq!(p.file_name(), "test.q");
}

#[test]
fn parser_next_node_reports_unhandled_token() {
    let mut p = parser("const x = 1;");
    assert_eq!(p.next_node(), Err(DeclError::Unhandled(Token::Const)));
    assert_eq!(p.next(), None);
}

#[test]
fn parser_after_scan_failure_ends() {
    let mut p = parser("#");
    assert_eq!(p.next_node(), Ok(Node::EOF));
}

#[test]
fn parse_const_declaration() {
    let mut p = parser("const X := 5; let y := 2;");
    assert_eq!(
        p.parse_decl(),
        Ok(Decl::Const { name: "X".to_string(), value: Expr::Atom(Atom::Number(5)) })
    );
    assert_eq!(
        p.parse_decl(),
        Ok(Decl::Let { name: "y".to_string(), mutable: false, value: Expr::Atom(Atom::Number(2)) })
    );
    assert_eq!(
        p.parse_decl(),
        Err(DeclError::UnexpectedEnd { expected: DeclExpected::Declaration })
    );
}

#[test]
fn parse_let_mut_declaration() {
    let mut p = parser("let mut Y := 10;");
    assert_eq!(
        p.parse_decl(),
        Ok(Decl::Let { name: "Y".to_string(), mutable: true, value: Expr::Atom(Atom::Number(10)) })
    );
}

#[test]
fn parse_declaration_errors() {
    assert_eq!(
        parser("x").parse_decl(),
        Err(DeclError::Expected { expected: DeclExpected::Declaration, found: ident("x") })
    );
    assert_eq!(
        parser("const := 5;").parse_decl(),
        Err(DeclError::Expected { expected: DeclExpected::Identifier, found: Token::Assign })
    );
    assert_eq!(
        parser("let x 1;").parse_decl(),
        Err(DeclError::Expected { expected: DeclExpected::Assign, found: Token::Number(1) })
    );
    assert_eq!(
        parser("let x = 1;").parse_decl(),
        Err(DeclError::Expected { expected: DeclExpected::Assign, found: Token::Equal })
    );
    assert_eq!(
        parser("const x := y;").parse_decl(),
        Err(DeclError::Expected { expected: DeclExpected::Number, found: ident("y") })
    );
    assert_eq!(
        parser("const X").parse_decl(),
        Err(DeclError::UnexpectedEnd { expected: DeclExpected::Assign })
    );
    assert_eq!(
        parser("const x := 1").parse_decl(),
        Err(DeclError::UnexpectedEnd { expected: DeclExpected::Semicolon })
    );
    assert_eq!(
        parser("const x := 1 #").parse_decl(),
        Err(DeclError::UnexpectedEnd { expected: DeclExpected::Semicolon })
    );
}

#[test]
fn token_display() {
    assert_eq!(lexer::Token::Integer(305).to_string(), "305");
    assert_eq!(lexer::Token::Integer(42).to_string(), "42");
    assert_eq!(lexer::Token::Integer(0).to_string(), "0");
    assert_eq!(lexer::Token::Ident("abc".to_string()).to_string(), "abc");
    assert_eq!(lexer::Token::String("s t".to_string()).to_string(), "s t");
    assert_eq!(lexer::Token::Assign.to_string(), ":=");
    assert_eq!(lexer::Token::OBrace.to_string(), "{");
    assert_eq!(lexer::Token::Struct.to_string(), "struct");
    assert_eq!(lexer::Token::Whitespace.to_string(), "__whitespace__");
    assert_eq!(lexer::Token::Comment.to_string(), "__comment__");
    assert_eq!(lexer::Token::EOF.to_string(), "__eof__");
}

fn chars(t: &str) -> Vec<char> {
    t.chars().collect()
}

#[test]
fn step_with_given_classes() {
    assert_eq!(move_given(&chars("x1 y"), 0, false, true, 2), Moved::Take(ident("x1"), 2));
    assert_eq!(move_given(&chars("let y"), 0, false, true, 3), Moved::Take(Token::Let, 3));
    assert_eq!(move_given(&chars("\u{2003}x"), 0, true, false, 1), Moved::Skip(1));
    assert_eq!(
        move_given(&chars("\"ab\" z"), 0, false, false, 1),
        Moved::Take(Token::String("ab".to_string()), 4)
    );
    assert_eq!(move_given(&chars(":= 1"), 0, false, false, 1), Moved::Take(Token::Assign, 2));
    assert_eq!(move_given(&chars("/* a */b"), 0, false, false, 1), Moved::Skip(7));
    assert_eq!(move_given(&chars("// a\nb"), 0, false, false, 1), Moved::Skip(4));
    assert_eq!(move_given(&chars("907;"), 0, false, false, 1), Moved::Take(Token::Number(907), 3));
    assert_eq!(
        move_given(&chars("@"), 0, false, false, 1),
        Moved::Fail(ScanError::UnexpectedChar { pos: 0, ch: '@' })
    );
}
