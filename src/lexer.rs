//! The tokenizer: turns source text into classified lexemes with their spans.
//!
//! At each position the lexeme is chosen by the class of its first character.
//! A word is a keyword only when the whole word is one (`let` against `letx`),
//! and two-character operators are matched before their one-character prefixes.
use vstd::prelude::*;
use vstd::std_specs::iter::IteratorSpec;

verus! {

/// A classified lexeme.
#[derive(Debug, PartialEq, Eq, Clone)]
pub enum Token {
    // Keywords
    Const,
    Let,
    Mut,
    Fn,
    Struct,
    Enum,
    // Two-character operators
    LessThanEqual,
    GreaterThanEqual,
    DoubleEqual,
    NotEqual,
    And,
    Or,
    Pipe,
    Arrow,
    Assign,
    // One-character punctuation and operators
    OParen,
    CParen,
    OBrace,
    CBrace,
    OBracket,
    CBracket,
    Semicolon,
    Colon,
    Comma,
    Dot,
    Equal,
    Plus,
    Minus,
    Asterisk,
    Slash,
    Percent,
    Bang,
    LessThan,
    GreaterThan,
    // Literals
    Integer(usize),
    Ident(String),
    String(String),
    // Trivia and end marker: never handed out by the lexer
    Whitespace,
    Comment,
    EOF,
}

impl Token {
    /// A copy of this token.
    pub fn duplicate(&self) -> (r: Token)
        ensures
            r == *self,
    {
        match self {
            Token::Integer(v) => Token::Integer(*v),
            Token::Ident(n) => Token::Ident(n.clone()),
            Token::String(x) => Token::String(x.clone()),
            Token::Const => Token::Const,
            Token::Let => Token::Let,
            Token::Mut => Token::Mut,
            Token::Fn => Token::Fn,
            Token::Struct => Token::Struct,
            Token::Enum => Token::Enum,
            Token::LessThanEqual => Token::LessThanEqual,
            Token::GreaterThanEqual => Token::GreaterThanEqual,
            Token::DoubleEqual => Token::DoubleEqual,
            Token::NotEqual => Token::NotEqual,
            Token::And => Token::And,
            Token::Or => Token::Or,
            Token::Pipe => Token::Pipe,
            Token::Arrow => Token::Arrow,
            Token::Assign => Token::Assign,
            Token::OParen => Token::OParen,
            Token::CParen => Token::CParen,
            Token::OBrace => Token::OBrace,
            Token::CBrace => Token::CBrace,
            Token::OBracket => Token::OBracket,
            Token::CBracket => Token::CBracket,
            Token::Semicolon => Token::Semicolon,
            Token::Colon => Token::Colon,
            Token::Comma => Token::Comma,
            Token::Dot => Token::Dot,
            Token::Equal => Token::Equal,
            Token::Plus => Token::Plus,
            Token::Minus => Token::Minus,
            Token::Asterisk => Token::Asterisk,
            Token::Slash => Token::Slash,
            Token::Percent => Token::Percent,
            Token::Bang => Token::Bang,
            Token::LessThan => Token::LessThan,
            Token::GreaterThan => Token::GreaterThan,
            Token::Whitespace => Token::Whitespace,
            Token::Comment => Token::Comment,
            Token::EOF => Token::EOF,
        }
    }
}

/// `r` is the decimal numeral of `v`.
pub open spec fn is_decimal_of(r: Seq<char>, v: nat) -> bool {
    &&& r.len() > 0
    &&& r.len() == 1 || r[0] != '0'
    &&& forall|i: int| 0 <= i < r.len() ==> is_digit(#[trigger] r[i])
    &&& digits_value(r) == v
}

/// `__word__`: how the tokens that have no spelling of their own are shown.
pub open spec fn marker(word: Seq<char>) -> Seq<char> {
    seq!['_', '_'] + word + seq!['_', '_']
}

/// Relies on `usize`'s `Display` (through `ToString`): the decimal numeral of `v`.
#[verifier::external_body]
fn decimal(v: usize) -> (r: String)
    ensures
        is_decimal_of(r@, v as nat),
{
    v.to_string()
}

/// `r` is how the token `t` is shown: its spelling, an integer in decimal,
/// the text of a name or a string, and a marker for the tokens that have no
/// spelling.
#[verifier::opaque]
pub open spec fn shown(t: Token, r: Seq<char>) -> bool {
    match t {
        Token::Integer(v) => is_decimal_of(r, v as nat),
        Token::Ident(n) => r == n@,
        Token::String(x) => r == x@,
        Token::Whitespace => r == marker(seq!['w', 'h', 'i', 't', 'e', 's', 'p', 'a', 'c', 'e']),
        Token::Comment => r == marker(seq!['c', 'o', 'm', 'm', 'e', 'n', 't']),
        Token::EOF => r == marker(seq!['e', 'o', 'f']),
        _ => denotes(t, r),
    }
}

impl Token {
    /// How the token is shown.
    pub fn to_string(&self) -> (r: String)
        ensures
            shown(*self, r@),
    {
        proof {
            reveal(shown);
        }
        match self {
            Token::Integer(v) => decimal(*v),
            Token::Ident(n) => n.clone(),
            Token::String(x) => x.clone(),
            Token::Whitespace => {
                let w = string_from_chars(
                    vec!['_', '_', 'w', 'h', 'i', 't', 'e', 's', 'p', 'a', 'c', 'e', '_', '_'],
                );
                assert(w@ =~= marker(seq!['w', 'h', 'i', 't', 'e', 's', 'p', 'a', 'c', 'e']));
                w
            },
            Token::Comment => {
                let w = string_from_chars(vec!['_', '_', 'c', 'o', 'm', 'm', 'e', 'n', 't', '_', '_']);
                assert(w@ =~= marker(seq!['c', 'o', 'm', 'm', 'e', 'n', 't']));
                w
            },
            Token::EOF => {
                let w = string_from_chars(vec!['_', '_', 'e', 'o', 'f', '_', '_']);
                assert(w@ =~= marker(seq!['e', 'o', 'f']));
                w
            },
            Token::Const => {
                let w = string_from_chars(vec!['c', 'o', 'n', 's', 't']);
                assert(w@ =~= seq!['c', 'o', 'n', 's', 't']);
                w
            },
            Token::Let => {
                let w = string_from_chars(vec!['l', 'e', 't']);
                assert(w@ =~= seq!['l', 'e', 't']);
                w
            },
            Token::Mut => {
                let w = string_from_chars(vec!['m', 'u', 't']);
                assert(w@ =~= seq!['m', 'u', 't']);
                w
            },
            Token::Fn => {
                let w = string_from_chars(vec!['f', 'n']);
                assert(w@ =~= seq!['f', 'n']);
                w
            },
            Token::Struct => {
                let w = string_from_chars(vec!['s', 't', 'r', 'u', 'c', 't']);
                assert(w@ =~= seq!['s', 't', 'r', 'u', 'c', 't']);
                w
            },
            Token::Enum => {
                let w = string_from_chars(vec!['e', 'n', 'u', 'm']);
                assert(w@ =~= seq!['e', 'n', 'u', 'm']);
                w
            },
            Token::LessThanEqual => {
                let w = string_from_chars(vec!['<', '=']);
                assert(w@ =~= seq!['<', '=']);
                w
            },
            Token::GreaterThanEqual => {
                let w = string_from_chars(vec!['>', '=']);
                assert(w@ =~= seq!['>', '=']);
                w
            },
            Token::DoubleEqual => {
                let w = string_from_chars(vec!['=', '=']);
                assert(w@ =~= seq!['=', '=']);
                w
            },
            Token::NotEqual => {
                let w = string_from_chars(vec!['!', '=']);
                assert(w@ =~= seq!['!', '=']);
                w
            },
            Token::And => {
                let w = string_from_chars(vec!['&', '&']);
                assert(w@ =~= seq!['&', '&']);
                w
            },
            Token::Or => {
                let w = string_from_chars(vec!['|', '|']);
                assert(w@ =~= seq!['|', '|']);
                w
            },
            Token::Pipe => {
                let w = string_from_chars(vec!['|', '>']);
                assert(w@ =~= seq!['|', '>']);
                w
            },
            Token::Arrow => {
                let w = string_from_chars(vec!['-', '>']);
                assert(w@ =~= seq!['-', '>']);
                w
            },
            Token::Assign => {
                let w = string_from_chars(vec![':', '=']);
                assert(w@ =~= seq![':', '=']);
                w
            },
            Token::OParen => {
                let w = string_from_chars(vec!['(']);
                assert(w@ =~= seq!['(']);
                w
            },
            Token::CParen => {
                let w = string_from_chars(vec![')']);
                assert(w@ =~= seq![')']);
                w
            },
            Token::OBrace => {
                let w = string_from_chars(vec!['{']);
                assert(w@ =~= seq!['{']);
                w
            },
            Token::CBrace => {
                let w = string_from_chars(vec!['}']);
                assert(w@ =~= seq!['}']);
                w
            },
            Token::OBracket => {
                let w = string_from_chars(vec!['[']);
                assert(w@ =~= seq!['[']);
                w
            },
            Token::CBracket => {
                let w = string_from_chars(vec![']']);
                assert(w@ =~= seq![']']);
                w
            },
            Token::Semicolon => {
                let w = string_from_chars(vec![';']);
                assert(w@ =~= seq![';']);
                w
            },
            Token::Colon => {
                let w = string_from_chars(vec![':']);
                assert(w@ =~= seq![':']);
                w
            },
            Token::Comma => {
                let w = string_from_chars(vec![',']);
                assert(w@ =~= seq![',']);
                w
            },
            Token::Dot => {
                let w = string_from_chars(vec!['.']);
                assert(w@ =~= seq!['.']);
                w
            },
            Token::Equal => {
                let w = string_from_chars(vec!['=']);
                assert(w@ =~= seq!['=']);
                w
            },
            Token::Plus => {
                let w = string_from_chars(vec!['+']);
                assert(w@ =~= seq!['+']);
                w
            },
            Token::Minus => {
                let w = string_from_chars(vec!['-']);
                assert(w@ =~= seq!['-']);
                w
            },
            Token::Asterisk => {
                let w = string_from_chars(vec!['*']);
                assert(w@ =~= seq!['*']);
                w
            },
            Token::Slash => {
                let w = string_from_chars(vec!['/']);
                assert(w@ =~= seq!['/']);
                w
            },
            Token::Percent => {
                let w = string_from_chars(vec!['%']);
                assert(w@ =~= seq!['%']);
                w
            },
            Token::Bang => {
                let w = string_from_chars(vec!['!']);
                assert(w@ =~= seq!['!']);
                w
            },
            Token::LessThan => {
                let w = string_from_chars(vec!['<']);
                assert(w@ =~= seq!['<']);
                w
            },
            Token::GreaterThan => {
                let w = string_from_chars(vec!['>']);
                assert(w@ =~= seq!['>']);
                w
            },
        }
    }
}

/// A range of source positions, counted in characters: `lo` inclusive, `hi` exclusive.
#[derive(Debug, Clone, Copy, PartialEq, Eq, Structural)]
pub struct Span {
    pub lo: usize,
    pub hi: usize,
}

/// Why scanning stopped before the end of the text.
#[derive(Debug, Clone, Copy, PartialEq, Eq, Structural)]
pub enum LexError {
    /// A character that starts no lexeme.
    UnexpectedChar { pos: usize, ch: char },
    /// A `"` with no closing `"` after it.
    UnterminatedString { pos: usize },
    /// A run of digits whose value does not fit in `usize`.
    IntegerOutOfRange { lo: usize, hi: usize },
}

/// What the text holds at one position.
pub enum Step {
    /// Whitespace or a comment of the given length.
    Trivia(nat),
    /// A lexeme of the given length.
    Lexeme(nat),
    /// No lexeme starts here.
    Fail(LexError),
}

/// The character classes that runs of text are made of.
#[derive(Clone, Copy)]
pub enum CharClass {
    Space,
    Word,
    Digit,
    NotNewline,
    NotQuote,
}

pub open spec fn is_space(c: char) -> bool {
    c == ' ' || c == '\t' || c == '\r' || c == '\n'
}

pub open spec fn is_digit(c: char) -> bool {
    '0' <= c && c <= '9'
}

pub open spec fn is_word_start(c: char) -> bool {
    ('a' <= c && c <= 'z') || ('A' <= c && c <= 'Z') || c == '_'
}

pub open spec fn is_word_char(c: char) -> bool {
    is_word_start(c) || is_digit(c)
}

pub open spec fn in_class(k: CharClass, c: char) -> bool {
    match k {
        CharClass::Space => is_space(c),
        CharClass::Word => is_word_char(c),
        CharClass::Digit => is_digit(c),
        CharClass::NotNewline => c != '\n',
        CharClass::NotQuote => c != '"',
    }
}

/// The end of the run of characters of class `k` that starts at `i`.
pub open spec fn run_end(s: Seq<char>, i: int, k: CharClass) -> int
    decreases s.len() - i,
{
    if 0 <= i < s.len() && in_class(k, s[i]) {
        run_end(s, i + 1, k)
    } else {
        i
    }
}

/// The first `j >= i` where `*/` starts, or the length of `s` where there is none.
pub open spec fn block_close(s: Seq<char>, i: int) -> int
    decreases s.len() - i,
{
    if i < 0 || i + 1 >= s.len() {
        s.len() as int
    } else if s[i] == '*' && s[i + 1] == '/' {
        i
    } else {
        block_close(s, i + 1)
    }
}

pub open spec fn digit_value(c: char) -> nat {
    (c as u32 - '0' as u32) as nat
}

/// The value of a run of decimal digits.
pub open spec fn digits_value(t: Seq<char>) -> nat
    decreases t.len(),
{
    if t.len() == 0 {
        0
    } else {
        digits_value(t.drop_last()) * 10 + digit_value(t.last())
    }
}

pub open spec fn is_two_char_op(c: char, d: char) -> bool {
    (c == '<' && d == '=') || (c == '>' && d == '=') || (c == '=' && d == '=') || (c == '!' && d
        == '=') || (c == '&' && d == '&') || (c == '|' && d == '|') || (c == '|' && d == '>') || (c
        == '-' && d == '>') || (c == ':' && d == '=')
}

pub open spec fn is_one_char_op(c: char) -> bool {
    c == '(' || c == ')' || c == '{' || c == '}' || c == '[' || c == ']' || c == ';' || c == ':'
        || c == ',' || c == '.' || c == '=' || c == '+' || c == '-' || c == '*' || c == '/' || c
        == '%' || c == '!' || c == '<' || c == '>'
}

/// The character after position `p`, or NUL past the end.
pub open spec fn next_char(s: Seq<char>, p: int) -> char {
    if p + 1 < s.len() {
        s[p + 1]
    } else {
        '\0'
    }
}

/// What starts at position `p` (with `0 <= p < s.len()`).
pub open spec fn step(s: Seq<char>, p: int) -> Step {
    let c = s[p];
    let d = next_char(s, p);
    if is_space(c) {
        Step::Trivia((run_end(s, p, CharClass::Space) - p) as nat)
    } else if c == '/' && d == '/' {
        Step::Trivia((run_end(s, p, CharClass::NotNewline) - p) as nat)
    } else if c == '/' && d == '*' && block_close(s, p + 2) < s.len() {
        Step::Trivia((block_close(s, p + 2) + 2 - p) as nat)
    } else if is_word_start(c) {
        Step::Lexeme((run_end(s, p, CharClass::Word) - p) as nat)
    } else if is_digit(c) {
        let e = run_end(s, p, CharClass::Digit);
        if digits_value(s.subrange(p, e)) <= usize::MAX {
            Step::Lexeme((e - p) as nat)
        } else {
            Step::Fail(LexError::IntegerOutOfRange { lo: p as usize, hi: e as usize })
        }
    } else if c == '"' {
        let q = run_end(s, p + 1, CharClass::NotQuote);
        if q < s.len() {
            Step::Lexeme((q + 1 - p) as nat)
        } else {
            Step::Fail(LexError::UnterminatedString { pos: p as usize })
        }
    } else if is_two_char_op(c, d) {
        Step::Lexeme(2)
    } else if is_one_char_op(c) {
        Step::Lexeme(1)
    } else {
        Step::Fail(LexError::UnexpectedChar { pos: p as usize, ch: c })
    }
}

pub open spec fn keyword_const() -> Seq<char> {
    seq!['c', 'o', 'n', 's', 't']
}

pub open spec fn keyword_let() -> Seq<char> {
    seq!['l', 'e', 't']
}

pub open spec fn keyword_mut() -> Seq<char> {
    seq!['m', 'u', 't']
}

pub open spec fn keyword_fn() -> Seq<char> {
    seq!['f', 'n']
}

pub open spec fn keyword_struct() -> Seq<char> {
    seq!['s', 't', 'r', 'u', 'c', 't']
}

pub open spec fn keyword_enum() -> Seq<char> {
    seq!['e', 'n', 'u', 'm']
}

pub open spec fn is_keyword(t: Seq<char>) -> bool {
    t == keyword_const() || t == keyword_let() || t == keyword_mut() || t == keyword_fn() || t
        == keyword_struct() || t == keyword_enum()
}

/// Token `t` is the meaning of the lexeme text `t`.
pub open spec fn denotes(tok: Token, t: Seq<char>) -> bool {
    match tok {
        Token::Const => t == keyword_const(),
        Token::Let => t == keyword_let(),
        Token::Mut => t == keyword_mut(),
        Token::Fn => t == keyword_fn(),
        Token::Struct => t == keyword_struct(),
        Token::Enum => t == keyword_enum(),
        Token::LessThanEqual => t == seq!['<', '='],
        Token::GreaterThanEqual => t == seq!['>', '='],
        Token::DoubleEqual => t == seq!['=', '='],
        Token::NotEqual => t == seq!['!', '='],
        Token::And => t == seq!['&', '&'],
        Token::Or => t == seq!['|', '|'],
        Token::Pipe => t == seq!['|', '>'],
        Token::Arrow => t == seq!['-', '>'],
        Token::Assign => t == seq![':', '='],
        Token::OParen => t == seq!['('],
        Token::CParen => t == seq![')'],
        Token::OBrace => t == seq!['{'],
        Token::CBrace => t == seq!['}'],
        Token::OBracket => t == seq!['['],
        Token::CBracket => t == seq![']'],
        Token::Semicolon => t == seq![';'],
        Token::Colon => t == seq![':'],
        Token::Comma => t == seq![','],
        Token::Dot => t == seq!['.'],
        Token::Equal => t == seq!['='],
        Token::Plus => t == seq!['+'],
        Token::Minus => t == seq!['-'],
        Token::Asterisk => t == seq!['*'],
        Token::Slash => t == seq!['/'],
        Token::Percent => t == seq!['%'],
        Token::Bang => t == seq!['!'],
        Token::LessThan => t == seq!['<'],
        Token::GreaterThan => t == seq!['>'],
        Token::Integer(v) => t.len() > 0 && is_digit(t[0]) && v == digits_value(t),
        Token::Ident(n) => n@ == t && t.len() > 0 && is_word_start(t[0]) && !is_keyword(t),
        Token::String(x) => t.len() >= 2 && t[0] == '"' && x@ == t.subrange(1, t.len() - 1),
        Token::Whitespace | Token::Comment | Token::EOF => false,
    }
}

/// What the lexer hands out next from position `p`: trivia is skipped.
pub enum Scan {
    Lexeme(Span),
    End,
    Fail(LexError),
}

pub open spec fn scan_from(s: Seq<char>, p: int) -> Scan
    decreases s.len() - p,
{
    if p < 0 || p >= s.len() {
        Scan::End
    } else {
        match step(s, p) {
            Step::Trivia(l) => if l > 0 && p + l <= s.len() {
                scan_from(s, p + l)
            } else {
                Scan::End
            },
            Step::Lexeme(l) => Scan::Lexeme(Span { lo: p as usize, hi: (p + l) as usize }),
            Step::Fail(e) => Scan::Fail(e),
        }
    }
}

/// The spans of all lexemes from position `p` on, or the failure that ends the scan.
pub open spec fn lex_spans(s: Seq<char>, p: int) -> Result<Seq<Span>, LexError>
    decreases s.len() - p,
{
    if p < 0 || p >= s.len() {
        Ok(Seq::empty())
    } else {
        match step(s, p) {
            Step::Trivia(l) => if l > 0 && p + l <= s.len() {
                lex_spans(s, p + l)
            } else {
                Ok(Seq::empty())
            },
            Step::Lexeme(l) => if l > 0 && p + l <= s.len() {
                match lex_spans(s, p + l) {
                    Ok(rest) => Ok(seq![Span { lo: p as usize, hi: (p + l) as usize }] + rest),
                    Err(e) => Err(e),
                }
            } else {
                Ok(Seq::empty())
            },
            Step::Fail(e) => Err(e),
        }
    }
}

/// Every step at or after `p` makes progress and stays within the text.
pub proof fn lemma_step_bounds(s: Seq<char>, p: int)
    requires
        0 <= p < s.len(),
    ensures
        match step(s, p) {
            Step::Trivia(l) => l > 0 && p + l <= s.len(),
            Step::Lexeme(l) => l > 0 && p + l <= s.len(),
            Step::Fail(_) => true,
        },
{
    lemma_run_end_bounds(s, p, CharClass::Space);
    lemma_run_end_bounds(s, p, CharClass::NotNewline);
    lemma_run_end_bounds(s, p, CharClass::Word);
    lemma_run_end_bounds(s, p, CharClass::Digit);
    lemma_run_end_bounds(s, p + 1, CharClass::NotQuote);
    lemma_block_close_bounds(s, p + 2);
}

pub proof fn lemma_run_end_bounds(s: Seq<char>, i: int, k: CharClass)
    requires
        0 <= i <= s.len(),
    ensures
        i <= run_end(s, i, k) <= s.len(),
        i < s.len() && in_class(k, s[i]) ==> run_end(s, i, k) > i,
        forall|j: int| i <= j < run_end(s, i, k) ==> in_class(k, #[trigger] s[j]),
        run_end(s, i, k) < s.len() ==> !in_class(k, s[run_end(s, i, k)]),
    decreases s.len() - i,
{
    if i < s.len() && in_class(k, s[i]) {
        lemma_run_end_bounds(s, i + 1, k);
    }
}

pub proof fn lemma_block_close_bounds(s: Seq<char>, i: int)
    requires
        0 <= i,
    ensures
        i <= block_close(s, i) || block_close(s, i) == s.len(),
        block_close(s, i) <= s.len(),
        block_close(s, i) < s.len() ==> block_close(s, i) + 1 < s.len() && s[block_close(s, i)]
            == '*' && s[block_close(s, i) + 1] == '/',
    decreases s.len() - i,
{
    if !(i + 1 >= s.len()) && !(s[i] == '*' && s[i + 1] == '/') {
        lemma_block_close_bounds(s, i + 1);
    }
}

/// The spans of `r` with `v` put in front; a failure stays as it is.
pub open spec fn prepend(v: Seq<Span>, r: Result<Seq<Span>, LexError>) -> Result<
    Seq<Span>,
    LexError,
> {
    match r {
        Ok(rest) => Ok(v + rest),
        Err(e) => Err(e),
    }
}

/// `toks` is what lexing all of `s` gives: the lexemes' spans in order, each
/// with the token that its text denotes.
pub open spec fn lexes_to(s: Seq<char>, toks: Seq<(Token, Span)>) -> bool {
    match lex_spans(s, 0) {
        Ok(spans) => toks.len() == spans.len() && forall|i: int|
            0 <= i < toks.len() ==> #[trigger] toks[i].1 == spans[i] && denotes(
                toks[i].0,
                s.subrange(spans[i].lo as int, spans[i].hi as int),
            ),
        Err(_) => false,
    }
}

/// Skipping trivia and taking one lexeme is the first step of lexing the rest.
pub proof fn lemma_scan_spans(s: Seq<char>, p: int)
    requires
        0 <= p <= s.len(),
        s.len() <= usize::MAX,
    ensures
        match scan_from(s, p) {
            Scan::End => lex_spans(s, p) == Ok::<Seq<Span>, LexError>(Seq::empty()),
            Scan::Fail(e) => lex_spans(s, p) == Err::<Seq<Span>, LexError>(e),
            Scan::Lexeme(sp) => p <= sp.lo < sp.hi <= s.len() && lex_spans(s, p) == prepend(
                seq![sp],
                lex_spans(s, sp.hi as int),
            ),
        },
    decreases s.len() - p,
{
    if p < s.len() {
        lemma_step_bounds(s, p);
        match step(s, p) {
            Step::Trivia(l) => {
                lemma_scan_spans(s, p + l);
            },
            Step::Lexeme(l) => {
                match lex_spans(s, p + l) {
                    Ok(rest) => {},
                    Err(e) => {},
                }
            },
            Step::Fail(e) => {},
        }
    }
}

/// The outcome of looking at one position, with the token built.
enum Lexed {
    Trivia(usize),
    Lexeme(Token, usize),
    Fail(LexError),
}

fn in_class_exec(k: CharClass, c: char) -> (b: bool)
    ensures
        b == in_class(k, c),
{
    match k {
        CharClass::Space => c == ' ' || c == '\t' || c == '\r' || c == '\n',
        CharClass::Word => ('a' <= c && c <= 'z') || ('A' <= c && c <= 'Z') || c == '_' || ('0'
            <= c && c <= '9'),
        CharClass::Digit => '0' <= c && c <= '9',
        CharClass::NotNewline => c != '\n',
        CharClass::NotQuote => c != '"',
    }
}

pub(crate) fn run_end_exec(s: &Vec<char>, i: usize, k: CharClass) -> (r: usize)
    requires
        i <= s@.len(),
    ensures
        r == run_end(s@, i as int, k),
{
    let mut j: usize = i;
    while j < s.len() && in_class_exec(k, s[j])
        invariant
            i <= j <= s@.len(),
            run_end(s@, i as int, k) == run_end(s@, j as int, k),
        decreases s@.len() - j,
    {
        j = j + 1;
    }
    j
}

pub(crate) fn block_close_exec(s: &Vec<char>, i: usize) -> (r: usize)
    requires
        i <= s@.len(),
    ensures
        r == block_close(s@, i as int),
{
    let mut j: usize = i;
    while j < s.len() && j + 1 < s.len() && !(s[j] == '*' && s[j + 1] == '/')
        invariant
            i <= j <= s@.len(),
            block_close(s@, i as int) == block_close(s@, j as int),
        decreases s@.len() - j,
    {
        j = j + 1;
    }
    if j < s.len() && j + 1 < s.len() {
        j
    } else {
        s.len()
    }
}

pub(crate) proof fn lemma_digits_prefix(t: Seq<char>, k: int)
    requires
        0 <= k <= t.len(),
    ensures
        digits_value(t.subrange(0, k)) <= digits_value(t),
    decreases t.len(),
{
    if k < t.len() {
        lemma_digits_prefix(t.drop_last(), k);
        assert(t.drop_last().subrange(0, k) =~= t.subrange(0, k));
    } else {
        assert(t.subrange(0, k) =~= t);
    }
}

/// The value of the digits `s[lo..hi]`, or `None` where it does not fit in `u64`.
pub(crate) fn number_at(s: &Vec<char>, lo: usize, hi: usize) -> (r: Option<u64>)
    requires
        lo <= hi <= s@.len(),
        forall|j: int| lo <= j < hi ==> is_digit(#[trigger] s@[j]),
    ensures
        match r {
            Some(v) => v == digits_value(s@.subrange(lo as int, hi as int)),
            None => digits_value(s@.subrange(lo as int, hi as int)) > u64::MAX,
        },
{
    let mut acc: u64 = 0;
    let mut i: usize = lo;
    assert(s@.subrange(lo as int, lo as int) =~= Seq::<char>::empty());
    while i < hi
        invariant
            lo <= i <= hi <= s@.len(),
            forall|j: int| lo <= j < hi ==> is_digit(#[trigger] s@[j]),
            acc == digits_value(s@.subrange(lo as int, i as int)),
        decreases hi - i,
    {
        let c = s[i];
        let d = (c as u32 - '0' as u32) as u64;
        assert(s@.subrange(lo as int, i + 1).drop_last() =~= s@.subrange(lo as int, i as int));
        let next = match acc.checked_mul(10) {
            Some(m) => m.checked_add(d),
            None => None,
        };
        match next {
            Some(v) => {
                acc = v;
            },
            None => {
                proof {
                    let t = s@.subrange(lo as int, hi as int);
                    lemma_digits_prefix(t, i + 1 - lo);
                    assert(t.subrange(0, i + 1 - lo) =~= s@.subrange(lo as int, i + 1));
                }
                return None;
            },
        }
        i = i + 1;
    }
    Some(acc)
}

/// The value of the digits `s[lo..hi]`, or `None` where it does not fit in `usize`.
fn digits_at(s: &Vec<char>, lo: usize, hi: usize) -> (r: Option<usize>)
    requires
        lo <= hi <= s@.len(),
        forall|j: int| lo <= j < hi ==> is_digit(#[trigger] s@[j]),
    ensures
        match r {
            Some(v) => v == digits_value(s@.subrange(lo as int, hi as int)),
            None => digits_value(s@.subrange(lo as int, hi as int)) > usize::MAX,
        },
{
    match number_at(s, lo, hi) {
        Some(v) => if v <= usize::MAX as u64 {
            Some(v as usize)
        } else {
            None
        },
        None => None,
    }
}

/// Relies on `String::from_iter`: the string holds the given characters in order.
#[verifier::external_body]
fn string_from_chars(v: Vec<char>) -> (r: String)
    ensures
        r@ == v@,
{
    String::from_iter(v)
}

/// The text `s[lo..hi]` as a string.
pub(crate) fn text_of(s: &Vec<char>, lo: usize, hi: usize) -> (r: String)
    requires
        lo <= hi <= s@.len(),
    ensures
        r@ == s@.subrange(lo as int, hi as int),
{
    let mut v: Vec<char> = Vec::new();
    let mut i: usize = lo;
    while i < hi
        invariant
            lo <= i <= hi <= s@.len(),
            v@ == s@.subrange(lo as int, i as int),
        decreases hi - i,
    {
        v.push(s[i]);
        i = i + 1;
        assert(v@ =~= s@.subrange(lo as int, i as int));
    }
    string_from_chars(v)
}

/// The operator that `c` starts, given the character `d` after it: a
/// two-character operator with its length 2 where there is one, else a
/// one-character one with length 1.
fn operator(c: char, d: char) -> (r: Option<(Token, usize)>)
    ensures
        match r {
            Some((t, l)) => if is_two_char_op(c, d) {
                l == 2 && denotes(t, seq![c, d])
            } else {
                l == 1 && is_one_char_op(c) && denotes(t, seq![c])
            },
            None => !is_two_char_op(c, d) && !is_one_char_op(c),
        },
{
    if c == '<' && d == '=' {
        return Some((Token::LessThanEqual, 2));
    }
    if c == '>' && d == '=' {
        return Some((Token::GreaterThanEqual, 2));
    }
    if c == '=' && d == '=' {
        return Some((Token::DoubleEqual, 2));
    }
    if c == '!' && d == '=' {
        return Some((Token::NotEqual, 2));
    }
    if c == '&' && d == '&' {
        return Some((Token::And, 2));
    }
    if c == '|' && d == '|' {
        return Some((Token::Or, 2));
    }
    if c == '|' && d == '>' {
        return Some((Token::Pipe, 2));
    }
    if c == '-' && d == '>' {
        return Some((Token::Arrow, 2));
    }
    if c == ':' && d == '=' {
        return Some((Token::Assign, 2));
    }
    let t = match c {
        '(' => Token::OParen,
        ')' => Token::CParen,
        '{' => Token::OBrace,
        '}' => Token::CBrace,
        '[' => Token::OBracket,
        ']' => Token::CBracket,
        ';' => Token::Semicolon,
        ':' => Token::Colon,
        ',' => Token::Comma,
        '.' => Token::Dot,
        '=' => Token::Equal,
        '+' => Token::Plus,
        '-' => Token::Minus,
        '*' => Token::Asterisk,
        '/' => Token::Slash,
        '%' => Token::Percent,
        '!' => Token::Bang,
        '<' => Token::LessThan,
        '>' => Token::GreaterThan,
        _ => {
            return None;
        },
    };
    Some((t, 1))
}

/// Whether `s[lo..hi]` is the word `w`.
pub(crate) fn word_is(s: &Vec<char>, lo: usize, hi: usize, w: &[char]) -> (b: bool)
    requires
        lo <= hi <= s@.len(),
    ensures
        b == (s@.subrange(lo as int, hi as int) == w@),
{
    if hi - lo != w.len() {
        return false;
    }
    let mut i: usize = 0;
    while i < w.len()
        invariant
            hi - lo == w@.len(),
            lo <= hi <= s@.len(),
            i <= w@.len(),
            forall|j: int| 0 <= j < i ==> s@[lo + j] == #[trigger] w@[j],
        decreases w@.len() - i,
    {
        if s[lo + i] != w[i] {
            assert(s@.subrange(lo as int, hi as int)[i as int] != w@[i as int]);
            return false;
        }
        i = i + 1;
    }
    assert(s@.subrange(lo as int, hi as int) =~= w@);
    true
}

/// The token of the word `s[lo..hi]`: a keyword where the whole word is one,
/// else an identifier.
fn word_token(s: &Vec<char>, lo: usize, hi: usize) -> (t: Token)
    requires
        lo < hi <= s@.len(),
        is_word_start(s@[lo as int]),
    ensures
        denotes(t, s@.subrange(lo as int, hi as int)),
{
    let kw_const = ['c', 'o', 'n', 's', 't'];
    let kw_let = ['l', 'e', 't'];
    let kw_mut = ['m', 'u', 't'];
    let kw_fn = ['f', 'n'];
    let kw_struct = ['s', 't', 'r', 'u', 'c', 't'];
    let kw_enum = ['e', 'n', 'u', 'm'];
    assert(kw_const@ =~= keyword_const());
    assert(kw_let@ =~= keyword_let());
    assert(kw_mut@ =~= keyword_mut());
    assert(kw_fn@ =~= keyword_fn());
    assert(kw_struct@ =~= keyword_struct());
    assert(kw_enum@ =~= keyword_enum());
    if word_is(s, lo, hi, &kw_const) {
        Token::Const
    } else if word_is(s, lo, hi, &kw_let) {
        Token::Let
    } else if word_is(s, lo, hi, &kw_mut) {
        Token::Mut
    } else if word_is(s, lo, hi, &kw_fn) {
        Token::Fn
    } else if word_is(s, lo, hi, &kw_struct) {
        Token::Struct
    } else if word_is(s, lo, hi, &kw_enum) {
        Token::Enum
    } else {
        Token::Ident(text_of(s, lo, hi))
    }
}

/// What starts at position `p` of `s`, with its token built.
fn lex_at(s: &Vec<char>, p: usize) -> (r: Lexed)
    requires
        p < s@.len(),
    ensures
        match (r, step(s@, p as int)) {
            (Lexed::Trivia(l), Step::Trivia(m)) => l == m,
            (Lexed::Lexeme(t, l), Step::Lexeme(m)) => l == m && p + l <= s@.len() && denotes(
                t,
                s@.subrange(p as int, p + l),
            ),
            (Lexed::Fail(e), Step::Fail(f)) => e == f,
            _ => false,
        },
{
    proof {
        lemma_step_bounds(s@, p as int);
        lemma_run_end_bounds(s@, p as int, CharClass::Space);
        lemma_run_end_bounds(s@, p as int, CharClass::NotNewline);
        lemma_run_end_bounds(s@, p as int, CharClass::Word);
        lemma_run_end_bounds(s@, p as int, CharClass::Digit);
        lemma_run_end_bounds(s@, p + 1, CharClass::NotQuote);
    }
    let c = s[p];
    let d = if s.len() - p > 1 {
        s[p + 1]
    } else {
        '\0'
    };
    if in_class_exec(CharClass::Space, c) {
        return Lexed::Trivia(run_end_exec(s, p, CharClass::Space) - p);
    }
    if c == '/' && d == '/' {
        return Lexed::Trivia(run_end_exec(s, p, CharClass::NotNewline) - p);
    }
    if c == '/' && d == '*' {
        let close = block_close_exec(s, p + 2);
        proof {
            lemma_block_close_bounds(s@, p + 2);
        }
        if close < s.len() {
            return Lexed::Trivia(close + 2 - p);
        }
    }
    if ('a' <= c && c <= 'z') || ('A' <= c && c <= 'Z') || c == '_' {
        let e = run_end_exec(s, p, CharClass::Word);
        return Lexed::Lexeme(word_token(s, p, e), e - p);
    }
    if in_class_exec(CharClass::Digit, c) {
        let e = run_end_exec(s, p, CharClass::Digit);
        proof {
            lemma_run_end_bounds(s@, p as int, CharClass::Digit);
        }
        return match digits_at(s, p, e) {
            Some(v) => Lexed::Lexeme(Token::Integer(v), e - p),
            None => Lexed::Fail(LexError::IntegerOutOfRange { lo: p, hi: e }),
        };
    }
    if c == '"' {
        let q = run_end_exec(s, p + 1, CharClass::NotQuote);
        if q < s.len() {
            let body = text_of(s, p + 1, q);
            assert(s@.subrange(p as int, q + 1).subrange(1, q + 1 - p - 1) =~= s@.subrange(
                p + 1,
                q as int,
            ));
            return Lexed::Lexeme(Token::String(body), q + 1 - p);
        } else {
            return Lexed::Fail(LexError::UnterminatedString { pos: p });
        }
    }
    match operator(c, d) {
        Some((t, l)) => {
            if l == 2 {
                assert(s@.subrange(p as int, p + 2) =~= seq![c, d]);
            } else {
                assert(s@.subrange(p as int, p + 1) =~= seq![c]);
            }
            Lexed::Lexeme(t, l)
        },
        None => Lexed::Fail(LexError::UnexpectedChar { pos: p, ch: c }),
    }
}

/// The characters of `s` in order.
pub(crate) fn chars_of(s: &str) -> (r: Vec<char>)
    ensures
        r@ == s@,
{
    broadcast use vstd::string::axiom_spec_iter, vstd::string::next_postcondition;

    let mut chars: Vec<char> = Vec::new();
    let mut it = s.chars();
    loop
        invariant
            chars@ + it.remaining() == s@,
            it.decrease() is Some,
        ensures
            chars@ == s@,
        decreases it.decrease()->0,
    {
        match it.next() {
            Some(c) => {
                chars.push(c);
            },
            None => {
                assert(chars@ =~= chars@ + it.remaining());
                break ;
            },
        }
    }
    chars
}

/// A cursor over source text that hands out one lexeme at a time.
pub struct Lexer {
    chars: Vec<char>,
    pos: usize,
}

impl Lexer {
    /// The text being scanned.
    pub closed spec fn source(&self) -> Seq<char> {
        self.chars@
    }

    /// Where the next scan starts.
    pub closed spec fn position(&self) -> int {
        self.pos as int
    }

    pub open spec fn wf(&self) -> bool {
        0 <= self.position() <= self.source().len()
    }

    /// A lexer at the start of `s`.
    pub fn new(s: &str) -> (r: Lexer)
        ensures
            r.wf(),
            r.source() == s@,
            r.position() == 0,
    {
        let chars = chars_of(s);
        Lexer { chars, pos: 0 }
    }

    /// Skips trivia and hands out the next lexeme with its span; `Ok(None)`
    /// at the end of the text. After a failure the scan is over: later calls
    /// give `Ok(None)`.
    pub fn next(&mut self) -> (r: Result<Option<(Token, Span)>, LexError>)
        requires
            old(self).wf(),
        ensures
            final(self).wf(),
            final(self).source() == old(self).source(),
            match scan_from(old(self).source(), old(self).position()) {
                Scan::End => r matches Ok(None) && final(self).position() == final(self).source().len(),
                Scan::Fail(e) => r == Err::<Option<(Token, Span)>, LexError>(e) && final(self).position()
                    == final(self).source().len(),
                Scan::Lexeme(sp) => match r {
                    Ok(Some((t, sp2))) => sp2 == sp && final(self).position() == sp.hi && denotes(
                        t,
                        old(self).source().subrange(sp.lo as int, sp.hi as int),
                    ),
                    _ => false,
                },
            },
    {
        let ghost start = self.pos as int;
        loop
            invariant
                self.wf(),
                self.chars@ == old(self).chars@,
                start == old(self).pos,
                scan_from(self.chars@, self.pos as int) == scan_from(self.chars@, start),
            decreases self.chars@.len() - self.pos,
        {
            if self.pos >= self.chars.len() {
                return Ok(None);
            }
            let p = self.pos;
            proof {
                lemma_step_bounds(self.chars@, p as int);
            }
            match lex_at(&self.chars, p) {
                Lexed::Trivia(l) => {
                    self.pos = p + l;
                },
                Lexed::Lexeme(t, l) => {
                    self.pos = p + l;
                    return Ok(Some((t, Span { lo: p, hi: p + l })));
                },
                Lexed::Fail(e) => {
                    self.pos = self.chars.len();
                    return Err(e);
                },
            }
        }
    }
}

/// Lexes all of `text`: the tokens in order with their spans, or the first
/// failure. The spans and the trivia between them rebuild the text.
pub fn tokenize(text: &str) -> (r: Result<Vec<(Token, Span)>, LexError>)
    ensures
        match (r, lex_spans(text@, 0)) {
            (Ok(v), Ok(_)) => lexes_to(text@, v@),
            (Err(e), Err(f)) => e == f,
            _ => false,
        },
        r matches Ok(v) ==> {
            &&& gaps_skipped(text@, 0, v@.map_values(|x: (Token, Span)| x.1))
            &&& pieces(text@, 0, v@.map_values(|x: (Token, Span)| x.1)) == text@
            &&& forall|i: int| 0 <= i < v@.len() - 1 ==> (#[trigger] v@[i]).1.hi <= v@[i + 1].1.lo
        },
{
    let mut lx = Lexer::new(text);
    let mut out: Vec<(Token, Span)> = Vec::new();
    let ghost s = text@;
    proof {
        assert(lx.chars.len() == lx.chars@.len());
    }
    loop
        invariant
            s == text@,
            lx.wf(),
            lx.source() == s,
            s.len() <= usize::MAX,
            0 <= lx.position() <= s.len(),
            lex_spans(s, 0) == prepend(out@.map_values(|x: (Token, Span)| x.1), lex_spans(s, lx.position())),
            forall|i: int|
                0 <= i < out@.len() ==> denotes(
                    #[trigger] out@[i].0,
                    s.subrange(out@[i].1.lo as int, out@[i].1.hi as int),
                ),
        decreases s.len() - lx.position(),
    {
        proof {
            lemma_scan_spans(s, lx.position());
        }
        let ghost before = out@;
        match lx.next() {
            Ok(Some(item)) => {
                out.push(item);
                proof {
                    assert(out@.map_values(|x: (Token, Span)| x.1) =~= before.map_values(
                        |x: (Token, Span)| x.1,
                    ) + seq![item.1]);
                    let rest = lex_spans(s, lx.position());
                    match rest {
                        Ok(r) => {
                            assert(before.map_values(|x: (Token, Span)| x.1) + (seq![item.1] + r)
                                =~= before.map_values(|x: (Token, Span)| x.1) + seq![item.1] + r);
                        },
                        Err(_) => {},
                    }
                }
            },
            Ok(None) => {
                proof {
                    let spans = out@.map_values(|x: (Token, Span)| x.1);
                    assert(spans + Seq::<Span>::empty() =~= spans);
                    assert(lex_spans(s, 0) == Ok::<Seq<Span>, LexError>(spans));
                    assert forall|i: int| 0 <= i < out@.len() implies #[trigger] out@[i].1
                        == spans[i] && denotes(
                        out@[i].0,
                        s.subrange(spans[i].lo as int, spans[i].hi as int),
                    ) by {}
                    lemma_tokens_rebuild_text(s, out@);
                    lemma_tokens_in_order(s, out@);
                }
                return Ok(out);
            },
            Err(e) => {
                assert(lex_spans(s, 0) == Err::<Seq<Span>, LexError>(e));
                return Err(e);
            },
        }
    }
}

/// The text from `a` up to `b` is trivia only: whitespace and comments.
pub open spec fn skips(s: Seq<char>, a: int, b: int) -> bool
    decreases b - a,
{
    a == b || (0 <= a < b <= s.len() && match step(s, a) {
        Step::Trivia(l) => l > 0 && a + l <= b && skips(s, a + l, b),
        _ => false,
    })
}

/// The text from `a` on, cut at the given spans: the gap before each span,
/// the span, and after the last span the rest of the text.
pub open spec fn pieces(s: Seq<char>, a: int, spans: Seq<Span>) -> Seq<char>
    decreases spans.len(),
{
    if spans.len() == 0 {
        s.subrange(a, s.len() as int)
    } else {
        s.subrange(a, spans[0].lo as int) + s.subrange(spans[0].lo as int, spans[0].hi as int)
            + pieces(s, spans[0].hi as int, spans.drop_first())
    }
}

/// Each gap between the spans from `a` on, and the gap after the last one, is trivia.
pub open spec fn gaps_skipped(s: Seq<char>, a: int, spans: Seq<Span>) -> bool
    decreases spans.len(),
{
    if spans.len() == 0 {
        skips(s, a, s.len() as int)
    } else {
        skips(s, a, spans[0].lo as int) && spans[0].lo < spans[0].hi && gaps_skipped(
            s,
            spans[0].hi as int,
            spans.drop_first(),
        )
    }
}

proof fn lemma_skips_order(s: Seq<char>, a: int, b: int)
    requires
        skips(s, a, b),
    ensures
        a <= b,
        a < b ==> b <= s.len(),
    decreases b - a,
{
    if a != b {
        if let Step::Trivia(l) = step(s, a) {
            lemma_skips_order(s, a + l, b);
        }
    }
}

proof fn lemma_spans_cover(s: Seq<char>, p: int)
    requires
        0 <= p <= s.len(),
        s.len() <= usize::MAX,
        lex_spans(s, p) is Ok,
    ensures
        gaps_skipped(s, p, lex_spans(s, p)->Ok_0),
        pieces(s, p, lex_spans(s, p)->Ok_0) == s.subrange(p, s.len() as int),
    decreases s.len() - p,
{
    if p < s.len() {
        lemma_step_bounds(s, p);
        let spans = lex_spans(s, p)->Ok_0;
        match step(s, p) {
            Step::Trivia(l) => {
                lemma_spans_cover(s, p + l);
                assert(s.subrange(p, s.len() as int) =~= s.subrange(p, p + l) + s.subrange(
                    p + l,
                    s.len() as int,
                ));
                if spans.len() > 0 {
                    let lo = spans[0].lo as int;
                    lemma_skips_order(s, p + l, lo);
                    assert(s.subrange(p, lo) =~= s.subrange(p, p + l) + s.subrange(p + l, lo));
                }
            },
            Step::Lexeme(l) => {
                lemma_spans_cover(s, p + l);
                let rest = lex_spans(s, p + l)->Ok_0;
                assert(spans.drop_first() =~= rest);
                assert(s.subrange(p, p) =~= Seq::<char>::empty());
                assert(s.subrange(p, s.len() as int) =~= s.subrange(p, p + l) + s.subrange(
                    p + l,
                    s.len() as int,
                ));
                assert(pieces(s, p, spans) =~= s.subrange(p, p) + s.subrange(p, p + l) + pieces(
                    s,
                    p + l,
                    rest,
                ));
            },
            Step::Fail(_) => {},
        }
    } else {
        assert(s.subrange(p, s.len() as int) =~= Seq::<char>::empty());
    }
}

/// The spans of the tokens that lex `s` account for all of it: the gaps
/// before, between and after them hold only whitespace and comments, and the
/// gaps and spans put back together in order give `s` again.
pub proof fn lemma_tokens_rebuild_text(s: Seq<char>, toks: Seq<(Token, Span)>)
    requires
        lexes_to(s, toks),
        s.len() <= usize::MAX,
    ensures
        gaps_skipped(s, 0, toks.map_values(|x: (Token, Span)| x.1)),
        pieces(s, 0, toks.map_values(|x: (Token, Span)| x.1)) == s,
{
    lemma_spans_cover(s, 0);
    assert(toks.map_values(|x: (Token, Span)| x.1) =~= lex_spans(s, 0)->Ok_0);
    assert(s.subrange(0, s.len() as int) =~= s);
}

/// Two tokens that are the same, comparing names and texts by their characters.
pub open spec fn same_token(a: Token, b: Token) -> bool {
    match (a, b) {
        (Token::Ident(x), Token::Ident(y)) => x@ == y@,
        (Token::String(x), Token::String(y)) => x@ == y@,
        (Token::Ident(_), _) | (Token::String(_), _) | (_, Token::Ident(_)) | (
            _,
            Token::String(_),
        ) => false,
        _ => a == b,
    }
}

/// A lexeme text has one meaning.
pub proof fn lemma_denotes_unique(a: Token, b: Token, t: Seq<char>)
    requires
        denotes(a, t),
        denotes(b, t),
    ensures
        same_token(a, b),
{
    assert(seq!['c', 'o', 'n', 's', 't'].len() == 5 && seq!['c', 'o', 'n', 's', 't'][0] == 'c' && seq!['c', 'o', 'n', 's', 't'][1] == 'o');
    assert(seq!['l', 'e', 't'].len() == 3 && seq!['l', 'e', 't'][0] == 'l' && seq!['l', 'e', 't'][1] == 'e');
    assert(seq!['m', 'u', 't'].len() == 3 && seq!['m', 'u', 't'][0] == 'm' && seq!['m', 'u', 't'][1] == 'u');
    assert(seq!['f', 'n'].len() == 2 && seq!['f', 'n'][0] == 'f' && seq!['f', 'n'][1] == 'n');
    assert(seq!['s', 't', 'r', 'u', 'c', 't'].len() == 6 && seq!['s', 't', 'r', 'u', 'c', 't'][0] == 's' && seq!['s', 't', 'r', 'u', 'c', 't'][1] == 't');
    assert(seq!['e', 'n', 'u', 'm'].len() == 4 && seq!['e', 'n', 'u', 'm'][0] == 'e' && seq!['e', 'n', 'u', 'm'][1] == 'n');
    assert(seq!['<', '='].len() == 2 && seq!['<', '='][0] == '<' && seq!['<', '='][1] == '=');
    assert(seq!['>', '='].len() == 2 && seq!['>', '='][0] == '>' && seq!['>', '='][1] == '=');
    assert(seq!['=', '='].len() == 2 && seq!['=', '='][0] == '=' && seq!['=', '='][1] == '=');
    assert(seq!['!', '='].len() == 2 && seq!['!', '='][0] == '!' && seq!['!', '='][1] == '=');
    assert(seq!['&', '&'].len() == 2 && seq!['&', '&'][0] == '&' && seq!['&', '&'][1] == '&');
    assert(seq!['|', '|'].len() == 2 && seq!['|', '|'][0] == '|' && seq!['|', '|'][1] == '|');
    assert(seq!['|', '>'].len() == 2 && seq!['|', '>'][0] == '|' && seq!['|', '>'][1] == '>');
    assert(seq!['-', '>'].len() == 2 && seq!['-', '>'][0] == '-' && seq!['-', '>'][1] == '>');
    assert(seq![':', '='].len() == 2 && seq![':', '='][0] == ':' && seq![':', '='][1] == '=');
    assert(seq!['('].len() == 1 && seq!['('][0] == '(');
    assert(seq![')'].len() == 1 && seq![')'][0] == ')');
    assert(seq!['{'].len() == 1 && seq!['{'][0] == '{');
    assert(seq!['}'].len() == 1 && seq!['}'][0] == '}');
    assert(seq!['['].len() == 1 && seq!['['][0] == '[');
    assert(seq![']'].len() == 1 && seq![']'][0] == ']');
    assert(seq![';'].len() == 1 && seq![';'][0] == ';');
    assert(seq![':'].len() == 1 && seq![':'][0] == ':');
    assert(seq![','].len() == 1 && seq![','][0] == ',');
    assert(seq!['.'].len() == 1 && seq!['.'][0] == '.');
    assert(seq!['='].len() == 1 && seq!['='][0] == '=');
    assert(seq!['+'].len() == 1 && seq!['+'][0] == '+');
    assert(seq!['-'].len() == 1 && seq!['-'][0] == '-');
    assert(seq!['*'].len() == 1 && seq!['*'][0] == '*');
    assert(seq!['/'].len() == 1 && seq!['/'][0] == '/');
    assert(seq!['%'].len() == 1 && seq!['%'][0] == '%');
    assert(seq!['!'].len() == 1 && seq!['!'][0] == '!');
    assert(seq!['<'].len() == 1 && seq!['<'][0] == '<');
    assert(seq!['>'].len() == 1 && seq!['>'][0] == '>');
    match a {
        Token::Const => {},
        Token::Let => {},
        Token::Mut => {},
        Token::Fn => {},
        Token::Struct => {},
        Token::Enum => {},
        Token::LessThanEqual => {},
        Token::GreaterThanEqual => {},
        Token::DoubleEqual => {},
        Token::NotEqual => {},
        Token::And => {},
        Token::Or => {},
        Token::Pipe => {},
        Token::Arrow => {},
        Token::Assign => {},
        Token::OParen => {},
        Token::CParen => {},
        Token::OBrace => {},
        Token::CBrace => {},
        Token::OBracket => {},
        Token::CBracket => {},
        Token::Semicolon => {},
        Token::Colon => {},
        Token::Comma => {},
        Token::Dot => {},
        Token::Equal => {},
        Token::Plus => {},
        Token::Minus => {},
        Token::Asterisk => {},
        Token::Slash => {},
        Token::Percent => {},
        Token::Bang => {},
        Token::LessThan => {},
        Token::GreaterThan => {},
        _ => {},
    }
}

/// Lexing is a function of the text: two token sequences that both lex `s`
/// have the same spans and the same tokens.
pub proof fn lemma_lexing_deterministic(s: Seq<char>, a: Seq<(Token, Span)>, b: Seq<(Token, Span)>)
    requires
        lexes_to(s, a),
        lexes_to(s, b),
    ensures
        a.len() == b.len(),
        forall|i: int| 0 <= i < a.len() ==> #[trigger] a[i].1 == b[i].1 && same_token(a[i].0, b[i].0),
{
    assert forall|i: int| 0 <= i < a.len() implies #[trigger] a[i].1 == b[i].1 && same_token(
        a[i].0,
        b[i].0,
    ) by {
        let spans = lex_spans(s, 0)->Ok_0;
        assert(a[i].1 == spans[i]);
        assert(b[i].1 == spans[i]);
        let sp = a[i].1;
        lemma_denotes_unique(a[i].0, b[i].0, s.subrange(sp.lo as int, sp.hi as int));
    }
}

/// Each span that lexing gives from `p` on is a lexeme that starts there.
proof fn lemma_spans_are_lexemes(s: Seq<char>, p: int)
    requires
        0 <= p <= s.len(),
        s.len() <= usize::MAX,
        lex_spans(s, p) is Ok,
    ensures
        forall|k: int|
            0 <= k < lex_spans(s, p)->Ok_0.len() ==> {
                let sp = #[trigger] lex_spans(s, p)->Ok_0[k];
                &&& p <= sp.lo < sp.hi <= s.len()
                &&& step(s, sp.lo as int) == Step::Lexeme((sp.hi - sp.lo) as nat)
            },
    decreases s.len() - p,
{
    if p < s.len() {
        lemma_step_bounds(s, p);
        match step(s, p) {
            Step::Trivia(l) => {
                lemma_spans_cover(s, p + l);
                lemma_spans_are_lexemes(s, p + l);
            },
            Step::Lexeme(l) => {
                lemma_spans_are_lexemes(s, p + l);
                let spans = lex_spans(s, p)->Ok_0;
                let rest = lex_spans(s, p + l)->Ok_0;
                assert forall|k: int| 0 < k < spans.len() implies spans[k] == rest[k - 1] by {}
            },
            Step::Fail(_) => {},
        }
    }
}

/// A word is lexed whole: the token's span runs to the end of the word, and
/// the token is the keyword that the word spells (`let` gives `Let`), or
/// else an identifier that holds the whole word (`letx` gives `Ident("letx")`).
pub proof fn lemma_words_lex_whole(s: Seq<char>, toks: Seq<(Token, Span)>, i: int)
    requires
        lexes_to(s, toks),
        s.len() <= usize::MAX,
        0 <= i < toks.len(),
        is_word_start(s[toks[i].1.lo as int]),
    ensures
        ({
            let (t, sp) = toks[i];
            let w = s.subrange(sp.lo as int, sp.hi as int);
            &&& sp.hi == s.len() || !is_word_char(s[sp.hi as int])
            &&& forall|j: int| sp.lo <= j < sp.hi ==> is_word_char(#[trigger] s[j])
            &&& w == keyword_let() ==> t == Token::Let
            &&& !is_keyword(w) ==> t is Ident && t->Ident_0@ == w
        }),
{
    let spans = lex_spans(s, 0)->Ok_0;
    lemma_spans_are_lexemes(s, 0);
    assert(toks[i].1 == spans[i]);
    let (t, sp) = toks[i];
    let w = s.subrange(sp.lo as int, sp.hi as int);
    lemma_run_end_bounds(s, sp.lo as int, CharClass::Word);
    assert(step(s, sp.lo as int) == Step::Lexeme((sp.hi - sp.lo) as nat));
    assert(w.len() > 0 && w[0] == s[sp.lo as int]);
    match t {
        Token::Const => {},
        Token::Let => {},
        Token::Mut => {},
        Token::Fn => {},
        Token::Struct => {},
        Token::Enum => {},
        Token::LessThanEqual => {},
        Token::GreaterThanEqual => {},
        Token::DoubleEqual => {},
        Token::NotEqual => {},
        Token::And => {},
        Token::Or => {},
        Token::Pipe => {},
        Token::Arrow => {},
        Token::Assign => {},
        Token::OParen => {},
        Token::CParen => {},
        Token::OBrace => {},
        Token::CBrace => {},
        Token::OBracket => {},
        Token::CBracket => {},
        Token::Semicolon => {},
        Token::Colon => {},
        Token::Comma => {},
        Token::Dot => {},
        Token::Equal => {},
        Token::Plus => {},
        Token::Minus => {},
        Token::Asterisk => {},
        Token::Slash => {},
        Token::Percent => {},
        Token::Bang => {},
        Token::LessThan => {},
        Token::GreaterThan => {},
        _ => {},
    }
}

proof fn lemma_spans_ordered(s: Seq<char>, p: int)
    requires
        0 <= p <= s.len(),
        s.len() <= usize::MAX,
        lex_spans(s, p) is Ok,
    ensures
        forall|k: int|
            0 <= k < lex_spans(s, p)->Ok_0.len() - 1 ==> (#[trigger] lex_spans(s, p)->Ok_0[k]).hi
                <= lex_spans(s, p)->Ok_0[k + 1].lo,
    decreases s.len() - p,
{
    if p < s.len() {
        lemma_step_bounds(s, p);
        match step(s, p) {
            Step::Trivia(l) => {
                lemma_spans_ordered(s, p + l);
            },
            Step::Lexeme(l) => {
                lemma_spans_ordered(s, p + l);
                lemma_spans_are_lexemes(s, p + l);
                let spans = lex_spans(s, p)->Ok_0;
                let rest = lex_spans(s, p + l)->Ok_0;
                assert forall|k: int| 0 <= k < spans.len() - 1 implies (#[trigger] spans[k]).hi
                    <= spans[k + 1].lo by {
                    if k > 0 {
                        assert(spans[k] == rest[k - 1]);
                        assert(spans[k + 1] == rest[k]);
                    } else {
                        assert(spans[1] == rest[0]);
                    }
                }
            },
            Step::Fail(_) => {},
        }
    }
}

/// Tokens come in strictly increasing source order: each span is not empty
/// and ends at or before the start of the next one.
pub proof fn lemma_tokens_in_order(s: Seq<char>, toks: Seq<(Token, Span)>)
    requires
        lexes_to(s, toks),
        s.len() <= usize::MAX,
    ensures
        forall|i: int| 0 <= i < toks.len() ==> (#[trigger] toks[i]).1.lo < toks[i].1.hi <= s.len(),
        forall|i: int| 0 <= i < toks.len() - 1 ==> (#[trigger] toks[i]).1.hi <= toks[i + 1].1.lo,
{
    let spans = lex_spans(s, 0)->Ok_0;
    lemma_spans_are_lexemes(s, 0);
    lemma_spans_ordered(s, 0);
    assert forall|i: int| 0 <= i < toks.len() implies (#[trigger] toks[i]).1.lo < toks[i].1.hi
        <= s.len() by {
        assert(toks[i].1 == spans[i]);
    }
    assert forall|i: int| 0 <= i < toks.len() - 1 implies (#[trigger] toks[i]).1.hi <= toks[i
        + 1].1.lo by {
        assert(toks[i].1 == spans[i]);
        assert(toks[i + 1].1 == spans[i + 1]);
    }
}

} // verus!
