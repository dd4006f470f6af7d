//! A character-class scanner for the declaration language: one token per
//! call, whitespace and both comment forms skipped, `EOF` at the end of the
//! text.
//!
//! Letters, whitespace and word characters are the Unicode classes of std's
//! `char` methods. A string or character literal gives the text between its
//! quotes.
use crate::lexer::{
    block_close, block_close_exec, chars_of, digits_value, lemma_block_close_bounds, number_at, is_digit, is_keyword, keyword_const, keyword_enum, keyword_fn,
    keyword_let, keyword_mut, keyword_struct, next_char, run_end, run_end_exec, text_of, word_is,
    CharClass,
};
use vstd::prelude::*;

verus! {

/// A token of the declaration language.
#[derive(Debug, PartialEq, Eq, Clone)]
pub enum Token {
    // Keywords
    Const,
    Let,
    Mut,
    Fn,
    Struct,
    Enum,
    // Punctuation and operators
    OParen,
    CParen,
    OBrace,
    CBrace,
    OBracket,
    CBracket,
    Semicolon,
    Colon,
    Comma,
    Dot,
    Arrow,
    Equal,
    Plus,
    Minus,
    Asterisk,
    Slash,
    Percent,
    Bang,
    LessThan,
    GreaterThan,
    LessThanEqual,
    GreaterThanEqual,
    DoubleEqual,
    NotEqual,
    And,
    Or,
    Pipe,
    Assign,
    // Literals
    Number(u64),
    Identifier(String),
    String(String),
    EOF,
}

impl Token {
    /// A copy of this token.
    pub fn duplicate(&self) -> (r: Token)
        ensures
            r == *self,
    {
        match self {
            Token::Number(v) => Token::Number(*v),
            Token::Identifier(n) => Token::Identifier(n.clone()),
            Token::String(x) => Token::String(x.clone()),
            Token::Const => Token::Const,
            Token::Let => Token::Let,
            Token::Mut => Token::Mut,
            Token::Fn => Token::Fn,
            Token::Struct => Token::Struct,
            Token::Enum => Token::Enum,
            Token::OParen => Token::OParen,
            Token::CParen => Token::CParen,
            Token::OBrace => Token::OBrace,
            Token::CBrace => Token::CBrace,
            Token::OBracket => Token::OBracket,
            Token::CBracket => Token::CBracket,
            Token::Semicolon => Token::Semicolon,
            Token::Colon => Token::Colon,
            Token::Comma => Token::Comma,
            Token::Dot => Token::Dot,
            Token::Arrow => Token::Arrow,
            Token::Equal => Token::Equal,
            Token::Plus => Token::Plus,
            Token::Minus => Token::Minus,
            Token::Asterisk => Token::Asterisk,
            Token::Slash => Token::Slash,
            Token::Percent => Token::Percent,
            Token::Bang => Token::Bang,
            Token::LessThan => Token::LessThan,
            Token::GreaterThan => Token::GreaterThan,
            Token::LessThanEqual => Token::LessThanEqual,
            Token::GreaterThanEqual => Token::GreaterThanEqual,
            Token::DoubleEqual => Token::DoubleEqual,
            Token::NotEqual => Token::NotEqual,
            Token::And => Token::And,
            Token::Or => Token::Or,
            Token::Pipe => Token::Pipe,
            Token::Assign => Token::Assign,
            Token::EOF => Token::EOF,
        }
    }
}

/// Why the scanner stopped.
#[derive(Debug, Clone, Copy, PartialEq, Eq, Structural)]
pub enum ScanError {
    /// A character that starts no token (a lone `&` or `|` among them).
    UnexpectedChar { pos: usize, ch: char },
    /// A `"` with no closing `"` after it.
    UnterminatedString { pos: usize },
    /// A `'` that is not followed by one character and a closing `'`.
    InvalidCharLiteral { pos: usize },
    /// A run of digits whose value does not fit in `u64`.
    NumberOutOfRange { lo: usize, hi: usize },
}

pub uninterp spec fn unicode_whitespace(c: char) -> bool;

pub uninterp spec fn unicode_alphabetic(c: char) -> bool;

pub uninterp spec fn unicode_alphanumeric(c: char) -> bool;

/// Relies on `char::is_whitespace`: whether `c` has the Unicode White_Space property.
#[verifier::external_body]
fn is_whitespace(c: char) -> (b: bool)
    ensures
        b == unicode_whitespace(c),
{
    c.is_whitespace()
}

/// Relies on `char::is_alphabetic`: whether `c` has the Unicode Alphabetic property.
#[verifier::external_body]
fn is_alphabetic(c: char) -> (b: bool)
    ensures
        b == unicode_alphabetic(c),
{
    c.is_alphabetic()
}

/// Relies on `char::is_alphanumeric`: whether `c` is alphabetic or numeric in Unicode.
#[verifier::external_body]
fn is_alphanumeric(c: char) -> (b: bool)
    ensures
        b == unicode_alphanumeric(c),
{
    c.is_alphanumeric()
}

pub open spec fn is_word_char(c: char) -> bool {
    unicode_alphanumeric(c) || c == '_'
}

/// The end of the run of word characters that starts at `i`.
pub open spec fn word_end(s: Seq<char>, i: int) -> int
    decreases s.len() - i,
{
    if 0 <= i < s.len() && is_word_char(s[i]) {
        word_end(s, i + 1)
    } else {
        i
    }
}

/// What the scanner does at one position.
pub enum Move {
    /// Skip whitespace or a comment of the given length.
    Skip(nat),
    /// Take a token of the given length.
    Take(nat),
    /// Stop with an error.
    Fail(ScanError),
}

pub open spec fn is_pair_op(c: char, d: char) -> bool {
    (c == '-' && d == '>') || (c == '=' && d == '=') || (c == '!' && d == '=') || (c == '<' && d
        == '=') || (c == '>' && d == '=') || (c == '&' && d == '&') || (c == '|' && d == '|') || (c
        == '|' && d == '>') || (c == ':' && d == '=')
}

pub open spec fn is_single_op(c: char) -> bool {
    c == '(' || c == ')' || c == '{' || c == '}' || c == '[' || c == ']' || c == ';' || c == ':'
        || c == ',' || c == '.' || c == '-' || c == '=' || c == '+' || c == '*' || c == '/' || c
        == '%' || c == '!' || c == '<' || c == '>'
}

/// What the scanner does at position `p` (with `0 <= p < s.len()`).
pub open spec fn scan_move(s: Seq<char>, p: int) -> Move {
    scan_move_given(s, p, unicode_whitespace(s[p]), starts_word(s[p]), word_end(s, p + 1))
}

/// What the scanner does at position `p`, given whether the character there
/// is whitespace, whether it starts a word, and where that word would end.
pub open spec fn scan_move_given(s: Seq<char>, p: int, white: bool, word: bool, end: int) -> Move {
    let c = s[p];
    let d = next_char(s, p);
    if white {
        Move::Skip(1)
    } else if word {
        Move::Take((end - p) as nat)
    } else if is_digit(c) {
        let e = run_end(s, p, CharClass::Digit);
        if digits_value(s.subrange(p, e)) <= u64::MAX {
            Move::Take((e - p) as nat)
        } else {
            Move::Fail(ScanError::NumberOutOfRange { lo: p as usize, hi: e as usize })
        }
    } else if c == '"' {
        let q = run_end(s, p + 1, CharClass::NotQuote);
        if q < s.len() {
            Move::Take((q + 1 - p) as nat)
        } else {
            Move::Fail(ScanError::UnterminatedString { pos: p as usize })
        }
    } else if c == '\'' {
        if p + 2 < s.len() && s[p + 2] == '\'' {
            Move::Take(3)
        } else {
            Move::Fail(ScanError::InvalidCharLiteral { pos: p as usize })
        }
    } else if c == '/' && d == '/' {
        Move::Skip((run_end(s, p, CharClass::NotNewline) - p) as nat)
    } else if c == '/' && d == '*' && block_close(s, p + 2) < s.len() {
        Move::Skip((block_close(s, p + 2) + 2 - p) as nat)
    } else if is_pair_op(c, d) {
        Move::Take(2)
    } else if is_single_op(c) {
        Move::Take(1)
    } else {
        Move::Fail(ScanError::UnexpectedChar { pos: p as usize, ch: c })
    }
}

pub open spec fn starts_word(c: char) -> bool {
    unicode_alphabetic(c) || c == '_'
}

/// Token `tok` is the meaning of the text `t` that the scanner took: a text
/// that starts a word is a keyword or an identifier, any other text a
/// number, a string or an operator.
pub open spec fn scanned(tok: Token, t: Seq<char>) -> bool {
    scanned_given(tok, t, starts_word(t[0]))
}

/// `scanned`, given whether the text starts a word.
pub open spec fn scanned_given(tok: Token, t: Seq<char>, word: bool) -> bool {
    t.len() > 0 && if word {
        scanned_word(tok, t)
    } else {
        scanned_symbol(tok, t)
    }
}

pub open spec fn scanned_word(tok: Token, t: Seq<char>) -> bool {
    match tok {
        Token::Const => t == keyword_const(),
        Token::Let => t == keyword_let(),
        Token::Mut => t == keyword_mut(),
        Token::Fn => t == keyword_fn(),
        Token::Struct => t == keyword_struct(),
        Token::Enum => t == keyword_enum(),
        Token::Identifier(n) => {
            &&& n@ == t
            &&& forall|j: int| 1 <= j < t.len() ==> is_word_char(#[trigger] t[j])
            &&& !is_keyword(t)
        },
        _ => false,
    }
}

pub open spec fn scanned_symbol(tok: Token, t: Seq<char>) -> bool {
    match tok {
        Token::OParen => t == seq!['('],
        Token::CParen => t == seq![')'],
        Token::OBrace => t == seq!['{'],
        Token::CBrace => t == seq!['}'],
        Token::OBracket => t == seq!['['],
        Token::CBracket => t == seq![']'],
        Token::Semicolon => t == seq![';'],
        Token::Colon => t == seq![':'],
        Token::Comma => t == seq![','],
        Token::Dot => t == seq!['.'],
        Token::Arrow => t == seq!['-', '>'],
        Token::Equal => t == seq!['='],
        Token::Plus => t == seq!['+'],
        Token::Minus => t == seq!['-'],
        Token::Asterisk => t == seq!['*'],
        Token::Slash => t == seq!['/'],
        Token::Percent => t == seq!['%'],
        Token::Bang => t == seq!['!'],
        Token::LessThan => t == seq!['<'],
        Token::GreaterThan => t == seq!['>'],
        Token::LessThanEqual => t == seq!['<', '='],
        Token::GreaterThanEqual => t == seq!['>', '='],
        Token::DoubleEqual => t == seq!['=', '='],
        Token::NotEqual => t == seq!['!', '='],
        Token::And => t == seq!['&', '&'],
        Token::Or => t == seq!['|', '|'],
        Token::Pipe => t == seq!['|', '>'],
        Token::Assign => t == seq![':', '='],
        Token::Number(v) => is_digit(t[0]) && v == digits_value(t),
        Token::String(x) => {
            &&& t.len() >= 2
            &&& (t[0] == '"' && t.last() == '"') || (t[0] == '\'' && t.last() == '\'')
            &&& x@ == t.subrange(1, t.len() - 1)
        },
        _ => false,
    }
}

/// Where the next token lies from position `p` on, after skipping.
pub enum Found {
    Token(int, int),
    End,
    Fail(ScanError),
}

pub open spec fn found_from(s: Seq<char>, p: int) -> Found
    decreases s.len() - p,
{
    if p < 0 || p >= s.len() {
        Found::End
    } else {
        match scan_move(s, p) {
            Move::Skip(l) => if l > 0 && p + l <= s.len() {
                found_from(s, p + l)
            } else {
                Found::End
            },
            Move::Take(l) => Found::Token(p, p + l),
            Move::Fail(e) => Found::Fail(e),
        }
    }
}

/// The token found from `p` lies at or after `p`, within the text, and is not empty.
pub proof fn lemma_found_bounds(s: Seq<char>, p: int)
    requires
        0 <= p <= s.len(),
    ensures
        found_from(s, p) matches Found::Token(lo, hi) ==> p <= lo < hi <= s.len(),
    decreases s.len() - p,
{
    if p < s.len() {
        lemma_word_end_bounds(s, p + 1);
        crate::lexer::lemma_run_end_bounds(s, p, CharClass::NotNewline);
        crate::lexer::lemma_run_end_bounds(s, p, CharClass::Digit);
        crate::lexer::lemma_run_end_bounds(s, p + 1, CharClass::NotQuote);
        if let Move::Skip(l) = scan_move(s, p) {
            if l > 0 && p + l <= s.len() {
                lemma_found_bounds(s, p + l);
            }
        }
    }
}

/// Two tokens that are the same, comparing names and texts by their characters.
pub open spec fn same_scanned(a: Token, b: Token) -> bool {
    match (a, b) {
        (Token::Identifier(x), Token::Identifier(y)) => x@ == y@,
        (Token::String(x), Token::String(y)) => x@ == y@,
        (Token::Identifier(_), _) | (Token::String(_), _) | (_, Token::Identifier(_)) | (
            _,
            Token::String(_),
        ) => false,
        _ => a == b,
    }
}

/// A token found from `p` is one that the scanner takes where it starts.
pub proof fn lemma_found_is_taken(s: Seq<char>, p: int)
    requires
        0 <= p <= s.len(),
    ensures
        found_from(s, p) matches Found::Token(lo, hi) ==> 0 <= lo < s.len() && scan_move(s, lo)
            == Move::Take((hi - lo) as nat),
    decreases s.len() - p,
{
    if p < s.len() {
        if let Move::Skip(l) = scan_move(s, p) {
            if l > 0 && p + l <= s.len() {
                lemma_found_is_taken(s, p + l);
            }
        }
    }
}

/// The text that the scanner takes at `lo` has one meaning.
pub proof fn lemma_scanned_unique(s: Seq<char>, lo: int, hi: int, a: Token, b: Token)
    requires
        0 <= lo < hi <= s.len(),
        scan_move(s, lo) == Move::Take((hi - lo) as nat),
        scanned(a, s.subrange(lo, hi)),
        scanned(b, s.subrange(lo, hi)),
    ensures
        same_scanned(a, b),
{
    let t = s.subrange(lo, hi);
    assert(t[0] == s[lo]);
    assert(seq!['c', 'o', 'n', 's', 't'].len() == 5 && seq!['c', 'o', 'n', 's', 't'][0] == 'c' && seq!['c', 'o', 'n', 's', 't'][1] == 'o');
    assert(seq!['l', 'e', 't'].len() == 3 && seq!['l', 'e', 't'][0] == 'l' && seq!['l', 'e', 't'][1] == 'e');
    assert(seq!['m', 'u', 't'].len() == 3 && seq!['m', 'u', 't'][0] == 'm' && seq!['m', 'u', 't'][1] == 'u');
    assert(seq!['f', 'n'].len() == 2 && seq!['f', 'n'][0] == 'f' && seq!['f', 'n'][1] == 'n');
    assert(seq!['s', 't', 'r', 'u', 'c', 't'].len() == 6 && seq!['s', 't', 'r', 'u', 'c', 't'][0] == 's' && seq!['s', 't', 'r', 'u', 'c', 't'][1] == 't');
    assert(seq!['e', 'n', 'u', 'm'].len() == 4 && seq!['e', 'n', 'u', 'm'][0] == 'e' && seq!['e', 'n', 'u', 'm'][1] == 'n');
    assert(seq!['<', '='].len() == 2 && seq!['<', '='][0] == '<' && seq!['<', '='][1] == '=');
    assert(seq!['>', '='].len() == 2 && seq!['>', '='][0] == '>' && seq!['>', '='][1] == '=');
    assert(seq!['=', '='].len() == 2 && seq!['=', '='][0] == '=' && seq!['=', '='][1] == '=');
    assert(seq!['!', '='].len() == 2 && seq!['!', '='][0] == '!' && seq!['!', '='][1] == '=');
    assert(seq!['&', '&'].len() == 2 && seq!['&', '&'][0] == '&' && seq!['&', '&'][1] == '&');
    assert(seq!['|', '|'].len() == 2 && seq!['|', '|'][0] == '|' && seq!['|', '|'][1] == '|');
    assert(seq!['|', '>'].len() == 2 && seq!['|', '>'][0] == '|' && seq!['|', '>'][1] == '>');
    assert(seq!['-', '>'].len() == 2 && seq!['-', '>'][0] == '-' && seq!['-', '>'][1] == '>');
    assert(seq![':', '='].len() == 2 && seq![':', '='][0] == ':' && seq![':', '='][1] == '=');
    assert(seq!['('].len() == 1 && seq!['('][0] == '(');
    assert(seq![')'].len() == 1 && seq![')'][0] == ')');
    assert(seq!['{'].len() == 1 && seq!['{'][0] == '{');
    assert(seq!['}'].len() == 1 && seq!['}'][0] == '}');
    assert(seq!['['].len() == 1 && seq!['['][0] == '[');
    assert(seq![']'].len() == 1 && seq![']'][0] == ']');
    assert(seq![';'].len() == 1 && seq![';'][0] == ';');
    assert(seq![':'].len() == 1 && seq![':'][0] == ':');
    assert(seq![','].len() == 1 && seq![','][0] == ',');
    assert(seq!['.'].len() == 1 && seq!['.'][0] == '.');
    assert(seq!['='].len() == 1 && seq!['='][0] == '=');
    assert(seq!['+'].len() == 1 && seq!['+'][0] == '+');
    assert(seq!['-'].len() == 1 && seq!['-'][0] == '-');
    assert(seq!['*'].len() == 1 && seq!['*'][0] == '*');
    assert(seq!['/'].len() == 1 && seq!['/'][0] == '/');
    assert(seq!['%'].len() == 1 && seq!['%'][0] == '%');
    assert(seq!['!'].len() == 1 && seq!['!'][0] == '!');
    assert(seq!['<'].len() == 1 && seq!['<'][0] == '<');
    assert(seq!['>'].len() == 1 && seq!['>'][0] == '>');
    match a {
        Token::Const => {},
        Token::Let => {},
        Token::Mut => {},
        Token::Fn => {},
        Token::Struct => {},
        Token::Enum => {},
        Token::OParen => {},
        Token::CParen => {},
        Token::OBrace => {},
        Token::CBrace => {},
        Token::OBracket => {},
        Token::CBracket => {},
        Token::Semicolon => {},
        Token::Colon => {},
        Token::Comma => {},
        Token::Dot => {},
        Token::Arrow => {},
        Token::Equal => {},
        Token::Plus => {},
        Token::Minus => {},
        Token::Asterisk => {},
        Token::Slash => {},
        Token::Percent => {},
        Token::Bang => {},
        Token::LessThan => {},
        Token::GreaterThan => {},
        Token::LessThanEqual => {},
        Token::GreaterThanEqual => {},
        Token::DoubleEqual => {},
        Token::NotEqual => {},
        Token::And => {},
        Token::Or => {},
        Token::Pipe => {},
        Token::Assign => {},
        _ => {},
    }
}

proof fn lemma_word_end_bounds(s: Seq<char>, i: int)
    requires
        0 <= i <= s.len(),
    ensures
        i <= word_end(s, i) <= s.len(),
        i < s.len() && is_word_char(s[i]) ==> word_end(s, i) > i,
        forall|j: int| i <= j < word_end(s, i) ==> is_word_char(#[trigger] s[j]),
    decreases s.len() - i,
{
    if i < s.len() && is_word_char(s[i]) {
        lemma_word_end_bounds(s, i + 1);
    }
}

fn word_end_exec(s: &Vec<char>, i: usize) -> (r: usize)
    requires
        i <= s@.len(),
    ensures
        r == word_end(s@, i as int),
{
    let mut j: usize = i;
    while j < s.len() && (is_alphanumeric(s[j]) || s[j] == '_')
        invariant
            i <= j <= s@.len(),
            word_end(s@, i as int) == word_end(s@, j as int),
        decreases s@.len() - j,
    {
        j = j + 1;
    }
    j
}

/// The keyword or identifier of the word `s[lo..hi]`.
fn word_token(s: &Vec<char>, lo: usize, hi: usize) -> (t: Token)
    requires
        lo < hi <= s@.len(),
        forall|j: int| lo < j < hi ==> is_word_char(#[trigger] s@[j]),
    ensures
        scanned_given(t, s@.subrange(lo as int, hi as int), true),
{
    let kw_const = ['c', 'o', 'n', 's', 't'];
    let kw_let = ['l', 'e', 't'];
    let kw_mut = ['m', 'u', 't'];
    let kw_fn = ['f', 'n'];
    let kw_struct = ['s', 't', 'r', 'u', 'c', 't'];
    let kw_enum = ['e', 'n', 'u', 'm'];
    assert(kw_const@ =~= keyword_const());
    assert(kw_let@ =~= keyword_let());
    assert(kw_mut@ =~= keyword_mut());
    assert(kw_fn@ =~= keyword_fn());
    assert(kw_struct@ =~= keyword_struct());
    assert(kw_enum@ =~= keyword_enum());
    if word_is(s, lo, hi, &kw_const) {
        Token::Const
    } else if word_is(s, lo, hi, &kw_let) {
        Token::Let
    } else if word_is(s, lo, hi, &kw_mut) {
        Token::Mut
    } else if word_is(s, lo, hi, &kw_fn) {
        Token::Fn
    } else if word_is(s, lo, hi, &kw_struct) {
        Token::Struct
    } else if word_is(s, lo, hi, &kw_enum) {
        Token::Enum
    } else {
        let w = text_of(s, lo, hi);
        assert forall|j: int| 1 <= j < w@.len() implies is_word_char(#[trigger] w@[j]) by {
            assert(w@[j] == s@[lo + j]);
        }
        Token::Identifier(w)
    }
}

/// The operator that `c` starts, given the character `d` after it.
fn operator(c: char, d: char) -> (r: Option<(Token, usize)>)
    ensures
        match r {
            Some((t, l)) => if is_pair_op(c, d) {
                l == 2 && scanned_given(t, seq![c, d], false)
            } else {
                l == 1 && is_single_op(c) && scanned_given(t, seq![c], false)
            },
            None => !is_pair_op(c, d) && !is_single_op(c),
        },
{
    if c == '-' && d == '>' {
        return Some((Token::Arrow, 2));
    }
    if c == '=' && d == '=' {
        return Some((Token::DoubleEqual, 2));
    }
    if c == '!' && d == '=' {
        return Some((Token::NotEqual, 2));
    }
    if c == '<' && d == '=' {
        return Some((Token::LessThanEqual, 2));
    }
    if c == '>' && d == '=' {
        return Some((Token::GreaterThanEqual, 2));
    }
    if c == '&' && d == '&' {
        return Some((Token::And, 2));
    }
    if c == '|' && d == '|' {
        return Some((Token::Or, 2));
    }
    if c == '|' && d == '>' {
        return Some((Token::Pipe, 2));
    }
    if c == ':' && d == '=' {
        return Some((Token::Assign, 2));
    }
    let t = match c {
        '(' => Token::OParen,
        ')' => Token::CParen,
        '{' => Token::OBrace,
        '}' => Token::CBrace,
        '[' => Token::OBracket,
        ']' => Token::CBracket,
        ';' => Token::Semicolon,
        ':' => Token::Colon,
        ',' => Token::Comma,
        '.' => Token::Dot,
        '-' => Token::Minus,
        '=' => Token::Equal,
        '+' => Token::Plus,
        '*' => Token::Asterisk,
        '/' => Token::Slash,
        '%' => Token::Percent,
        '!' => Token::Bang,
        '<' => Token::LessThan,
        '>' => Token::GreaterThan,
        _ => {
            return None;
        },
    };
    Some((t, 1))
}

/// The outcome at one position, with the token built.
#[derive(Debug, PartialEq, Eq)]
pub enum Moved {
    Skip(usize),
    Take(Token, usize),
    Fail(ScanError),
}

/// What the scanner does at position `p` of `s`, given whether the
/// character there is whitespace (`white`), whether it starts a word
/// (`word`), and where the word that it starts ends (`end`).
pub fn move_given(s: &Vec<char>, p: usize, white: bool, word: bool, end: usize) -> (r: Moved)
    requires
        p < s@.len(),
        !white && word ==> p < end <= s@.len() && forall|j: int|
            p < j < end ==> is_word_char(#[trigger] s@[j]),
    ensures
        match (r, scan_move_given(s@, p as int, white, word, end as int)) {
            (Moved::Skip(l), Move::Skip(m)) => l == m && 0 < l && p + l <= s@.len(),
            (Moved::Take(t, l), Move::Take(m)) => l == m && 0 < l && p + l <= s@.len()
                && scanned_given(t, s@.subrange(p as int, p + l), word),
            (Moved::Fail(e), Move::Fail(f)) => e == f,
            _ => false,
        },
{
    proof {
        crate::lexer::lemma_run_end_bounds(s@, p as int, CharClass::NotNewline);
        crate::lexer::lemma_run_end_bounds(s@, p as int, CharClass::Digit);
        crate::lexer::lemma_run_end_bounds(s@, p + 1, CharClass::NotQuote);
    }
    let c = s[p];
    let d = if s.len() - p > 1 {
        s[p + 1]
    } else {
        '\0'
    };
    if white {
        return Moved::Skip(1);
    }
    if word {
        return Moved::Take(word_token(s, p, end), end - p);
    }
    if '0' <= c && c <= '9' {
        let e = run_end_exec(s, p, CharClass::Digit);
        return match number_at(s, p, e) {
            Some(v) => Moved::Take(Token::Number(v), e - p),
            None => Moved::Fail(ScanError::NumberOutOfRange { lo: p, hi: e }),
        };
    }
    if c == '"' {
        let q = run_end_exec(s, p + 1, CharClass::NotQuote);
        if q < s.len() {
            let body = text_of(s, p + 1, q);
            assert(s@.subrange(p as int, q + 1).subrange(1, q + 1 - p - 1) =~= s@.subrange(
                p + 1,
                q as int,
            ));
            return Moved::Take(Token::String(body), q + 1 - p);
        } else {
            return Moved::Fail(ScanError::UnterminatedString { pos: p });
        }
    }
    if c == '\'' {
        if s.len() - p > 2 && s[p + 2] == '\'' {
            let body = text_of(s, p + 1, p + 2);
            assert(s@.subrange(p as int, p + 3).subrange(1, 2) =~= s@.subrange(p + 1, p + 2));
            return Moved::Take(Token::String(body), 3);
        } else {
            return Moved::Fail(ScanError::InvalidCharLiteral { pos: p });
        }
    }
    if c == '/' && d == '/' {
        return Moved::Skip(run_end_exec(s, p, CharClass::NotNewline) - p);
    }
    if c == '/' && d == '*' {
        let close = block_close_exec(s, p + 2);
        proof {
            lemma_block_close_bounds(s@, p + 2);
        }
        if close < s.len() {
            return Moved::Skip(close + 2 - p);
        }
    }
    match operator(c, d) {
        Some((t, l)) => {
            if l == 2 {
                assert(s@.subrange(p as int, p + 2) =~= seq![c, d]);
            } else {
                assert(s@.subrange(p as int, p + 1) =~= seq![c]);
            }
            Moved::Take(t, l)
        },
        None => Moved::Fail(ScanError::UnexpectedChar { pos: p, ch: c }),
    }
}

/// What the scanner does at position `p` of `s`.
fn move_at(s: &Vec<char>, p: usize) -> (r: Moved)
    requires
        p < s@.len(),
    ensures
        match (r, scan_move(s@, p as int)) {
            (Moved::Skip(l), Move::Skip(m)) => l == m && 0 < l && p + l <= s@.len(),
            (Moved::Take(t, l), Move::Take(m)) => l == m && 0 < l && p + l <= s@.len() && scanned(
                t,
                s@.subrange(p as int, p + l),
            ),
            (Moved::Fail(e), Move::Fail(f)) => e == f,
            _ => false,
        },
{
    proof {
        lemma_word_end_bounds(s@, p + 1);
        assert(s@.len() == s.len());
    }
    let c = s[p];
    let white = is_whitespace(c);
    let word = is_alphabetic(c) || c == '_';
    let end = word_end_exec(s, p + 1);
    let r = move_given(s, p, white, word, end);
    proof {
        if let Moved::Take(_, l) = r {
            assert(s@.subrange(p as int, p + l)[0] == c);
        }
    }
    r
}

/// A scanner over the text of one named file.
pub struct Lexer {
    file_name: String,
    chars: Vec<char>,
    pos: usize,
}

impl Lexer {
    /// The text being scanned.
    pub closed spec fn source(&self) -> Seq<char> {
        self.chars@
    }

    /// Where the next scan starts.
    pub closed spec fn position(&self) -> int {
        self.pos as int
    }

    pub open spec fn wf(&self) -> bool {
        0 <= self.position() <= self.source().len()
    }

    pub closed spec fn name(&self) -> Seq<char> {
        self.file_name@
    }

    /// A scanner at the start of `content`, which was read from `file_name`.
    pub fn new(file_name: &str, content: &str) -> (r: Lexer)
        ensures
            r.wf(),
            r.source() == content@,
            r.position() == 0,
            r.name() == file_name@,
    {
        Lexer { file_name: file_name.to_string(), chars: chars_of(content), pos: 0 }
    }

    /// The name of the file being scanned.
    pub fn file_name(&self) -> (r: &str)
        ensures
            r@ == self.name(),
    {
        self.file_name.as_str()
    }

    /// Skips whitespace and comments and takes the next token: `EOF` at the
    /// end of the text. After an error the scan is over: later calls give `EOF`.
    pub fn next_token(&mut self) -> (r: Result<Token, ScanError>)
        requires
            old(self).wf(),
        ensures
            final(self).wf(),
            final(self).source() == old(self).source(),
            final(self).name() == old(self).name(),
            match found_from(old(self).source(), old(self).position()) {
                Found::End => r matches Ok(Token::EOF) && final(self).position()
                    == final(self).source().len(),
                Found::Fail(e) => r == Err::<Token, ScanError>(e) && final(self).position()
                    == final(self).source().len(),
                Found::Token(lo, hi) => match r {
                    Ok(t) => final(self).position() == hi && scanned(
                        t,
                        old(self).source().subrange(lo, hi),
                    ),
                    Err(_) => false,
                },
            },
    {
        let ghost start = self.pos as int;
        loop
            invariant
                self.wf(),
                start == old(self).pos,
                self.chars@ == old(self).chars@,
                self.file_name == old(self).file_name,
                found_from(self.chars@, self.pos as int) == found_from(self.chars@, start),
            decreases self.chars@.len() - self.pos,
        {
            if self.pos >= self.chars.len() {
                return Ok(Token::EOF);
            }
            let p = self.pos;
            match move_at(&self.chars, p) {
                Moved::Skip(l) => {
                    self.pos = p + l;
                },
                Moved::Take(t, l) => {
                    self.pos = p + l;
                    return Ok(t);
                },
                Moved::Fail(e) => {
                    self.pos = self.chars.len();
                    return Err(e);
                },
            }
        }
    }

    /// The next token, or `None` where scanning failed.
    pub fn next(&mut self) -> (r: Option<Token>)
        requires
            old(self).wf(),
        ensures
            final(self).wf(),
            final(self).source() == old(self).source(),
            final(self).name() == old(self).name(),
            match found_from(old(self).source(), old(self).position()) {
                Found::End => r matches Some(Token::EOF),
                Found::Fail(_) => r is None,
                Found::Token(lo, hi) => match r {
                    Some(t) => final(self).position() == hi && scanned(
                        t,
                        old(self).source().subrange(lo, hi),
                    ),
                    None => false,
                },
            },
    {
        match self.next_token() {
            Ok(t) => Some(t),
            Err(_) => None,
        }
    }
}

} // verus!
