//! The lexer: turns source text into tokens, one at a time.
use vstd::prelude::*;
use crate::errors::{InvalidTokenError, InvalidTokenErrorModel};
use crate::input_stream::{InputStream, count_newlines, column_at, line_text};
use crate::number::{Number, is_digit, is_numeral, nat_text, push_nat_text};
use crate::text::{chars_of, chars_eq, append_chars, copy_chars};

verus! {

/// The kind of a token, with what it carries, as plain values.
pub enum TokenKind {
    LeftParen,
    RightParen,
    LeftBrace,
    RightBrace,
    Comma,
    Dot,
    Minus,
    Plus,
    Semicolon,
    Slash,
    Star,
    Bang,
    BangEqual,
    Equal,
    EqualEqual,
    Greater,
    GreaterEqual,
    Less,
    LessEqual,
    Identifier(Seq<char>),
    Str(Seq<char>),
    Number(Number),
    Keyword(Seq<char>),
    Eof,
}

#[derive(Clone, Debug, PartialEq)]
pub enum TokenType {
    LeftParen,
    RightParen,
    LeftBrace,
    RightBrace,
    Comma,
    Dot,
    Minus,
    Plus,
    Semicolon,
    Slash,
    Star,
    Bang,
    BangEqual,
    Equal,
    EqualEqual,
    Greater,
    GreaterEqual,
    Less,
    LessEqual,
    Identifier(Vec<char>),
    String(Vec<char>),
    Number(Number),
    Keyword(Vec<char>),
    EOF,
}

impl View for TokenType {
    type V = TokenKind;

    open spec fn view(&self) -> TokenKind {
        match self {
            TokenType::LeftParen => TokenKind::LeftParen,
            TokenType::RightParen => TokenKind::RightParen,
            TokenType::LeftBrace => TokenKind::LeftBrace,
            TokenType::RightBrace => TokenKind::RightBrace,
            TokenType::Comma => TokenKind::Comma,
            TokenType::Dot => TokenKind::Dot,
            TokenType::Minus => TokenKind::Minus,
            TokenType::Plus => TokenKind::Plus,
            TokenType::Semicolon => TokenKind::Semicolon,
            TokenType::Slash => TokenKind::Slash,
            TokenType::Star => TokenKind::Star,
            TokenType::Bang => TokenKind::Bang,
            TokenType::BangEqual => TokenKind::BangEqual,
            TokenType::Equal => TokenKind::Equal,
            TokenType::EqualEqual => TokenKind::EqualEqual,
            TokenType::Greater => TokenKind::Greater,
            TokenType::GreaterEqual => TokenKind::GreaterEqual,
            TokenType::Less => TokenKind::Less,
            TokenType::LessEqual => TokenKind::LessEqual,
            TokenType::Identifier(v) => TokenKind::Identifier(v@),
            TokenType::String(v) => TokenKind::Str(v@),
            TokenType::Number(n) => TokenKind::Number(*n),
            TokenType::Keyword(v) => TokenKind::Keyword(v@),
            TokenType::EOF => TokenKind::Eof,
        }
    }
}

impl TokenType {
    /// A copy of this token type.
    pub fn copied(&self) -> (r: TokenType)
        ensures
            r@ == self@,
    {
        match self {
            TokenType::LeftParen => TokenType::LeftParen,
            TokenType::RightParen => TokenType::RightParen,
            TokenType::LeftBrace => TokenType::LeftBrace,
            TokenType::RightBrace => TokenType::RightBrace,
            TokenType::Comma => TokenType::Comma,
            TokenType::Dot => TokenType::Dot,
            TokenType::Minus => TokenType::Minus,
            TokenType::Plus => TokenType::Plus,
            TokenType::Semicolon => TokenType::Semicolon,
            TokenType::Slash => TokenType::Slash,
            TokenType::Star => TokenType::Star,
            TokenType::Bang => TokenType::Bang,
            TokenType::BangEqual => TokenType::BangEqual,
            TokenType::Equal => TokenType::Equal,
            TokenType::EqualEqual => TokenType::EqualEqual,
            TokenType::Greater => TokenType::Greater,
            TokenType::GreaterEqual => TokenType::GreaterEqual,
            TokenType::Less => TokenType::Less,
            TokenType::LessEqual => TokenType::LessEqual,
            TokenType::Identifier(v) => TokenType::Identifier(copy_chars(v)),
            TokenType::String(v) => TokenType::String(copy_chars(v)),
            TokenType::Number(n) => TokenType::Number(*n),
            TokenType::Keyword(v) => TokenType::Keyword(copy_chars(v)),
            TokenType::EOF => TokenType::EOF,
        }
    }

    /// Which kind of token this is, without what it carries.
    pub fn tag(&self) -> (r: u8)
        ensures
            r == kind_tag(self@),
    {
        match self {
            TokenType::LeftParen => 0,
            TokenType::RightParen => 1,
            TokenType::LeftBrace => 2,
            TokenType::RightBrace => 3,
            TokenType::Comma => 4,
            TokenType::Dot => 5,
            TokenType::Minus => 6,
            TokenType::Plus => 7,
            TokenType::Semicolon => 8,
            TokenType::Slash => 9,
            TokenType::Star => 10,
            TokenType::Bang => 11,
            TokenType::BangEqual => 12,
            TokenType::Equal => 13,
            TokenType::EqualEqual => 14,
            TokenType::Greater => 15,
            TokenType::GreaterEqual => 16,
            TokenType::Less => 17,
            TokenType::LessEqual => 18,
            TokenType::Identifier(_) => 19,
            TokenType::String(_) => 20,
            TokenType::Number(_) => 21,
            TokenType::Keyword(_) => 22,
            TokenType::EOF => 23,
        }
    }

    /// Whether this is the keyword `word`.
    pub fn is_keyword_named(&self, word: &str) -> (r: bool)
        ensures
            r == (self@ == TokenKind::Keyword(word@)),
    {
        match self {
            TokenType::Keyword(w) => {
                let k = chars_of(word);
                chars_eq(w, &k)
            },
            _ => false,
        }
    }

    /// The name of the kind of token, without what it carries.
    pub fn name(&self) -> (r: Vec<char>)
        ensures
            r@ == kind_name(self@),
    {
        match self {
            TokenType::LeftParen => chars_of("LeftParen"),
            TokenType::RightParen => chars_of("RightParen"),
            TokenType::LeftBrace => chars_of("LeftBrace"),
            TokenType::RightBrace => chars_of("RightBrace"),
            TokenType::Comma => chars_of("Comma"),
            TokenType::Dot => chars_of("Dot"),
            TokenType::Minus => chars_of("Minus"),
            TokenType::Plus => chars_of("Plus"),
            TokenType::Semicolon => chars_of("Semicolon"),
            TokenType::Slash => chars_of("Slash"),
            TokenType::Star => chars_of("Star"),
            TokenType::Bang => chars_of("Bang"),
            TokenType::BangEqual => chars_of("BangEqual"),
            TokenType::Equal => chars_of("Equal"),
            TokenType::EqualEqual => chars_of("EqualEqual"),
            TokenType::Greater => chars_of("Greater"),
            TokenType::GreaterEqual => chars_of("GreaterEqual"),
            TokenType::Less => chars_of("Less"),
            TokenType::LessEqual => chars_of("LessEqual"),
            TokenType::Identifier(_) => chars_of("Identifier"),
            TokenType::String(_) => chars_of("String"),
            TokenType::Number(_) => chars_of("Number"),
            TokenType::Keyword(_) => chars_of("Keyword"),
            TokenType::EOF => chars_of("EOF"),
        }
    }
}

impl Default for TokenType {
    fn default() -> (r: TokenType)
        ensures
            r@ == TokenKind::Eof,
    {
        TokenType::EOF
    }
}

/// Which kind a token is, without what it carries.
pub open spec fn kind_tag(k: TokenKind) -> u8 {
    match k {
        TokenKind::LeftParen => 0,
        TokenKind::RightParen => 1,
        TokenKind::LeftBrace => 2,
        TokenKind::RightBrace => 3,
        TokenKind::Comma => 4,
        TokenKind::Dot => 5,
        TokenKind::Minus => 6,
        TokenKind::Plus => 7,
        TokenKind::Semicolon => 8,
        TokenKind::Slash => 9,
        TokenKind::Star => 10,
        TokenKind::Bang => 11,
        TokenKind::BangEqual => 12,
        TokenKind::Equal => 13,
        TokenKind::EqualEqual => 14,
        TokenKind::Greater => 15,
        TokenKind::GreaterEqual => 16,
        TokenKind::Less => 17,
        TokenKind::LessEqual => 18,
        TokenKind::Identifier(_) => 19,
        TokenKind::Str(_) => 20,
        TokenKind::Number(_) => 21,
        TokenKind::Keyword(_) => 22,
        TokenKind::Eof => 23,
    }
}

/// The name of a kind of token.
pub open spec fn kind_name(k: TokenKind) -> Seq<char> {
    match k {
        TokenKind::LeftParen => "LeftParen"@,
        TokenKind::RightParen => "RightParen"@,
        TokenKind::LeftBrace => "LeftBrace"@,
        TokenKind::RightBrace => "RightBrace"@,
        TokenKind::Comma => "Comma"@,
        TokenKind::Dot => "Dot"@,
        TokenKind::Minus => "Minus"@,
        TokenKind::Plus => "Plus"@,
        TokenKind::Semicolon => "Semicolon"@,
        TokenKind::Slash => "Slash"@,
        TokenKind::Star => "Star"@,
        TokenKind::Bang => "Bang"@,
        TokenKind::BangEqual => "BangEqual"@,
        TokenKind::Equal => "Equal"@,
        TokenKind::EqualEqual => "EqualEqual"@,
        TokenKind::Greater => "Greater"@,
        TokenKind::GreaterEqual => "GreaterEqual"@,
        TokenKind::Less => "Less"@,
        TokenKind::LessEqual => "LessEqual"@,
        TokenKind::Identifier(_) => "Identifier"@,
        TokenKind::Str(_) => "String"@,
        TokenKind::Number(_) => "Number"@,
        TokenKind::Keyword(_) => "Keyword"@,
        TokenKind::Eof => "EOF"@,
    }
}

#[derive(Clone, Debug)]
pub struct Token {
    pub token_type: TokenType,
    pub lexeme: Vec<char>,
    pub line: usize,
    pub col: usize,
}

/// What a token holds, as plain values.
pub struct TokenModel {
    pub kind: TokenKind,
    pub lexeme: Seq<char>,
    pub line: nat,
    pub col: nat,
}

impl View for Token {
    type V = TokenModel;

    open spec fn view(&self) -> TokenModel {
        TokenModel {
            kind: self.token_type@,
            lexeme: self.lexeme@,
            line: self.line as nat,
            col: self.col as nat,
        }
    }
}

impl Token {
    pub fn new(token_type: TokenType, lexeme: &Vec<char>, line: usize, col: usize) -> (r: Token)
        ensures
            r.token_type == token_type,
            r.lexeme@ == lexeme@,
            r.line == line,
            r.col == col,
    {
        Token { token_type, lexeme: copy_chars(lexeme), line, col }
    }

    /// A copy of this token.
    pub fn copied(&self) -> (r: Token)
        ensures
            r@ == self@,
    {
        Token {
            token_type: self.token_type.copied(),
            lexeme: copy_chars(&self.lexeme),
            line: self.line,
            col: self.col,
        }
    }
}

// ---------------------------------------------------------------------
// Character classes

/// Unicode white space, as `char::is_whitespace` defines it.
pub open spec fn is_whitespace_spec(c: char) -> bool {
    ||| ('\u{9}' <= c && c <= '\u{d}')
    ||| c == ' '
    ||| c == '\u{85}'
    ||| c == '\u{a0}'
    ||| c == '\u{1680}'
    ||| ('\u{2000}' <= c && c <= '\u{200a}')
    ||| c == '\u{2028}'
    ||| c == '\u{2029}'
    ||| c == '\u{202f}'
    ||| c == '\u{205f}'
    ||| c == '\u{3000}'
}

/// Whether `c` is a letter `a-z` or `A-Z`, `λ`, or an emoji that is not
/// a digit or `*`, by the character class `[[^0-9*]&&\p{Emoji}a-zA-Zλ]`.
pub uninterp spec fn ident_class(c: char) -> bool;

/// Relies on regex's `Regex::new` and `Regex::is_match`: whether the
/// one-character text `c` matches the identifier character class.
#[verifier::external_body]
fn in_ident_class(c: char) -> (r: bool)
    ensures
        r == ident_class(c),
{
    regex::Regex::new(r"[[^0-9*]&&\p{Emoji}a-zA-Zλ]").unwrap().is_match(c.to_string().as_str())
}

pub open spec fn is_id_start_spec(c: char) -> bool {
    c == '_' || ident_class(c)
}

pub open spec fn is_id_spec(c: char) -> bool {
    is_id_start_spec(c) || c == '!' || c == '?' || is_digit(c)
}

/// The characters operators are made of.
pub open spec fn punctuation() -> Seq<char> {
    seq!['!', '%', '&', '(', ')', '*', '+', ',', '-', '.', '/', ';', '<', '=', '>', '^', '{', '|', '}']
}

pub open spec fn is_punctuation_spec(c: char) -> bool {
    punctuation().contains(c)
}

/// The reserved words.
pub open spec fn keywords() -> Seq<Seq<char>> {
    seq![
        "and"@, "class"@, "else"@, "false"@, "for"@, "fun"@, "if"@, "lambda"@, "nil"@, "or"@,
        "print"@, "return"@, "super"@, "this"@, "true"@, "var"@, "while"@, "λ"@,
    ]
}

pub fn is_whitespace(ch: char) -> (r: bool)
    ensures
        r == is_whitespace_spec(ch),
{
    ('\u{9}' <= ch && ch <= '\u{d}') || ch == ' ' || ch == '\u{85}' || ch == '\u{a0}'
        || ch == '\u{1680}' || ('\u{2000}' <= ch && ch <= '\u{200a}') || ch == '\u{2028}'
        || ch == '\u{2029}' || ch == '\u{202f}' || ch == '\u{205f}' || ch == '\u{3000}'
}

pub fn is_id_start(ch: char) -> (r: bool)
    ensures
        r == is_id_start_spec(ch),
{
    ch == '_' || in_ident_class(ch)
}

pub fn is_id(ch: char) -> (r: bool)
    ensures
        r == is_id_spec(ch),
{
    is_id_start(ch) || ch == '!' || ch == '?' || ('0' <= ch && ch <= '9')
}

pub fn is_punctuation(ch: char) -> (r: bool)
    ensures
        r == is_punctuation_spec(ch),
{
    let table = ['!', '%', '&', '(', ')', '*', '+', ',', '-', '.', '/', ';', '<', '=', '>', '^', '{', '|', '}'];
    proof {
        assert(table@ =~= punctuation());
    }
    let mut i: usize = 0;
    while i < 19
        invariant
            i <= 19,
            table@ == punctuation(),
            forall|j: int| 0 <= j < i ==> table@[j] != ch,
        decreases 19 - i,
    {
        if table[i] == ch {
            return true;
        }
        i = i + 1;
    }
    false
}

/// The reserved words, as character vectors.
fn keyword_table() -> (r: Vec<Vec<char>>)
    ensures
        r@.len() == keywords().len(),
        forall|i: int| 0 <= i < r@.len() ==> (#[trigger] r@[i])@ == keywords()[i],
{
    let r = vec![
        chars_of("and"), chars_of("class"), chars_of("else"), chars_of("false"), chars_of("for"),
        chars_of("fun"), chars_of("if"), chars_of("lambda"), chars_of("nil"), chars_of("or"),
        chars_of("print"), chars_of("return"), chars_of("super"), chars_of("this"),
        chars_of("true"), chars_of("var"), chars_of("while"), chars_of("λ"),
    ];
    r
}

pub fn is_keyword(word: &Vec<char>) -> (r: bool)
    ensures
        r == keywords().contains(word@),
{
    let table = keyword_table();
    let mut i: usize = 0;
    while i < table.len()
        invariant
            i <= table@.len() == keywords().len(),
            forall|j: int| 0 <= j < table@.len() ==> (#[trigger] table@[j])@ == keywords()[j],
            forall|j: int| 0 <= j < i ==> keywords()[j] != word@,
        decreases table@.len() - i,
    {
        if chars_eq(&table[i], word) {
            assert(keywords()[i as int] == word@);
            return true;
        }
        i = i + 1;
    }
    false
}

// ---------------------------------------------------------------------
// What one step of the lexer does, stated on positions in the text

/// Where white space and `#` comments that start at `p` end.
pub open spec fn trivia_end(s: Seq<char>, p: int, in_comment: bool) -> int
    decreases s.len() - p,
{
    if p < 0 || p >= s.len() {
        p
    } else if in_comment {
        trivia_end(s, p + 1, s[p] != '\n')
    } else if is_whitespace_spec(s[p]) {
        trivia_end(s, p + 1, false)
    } else if s[p] == '#' {
        trivia_end(s, p + 1, true)
    } else {
        p
    }
}

/// Reads the body of a string literal from `p`, where `acc` holds what has
/// been read: a backslash takes the next character as it is, and a quote
/// ends the literal. Gives the text and the position after the closing
/// quote, or `None` where the input ends first.
pub open spec fn string_scan(s: Seq<char>, p: int, escaped: bool, acc: Seq<char>) -> Option<(Seq<char>, int)>
    decreases s.len() - p,
{
    if p < 0 || p >= s.len() {
        None
    } else if escaped {
        string_scan(s, p + 1, false, acc.push(s[p]))
    } else if s[p] == '\\' {
        string_scan(s, p + 1, true, acc)
    } else if s[p] == '"' {
        Some((acc, p + 1))
    } else {
        string_scan(s, p + 1, false, acc.push(s[p]))
    }
}

/// End of the numeral at `p`: digits, and the first point among them.
pub open spec fn numeral_end(s: Seq<char>, p: int, seen_point: bool) -> int
    decreases s.len() - p,
{
    if 0 <= p < s.len() && (is_digit(s[p]) || (s[p] == '.' && !seen_point)) {
        numeral_end(s, p + 1, seen_point || s[p] == '.')
    } else {
        p
    }
}

/// End of the run of identifier characters at `p`.
pub open spec fn ident_end(s: Seq<char>, p: int) -> int
    decreases s.len() - p,
{
    if 0 <= p < s.len() && is_id_spec(s[p]) {
        ident_end(s, p + 1)
    } else {
        p
    }
}

/// End of the run of operator characters at `p`.
pub open spec fn punct_end(s: Seq<char>, p: int) -> int
    decreases s.len() - p,
{
    if 0 <= p < s.len() && is_punctuation_spec(s[p]) {
        punct_end(s, p + 1)
    } else {
        p
    }
}

proof fn lemma_numeral_end_grows(s: Seq<char>, p: int, seen: bool)
    requires
        0 <= p <= s.len(),
    ensures
        p <= numeral_end(s, p, seen) <= s.len(),
    decreases s.len() - p,
{
    if p < s.len() && (is_digit(s[p]) || (s[p] == '.' && !seen)) {
        lemma_numeral_end_grows(s, p + 1, seen || s[p] == '.');
    }
}

/// Punctuation that always stands alone.
pub open spec fn single_punct(c: char) -> Option<TokenKind> {
    if c == ';' {
        Some(TokenKind::Semicolon)
    } else if c == ',' {
        Some(TokenKind::Comma)
    } else if c == '(' {
        Some(TokenKind::LeftParen)
    } else if c == ')' {
        Some(TokenKind::RightParen)
    } else if c == '{' {
        Some(TokenKind::LeftBrace)
    } else if c == '}' {
        Some(TokenKind::RightBrace)
    } else if c == '.' {
        Some(TokenKind::Dot)
    } else {
        None
    }
}

/// The operator that a run of operator characters spells.
pub open spec fn operator_kind(r: Seq<char>) -> Option<TokenKind> {
    if r == seq!['='] {
        Some(TokenKind::Equal)
    } else if r == seq!['=', '='] {
        Some(TokenKind::EqualEqual)
    } else if r == seq!['!', '='] {
        Some(TokenKind::BangEqual)
    } else if r == seq!['>'] {
        Some(TokenKind::Greater)
    } else if r == seq!['>', '='] {
        Some(TokenKind::GreaterEqual)
    } else if r == seq!['<'] {
        Some(TokenKind::Less)
    } else if r == seq!['<', '='] {
        Some(TokenKind::LessEqual)
    } else if r == seq!['!'] {
        Some(TokenKind::Bang)
    } else if r == seq!['-'] {
        Some(TokenKind::Minus)
    } else if r == seq!['+'] {
        Some(TokenKind::Plus)
    } else if r == seq!['/'] {
        Some(TokenKind::Slash)
    } else if r == seq!['*'] {
        Some(TokenKind::Star)
    } else {
        None
    }
}

/// The lexical errors.
pub enum LexError {
    UnterminatedString,
    InvalidOperator,
    IllegalCharacter,
    NumberOutOfRange,
}

/// One step of the lexer from position `p`: a token (its kind and lexeme)
/// or an error, the position whose line and column it reports, and the
/// position where the next step starts.
pub struct LexStep {
    pub outcome: Result<(TokenKind, Seq<char>), LexError>,
    pub at: int,
    pub end: int,
}

pub open spec fn lex_step(s: Seq<char>, p: int) -> LexStep {
    let q = trivia_end(s, p, false);
    if q < 0 || q >= s.len() {
        LexStep { outcome: Ok((TokenKind::Eof, Seq::empty())), at: q, end: q }
    } else if s[q] == '"' {
        match string_scan(s, q + 1, false, Seq::empty()) {
            Some((t, e)) => LexStep { outcome: Ok((TokenKind::Str(t), t)), at: e, end: e },
            None => LexStep { outcome: Err(LexError::UnterminatedString), at: s.len() as int, end: s.len() as int },
        }
    } else if is_digit(s[q]) {
        let e = numeral_end(s, q, false);
        let text = s.subrange(q, e);
        match Number::numeral_spec(text) {
            Some(n) => LexStep { outcome: Ok((TokenKind::Number(n), text)), at: e, end: e },
            None => LexStep { outcome: Err(LexError::NumberOutOfRange), at: e, end: e },
        }
    } else if is_id_start_spec(s[q]) {
        let e = ident_end(s, q);
        let w = s.subrange(q, e);
        let k = if keywords().contains(w) { TokenKind::Keyword(w) } else { TokenKind::Identifier(w) };
        LexStep { outcome: Ok((k, w)), at: e, end: e }
    } else if is_punctuation_spec(s[q]) {
        match single_punct(s[q]) {
            Some(k) => LexStep { outcome: Ok((k, seq![s[q]])), at: q + 1, end: q + 1 },
            None => {
                let e = punct_end(s, q);
                let r = s.subrange(q, e);
                match operator_kind(r) {
                    Some(k) => LexStep { outcome: Ok((k, r)), at: e, end: e },
                    None => LexStep { outcome: Err(LexError::InvalidOperator), at: e, end: e },
                }
            }
        }
    } else {
        LexStep { outcome: Err(LexError::IllegalCharacter), at: q, end: q + 1 }
    }
}

/// The words that open each error's message.
pub open spec fn lex_error_words(e: LexError) -> Seq<char> {
    match e {
        LexError::UnterminatedString => "Invalid string termination at "@,
        LexError::InvalidOperator => "Invalid operator at "@,
        LexError::IllegalCharacter => "Invalid character at "@,
        LexError::NumberOutOfRange => "Number out of range at "@,
    }
}

pub open spec fn line_at(s: Seq<char>, p: int) -> nat {
    count_newlines(s.take(p))
}

/// The error that a step reports at position `at`.
pub open spec fn lex_error_model(s: Seq<char>, e: LexError, at: int) -> InvalidTokenErrorModel {
    InvalidTokenErrorModel {
        message: lex_error_words(e) + nat_text(line_at(s, at)) + ":"@ + nat_text(column_at(s, at)),
        line_as_string: line_text(s, line_at(s, at)),
        line: line_at(s, at),
        col: column_at(s, at),
    }
}

/// The token that a step gives at position `at`.
pub open spec fn token_model(s: Seq<char>, k: TokenKind, lexeme: Seq<char>, at: int) -> TokenModel {
    TokenModel { kind: k, lexeme, line: line_at(s, at), col: column_at(s, at) }
}

// ---------------------------------------------------------------------
// The lexer

/// A pull-based lexer over one source text. After the input is used up it
/// keeps giving the end-of-input token.
pub struct TokenStream {
    input: InputStream,
    current: Token,
    has_started: bool,
    has_error: bool,
}

fn single_of(c: char) -> (r: Option<TokenType>)
    ensures
        match single_punct(c) {
            Some(k) => r is Some && r->Some_0@ == k,
            None => r is None,
        },
{
    if c == ';' {
        Some(TokenType::Semicolon)
    } else if c == ',' {
        Some(TokenType::Comma)
    } else if c == '(' {
        Some(TokenType::LeftParen)
    } else if c == ')' {
        Some(TokenType::RightParen)
    } else if c == '{' {
        Some(TokenType::LeftBrace)
    } else if c == '}' {
        Some(TokenType::RightBrace)
    } else if c == '.' {
        Some(TokenType::Dot)
    } else {
        None
    }
}

fn operator_of(r: &Vec<char>) -> (t: Option<TokenType>)
    ensures
        match operator_kind(r@) {
            Some(k) => t is Some && t->Some_0@ == k,
            None => t is None,
        },
{
    if r.len() == 1 {
        let c = r[0];
        proof {
            assert(r@ =~= seq![c]);
        }
        if c == '=' {
            Some(TokenType::Equal)
        } else if c == '>' {
            Some(TokenType::Greater)
        } else if c == '<' {
            Some(TokenType::Less)
        } else if c == '!' {
            Some(TokenType::Bang)
        } else if c == '-' {
            Some(TokenType::Minus)
        } else if c == '+' {
            Some(TokenType::Plus)
        } else if c == '/' {
            Some(TokenType::Slash)
        } else if c == '*' {
            Some(TokenType::Star)
        } else {
            None
        }
    } else if r.len() == 2 && r[1] == '=' {
        let c = r[0];
        proof {
            assert(r@ =~= seq![c, '=']);
        }
        if c == '=' {
            Some(TokenType::EqualEqual)
        } else if c == '!' {
            Some(TokenType::BangEqual)
        } else if c == '>' {
            Some(TokenType::GreaterEqual)
        } else if c == '<' {
            Some(TokenType::LessEqual)
        } else {
            None
        }
    } else {
        proof {
            if r@.len() == 2 {
                assert(r@[1] != seq!['=', '='][1]);
            }
        }
        None
    }
}

impl TokenStream {
    pub closed spec fn wf(&self) -> bool {
        self.input.wf()
    }

    /// Whether any step so far reported an error.
    pub closed spec fn error_seen(&self) -> bool {
        self.has_error
    }

    pub fn has_error(&self) -> (r: bool)
        ensures
            r == self.error_seen(),
    {
        self.has_error
    }

    /// The source text.
    pub closed spec fn text(&self) -> Seq<char> {
        self.input.text()
    }

    /// Where the next step starts.
    pub closed spec fn position(&self) -> nat {
        self.input.position()
    }

    /// The last token given, once one has been.
    pub closed spec fn last_token(&self) -> Option<TokenModel> {
        if self.has_started {
            Some(self.current@)
        } else {
            None
        }
    }

    pub fn new(input: &mut InputStream) -> (r: Self)
        requires
            old(input).wf(),
        ensures
            *final(input) == *old(input),
            r.wf(),
            r.text() == old(input).text(),
            r.position() == old(input).position(),
            r.last_token() is None,
            !r.error_seen(),
    {
        TokenStream {
            input: input.copy_state(),
            current: Token { token_type: TokenType::EOF, lexeme: Vec::new(), line: 0, col: 0 },
            has_started: false,
            has_error: false,
        }
    }

    fn skip_trivia(&mut self)
        requires
            old(self).wf(),
        ensures
            final(self).wf(),
            final(self).text() == old(self).text(),
            final(self).position() == trivia_end(old(self).text(), old(self).position() as int, false),
            final(self).error_seen() == old(self).error_seen(),
            final(self).last_token() == old(self).last_token(),
    {
        proof {
            self.input.lemma_wf();
        }
        let mut in_comment = false;
        while !self.input.eof()
            invariant
                self.wf(),
                self.text() == old(self).text(),
                self.error_seen() == old(self).error_seen(),
                self.last_token() == old(self).last_token(),
                trivia_end(self.text(), self.position() as int, in_comment)
                    == trivia_end(old(self).text(), old(self).position() as int, false),
            ensures
                self.position() == trivia_end(old(self).text(), old(self).position() as int, false),
            decreases self.text().len() - self.position(),
        {
            let c = self.input.peek();
            if in_comment {
                self.input.next();
                in_comment = c != '\n';
            } else if is_whitespace(c) {
                self.input.next();
            } else if c == '#' {
                self.input.next();
                in_comment = true;
            } else {
                break;
            }
        }
    }

    fn read_escaped(&mut self) -> (r: Option<Vec<char>>)
        requires
            old(self).wf(),
            old(self).position() < old(self).text().len(),
            old(self).text()[old(self).position() as int] == '"',
        ensures
            final(self).wf(),
            final(self).text() == old(self).text(),
            final(self).error_seen() == old(self).error_seen(),
            final(self).last_token() == old(self).last_token(),
            match string_scan(old(self).text(), old(self).position() as int + 1, false, Seq::empty()) {
                Some((t, e)) => r is Some && r->Some_0@ == t && final(self).position() == e,
                None => r is None && final(self).position() == old(self).text().len(),
            },
    {
        proof {
            self.input.lemma_wf();
        }
        self.input.next();
        let mut escaped = false;
        let mut acc: Vec<char> = Vec::new();
        loop
            invariant
                self.wf(),
                self.text() == old(self).text(),
                self.error_seen() == old(self).error_seen(),
                self.last_token() == old(self).last_token(),
                string_scan(self.text(), self.position() as int, escaped, acc@)
                    == string_scan(old(self).text(), old(self).position() as int + 1, false, Seq::empty()),
            decreases self.text().len() - self.position(),
        {
            if self.input.eof() {
                return None;
            }
            let c = self.input.next();
            if escaped {
                acc.push(c);
                escaped = false;
            } else if c == '\\' {
                escaped = true;
            } else if c == '"' {
                return Some(acc);
            } else {
                acc.push(c);
            }
        }
    }

    fn read_number(&mut self) -> (r: Vec<char>)
        requires
            old(self).wf(),
            old(self).position() < old(self).text().len(),
            is_digit(old(self).text()[old(self).position() as int]),
        ensures
            final(self).wf(),
            final(self).text() == old(self).text(),
            final(self).error_seen() == old(self).error_seen(),
            final(self).last_token() == old(self).last_token(),
            final(self).position() == numeral_end(old(self).text(), old(self).position() as int, false),
            r@ == old(self).text().subrange(old(self).position() as int, final(self).position() as int),
            is_numeral(r@),
    {
        proof {
            self.input.lemma_wf();
        }
        let ghost s = self.text();
        let ghost p0 = self.position() as int;
        let mut seen = false;
        let mut acc: Vec<char> = Vec::new();
        while !self.input.eof()
            invariant
                self.wf(),
                self.text() == s,
                self.error_seen() == old(self).error_seen(),
                self.last_token() == old(self).last_token(),
                0 <= p0 <= self.position() <= s.len(),
                s == old(self).text(),
                p0 == old(self).position(),
                is_digit(s[p0]),
                numeral_end(s, self.position() as int, seen) == numeral_end(s, p0, false),
                acc@ == s.subrange(p0, self.position() as int),
                forall|i: int| 0 <= i < acc@.len() ==> is_digit(#[trigger] acc@[i]) || acc@[i] == '.',
                forall|i: int, j: int| 0 <= i < j < acc@.len() && acc@[i] == '.' ==> acc@[j] != '.',
                !seen ==> forall|i: int| 0 <= i < acc@.len() ==> acc@[i] != '.',
            ensures
                self.position() == numeral_end(s, p0, false),
            decreases s.len() - self.position(),
        {
            let c = self.input.peek();
            if ('0' <= c && c <= '9') || (c == '.' && !seen) {
                seen = seen || c == '.';
                let c2 = self.input.next();
                acc.push(c2);
                proof {
                    assert(s.subrange(p0, self.position() as int) =~= s.subrange(p0, self.position() - 1).push(c2));
                }
            } else {
                break;
            }
        }
        proof {
            lemma_numeral_end_grows(s, p0 + 1, true);
            lemma_numeral_end_grows(s, p0 + 1, false);
            assert(acc@.len() > 0);
            assert(acc@[0] == s[p0]);
        }
        acc
    }

    fn read_ident(&mut self) -> (r: Vec<char>)
        requires
            old(self).wf(),
        ensures
            final(self).wf(),
            final(self).text() == old(self).text(),
            final(self).error_seen() == old(self).error_seen(),
            final(self).last_token() == old(self).last_token(),
            final(self).position() == ident_end(old(self).text(), old(self).position() as int),
            r@ == old(self).text().subrange(old(self).position() as int, final(self).position() as int),
    {
        proof {
            self.input.lemma_wf();
        }
        let ghost s = self.text();
        let ghost p0 = self.position() as int;
        let mut acc: Vec<char> = Vec::new();
        while !self.input.eof()
            invariant
                self.wf(),
                self.text() == s,
                self.error_seen() == old(self).error_seen(),
                self.last_token() == old(self).last_token(),
                0 <= p0 <= self.position() <= s.len(),
                s == old(self).text(),
                p0 == old(self).position(),
                ident_end(s, self.position() as int) == ident_end(s, p0),
                acc@ == s.subrange(p0, self.position() as int),
            ensures
                self.position() == ident_end(s, p0),
            decreases s.len() - self.position(),
        {
            let c = self.input.peek();
            if is_id(c) {
                let c2 = self.input.next();
                acc.push(c2);
                proof {
                    assert(s.subrange(p0, self.position() as int) =~= s.subrange(p0, self.position() - 1).push(c2));
                }
            } else {
                break;
            }
        }
        acc
    }

    fn read_punct_run(&mut self) -> (r: Vec<char>)
        requires
            old(self).wf(),
        ensures
            final(self).wf(),
            final(self).text() == old(self).text(),
            final(self).error_seen() == old(self).error_seen(),
            final(self).last_token() == old(self).last_token(),
            final(self).position() == punct_end(old(self).text(), old(self).position() as int),
            r@ == old(self).text().subrange(old(self).position() as int, final(self).position() as int),
    {
        proof {
            self.input.lemma_wf();
        }
        let ghost s = self.text();
        let ghost p0 = self.position() as int;
        let mut acc: Vec<char> = Vec::new();
        while !self.input.eof()
            invariant
                self.wf(),
                self.text() == s,
                self.error_seen() == old(self).error_seen(),
                self.last_token() == old(self).last_token(),
                0 <= p0 <= self.position() <= s.len(),
                s == old(self).text(),
                p0 == old(self).position(),
                punct_end(s, self.position() as int) == punct_end(s, p0),
                acc@ == s.subrange(p0, self.position() as int),
            ensures
                self.position() == punct_end(s, p0),
            decreases s.len() - self.position(),
        {
            let c = self.input.peek();
            if is_punctuation(c) {
                let c2 = self.input.next();
                acc.push(c2);
                proof {
                    assert(s.subrange(p0, self.position() as int) =~= s.subrange(p0, self.position() - 1).push(c2));
                }
            } else {
                break;
            }
        }
        acc
    }

    /// The error that opens with `words`, at the current position.
    fn make_error(&self, words: &str) -> (r: InvalidTokenError)
        requires
            self.wf(),
        ensures
            r@ == (InvalidTokenErrorModel {
                message: words@ + nat_text(line_at(self.text(), self.position() as int)) + ":"@
                    + nat_text(column_at(self.text(), self.position() as int)),
                line_as_string: line_text(self.text(), line_at(self.text(), self.position() as int)),
                line: line_at(self.text(), self.position() as int),
                col: column_at(self.text(), self.position() as int),
            }),
    {
        proof {
            self.input.lemma_wf();
        }
        let line = self.input.line();
        let col = self.input.col();
        let mut message = chars_of(words);
        push_nat_text(line as u64, &mut message);
        let colon = chars_of(":");
        append_chars(&mut message, &colon);
        push_nat_text(col as u64, &mut message);
        InvalidTokenError { message, line_as_string: self.input.get_current_line(), line, col }
    }

    /// Reads the next token, or reports the error that stops it.
    fn read_next(&mut self) -> (r: Result<Token, InvalidTokenError>)
        requires
            old(self).wf(),
        ensures
            final(self).wf(),
            final(self).text() == old(self).text(),
            final(self).last_token() == old(self).last_token(),
            final(self).position() == lex_step(old(self).text(), old(self).position() as int).end,
            final(self).error_seen() == (old(self).error_seen()
                || lex_step(old(self).text(), old(self).position() as int).outcome is Err),
            match lex_step(old(self).text(), old(self).position() as int).outcome {
                Ok((k, lexeme)) => r is Ok && r->Ok_0@ == token_model(old(self).text(), k, lexeme,
                    lex_step(old(self).text(), old(self).position() as int).at),
                Err(e) => r is Err && r->Err_0@ == lex_error_model(old(self).text(), e,
                    lex_step(old(self).text(), old(self).position() as int).at),
            },
    {
        let ghost s = self.text();
        self.skip_trivia();
        proof {
            self.input.lemma_wf();
        }
        if self.input.eof() {
            return Ok(Token {
                token_type: TokenType::EOF,
                lexeme: Vec::new(),
                line: self.input.line(),
                col: self.input.col(),
            });
        }
        let ch = self.input.peek();
        if ch == '"' {
            match self.read_escaped() {
                Some(t) => {
                    proof {
                        self.input.lemma_wf();
                    }
                    let lexeme = copy_chars(&t);
                    return Ok(Token {
                        token_type: TokenType::String(t),
                        lexeme,
                        line: self.input.line(),
                        col: self.input.col(),
                    });
                },
                None => {
                    self.has_error = true;
                    return Err(self.make_error("Invalid string termination at "));
                },
            }
        }
        if '0' <= ch && ch <= '9' {
            let text = self.read_number();
            proof {
                self.input.lemma_wf();
            }
            match Number::from_numeral(&text) {
                Some(n) => {
                    return Ok(Token {
                        token_type: TokenType::Number(n),
                        lexeme: text,
                        line: self.input.line(),
                        col: self.input.col(),
                    });
                },
                None => {
                    self.has_error = true;
                    return Err(self.make_error("Number out of range at "));
                },
            }
        }
        if is_id_start(ch) {
            let word = self.read_ident();
            proof {
                self.input.lemma_wf();
            }
            let lexeme = copy_chars(&word);
            let token_type = if is_keyword(&word) {
                TokenType::Keyword(word)
            } else {
                TokenType::Identifier(word)
            };
            return Ok(Token { token_type, lexeme, line: self.input.line(), col: self.input.col() });
        }
        if is_punctuation(ch) {
            match single_of(ch) {
                Some(token_type) => {
                    let c = self.input.next();
                    proof {
                        self.input.lemma_wf();
                    }
                    let lexeme = vec![c];
                    proof {
                        assert(lexeme@ =~= seq![c]);
                    }
                    return Ok(Token { token_type, lexeme, line: self.input.line(), col: self.input.col() });
                },
                None => {
                    let run = self.read_punct_run();
                    proof {
                        self.input.lemma_wf();
                    }
                    match operator_of(&run) {
                        Some(token_type) => {
                            return Ok(Token {
                                token_type,
                                lexeme: run,
                                line: self.input.line(),
                                col: self.input.col(),
                            });
                        },
                        None => {
                            self.has_error = true;
                            return Err(self.make_error("Invalid operator at "));
                        },
                    }
                },
            }
        }
        let error = self.make_error("Invalid character at ");
        self.input.next();
        self.has_error = true;
        Err(error)
    }

    /// Reads the next token. A token becomes the last one given; an error
    /// leaves the last token as it was.
    pub fn next(&mut self) -> (r: Result<Token, InvalidTokenError>)
        requires
            old(self).wf(),
        ensures
            final(self).wf(),
            final(self).text() == old(self).text(),
            final(self).position() == lex_step(old(self).text(), old(self).position() as int).end,
            final(self).error_seen() == (old(self).error_seen()
                || lex_step(old(self).text(), old(self).position() as int).outcome is Err),
            match lex_step(old(self).text(), old(self).position() as int).outcome {
                Ok((k, lexeme)) => r is Ok && r->Ok_0@ == token_model(old(self).text(), k, lexeme,
                    lex_step(old(self).text(), old(self).position() as int).at)
                    && final(self).last_token() == Some(r->Ok_0@),
                Err(e) => r is Err && r->Err_0@ == lex_error_model(old(self).text(), e,
                    lex_step(old(self).text(), old(self).position() as int).at)
                    && final(self).last_token() == old(self).last_token(),
            },
    {
        match self.read_next() {
            Ok(token) => {
                self.has_started = true;
                self.current = token.copied();
                Ok(token)
            },
            Err(e) => Err(e),
        }
    }

    /// The last token given, if any.
    pub fn peek(&self) -> (r: Option<Token>)
        ensures
            match self.last_token() {
                Some(t) => r is Some && r->Some_0@ == t,
                None => r is None,
            },
    {
        if !self.has_started {
            None
        } else {
            Some(self.current.copied())
        }
    }

    /// Whether the last token given marks the end of the input.
    pub fn eof(&self) -> (r: bool)
        ensures
            r == (self.last_token() is Some && self.last_token()->Some_0.kind is Eof),
    {
        self.has_started && match self.current.token_type {
            TokenType::EOF => true,
            _ => false,
        }
    }
}

// ---------------------------------------------------------------------
// The whole text

proof fn lemma_trivia_end(s: Seq<char>, p: int, c: bool)
    requires
        0 <= p <= s.len(),
    ensures
        p <= trivia_end(s, p, c) <= s.len(),
    decreases s.len() - p,
{
    if p < s.len() {
        if c {
            lemma_trivia_end(s, p + 1, s[p] != '\n');
        } else if is_whitespace_spec(s[p]) {
            lemma_trivia_end(s, p + 1, false);
        } else if s[p] == '#' {
            lemma_trivia_end(s, p + 1, true);
        }
    }
}

proof fn lemma_string_scan(s: Seq<char>, p: int, esc: bool, acc: Seq<char>)
    requires
        0 <= p <= s.len(),
    ensures
        string_scan(s, p, esc, acc) is Some ==> p < string_scan(s, p, esc, acc)->Some_0.1 <= s.len(),
    decreases s.len() - p,
{
    if p < s.len() {
        if esc {
            lemma_string_scan(s, p + 1, false, acc.push(s[p]));
        } else if s[p] == '\\' {
            lemma_string_scan(s, p + 1, true, acc);
        } else if s[p] != '"' {
            lemma_string_scan(s, p + 1, false, acc.push(s[p]));
        }
    }
}

proof fn lemma_ident_end(s: Seq<char>, p: int)
    requires
        0 <= p <= s.len(),
    ensures
        p <= ident_end(s, p) <= s.len(),
    decreases s.len() - p,
{
    if p < s.len() && is_id_spec(s[p]) {
        lemma_ident_end(s, p + 1);
    }
}

proof fn lemma_punct_end(s: Seq<char>, p: int)
    requires
        0 <= p <= s.len(),
    ensures
        p <= punct_end(s, p) <= s.len(),
    decreases s.len() - p,
{
    if p < s.len() && is_punctuation_spec(s[p]) {
        lemma_punct_end(s, p + 1);
    }
}

/// Whether a step gives the end-of-input token.
pub open spec fn is_final_step(st: LexStep) -> bool {
    st.outcome is Ok && st.outcome->Ok_0.0 is Eof
}

/// Every step but the last moves forward, and none leaves the text.
pub proof fn lemma_step_advances(s: Seq<char>, p: int)
    requires
        0 <= p <= s.len(),
    ensures
        p <= lex_step(s, p).end <= s.len(),
        is_final_step(lex_step(s, p)) || p < lex_step(s, p).end,
{
    lemma_trivia_end(s, p, false);
    let q = trivia_end(s, p, false);
    if q < s.len() {
        if s[q] == '"' {
            lemma_string_scan(s, q + 1, false, Seq::empty());
        } else if is_digit(s[q]) {
            lemma_numeral_end_grows(s, q + 1, false);
            lemma_numeral_end_grows(s, q + 1, true);
        } else if is_id_start_spec(s[q]) {
            lemma_ident_end(s, q + 1);
        } else if is_punctuation_spec(s[q]) {
            lemma_punct_end(s, q + 1);
        }
    }
}

/// What lexing a whole text gives: its tokens and its errors, in order.
pub struct LexRun {
    pub tokens: Seq<TokenModel>,
    pub errors: Seq<InvalidTokenErrorModel>,
}

/// Lexes `s` from `p` up to and including the end-of-input token.
pub open spec fn lex_all(s: Seq<char>, p: int) -> LexRun
    decreases s.len() - p,
{
    let st = lex_step(s, p);
    let rest = if 0 <= p < st.end <= s.len() {
        lex_all(s, st.end)
    } else {
        LexRun { tokens: Seq::empty(), errors: Seq::empty() }
    };
    match st.outcome {
        Ok((k, lexeme)) => {
            let t = token_model(s, k, lexeme, st.at);
            if k is Eof {
                LexRun { tokens: seq![t], errors: Seq::empty() }
            } else {
                LexRun { tokens: seq![t] + rest.tokens, errors: rest.errors }
            }
        },
        Err(e) => LexRun { tokens: rest.tokens, errors: seq![lex_error_model(s, e, st.at)] + rest.errors },
    }
}

/// Lexing a whole text ends with exactly one end-of-input token, last.
pub proof fn lemma_lex_all_ends_with_eof(s: Seq<char>, p: int)
    requires
        0 <= p <= s.len(),
    ensures
        lex_all(s, p).tokens.len() > 0,
        lex_all(s, p).tokens.last().kind is Eof,
    decreases s.len() - p,
{
    lemma_step_advances(s, p);
    let st = lex_step(s, p);
    if !is_final_step(st) {
        lemma_lex_all_ends_with_eof(s, st.end);
    }
}

/// Lexes a whole source text. Any lexical error discards every token: the
/// result is then the list of errors, in order.
pub fn tokenize(contents: &String) -> (r: Result<Vec<Token>, Vec<InvalidTokenError>>)
    ensures
        lex_all(contents@, 0).errors.len() == 0 ==> r is Ok
            && r->Ok_0@.map_values(|t: Token| t@) == lex_all(contents@, 0).tokens,
        lex_all(contents@, 0).errors.len() > 0 ==> r is Err
            && r->Err_0@.map_values(|e: InvalidTokenError| e@) == lex_all(contents@, 0).errors,
{
    let mut input_stream = InputStream::new(contents);
    let mut lexer = TokenStream::new(&mut input_stream);
    let ghost s = contents@;
    let mut tokens: Vec<Token> = Vec::new();
    let mut errors: Vec<InvalidTokenError> = Vec::new();
    loop
        invariant_except_break
            tokens@.map_values(|t: Token| t@) + lex_all(s, lexer.position() as int).tokens
                == lex_all(s, 0).tokens,
            errors@.map_values(|e: InvalidTokenError| e@) + lex_all(s, lexer.position() as int).errors
                == lex_all(s, 0).errors,
        invariant
            lexer.wf(),
            lexer.text() == s,
            s == contents@,
            lexer.position() <= s.len(),
        ensures
            tokens@.map_values(|t: Token| t@) == lex_all(s, 0).tokens,
            errors@.map_values(|e: InvalidTokenError| e@) == lex_all(s, 0).errors,
        decreases s.len() - lexer.position(),
    {
        let ghost p = lexer.position() as int;
        proof {
            lemma_step_advances(s, p);
        }
        let ghost run = lex_all(s, p);
        let ghost st = lex_step(s, p);
        match lexer.next() {
            Ok(token) => {
                let done = match token.token_type {
                    TokenType::EOF => true,
                    _ => false,
                };
                let ghost before = tokens@.map_values(|t: Token| t@);
                tokens.push(token);
                proof {
                    assert(tokens@.map_values(|t: Token| t@) =~= before.push(token@));
                    if done {
                        assert(run.tokens =~= seq![token@]);
                        assert(run.errors =~= Seq::<InvalidTokenErrorModel>::empty());
                        assert(before.push(token@) =~= before + run.tokens);
                        assert(errors@.map_values(|e: InvalidTokenError| e@) =~= errors@.map_values(|e: InvalidTokenError| e@) + run.errors);
                    } else {
                        assert(run.tokens =~= seq![token@] + lex_all(s, st.end).tokens);
                        assert(before + run.tokens =~= before.push(token@) + lex_all(s, st.end).tokens);
                    }
                }
                if done {
                    break;
                }
            },
            Err(e) => {
                let ghost before = errors@.map_values(|x: InvalidTokenError| x@);
                errors.push(e);
                proof {
                    assert(errors@.map_values(|x: InvalidTokenError| x@) =~= before.push(e@));
                    assert(run.errors =~= seq![e@] + lex_all(s, st.end).errors);
                    assert(before + run.errors =~= before.push(e@) + lex_all(s, st.end).errors);
                }
            },
        }
    }
    if errors.len() == 0 {
        Ok(tokens)
    } else {
        Err(errors)
    }
}

} // verus!
