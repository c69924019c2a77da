use vstd::prelude::*;

use crate::numbers::lit_decimal;
use crate::span::Span;
use crate::strutil::{alnum_char, alpha_char, chars_eq_str, is_digit_ch, prefix_at, starts_with_at, ws_char};
use crate::values::{Value, ValueModel};

verus! {

broadcast use vstd::string::group_string_axioms;

/// A reserved word or operator spelling.
#[derive(Debug, Clone, Copy, PartialEq, Eq, Structural)]
pub enum Keyword {
    EqualEqual,
    BangEqual,
    LessEqual,
    GreaterEqual,
    And,
    Class,
    Else,
    False,
    For,
    Fun,
    If,
    Nil,
    Or,
    Print,
    Return,
    Super,
    This,
    True,
    Var,
    While,
    LeftParen,
    RightParen,
    LeftBrace,
    RightBrace,
    Comma,
    Dot,
    Semicolon,
    Plus,
    Minus,
    Star,
    Slash,
    Equal,
    Bang,
    Less,
    Greater,
}

impl Keyword {
    /// The spelling of the keyword in source text.
    pub open spec fn text(self) -> Seq<char> {
        match self {
            Keyword::EqualEqual => "=="@,
            Keyword::BangEqual => "!="@,
            Keyword::LessEqual => "<="@,
            Keyword::GreaterEqual => ">="@,
            Keyword::And => "and"@,
            Keyword::Class => "class"@,
            Keyword::Else => "else"@,
            Keyword::False => "false"@,
            Keyword::For => "for"@,
            Keyword::Fun => "fun"@,
            Keyword::If => "if"@,
            Keyword::Nil => "nil"@,
            Keyword::Or => "or"@,
            Keyword::Print => "print"@,
            Keyword::Return => "return"@,
            Keyword::Super => "super"@,
            Keyword::This => "this"@,
            Keyword::True => "true"@,
            Keyword::Var => "var"@,
            Keyword::While => "while"@,
            Keyword::LeftParen => "("@,
            Keyword::RightParen => ")"@,
            Keyword::LeftBrace => "{"@,
            Keyword::RightBrace => "}"@,
            Keyword::Comma => ","@,
            Keyword::Dot => "."@,
            Keyword::Semicolon => ";"@,
            Keyword::Plus => "+"@,
            Keyword::Minus => "-"@,
            Keyword::Star => "*"@,
            Keyword::Slash => "/"@,
            Keyword::Equal => "="@,
            Keyword::Bang => "!"@,
            Keyword::Less => "<"@,
            Keyword::Greater => ">"@,
        }
    }

    /// The spelling of the keyword, as the lexer matches it.
    pub fn to_value(&self) -> (r: &'static str)
        ensures
            r@ == self.text(),
    {
        match self {
            Keyword::EqualEqual => "==",
            Keyword::BangEqual => "!=",
            Keyword::LessEqual => "<=",
            Keyword::GreaterEqual => ">=",
            Keyword::And => "and",
            Keyword::Class => "class",
            Keyword::Else => "else",
            Keyword::False => "false",
            Keyword::For => "for",
            Keyword::Fun => "fun",
            Keyword::If => "if",
            Keyword::Nil => "nil",
            Keyword::Or => "or",
            Keyword::Print => "print",
            Keyword::Return => "return",
            Keyword::Super => "super",
            Keyword::This => "this",
            Keyword::True => "true",
            Keyword::Var => "var",
            Keyword::While => "while",
            Keyword::LeftParen => "(",
            Keyword::RightParen => ")",
            Keyword::LeftBrace => "{",
            Keyword::RightBrace => "}",
            Keyword::Comma => ",",
            Keyword::Dot => ".",
            Keyword::Semicolon => ";",
            Keyword::Plus => "+",
            Keyword::Minus => "-",
            Keyword::Star => "*",
            Keyword::Slash => "/",
            Keyword::Equal => "=",
            Keyword::Bang => "!",
            Keyword::Less => "<",
            Keyword::Greater => ">",
        }
    }

    /// The keyword's name, used by the canonical token rendering.
    pub open spec fn title(self) -> Seq<char> {
        match self {
            Keyword::EqualEqual => "EqualEqual"@,
            Keyword::BangEqual => "BangEqual"@,
            Keyword::LessEqual => "LessEqual"@,
            Keyword::GreaterEqual => "GreaterEqual"@,
            Keyword::And => "And"@,
            Keyword::Class => "Class"@,
            Keyword::Else => "Else"@,
            Keyword::False => "False"@,
            Keyword::For => "For"@,
            Keyword::Fun => "Fun"@,
            Keyword::If => "If"@,
            Keyword::Nil => "Nil"@,
            Keyword::Or => "Or"@,
            Keyword::Print => "Print"@,
            Keyword::Return => "Return"@,
            Keyword::Super => "Super"@,
            Keyword::This => "This"@,
            Keyword::True => "True"@,
            Keyword::Var => "Var"@,
            Keyword::While => "While"@,
            Keyword::LeftParen => "LeftParen"@,
            Keyword::RightParen => "RightParen"@,
            Keyword::LeftBrace => "LeftBrace"@,
            Keyword::RightBrace => "RightBrace"@,
            Keyword::Comma => "Comma"@,
            Keyword::Dot => "Dot"@,
            Keyword::Semicolon => "Semicolon"@,
            Keyword::Plus => "Plus"@,
            Keyword::Minus => "Minus"@,
            Keyword::Star => "Star"@,
            Keyword::Slash => "Slash"@,
            Keyword::Equal => "Equal"@,
            Keyword::Bang => "Bang"@,
            Keyword::Less => "Less"@,
            Keyword::Greater => "Greater"@,
        }
    }

    /// The keyword's name as a string slice.
    pub fn name(&self) -> (r: &'static str)
        ensures
            r@ == self.title(),
    {
        match self {
            Keyword::EqualEqual => "EqualEqual",
            Keyword::BangEqual => "BangEqual",
            Keyword::LessEqual => "LessEqual",
            Keyword::GreaterEqual => "GreaterEqual",
            Keyword::And => "And",
            Keyword::Class => "Class",
            Keyword::Else => "Else",
            Keyword::False => "False",
            Keyword::For => "For",
            Keyword::Fun => "Fun",
            Keyword::If => "If",
            Keyword::Nil => "Nil",
            Keyword::Or => "Or",
            Keyword::Print => "Print",
            Keyword::Return => "Return",
            Keyword::Super => "Super",
            Keyword::This => "This",
            Keyword::True => "True",
            Keyword::Var => "Var",
            Keyword::While => "While",
            Keyword::LeftParen => "LeftParen",
            Keyword::RightParen => "RightParen",
            Keyword::LeftBrace => "LeftBrace",
            Keyword::RightBrace => "RightBrace",
            Keyword::Comma => "Comma",
            Keyword::Dot => "Dot",
            Keyword::Semicolon => "Semicolon",
            Keyword::Plus => "Plus",
            Keyword::Minus => "Minus",
            Keyword::Star => "Star",
            Keyword::Slash => "Slash",
            Keyword::Equal => "Equal",
            Keyword::Bang => "Bang",
            Keyword::Less => "Less",
            Keyword::Greater => "Greater",
        }
    }
}

/// The keyword whose spelling is exactly `s`, if any.
#[verifier::opaque]
pub open spec fn keyword_of(s: Seq<char>) -> Option<Keyword> {
    if s == "=="@ {
        Some(Keyword::EqualEqual)
    } else if s == "!="@ {
        Some(Keyword::BangEqual)
    } else if s == "<="@ {
        Some(Keyword::LessEqual)
    } else if s == ">="@ {
        Some(Keyword::GreaterEqual)
    } else if s == "and"@ {
        Some(Keyword::And)
    } else if s == "class"@ {
        Some(Keyword::Class)
    } else if s == "else"@ {
        Some(Keyword::Else)
    } else if s == "false"@ {
        Some(Keyword::False)
    } else if s == "for"@ {
        Some(Keyword::For)
    } else if s == "fun"@ {
        Some(Keyword::Fun)
    } else if s == "if"@ {
        Some(Keyword::If)
    } else if s == "nil"@ {
        Some(Keyword::Nil)
    } else if s == "or"@ {
        Some(Keyword::Or)
    } else if s == "print"@ {
        Some(Keyword::Print)
    } else if s == "return"@ {
        Some(Keyword::Return)
    } else if s == "super"@ {
        Some(Keyword::Super)
    } else if s == "this"@ {
        Some(Keyword::This)
    } else if s == "true"@ {
        Some(Keyword::True)
    } else if s == "var"@ {
        Some(Keyword::Var)
    } else if s == "while"@ {
        Some(Keyword::While)
    } else if s == "("@ {
        Some(Keyword::LeftParen)
    } else if s == ")"@ {
        Some(Keyword::RightParen)
    } else if s == "{"@ {
        Some(Keyword::LeftBrace)
    } else if s == "}"@ {
        Some(Keyword::RightBrace)
    } else if s == ","@ {
        Some(Keyword::Comma)
    } else if s == "."@ {
        Some(Keyword::Dot)
    } else if s == ";"@ {
        Some(Keyword::Semicolon)
    } else if s == "+"@ {
        Some(Keyword::Plus)
    } else if s == "-"@ {
        Some(Keyword::Minus)
    } else if s == "*"@ {
        Some(Keyword::Star)
    } else if s == "/"@ {
        Some(Keyword::Slash)
    } else if s == "="@ {
        Some(Keyword::Equal)
    } else if s == "!"@ {
        Some(Keyword::Bang)
    } else if s == "<"@ {
        Some(Keyword::Less)
    } else if s == ">"@ {
        Some(Keyword::Greater)
    } else {
        None
    }
}

/// Decides [`keyword_of`] on the characters of `v`.
pub fn keyword_from_chars(v: &Vec<char>) -> (r: Option<Keyword>)
    ensures
        r == keyword_of(v@),
{
    proof {
        reveal(keyword_of);
    }
    if chars_eq_str(v, "==") {
        Some(Keyword::EqualEqual)
    } else if chars_eq_str(v, "!=") {
        Some(Keyword::BangEqual)
    } else if chars_eq_str(v, "<=") {
        Some(Keyword::LessEqual)
    } else if chars_eq_str(v, ">=") {
        Some(Keyword::GreaterEqual)
    } else if chars_eq_str(v, "and") {
        Some(Keyword::And)
    } else if chars_eq_str(v, "class") {
        Some(Keyword::Class)
    } else if chars_eq_str(v, "else") {
        Some(Keyword::Else)
    } else if chars_eq_str(v, "false") {
        Some(Keyword::False)
    } else if chars_eq_str(v, "for") {
        Some(Keyword::For)
    } else if chars_eq_str(v, "fun") {
        Some(Keyword::Fun)
    } else if chars_eq_str(v, "if") {
        Some(Keyword::If)
    } else if chars_eq_str(v, "nil") {
        Some(Keyword::Nil)
    } else if chars_eq_str(v, "or") {
        Some(Keyword::Or)
    } else if chars_eq_str(v, "print") {
        Some(Keyword::Print)
    } else if chars_eq_str(v, "return") {
        Some(Keyword::Return)
    } else if chars_eq_str(v, "super") {
        Some(Keyword::Super)
    } else if chars_eq_str(v, "this") {
        Some(Keyword::This)
    } else if chars_eq_str(v, "true") {
        Some(Keyword::True)
    } else if chars_eq_str(v, "var") {
        Some(Keyword::Var)
    } else if chars_eq_str(v, "while") {
        Some(Keyword::While)
    } else if chars_eq_str(v, "(") {
        Some(Keyword::LeftParen)
    } else if chars_eq_str(v, ")") {
        Some(Keyword::RightParen)
    } else if chars_eq_str(v, "{") {
        Some(Keyword::LeftBrace)
    } else if chars_eq_str(v, "}") {
        Some(Keyword::RightBrace)
    } else if chars_eq_str(v, ",") {
        Some(Keyword::Comma)
    } else if chars_eq_str(v, ".") {
        Some(Keyword::Dot)
    } else if chars_eq_str(v, ";") {
        Some(Keyword::Semicolon)
    } else if chars_eq_str(v, "+") {
        Some(Keyword::Plus)
    } else if chars_eq_str(v, "-") {
        Some(Keyword::Minus)
    } else if chars_eq_str(v, "*") {
        Some(Keyword::Star)
    } else if chars_eq_str(v, "/") {
        Some(Keyword::Slash)
    } else if chars_eq_str(v, "=") {
        Some(Keyword::Equal)
    } else if chars_eq_str(v, "!") {
        Some(Keyword::Bang)
    } else if chars_eq_str(v, "<") {
        Some(Keyword::Less)
    } else if chars_eq_str(v, ">") {
        Some(Keyword::Greater)
    } else {
        None
    }
}

/// The first keyword of the table whose spelling begins at `pos`, with
/// the length of that spelling; multi-character operators come first,
/// so `==` is never read as two `=`.
#[verifier::opaque]
pub open spec fn keyword_prefix(chars: Seq<char>, pos: int) -> Option<(Keyword, int)> {
    if prefix_at(chars, pos, "=="@) {
        Some((Keyword::EqualEqual, 2))
    } else if prefix_at(chars, pos, "!="@) {
        Some((Keyword::BangEqual, 2))
    } else if prefix_at(chars, pos, "<="@) {
        Some((Keyword::LessEqual, 2))
    } else if prefix_at(chars, pos, ">="@) {
        Some((Keyword::GreaterEqual, 2))
    } else if prefix_at(chars, pos, "and"@) {
        Some((Keyword::And, 3))
    } else if prefix_at(chars, pos, "class"@) {
        Some((Keyword::Class, 5))
    } else if prefix_at(chars, pos, "else"@) {
        Some((Keyword::Else, 4))
    } else if prefix_at(chars, pos, "false"@) {
        Some((Keyword::False, 5))
    } else if prefix_at(chars, pos, "for"@) {
        Some((Keyword::For, 3))
    } else if prefix_at(chars, pos, "fun"@) {
        Some((Keyword::Fun, 3))
    } else if prefix_at(chars, pos, "if"@) {
        Some((Keyword::If, 2))
    } else if prefix_at(chars, pos, "nil"@) {
        Some((Keyword::Nil, 3))
    } else if prefix_at(chars, pos, "or"@) {
        Some((Keyword::Or, 2))
    } else if prefix_at(chars, pos, "print"@) {
        Some((Keyword::Print, 5))
    } else if prefix_at(chars, pos, "return"@) {
        Some((Keyword::Return, 6))
    } else if prefix_at(chars, pos, "super"@) {
        Some((Keyword::Super, 5))
    } else if prefix_at(chars, pos, "this"@) {
        Some((Keyword::This, 4))
    } else if prefix_at(chars, pos, "true"@) {
        Some((Keyword::True, 4))
    } else if prefix_at(chars, pos, "var"@) {
        Some((Keyword::Var, 3))
    } else if prefix_at(chars, pos, "while"@) {
        Some((Keyword::While, 5))
    } else if prefix_at(chars, pos, "("@) {
        Some((Keyword::LeftParen, 1))
    } else if prefix_at(chars, pos, ")"@) {
        Some((Keyword::RightParen, 1))
    } else if prefix_at(chars, pos, "{"@) {
        Some((Keyword::LeftBrace, 1))
    } else if prefix_at(chars, pos, "}"@) {
        Some((Keyword::RightBrace, 1))
    } else if prefix_at(chars, pos, ","@) {
        Some((Keyword::Comma, 1))
    } else if prefix_at(chars, pos, "."@) {
        Some((Keyword::Dot, 1))
    } else if prefix_at(chars, pos, ";"@) {
        Some((Keyword::Semicolon, 1))
    } else if prefix_at(chars, pos, "+"@) {
        Some((Keyword::Plus, 1))
    } else if prefix_at(chars, pos, "-"@) {
        Some((Keyword::Minus, 1))
    } else if prefix_at(chars, pos, "*"@) {
        Some((Keyword::Star, 1))
    } else if prefix_at(chars, pos, "/"@) {
        Some((Keyword::Slash, 1))
    } else if prefix_at(chars, pos, "="@) {
        Some((Keyword::Equal, 1))
    } else if prefix_at(chars, pos, "!"@) {
        Some((Keyword::Bang, 1))
    } else if prefix_at(chars, pos, "<"@) {
        Some((Keyword::Less, 1))
    } else if prefix_at(chars, pos, ">"@) {
        Some((Keyword::Greater, 1))
    } else {
        None
    }
}

/// Decides [`keyword_prefix`] on the characters of `chars` at `pos`.
pub fn keyword_prefix_at(chars: &Vec<char>, pos: usize) -> (r: Option<(Keyword, usize)>)
    requires
        pos <= chars@.len(),
    ensures
        match r {
            Some((k, l)) => keyword_prefix(chars@, pos as int) == Some((k, l as int)),
            None => keyword_prefix(chars@, pos as int) is None,
        },
{
    proof {
        reveal(keyword_prefix);
    }
    if starts_with_at(chars, pos, "==") {
        Some((Keyword::EqualEqual, 2))
    } else if starts_with_at(chars, pos, "!=") {
        Some((Keyword::BangEqual, 2))
    } else if starts_with_at(chars, pos, "<=") {
        Some((Keyword::LessEqual, 2))
    } else if starts_with_at(chars, pos, ">=") {
        Some((Keyword::GreaterEqual, 2))
    } else if starts_with_at(chars, pos, "and") {
        Some((Keyword::And, 3))
    } else if starts_with_at(chars, pos, "class") {
        Some((Keyword::Class, 5))
    } else if starts_with_at(chars, pos, "else") {
        Some((Keyword::Else, 4))
    } else if starts_with_at(chars, pos, "false") {
        Some((Keyword::False, 5))
    } else if starts_with_at(chars, pos, "for") {
        Some((Keyword::For, 3))
    } else if starts_with_at(chars, pos, "fun") {
        Some((Keyword::Fun, 3))
    } else if starts_with_at(chars, pos, "if") {
        Some((Keyword::If, 2))
    } else if starts_with_at(chars, pos, "nil") {
        Some((Keyword::Nil, 3))
    } else if starts_with_at(chars, pos, "or") {
        Some((Keyword::Or, 2))
    } else if starts_with_at(chars, pos, "print") {
        Some((Keyword::Print, 5))
    } else if starts_with_at(chars, pos, "return") {
        Some((Keyword::Return, 6))
    } else if starts_with_at(chars, pos, "super") {
        Some((Keyword::Super, 5))
    } else if starts_with_at(chars, pos, "this") {
        Some((Keyword::This, 4))
    } else if starts_with_at(chars, pos, "true") {
        Some((Keyword::True, 4))
    } else if starts_with_at(chars, pos, "var") {
        Some((Keyword::Var, 3))
    } else if starts_with_at(chars, pos, "while") {
        Some((Keyword::While, 5))
    } else if starts_with_at(chars, pos, "(") {
        Some((Keyword::LeftParen, 1))
    } else if starts_with_at(chars, pos, ")") {
        Some((Keyword::RightParen, 1))
    } else if starts_with_at(chars, pos, "{") {
        Some((Keyword::LeftBrace, 1))
    } else if starts_with_at(chars, pos, "}") {
        Some((Keyword::RightBrace, 1))
    } else if starts_with_at(chars, pos, ",") {
        Some((Keyword::Comma, 1))
    } else if starts_with_at(chars, pos, ".") {
        Some((Keyword::Dot, 1))
    } else if starts_with_at(chars, pos, ";") {
        Some((Keyword::Semicolon, 1))
    } else if starts_with_at(chars, pos, "+") {
        Some((Keyword::Plus, 1))
    } else if starts_with_at(chars, pos, "-") {
        Some((Keyword::Minus, 1))
    } else if starts_with_at(chars, pos, "*") {
        Some((Keyword::Star, 1))
    } else if starts_with_at(chars, pos, "/") {
        Some((Keyword::Slash, 1))
    } else if starts_with_at(chars, pos, "=") {
        Some((Keyword::Equal, 1))
    } else if starts_with_at(chars, pos, "!") {
        Some((Keyword::Bang, 1))
    } else if starts_with_at(chars, pos, "<") {
        Some((Keyword::Less, 1))
    } else if starts_with_at(chars, pos, ">") {
        Some((Keyword::Greater, 1))
    } else {
        None
    }
}


// ---------------------------------------------------------------------------
// Tokens and lexical errors
// ---------------------------------------------------------------------------
/// A classified, position-tagged lexical unit.
#[derive(Debug)]
pub enum Token {
    Eof,
    Keyword(Span, Keyword),
    Literal(Span, String, Value),
    Identifier(Span, String),
}

/// The mathematical model of a [`Token`].
#[verifier::ext_equal]
pub enum TokenModel {
    Eof,
    Keyword(Span, Keyword),
    Literal(Span, Seq<char>, ValueModel),
    Identifier(Span, Seq<char>),
}

impl View for Token {
    type V = TokenModel;

    open spec fn view(&self) -> TokenModel {
        match self {
            Token::Eof => TokenModel::Eof,
            Token::Keyword(sp, k) => TokenModel::Keyword(*sp, *k),
            Token::Literal(sp, lexeme, v) => TokenModel::Literal(*sp, lexeme@, v@),
            Token::Identifier(sp, name) => TokenModel::Identifier(*sp, name@),
        }
    }
}

impl Clone for Token {
    fn clone(&self) -> (r: Self)
        ensures
            r == *self,
    {
        match self {
            Token::Eof => Token::Eof,
            Token::Keyword(sp, k) => Token::Keyword(*sp, *k),
            Token::Literal(sp, lexeme, v) => Token::Literal(*sp, lexeme.clone(), v.duplicate()),
            Token::Identifier(sp, name) => Token::Identifier(*sp, name.clone()),
        }
    }
}

impl Token {
    /// The source range of the token; end of input carries the zero span.
    pub fn span(&self) -> (s: Span)
        ensures
            s == self.spec_span(),
    {
        match self {
            Token::Eof => Span::zero(),
            Token::Keyword(sp, _) => *sp,
            Token::Literal(sp, _, _) => *sp,
            Token::Identifier(sp, _) => *sp,
        }
    }

    pub open spec fn spec_span(self) -> Span {
        match self {
            Token::Eof => Span { line: 0, start: 0, end: 0 },
            Token::Keyword(sp, _) => sp,
            Token::Literal(sp, _, _) => sp,
            Token::Identifier(sp, _) => sp,
        }
    }

    /// Every number payload a token carries is canonical.
    pub open spec fn wf(self) -> bool {
        match self@ {
            TokenModel::Literal(_, _, v) => v.wf(),
            _ => true,
        }
    }
}

/// A lexical fault; recorded and reported, never fatal to scanning.
#[derive(Debug, Clone, Copy, PartialEq, Eq, Structural)]
pub enum TokenizerError {
    /// A character no token can start with.
    UnexpectedCharacter(Span, char),
    /// A string literal with no closing quote before end of input.
    UnterminatedString(Span),
}

// ---------------------------------------------------------------------------
// The scanning model
// ---------------------------------------------------------------------------
/// The first position at or past `pos` holding a newline, or the length.
pub open spec fn find_line_end(chars: Seq<char>, pos: nat) -> nat
    decreases chars.len() - pos,
{
    if pos >= chars.len() {
        chars.len()
    } else if chars[pos as int] == '\n' {
        pos
    } else {
        find_line_end(chars, pos + 1)
    }
}

/// The first position at or past `pos` holding a double quote, or the
/// length.
pub open spec fn find_quote(chars: Seq<char>, pos: nat) -> nat
    decreases chars.len() - pos,
{
    if pos >= chars.len() {
        chars.len()
    } else if chars[pos as int] == '"' {
        pos
    } else {
        find_quote(chars, pos + 1)
    }
}

/// The first position at or past `pos` holding no ASCII digit.
pub open spec fn digits_end(chars: Seq<char>, pos: nat) -> nat
    decreases chars.len() - pos,
{
    if pos >= chars.len() {
        chars.len()
    } else if !is_digit_ch(chars[pos as int]) {
        pos
    } else {
        digits_end(chars, pos + 1)
    }
}

/// The first position at or past `pos` where an identifier ends.
pub open spec fn ident_end(chars: Seq<char>, pos: nat) -> nat
    decreases chars.len() - pos,
{
    if pos >= chars.len() {
        chars.len()
    } else if !(alnum_char(chars[pos as int]) || chars[pos as int] == '_') {
        pos
    } else {
        ident_end(chars, pos + 1)
    }
}

/// How many newline characters `chars[a..b)` holds.
pub open spec fn count_lines(chars: Seq<char>, a: nat, b: nat) -> nat
    decreases b - a,
{
    if b <= a || b > chars.len() {
        0
    } else {
        count_lines(chars, a, (b - 1) as nat) + (if chars[b - 1] == '\n' {
            1nat
        } else {
            0nat
        })
    }
}

pub proof fn lemma_find_line_end_bounds(chars: Seq<char>, pos: nat)
    ensures
        pos <= chars.len() ==> pos <= find_line_end(chars, pos) <= chars.len(),
        pos >= chars.len() ==> find_line_end(chars, pos) == chars.len(),
    decreases chars.len() - pos,
{
    if pos < chars.len() && chars[pos as int] != '\n' {
        lemma_find_line_end_bounds(chars, pos + 1);
    }
}

pub proof fn lemma_find_quote_bounds(chars: Seq<char>, pos: nat)
    ensures
        pos <= chars.len() ==> pos <= find_quote(chars, pos) <= chars.len(),
        pos >= chars.len() ==> find_quote(chars, pos) == chars.len(),
    decreases chars.len() - pos,
{
    if pos < chars.len() && chars[pos as int] != '"' {
        lemma_find_quote_bounds(chars, pos + 1);
    }
}

pub proof fn lemma_digits_end_bounds(chars: Seq<char>, pos: nat)
    ensures
        pos <= chars.len() ==> pos <= digits_end(chars, pos) <= chars.len(),
        pos >= chars.len() ==> digits_end(chars, pos) == chars.len(),
    decreases chars.len() - pos,
{
    if pos < chars.len() && is_digit_ch(chars[pos as int]) {
        lemma_digits_end_bounds(chars, pos + 1);
    }
}

pub proof fn lemma_ident_end_bounds(chars: Seq<char>, pos: nat)
    ensures
        pos <= chars.len() ==> pos <= ident_end(chars, pos) <= chars.len(),
        pos >= chars.len() ==> ident_end(chars, pos) == chars.len(),
    decreases chars.len() - pos,
{
    if pos < chars.len() && (alnum_char(chars[pos as int]) || chars[pos as int] == '_') {
        lemma_ident_end_bounds(chars, pos + 1);
    }
}

pub proof fn lemma_count_lines_bound(chars: Seq<char>, a: nat, b: nat)
    ensures
        a <= b ==> count_lines(chars, a, b) <= b - a,
        b < a ==> count_lines(chars, a, b) == 0,
    decreases b - a,
{
    if !(b <= a || b > chars.len()) {
        lemma_count_lines_bound(chars, a, (b - 1) as nat);
    }
}

/// One scanning step: the token produced and the state after it.
pub struct ScanStep {
    pub token: TokenModel,
    pub pos: nat,
    pub line: nat,
}

/// What the scanner does at a position that holds no token: where it
/// continues, and which lexical error the position contributes. Nothing
/// when a token or the end of the text begins here.
pub open spec fn skip_step(chars: Seq<char>, pos: nat, line: nat) -> Option<
    ((nat, nat), Seq<TokenizerError>),
> {
    if pos >= chars.len() {
        None
    } else if pos + 1 < chars.len() && chars[pos as int] == '/' && chars[pos + 1 as int] == '/' {
        let sk: nat = if pos < find_line_end(chars, pos) <= chars.len() {
            find_line_end(chars, pos)
        } else {
            pos + 1
        };
        Some(((sk, line), Seq::empty()))
    } else if chars[pos as int] == '"' {
        if find_quote(chars, pos + 1) >= chars.len() {
            let nline = line + count_lines(chars, pos + 1, chars.len());
            Some(
                (
                    (chars.len(), nline),
                    seq![
                        TokenizerError::UnterminatedString(
                            Span {
                                line: nline as usize,
                                start: pos as usize,
                                end: chars.len() as usize,
                            },
                        ),
                    ],
                ),
            )
        } else {
            None
        }
    } else if is_digit_ch(chars[pos as int]) {
        None
    } else if prefix_at(chars, pos as int, "nil"@) {
        None
    } else if prefix_at(chars, pos as int, "true"@) {
        None
    } else if prefix_at(chars, pos as int, "false"@) {
        None
    } else if alpha_char(chars[pos as int]) || chars[pos as int] == '_' {
        None
    } else if keyword_prefix(chars, pos as int) is Some {
        None
    } else if ws_char(chars[pos as int]) {
        let nl: nat = if chars[pos as int] == '\n' {
            line + 1
        } else {
            line
        };
        Some(((pos + 1, nl), Seq::empty()))
    } else {
        Some(
            (
                (pos + 1, line),
                seq![
                    TokenizerError::UnexpectedCharacter(
                        Span {
                            line: line as usize,
                            start: (pos + 1) as usize,
                            end: (pos + 1) as usize,
                        },
                        chars[pos as int],
                    ),
                ],
            ),
        )
    }
}

/// The lexical errors one scanning step records on its way to the next
/// token.
pub open spec fn spec_next_errs(chars: Seq<char>, pos: nat, line: nat) -> Seq<TokenizerError>
    decreases chars.len() - pos,
{
    match skip_step(chars, pos, line) {
        Some(step) => step.1 + spec_next_errs(chars, step.0.0, step.0.1),
        None => Seq::empty(),
    }
}

/// The token beginning at a position where nothing is skipped: end of
/// input, a string or number literal, a constant, an identifier or
/// keyword, or a symbolic keyword.
pub open spec fn token_step(chars: Seq<char>, pos: nat, line: nat) -> ScanStep {
    if pos >= chars.len() {
        ScanStep { token: TokenModel::Eof, pos, line }
    } else if chars[pos as int] == '"' {
        let q = find_quote(chars, pos + 1);
        let nline = line + count_lines(chars, pos + 1, q);
        ScanStep {
            token: TokenModel::Literal(
                Span { line: nline as usize, start: pos as usize, end: (q + 1) as usize },
                seq!['"'] + chars.subrange((pos + 1) as int, q as int) + seq!['"'],
                ValueModel::Str(chars.subrange((pos + 1) as int, q as int)),
            ),
            pos: q + 1,
            line: nline,
        }
    } else if is_digit_ch(chars[pos as int]) {
        let ie = digits_end(chars, pos);
        if ie < chars.len() && chars[ie as int] == '.' && ie + 1 < chars.len() && is_digit_ch(
            chars[ie + 1 as int],
        ) {
            let fe = digits_end(chars, ie + 1);
            ScanStep {
                token: TokenModel::Literal(
                    Span { line: line as usize, start: pos as usize, end: fe as usize },
                    chars.subrange(pos as int, fe as int),
                    ValueModel::Number(
                        lit_decimal(
                            chars.subrange(pos as int, ie as int),
                            chars.subrange((ie + 1) as int, fe as int),
                        ),
                    ),
                ),
                pos: fe,
                line,
            }
        } else {
            ScanStep {
                token: TokenModel::Literal(
                    Span { line: line as usize, start: pos as usize, end: ie as usize },
                    chars.subrange(pos as int, ie as int),
                    ValueModel::Number(
                        lit_decimal(chars.subrange(pos as int, ie as int), Seq::empty()),
                    ),
                ),
                pos: ie,
                line,
            }
        }
    } else if prefix_at(chars, pos as int, "nil"@) {
        ScanStep {
            token: TokenModel::Literal(
                Span { line: line as usize, start: pos as usize, end: (pos + 3) as usize },
                "nil"@,
                ValueModel::Nil,
            ),
            pos: pos + 3,
            line,
        }
    } else if prefix_at(chars, pos as int, "true"@) {
        ScanStep {
            token: TokenModel::Literal(
                Span { line: line as usize, start: pos as usize, end: (pos + 4) as usize },
                "true"@,
                ValueModel::Bool(true),
            ),
            pos: pos + 4,
            line,
        }
    } else if prefix_at(chars, pos as int, "false"@) {
        ScanStep {
            token: TokenModel::Literal(
                Span { line: line as usize, start: pos as usize, end: (pos + 5) as usize },
                "false"@,
                ValueModel::Bool(false),
            ),
            pos: pos + 5,
            line,
        }
    } else if alpha_char(chars[pos as int]) || chars[pos as int] == '_' {
        let e = ident_end(chars, pos);
        let text = chars.subrange(pos as int, e as int);
        let sp = Span { line: line as usize, start: pos as usize, end: e as usize };
        match keyword_of(text) {
            Some(k) => ScanStep { token: TokenModel::Keyword(sp, k), pos: e, line },
            None => ScanStep { token: TokenModel::Identifier(sp, text), pos: e, line },
        }
    } else if keyword_prefix(chars, pos as int) is Some {
        let kl = keyword_prefix(chars, pos as int)->0;
        ScanStep {
            token: TokenModel::Keyword(
                Span { line: line as usize, start: pos as usize, end: (pos + kl.1) as usize },
                kl.0,
            ),
            pos: (pos + kl.1) as nat,
            line,
        }
    } else {
        ScanStep { token: TokenModel::Eof, pos, line }
    }
}

/// The scanner: from a position and line, the next token, skipping
/// comments, whitespace and faulty input on the way. The skipped part
/// is classified by [`skip_step`]; the token itself by [`token_step`].
pub open spec fn spec_next(chars: Seq<char>, pos: nat, line: nat) -> ScanStep
    decreases chars.len() - pos,
{
    match skip_step(chars, pos, line) {
        Some(step) => spec_next(chars, step.0.0, step.0.1),
        None => token_step(chars, pos, line),
    }
}

/// The length of every keyword spelling and constant, for proofs that
/// track scanning positions.
pub proof fn reveal_spellings()
    ensures
        "=="@.len() == 2,
        "!="@.len() == 2,
        "<="@.len() == 2,
        ">="@.len() == 2,
        "and"@.len() == 3,
        "class"@.len() == 5,
        "else"@.len() == 4,
        "false"@.len() == 5,
        "for"@.len() == 3,
        "fun"@.len() == 3,
        "if"@.len() == 2,
        "nil"@.len() == 3,
        "or"@.len() == 2,
        "print"@.len() == 5,
        "return"@.len() == 6,
        "super"@.len() == 5,
        "this"@.len() == 4,
        "true"@.len() == 4,
        "var"@.len() == 3,
        "while"@.len() == 5,
        "("@.len() == 1,
        ")"@.len() == 1,
        "{"@.len() == 1,
        "}"@.len() == 1,
        ","@.len() == 1,
        "."@.len() == 1,
        ";"@.len() == 1,
        "+"@.len() == 1,
        "-"@.len() == 1,
        "*"@.len() == 1,
        "/"@.len() == 1,
        "="@.len() == 1,
        "!"@.len() == 1,
        "<"@.len() == 1,
        ">"@.len() == 1,
{
    reveal_strlit("==");
    reveal_strlit("!=");
    reveal_strlit("<=");
    reveal_strlit(">=");
    reveal_strlit("and");
    reveal_strlit("class");
    reveal_strlit("else");
    reveal_strlit("false");
    reveal_strlit("for");
    reveal_strlit("fun");
    reveal_strlit("if");
    reveal_strlit("nil");
    reveal_strlit("or");
    reveal_strlit("print");
    reveal_strlit("return");
    reveal_strlit("super");
    reveal_strlit("this");
    reveal_strlit("true");
    reveal_strlit("var");
    reveal_strlit("while");
    reveal_strlit("(");
    reveal_strlit(")");
    reveal_strlit("{");
    reveal_strlit("}");
    reveal_strlit(",");
    reveal_strlit(".");
    reveal_strlit(";");
    reveal_strlit("+");
    reveal_strlit("-");
    reveal_strlit("*");
    reveal_strlit("/");
    reveal_strlit("=");
    reveal_strlit("!");
    reveal_strlit("<");
    reveal_strlit(">");
}

/// Pushing onto the left part of a join is joining a one-element run.
proof fn lemma_push_front_concat<T>(a: Seq<T>, x: T, b: Seq<T>)
    ensures
        a.push(x) + b == a + (seq![x] + b),
{
    assert(a.push(x) + b =~= a + (seq![x] + b));
}

/// The bounds of one scanning step: it never moves backwards, stays in
/// the text, and stands still only to say the input is over.
pub proof fn lemma_spec_next_bounds(chars: Seq<char>, pos: nat, line: nat)
    requires
        pos <= chars.len(),
    ensures
        spec_next(chars, pos, line).pos <= chars.len(),
        spec_next(chars, pos, line).token is Eof ==> spec_next(chars, pos, line).pos
            == chars.len(),
        !(spec_next(chars, pos, line).token is Eof) ==> spec_next(chars, pos, line).pos > pos,
    decreases chars.len() - pos,
{
    reveal_spellings();
    reveal(keyword_prefix);
    match skip_step(chars, pos, line) {
        Some(step) => {
            lemma_spec_next_bounds(chars, step.0.0, step.0.1);
        },
        None => {
            if pos < chars.len() {
                if chars[pos as int] == '"' {
                    lemma_find_quote_bounds(chars, pos + 1);
                } else if is_digit_ch(chars[pos as int]) {
                    lemma_digits_end_bounds(chars, pos + 1);
                    let ie = digits_end(chars, pos);
                    if ie < chars.len() && chars[ie as int] == '.' && ie + 1 < chars.len()
                        && is_digit_ch(chars[ie + 1 as int]) {
                        lemma_digits_end_bounds(chars, ie + 2);
                    }
                } else if prefix_at(chars, pos as int, "nil"@) {
                } else if prefix_at(chars, pos as int, "true"@) {
                } else if prefix_at(chars, pos as int, "false"@) {
                } else if alpha_char(chars[pos as int]) || chars[pos as int] == '_' {
                    lemma_ident_end_bounds(chars, pos + 1);
                }
            }
        },
    }
}

/// All tokens from a state on, ending with the end-of-input token.
pub open spec fn spec_tokens(chars: Seq<char>, pos: nat, line: nat) -> Seq<TokenModel>
    decreases chars.len() - pos,
    via spec_tokens_dec
{
    let st = spec_next(chars, pos, line);
    if st.token is Eof {
        seq![TokenModel::Eof]
    } else {
        seq![st.token] + spec_tokens(chars, st.pos, st.line)
    }
}

#[via_fn]
proof fn spec_tokens_dec(chars: Seq<char>, pos: nat, line: nat) {
    if pos <= chars.len() {
        lemma_spec_next_bounds(chars, pos, line);
    }
}

/// All lexical errors from a state on.
pub open spec fn spec_errors(chars: Seq<char>, pos: nat, line: nat) -> Seq<TokenizerError>
    decreases chars.len() - pos,
    via spec_errors_dec
{
    let st = spec_next(chars, pos, line);
    if st.token is Eof {
        spec_next_errs(chars, pos, line)
    } else {
        spec_next_errs(chars, pos, line) + spec_errors(chars, st.pos, st.line)
    }
}

#[via_fn]
proof fn spec_errors_dec(chars: Seq<char>, pos: nat, line: nat) {
    if pos <= chars.len() {
        lemma_spec_next_bounds(chars, pos, line);
    }
}

/// The token stream of a whole source text.
pub open spec fn source_tokens(chars: Seq<char>) -> Seq<TokenModel> {
    spec_tokens(chars, 0, 1)
}

/// The lexical errors of a whole source text.
pub open spec fn source_errors(chars: Seq<char>) -> Seq<TokenizerError> {
    spec_errors(chars, 0, 1)
}


// ---------------------------------------------------------------------------
// The lexer
// ---------------------------------------------------------------------------
/// The lexer: walks the characters of one source text, producing the
/// tokens of [`source_tokens`] one at a time with one-token lookahead,
/// and recording the errors of [`source_errors`] as it passes them.
pub struct Tokenizer {
    /// The decoded characters of the source text.
    pub chars: Vec<char>,
    /// The position scanning has reached.
    pub pos: usize,
    /// The line the position lies on, counted from one.
    pub line: usize,
    /// Whether the end-of-input token has been handed out.
    pub emitted_eof: bool,
    /// The lexical errors recorded so far.
    pub errors: Vec<TokenizerError>,
    /// The memoized lookahead token.
    pub peeked: Option<Token>,
}


/// Every character of a digit run is a digit.
pub proof fn lemma_digits_end_all(chars: Seq<char>, pos: nat)
    ensures
        forall|j: int| pos <= j < digits_end(chars, pos) ==> is_digit_ch(#[trigger] chars[j]),
    decreases chars.len() - pos,
{
    if pos < chars.len() && is_digit_ch(chars[pos as int]) {
        lemma_digits_end_all(chars, pos + 1);
    }
}

/// What one successful scan guarantees: the token and the state after
/// it are exactly what [`spec_next`] says from the state before it.
pub open spec fn scanned(pre: Tokenizer, post: Tokenizer, t: Token) -> bool {
    let st = spec_next(pre.chars@, pre.pos as nat, pre.line as nat);
    &&& post.wf()
    &&& post.chars@ == pre.chars@
    &&& t@ == st.token
    &&& t.wf()
    &&& post.pos == st.pos
    &&& post.line == st.line
    &&& post.errors@ == pre.errors@ + spec_next_errs(pre.chars@, pre.pos as nat, pre.line as nat)
    &&& post.emitted_eof == (st.token is Eof)
    &&& post.peeked is None
}

impl Tokenizer {
    /// The lexer's invariant: the position stays inside the text and the
    /// line counter never outruns it.
    pub open spec fn wf(self) -> bool {
        &&& self.pos <= self.chars@.len()
        &&& self.chars@.len() < usize::MAX
        &&& 1 <= self.line
        &&& self.line <= 1 + self.pos
    }

    /// A lexer at the start of `source`.
    pub fn new(source: &str) -> (t: Tokenizer)
        requires
            source@.len() < usize::MAX,
        ensures
            t.wf(),
            t.chars@ == source@,
            t.pos == 0,
            t.line == 1,
            t.emitted_eof == false,
            t.errors@ == Seq::<TokenizerError>::empty(),
            t.peeked is None,
    {
        Tokenizer {
            chars: crate::strutil::str_chars(source),
            pos: 0,
            line: 1,
            emitted_eof: false,
            errors: Vec::new(),
            peeked: None,
        }
    }

    /// Whether any lexical error has been recorded so far.
    pub fn had_errors(&self) -> (r: bool)
        ensures
            r == (self.errors@.len() > 0),
    {
        self.errors.len() > 0
    }

    /// The lexical errors recorded so far, oldest first.
    pub fn iter_errors(&self) -> (r: &Vec<TokenizerError>)
        ensures
            r@ == self.errors@,
    {
        &self.errors
    }

    /// The next token: the memoized one if lookahead happened, the next
    /// scanned one otherwise, and nothing once the end-of-input token has
    /// left through here.
    pub fn next(&mut self) -> (r: Option<Token>)
        requires
            old(self).wf(),
        ensures
            final(self).wf(),
            final(self).chars@ == old(self).chars@,
            old(self).peeked is Some ==> r == old(self).peeked && final(self).peeked is None
                && final(self).pos == old(self).pos && final(self).line == old(self).line && final(self).errors@ == old(self).errors@ && final(self).emitted_eof == old(self).emitted_eof,
            old(self).peeked is None && old(self).emitted_eof ==> r is None && final(self).pos
                == old(self).pos && final(self).line == old(self).line && final(self).errors@
                == old(self).errors@ && final(self).emitted_eof && final(self).peeked is None,
            old(self).peeked is None && !old(self).emitted_eof ==> (r matches Some(t)
                && scanned(*old(self), *final(self), t)),
    {
        let taken = self.peeked.take();
        if taken.is_some() {
            return taken;
        }
        if self.emitted_eof {
            return None;
        }
        let t = self.scan();
        Some(t)
    }

    /// Scans forward from the current position to the next token,
    /// recording errors and skipping comments and whitespace on the way.
    #[verifier::rlimit(100)]
    fn scan(&mut self) -> (t: Token)
        requires
            old(self).wf(),
            !old(self).emitted_eof,
            old(self).peeked is None,
        ensures
            scanned(*old(self), *final(self), t),
        decreases old(self).chars@.len() - old(self).pos, 2int,
    {
        let ghost chars = self.chars@;
        let ghost pos0 = self.pos as nat;
        let ghost line0 = self.line as nat;
        let ghost st = spec_next(chars, pos0, line0);
        let ghost ste = spec_next_errs(chars, pos0, line0);
        proof {
            reveal_spellings();
            lemma_spec_next_bounds(chars, pos0, line0);
        }

        let clen = self.chars.len();
        if self.pos >= clen {
            self.emitted_eof = true;
            proof {
                assert(old(self).errors@ + ste =~= old(self).errors@);
            }
            return Token::Eof;
        }
        let c = self.chars[self.pos];

        // A line comment: skip to the end of the line and go on scanning.
        if self.pos + 1 < clen && c == '/' && self.chars[self.pos + 1] == '/' {
            while self.pos < clen && self.chars[self.pos] != '\n'
                invariant
                    clen == chars.len(),
                    self.chars@ == chars,
                    pos0 <= self.pos <= clen,
                    self.line == line0,
                    self.errors@ == old(self).errors@,
                    self.emitted_eof == false,
                    self.peeked is None,
                    self.line <= 1 + pos0,
                    find_line_end(chars, pos0) == find_line_end(chars, self.pos as nat),
                decreases clen - self.pos,
            {
                self.pos = self.pos + 1;
            }
            proof {
                assert(self.pos as nat == find_line_end(chars, pos0));
                lemma_find_line_end_bounds(chars, pos0 + 1);
                assert(find_line_end(chars, pos0) == find_line_end(chars, pos0 + 1));
            }
            let ghost midpos = self.pos as nat;
            let r = self.scan();
            proof {
                assert(old(self).errors@ + ste =~= old(self).errors@ + spec_next_errs(
                    chars,
                    midpos,
                    line0,
                ));
            }
            return r;
        }

        // A string literal.
        if c == '"' {
            return self.scan_string();
        }

        // A number literal.
        if crate::strutil::is_ascii_digit_char(c) {
            return self.scan_number();
        }

        // The constants, matched as prefixes before identifiers.
        if crate::strutil::starts_with_at(&self.chars, self.pos, "nil") {
            let sp = Span { line: self.line, start: self.pos, end: self.pos + 3 };
            self.pos = self.pos + 3;
            proof {
                assert(old(self).errors@ + ste =~= old(self).errors@);
            }
            return Token::Literal(
                sp,
                <String as vstd::string::StringExecFns>::from_str("nil"),
                Value::Nil,
            );
        }
        if crate::strutil::starts_with_at(&self.chars, self.pos, "true") {
            let sp = Span { line: self.line, start: self.pos, end: self.pos + 4 };
            self.pos = self.pos + 4;
            proof {
                assert(old(self).errors@ + ste =~= old(self).errors@);
            }
            return Token::Literal(
                sp,
                <String as vstd::string::StringExecFns>::from_str("true"),
                Value::Bool(true),
            );
        }
        if crate::strutil::starts_with_at(&self.chars, self.pos, "false") {
            let sp = Span { line: self.line, start: self.pos, end: self.pos + 5 };
            self.pos = self.pos + 5;
            proof {
                assert(old(self).errors@ + ste =~= old(self).errors@);
            }
            return Token::Literal(
                sp,
                <String as vstd::string::StringExecFns>::from_str("false"),
                Value::Bool(false),
            );
        }

        // An identifier, or by exact match a word keyword: maximal munch.
        if crate::strutil::is_alphabetic_char(c) || c == '_' {
            return self.scan_ident();
        }

        // A symbolic keyword, whitespace, or a fault.
        return self.scan_misc();
    }

    /// Scans what is left once every literal and word form is excluded:
    /// a symbolic keyword, whitespace to skip, or an unexpected
    /// character to record.
    #[verifier::rlimit(100)]
    fn scan_misc(&mut self) -> (t: Token)
        requires
            old(self).wf(),
            !old(self).emitted_eof,
            old(self).peeked is None,
            old(self).pos < old(self).chars@.len(),
            !(old(self).pos + 1 < old(self).chars@.len() && old(self).chars@[old(self).pos as int]
                == '/' && old(self).chars@[old(self).pos + 1] == '/'),
            old(self).chars@[old(self).pos as int] != '"',
            !is_digit_ch(old(self).chars@[old(self).pos as int]),
            !prefix_at(old(self).chars@, old(self).pos as int, "nil"@),
            !prefix_at(old(self).chars@, old(self).pos as int, "true"@),
            !prefix_at(old(self).chars@, old(self).pos as int, "false"@),
            !(alpha_char(old(self).chars@[old(self).pos as int]) || old(self).chars@[old(
                self,
            ).pos as int] == '_'),
        ensures
            scanned(*old(self), *final(self), t),
        decreases old(self).chars@.len() - old(self).pos, 1int,
    {
        let ghost chars = self.chars@;
        let ghost pos0 = self.pos as nat;
        let ghost line0 = self.line as nat;
        let ghost st = spec_next(chars, pos0, line0);
        let ghost ste = spec_next_errs(chars, pos0, line0);
        proof {
            reveal_spellings();
            lemma_spec_next_bounds(chars, pos0, line0);
        }
        let clen = self.chars.len();
        let c = self.chars[self.pos];

        // The symbolic keywords, longest spellings first.
        match keyword_prefix_at(&self.chars, self.pos) {
            Some((k, l)) => {
                let sp = Span { line: self.line, start: self.pos, end: self.pos + l };
                self.pos = self.pos + l;
                proof {
                    assert(old(self).errors@ + ste =~= old(self).errors@);
                }
                return Token::Keyword(sp, k);
            },
            None => {},
        }

        // Whitespace is skipped; a newline steps the line counter.
        if crate::strutil::is_whitespace_char(c) {
            if c == '\n' {
                self.line = self.line + 1;
            }
            self.pos = self.pos + 1;
            let ghost midpos = self.pos as nat;
            let ghost midline = self.line as nat;
            let r = self.scan();
            proof {
                assert(old(self).errors@ + ste =~= old(self).errors@ + spec_next_errs(
                    chars,
                    midpos,
                    midline,
                ));
            }
            return r;
        }

        // Anything else: record the fault and go on scanning.
        return self.scan_unexpected();
    }

    /// Records an unexpected character and scans on from the next
    /// position.
    #[verifier::rlimit(100)]
    fn scan_unexpected(&mut self) -> (t: Token)
        requires
            old(self).wf(),
            !old(self).emitted_eof,
            old(self).peeked is None,
            old(self).pos < old(self).chars@.len(),
            !(old(self).pos + 1 < old(self).chars@.len() && old(self).chars@[old(self).pos as int]
                == '/' && old(self).chars@[old(self).pos + 1] == '/'),
            old(self).chars@[old(self).pos as int] != '"',
            !is_digit_ch(old(self).chars@[old(self).pos as int]),
            !prefix_at(old(self).chars@, old(self).pos as int, "nil"@),
            !prefix_at(old(self).chars@, old(self).pos as int, "true"@),
            !prefix_at(old(self).chars@, old(self).pos as int, "false"@),
            !(alpha_char(old(self).chars@[old(self).pos as int]) || old(self).chars@[old(
                self,
            ).pos as int] == '_'),
            keyword_prefix(old(self).chars@, old(self).pos as int) is None,
            !ws_char(old(self).chars@[old(self).pos as int]),
        ensures
            scanned(*old(self), *final(self), t),
        decreases old(self).chars@.len() - old(self).pos, 0int,
    {
        let ghost chars = self.chars@;
        let ghost pos0 = self.pos as nat;
        let ghost line0 = self.line as nat;
        let ghost st = spec_next(chars, pos0, line0);
        let ghost ste = spec_next_errs(chars, pos0, line0);
        let c = self.chars[self.pos];
        self.pos = self.pos + 1;
        let sp = Span { line: self.line, start: self.pos, end: self.pos };
        self.errors.push(TokenizerError::UnexpectedCharacter(sp, c));
        let r = self.scan();
        proof {
            let rest = spec_next_errs(chars, pos0 + 1, line0);
            assert(st == spec_next(chars, pos0 + 1, line0));

            assert(ste == seq![
                TokenizerError::UnexpectedCharacter(
                    Span {
                        line: line0 as usize,
                        start: (pos0 + 1) as usize,
                        end: (pos0 + 1) as usize,
                    },
                    chars[pos0 as int],
                ),
            ] + rest);
            assert(sp == (Span {
                line: line0 as usize,
                start: (pos0 + 1) as usize,
                end: (pos0 + 1) as usize,
            }));
            assert(c == chars[pos0 as int]);
            assert(self.errors@ == old(self).errors@.push(
                TokenizerError::UnexpectedCharacter(sp, c),
            ) + rest);
            let a = old(self).errors@;
            let x = TokenizerError::UnexpectedCharacter(sp, c);
            lemma_push_front_concat(a, x, rest);
            assert(x == TokenizerError::UnexpectedCharacter(
                Span {
                    line: line0 as usize,
                    start: (pos0 + 1) as usize,
                    end: (pos0 + 1) as usize,
                },
                chars[pos0 as int],
            ));
            assert(seq![x] + rest == ste);
            assert(self.errors@ == a + ste);
        }
        return r;
    }

    /// Scans a string literal: the token, or after recording an
    /// unterminated string, whatever scanning finds next.
    #[verifier::rlimit(100)]
    fn scan_string(&mut self) -> (t: Token)
        requires
            old(self).wf(),
            !old(self).emitted_eof,
            old(self).peeked is None,
            old(self).pos < old(self).chars@.len(),
            old(self).chars@[old(self).pos as int] == '"',
        ensures
            scanned(*old(self), *final(self), t),
        decreases old(self).chars@.len() - old(self).pos, 0int,
    {
        let ghost chars = self.chars@;
        let ghost pos0 = self.pos as nat;
        let ghost line0 = self.line as nat;
        let ghost st = spec_next(chars, pos0, line0);
        let ghost ste = spec_next_errs(chars, pos0, line0);
        proof {
            reveal_spellings();
            lemma_spec_next_bounds(chars, pos0, line0);
        }
        let clen = self.chars.len();

        let start = self.pos;
        let mut buf: Vec<char> = Vec::new();
        self.pos = self.pos + 1;
        while self.pos < clen && not_quote(&self.chars, self.pos)
            invariant
                clen == chars.len(),
                clen < usize::MAX,
                self.chars@ == chars,
                chars[start as int] == '"',
                pos0 == start,
                start + 1 <= self.pos <= clen,
                self.line >= 1,
                self.line as nat == line0 + count_lines(chars, start as nat + 1, self.pos as nat),
                line0 <= 1 + start,
                self.errors@ == old(self).errors@,
                self.emitted_eof == false,
                self.peeked is None,
                buf@ == chars.subrange(start + 1, self.pos as int),
                find_quote(chars, start as nat + 1) == find_quote(chars, self.pos as nat),
            decreases clen - self.pos,
        {
            proof {
                lemma_count_lines_bound(chars, start as nat + 1, self.pos as nat);
            }
            let ch = self.chars[self.pos];
            if ch == '\n' {
                self.line = self.line + 1;
            }
            buf.push(ch);
            self.pos = self.pos + 1;
            proof {
                assert(buf@ =~= chars.subrange(start + 1, self.pos as int));
                assert(count_lines(chars, start as nat + 1, self.pos as nat) == count_lines(
                    chars,
                    start as nat + 1,
                    (self.pos - 1) as nat,
                ) + (if chars[self.pos - 1] == '\n' {
                    1nat
                } else {
                    0nat
                }));
            }
        }
        proof {
            lemma_count_lines_bound(chars, start as nat + 1, self.pos as nat);
        }
        if self.pos >= clen {
            let sp = Span { line: self.line, start, end: clen };
            self.errors.push(TokenizerError::UnterminatedString(sp));
            let r = self.scan();
            proof {
                let nline = line0 + count_lines(chars, pos0 + 1, chars.len());
                let rest = spec_next_errs(chars, chars.len(), nline);
                assert(st == spec_next(chars, chars.len(), nline));

                assert(ste == seq![TokenizerError::UnterminatedString(sp)] + rest);
                assert(old(self).errors@ + ste =~= (old(self).errors@ + seq![
                    TokenizerError::UnterminatedString(sp),
                ]) + rest);
                assert(self.errors@ =~= old(self).errors@ + ste);
            }
            return r;
        }
        proof {
            assert(find_quote(chars, self.pos as nat) == self.pos as nat);
        }
        let q = self.pos;
        self.pos = self.pos + 1;
        let sp = Span { line: self.line, start, end: self.pos };
        let mut lex: Vec<char> = Vec::new();
        lex.push('"');
        append_all(&mut lex, &buf);
        lex.push('"');
        proof {
            assert(lex@ =~= seq!['"'] + chars.subrange(start + 1, q as int) + seq!['"']);
        }
        let lexeme = crate::strutil::chars_string(&lex);
        let contents = crate::strutil::chars_string(&buf);
        proof {
            assert(old(self).errors@ + ste =~= old(self).errors@);
        }
        return Token::Literal(sp, lexeme, Value::Str(contents));
    
    }

    /// Scans a number literal: digits, then at most one point that a
    /// digit follows.
    #[verifier::rlimit(100)]
    fn scan_number(&mut self) -> (t: Token)
        requires
            old(self).wf(),
            !old(self).emitted_eof,
            old(self).peeked is None,
            old(self).pos < old(self).chars@.len(),
            crate::strutil::is_digit_ch(old(self).chars@[old(self).pos as int]),
            !(old(self).pos + 1 < old(self).chars@.len() && old(self).chars@[old(self).pos as int]
                == '/' && old(self).chars@[old(self).pos + 1] == '/'),
        ensures
            scanned(*old(self), *final(self), t),
        decreases old(self).chars@.len() - old(self).pos, 0int,
    {
        let ghost chars = self.chars@;
        let ghost pos0 = self.pos as nat;
        let ghost line0 = self.line as nat;
        let ghost st = spec_next(chars, pos0, line0);
        let ghost ste = spec_next_errs(chars, pos0, line0);
        proof {
            reveal_spellings();
            lemma_spec_next_bounds(chars, pos0, line0);
        }
        let clen = self.chars.len();

        let start = self.pos;
        let mut ip: Vec<char> = Vec::new();
        while self.pos < clen && crate::strutil::is_ascii_digit_char(self.chars[self.pos])
            invariant
                clen == chars.len(),
                self.chars@ == chars,
                start <= self.pos <= clen,
                self.line == line0,
                self.errors@ == old(self).errors@,
                self.emitted_eof == false,
                self.peeked is None,
                ip@ == chars.subrange(start as int, self.pos as int),
                digits_end(chars, start as nat) == digits_end(chars, self.pos as nat),
            decreases clen - self.pos,
        {
            ip.push(self.chars[self.pos]);
            self.pos = self.pos + 1;
            proof {
                assert(ip@ =~= chars.subrange(start as int, self.pos as int));
            }
        }
        proof {
            assert(self.pos as nat == digits_end(chars, start as nat));
        }
        let ie = self.pos;
        let has_frac: bool = if ie < clen && self.chars[ie] == '.' {
            if ie + 1 < clen && crate::strutil::is_ascii_digit_char(self.chars[ie + 1]) {
                true
            } else {
                false
            }
        } else {
            false
        };
        let mut fp: Vec<char> = Vec::new();
        if has_frac {
            self.pos = self.pos + 1;
            while self.pos < clen && crate::strutil::is_ascii_digit_char(self.chars[self.pos])
                invariant
                    clen == chars.len(),
                    self.chars@ == chars,
                    ie + 1 <= self.pos <= clen,
                    self.line == line0,
                    self.errors@ == old(self).errors@,
                    self.emitted_eof == false,
                    self.peeked is None,
                    fp@ == chars.subrange(ie + 1, self.pos as int),
                    digits_end(chars, ie as nat + 1) == digits_end(chars, self.pos as nat),
                decreases clen - self.pos,
            {
                fp.push(self.chars[self.pos]);
                self.pos = self.pos + 1;
                proof {
                    assert(fp@ =~= chars.subrange(ie + 1, self.pos as int));
                }
            }
            proof {
                assert(self.pos as nat == digits_end(chars, ie as nat + 1));
            }
        }
        let sp = Span { line: self.line, start, end: self.pos };
        let mut lex: Vec<char> = Vec::new();
        append_all(&mut lex, &ip);
        if has_frac {
            lex.push('.');
            append_all(&mut lex, &fp);
        }
        proof {
            lemma_digits_end_all(chars, start as nat);
            if has_frac {
                lemma_digits_end_all(chars, ie as nat + 1);
            }
        }
        let d = crate::numbers::Decimal::from_digits(&ip, &fp);
        proof {
            crate::numbers::lemma_lit_decimal(ip@, fp@, d);
            if has_frac {
                assert(lex@ =~= chars.subrange(start as int, self.pos as int));
            } else {
                assert(fp@ =~= Seq::<char>::empty());
                assert(lex@ =~= chars.subrange(start as int, self.pos as int));
            }
        }
        let lexeme = crate::strutil::chars_string(&lex);
        proof {
            assert(old(self).errors@ + ste =~= old(self).errors@);
        }
        return Token::Literal(sp, lexeme, Value::Number(d));
    
    }

    /// Scans an identifier, classifying an exact keyword spelling as the
    /// keyword: maximal munch.
    #[verifier::rlimit(100)]
    fn scan_ident(&mut self) -> (t: Token)
        requires
            old(self).wf(),
            !old(self).emitted_eof,
            old(self).peeked is None,
            old(self).pos < old(self).chars@.len(),
            alpha_char(old(self).chars@[old(self).pos as int]) || old(self).chars@[old(
                self,
            ).pos as int] == '_',
            !is_digit_ch(old(self).chars@[old(self).pos as int]),
            !(old(self).chars@[old(self).pos as int] == '"'),
            !(old(self).pos + 1 < old(self).chars@.len() && old(self).chars@[old(self).pos as int]
                == '/' && old(self).chars@[old(self).pos + 1] == '/'),
            !prefix_at(old(self).chars@, old(self).pos as int, "nil"@),
            !prefix_at(old(self).chars@, old(self).pos as int, "true"@),
            !prefix_at(old(self).chars@, old(self).pos as int, "false"@),
        ensures
            scanned(*old(self), *final(self), t),
        decreases old(self).chars@.len() - old(self).pos, 0int,
    {
        let ghost chars = self.chars@;
        let ghost pos0 = self.pos as nat;
        let ghost line0 = self.line as nat;
        let ghost st = spec_next(chars, pos0, line0);
        let ghost ste = spec_next_errs(chars, pos0, line0);
        proof {
            reveal_spellings();
            lemma_spec_next_bounds(chars, pos0, line0);
        }
        let clen = self.chars.len();

        let start = self.pos;
        let mut buf: Vec<char> = Vec::new();
        while self.pos < clen && ident_continue(&self.chars, self.pos)
            invariant
                clen == chars.len(),
                self.chars@ == chars,
                start <= self.pos <= clen,
                self.line == line0,
                self.errors@ == old(self).errors@,
                self.emitted_eof == false,
                self.peeked is None,
                buf@ == chars.subrange(start as int, self.pos as int),
                ident_end(chars, start as nat) == ident_end(chars, self.pos as nat),
            decreases clen - self.pos,
        {
            buf.push(self.chars[self.pos]);
            self.pos = self.pos + 1;
            proof {
                assert(buf@ =~= chars.subrange(start as int, self.pos as int));
            }
        }
        proof {
            assert(self.pos as nat == ident_end(chars, start as nat));
        }
        let sp = Span { line: self.line, start, end: self.pos };
        proof {
            assert(old(self).errors@ + ste =~= old(self).errors@);
        }
        match keyword_from_chars(&buf) {
            Some(k) => {
                return Token::Keyword(sp, k);
            },
            None => {
                let name = crate::strutil::chars_string(&buf);
                return Token::Identifier(sp, name);
            },
        }
    
    }

    /// The next token without consuming it; scanning happens at most
    /// once, the result being memoized.
    pub fn peek(&mut self) -> (r: Option<Token>)
        requires
            old(self).wf(),
        ensures
            final(self).wf(),
            final(self).chars@ == old(self).chars@,
            r == final(self).peeked,
            old(self).peeked is Some ==> *final(self) == *old(self),
            old(self).peeked is None && old(self).emitted_eof ==> final(self).peeked is None
                && final(self).pos == old(self).pos && final(self).line == old(self).line && final(self).errors@ == old(self).errors@ && final(self).emitted_eof,
            old(self).peeked is None && !old(self).emitted_eof ==> ({
                let st = spec_next(old(self).chars@, old(self).pos as nat, old(self).line as nat);
                &&& final(self).peeked matches Some(t) && t@ == st.token && t.wf()
                &&& final(self).pos == st.pos
                &&& final(self).line == st.line
                &&& final(self).errors@ == old(self).errors@ + spec_next_errs(
                    old(self).chars@,
                    old(self).pos as nat,
                    old(self).line as nat,
                )
                &&& final(self).emitted_eof == (st.token is Eof)
            }),
    {
        if self.peeked.is_none() {
            let t = self.next();
            self.peeked = t;
        }
        match &self.peeked {
            Some(t) => Some(t.clone()),
            None => None,
        }
    }
}

/// Whether the character at `pos` is not a closing double quote.
fn not_quote(chars: &Vec<char>, pos: usize) -> (r: bool)
    requires
        pos < chars@.len(),
    ensures
        r == (chars@[pos as int] != '"'),
{
    chars[pos] != '"'
}

/// Whether the character at `pos` may continue an identifier.
fn ident_continue(chars: &Vec<char>, pos: usize) -> (r: bool)
    requires
        pos < chars@.len(),
    ensures
        r == (alnum_char(chars@[pos as int]) || chars@[pos as int] == '_'),
{
    let ch = chars[pos];
    crate::strutil::is_alnum_char(ch) || ch == '_'
}

/// Appends all of `src` to `out`.
fn append_all(out: &mut Vec<char>, src: &Vec<char>)
    ensures
        final(out)@ == old(out)@ + src@,
{
    let mut i: usize = 0;
    while i < src.len()
        invariant
            i <= src@.len(),
            out@ == old(out)@ + src@.subrange(0, i as int),
        decreases src@.len() - i,
    {
        out.push(src[i]);
        i = i + 1;
        proof {
            assert(out@ =~= old(out)@ + src@.subrange(0, i as int));
        }
    }
    proof {
        assert(out@ =~= old(out)@ + src@);
    }
}

} // verus!
