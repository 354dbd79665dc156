//! Turning `.mwl` text into tokens.
//!
//! Two rules shape this code more than the rest: a selector is a single token whose
//! body is kept verbatim, and `ident:ident` with no surrounding space is always a
//! resource location, even when the author meant a type annotation.
//!
//! Lexing never stops at the first problem. Errors are collected and the scan
//! continues, so one stray character does not hide the rest of the file.

use vstd::prelude::*;

use crate::syntax::ast::text_opt_view;
use crate::syntax::model;
use crate::syntax::{faults, SyntaxError};
use crate::text::{
    cat3, cat5, char_text, chars, is_alnum, is_digit, is_letter, is_space, nat_text, offset, own,
    push, same, show_u64, slice, width, without,
};

verus! {

/// A byte range in the source.
#[derive(Debug, Clone, Copy, PartialEq, Eq, Structural)]
pub struct Span {
    pub start: usize,
    pub end: usize,
}

impl Span {
    pub fn range(&self) -> (r: std::ops::Range<usize>)
        ensures
            r.start == self.start,
            r.end == self.end,
    {
        self.start..self.end
    }
}

#[derive(Debug, Clone, PartialEq, Eq)]
pub struct Token {
    pub kind: TokenKind,
    pub span: Span,
}

impl Token {
    pub open spec fn view(&self) -> model::Token {
        model::Token { kind: self.kind@, span: self.span }
    }

    pub(crate) fn copy(&self) -> (r: Token)
        ensures
            r@ == self@,
    {
        Token { kind: self.kind.copy(), span: self.span }
    }
}

#[derive(Debug, Clone, PartialEq, Eq)]
pub enum TokenKind {
    Ident(String),
    Keyword(Keyword),
    /// A word held back for a feature the language does not have. The parser rejects
    /// it, where there is room to say why.
    Reserved(String),
    Int(i32),
    Str(String),
    /// `@e[...]`, body verbatim.
    Selector(String),
    /// `minecraft:stone`.
    Resource(String),
    Punct(Punct),
}

impl TokenKind {
    pub open spec fn view(&self) -> model::TokenKind {
        match self {
            TokenKind::Ident(s) => model::TokenKind::Ident(s@),
            TokenKind::Keyword(k) => model::TokenKind::Keyword(*k),
            TokenKind::Reserved(s) => model::TokenKind::Reserved(s@),
            TokenKind::Int(n) => model::TokenKind::Int(*n),
            TokenKind::Str(s) => model::TokenKind::Str(s@),
            TokenKind::Selector(s) => model::TokenKind::Selector(s@),
            TokenKind::Resource(s) => model::TokenKind::Resource(s@),
            TokenKind::Punct(p) => model::TokenKind::Punct(*p),
        }
    }

    pub(crate) fn copy(&self) -> (r: TokenKind)
        ensures
            r@ == self@,
    {
        match self {
            TokenKind::Ident(s) => TokenKind::Ident(s.clone()),
            TokenKind::Keyword(k) => TokenKind::Keyword(*k),
            TokenKind::Reserved(s) => TokenKind::Reserved(s.clone()),
            TokenKind::Int(n) => TokenKind::Int(*n),
            TokenKind::Str(s) => TokenKind::Str(s.clone()),
            TokenKind::Selector(s) => TokenKind::Selector(s.clone()),
            TokenKind::Resource(s) => TokenKind::Resource(s.clone()),
            TokenKind::Punct(p) => TokenKind::Punct(*p),
        }
    }
}

/// What each token of a list is.
pub open spec fn tokens_view(v: Seq<Token>) -> Seq<model::Token> {
    Seq::new(v.len(), |i: int| v[i]@)
}

pub open spec fn tokens_opt_view(o: Option<Vec<Token>>) -> Option<Seq<model::Token>> {
    match o {
        Some(x) => Some(tokens_view(x@)),
        None => None,
    }
}

#[derive(Debug, Clone, Copy, PartialEq, Eq, Structural)]
pub enum Keyword {
    Fn,
    Let,
    Mut,
    Const,
    If,
    Else,
    Match,
    While,
    Loop,
    For,
    In,
    Break,
    Continue,
    Return,
    As,
    At,
    /// `positioned pos!(~ ~1 ~) { .. }`: the execution position, without an entity.
    Positioned,
    Struct,
    Enum,
    Impl,
    /// The receiver of a method, in `impl`.
    SelfValue,
    Mod,
    Use,
    Pub,
    True,
    False,
}

/// The keyword a word spells, if it spells one.
#[verifier::opaque]
pub open spec fn keyword_of(word: Seq<char>) -> Option<Keyword> {
    if word == "fn"@ {
        Some(Keyword::Fn)
    } else if word == "let"@ {
        Some(Keyword::Let)
    } else if word == "mut"@ {
        Some(Keyword::Mut)
    } else if word == "const"@ {
        Some(Keyword::Const)
    } else if word == "if"@ {
        Some(Keyword::If)
    } else if word == "else"@ {
        Some(Keyword::Else)
    } else if word == "match"@ {
        Some(Keyword::Match)
    } else if word == "while"@ {
        Some(Keyword::While)
    } else if word == "loop"@ {
        Some(Keyword::Loop)
    } else if word == "for"@ {
        Some(Keyword::For)
    } else if word == "in"@ {
        Some(Keyword::In)
    } else if word == "break"@ {
        Some(Keyword::Break)
    } else if word == "continue"@ {
        Some(Keyword::Continue)
    } else if word == "return"@ {
        Some(Keyword::Return)
    } else if word == "as"@ {
        Some(Keyword::As)
    } else if word == "positioned"@ {
        Some(Keyword::Positioned)
    } else if word == "at"@ {
        Some(Keyword::At)
    } else if word == "struct"@ {
        Some(Keyword::Struct)
    } else if word == "enum"@ {
        Some(Keyword::Enum)
    } else if word == "impl"@ {
        Some(Keyword::Impl)
    } else if word == "self"@ {
        Some(Keyword::SelfValue)
    } else if word == "mod"@ {
        Some(Keyword::Mod)
    } else if word == "use"@ {
        Some(Keyword::Use)
    } else if word == "pub"@ {
        Some(Keyword::Pub)
    } else if word == "true"@ {
        Some(Keyword::True)
    } else if word == "false"@ {
        Some(Keyword::False)
    } else {
        None
    }
}

impl Keyword {
    pub(crate) fn parse(word: &str) -> (r: Option<Keyword>)
        ensures
            r == keyword_of(word@),
    {
        proof {
            reveal(keyword_of);
        }
        if same(word, "fn") {
            Some(Keyword::Fn)
        } else if same(word, "let") {
            Some(Keyword::Let)
        } else if same(word, "mut") {
            Some(Keyword::Mut)
        } else if same(word, "const") {
            Some(Keyword::Const)
        } else if same(word, "if") {
            Some(Keyword::If)
        } else if same(word, "else") {
            Some(Keyword::Else)
        } else if same(word, "match") {
            Some(Keyword::Match)
        } else if same(word, "while") {
            Some(Keyword::While)
        } else if same(word, "loop") {
            Some(Keyword::Loop)
        } else if same(word, "for") {
            Some(Keyword::For)
        } else if same(word, "in") {
            Some(Keyword::In)
        } else if same(word, "break") {
            Some(Keyword::Break)
        } else if same(word, "continue") {
            Some(Keyword::Continue)
        } else if same(word, "return") {
            Some(Keyword::Return)
        } else if same(word, "as") {
            Some(Keyword::As)
        } else if same(word, "positioned") {
            Some(Keyword::Positioned)
        } else if same(word, "at") {
            Some(Keyword::At)
        } else if same(word, "struct") {
            Some(Keyword::Struct)
        } else if same(word, "enum") {
            Some(Keyword::Enum)
        } else if same(word, "impl") {
            Some(Keyword::Impl)
        } else if same(word, "self") {
            Some(Keyword::SelfValue)
        } else if same(word, "mod") {
            Some(Keyword::Mod)
        } else if same(word, "use") {
            Some(Keyword::Use)
        } else if same(word, "pub") {
            Some(Keyword::Pub)
        } else if same(word, "true") {
            Some(Keyword::True)
        } else if same(word, "false") {
            Some(Keyword::False)
        } else {
            None
        }
    }
}

/// The words held back so that adding a feature later cannot break existing code.
#[verifier::opaque]
pub open spec fn is_reserved(word: Seq<char>) -> bool {
    word == "async"@ || word == "await"@ || word == "trait"@ || word == "dyn"@ || word == "macro_rules"@ || word == "Self"@ || word == "where"@ || word == "unsafe"@ || word == "static"@ || word == "type"@ || word == "ref"@ || word == "move"@ || word == "box"@ || word == "yield"@ || word == "do"@ || word == "try"@
}

pub(crate) fn reserved(word: &str) -> (r: bool)
    ensures
        r == is_reserved(word@),
{
    proof {
        reveal(is_reserved);
    }
    same(word, "async") || same(word, "await") || same(word, "trait") || same(word, "dyn") || same(word, "macro_rules") || same(word, "Self") || same(word, "where") || same(word, "unsafe") || same(word, "static") || same(word, "type") || same(word, "ref") || same(word, "move") || same(word, "box") || same(word, "yield") || same(word, "do") || same(word, "try")
}

#[derive(Debug, Clone, Copy, PartialEq, Eq, Structural)]
pub enum Punct {
    Plus, Minus, Star, Slash, Percent, EqEq, Ne, Lt, Le, Gt, Ge, AndAnd, OrOr, Bang, Eq, PlusEq, MinusEq, StarEq, SlashEq, PercentEq, And, Dot, DotDot, DotDotEq, Comma, Semi, Colon, ColonColon, Arrow, FatArrow, Hash, Tilde, Caret, Question, Underscore, LParen, RParen, LBracket, RBracket, LBrace, RBrace,
}

/// The punctuation of two characters.
#[verifier::opaque]
pub open spec fn punct_of_two(a: char, b: char) -> Option<Punct> {
    if a == ':' && b == ':' {
        Some(Punct::ColonColon)
    } else if a == '-' && b == '>' {
        Some(Punct::Arrow)
    } else if a == '=' && b == '>' {
        Some(Punct::FatArrow)
    } else if a == '=' && b == '=' {
        Some(Punct::EqEq)
    } else if a == '!' && b == '=' {
        Some(Punct::Ne)
    } else if a == '<' && b == '=' {
        Some(Punct::Le)
    } else if a == '>' && b == '=' {
        Some(Punct::Ge)
    } else if a == '&' && b == '&' {
        Some(Punct::AndAnd)
    } else if a == '|' && b == '|' {
        Some(Punct::OrOr)
    } else if a == '+' && b == '=' {
        Some(Punct::PlusEq)
    } else if a == '-' && b == '=' {
        Some(Punct::MinusEq)
    } else if a == '*' && b == '=' {
        Some(Punct::StarEq)
    } else if a == '/' && b == '=' {
        Some(Punct::SlashEq)
    } else if a == '%' && b == '=' {
        Some(Punct::PercentEq)
    } else if a == '.' && b == '.' {
        Some(Punct::DotDot)
    } else {
        None
    }
}

/// The punctuation of one character.
#[verifier::opaque]
pub open spec fn punct_of_one(a: char) -> Option<Punct> {
    if a == '+' {
        Some(Punct::Plus)
    } else if a == '-' {
        Some(Punct::Minus)
    } else if a == '*' {
        Some(Punct::Star)
    } else if a == '/' {
        Some(Punct::Slash)
    } else if a == '%' {
        Some(Punct::Percent)
    } else if a == '<' {
        Some(Punct::Lt)
    } else if a == '>' {
        Some(Punct::Gt)
    } else if a == '!' {
        Some(Punct::Bang)
    } else if a == '=' {
        Some(Punct::Eq)
    } else if a == '&' {
        Some(Punct::And)
    } else if a == '.' {
        Some(Punct::Dot)
    } else if a == ',' {
        Some(Punct::Comma)
    } else if a == ';' {
        Some(Punct::Semi)
    } else if a == ':' {
        Some(Punct::Colon)
    } else if a == '#' {
        Some(Punct::Hash)
    } else if a == '~' {
        Some(Punct::Tilde)
    } else if a == '^' {
        Some(Punct::Caret)
    } else if a == '?' {
        Some(Punct::Question)
    } else if a == '(' {
        Some(Punct::LParen)
    } else if a == ')' {
        Some(Punct::RParen)
    } else if a == '[' {
        Some(Punct::LBracket)
    } else if a == ']' {
        Some(Punct::RBracket)
    } else if a == '{' {
        Some(Punct::LBrace)
    } else if a == '}' {
        Some(Punct::RBrace)
    } else {
        None
    }
}

fn find_punct_of_two(a: char, b: char) -> (r: Option<Punct>)
    ensures
        r == punct_of_two(a, b),
{
    proof {
        reveal(punct_of_two);
    }
    if a == ':' && b == ':' {
        Some(Punct::ColonColon)
    } else if a == '-' && b == '>' {
        Some(Punct::Arrow)
    } else if a == '=' && b == '>' {
        Some(Punct::FatArrow)
    } else if a == '=' && b == '=' {
        Some(Punct::EqEq)
    } else if a == '!' && b == '=' {
        Some(Punct::Ne)
    } else if a == '<' && b == '=' {
        Some(Punct::Le)
    } else if a == '>' && b == '=' {
        Some(Punct::Ge)
    } else if a == '&' && b == '&' {
        Some(Punct::AndAnd)
    } else if a == '|' && b == '|' {
        Some(Punct::OrOr)
    } else if a == '+' && b == '=' {
        Some(Punct::PlusEq)
    } else if a == '-' && b == '=' {
        Some(Punct::MinusEq)
    } else if a == '*' && b == '=' {
        Some(Punct::StarEq)
    } else if a == '/' && b == '=' {
        Some(Punct::SlashEq)
    } else if a == '%' && b == '=' {
        Some(Punct::PercentEq)
    } else if a == '.' && b == '.' {
        Some(Punct::DotDot)
    } else {
        None
    }
}

fn find_punct_of_one(a: char) -> (r: Option<Punct>)
    ensures
        r == punct_of_one(a),
{
    proof {
        reveal(punct_of_one);
    }
    if a == '+' {
        Some(Punct::Plus)
    } else if a == '-' {
        Some(Punct::Minus)
    } else if a == '*' {
        Some(Punct::Star)
    } else if a == '/' {
        Some(Punct::Slash)
    } else if a == '%' {
        Some(Punct::Percent)
    } else if a == '<' {
        Some(Punct::Lt)
    } else if a == '>' {
        Some(Punct::Gt)
    } else if a == '!' {
        Some(Punct::Bang)
    } else if a == '=' {
        Some(Punct::Eq)
    } else if a == '&' {
        Some(Punct::And)
    } else if a == '.' {
        Some(Punct::Dot)
    } else if a == ',' {
        Some(Punct::Comma)
    } else if a == ';' {
        Some(Punct::Semi)
    } else if a == ':' {
        Some(Punct::Colon)
    } else if a == '#' {
        Some(Punct::Hash)
    } else if a == '~' {
        Some(Punct::Tilde)
    } else if a == '^' {
        Some(Punct::Caret)
    } else if a == '?' {
        Some(Punct::Question)
    } else if a == '(' {
        Some(Punct::LParen)
    } else if a == ')' {
        Some(Punct::RParen)
    } else if a == '[' {
        Some(Punct::LBracket)
    } else if a == ']' {
        Some(Punct::RBracket)
    } else if a == '{' {
        Some(Punct::LBrace)
    } else if a == '}' {
        Some(Punct::RBrace)
    } else {
        None
    }
}

// ---------------------------------------------------------------------------
// What the tokens of a text are.
// ---------------------------------------------------------------------------

/// The runs of characters the lexer takes in one go.
#[derive(Clone, Copy)]
pub enum Class {
    Space,
    /// The rest of a line.
    Line,
    /// Letters, digits and `_`.
    Word,
    /// What the path of a resource location may hold.
    ResourcePath,
}

impl Class {
    pub open spec fn has(self, c: char) -> bool {
        match self {
            Class::Space => is_space(c),
            Class::Line => c != '\n',
            Class::Word => is_word(c),
            Class::ResourcePath => is_word(c) || c == '.' || c == '-',
        }
    }

    fn holds(self, c: char) -> (r: bool)
        ensures
            r == self.has(c),
    {
        match self {
            Class::Space => c == '\t' || c == '\n' || c == '\x0c' || c == '\r' || c == ' ',
            Class::Line => c != '\n',
            Class::Word => word_char(c),
            Class::ResourcePath => word_char(c) || c == '.' || c == '-',
        }
    }
}

pub open spec fn is_word(c: char) -> bool {
    is_alnum(c) || c == '_'
}

fn word_char(c: char) -> (r: bool)
    ensures
        r == is_word(c),
{
    ('a' <= c && c <= 'z') || ('A' <= c && c <= 'Z') || ('0' <= c && c <= '9') || c == '_'
}

/// Where the run of characters of a class that begins at `i` ends.
pub open spec fn run_end(s: Seq<char>, i: int, class: Class) -> int
    decreases s.len() - i,
{
    if 0 <= i < s.len() && class.has(s[i]) {
        run_end(s, i + 1, class)
    } else {
        i
    }
}

/// Whether `c` is the character at `i`.
pub open spec fn at(s: Seq<char>, i: int, c: char) -> bool {
    0 <= i < s.len() && s[i] == c
}

/// The span from the `i`th to the `j`th character.
pub open spec fn span_of(s: Seq<char>, i: int, j: int) -> Span {
    Span { start: offset(s, i) as usize, end: offset(s, j) as usize }
}

pub open spec fn fault_at(s: Seq<char>, i: int, j: int, message: Seq<char>) -> model::Fault {
    model::Fault { span: span_of(s, i, j), message }
}

/// The end of the block comment that is `depth` levels open at `i`, and whether it was
/// closed before the text ended.
pub open spec fn comment_end(s: Seq<char>, i: int, depth: nat) -> (int, bool)
    decreases s.len() - i,
{
    if i < 0 || i >= s.len() {
        (i, false)
    } else if at(s, i, '/') && at(s, i + 1, '*') {
        comment_end(s, i + 2, depth + 1)
    } else if at(s, i, '*') && at(s, i + 1, '/') {
        if depth <= 1 {
            (i + 2, true)
        } else {
            comment_end(s, i + 2, (depth - 1) as nat)
        }
    } else {
        comment_end(s, i + 1, depth)
    }
}

/// Where one piece of white space and comment that begins at `i` ends, and what is
/// wrong with it.
pub open spec fn trivium_end(s: Seq<char>, i: int) -> (int, Seq<model::Fault>) {
    let a = run_end(s, i, Class::Space);
    if at(s, a, '/') && at(s, a + 1, '/') {
        (run_end(s, a, Class::Line), seq![])
    } else if at(s, a, '/') && at(s, a + 1, '*') {
        let (b, closed) = comment_end(s, a, 0);
        if closed {
            (b, seq![])
        } else {
            (b, seq![fault_at(s, a, b, "unterminated block comment"@)])
        }
    } else {
        (a, seq![])
    }
}

/// Where the white space and comments that begin at `i` end.
pub open spec fn trivia_end(s: Seq<char>, i: int) -> (int, Seq<model::Fault>)
    decreases s.len() - i,
{
    let (b, found) = trivium_end(s, i);
    if i < b <= s.len() {
        let (end, more) = trivia_end(s, b);
        (end, found + more)
    } else {
        (b, found)
    }
}

/// The end of the bracketed group that is `depth` levels open at `i`, honouring nesting
/// and quoted strings, and whether it is closed before the text ends.
pub open spec fn group_end(s: Seq<char>, i: int, depth: int, quote: Option<char>) -> (int, bool)
    decreases s.len() - i,
{
    if i < 0 || i >= s.len() {
        (i, false)
    } else {
        let c = s[i];
        match quote {
            Some(q) => if c == '\\' {
                if i + 1 < s.len() {
                    group_end(s, i + 2, depth, quote)
                } else {
                    (i + 1, false)
                }
            } else if c == q {
                group_end(s, i + 1, depth, None)
            } else {
                group_end(s, i + 1, depth, quote)
            },
            None => if c == '"' || c == '\'' {
                group_end(s, i + 1, depth, Some(c))
            } else if c == '[' || c == '{' {
                group_end(s, i + 1, depth + 1, None)
            } else if c == ']' || c == '}' {
                if depth - 1 == 0 {
                    (i + 1, true)
                } else {
                    group_end(s, i + 1, depth - 1, None)
                }
            } else {
                group_end(s, i + 1, depth, None)
            },
        }
    }
}

/// The selector that begins with the `@` at `i`.
#[verifier::opaque]
pub open spec fn selector_at(s: Seq<char>, i: int) -> (int, Result<model::TokenKind, model::Fault>) {
    let known = at(s, i + 1, 'a') || at(s, i + 1, 'e') || at(s, i + 1, 'p') || at(s, i + 1, 'r')
        || at(s, i + 1, 's');
    if !known {
        (i + 1, Err(fault_at(s, i, i + 1, "expected one of @a @e @p @r @s"@)))
    } else if at(s, i + 2, '[') {
        let (end, closed) = group_end(s, i + 3, 1, None);
        if closed {
            (end, Ok(model::TokenKind::Selector(s.subrange(i, end))))
        } else {
            (end, Err(fault_at(s, i, end, "unterminated selector"@)))
        }
    } else {
        (i + 2, Ok(model::TokenKind::Selector(s.subrange(i, i + 2))))
    }
}

/// The digit a character stands for, counting letters from ten on.
pub open spec fn digit_of(c: char) -> int {
    if is_digit(c) {
        c as int - '0' as int
    } else if 'a' <= c && c <= 'z' {
        c as int - 'a' as int + 10
    } else if 'A' <= c && c <= 'Z' {
        c as int - 'A' as int + 10
    } else {
        36
    }
}

/// The number the digits of `text` stand for, if each of them is a digit in base `radix`.
pub open spec fn number_of(text: Seq<char>, radix: int) -> Option<int>
    decreases text.len(),
{
    if text.len() == 0 {
        Some(0)
    } else {
        match number_of(text.drop_last(), radix) {
            Some(high) => if digit_of(text.last()) < radix {
                Some(high * radix + digit_of(text.last()))
            } else {
                None
            },
            None => None,
        }
    }
}

/// The base a number that begins at `i` is written in, and where its digits begin.
pub open spec fn radix_at(s: Seq<char>, i: int) -> (int, int) {
    if at(s, i, '0') && (at(s, i + 1, 'x') || at(s, i + 1, 'X')) {
        (16, i + 2)
    } else if at(s, i, '0') && (at(s, i + 1, 'b') || at(s, i + 1, 'B')) {
        (2, i + 2)
    } else {
        (10, i)
    }
}

/// The number that begins with the digit at `i`.
#[verifier::opaque]
pub open spec fn number_at(s: Seq<char>, i: int) -> (int, Result<model::TokenKind, model::Fault>) {
    let (radix, from) = radix_at(s, i);
    let end = run_end(s, from, Class::Word);
    let text = without(s.subrange(from, end), '_');
    (
        end,
        if text.len() == 0 {
            Err(fault_at(s, i, end, "expected digits"@))
        } else {
            match number_of(text, radix) {
                Some(value) => if value <= i32::MAX {
                    Ok(model::TokenKind::Int(value as i32))
                } else if value <= i64::MAX {
                    Err(fault_at(s, i, end, "integer literal does not fit in i32"@))
                } else {
                    Err(fault_at(s, i, end, not_a_number(text, radix)))
                },
                None => Err(fault_at(s, i, end, not_a_number(text, radix))),
            }
        },
    )
}

pub open spec fn not_a_number(text: Seq<char>, radix: int) -> Seq<char> {
    "'"@ + text + "' is not a base "@ + nat_text(radix as nat) + " integer"@
}

/// The character an escape stands for.
pub open spec fn unescaped(c: char) -> Option<char> {
    if c == '\\' {
        Some('\\')
    } else if c == '"' {
        Some('"')
    } else if c == 'n' {
        Some('\n')
    } else if c == 't' {
        Some('\t')
    } else if c == 'r' {
        Some('\r')
    } else if c == '0' {
        Some('\0')
    } else {
        None
    }
}

/// The rest of the string that begins at `start`, read from `i` on, when what was read
/// before says `out`.
pub open spec fn string_from(s: Seq<char>, start: int, i: int, out: Seq<char>) -> (
    int,
    Option<Seq<char>>,
    Seq<model::Fault>,
)
    decreases s.len() - i,
{
    if i < 0 || i >= s.len() {
        (i, None, seq![fault_at(s, start, i, "unterminated string"@)])
    } else if s[i] == '"' {
        (i + 1, Some(out), seq![])
    } else if s[i] == '\\' {
        if i + 1 >= s.len() {
            (i + 1, None, seq![fault_at(s, start, i + 1, "unterminated string"@)])
        } else {
            match unescaped(s[i + 1]) {
                Some(c) => string_from(s, start, i + 2, out.push(c)),
                None => {
                    let (end, text, more) = string_from(s, start, i + 2, out);
                    (
                        end,
                        text,
                        seq![
                            fault_at(
                                s,
                                i + 1,
                                i + 2,
                                "unknown escape '\\"@ + seq![s[i + 1]] + "'"@,
                            ),
                        ] + more,
                    )
                },
            }
        }
    } else {
        string_from(s, start, i + 1, out.push(s[i]))
    }
}

/// Where the `/`-separated segments that begin at `i` end, if each of them has a name.
pub open spec fn segments_end(s: Seq<char>, i: int) -> Option<int>
    decreases s.len() - i,
{
    if at(s, i, '/') {
        let end = run_end(s, i + 1, Class::Word);
        if i + 1 < end <= s.len() {
            segments_end(s, end)
        } else {
            None
        }
    } else {
        Some(i)
    }
}

/// Whether the word that ends at `i` is the first part of a resource location: a single
/// `:` follows, perhaps after more path segments, and a name follows that.
pub open spec fn resource_follows(s: Seq<char>, i: int) -> bool {
    match segments_end(s, i) {
        Some(a) => at(s, a, ':') && !at(s, a + 1, ':') && run_end(s, a + 1, Class::Word) > a + 1,
        None => false,
    }
}

/// Where the `/`-separated runs of a class that begin at `i` end.
pub open spec fn path_end(s: Seq<char>, i: int, class: Class) -> int
    decreases s.len() - i,
{
    if at(s, i, '/') {
        let end = run_end(s, i + 1, class);
        if i < end <= s.len() {
            path_end(s, end, class)
        } else {
            i
        }
    } else {
        i
    }
}

/// Where the resource location ends whose first word ends at `i`.
#[verifier::opaque]
pub open spec fn resource_end(s: Seq<char>, i: int) -> int {
    let colon = path_end(s, i, Class::Word);
    let path = path_end(s, run_end(s, colon + 1, Class::ResourcePath), Class::ResourcePath);
    if at(s, path, '[') {
        group_end(s, path + 1, 1, None).0
    } else {
        path
    }
}

/// The identifier, keyword, reserved word or resource location that begins at `i`.
#[verifier::opaque]
pub open spec fn word_at(s: Seq<char>, i: int) -> (int, model::TokenKind) {
    let end = run_end(s, i, Class::Word);
    if resource_follows(s, end) {
        let last = resource_end(s, end);
        (last, model::TokenKind::Resource(s.subrange(i, last)))
    } else {
        let word = s.subrange(i, end);
        (
            end,
            match keyword_of(word) {
                Some(keyword) => model::TokenKind::Keyword(keyword),
                None => if is_reserved(word) {
                    model::TokenKind::Reserved(word)
                } else {
                    model::TokenKind::Ident(word)
                },
            },
        )
    }
}

/// The punctuation at `i`, the longest that is written there, and its length.
#[verifier::opaque]
pub open spec fn punct_at(s: Seq<char>, i: int) -> Option<(Punct, int)> {
    if at(s, i, '.') && at(s, i + 1, '.') && at(s, i + 2, '=') {
        Some((Punct::DotDotEq, 3))
    } else if i + 1 < s.len() && punct_of_two(s[i], s[i + 1]) is Some {
        Some((punct_of_two(s[i], s[i + 1])->0, 2))
    } else {
        match punct_of_one(s[i]) {
            Some(p) => Some((p, 1)),
            None => None,
        }
    }
}

/// The token that begins at `i`: where it ends, what it is if it is one, and what is
/// wrong with it.
#[verifier::opaque]
pub open spec fn token_at(s: Seq<char>, i: int) -> (
    int,
    Option<model::TokenKind>,
    Seq<model::Fault>,
) {
    let c = s[i];
    if c == '@' {
        match selector_at(s, i) {
            (end, Ok(kind)) => (end, Some(kind), seq![]),
            (end, Err(fault)) => (end, None, seq![fault]),
        }
    } else if c == '"' {
        let (end, text, found) = string_from(s, i, i + 1, seq![]);
        match text {
            Some(text) => (end, Some(model::TokenKind::Str(text)), found),
            None => (end, None, found),
        }
    } else if is_digit(c) {
        match number_at(s, i) {
            (end, Ok(kind)) => (end, Some(kind), seq![]),
            (end, Err(fault)) => (end, None, seq![fault]),
        }
    } else if c == '_' && !(i + 1 < s.len() && is_word(s[i + 1])) {
        (i + 1, Some(model::TokenKind::Punct(Punct::Underscore)), seq![])
    } else if is_letter(c) || c == '_' {
        let (end, kind) = word_at(s, i);
        (end, Some(kind), seq![])
    } else {
        match punct_at(s, i) {
            Some((p, n)) => (i + n, Some(model::TokenKind::Punct(p)), seq![]),
            None => (
                i + 1,
                None,
                seq![fault_at(s, i, i + 1, "unexpected character '"@ + seq![c] + "'"@)],
            ),
        }
    }
}

/// The tokens of `s` from `i` on and everything wrong on the way.
pub open spec fn tokens_from(s: Seq<char>, i: int) -> (Seq<model::Token>, Seq<model::Fault>)
    decreases s.len() - i,
{
    let (j, skipped) = trivia_end(s, i);
    if i <= j < s.len() {
        let (k, kind, found) = token_at(s, j);
        if j < k <= s.len() {
            let (tokens, more) = tokens_from(s, k);
            (
                match kind {
                    Some(kind) => seq![model::Token { kind, span: span_of(s, j, k) }] + tokens,
                    None => tokens,
                },
                skipped + found + more,
            )
        } else {
            (seq![], skipped + found)
        }
    } else {
        (seq![], skipped)
    }
}

/// The tokens of a text and everything wrong with it. A byte order mark in front is not
/// part of the text.
pub open spec fn lexed(s: Seq<char>) -> (Seq<model::Token>, Seq<model::Fault>) {
    tokens_from(s, if at(s, 0, '\u{feff}') { 1 } else { 0 })
}

// ---------------------------------------------------------------------------
// Reading them.
// ---------------------------------------------------------------------------

/// The text being read, with the byte offset of every character.
pub(crate) struct Source {
    pub(crate) chars: Vec<char>,
    pub(crate) offsets: Vec<usize>,
}

impl Source {
    pub(crate) open spec fn wf(&self) -> bool {
        &&& self.offsets@.len() == self.chars@.len() + 1
        &&& self.chars@.len() < usize::MAX
        &&& forall|i: int|
            0 <= i <= self.chars@.len() ==> #[trigger] self.offsets@[i] == offset(self.chars@, i)
    }

    pub(crate) fn new(src: &str) -> (r: Source)
        ensures
            r.wf(),
            r.chars@ == src@,
    {
        let chars = chars(src);
        let total: usize = src.as_bytes().len();
        proof {
            lemma_offset_is_byte_length(src@);
        }
        let mut offsets: Vec<usize> = Vec::new();
        offsets.push(0);
        let mut i: usize = 0;
        while i < chars.len()
            invariant
                i <= chars@.len(),
                offsets@.len() == i + 1,
                offset(chars@, chars@.len() as int) == total,
                forall|k: int| 0 <= k <= i ==> #[trigger] offsets@[k] == offset(chars@, k),
            decreases chars.len() - i,
        {
            let c = chars[i];
            let step: usize = if (c as u32) < 0x80 {
                1
            } else if (c as u32) < 0x800 {
                2
            } else if (c as u32) < 0x10000 {
                3
            } else {
                4
            };
            proof {
                lemma_offset_grows(chars@, i + 1, chars@.len() as int);
                assert(offsets@[i as int] == offset(chars@, i as int));
            }
            let next: usize = offsets[i] + step;
            offsets.push(next);
            i += 1;
        }
        // The offsets can be counted in a `usize`, and so can the characters.
        let _count: usize = offsets.len();
        Source { chars, offsets }
    }

    fn span(&self, i: usize, j: usize) -> (r: Span)
        requires
            self.wf(),
            i <= self.chars@.len(),
            j <= self.chars@.len(),
        ensures
            r == span_of(self.chars@, i as int, j as int),
    {
        Span { start: self.offsets[i], end: self.offsets[j] }
    }

    fn error(&self, i: usize, j: usize, message: String) -> (r: SyntaxError)
        requires
            self.wf(),
            i <= self.chars@.len(),
            j <= self.chars@.len(),
        ensures
            r@ == fault_at(self.chars@, i as int, j as int, message@),
    {
        SyntaxError { span: self.span(i, j), message }
    }

    fn is(&self, i: usize, c: char) -> (r: bool)
        ensures
            r == at(self.chars@, i as int, c),
    {
        i < self.chars.len() && self.chars[i] == c
    }

    fn ahead(&self, i: usize, k: usize, c: char) -> (r: bool)
        requires
            i <= self.chars@.len(),
        ensures
            r == at(self.chars@, i + k, c),
    {
        k < self.chars.len() - i && self.chars[i + k] == c
    }

    fn run(&self, from: usize, class: Class) -> (r: usize)
        requires
            from <= self.chars@.len(),
        ensures
            from <= r <= self.chars@.len(),
            r == run_end(self.chars@, from as int, class),
    {
        let mut i: usize = from;
        while i < self.chars.len() && class.holds(self.chars[i])
            invariant
                from <= i <= self.chars@.len(),
                run_end(self.chars@, from as int, class) == run_end(self.chars@, i as int, class),
            decreases self.chars.len() - i,
        {
            i += 1;
        }
        i
    }

    fn comment(&self, from: usize) -> (r: (usize, bool))
        requires
            from <= self.chars@.len(),
        ensures
            from <= r.0 <= self.chars@.len(),
            (r.0 as int, r.1) == comment_end(self.chars@, from as int, 0),
    {
        let mut i: usize = from;
        let mut depth: usize = 0;
        while i < self.chars.len()
            invariant
                from <= i <= self.chars@.len(),
                depth <= i,
                comment_end(self.chars@, from as int, 0) == comment_end(
                    self.chars@,
                    i as int,
                    depth as nat,
                ),
            decreases self.chars.len() - i,
        {
            if self.is(i, '/') && i + 1 < self.chars.len() && self.is(i + 1, '*') {
                i += 2;
                depth += 1;
            } else if self.is(i, '*') && i + 1 < self.chars.len() && self.is(i + 1, '/') {
                i += 2;
                if depth <= 1 {
                    return (i, true);
                }
                depth -= 1;
            } else {
                i += 1;
            }
        }
        (i, false)
    }

    /// Skips white space and comments.
    fn trivia(&self, from: usize, errors: &mut Vec<SyntaxError>) -> (r: usize)
        requires
            self.wf(),
            from <= self.chars@.len(),
        ensures
            from <= r <= self.chars@.len(),
            r == trivia_end(self.chars@, from as int).0,
            faults(final(errors)@) == faults(old(errors)@) + trivia_end(
                self.chars@,
                from as int,
            ).1,
    {
        let mut i: usize = from;
        loop
            invariant
                self.wf(),
                from <= i <= self.chars@.len(),
                trivia_end(self.chars@, from as int).0 == trivia_end(self.chars@, i as int).0,
                faults(old(errors)@) + trivia_end(self.chars@, from as int).1 == faults(errors@)
                    + trivia_end(self.chars@, i as int).1,
            decreases self.chars.len() - i,
        {
            let before: usize = i;
            let start: usize = self.run(i, Class::Space);
            let ghost kept = errors@;
            if self.is(start, '/') && start + 1 < self.chars.len() && self.is(start + 1, '/') {
                i = self.run(start, Class::Line);
            } else if self.is(start, '/') && start + 1 < self.chars.len() && self.is(
                start + 1,
                '*',
            ) {
                let (end, closed) = self.comment(start);
                if !closed {
                    errors.push(self.error(start, end, own("unterminated block comment")));
                }
                i = end;
            } else {
                i = start;
            }
            proof {
                let found = trivium_end(self.chars@, before as int).1;
                assert(faults(errors@) =~= faults(kept) + found);
                let more = trivia_end(self.chars@, i as int).1;
                if before < i {
                    assert((faults(kept) + found) + more =~= faults(kept) + (found + more));
                }
            }
            if i == before {
                return i;
            }
        }
    }

    /// Reads on to the end of a bracketed group whose first bracket is already read.
    fn group(&self, from: usize) -> (r: (usize, bool))
        requires
            1 <= from <= self.chars@.len(),
        ensures
            from <= r.0 <= self.chars@.len(),
            (r.0 as int, r.1) == group_end(self.chars@, from as int, 1, None),
    {
        let mut i: usize = from;
        let mut depth: usize = 1;
        let mut quote: Option<char> = None;
        while i < self.chars.len()
            invariant
                from <= i <= self.chars@.len(),
                1 <= depth <= i,
                group_end(self.chars@, from as int, 1, None) == group_end(
                    self.chars@,
                    i as int,
                    depth as int,
                    quote,
                ),
            decreases self.chars.len() - i,
        {
            let c = self.chars[i];
            i += 1;
            match quote {
                Some(q) => {
                    if c == '\\' {
                        if i < self.chars.len() {
                            i += 1;
                        } else {
                            return (i, false);
                        }
                    } else if c == q {
                        quote = None;
                    }
                },
                None => {
                    if c == '"' || c == '\'' {
                        quote = Some(c);
                    } else if c == '[' || c == '{' {
                        depth += 1;
                    } else if c == ']' || c == '}' {
                        depth -= 1;
                        if depth == 0 {
                            return (i, true);
                        }
                    }
                },
            }
        }
        (i, false)
    }

    fn selector(&self, i: usize) -> (r: (usize, Result<TokenKind, SyntaxError>))
        requires
            self.wf(),
            i < self.chars@.len(),
        ensures
            i < r.0 <= self.chars@.len(),
            (r.0 as int, result_view(r.1)) == selector_at(self.chars@, i as int),
    {
        proof {
            reveal(selector_at);
        }
        let known = self.ahead(i, 1, 'a') || self.ahead(i, 1, 'e') || self.ahead(i, 1, 'p') || self.ahead(i, 1, 'r') || self.ahead(i, 1, 's');
        if !known {
            return (i + 1, Err(self.error(i, i + 1, own("expected one of @a @e @p @r @s"))));
        }
        if self.ahead(i, 2, '[') {
            let (end, closed) = self.group(i + 3);
            if closed {
                (end, Ok(TokenKind::Selector(slice(&self.chars, i, end))))
            } else {
                (end, Err(self.error(i, end, own("unterminated selector"))))
            }
        } else {
            (i + 2, Ok(TokenKind::Selector(slice(&self.chars, i, i + 2))))
        }
    }

    fn number(&self, i: usize) -> (r: (usize, Result<TokenKind, SyntaxError>))
        requires
            self.wf(),
            i < self.chars@.len(),
            is_digit(self.chars@[i as int]),
        ensures
            i < r.0 <= self.chars@.len(),
            (r.0 as int, result_view(r.1)) == number_at(self.chars@, i as int),
    {
        proof {
            reveal(number_at);
        }
        let (radix, from): (u64, usize) = if self.is(i, '0') && (self.ahead(i, 1, 'x') || self.ahead(i, 1, 'X')) {
            (16, i + 2)
        } else if self.is(i, '0') && (self.ahead(i, 1, 'b') || self.ahead(i, 1, 'B')) {
            (2, i + 2)
        } else {
            (10, i)
        };
        let end: usize = self.run(from, Class::Word);
        proof {
            assert(from == i ==> run_end(self.chars@, i as int, Class::Word) == run_end(
                self.chars@,
                i + 1,
                Class::Word,
            ));
            lemma_run_end_bounds(self.chars@, i + 1, Class::Word);
        }
        let digits = self.digits(from, end);
        if digits.len() == 0 {
            return (end, Err(self.error(i, end, own("expected digits"))));
        }
        let text = slice(&digits, 0, digits.len());
        proof {
            assert(digits@.subrange(0, digits@.len() as int) =~= digits@);
        }
        match number_value(&digits, radix) {
            Some(value) => {
                if value <= 0x7fff_ffff {
                    (end, Ok(TokenKind::Int(value as i32)))
                } else {
                    (end, Err(self.error(i, end, own("integer literal does not fit in i32"))))
                }
            },
            None => {
                let message = cat5(
                    "'",
                    text.as_str(),
                    "' is not a base ",
                    show_u64(radix).as_str(),
                    " integer",
                );
                (end, Err(self.error(i, end, message)))
            },
        }
    }

    /// The characters from `from` to `to` that are not `_`.
    fn digits(&self, from: usize, to: usize) -> (r: Vec<char>)
        requires
            from <= to <= self.chars@.len(),
        ensures
            r@ == without(self.chars@.subrange(from as int, to as int), '_'),
    {
        let mut out: Vec<char> = Vec::new();
        let mut i: usize = from;
        while i < to
            invariant
                from <= i <= to <= self.chars@.len(),
                out@ == without(self.chars@.subrange(from as int, i as int), '_'),
            decreases to - i,
        {
            let c = self.chars[i];
            proof {
                assert(self.chars@.subrange(from as int, i + 1).drop_last()
                    =~= self.chars@.subrange(from as int, i as int));
            }
            if c != '_' {
                out.push(c);
            }
            i += 1;
        }
        out
    }

    fn string(&self, start: usize, errors: &mut Vec<SyntaxError>) -> (r: (usize, Option<String>))
        requires
            self.wf(),
            start < self.chars@.len(),
        ensures
            start < r.0 <= self.chars@.len(),
            ({
                let (end, text, found) = string_from(
                    self.chars@,
                    start as int,
                    start + 1,
                    seq![],
                );
                &&& r.0 == end
                &&& text_opt_view(r.1) == text
                &&& faults(final(errors)@) == faults(old(errors)@) + found
            }),
    {
        let mut i: usize = start + 1;
        let mut out = String::new();
        let ghost all = string_from(self.chars@, start as int, start + 1, seq![]);
        proof {
            assert(faults(errors@) + all.2 == faults(old(errors)@) + all.2);
        }
        while i < self.chars.len()
            invariant
                self.wf(),
                start < i <= self.chars@.len(),
                all == string_from(self.chars@, start as int, start + 1, seq![]),
                all.0 == string_from(self.chars@, start as int, i as int, out@).0,
                all.1 == string_from(self.chars@, start as int, i as int, out@).1,
                faults(old(errors)@) + all.2 == faults(errors@) + string_from(
                    self.chars@,
                    start as int,
                    i as int,
                    out@,
                ).2,
            decreases self.chars.len() - i,
        {
            let c = self.chars[i];
            let ghost kept = faults(errors@);
            let ghost rest = string_from(self.chars@, start as int, i as int, out@).2;
            if c == '"' {
                assert(kept + rest =~= kept);
                return (i + 1, Some(out));
            }
            if c == '\\' {
                if self.chars.len() - i <= 1 {
                    errors.push(self.error(start, i + 1, own("unterminated string")));
                    assert(faults(errors@) =~= kept + rest);
                    return (i + 1, None);
                }
                let escaped = self.chars[i + 1];
                match unescape(escaped) {
                    Some(c) => push(&mut out, c),
                    None => {
                        let message = cat3("unknown escape '\\", char_text(escaped).as_str(), "'");
                        errors.push(self.error(i + 1, i + 2, message));
                        proof {
                            let more = string_from(self.chars@, start as int, i + 2, out@).2;
                            assert(faults(errors@) + more =~= kept + rest);
                        }
                    },
                }
                i += 2;
            } else {
                push(&mut out, c);
                i += 1;
            }
        }
        let ghost kept = faults(errors@);
        errors.push(self.error(start, i, own("unterminated string")));
        proof {
            assert(faults(errors@) =~= kept + string_from(
                self.chars@,
                start as int,
                i as int,
                out@,
            ).2);
        }
        (i, None)
    }

    /// Whether a resource location goes on after the word that ends at `i`.
    fn resource_follows(&self, from: usize) -> (r: bool)
        requires
            self.wf(),
            from <= self.chars@.len(),
        ensures
            r == resource_follows(self.chars@, from as int),
    {
        let mut i: usize = from;
        while self.is(i, '/')
            invariant
                self.wf(),
                from <= i <= self.chars@.len(),
                segments_end(self.chars@, from as int) == segments_end(self.chars@, i as int),
            decreases self.chars.len() - i,
        {
            let end = self.run(i + 1, Class::Word);
            if end == i + 1 {
                return false;
            }
            i = end;
        }
        if !self.is(i, ':') || self.ahead(i, 1, ':') {
            return false;
        }
        self.run(i + 1, Class::Word) > i + 1
    }

    fn path(&self, from: usize, class: Class) -> (r: usize)
        requires
            self.wf(),
            from <= self.chars@.len(),
        ensures
            from <= r <= self.chars@.len(),
            r == path_end(self.chars@, from as int, class),
    {
        let mut i: usize = from;
        while self.is(i, '/')
            invariant
                self.wf(),
                from <= i <= self.chars@.len(),
                path_end(self.chars@, from as int, class) == path_end(
                    self.chars@,
                    i as int,
                    class,
                ),
            decreases self.chars.len() - i,
        {
            i = self.run(i + 1, class);
        }
        i
    }

    /// The end of the resource location that goes on after the word that ends at `i`.
    fn resource(&self, i: usize) -> (r: usize)
        requires
            self.wf(),
            i <= self.chars@.len(),
            resource_follows(self.chars@, i as int),
        ensures
            i <= r <= self.chars@.len(),
            r == resource_end(self.chars@, i as int),
    {
        proof {
            reveal(resource_end);
        }
        let colon = self.path(i, Class::Word);
        proof {
            lemma_path_reaches_colon(self.chars@, i as int);
        }
        let head = self.run(colon + 1, Class::ResourcePath);
        let path = self.path(head, Class::ResourcePath);
        if self.is(path, '[') {
            self.group(path + 1).0
        } else {
            path
        }
    }

    fn word(&self, i: usize) -> (r: (usize, TokenKind))
        requires
            self.wf(),
            i < self.chars@.len(),
            is_word(self.chars@[i as int]),
        ensures
            i < r.0 <= self.chars@.len(),
            (r.0 as int, r.1@) == word_at(self.chars@, i as int),
    {
        proof {
            reveal(word_at);
        }
        let end = self.run(i, Class::Word);
        proof {
            lemma_run_end_bounds(self.chars@, i + 1, Class::Word);
        }
        if self.resource_follows(end) {
            let last = self.resource(end);
            return (last, TokenKind::Resource(slice(&self.chars, i, last)));
        }
        let word = slice(&self.chars, i, end);
        match Keyword::parse(word.as_str()) {
            Some(keyword) => (end, TokenKind::Keyword(keyword)),
            None => {
                if reserved(word.as_str()) {
                    (end, TokenKind::Reserved(word))
                } else {
                    (end, TokenKind::Ident(word))
                }
            },
        }
    }

    fn punct(&self, i: usize) -> (r: Option<(Punct, usize)>)
        requires
            self.wf(),
            i < self.chars@.len(),
        ensures
            match r {
                Some((p, n)) => 0 < n && i + n <= self.chars@.len() && punct_at(
                    self.chars@,
                    i as int,
                ) == Some((p, n as int)),
                None => punct_at(self.chars@, i as int) is None,
            },
    {
        proof {
            reveal(punct_at);
        }
        if self.is(i, '.') && self.ahead(i, 1, '.') && self.ahead(i, 2, '=') {
            return Some((Punct::DotDotEq, 3));
        }
        if 1 < self.chars.len() - i {
            if let Some(p) = find_punct_of_two(self.chars[i], self.chars[i + 1]) {
                return Some((p, 2));
            }
        }
        match find_punct_of_one(self.chars[i]) {
            Some(p) => Some((p, 1)),
            None => None,
        }
    }

    fn token(&self, i: usize, errors: &mut Vec<SyntaxError>) -> (r: (usize, Option<TokenKind>))
        requires
            self.wf(),
            i < self.chars@.len(),
        ensures
            i < r.0 <= self.chars@.len(),
            ({
                let (end, kind, found) = token_at(self.chars@, i as int);
                &&& r.0 == end
                &&& kind_opt_view(r.1) == kind
                &&& faults(final(errors)@) == faults(old(errors)@) + found
            }),
    {
        proof {
            reveal(token_at);
        }
        let c = self.chars[i];
        let ghost kept = faults(errors@);
        proof {
            assert(kept + seq![] =~= kept);
        }
        if c == '@' {
            return match self.selector(i) {
                (end, Ok(kind)) => (end, Some(kind)),
                (end, Err(error)) => {
                    errors.push(error);
                    assert(faults(errors@) =~= kept + seq![error@]);
                    (end, None)
                },
            };
        }
        if c == '"' {
            return match self.string(i, errors) {
                (end, Some(text)) => (end, Some(TokenKind::Str(text))),
                (end, None) => (end, None),
            };
        }
        if '0' <= c && c <= '9' {
            return match self.number(i) {
                (end, Ok(kind)) => (end, Some(kind)),
                (end, Err(error)) => {
                    errors.push(error);
                    assert(faults(errors@) =~= kept + seq![error@]);
                    (end, None)
                },
            };
        }
        if c == '_' && !(1 < self.chars.len() - i && word_char(self.chars[i + 1])) {
            return (i + 1, Some(TokenKind::Punct(Punct::Underscore)));
        }
        if ('a' <= c && c <= 'z') || ('A' <= c && c <= 'Z') || c == '_' {
            let (end, kind) = self.word(i);
            return (end, Some(kind));
        }
        match self.punct(i) {
            Some((p, n)) => (i + n, Some(TokenKind::Punct(p))),
            None => {
                let message = cat3("unexpected character '", char_text(c).as_str(), "'");
                let error = self.error(i, i + 1, message);
                errors.push(error);
                assert(faults(errors@) =~= kept + seq![error@]);
                (i + 1, None)
            },
        }
    }
}

spec fn result_view(r: Result<TokenKind, SyntaxError>) -> Result<model::TokenKind, model::Fault> {
    match r {
        Ok(kind) => Ok(kind@),
        Err(error) => Err(error@),
    }
}

spec fn kind_opt_view(r: Option<TokenKind>) -> Option<model::TokenKind> {
    match r {
        Some(kind) => Some(kind@),
        None => None,
    }
}

fn unescape(c: char) -> (r: Option<char>)
    ensures
        r == unescaped(c),
{
    if c == '\\' {
        Some('\\')
    } else if c == '"' {
        Some('"')
    } else if c == 'n' {
        Some('\n')
    } else if c == 't' {
        Some('\t')
    } else if c == 'r' {
        Some('\r')
    } else if c == '0' {
        Some('\0')
    } else {
        None
    }
}

fn digit_value(c: char) -> (r: u64)
    ensures
        r == digit_of(c),
        r <= 36,
{
    let code: u64 = c as u64;
    if '0' <= c && c <= '9' {
        code - 48
    } else if 'a' <= c && c <= 'z' {
        code - 97 + 10
    } else if 'A' <= c && c <= 'Z' {
        code - 65 + 10
    } else {
        36
    }
}

/// The value of a run of digits, unless one of them is no digit in that base or the
/// value is more than an `i64` holds.
fn number_value(digits: &Vec<char>, radix: u64) -> (r: Option<i64>)
    requires
        2 <= radix <= 36,
    ensures
        match r {
            Some(value) => number_of(digits@, radix as int) == Some(value as int),
            None => match number_of(digits@, radix as int) {
                Some(value) => value > i64::MAX,
                None => true,
            },
        },
{
    let mut value: u64 = 0;
    let mut i: usize = 0;
    while i < digits.len()
        invariant
            i <= digits@.len(),
            2 <= radix <= 36,
            value <= i64::MAX,
            number_of(digits@.take(i as int), radix as int) == Some(value as int),
        decreases digits.len() - i,
    {
        let d = digit_value(digits[i]);
        proof {
            assert(digits@.take(i + 1).drop_last() =~= digits@.take(i as int));
            assert(digits@.take(i + 1).last() == digits@[i as int]);
        }
        if d >= radix {
            proof {
                lemma_number_keeps(digits@, i + 1, radix as int);
            }
            return None;
        }
        assert(value as int * radix as int <= i64::MAX * 36) by (nonlinear_arith)
            requires
                value <= i64::MAX,
                2 <= radix <= 36,
        ;
        let next: u128 = value as u128 * radix as u128 + d as u128;
        if next > 0x7fff_ffff_ffff_ffff {
            proof {
                lemma_number_keeps(digits@, i + 1, radix as int);
            }
            return None;
        }
        value = next as u64;
        i += 1;
    }
    assert(digits@.take(i as int) =~= digits@);
    Some(value as i64)
}

pub fn lex(src: &str) -> (r: (Vec<Token>, Vec<SyntaxError>))
    ensures
        (tokens_view(r.0@), faults(r.1@)) == lexed(src@),
{
    let source = Source::new(src);
    let mut tokens: Vec<Token> = Vec::new();
    let mut errors: Vec<SyntaxError> = Vec::new();
    let mut i: usize = if source.is(0, '\u{feff}') {
        1
    } else {
        0
    };
    let ghost all = lexed(src@);
    proof {
        assert(tokens_view(tokens@) + all.0 =~= all.0);
        assert(faults(errors@) + all.1 =~= all.1);
    }
    loop
        invariant
            source.wf(),
            source.chars@ == src@,
            i <= source.chars@.len(),
            all.0 == tokens_view(tokens@) + tokens_from(src@, i as int).0,
            all.1 == faults(errors@) + tokens_from(src@, i as int).1,
            all == lexed(src@),
        decreases source.chars.len() - i,
    {
        let ghost rest = tokens_from(src@, i as int);
        let ghost before = faults(errors@);
        let ghost taken = tokens_view(tokens@);
        let start = source.trivia(i, &mut errors);
        if start >= source.chars.len() {
            proof {
                assert(taken + rest.0 =~= taken);
            }
            return (tokens, errors);
        }
        let (end, kind) = source.token(start, &mut errors);
        let ghost skipped = trivia_end(src@, i as int).1;
        let ghost found = token_at(src@, start as int).2;
        let ghost after = tokens_from(src@, end as int);
        proof {
            assert(((before + skipped) + found) + after.1 =~= before + ((skipped + found)
                + after.1));
        }
        match kind {
            Some(kind) => {
                let token = Token { kind, span: source.span(start, end) };
                let ghost shown = token@;
                tokens.push(token);
                proof {
                    assert(tokens_view(tokens@) + after.0 =~= taken + (seq![shown] + after.0));
                }
            },
            None => {},
        }
        i = end;
    }
}

// ---------------------------------------------------------------------------
// Lemmas.
// ---------------------------------------------------------------------------

/// Offsets grow from one character to the next.
pub proof fn lemma_offset_grows(s: Seq<char>, i: int, j: int)
    requires
        i <= j,
    ensures
        offset(s, i) <= offset(s, j),
        0 <= i < j ==> offset(s, i) < offset(s, j),
    decreases j - i,
{
    if i < j {
        lemma_offset_grows(s, i, j - 1);
    }
}

proof fn lemma_offset_shifts(s: Seq<char>, i: int)
    requires
        1 <= i <= s.len(),
    ensures
        offset(s, i) == width(s[0]) + offset(s.drop_first(), i - 1),
    decreases i,
{
    if i > 1 {
        lemma_offset_shifts(s, i - 1);
    } else {
        assert(offset(s, 0) == 0);
    }
}

/// The offset of the end of a text is its length in bytes.
pub proof fn lemma_offset_is_byte_length(s: Seq<char>)
    ensures
        offset(s, s.len() as int) == vstd::utf8::encode_utf8(s).len(),
    decreases s.len(),
{
    if s.len() > 0 {
        lemma_offset_shifts(s, s.len() as int);
        lemma_offset_is_byte_length(s.drop_first());
        vstd::utf8::char_is_scalar(s[0]);
    }
}

pub(crate) proof fn lemma_run_end_bounds(s: Seq<char>, i: int, class: Class)
    ensures
        0 <= i <= s.len() ==> i <= run_end(s, i, class) <= s.len(),
    decreases s.len() - i,
{
    if 0 <= i < s.len() && class.has(s[i]) {
        lemma_run_end_bounds(s, i + 1, class);
    }
}

/// Where a resource location goes on, its path segments end at the colon.
pub(crate) proof fn lemma_path_reaches_colon(s: Seq<char>, i: int)
    requires
        0 <= i <= s.len(),
        resource_follows(s, i),
    ensures
        at(s, path_end(s, i, Class::Word), ':'),
    decreases s.len() - i,
{
    lemma_run_end_bounds(s, i + 1, Class::Word);
    if at(s, i, '/') {
        lemma_path_reaches_colon(s, run_end(s, i + 1, Class::Word));
    }
}

/// More digits do not make a number that is no number, or too large, a small one.
proof fn lemma_number_keeps(digits: Seq<char>, i: int, radix: int)
    requires
        0 <= i <= digits.len(),
        radix >= 2,
    ensures
        match number_of(digits, radix) {
            Some(value) => match number_of(digits.take(i), radix) {
                Some(high) => 0 <= high <= value,
                None => false,
            },
            None => true,
        },
    decreases digits.len(),
{
    if digits.len() == i {
        assert(digits.take(i) =~= digits);
        lemma_number_natural(digits, radix);
    } else {
        let shorter = digits.drop_last();
        assert(shorter.take(i) =~= digits.take(i));
        lemma_number_keeps(shorter, i, radix);
        lemma_number_natural(shorter, radix);
        if number_of(digits, radix) is Some {
            let high = number_of(shorter, radix)->0;
            assert(high * radix >= high) by (nonlinear_arith)
                requires
                    high >= 0,
                    radix >= 2,
            ;
        }
    }
}

proof fn lemma_number_natural(digits: Seq<char>, radix: int)
    requires
        radix >= 2,
    ensures
        number_of(digits, radix) is Some ==> number_of(digits, radix)->0 >= 0,
    decreases digits.len(),
{
    if digits.len() > 0 {
        lemma_number_natural(digits.drop_last(), radix);
        if number_of(digits, radix) is Some {
            let high = number_of(digits.drop_last(), radix)->0;
            assert(high * radix >= 0) by (nonlinear_arith)
                requires
                    high >= 0,
                    radix >= 2,
            ;
        }
    }
}

} // verus!
