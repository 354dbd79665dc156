//! What the tokens of a text are.

use mwlc::syntax::lexer::{lex, Keyword, Punct, TokenKind};
use mwlc::syntax::SyntaxError;

fn kinds(src: &str) -> Vec<TokenKind> {
    let (tokens, errors) = lex(src);
    assert!(errors.is_empty(), "{errors:?}");
    tokens.into_iter().map(|t| t.kind).collect()
}

fn errors(src: &str) -> Vec<SyntaxError> {
    lex(src).1
}

fn ident(name: &str) -> TokenKind {
    TokenKind::Ident(name.to_owned())
}

#[test]
fn spans_point_at_the_source_bytes() {
    let src = "fn  main";
    let (tokens, _) = lex(src);
    assert_eq!(&src[tokens[0].span.range()], "fn");
    assert_eq!(&src[tokens[1].span.range()], "main");
}

#[test]
fn spans_survive_multibyte_characters() {
    let src = r#""日本語" x"#;
    let (tokens, _) = lex(src);
    assert_eq!(&src[tokens[1].span.range()], "x");
}

#[test]
fn keywords_are_distinct_from_identifiers() {
    assert_eq!(
        kinds("fn value let"),
        vec![
            TokenKind::Keyword(Keyword::Fn),
            ident("value"),
            TokenKind::Keyword(Keyword::Let),
        ]
    );
}

#[test]
fn reserved_words_are_their_own_kind() {
    assert_eq!(
        kinds("async"),
        vec![TokenKind::Reserved("async".to_owned())]
    );
}

#[test]
fn integer_literals_in_every_base() {
    assert_eq!(
        kinds("7 0xFF 0b1010 1_000"),
        vec![
            TokenKind::Int(7),
            TokenKind::Int(255),
            TokenKind::Int(10),
            TokenKind::Int(1000),
        ]
    );
}

#[test]
fn an_integer_too_large_for_i32_is_an_error() {
    let errors = errors("2147483648");
    assert_eq!(errors.len(), 1);
    assert!(errors[0].message.contains("i32"), "{errors:?}");
}

#[test]
fn there_are_no_float_literals() {
    assert_eq!(
        kinds("1.5"),
        vec![
            TokenKind::Int(1),
            TokenKind::Punct(Punct::Dot),
            TokenKind::Int(5),
        ]
    );
}

#[test]
fn strings_and_their_escapes() {
    assert_eq!(
        kinds(r#""a\nb\"c\\d""#),
        vec![TokenKind::Str("a\nb\"c\\d".to_owned())]
    );
    assert!(!errors(r#""unterminated"#).is_empty());
    assert!(!errors(r#""bad \q escape""#).is_empty());
}

#[test]
fn block_comments_nest() {
    assert_eq!(
        kinds("a /* one /* two */ still */ b"),
        vec![ident("a"), ident("b")]
    );
    assert!(!errors("/* unterminated").is_empty());
}

#[test]
fn line_comments_end_at_the_newline() {
    assert_eq!(kinds("a // b\nc"), vec![ident("a"), ident("c")]);
}

#[test]
fn a_selector_is_one_token_even_with_spaces_inside_brackets() {
    assert_eq!(
        kinds("@e[type=zombie, distance=..8]"),
        vec![TokenKind::Selector(
            "@e[type=zombie, distance=..8]".to_owned()
        )]
    );
    assert_eq!(kinds("@s"), vec![TokenKind::Selector("@s".to_owned())]);
}

#[test]
fn a_selector_keeps_nested_brackets_and_quotes_balanced() {
    let src = r#"@e[nbt={Tags:["a]b"]}]"#;
    assert_eq!(kinds(src), vec![TokenKind::Selector(src.to_owned())]);
}

#[test]
fn a_resource_path_may_hold_dots_and_dashes() {
    assert_eq!(
        kinds("minecraft:block.note_block.pling"),
        vec![TokenKind::Resource(
            "minecraft:block.note_block.pling".to_owned()
        )]
    );
    assert_eq!(
        kinds("ns:some-thing/deep.id"),
        vec![TokenKind::Resource("ns:some-thing/deep.id".to_owned())]
    );
}

#[test]
fn resource_locations_are_one_token() {
    assert_eq!(
        kinds("minecraft:stone"),
        vec![TokenKind::Resource("minecraft:stone".to_owned())]
    );
    assert_eq!(
        kinds("ns:foo/bar"),
        vec![TokenKind::Resource("ns:foo/bar".to_owned())]
    );
}

#[test]
fn a_double_colon_is_a_path_separator_not_a_resource() {
    assert_eq!(
        kinds("foo::bar"),
        vec![
            ident("foo"),
            TokenKind::Punct(Punct::ColonColon),
            ident("bar")
        ]
    );
}

#[test]
fn a_type_annotation_without_a_space_lexes_as_a_resource() {
    assert_eq!(
        kinds("let x:i32"),
        vec![
            TokenKind::Keyword(Keyword::Let),
            TokenKind::Resource("x:i32".to_owned()),
        ]
    );
    assert_eq!(
        kinds("let x: i32"),
        vec![
            TokenKind::Keyword(Keyword::Let),
            ident("x"),
            TokenKind::Punct(Punct::Colon),
            ident("i32"),
        ]
    );
}

#[test]
fn punctuation_prefers_the_longest_match() {
    assert_eq!(
        kinds("..= .. . == = -> => && & <= <"),
        vec![
            TokenKind::Punct(Punct::DotDotEq),
            TokenKind::Punct(Punct::DotDot),
            TokenKind::Punct(Punct::Dot),
            TokenKind::Punct(Punct::EqEq),
            TokenKind::Punct(Punct::Eq),
            TokenKind::Punct(Punct::Arrow),
            TokenKind::Punct(Punct::FatArrow),
            TokenKind::Punct(Punct::AndAnd),
            TokenKind::Punct(Punct::And),
            TokenKind::Punct(Punct::Le),
            TokenKind::Punct(Punct::Lt),
        ]
    );
}

#[test]
fn a_macro_call_is_an_identifier_a_bang_and_a_group() {
    assert_eq!(
        kinds(r#"raw!("say hi")"#),
        vec![
            ident("raw"),
            TokenKind::Punct(Punct::Bang),
            TokenKind::Punct(Punct::LParen),
            TokenKind::Str("say hi".to_owned()),
            TokenKind::Punct(Punct::RParen),
        ]
    );
}

#[test]
fn an_unknown_character_is_reported_and_lexing_carries_on() {
    let (tokens, errors) = lex("a $ b");
    assert_eq!(errors.len(), 1);
    assert_eq!(
        tokens.into_iter().map(|t| t.kind).collect::<Vec<_>>(),
        vec![ident("a"), ident("b")]
    );
}
