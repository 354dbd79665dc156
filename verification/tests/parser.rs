//! What a text is read as.

use mwlc::syntax::ast::{Expr, FnItem, ItemKind, SourceFile, Stmt};
use mwlc::syntax::lexer::TokenKind;
use mwlc::syntax::parser::parse;
use mwlc::syntax::SyntaxError;

fn parse_ok(src: &str) -> SourceFile {
    let (file, errors) = parse(src);
    assert!(errors.is_empty(), "{errors:?}");
    file
}

fn parse_err(src: &str) -> Vec<SyntaxError> {
    parse(src).1
}

fn fn_item(file: &SourceFile, i: usize) -> &FnItem {
    match &file.items[i].kind {
        ItemKind::Fn(f) => f,
        other => panic!("expected a function, found {other:?}"),
    }
}

#[test]
fn a_function_with_one_macro_call() {
    let file = parse_ok(r#"fn main() { raw!("say hi"); }"#);
    assert_eq!(file.items.len(), 1);
    let f = fn_item(&file, 0);
    assert_eq!(f.name.name, "main");
    assert_eq!(f.body.stmts.len(), 1);
    let Stmt::Expr(Expr::Macro(call)) = &f.body.stmts[0] else {
        panic!("expected a macro call")
    };
    assert_eq!(call.name.name, "raw");
    assert_eq!(call.tokens.len(), 1);
    assert_eq!(call.tokens[0].kind, TokenKind::Str("say hi".to_owned()));
}

#[test]
fn an_empty_body_is_fine() {
    let file = parse_ok("fn main() {}");
    assert!(fn_item(&file, 0).body.stmts.is_empty());
}

#[test]
fn several_items_and_statements() {
    let file = parse_ok(
        r#"
        fn a() { raw!("x"); raw!("y"); }
        fn b() { raw!("z"); }
        "#,
    );
    assert_eq!(file.items.len(), 2);
    assert_eq!(fn_item(&file, 0).body.stmts.len(), 2);
}

#[test]
fn attributes_attach_to_the_item() {
    let file = parse_ok("#[tick] fn main() {}");
    assert_eq!(file.items[0].attrs.len(), 1);
    assert_eq!(
        file.items[0].attrs[0].tokens[0].kind,
        TokenKind::Ident("tick".to_owned())
    );
}

#[test]
fn spans_cover_the_whole_construct() {
    let src = "fn main() { raw!(\"x\"); }";
    let file = parse_ok(src);
    assert_eq!(&src[file.items[0].span.range()], src);
    assert_eq!(
        &src[fn_item(&file, 0).body.span.range()],
        "{ raw!(\"x\"); }"
    );
}

#[test]
fn a_missing_semicolon_is_reported_where_it_should_be() {
    let src = r#"fn main() { raw!("x") }"#;
    let errors = parse_err(src);
    assert_eq!(errors.len(), 1);
    assert!(errors[0].message.contains(';'), "{errors:?}");
}

#[test]
fn a_reserved_word_says_it_is_reserved() {
    let errors = parse_err("async fn main() {}");
    assert!(
        errors[0].message.contains("reserved") && errors[0].message.contains("async"),
        "{errors:?}"
    );
}

#[test]
fn parsing_recovers_and_keeps_finding_items() {
    let (file, errors) = parse("nonsense fn good() {}");
    assert_eq!(errors.len(), 1);
    assert_eq!(file.items.len(), 1);
    assert_eq!(fn_item(&file, 0).name.name, "good");
}

#[test]
fn a_bad_statement_does_not_swallow_the_rest_of_the_block() {
    let (file, errors) = parse(r#"fn main() { let = 1; raw!("x"); }"#);
    assert_eq!(errors.len(), 1);
    assert_eq!(fn_item(&file, 0).body.stmts.len(), 1);
}

#[test]
fn statement_attributes_only_go_where_they_mean_something() {
    let errors = parse_err("fn main() { #[inline] let x = 1; }");
    assert!(errors[0].message.contains("only apply to"), "{errors:?}");
}

#[test]
fn control_flow_parses() {
    parse_ok("fn main() { if a { raw!(\"x\"); } }");
    parse_ok("fn main() { if a { } else { } }");
    parse_ok("fn main() { if a { } else if b { } else { } }");
    parse_ok("fn main() { while a { } }");
    parse_ok("fn main() { loop { break; continue; return; } }");
    parse_ok("fn main() { #[no_inline] if a { } }");
}

#[test]
fn lexer_errors_come_through_too() {
    let errors = parse_err("fn main() { raw!(\"unterminated); }");
    assert!(!errors.is_empty());
}
#[test]
fn a_struct_item_and_its_fields() {
    let file = parse_ok("struct Point { x: i32, y: bool }");
    let ItemKind::Struct(item) = &file.items[0].kind else {
        panic!("expected a struct")
    };
    assert_eq!(item.name.name, "Point");
    assert_eq!(item.fields.len(), 2);
    assert_eq!(item.fields[1].ty.name, "bool");
}

#[test]
fn a_struct_literal_is_an_expression() {
    let file = parse_ok("fn main() { let p = Point { x: 1 }; }");
    let Stmt::Let(let_stmt) = &fn_item(&file, 0).body.stmts[0] else {
        panic!("expected a let")
    };
    let Expr::Struct(lit) = &let_stmt.value else {
        panic!("expected a struct literal, found {:?}", let_stmt.value)
    };
    assert_eq!(lit.name.name, "Point");
    assert_eq!(lit.fields[0].name.name, "x");
}

#[test]
fn a_field_access_chains() {
    let file = parse_ok("fn main() { let a = o.inner.a; }");
    let Stmt::Let(let_stmt) = &fn_item(&file, 0).body.stmts[0] else {
        panic!("expected a let")
    };
    let Expr::Field(outer) = &let_stmt.value else {
        panic!("expected a field access")
    };
    assert_eq!(outer.name.name, "a");
    assert!(matches!(*outer.base, Expr::Field(_)));
}

#[test]
fn a_method_call_parses() {
    let file = parse_ok("fn main() { v.push(1); }");
    let Stmt::Expr(Expr::Method(call)) = &fn_item(&file, 0).body.stmts[0] else {
        panic!("expected a method call")
    };
    assert_eq!(call.name.name, "push");
    assert_eq!(call.args.len(), 1);
}

#[test]
fn an_index_parses() {
    let file = parse_ok("fn main() { let x = v[i]; }");
    let Stmt::Let(let_stmt) = &fn_item(&file, 0).body.stmts[0] else {
        panic!("expected a let")
    };
    assert!(matches!(let_stmt.value, Expr::Index(_)));
}

#[test]
fn a_brace_after_a_condition_opens_the_block() {
    let file = parse_ok("fn main() { if p { } }");
    let Stmt::If(if_stmt) = &fn_item(&file, 0).body.stmts[0] else {
        panic!("expected an if")
    };
    assert!(matches!(if_stmt.cond, Expr::Path(_)));
    assert!(if_stmt.taken.stmts.is_empty());
}

#[test]
fn parentheses_bring_the_literal_back() {
    let file = parse_ok("fn main() { if (Flag { on: true }) == f { } }");
    let Stmt::If(if_stmt) = &fn_item(&file, 0).body.stmts[0] else {
        panic!("expected an if")
    };
    let Expr::Binary(cond) = &if_stmt.cond else {
        panic!("expected a comparison")
    };
    assert!(matches!(*cond.lhs, Expr::Struct(_)));
}

#[test]
fn reading_goes_on_at_the_next_item_of_any_kind() {
    for (src, name) in [
        ("nonsense struct P { x: i32 }", "P"),
        ("nonsense enum P { A }", "P"),
        ("nonsense fn p() {}", "p"),
    ] {
        let (file, errors) = parse(src);
        assert_eq!(errors.len(), 1, "{src}: {errors:?}");
        assert_eq!(file.items.len(), 1, "{src}");
        let found = match &file.items[0].kind {
            ItemKind::Fn(f) => &f.name.name,
            ItemKind::Struct(s) => &s.name.name,
            ItemKind::Enum(e) => &e.name.name,
            other => panic!("{other:?}"),
        };
        assert_eq!(found, name);
    }
    let (file, errors) = parse("nonsense impl P { fn f(self) {} }");
    assert_eq!(errors.len(), 1, "{errors:?}");
    assert_eq!(file.items.len(), 1);
    assert!(matches!(file.items[0].kind, ItemKind::Impl(_)));
}

#[test]
fn an_if_let_takes_no_attribute() {
    let src = "fn main() { #[inline] if let Some(v) = a { } }";
    let errors = parse_err(src);
    assert_eq!(errors.len(), 1, "{errors:?}");
}
