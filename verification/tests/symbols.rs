//! The names an editor offers and explains.

use mwlc::schema::{Node, NodeKind, Schema};
use mwlc::symbols::{complete, hover, visible, Symbol, SymbolKind};
use mwlc::syntax::Span;

fn symbol(name: &str, kind: SymbolKind, ty: &str, at: usize, scope: (usize, usize)) -> Symbol {
    Symbol {
        name: name.to_owned(),
        kind,
        ty: ty.to_owned(),
        span: Span {
            start: at,
            end: at + name.len(),
        },
        scope: Span {
            start: scope.0,
            end: scope.1,
        },
    }
}

fn program() -> Vec<Symbol> {
    vec![
        symbol("say", SymbolKind::Function, "fn say()", 0, (0, 100)),
        symbol("score", SymbolKind::Binding, "i32", 20, (10, 60)),
        symbol("score", SymbolKind::Binding, "bool", 40, (30, 50)),
        symbol("other", SymbolKind::Binding, "i32", 70, (65, 90)),
    ]
}

fn command(word: &str) -> (String, Node) {
    (
        word.to_owned(),
        Node {
            kind: NodeKind::Literal,
            children: Vec::new(),
            executable: true,
            parser: None,
            redirect: None,
        },
    )
}

fn schema() -> Schema {
    Schema::from_tree(&Node {
        kind: NodeKind::Root,
        children: vec![command("reload"), command("save_all"), command("say")],
        executable: false,
        parser: None,
        redirect: None,
    })
}

#[test]
fn a_name_is_visible_where_it_can_be_used() {
    let types = |at| -> Vec<String> {
        visible(&program(), at).into_iter().map(|s| s.ty).collect()
    };
    assert_eq!(types(45), vec!["bool", "i32", "fn say()"]);
    assert_eq!(types(55), vec!["i32", "fn say()"]);
    assert_eq!(types(15), vec!["fn say()"]);
    assert_eq!(types(75), vec!["i32", "fn say()"]);
    assert!(types(101).is_empty());
}

#[test]
fn completion_offers_names_and_commands() {
    let schema = schema();
    let shown = |prefix: &str, at| -> Vec<(String, u32, String)> {
        complete(&program(), Some(&schema), prefix, at)
            .into_iter()
            .map(|item| (item.label, item.kind, item.detail))
            .collect()
    };
    let item = |label: &str, kind, detail: &str| (label.to_owned(), kind, detail.to_owned());
    assert_eq!(
        shown("s", 55),
        vec![
            item("score", 6, "i32"),
            item("say", 3, "fn say()"),
            item("save_all", 3, "save_all"),
            item("say", 3, "say"),
        ]
    );
    assert_eq!(shown("rel", 55), vec![item("reload", 3, "reload")]);
    assert!(complete(&program(), None, "rel", 55).is_empty());
}

#[test]
fn a_shadowing_name_answers() {
    let schema = schema();
    let about = |word: &str, at| hover(&program(), Some(&schema), word, at);
    assert_eq!(about("score", 45), Some("```mwl\nscore: bool\n```".to_owned()));
    assert_eq!(about("score", 55), Some("```mwl\nscore: i32\n```".to_owned()));
    assert_eq!(about("say", 55), Some("```mwl\nfn say()\n```".to_owned()));
    assert_eq!(
        about("reload", 55),
        Some("```mwl\nreload()\n```\n---\n```mcfunction\nreload\n```".to_owned())
    );
    assert_eq!(about("nothing", 55), None);
    assert_eq!(hover(&program(), None, "reload", 55), None);
}

#[test]
fn the_later_of_two_bindings_answers() {
    let symbols = vec![
        symbol("x", SymbolKind::Binding, "i32", 10, (0, 100)),
        symbol("x", SymbolKind::Binding, "bool", 30, (0, 100)),
    ];
    let types = |at| -> Vec<String> {
        visible(&symbols, at).into_iter().map(|s| s.ty).collect()
    };
    assert_eq!(types(50), vec!["bool", "i32"]);
    assert_eq!(types(20), vec!["i32"]);
    assert_eq!(
        hover(&symbols, None, "x", 50),
        Some("```mwl\nx: bool\n```".to_owned())
    );
}
