//! A language server, message by message.

use mwlc::driver::compile;
use mwlc::editor::position;
use mwlc::emit::Options;
use mwlc::server::{Action, Message, Session, Spot};

fn message(method: &str) -> Message {
    Message {
        method: method.to_owned(),
        has_id: false,
        uri: None,
        opened: None,
        changed: None,
        saved: None,
        line: 0,
        column: 0,
    }
}

fn about(method: &str, uri: &str) -> Message {
    Message {
        uri: Some(uri.to_owned()),
        ..message(method)
    }
}

fn open(session: &mut Session, uri: &str, text: &str) -> Action {
    session.step(Message {
        opened: Some(text.to_owned()),
        ..about("textDocument/didOpen", uri)
    })
}

fn hover(session: &mut Session, uri: &str, line: u64, column: u64) -> Option<Spot> {
    match session.step(Message {
        has_id: true,
        line,
        column,
        ..about("textDocument/hover", uri)
    }) {
        Action::Hover(spot) => spot,
        other => panic!("{other:?}"),
    }
}

fn published(uri: &str, text: &str) -> Action {
    Action::Publish {
        uri: uri.to_owned(),
        text: text.to_owned(),
    }
}

const URI: &str = "file:///tmp/x.mwl";

#[test]
fn a_broken_document_comes_back_as_a_diagnostic() {
    let mut session = Session::new();
    let text = "fn main() { let = 1; }";
    assert_eq!(session.step(Message { has_id: true, ..message("initialize") }), Action::Greet);
    assert_eq!(open(&mut session, URI, text), published(URI, text));
    let report = compile(text, "mwl", &Options::default()).expect_err("it is broken");
    assert!(report.problems[0].message().contains("expected a name"), "{report:?}");
    // Where, not just what: an editor puts the squiggle on the range.
    assert_eq!(position(text, report.problems[0].range().0).0, 0);
    assert_eq!(session.step(message("exit")), Action::Stop);
}

#[test]
fn a_document_that_compiles_comes_back_empty() {
    let mut session = Session::default();
    let text = "fn main() { let a = 1; }";
    assert_eq!(open(&mut session, URI, text), published(URI, text));
    assert!(compile(text, "mwl", &Options::default()).is_ok());
}

#[test]
fn a_document_has_its_last_text_until_it_is_closed() {
    let mut session = Session::new();
    open(&mut session, URI, "one");
    open(&mut session, "file:///tmp/y.mwl", "other");
    assert_eq!(hover(&mut session, URI, 0, 1).expect("it is open").text, "one");
    let changed = Message {
        changed: Some("two".to_owned()),
        ..about("textDocument/didChange", URI)
    };
    assert_eq!(session.step(changed), published(URI, "two"));
    assert_eq!(hover(&mut session, URI, 0, 1).expect("it is open").text, "two");
    let saved = Message {
        saved: Some("three".to_owned()),
        ..about("textDocument/didSave", URI)
    };
    assert_eq!(session.step(saved), published(URI, "three"));
    assert_eq!(session.step(about("textDocument/didSave", URI)), Action::Nothing);
    assert_eq!(hover(&mut session, URI, 0, 1).expect("it is open").text, "three");
    assert_eq!(session.step(about("textDocument/didClose", URI)), Action::Nothing);
    assert_eq!(hover(&mut session, URI, 0, 1), None);
    assert_eq!(
        hover(&mut session, "file:///tmp/y.mwl", 0, 1).expect("it is open").text,
        "other"
    );
}

#[test]
fn a_place_comes_with_the_word_around_it() {
    let mut session = Session::new();
    open(&mut session, URI, "fn main() {\n  réload(now);\n}");
    let spot = hover(&mut session, URI, 1, 11).expect("on a word");
    assert_eq!(&spot.text[spot.start..spot.end], "now");
    assert_eq!(&spot.text[spot.start..spot.at], "no");
    assert_eq!(hover(&mut session, URI, 0, 10), None, "between two words");
    let complete = Message {
        has_id: true,
        line: 0,
        column: 10,
        ..about("textDocument/completion", URI)
    };
    match session.step(complete) {
        Action::Complete(Some(spot)) => assert_eq!((spot.start, spot.at, spot.end), (10, 10, 10)),
        other => panic!("{other:?}"),
    }
    assert_eq!(
        session.step(about("textDocument/completion", "file:///nowhere")),
        Action::Complete(None)
    );
}

#[test]
fn only_what_waits_is_refused() {
    let mut session = Session::new();
    assert_eq!(session.step(message("textDocument/rename")), Action::Nothing);
    let request = Message {
        has_id: true,
        ..message("textDocument/rename")
    };
    assert_eq!(session.step(request), Action::Refuse);
    assert_eq!(session.step(Message { has_id: true, ..message("shutdown") }), Action::Agree);
    assert_eq!(session.step(about("textDocument/didOpen", URI)), Action::Nothing);
}
