//! What an editor asks.

use mwlc::driver::compile;
use mwlc::editor::{
    frame, header_of, offset_of, path_of, position, request_of, word, Header, Request,
};
use mwlc::emit::Options;
use mwlc::schema::{Node, NodeKind, Schema};
use mwlc::symbols::complete;

const COMMANDS: &str = r#"{"type":"root","children":{
    "data":{"type":"literal","children":{"get":{"type":"literal","children":{
        "entity":{"type":"literal","children":{
            "target":{"type":"argument","parser":"minecraft:entity","executable":true,"children":{
                "path":{"type":"argument","parser":"minecraft:nbt_path","executable":true}}}}}}}}},
    "execute":{"type":"literal","children":{
        "run":{"type":"literal","executable":true,"redirect":["root"]}}},
    "experiment":{"type":"literal","children":{
        "thing":{"type":"argument","parser":"minecraft:invented","executable":true}}},
    "function":{"type":"literal","children":{
        "name":{"type":"argument","parser":"minecraft:function","executable":true}}},
    "playsound":{"type":"literal","children":{
        "sound":{"type":"argument","parser":"minecraft:resource_location","children":{
            "master":{"type":"literal","children":{
                "targets":{"type":"argument","parser":"minecraft:entity","executable":true}}}}}}},
    "reload":{"type":"literal","executable":true},
    "setblock":{"type":"literal","children":{
        "pos":{"type":"argument","parser":"minecraft:block_pos","children":{
            "block":{"type":"argument","parser":"minecraft:block_state","executable":true}}}}},
    "tellraw":{"type":"literal","children":{
        "targets":{"type":"argument","parser":"minecraft:entity","children":{
            "message":{"type":"argument","parser":"minecraft:component","executable":true}}}}}
}}"#;

fn node(value: &serde_json::Value) -> Node {
    let mut children = Vec::new();
    if let Some(found) = value["children"].as_object() {
        for (name, child) in found {
            children.push((name.clone(), node(child)));
        }
    }
    Node {
        kind: match value["type"].as_str() {
            Some("literal") => NodeKind::Literal,
            Some("argument") => NodeKind::Argument,
            _ => NodeKind::Root,
        },
        children,
        executable: value["executable"].as_bool().unwrap_or(false),
        parser: value["parser"].as_str().map(str::to_owned),
        redirect: value["redirect"].as_array().map(|to| {
            to.iter().filter_map(|name| name.as_str().map(str::to_owned)).collect()
        }),
    }
}

fn schema() -> Schema {
    let tree: serde_json::Value = serde_json::from_str(COMMANDS).expect("the fixture parses");
    Schema::from_tree(&node(&tree))
}

#[test]
fn a_broken_file_produces_one_diagnostic() {
    let text = "fn main() { let = 1; }";
    let report = compile(text, "mwl", &Options::default()).unwrap_err();
    assert_eq!(report.problems.len(), 1, "{report:?}");
    let (start, _) = report.problems[0].range();
    assert_eq!(position(text, start).0, 0);
}

#[test]
fn a_file_that_compiles_produces_none() {
    assert!(compile("fn main() { let a = 1; }", "mwl", &Options::default()).is_ok());
}

#[test]
fn a_position_counts_lines_and_utf16_units() {
    let text = "fn main() {\n    let x = \"é\" + 1;\n}";
    let at = text.find('+').expect("there is one");
    assert_eq!(position(text, at), (1, 16));
}

#[test]
fn an_offset_undoes_a_position() {
    let text = "fn main() {\n    let x = \"é\" + 1;\n}";
    let at = text.find('+').expect("there is one");
    let (line, column) = position(text, at);
    assert_eq!(offset_of(text, line, column), at);
    assert_eq!(
        offset_of(text, 0, 99),
        text.find('\n').expect("there is one")
    );
    assert_eq!(offset_of(text, 99, 0), text.len());
}

#[test]
fn every_character_is_found_again() {
    let text = "a\u{1f600}b\n\né\u{10000}\n";
    for (at, _) in text.char_indices() {
        let (line, column) = position(text, at);
        assert_eq!(offset_of(text, line, column), at);
    }
    assert_eq!(position(text, 5), (0, 3));
}

#[test]
fn a_word_is_the_identifier_the_cursor_is_in() {
    let text = "    play_sound(minecraft:stone, @a);";
    let at = text.find("sound").expect("there");
    let (start, end) = word(text, at);
    assert_eq!(&text[start..end], "play_sound");
    let space = word(text, 0);
    assert_eq!(space.0, space.1);
}

#[test]
fn a_command_is_spelled_in_the_order_the_tree_gives() {
    let tree: serde_json::Value = serde_json::from_str(
        r#"{"type":"root","children":{"playsound":{"type":"literal","children":{
            "sound":{"type":"argument","parser":"minecraft:resource_location","children":{
            "master":{"type":"literal","children":{
            "targets":{"type":"argument","parser":"minecraft:entity","executable":true}}}}}}}}}"#,
    )
    .expect("it parses");
    let schema = Schema::from_tree(&node(&tree));
    let signature = schema.get("playsound_master").expect("present");
    assert_eq!(signature.spelling(), "playsound <sound> master <targets>");
    let described = signature.describe();
    assert!(
        described.contains("playsound_master(sound: ResourceLocation, targets: selector)"),
        "{described}"
    );
}

#[test]
fn what_was_typed_narrows_the_commands() {
    let schema = schema();
    let names: Vec<String> = complete(&Vec::new(), Some(&schema), "e", 0)
        .into_iter()
        .map(|item| item.label)
        .collect();
    assert_eq!(names, vec!["execute_run", "experiment"]);
}

#[test]
fn a_uri_becomes_a_path() {
    assert_eq!(
        path_of("file:///tmp/a%20b/lib.mwl"),
        Some("/tmp/a b/lib.mwl".to_owned())
    );
    assert_eq!(path_of("untitled:1"), None);
    assert_eq!(path_of("file:///a%zz"), None);
    assert_eq!(path_of("file:///a%4"), Some("/a\u{4}".to_owned()));
    assert_eq!(path_of("file:///a%"), None);
}

#[test]
fn framing_round_trips() {
    let text = frame(r#"{"jsonrpc":"2.0","method":"hï"}"#);
    assert!(text.starts_with("Content-Length: "), "{text}");
    let mut lines = text.split_inclusive('\n');
    let Header::Length(Some(length)) = header_of(lines.next().expect("a header")) else {
        panic!("expected a length")
    };
    assert_eq!(header_of(lines.next().expect("an empty line")), Header::End);
    let body: String = lines.collect();
    assert_eq!(body.len(), length);
    let back: serde_json::Value = serde_json::from_str(&body).expect("a message");
    assert_eq!(back["method"], "hï");
}

#[test]
fn a_length_that_is_no_number_is_none() {
    assert_eq!(header_of("Content-Length: x\r\n"), Header::Length(None));
    assert_eq!(
        header_of("Content-Length: 99999999999999999999\r\n"),
        Header::Length(None)
    );
    assert_eq!(header_of("Content-Length:+7"), Header::Length(Some(7)));
    assert_eq!(header_of("Content-Type: x\r\n"), Header::Other);
}

#[test]
fn a_request_is_answered_even_when_it_is_not_understood() {
    assert_eq!(request_of("initialize", true), Request::Initialize);
    assert_eq!(request_of("textDocument/didOpen", false), Request::Open);
    assert_eq!(request_of("textDocument/didChange", false), Request::Change);
    assert_eq!(request_of("textDocument/didSave", false), Request::Save);
    assert_eq!(request_of("textDocument/didClose", false), Request::Close);
    assert_eq!(request_of("textDocument/completion", true), Request::Complete);
    assert_eq!(request_of("textDocument/hover", true), Request::Hover);
    assert_eq!(request_of("shutdown", true), Request::Shutdown);
    assert_eq!(request_of("exit", false), Request::Exit);
    assert_eq!(request_of("workspace/symbol", true), Request::Unknown);
    assert_eq!(request_of("$/progress", false), Request::Ignored);
}

#[test]
fn any_white_space_around_a_length_is_dropped() {
    assert_eq!(header_of("Content-Length:\u{3000}7\u{2028}\r\n"), Header::Length(Some(7)));
    assert_eq!(header_of("Content-Length:\t 8\u{a0}\n"), Header::Length(Some(8)));
    assert_eq!(header_of("Content-Length: \u{200b}9\n"), Header::Length(None));
    assert_eq!(header_of("\u{85}\u{205f}\n"), Header::End);
}
