//! The commands of a tree.

use mwlc::map::TextMap;
use mwlc::schema::{ArgType, Node, NodeKind, Schema};

const COMMANDS: &str = r#"{"type":"root","children":{
    "data":{"type":"literal","children":{"get":{"type":"literal","children":{
        "entity":{"type":"literal","children":{
            "target":{"type":"argument","parser":"minecraft:entity","executable":true,"children":{
                "path":{"type":"argument","parser":"minecraft:nbt_path","executable":true}}}}}}}}},
    "execute":{"type":"literal","children":{
        "run":{"type":"literal","executable":true,"redirect":["root"]}}},
    "experiment":{"type":"literal","children":{
        "thing":{"type":"argument","parser":"minecraft:invented","executable":true}}},
    "function":{"type":"literal","children":{
        "name":{"type":"argument","parser":"minecraft:function","executable":true}}},
    "playsound":{"type":"literal","children":{
        "sound":{"type":"argument","parser":"minecraft:resource_location","children":{
            "master":{"type":"literal","children":{
                "targets":{"type":"argument","parser":"minecraft:entity","executable":true}}}}}}},
    "reload":{"type":"literal","executable":true},
    "setblock":{"type":"literal","children":{
        "pos":{"type":"argument","parser":"minecraft:block_pos","children":{
            "block":{"type":"argument","parser":"minecraft:block_state","executable":true}}}}},
    "tellraw":{"type":"literal","children":{
        "targets":{"type":"argument","parser":"minecraft:entity","children":{
            "message":{"type":"argument","parser":"minecraft:component","executable":true}}}}}
}}"#;

fn node(value: &serde_json::Value) -> Node {
    let mut children = Vec::new();
    if let Some(found) = value["children"].as_object() {
        for (name, child) in found {
            children.push((name.clone(), node(child)));
        }
    }
    Node {
        kind: match value["type"].as_str() {
            Some("literal") => NodeKind::Literal,
            Some("argument") => NodeKind::Argument,
            _ => NodeKind::Root,
        },
        children,
        executable: value["executable"].as_bool().unwrap_or(false),
        parser: value["parser"].as_str().map(str::to_owned),
        redirect: value["redirect"].as_array().map(|to| {
            to.iter().filter_map(|name| name.as_str().map(str::to_owned)).collect()
        }),
    }
}

fn schema() -> Schema {
    let tree: serde_json::Value = serde_json::from_str(COMMANDS).expect("the fixture parses");
    Schema::from_tree(&node(&tree))
}

#[test]
fn a_command_with_only_literals() {
    let reload = schema().get("reload").expect("reload").clone();
    assert_eq!(reload.literals, vec!["reload"]);
    assert!(reload.params.is_empty());
}

#[test]
fn names_come_from_the_literal_path() {
    let s = schema();
    assert!(s.get("setblock").is_some(), "{:?}", s.commands);
    assert!(
        s.get("data_get_entity").is_some(),
        "{:?}",
        s.commands
    );
}

#[test]
fn arguments_keep_their_order_and_get_a_type() {
    let setblock = schema().get("setblock").expect("setblock").clone();
    assert_eq!(
        setblock
            .params
            .iter()
            .map(|p| (p.name.as_str(), p.ty))
            .collect::<Vec<_>>(),
        vec![("pos", ArgType::Pos), ("block", ArgType::Resource)]
    );
}

#[test]
fn a_shorter_overload_does_not_lose_to_a_longer_one() {
    let get = schema().get("data_get_entity").expect("present").clone();
    assert_eq!(get.params.len(), 1, "{:?}", get.params);
}

#[test]
fn an_unknown_parser_becomes_raw_and_is_reported() {
    let s = schema();
    assert!(
        s.unknown_parsers.iter().any(|p| p == "minecraft:invented"),
        "{:?}",
        s.unknown_parsers
    );
    let odd = s.get("experiment").expect("present").clone();
    assert_eq!(odd.params[0].ty, ArgType::Raw);
}

#[test]
fn a_redirect_does_not_send_the_walk_round_forever() {
    assert!(schema().get("execute_run").is_some());
}

#[test]
fn renaming_commands_keeps_what_was_approximated() {
    let tree: serde_json::Value = serde_json::from_str(COMMANDS).expect("the fixture parses");
    let mut schema = Schema::from_tree(&node(&tree));
    let unknown = schema.unknown_parsers.clone();
    assert_eq!(unknown, vec!["minecraft:invented"]);
    let mut renames = TextMap::new();
    renames.insert("reload", "load_again".to_owned());
    assert!(schema.rename(&renames).is_empty());
    assert!(schema.get("load_again").is_some() && schema.get("reload").is_none());
    assert_eq!(schema.unknown_parsers, unknown);
}
