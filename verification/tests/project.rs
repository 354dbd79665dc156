//! A project from the outside.

use mwlc::driver::compile;
use mwlc::emit::{Options, Profile};
use mwlc::map::TextMap;
use mwlc::project::{function_id, is_namespace, new_manifest, new_source, profile_of};
use mwlc::schema::{Node, NodeKind, Schema};

const COMMANDS: &str = r#"{"type":"root","children":{
    "data":{"type":"literal","children":{"get":{"type":"literal","children":{
        "entity":{"type":"literal","children":{
            "target":{"type":"argument","parser":"minecraft:entity","executable":true,"children":{
                "path":{"type":"argument","parser":"minecraft:nbt_path","executable":true}}}}}}}}},
    "execute":{"type":"literal","children":{
        "run":{"type":"literal","executable":true,"redirect":["root"]}}},
    "experiment":{"type":"literal","children":{
        "thing":{"type":"argument","parser":"minecraft:invented","executable":true}}},
    "function":{"type":"literal","children":{
        "name":{"type":"argument","parser":"minecraft:function","executable":true}}},
    "playsound":{"type":"literal","children":{
        "sound":{"type":"argument","parser":"minecraft:resource_location","children":{
            "master":{"type":"literal","children":{
                "targets":{"type":"argument","parser":"minecraft:entity","executable":true}}}}}}},
    "reload":{"type":"literal","executable":true},
    "setblock":{"type":"literal","children":{
        "pos":{"type":"argument","parser":"minecraft:block_pos","children":{
            "block":{"type":"argument","parser":"minecraft:block_state","executable":true}}}}},
    "tellraw":{"type":"literal","children":{
        "targets":{"type":"argument","parser":"minecraft:entity","children":{
            "message":{"type":"argument","parser":"minecraft:component","executable":true}}}}}
}}"#;

fn node(value: &serde_json::Value) -> Node {
    let mut children = Vec::new();
    if let Some(found) = value["children"].as_object() {
        for (name, child) in found {
            children.push((name.clone(), node(child)));
        }
    }
    Node {
        kind: match value["type"].as_str() {
            Some("literal") => NodeKind::Literal,
            Some("argument") => NodeKind::Argument,
            _ => NodeKind::Root,
        },
        children,
        executable: value["executable"].as_bool().unwrap_or(false),
        parser: value["parser"].as_str().map(str::to_owned),
        redirect: value["redirect"].as_array().map(|to| {
            to.iter().filter_map(|name| name.as_str().map(str::to_owned)).collect()
        }),
    }
}

fn schema() -> Schema {
    let tree: serde_json::Value = serde_json::from_str(COMMANDS).expect("the fixture parses");
    Schema::from_tree(&node(&tree))
}

#[test]
fn a_new_project_builds_as_it_stands() {
    let manifest: toml::Value = toml::from_str(&new_manifest("demo")).expect("a manifest");
    assert_eq!(manifest["package"]["name"].as_str(), Some("demo"));
    let pack = compile(&new_source("demo"), "demo", &Options::default()).expect("builds");
    assert!(pack.files.contains_key("data/demo/function/setup.mcfunction"));
    assert_eq!(pack.tests, vec!["demo:arithmetic_holds"]);
}

#[test]
fn a_name_that_cannot_be_a_namespace_is_refused() {
    assert!(!is_namespace("Demo"));
    assert!(!is_namespace(""));
    assert!(is_namespace("my_pack-2"));
}

#[test]
fn function_ids_come_from_the_datapack_layout() {
    assert_eq!(
        function_id("data/demo/function/a/b.mcfunction").as_deref(),
        Some("demo:a/b")
    );
    assert_eq!(function_id("pack.mcmeta"), None);
    assert_eq!(function_id("data/demo/predicate/a.json"), None);
}

#[test]
fn a_release_is_asked_for() {
    assert_eq!(profile_of(&vec!["--release".to_owned()]), Profile::Release);
    assert_eq!(profile_of(&Vec::new()), Profile::Debug);
}

#[test]
fn an_overrides_file_renames_commands_on_load() {
    let overrides: toml::Value =
        toml::from_str("[rename]\ndata_get_entity = \"data_get\"\ngone = \"elsewhere\"\n")
            .expect("it parses");
    let mut renames = TextMap::new();
    for (from, to) in overrides["rename"].as_table().expect("a table") {
        renames.insert(from, to.as_str().expect("a name").to_owned());
    }
    let mut schema = schema();
    assert_eq!(schema.rename(&renames), vec!["gone"]);
    assert!(schema.get("data_get").is_some());
    assert!(schema.get("data_get_entity").is_none());
}
