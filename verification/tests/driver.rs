//! The compiler from text to pack.

use mwlc::driver::{add_resources, compile, compile_into, compile_with, Package};
use mwlc::emit::{Options, Profile};
use mwlc::map::TextMap;
use mwlc::schema::{Node, NodeKind, Schema};

const COMMANDS: &str = r#"{"type":"root","children":{
    "data":{"type":"literal","children":{"get":{"type":"literal","children":{
        "entity":{"type":"literal","children":{
            "target":{"type":"argument","parser":"minecraft:entity","executable":true,"children":{
                "path":{"type":"argument","parser":"minecraft:nbt_path","executable":true}}}}}}}}},
    "execute":{"type":"literal","children":{
        "run":{"type":"literal","executable":true,"redirect":["root"]}}},
    "experiment":{"type":"literal","children":{
        "thing":{"type":"argument","parser":"minecraft:invented","executable":true}}},
    "function":{"type":"literal","children":{
        "name":{"type":"argument","parser":"minecraft:function","executable":true}}},
    "playsound":{"type":"literal","children":{
        "sound":{"type":"argument","parser":"minecraft:resource_location","children":{
            "master":{"type":"literal","children":{
                "targets":{"type":"argument","parser":"minecraft:entity","executable":true}}}}}}},
    "reload":{"type":"literal","executable":true},
    "setblock":{"type":"literal","children":{
        "pos":{"type":"argument","parser":"minecraft:block_pos","children":{
            "block":{"type":"argument","parser":"minecraft:block_state","executable":true}}}}},
    "tellraw":{"type":"literal","children":{
        "targets":{"type":"argument","parser":"minecraft:entity","children":{
            "message":{"type":"argument","parser":"minecraft:component","executable":true}}}}}
}}"#;

fn node(value: &serde_json::Value) -> Node {
    let mut children = Vec::new();
    if let Some(found) = value["children"].as_object() {
        for (name, child) in found {
            children.push((name.clone(), node(child)));
        }
    }
    Node {
        kind: match value["type"].as_str() {
            Some("literal") => NodeKind::Literal,
            Some("argument") => NodeKind::Argument,
            _ => NodeKind::Root,
        },
        children,
        executable: value["executable"].as_bool().unwrap_or(false),
        parser: value["parser"].as_str().map(str::to_owned),
        redirect: value["redirect"].as_array().map(|to| {
            to.iter().filter_map(|name| name.as_str().map(str::to_owned)).collect()
        }),
    }
}

fn schema() -> Schema {
    let tree: serde_json::Value = serde_json::from_str(COMMANDS).expect("the fixture parses");
    Schema::from_tree(&node(&tree))
}

fn package(name: &str, namespace: Option<&str>) -> Package {
    Package {
        name: name.to_owned(),
        namespace: namespace.map(str::to_owned),
        description: None,
        toolchain: None,
    }
}

#[test]
fn a_project_builds_into_a_datapack() {
    let package = package("mypack", Some("myns"));
    let src = r#"fn main() { raw!("say hi"); }"#;
    let options = package.options(None, Profile::Release, "src/lib.mwl", src);
    let pack = compile(src, package.namespace(), &options).expect("builds");
    assert_eq!(
        pack.files.get("data/myns/function/main.mcfunction"),
        Some("say hi\n")
    );
}

#[test]
fn the_namespace_defaults_to_the_package_name() {
    let package = package("mypack", None);
    let src = "fn main() {}";
    let options = package.options(None, Profile::Release, "src/lib.mwl", src);
    let pack = compile(src, package.namespace(), &options).expect("builds");
    assert!(pack.files.contains_key("data/mypack/function/main.mcfunction"));
}

#[test]
fn the_description_defaults_to_the_package_name() {
    let package = package("mypack", Some("myns"));
    let src = "fn main() {}";
    let options = package.options(Some(61), Profile::Release, "src/lib.mwl", src);
    let pack = compile(src, package.namespace(), &options).expect("builds");
    let meta = pack.files.get("pack.mcmeta").expect("there is one");
    assert!(meta.contains("mypack"), "{meta}");
    assert!(meta.contains("61"), "{meta}");
}

#[test]
fn source_errors_come_back_as_a_report() {
    let report = compile("fn main() { nope!(); }", "myns", &Options::default()).unwrap_err();
    assert_eq!(report.path, "<input>");
    assert_eq!(report.problems.len(), 1);
    assert_eq!(report.problems[0].range(), (12, 7));
}

#[test]
fn hand_written_resources_are_copied_through() {
    let mut pack = compile("fn main() {}", "myns", &Options::default()).expect("builds");
    let mut written = TextMap::new();
    written.insert(
        "data/myns/predicate/in_rain.json",
        "{\"condition\": \"minecraft:weather_check\"}".to_owned(),
    );
    add_resources(&mut pack, &written).expect("nothing is in the way");
    assert!(
        pack.files.contains_key("data/myns/predicate/in_rain.json"),
        "{:?}",
        pack.files.keys()
    );
}

#[test]
fn a_hand_written_file_cannot_shadow_a_generated_one() {
    let mut pack = compile("fn main() {}", "myns", &Options::default()).expect("builds");
    let mut written = TextMap::new();
    written.insert("data/myns/function/main.mcfunction", "say no".to_owned());
    assert_eq!(
        add_resources(&mut pack, &written),
        Err("data/myns/function/main.mcfunction".to_owned())
    );
}

#[test]
fn adding_files_keeps_the_others() {
    let mut pack = compile("fn main() { raw!(\"say hi\"); }", "myns", &Options::default()).expect("builds");
    let before: Vec<(String, String)> = pack
        .files
        .keys()
        .iter()
        .map(|k| (k.to_string(), pack.files.get(k).expect("a key").to_owned()))
        .collect();
    let mut written = TextMap::new();
    written.insert("data/a.json", "1".to_owned());
    written.insert("zzz.txt", "2".to_owned());
    add_resources(&mut pack, &written).expect("nothing is in the way");
    for (path, text) in &before {
        assert_eq!(pack.files.get(path), Some(text.as_str()));
    }
    assert_eq!(pack.files.get("data/a.json"), Some("1"));
    assert_eq!(pack.files.get("zzz.txt"), Some("2"));
    assert_eq!(pack.files.len(), before.len() + 2);
    let keys = pack.files.keys();
    assert!(keys.windows(2).all(|w| w[0] < w[1]), "{keys:?}");
}

#[test]
fn calling_a_function_that_does_not_exist_is_a_compile_error() {
    let err = compile_with(
        "fn main() { function(myns:nowhere); }",
        "myns",
        &Options::default(),
        Some(&schema()),
    )
    .unwrap_err();
    assert_eq!(err.problems.len(), 1);
}

#[test]
fn a_reference_to_a_generated_function_resolves() {
    assert!(
        compile_with(
            "fn helper() {} fn main() { function(myns:helper); }",
            "myns",
            &Options::default(),
            Some(&schema()),
        )
        .is_ok()
    );
}

#[test]
fn a_reference_to_a_hand_written_function_resolves() {
    let existing = vec!["data/myns/function/handwritten.mcfunction".to_owned()];
    let built = compile_into(
        "fn main() { function(myns:handwritten); }",
        "myns",
        &Options::default(),
        Some(&schema()),
        &existing,
    );
    assert!(built.is_ok(), "{:?}", built.err());
}

#[test]
fn syntax_and_resolution_errors_are_reported_together() {
    let report = compile(
        "fn a() { raw!(\"x\") } fn b() { nope!(); }",
        "myns",
        &Options::default(),
    )
    .unwrap_err();
    assert_eq!(report.problems.len(), 2);
}
