//! What the lowering accepts, and what it says about what it does not.

use mwlc::hir::{lower, Attr, ExprKind, FnId, Function, Hir, NbtTag, Scale, Stmt, StructId, Type};
use mwlc::schema::{Node, NodeKind, Schema};
use mwlc::syntax::parser::parse;
use mwlc::syntax::SyntaxError;

const COMMANDS: &str = r#"{"type":"root","children":{
    "data":{"type":"literal","children":{"get":{"type":"literal","children":{
        "entity":{"type":"literal","children":{
            "target":{"type":"argument","parser":"minecraft:entity","executable":true,"children":{
                "path":{"type":"argument","parser":"minecraft:nbt_path","executable":true}}}}}}}}},
    "execute":{"type":"literal","children":{
        "run":{"type":"literal","executable":true,"redirect":["root"]}}},
    "experiment":{"type":"literal","children":{
        "thing":{"type":"argument","parser":"minecraft:invented","executable":true}}},
    "function":{"type":"literal","children":{
        "name":{"type":"argument","parser":"minecraft:function","executable":true}}},
    "playsound":{"type":"literal","children":{
        "sound":{"type":"argument","parser":"minecraft:resource_location","children":{
            "master":{"type":"literal","children":{
                "targets":{"type":"argument","parser":"minecraft:entity","executable":true}}}}}}},
    "reload":{"type":"literal","executable":true},
    "setblock":{"type":"literal","children":{
        "pos":{"type":"argument","parser":"minecraft:block_pos","children":{
            "block":{"type":"argument","parser":"minecraft:block_state","executable":true}}}}},
    "tellraw":{"type":"literal","children":{
        "targets":{"type":"argument","parser":"minecraft:entity","children":{
            "message":{"type":"argument","parser":"minecraft:component","executable":true}}}}}
}}"#;

fn node(value: &serde_json::Value) -> Node {
    let mut children = Vec::new();
    if let Some(found) = value["children"].as_object() {
        for (name, child) in found {
            children.push((name.clone(), node(child)));
        }
    }
    Node {
        kind: match value["type"].as_str() {
            Some("literal") => NodeKind::Literal,
            Some("argument") => NodeKind::Argument,
            _ => NodeKind::Root,
        },
        children,
        executable: value["executable"].as_bool().unwrap_or(false),
        parser: value["parser"].as_str().map(str::to_owned),
        redirect: value["redirect"].as_array().map(|to| {
            to.iter().filter_map(|name| name.as_str().map(str::to_owned)).collect()
        }),
    }
}

fn schema() -> Schema {
    let tree: serde_json::Value = serde_json::from_str(COMMANDS).expect("the fixture parses");
    Schema::from_tree(&node(&tree))
}

fn lower_ok(src: &str) -> Hir {
    let (file, errors) = parse(src);
    assert!(errors.is_empty(), "{errors:?}");
    let (hir, errors) = lower(&file, "myns", None);
    assert!(errors.is_empty(), "{errors:?}");
    hir
}

fn lower_err(src: &str) -> Vec<SyntaxError> {
    let (file, errors) = parse(src);
    assert!(errors.is_empty(), "{errors:?}");
    lower(&file, "myns", None).1
}

fn lower_err_with_toolchain(src: &str) -> Vec<SyntaxError> {
    with_toolchain(src).expect_err("expected an error")
}

fn with_toolchain(src: &str) -> Result<Hir, Vec<SyntaxError>> {
    let (file, errors) = parse(src);
    assert!(errors.is_empty(), "{errors:?}");
    let (hir, errors) = lower(&file, "myns", Some(&schema()));
    if errors.is_empty() {
        Ok(hir)
    } else {
        Err(errors)
    }
}

fn command_text(src: &str) -> String {
    let hir = with_toolchain(src).expect("compiles");
    let body = &hir.functions[0].body;
    match body.iter().find_map(|stmt| match stmt {
        Stmt::Raw(raw) => Some(raw),
        _ => None,
    }) {
        Some(raw) => raw.as_text().expect("a command is literal").to_owned(),
        None => panic!("expected a command, found {body:?}"),
    }
}

#[test]
fn a_command_becomes_one_line() {
    assert_eq!(
        command_text("fn main() { setblock(pos!(~ ~1 ~), minecraft:stone); }"),
        "setblock ~ ~1 ~ minecraft:stone"
    );
    assert_eq!(command_text("fn main() { reload(); }"), "reload");
}

#[test]
fn a_literal_after_an_argument_keeps_its_place() {
    assert_eq!(
        command_text("fn main() { playsound_master(minecraft:block.note_block.pling, @a); }"),
        "playsound minecraft:block.note_block.pling master @a"
    );
}

#[test]
fn coordinates_render_the_way_they_were_written() {
    assert!(
        command_text("fn main() { setblock(pos!(10 64 -5), minecraft:stone); }")
            .contains("10 64 -5")
    );
    assert!(
        command_text("fn main() { setblock(pos!(^ ^ ^5), minecraft:stone); }")
            .contains("^ ^ ^5")
    );
}

#[test]
fn a_relative_coordinate_can_be_negative() {
    assert!(
        command_text("fn main() { setblock(pos!(~ ~-1 ~), minecraft:stone); }")
            .contains("~ ~-1 ~")
    );
}

#[test]
fn coordinate_notations_cannot_be_mixed() {
    let errors =
        with_toolchain("fn main() { setblock(pos!(~ ^ ~), minecraft:stone); }").unwrap_err();
    assert!(errors[0].message.contains("same notation"), "{errors:?}");
}

#[test]
fn pos_needs_exactly_three_coordinates() {
    assert!(
        with_toolchain("fn main() { setblock(pos!(~ ~), minecraft:stone); }").unwrap_err()[0]
            .message
            .contains("three")
    );
}

#[test]
fn a_command_argument_of_the_wrong_kind_is_reported() {
    let errors = with_toolchain("fn main() { setblock(minecraft:stone, minecraft:stone); }")
        .unwrap_err();
    assert!(errors[0].message.contains("Pos"), "{errors:?}");
}

#[test]
fn a_runtime_value_cannot_go_into_a_command_yet() {
    let errors = with_toolchain(
        "fn main() { let p = 1; data_get_entity(@s); setblock(pos!(~ ~ ~), minecraft:stone); }",
    );
    let errors2 = with_toolchain("fn main() { let n = 1; experiment(n); }").unwrap_err();
    assert!(errors.is_ok(), "{errors:?}");
    assert!(errors2[0].message.contains("compile time"), "{errors2:?}");
}

#[test]
fn a_command_needs_a_toolchain_to_be_known() {
    let errors = lower_err("fn main() { setblock(pos!(~ ~ ~), minecraft:stone); }");
    assert!(errors[0].message.contains("toolchain"), "{errors:?}");
}

#[test]
fn a_user_function_shadows_a_command_of_the_same_name() {
    let hir = with_toolchain("fn reload() { } fn main() { reload(); }").expect("compiles");
    assert!(matches!(hir.functions[1].body[0], Stmt::CallFor { .. }));
}

#[test]
fn a_function_gets_an_id_and_a_datapack_path() {
    let hir = lower_ok("fn main() {}");
    assert_eq!(hir.functions.len(), 1);
    assert_eq!(hir.functions[0].id, FnId(0));
    assert_eq!(hir.functions[0].name, "main");
    assert_eq!(hir.functions[0].path, "myns:main");
}

#[test]
fn ids_are_assigned_in_source_order() {
    let hir = lower_ok("fn a() {} fn b() {}");
    assert_eq!(
        hir.functions.iter().map(|f| f.id).collect::<Vec<_>>(),
        vec![FnId(0), FnId(1)]
    );
}

#[test]
fn raw_carries_the_command_text() {
    let hir = lower_ok(r#"fn main() { raw!("say hi"); }"#);
    let Stmt::Raw(raw) = &hir.functions[0].body[0] else {
        panic!("expected a raw command")
    };
    assert_eq!(raw.as_text(), Some("say hi"));
}

#[test]
fn an_unknown_macro_is_reported() {
    let errors = lower_err("fn main() { nope!(1); }");
    assert_eq!(errors.len(), 1);
    assert!(errors[0].message.contains("nope"), "{errors:?}");
}

#[test]
fn raw_wants_exactly_one_string() {
    assert!(!lower_err("fn main() { raw!(1); }").is_empty());
    assert!(!lower_err(r#"fn main() { raw!("a", "b"); }"#).is_empty());
    assert!(!lower_err("fn main() { raw!(); }").is_empty());
}

#[test]
fn an_interpolated_name_has_to_exist() {
    let errors = lower_err(r#"fn main() { raw!("say {nope}"); }"#);
    assert_eq!(errors.len(), 1);
    assert!(errors[0].message.contains("nope"), "{errors:?}");
}

#[test]
fn an_unmatched_brace_says_to_write_it_twice() {
    for src in [
        r#"fn main() { raw!("summon zombie ~ ~ ~ {NoAI:1b"); }"#,
        r#"fn main() { raw!("say a } b"); }"#,
    ] {
        let errors = lower_err(src);
        assert_eq!(errors.len(), 1, "{src}");
        assert!(
            errors[0].message.contains("mean the character"),
            "{errors:?}"
        );
    }
}

#[test]
fn interpolating_a_fixed_point_number_is_refused() {
    let errors = lower_err(r#"fn main() { let r = fix::<1000>(1500); raw!("say {r}"); }"#);
    assert_eq!(errors.len(), 1);
    assert!(errors[0].message.contains("scaled"), "{errors:?}");
}

#[test]
fn interpolating_a_compound_is_refused() {
    let errors = lower_err(
        r#"struct Mob { hp: i32 } fn main() { let m = Mob { hp: 1 }; raw!("say {m}"); }"#,
    );
    assert_eq!(errors.len(), 1);
    assert!(errors[0].message.contains("Mob"), "{errors:?}");
}

#[test]
fn text_turns_a_binding_into_a_score_component() {
    let text = command_text(r#"fn main() { let hp = 3; tellraw(@a, text!("HP: ", hp)); }"#);
    assert!(
        text.contains(r#"{"score":{"name":"$main.hp","objective":"myns.v"}}"#),
        "{text}"
    );
    assert!(text.starts_with("tellraw @a "), "{text}");
}

#[test]
fn text_joins_its_arguments_under_an_unstyled_head() {
    let text = command_text(
        r#"fn main() { let hp = 3; tellraw(@a, text!("Danger".red().bold(), " HP: ", hp)); }"#,
    );
    assert!(text.contains(r#""text":""#), "{text}");
    assert!(
        text.contains(r#"{"bold":true,"color":"red","text":"Danger"}"#),
        "{text}"
    );
}

#[test]
fn one_argument_needs_no_wrapper() {
    let text = command_text(r#"fn main() { tellraw(@a, text!("hi")); }"#);
    assert_eq!(text, r#"tellraw @a {"text":"hi"}"#);
}

#[test]
fn a_string_binding_becomes_an_nbt_component() {
    let text = command_text(r#"fn main() { let s = "pit"; tellraw(@a, text!(s)); }"#);
    assert_eq!(
        text,
        r#"tellraw @a {"nbt":"mw.vars.main.s","storage":"myns:mw"}"#
    );
}

#[test]
fn a_hex_colour_is_written_through() {
    let text = command_text(r##"fn main() { tellraw(@a, text!("hi".color("#ff8800"))); }"##);
    assert!(text.contains(r##""color":"#ff8800""##), "{text}");
}

#[test]
fn a_quote_in_a_text_literal_is_escaped() {
    let text = command_text(r#"fn main() { tellraw(@a, text!("a \"b\"")); }"#);
    assert!(text.contains(r#"\"b\""#), "{text}");
}

#[test]
fn text_can_nest() {
    let text = command_text(r#"fn main() { tellraw(@a, text!(text!("a", "b").red())); }"#);
    assert!(text.contains(r#""color":"red""#), "{text}");
    assert!(text.contains(r#"{"text":"a"}"#), "{text}");
}

#[test]
fn a_fixed_point_binding_cannot_be_shown() {
    let errors = lower_err_with_toolchain(
        r#"fn main() { let r = fix::<1000>(1500); tellraw(@a, text!(r)); }"#,
    );
    assert_eq!(errors.len(), 1);
    assert!(errors[0].message.contains("scaled"), "{errors:?}");
}

#[test]
fn a_place_has_to_be_bound_first() {
    let errors = lower_err_with_toolchain(
        r#"struct Mob { hp: i32 }
           fn main() { let m = Mob { hp: 1 }; tellraw(@a, text!(m.hp)); }"#,
    );
    assert_eq!(errors.len(), 1);
    assert!(errors[0].message.contains("bind"), "{errors:?}");
}

#[test]
fn a_component_cannot_be_bound_to_a_name() {
    let errors = lower_err_with_toolchain(r#"fn main() { let t = text!("hi"); }"#);
    assert_eq!(errors.len(), 1);
    assert!(errors[0].message.contains("TextComponent"), "{errors:?}");
}

#[test]
fn a_test_function_takes_nothing_and_answers_nothing() {
    assert!(!lower_err("#[test] fn t(n: i32) {}").is_empty());
    assert!(!lower_err("#[test] fn t() -> i32 { return 1; }").is_empty());
    assert!(lower_err("#[test] fn t() {}").is_empty());
}

#[test]
fn a_test_function_cannot_require_a_context() {
    let errors = lower_err("#[test] #[ctx(entity)] fn t() {}");
    assert_eq!(errors.len(), 1);
    assert!(errors[0].message.contains("#[test]"), "{errors:?}");
}

#[test]
fn two_functions_with_one_name_collide() {
    let errors = lower_err("fn main() {} fn main() {}");
    assert_eq!(errors.len(), 1);
    assert!(errors[0].message.contains("main"), "{errors:?}");
}

#[test]
fn known_attributes_are_recorded() {
    let hir = lower_ok("#[tick] fn main() {}");
    assert_eq!(hir.functions[0].attrs, vec![Attr::Tick]);
}

#[test]
fn an_unknown_attribute_is_an_error_rather_than_being_ignored() {
    let errors = lower_err("#[tik] fn main() {}");
    assert_eq!(errors.len(), 1);
    assert!(errors[0].message.contains("tik"), "{errors:?}");
}

fn only_fn(hir: &Hir) -> &Function {
    &hir.functions[0]
}

#[test]
fn a_let_takes_the_type_of_its_initialiser() {
    let hir = lower_ok("fn main() { let x = 1; let b = true; }");
    let locals = &only_fn(&hir).locals;
    assert_eq!(locals[0].ty, Type::I32);
    assert_eq!(locals[1].ty, Type::Bool);
    assert!(!locals[0].mutable);
}

#[test]
fn an_annotation_must_agree_with_the_initialiser() {
    assert!(
        lower_err("fn main() { let x: i32 = true; }")[0]
            .message
            .contains("expected i32")
    );
    assert!(
        lower_ok("fn main() { let x: bool = true; }").functions[0].locals[0]
            .mutable
            .eq(&false)
    );
}

#[test]
fn an_unknown_type_is_reported() {
    assert!(
        lower_err("fn main() { let x: i64 = 1; }")[0]
            .message
            .contains("i64")
    );
}

#[test]
fn a_binding_must_exist_before_it_is_used() {
    assert!(
        lower_err("fn main() { let x = y; }")[0]
            .message
            .contains("'y'")
    );
}

#[test]
fn an_inner_let_shadows_an_outer_one() {
    let hir = lower_ok("fn main() { let x = 1; let x = true; let y = x; }");
    let f = only_fn(&hir);
    assert_eq!(f.locals.len(), 3);
    assert_eq!(f.locals[2].ty, Type::Bool);
}

#[test]
fn arithmetic_needs_integers() {
    assert!(
        lower_err("fn main() { let x = 1 + true; }")[0]
            .message
            .contains("i32")
    );
}

#[test]
fn logic_needs_booleans() {
    assert!(
        lower_err("fn main() { let x = 1 && 2; }")[0]
            .message
            .contains("bool")
    );
}

#[test]
fn comparison_yields_a_bool() {
    let hir = lower_ok("fn main() { let x = 1 < 2; }");
    assert_eq!(only_fn(&hir).locals[0].ty, Type::Bool);
}

#[test]
fn equality_works_on_either_type_but_not_across_them() {
    assert!(
        lower_ok("fn main() { let a = true == false; }")
            .functions
            .len()
            .eq(&1)
    );
    assert!(
        lower_err("fn main() { let a = 1 == true; }")[0]
            .message
            .contains("cannot compare")
    );
}

#[test]
fn assigning_needs_mut() {
    assert!(
        lower_err("fn main() { let x = 1; x = 2; }")[0]
            .message
            .contains("not mutable")
    );
    assert!(
        lower_ok("fn main() { let mut x = 1; x = 2; }")
            .functions
            .len()
            == 1
    );
}

#[test]
fn an_assignment_keeps_the_declared_type() {
    assert!(
        lower_err("fn main() { let mut x = 1; x = true; }")[0]
            .message
            .contains("expected i32")
    );
}

#[test]
fn compound_assignment_is_arithmetic_and_wants_integers() {
    assert!(
        lower_ok("fn main() { let mut x = 1; x += 2; }")
            .functions
            .len()
            == 1
    );
    assert!(
        lower_err("fn main() { let mut b = true; b += 1; }")[0]
            .message
            .contains("i32")
    );
}

#[test]
fn an_assignment_is_not_a_value() {
    assert!(
        lower_err("fn main() { let mut x = 1; let y = x = 2; }")[0]
            .message
            .contains("produces no value")
    );
}

#[test]
fn an_expression_with_no_effect_is_reported() {
    assert!(
        lower_err("fn main() { 1 + 1; }")[0]
            .message
            .contains("no effect")
    );
}

#[test]
fn a_condition_must_be_bool() {
    assert!(
        lower_err("fn main() { if 1 { } }")[0]
            .message
            .contains("must be bool")
    );
    assert!(lower_ok("fn main() { if true { } }").functions.len() == 1);
}

#[test]
fn break_and_continue_need_a_loop() {
    assert!(
        lower_err("fn main() { break; }")[0]
            .message
            .contains("break")
    );
    assert!(
        lower_err("fn main() { continue; }")[0]
            .message
            .contains("continue")
    );
    assert!(lower_ok("fn main() { loop { break; } }").functions.len() == 1);
}

#[test]
fn break_inside_an_if_inside_a_loop_is_fine() {
    assert!(
        lower_ok("fn main() { loop { if true { break; } } }")
            .functions
            .len()
            == 1
    );
}

#[test]
fn return_needs_no_loop() {
    assert!(lower_ok("fn main() { return; }").functions.len() == 1);
}

#[test]
fn inline_only_applies_where_it_could_work() {
    assert!(
        lower_err("fn main() { #[inline] if true { } else { } }")[0]
            .message
            .contains("single-statement")
    );
    assert!(
        lower_err("fn main() { #[inline] while true { } }")[0]
            .message
            .contains("always its own function")
    );
}

#[test]
fn a_call_checks_arity_and_types() {
    let prelude = "fn f(a: i32, b: bool) -> i32 { return 1; } ";
    assert!(
        lower_err(&format!("{prelude} fn main() {{ let x = f(1); }}"))[0]
            .message
            .contains("2 argument")
    );
    assert!(
        lower_err(&format!("{prelude} fn main() {{ let x = f(1, 2); }}"))[0]
            .message
            .contains("expected bool")
    );
    assert!(
        lower_ok(&format!("{prelude} fn main() {{ let x = f(1, true); }}"))
            .functions
            .len()
            == 2
    );
}

#[test]
fn calling_something_undefined_is_reported() {
    assert!(
        lower_err("fn main() { let x = nope(); }")[0]
            .message
            .contains("'nope'")
    );
}

#[test]
fn a_function_may_be_called_before_it_is_defined() {
    assert!(
        lower_ok("fn main() { let x = later(); } fn later() -> i32 { return 1; }")
            .functions
            .len()
            == 2
    );
}

#[test]
fn a_void_function_has_no_value_to_use() {
    assert!(
        lower_err("fn v() {} fn main() { let x = v(); }")[0]
            .message
            .contains("does not return a value")
    );
    assert!(lower_ok("fn v() {} fn main() { v(); }").functions.len() == 2);
}

#[test]
fn a_returning_function_must_actually_return() {
    assert!(
        lower_err("fn f() -> i32 { let x = 1; }")[0]
            .message
            .contains("without returning")
    );
    assert!(
        lower_ok("fn f() -> i32 { if true { return 1; } else { return 2; } }")
            .functions
            .len()
            == 1
    );
}

#[test]
fn returning_the_wrong_type_is_reported() {
    assert!(
        lower_err("fn f() -> i32 { return true; }")[0]
            .message
            .contains("expected i32")
    );
    assert!(
        lower_err("fn f() { return 1; }")[0]
            .message
            .contains("does not return a value")
    );
    assert!(
        lower_err("fn f() -> i32 { return; }")[0]
            .message
            .contains("expected a i32")
    );
}

#[test]
fn calling_a_function_that_needs_an_executor_without_one_is_an_error() {
    let errors = lower_err(
        "#[ctx(entity)] fn hurt() {}
         fn main() { hurt(); }",
    );
    assert!(errors[0].message.contains("entity"), "{errors:?}");
    assert!(
        errors[0].message.contains("as") && errors[0].message.contains("#[ctx(entity)]"),
        "the diagnostic should say both ways out: {errors:?}"
    );
}

#[test]
fn an_as_block_supplies_the_executor() {
    assert!(
        lower_ok(
            "#[ctx(entity)] fn hurt() {}
             fn main() { as @e[type=zombie] { hurt(); } }"
        )
        .functions
        .len()
            == 2
    );
}

#[test]
fn declaring_the_context_passes_the_requirement_to_the_caller() {
    assert!(
        lower_ok(
            "#[ctx(entity)] fn hurt() {}
             #[ctx(entity)] fn wrapper() { hurt(); }"
        )
        .functions
        .len()
            == 2
    );
    assert!(
        !lower_err(
            "#[ctx(entity)] fn hurt() {}
         #[ctx(entity)] fn wrapper() { hurt(); }
         fn main() { wrapper(); }"
        )
        .is_empty()
    );
}

#[test]
fn a_for_loop_supplies_the_executor_too() {
    assert!(
        lower_ok(
            "#[ctx(entity)] fn hurt() {}
             fn main() { for z in @e[type=zombie] { hurt(); } }"
        )
        .functions
        .len()
            == 2
    );
}

#[test]
fn at_supplies_position_and_not_entity() {
    assert!(
        !lower_err(
            "#[ctx(entity)] fn hurt() {}
         fn main() { at @e[type=zombie] { hurt(); } }"
        )
        .is_empty()
    );
    assert!(
        lower_ok(
            "#[ctx(position)] fn place() {}
             fn main() { at @e[type=zombie] { place(); } }"
        )
        .functions
        .len()
            == 2
    );
}

#[test]
fn at_s_needs_an_executor_to_be_at() {
    assert!(!lower_err("fn main() { at @s { } }").is_empty());
    assert!(
        lower_ok("fn main() { as @e[type=zombie] { at @s { } } }")
            .functions
            .len()
            == 1
    );
}

#[test]
fn a_tick_function_cannot_require_a_context() {
    let errors = lower_err("#[tick] #[ctx(entity)] fn t() {}");
    assert!(errors[0].message.contains("silently"), "{errors:?}");
}

#[test]
fn the_context_ends_with_the_block() {
    assert!(
        !lower_err(
            "#[ctx(entity)] fn hurt() {}
         fn main() { as @e[type=zombie] { } hurt(); }"
        )
        .is_empty()
    );
}

#[test]
fn a_selector_can_be_named() {
    assert!(
        lower_ok("fn main() { let zombies = @e[type=zombie]; as zombies { } }")
            .functions
            .len()
            == 1
    );
}

#[test]
fn a_selector_is_not_a_value() {
    assert!(!lower_err("fn main() { let x = @s == @s; }").is_empty());
    assert!(!lower_err("fn f(s: i32) {} fn main() { f(@s); }").is_empty());
}

#[test]
fn an_unknown_context_kind_is_reported() {
    assert!(
        lower_err("#[ctx(dimension)] fn f() {}")[0]
            .message
            .contains("dimension")
    );
}

#[test]
fn lowering_reports_every_problem_it_finds() {
    let errors = lower_err("#[tik] fn main() { nope!(); }");
    assert_eq!(errors.len(), 2);
}

#[test]
fn a_construction_missing_a_field_is_reported() {
    let errors =
        lower_err("struct Point { x: i32, y: i32 } fn main() { let p = Point { x: 1 }; }");
    assert!(errors[0].message.contains('y'), "{errors:?}");
}

#[test]
fn a_field_that_is_not_declared_is_reported() {
    let errors = lower_err("struct Point { x: i32 } fn main() { let p = Point { z: 1 }; }");
    assert!(
        errors[0].message.contains("no field named 'z'"),
        "{errors:?}"
    );
}

#[test]
fn a_field_set_twice_is_reported() {
    let errors =
        lower_err("struct Point { x: i32 } fn main() { let p = Point { x: 1, x: 2 }; }");
    assert!(errors[0].message.contains("twice"), "{errors:?}");
}

#[test]
fn a_field_of_the_wrong_type_is_reported() {
    let errors =
        lower_err("struct Point { x: i32 } fn main() { let p = Point { x: true }; }");
    assert!(errors[0].message.contains("expected i32"), "{errors:?}");
}

#[test]
fn a_struct_names_itself_in_a_diagnostic() {
    let errors =
        lower_err("struct Point { x: i32 } fn main() { let p: i32 = Point { x: 1 }; }");
    assert!(errors[0].message.contains("found Point"), "{errors:?}");
}

#[test]
fn two_structs_cannot_be_compared() {
    let errors = lower_err(
        "struct Point { x: i32 } \
         fn main() { let p = Point { x: 1 }; let q = Point { x: 1 }; let b = p == q; }",
    );
    assert!(errors[0].message.contains("compare"), "{errors:?}");
}

#[test]
fn a_struct_cannot_be_returned() {
    let errors =
        lower_err("struct Point { x: i32 } fn make() -> Point { return Point { x: 1 }; }");
    assert!(errors[0].message.contains("not implemented"), "{errors:?}");
}

#[test]
fn a_struct_containing_itself_is_reported() {
    let errors = lower_err("struct Node { next: Node }");
    assert!(errors[0].message.contains("contains itself"), "{errors:?}");
    let errors = lower_err("struct A { b: B } struct B { a: A }");
    assert!(!errors.is_empty(), "a two-step cycle is still a cycle");
}

#[test]
fn a_compile_time_type_cannot_be_a_field() {
    let errors = lower_err("struct Held { who: selector }");
    assert!(errors[0].message.contains("unknown type"), "{errors:?}");
}

#[test]
fn an_nbt_tag_a_bool_cannot_have_is_reported() {
    let errors = lower_err("struct Mob { #[nbt(int)] alive: bool }");
    assert!(errors[0].message.contains("byte"), "{errors:?}");
}

#[test]
fn an_unknown_nbt_option_is_reported() {
    let errors = lower_err("struct Mob { #[nbt(gigantic)] hp: i32 }");
    assert!(errors[0].message.contains("gigantic"), "{errors:?}");
}

#[test]
fn nbt_optional_points_at_the_type() {
    let errors = lower_err("struct Mob { #[nbt(optional)] hp: i32 }");
    assert!(errors[0].message.contains("Option<T>"), "{errors:?}");
    lower_ok("struct Mob { hp: Option<i32> }");
}

#[test]
fn a_tag_on_a_composite_field_is_reported() {
    let errors =
        lower_err("struct Inner { a: i32 } struct Outer { #[nbt(byte)] i: Inner }");
    assert!(errors[0].message.contains("compound"), "{errors:?}");
}

#[test]
fn two_fields_cannot_share_one_nbt_key() {
    let errors = lower_err("struct Mob { hp: i32, #[nbt(rename = \"hp\")] health: i32 }");
    assert!(errors[0].message.contains("both be stored"), "{errors:?}");
}

#[test]
fn an_unknown_field_attribute_is_reported() {
    let errors = lower_err("struct Mob { #[score] hp: i32 }");
    assert!(errors[0].message.contains("score"), "{errors:?}");
}

#[test]
fn a_struct_declared_twice_is_reported() {
    let errors = lower_err("struct A { x: i32 } struct A { y: i32 }");
    assert!(errors[0].message.contains("already defined"), "{errors:?}");
}

#[test]
fn a_field_of_something_that_is_not_a_struct_is_reported() {
    let errors = lower_err("fn main() { let n = 1; let x = n.field; }");
    assert!(errors[0].message.contains("has no fields"), "{errors:?}");
}

#[test]
fn reading_a_field_that_does_not_exist_is_reported() {
    let errors = lower_err(
        "struct Point { x: i32 } fn main() { let p = Point { x: 1 }; let y = p.y; }",
    );
    assert!(
        errors[0].message.contains("no field named 'y'"),
        "{errors:?}"
    );
}

#[test]
fn writing_a_field_needs_a_mutable_binding() {
    let errors =
        lower_err("struct Point { x: i32 } fn main() { let p = Point { x: 1 }; p.x = 2; }");
    assert!(errors[0].message.contains("not mutable"), "{errors:?}");
}

#[test]
fn a_field_of_the_wrong_type_cannot_be_assigned() {
    let errors = lower_err(
        "struct Point { x: i32 } \
         fn main() { let mut p = Point { x: 1 }; p.x = true; }",
    );
    assert!(errors[0].message.contains("expected i32"), "{errors:?}");
}

#[test]
fn a_composite_field_cannot_take_arithmetic() {
    let errors = lower_err(
        "struct Inner { a: i32 } struct Outer { i: Inner } \
         fn main() { let mut o = Outer { i: Inner { a: 1 } }; o.i += 1; }",
    );
    assert!(errors[0].message.contains("needs i32"), "{errors:?}");
}

#[test]
fn a_variant_that_does_not_exist_is_reported() {
    let errors = lower_err("enum State { Idle } fn main() { let s = State::Running; }");
    assert!(errors[0].message.contains("no variant"), "{errors:?}");
}

#[test]
fn an_enum_needs_a_variant() {
    let errors = lower_err("enum State { Idle } fn main() { let s = State { }; }");
    assert!(errors[0].message.contains("State::Idle"), "{errors:?}");
}

#[test]
fn a_struct_has_no_variants() {
    let errors = lower_err("struct Point { x: i32 } fn main() { let p = Point::Origin; }");
    assert!(errors[0].message.contains("no variant"), "{errors:?}");
}

#[test]
fn a_variant_payload_is_checked_like_a_struct() {
    let errors = lower_err(
        "enum State { Chasing { target: i32 } } \
         fn main() { let s = State::Chasing { }; }",
    );
    assert!(errors[0].message.contains("'target'"), "{errors:?}");
}

#[test]
fn an_enum_field_cannot_be_read_without_match() {
    let errors = lower_err(
        "enum State { Chasing { target: i32 } } \
         fn main() { let s = State::Chasing { target: 1 }; let t = s.target; }",
    );
    assert!(errors[0].message.contains("match"), "{errors:?}");
}

#[test]
fn a_variant_field_cannot_take_the_tag_key() {
    let errors = lower_err("enum State { Chasing { tag: i32 } }");
    assert!(errors[0].message.contains("tag"), "{errors:?}");
}

#[test]
fn a_tuple_variant_says_to_name_its_fields() {
    let (_, errors) = parse("enum State { Chasing(i32) }");
    assert!(errors[0].message.contains("names its fields"), "{errors:?}");
}

#[test]
fn an_enum_cannot_contain_itself_through_a_struct() {
    let errors = lower_err("enum List { Cons { rest: Wrap } } struct Wrap { l: List }");
    assert!(errors[0].message.contains("contains itself"), "{errors:?}");
}

#[test]
fn a_match_that_misses_a_variant_is_reported() {
    let errors = lower_err(
        "enum State { Idle, Waking } \
         fn main() { let s = State::Idle; match s { State::Idle => { } } }",
    );
    assert!(errors[0].message.contains("Waking"), "{errors:?}");
}

#[test]
fn a_variant_covered_twice_is_reported() {
    let errors = lower_err(
        "enum State { Idle } \
         fn main() { let s = State::Idle; \
                     match s { State::Idle => { } State::Idle => { } } }",
    );
    assert!(errors[0].message.contains("already covered"), "{errors:?}");
}

#[test]
fn a_wildcard_has_to_come_last() {
    let errors = lower_err(
        "enum State { Idle, Waking } \
         fn main() { let s = State::Idle; \
                     match s { _ => { } State::Idle => { } } }",
    );
    assert!(errors[0].message.contains("last arm"), "{errors:?}");
}

#[test]
fn a_wildcard_that_cannot_run_is_reported() {
    let errors = lower_err(
        "enum State { Idle } \
         fn main() { let s = State::Idle; \
                     match s { State::Idle => { } _ => { } } }",
    );
    assert!(
        errors[0].message.contains("cannot be reached"),
        "{errors:?}"
    );
}

#[test]
fn a_pattern_from_another_enum_is_reported() {
    let errors = lower_err(
        "enum State { Idle } enum Mood { Angry } \
         fn main() { let s = State::Idle; match s { Mood::Angry => { } } }",
    );
    assert!(
        errors[0].message.contains("variant of 'State'"),
        "{errors:?}"
    );
}

#[test]
fn binding_a_field_the_variant_does_not_have_is_reported() {
    let errors = lower_err(
        "enum State { Chasing { target: i32 } } \
         fn main() { let s = State::Chasing { target: 1 }; \
                     match s { State::Chasing { speed } => { } } }",
    );
    assert!(errors[0].message.contains("speed"), "{errors:?}");
}

#[test]
fn only_an_enum_can_be_matched() {
    let errors = lower_err("fn main() { let n = 1; match n { _ => { } } }");
    assert!(errors[0].message.contains("only an enum"), "{errors:?}");
}

#[test]
fn variants_that_differ_only_in_case_are_reported() {
    let errors = lower_err("enum State { Idle, IDLE }");
    assert!(
        errors[0].message.contains("differ only in case"),
        "{errors:?}"
    );
}

#[test]
fn a_binding_is_only_in_scope_inside_its_arm() {
    let errors = lower_err(
        "enum State { Chasing { target: i32 } } \
         fn main() { let s = State::Chasing { target: 1 }; \
                     match s { State::Chasing { target } => { } } \
                     let x = target; }",
    );
    assert!(errors[0].message.contains("not defined"), "{errors:?}");
}

#[test]
fn an_empty_list_without_a_type_is_reported() {
    let errors = lower_err("fn main() { let v = []; }");
    assert!(errors[0].message.contains("empty list"), "{errors:?}");
}

#[test]
fn a_list_of_mixed_types_is_reported() {
    let errors = lower_err("fn main() { let v = [1, true]; }");
    assert!(errors[0].message.contains("same type"), "{errors:?}");
}

#[test]
fn only_a_list_can_be_indexed() {
    let errors = lower_err("fn main() { let n = 1; let x = n[0]; }");
    assert!(errors[0].message.contains("indexed"), "{errors:?}");
}

#[test]
fn an_index_has_to_be_a_number() {
    let errors = lower_err("fn main() { let v = [1]; let x = v[true]; }");
    assert!(errors[0].message.contains("index"), "{errors:?}");
}

#[test]
fn pushing_needs_a_mutable_binding() {
    let errors = lower_err("fn main() { let v = [1]; v.push(2); }");
    assert!(errors[0].message.contains("not mutable"), "{errors:?}");
}

#[test]
fn pushing_the_wrong_type_is_reported() {
    let errors = lower_err("fn main() { let mut v = [1]; v.push(true); }");
    assert!(errors[0].message.contains("expected i32"), "{errors:?}");
}

#[test]
fn an_unknown_method_is_reported() {
    let errors = lower_err("fn main() { let mut v = [1]; v.pop(); }");
    assert!(
        errors[0].message.contains("no method named 'pop'"),
        "{errors:?}"
    );
}

#[test]
fn a_runtime_index_cannot_be_followed_by_a_field() {
    let errors = lower_err(
        "struct Point { x: i32 } \
         fn main() { let v = [Point { x: 1 }]; let i = 0; let n = v[i].x; }",
    );
    assert!(errors[0].message.contains("last step"), "{errors:?}");
}

#[test]
fn a_list_cannot_hold_a_compile_time_type() {
    let errors = lower_err("fn f(v: Vec<selector>) {}");
    assert!(!errors.is_empty(), "{errors:?}");
}

#[test]
fn vec_needs_exactly_one_type_argument() {
    let errors = lower_err("fn f(v: Vec) {}");
    assert!(
        errors[0].message.contains("one type argument"),
        "{errors:?}"
    );
    let errors = lower_err("fn f(v: i32<bool>) {}");
    assert!(errors[0].message.contains("type arguments"), "{errors:?}");
}

#[test]
fn a_type_parameter_no_argument_mentions_is_reported() {
    let errors =
        lower_err("fn hold<T>(x: i32) -> i32 { return x; } fn main() { let a = hold(1); }");
    assert!(
        errors[0].message.contains("cannot tell what T"),
        "{errors:?}"
    );
}

#[test]
fn a_generic_struct_checks_its_arity() {
    let errors = lower_err("struct Pair<T> { a: T, b: T } fn f(p: Pair) {}");
    assert!(errors[0].message.contains("type argument"), "{errors:?}");
}

#[test]
fn a_template_is_not_a_type_on_its_own() {
    let errors = lower_err(
        "struct Pair<T> { a: T, b: T } \
         fn main() { let p = Pair { a: 1, b: true }; }",
    );
    assert!(errors[0].message.contains("expected i32"), "{errors:?}");
}

#[test]
fn a_tag_cannot_be_written_on_a_parameter_field() {
    let errors = lower_err("struct Holder<T> { #[nbt(byte)] value: T }");
    assert!(errors[0].message.contains("type argument"), "{errors:?}");
}

#[test]
fn an_argument_still_has_to_match_after_substitution() {
    let errors = lower_err(
        "fn pair<T>(a: T, b: T) -> i32 { return 1; } \
         fn main() { let n = pair(1, true); }",
    );
    assert!(errors[0].message.contains("expected i32"), "{errors:?}");
}

#[test]
fn a_place_passed_without_an_ampersand_is_reported() {
    let errors = lower_err(
        "struct P { x: i32 } fn f(p: &mut P) {} \
         fn main() { let mut a = P { x: 1 }; f(a); }",
    );
    assert!(errors[0].message.contains("by reference"), "{errors:?}");
}

#[test]
fn a_shared_borrow_where_mut_is_wanted_is_reported() {
    let errors = lower_err(
        "struct P { x: i32 } fn f(p: &mut P) {} \
         fn main() { let mut a = P { x: 1 }; f(&a); }",
    );
    assert!(errors[0].message.contains("&mut"), "{errors:?}");
}

#[test]
fn a_field_cannot_hold_a_reference() {
    let errors = lower_err("struct Inner { a: i32 } struct Outer { i: &Inner }");
    assert!(errors[0].message.contains("reference"), "{errors:?}");
}

#[test]
fn a_method_on_a_type_without_one_is_reported() {
    let errors =
        lower_err("struct P { x: i32 } fn main() { let p = P { x: 1 }; p.bump(); }");
    assert!(errors[0].message.contains("no method named"), "{errors:?}");
}

#[test]
fn a_struct_can_be_annotated_and_passed() {
    let hir = lower_ok(
        "struct Point { x: i32 } \
         fn take(p: Point) {} \
         fn main() { let p: Point = Point { x: 1 }; take(p); }",
    );
    assert_eq!(hir.types.struct_count(), 1);
    assert_eq!(hir.types.struct_def(StructId(0)).fields[0].name, "x");
}

fn ty_of_let(src: &str) -> Type {
    let hir = lower_ok(src);
    hir.functions[0].locals[0].ty
}

#[test]
fn two_scales_do_not_mix() {
    let errors = lower_err(
        "fn main() { let a = fix::<100>(1); let b = fix::<1000>(1); let c = a + b; }",
    );
    assert!(
        errors[0]
            .message
            .contains("cannot mix fix<100> with fix<1000>"),
        "{errors:?}"
    );
    lower_ok("fn main() { let a = fix::<100>(1); let b = fix::<100>(1); let c = a + b; }");
}

#[test]
fn a_cast_from_an_integer_is_free() {
    let hir = lower_ok("fn main() { let a = fix::<1000>(1500); }");
    let Stmt::Let { value, .. } = &hir.functions[0].body[0] else {
        panic!("expected a let");
    };
    assert_eq!(value.ty, Type::Fix(Scale::Const(1000)));
    assert_eq!(value.kind, ExprKind::Int(1500));
}

#[test]
fn an_integer_is_not_a_fix() {
    let errors = lower_err("fn main() { let a: fix<1000> = 1; }");
    assert!(
        errors[0].message.contains("expected fix<1000>"),
        "{errors:?}"
    );
    let errors = lower_err("fn main() { let a = fix::<1000>(1) + 1; }");
    assert!(errors[0].message.contains("cannot mix"), "{errors:?}");
}

#[test]
fn an_integer_multiplier_needs_no_conversion() {
    assert_eq!(
        ty_of_let("fn main() { let a = fix::<1000>(1500) * 2; }"),
        Type::Fix(Scale::Const(1000))
    );
    assert_eq!(
        ty_of_let("fn main() { let a = fix::<1000>(1500) / 2; }"),
        Type::Fix(Scale::Const(1000))
    );
    let errors = lower_err("fn main() { let a = 2 / fix::<1000>(1500); }");
    assert!(errors[0].message.contains("cannot mix"), "{errors:?}");
}

#[test]
fn a_scale_is_one_or_more() {
    let errors = lower_err("fn main() { let a = fix::<0>(1); }");
    assert!(errors[0].message.contains("1 or more"), "{errors:?}");
}

#[test]
fn a_cast_between_scales_is_allowed() {
    assert_eq!(
        ty_of_let("fn main() { let a = fix::<100>(fix::<1000>(1500)); }"),
        Type::Fix(Scale::Const(100))
    );
}

#[test]
fn a_const_parameter_takes_the_scale_of_the_argument() {
    let hir = lower_ok(
        "fn half<const S: i32>(x: fix<S>) -> fix<S> { return x / 2; } \
         fn main() { let a = half(fix::<1000>(1500)); }",
    );
    let names: Vec<&str> = hir.functions.iter().map(|f| f.name.as_str()).collect();
    assert!(names.contains(&"half_fix_1000"), "{names:?}");
    assert_eq!(hir.functions[0].locals[0].ty, Type::Fix(Scale::Const(1000)));
}

#[test]
fn one_instance_per_scale() {
    let hir = lower_ok(
        "fn id<const S: i32>(x: fix<S>) -> fix<S> { return x; } \
         fn main() { let a = id(fix::<100>(1)); let b = id(fix::<1000>(1)); \
                     let c = id(fix::<100>(2)); }",
    );
    let instances = hir
        .functions
        .iter()
        .filter(|f| f.name.starts_with("id_"))
        .count();
    assert_eq!(instances, 2);
}

#[test]
fn a_const_parameter_is_not_a_type() {
    let errors = lower_err("fn f<const S: i32>(x: S) {}");
    assert!(errors[0].message.contains("const parameter"), "{errors:?}");
}

#[test]
fn a_type_parameter_is_not_a_scale() {
    let errors = lower_err("fn f<T>(x: fix<T>) {}");
    assert!(errors[0].message.contains("const T: i32"), "{errors:?}");
}

#[test]
fn an_nbt_scalar_has_no_arithmetic() {
    let errors = lower_err("fn f(a: f64, b: f64) { let c = a + b; }");
    assert!(errors[0].message.contains("fix::<1000>(x)"), "{errors:?}");
    let errors = lower_err("fn f(a: i64, b: i64) { let c = a < b; }");
    assert!(errors[0].message.contains("no arithmetic"), "{errors:?}");
}

#[test]
fn an_nbt_scalar_takes_its_tag_from_its_type() {
    let hir = lower_ok("struct Mob { hp: f32, age: i64, flag: i8 }");
    let def = hir.types.struct_def(StructId(0));
    assert_eq!(def.fields[0].tag, Some(NbtTag::Float));
    assert_eq!(def.fields[1].tag, Some(NbtTag::Long));
    assert_eq!(def.fields[2].tag, Some(NbtTag::Byte));
}

#[test]
fn an_nbt_scalar_cannot_be_given_a_tag() {
    let errors = lower_err("struct Mob { #[nbt(byte)] hp: f64 }");
    assert!(errors[0].message.contains("already a tag"), "{errors:?}");
    lower_ok("struct Mob { #[nbt(byte)] hp: i32 }");
}

#[test]
fn a_float_tag_can_be_asked_for_by_name() {
    let hir = lower_ok("struct Mob { #[nbt(double)] hp: i32 }");
    let def = hir.types.struct_def(StructId(0));
    assert_eq!(def.fields[0].tag, Some(NbtTag::Double));
}

#[test]
fn a_fix_cannot_become_an_integer_tag() {
    let errors = lower_err(
        "struct Mob { age: i64 } \
         fn main() { let a = fix::<1000>(1500); let m = Mob { age: a.as_i64() }; }",
    );
    assert!(errors[0].message.contains("no conversion"), "{errors:?}");
}

#[test]
fn a_conversion_takes_no_arguments() {
    let errors = lower_err("fn main() { let a = 1; let d = a.as_f64(1); }");
    assert!(errors[0].message.contains("no arguments"), "{errors:?}");
}

#[test]
fn an_nbt_scalar_cannot_be_assigned_a_score() {
    let errors = lower_err("struct Mob { pos: f64 } fn main() { let m = Mob { pos: 1 }; }");
    assert!(errors[0].message.contains("expected f64"), "{errors:?}");
}

#[test]
fn a_field_the_type_does_not_have_is_reported() {
    let errors = lower_err(
        "struct Mob { hp: i32 } \
         fn main() { let m: Mob = nbt!({ hp: 20, rage: 3 }); }",
    );
    assert!(
        errors[0].message.contains("no field written as 'rage'"),
        "{errors:?}"
    );
    lower_ok("struct Mob { hp: i32 } fn main() { let m: Mob = nbt!({ hp: 20 }); }");
}

#[test]
fn a_missing_field_is_reported() {
    let errors = lower_err(
        "struct Mob { hp: i32, name: String } \
         fn main() { let m: Mob = nbt!({ hp: 20 }); }",
    );
    assert!(errors[0].message.contains("'name'"), "{errors:?}");
}

#[test]
fn a_value_of_the_wrong_shape_is_reported() {
    let errors =
        lower_err("struct Mob { hp: i32 } fn main() { let m: Mob = nbt!({ hp: \"a\" }); }");
    assert!(errors[0].message.contains("expected i32"), "{errors:?}");
    let errors =
        lower_err("struct Mob { hp: i32 } fn main() { let m: Mob = nbt!({ hp: [1] }); }");
    assert!(errors[0].message.contains("expected i32"), "{errors:?}");
}

#[test]
fn a_suffix_is_not_written() {
    let errors = lower_err(
        "struct Mob { weight: f64 } fn main() { let m: Mob = nbt!({ weight: 2 d }); }",
    );
    assert!(errors[0].message.contains("no suffix"), "{errors:?}");
}

#[test]
fn nbt_without_a_type_to_check_against_is_reported() {
    let errors =
        lower_err("struct Mob { hp: i32 } fn main() { let m = nbt!({ hp: 20 }); }");
    assert!(
        errors[0].message.contains("annotate the binding"),
        "{errors:?}"
    );
}

#[test]
fn a_field_written_twice_is_reported() {
    let errors = lower_err(
        "struct Mob { hp: i32 } fn main() { let m: Mob = nbt!({ hp: 1, hp: 2 }); }",
    );
    assert!(errors[0].message.contains("twice"), "{errors:?}");
}

#[test]
fn none_on_its_own_says_what_is_missing() {
    let errors = lower_err("fn main() { let a = None; }");
    assert!(
        errors[0].message.contains("does not say what it is"),
        "{errors:?}"
    );
    lower_ok("fn main() { let a: Option<i32> = None; }");
}

#[test]
fn an_option_of_an_option_cannot_be_told_apart() {
    let errors = lower_err("fn f(x: Option<Option<i32>>) {}");
    assert!(
        errors[0].message.contains("either there or not"),
        "{errors:?}"
    );
    let errors = lower_err("fn main() { let a: Option<i32> = Some(1); let b = Some(a); }");
    assert!(
        errors[0].message.contains("cannot be told apart"),
        "{errors:?}"
    );
}

#[test]
fn an_option_holds_a_runtime_value() {
    let errors = lower_err("fn main() { let a = Some(@s); }");
    assert!(errors[0].message.contains("no runtime value"), "{errors:?}");
}

#[test]
fn option_takes_one_type_argument() {
    let errors = lower_err("fn f(x: Option) {}");
    assert!(
        errors[0].message.contains("one type argument"),
        "{errors:?}"
    );
}

#[test]
fn the_type_has_to_match_what_it_is_written_into() {
    let errors = lower_err("fn main() { let a: i32 = None; }");
    assert!(errors[0].message.contains("expected i32"), "{errors:?}");
    let errors =
        lower_err("struct Mob { hp: Option<i32> } fn main() { let m = Mob { hp: 1 }; }");
    assert!(
        errors[0].message.contains("expected Option<i32>"),
        "{errors:?}"
    );
}

#[test]
fn a_match_on_an_option_covers_both_sides() {
    let errors =
        lower_err("fn main() { let a: Option<i32> = Some(1); match a { Some(v) => {} } }");
    assert!(
        errors[0].message.contains("does not cover None"),
        "{errors:?}"
    );
    let errors =
        lower_err("fn main() { let a: Option<i32> = Some(1); match a { None => {} } }");
    assert!(
        errors[0].message.contains("does not cover Some(x)"),
        "{errors:?}"
    );
    lower_ok(
        "fn main() { let a: Option<i32> = Some(1); match a { Some(v) => {} None => {} } }",
    );
}

#[test]
fn an_option_arm_cannot_name_a_variant() {
    let errors = lower_err(
        "enum State { Idle } \
         fn main() { let a: Option<i32> = Some(1); match a { State::Idle => {} } }",
    );
    assert!(
        errors[0].message.contains("'Some(x)' and 'None'"),
        "{errors:?}"
    );
}

#[test]
fn an_enum_arm_cannot_be_some_or_none() {
    let errors = lower_err(
        "enum State { Idle } \
         fn main() { let s = State::Idle; match s { Some(v) => {} None => {} } }",
    );
    assert!(
        errors[0].message.contains("name its variants"),
        "{errors:?}"
    );
}

#[test]
fn an_arm_after_both_sides_cannot_be_reached() {
    let errors = lower_err(
        "fn main() { let a: Option<i32> = Some(1); \
         match a { Some(v) => {} None => {} _ => {} } }",
    );
    assert!(
        errors[0].message.contains("cannot be reached"),
        "{errors:?}"
    );
}

#[test]
fn a_question_mark_needs_a_function_that_can_answer_with_nothing() {
    let errors = lower_err("fn f(a: Option<i32>) -> i32 { let v = a?; return v; }");
    assert!(errors[0].message.contains("return an Option"), "{errors:?}");
    lower_ok("fn f(a: Option<i32>) -> Option<i32> { let v = a?; return Some(v); }");
}

#[test]
fn a_question_mark_only_takes_an_option() {
    let errors = lower_err("fn f(a: i32) -> Option<i32> { let v = a?; return Some(v); }");
    assert!(
        errors[0].message.contains("'?' takes an Option"),
        "{errors:?}"
    );
}

#[test]
fn a_question_mark_unwraps_into_a_register() {
    let errors = lower_err(
        "struct P { x: i32 } \
         fn f(a: Option<P>) -> Option<i32> { let v = a?; return Some(1); }",
    );
    assert!(
        errors[0].message.contains("does not fit in one"),
        "{errors:?}"
    );
}

#[test]
fn an_option_of_a_compound_cannot_be_returned() {
    let errors = lower_err("struct P { x: i32 } fn f() -> Option<P> { return None; }");
    assert!(
        errors[0]
            .message
            .contains("cannot come back from a function"),
        "{errors:?}"
    );
}

#[test]
fn a_binding_can_shadow_the_word_none() {
    let hir = lower_ok("fn main() { let None = 1; let x = None; }");
    assert_eq!(hir.functions[0].locals[1].ty, Type::I32);
}

#[test]
fn a_selector_that_may_find_several_is_reported() {
    let errors = lower_err(
        "#[entity] struct Mob { hp: Option<i32> } \
         fn main() { let m = Mob::of(@e[type=zombie]); }",
    );
    assert!(
        errors[0].message.contains("more than one entity"),
        "{errors:?}"
    );
    lower_ok(
        "#[entity] struct Mob { hp: Option<i32> } \
         fn main() { let m = Mob::of(@e[type=zombie, limit=1]); }",
    );
    lower_ok("#[entity] struct Mob { hp: Option<i32> } fn main() { let m = Mob::of(@p); }");
}

#[test]
fn a_view_of_the_executor_needs_a_context() {
    let errors = lower_err(
        "#[entity] struct Mob { hp: Option<i32> } fn main() { let m = Mob::of(@s); }",
    );
    assert!(errors[0].message.contains("entity context"), "{errors:?}");
    lower_ok(
        "#[entity] struct Mob { hp: Option<i32> } \
         #[ctx(entity)] fn f() { let m = Mob::of(@s); }",
    );
}

#[test]
fn only_a_view_has_of() {
    let errors =
        lower_err("struct Mob { hp: Option<i32> } fn main() { let m = Mob::of(@p); }");
    assert!(errors[0].message.contains("#[entity]"), "{errors:?}");
}

#[test]
fn a_view_is_not_a_value() {
    let errors = lower_err(
        "#[entity] struct Mob { hp: Option<i32> } \
         struct Holder { m: Mob }",
    );
    assert!(!errors.is_empty(), "{errors:?}");
    let errors = lower_err("#[entity] struct Mob { hp: Option<i32> } fn take(m: Mob) {}");
    assert!(!errors.is_empty(), "{errors:?}");
}

#[test]
fn a_view_field_is_read_and_written_like_any_other() {
    let hir = lower_ok(
        "#[entity] struct Mob { #[nbt(float, rename = \"Health\")] hp: Option<fix<1000>> } \
         #[ctx(entity)] fn f() { let mut m = Mob::of(@s); m.hp = Some(fix::<1000>(1500)); }",
    );
    assert_eq!(hir.functions[0].body.len(), 1);
}

#[test]
fn attributes_above_an_impl_are_looked_at() {
    let src = "struct P { x: i32 } #[tik] impl P { fn f(self) { } }";
    let errors = lower_err(src);
    assert_eq!(errors.len(), 1, "{errors:?}");
    assert!(errors[0].message.contains("unknown attribute"), "{errors:?}");
    let src = "struct P { x: i32 } #[tick] impl P { fn f(self) { } }";
    let errors = lower_err(src);
    assert_eq!(errors.len(), 1, "{errors:?}");
    assert_eq!(&src[errors[0].span.start..errors[0].span.end], "#[tick]");
    assert!(lower_err("struct P { x: i32 } impl P { fn f(self) { } }").is_empty());
}

#[test]
fn attributes_of_a_function_do_not_go_on_a_statement() {
    for attr in ["tick", "load", "test"] {
        let src = format!("fn main() {{ #[{attr}] if true {{ raw!(\"say x\"); }} }}");
        let errors = lower_err(&src);
        assert_eq!(errors.len(), 1, "{errors:?}");
        assert_eq!(&src[errors[0].span.start..errors[0].span.end], format!("#[{attr}]"));
    }
    assert!(lower_err("fn main() { #[inline] if true { raw!(\"say x\"); } }").is_empty());
}

#[test]
fn a_name_no_command_has_is_not_defined() {
    let empty = Schema::default();
    assert!(empty.commands.is_empty() && empty.unknown_parsers.is_empty());
    let src = "fn main() { nope(); }";
    let (file, errors) = parse(src);
    assert!(errors.is_empty(), "{errors:?}");
    let (_, errors) = lower(&file, "myns", Some(&empty));
    assert_eq!(errors.len(), 1, "{errors:?}");
    assert!(errors[0].message.contains("'nope'"), "{errors:?}");
    assert_eq!(&src[errors[0].span.start..errors[0].span.end], "nope");
    assert_eq!(lower_err_with_toolchain(src).len(), 1);
}

#[test]
fn a_field_can_be_a_generic_struct() {
    let hir = lower_ok("struct Pair<T> { a: T, b: T } struct Holder { p: Pair<i32> } fn main() {}");
    let Some(Type::Struct(id)) = hir.types.get("Holder") else {
        panic!("no Holder in {:?}", hir.types);
    };
    let field = hir.types.struct_def(id).fields[0].ty;
    assert_eq!(hir.types.name_of(field), "Pair<i32>");
    let Type::Struct(pair) = field else {
        panic!("a pair is a struct");
    };
    let fields = &hir.types.struct_def(pair).fields;
    assert_eq!(fields.len(), 2);
    assert_eq!(fields[0].ty, Type::I32);
    assert_eq!(fields[1].ty, Type::I32);
}

#[test]
fn a_template_can_name_a_later_one() {
    let hir = lower_ok(
        "struct Outer<T> { inner: Inner<T> } struct Inner<T> { v: T }
         fn main() { let o = Outer { inner: Inner { v: 1 } }; let x = o.inner.v + 1; }",
    );
    assert!(hir.types.get("Outer").is_none());
    assert_eq!(hir.functions.len(), 1);
}

#[test]
fn a_struct_that_needs_ever_larger_ones_is_refused() {
    let errors = lower_err(
        "struct Grow<T> { v: T, next: Vec<Grow<Vec<T>>> } struct S { g: Grow<i32> } fn main() {}",
    );
    assert!(!errors.is_empty());
    assert!(
        errors.iter().any(|e| e.message.contains("never ends")),
        "{errors:?}"
    );
}

#[test]
fn a_string_in_a_generic_name_is_lower_case() {
    let hir = lower_ok(
        "fn id<T>(x: T) -> T { return x; } fn main() { let a = id(\"x\"); let b = id(1); }",
    );
    assert_eq!(hir.types.mangle(Type::Str), "string");
    for f in &hir.functions {
        let path = f.path.strip_prefix("myns:").expect("in the namespace");
        assert!(
            path.chars().all(|c| c.is_ascii_lowercase() || c.is_ascii_digit() || c == '_' || c == '/'),
            "{path}"
        );
    }
}

#[test]
fn an_entity_view_takes_no_attribute_of_a_function() {
    let errors = lower_err("#[entity] #[tick] struct Mob { hp: i32 } fn main() {}");
    assert_eq!(errors.len(), 1, "{errors:?}");
}

#[test]
fn a_test_of_a_block_is_no_statement() {
    let src = "fn main() { block(pos!(~ ~-1 ~), minecraft:stone); }";
    let errors = lower_err(src);
    assert_eq!(errors.len(), 1, "{errors:?}");
    assert_eq!(errors[0].message, "this expression has no effect");
    assert_eq!(
        &src[errors[0].span.start..errors[0].span.end],
        "block(pos!(~ ~-1 ~), minecraft:stone)"
    );
    assert!(lower_err(
        "fn main() { if block(pos!(~ ~-1 ~), minecraft:stone) { raw!(\"say hi\"); } }"
    )
    .is_empty());
}

#[test]
fn an_instance_can_need_very_many_others() {
    let many = 1100;
    let mut src = String::new();
    let mut fields = String::new();
    for i in 0..many {
        src.push_str(&format!("struct Leaf{i}<T> {{ v: T }} "));
        fields.push_str(&format!("f{i}: Leaf{i}<T>, "));
    }
    src.push_str(&format!("struct Big<T> {{ {fields} }} struct Holder {{ b: Big<i32> }} fn main() {{}}"));
    let hir = lower_ok(&src);
    let Some(Type::Struct(holder)) = hir.types.get("Holder") else {
        panic!("there is a holder");
    };
    let Type::Struct(big) = hir.types.struct_def(holder).fields[0].ty else {
        panic!("it holds a struct");
    };
    let fields = &hir.types.struct_def(big).fields;
    assert_eq!(fields.len(), many);
    for (i, field) in fields.iter().enumerate() {
        assert_eq!(hir.types.name_of(field.ty), format!("Leaf{i}<i32>"));
        let Type::Struct(leaf) = field.ty else {
            panic!("a leaf is a struct");
        };
        assert_eq!(hir.types.struct_def(leaf).fields[0].ty, Type::I32);
    }
}

#[test]
fn a_template_can_come_back_to_itself_unchanged() {
    for src in [
        "struct Node<T> { v: T, next: Vec<Node<T>> } fn f(n: Node<i32>) { let x = n.v + 1; } fn main() {}",
        "struct A<T, U> { b: Vec<B<Vec<T>, U>> } struct B<X, Y> { a: Vec<A<i32, Y>> } struct S { a: A<bool, i32> } fn main() {}",
        "struct A<T> { b: Vec<B<T>> } struct B<T> { a: Vec<A<T>> } struct S { a: A<i32> } fn main() {}",
    ] {
        assert!(lower_err(src).is_empty(), "{src}: {:?}", lower_err(src));
    }
}

#[test]
fn a_template_cannot_come_back_to_itself_larger() {
    for (src, names) in [
        ("struct G<T> { v: Vec<G<Option<T>>> } fn main() {}", vec!["G"]),
        (
            "struct A<T> { b: Vec<B<T>> } struct B<T> { a: Vec<A<Vec<T>>> } fn main() {}",
            vec!["A", "B"],
        ),
        (
            "struct P<T> { v: T } struct A<T> { p: P<Vec<A<P<T>>>> } struct U<T> { a: A<T> } fn main() {}",
            vec!["A"],
        ),
    ] {
        let messages: Vec<String> = lower_err(src).into_iter().map(|e| e.message).collect();
        let expected: Vec<String> = names
            .iter()
            .map(|name| format!("'{name}' never ends: each instance of it needs another"))
            .collect();
        assert_eq!(messages, expected, "{src}");
    }
}
