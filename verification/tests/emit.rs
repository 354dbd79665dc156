//! What a program is written as.

use mwlc::driver::compile;
use mwlc::emit::{emit, line_of, Datapack, Options, Profile, Source};
use mwlc::hir::lower as lower_hir;
use mwlc::mir::lower as lower_mir;
use mwlc::syntax::parser::parse;

fn build(src: &str, options: &Options) -> Datapack {
    let (file, errors) = parse(src);
    assert!(errors.is_empty(), "{errors:?}");
    let (hir, errors) = lower_hir(&file, "myns", None);
    assert!(errors.is_empty(), "{errors:?}");
    let (mir, errors) = lower_mir(&hir, options.profile == Profile::Debug);
    assert!(errors.is_empty(), "{errors:?}");
    emit(&mir, options)
}

fn release() -> Options {
    Options {
        profile: Profile::Release,
        description: "a test pack".to_owned(),
        ..Options::default()
    }
}

fn lines(pack: &Datapack, name: &str) -> Vec<String> {
    let path = format!("data/myns/function/{name}.mcfunction");
    match pack.files.get(&path) {
        Some(text) => text.lines().map(str::to_owned).collect(),
        None => panic!("no {path} in {:?}", pack.files.keys()),
    }
}

#[test]
fn the_layout_is_what_minecraft_expects() {
    let pack = build(r#"fn main() { raw!("say hi"); }"#, &release());
    assert_eq!(
        pack.files.keys(),
        vec!["data/myns/function/main.mcfunction", "pack.mcmeta"]
    );
}

#[test]
fn the_whole_pack() {
    let pack = build(
        r#"fn main() { raw!("say hi"); raw!("say bye"); } fn other() { raw!("say x"); }"#,
        &release(),
    );
    assert_eq!(
        pack.files.keys(),
        vec![
            "data/myns/function/main.mcfunction",
            "data/myns/function/other.mcfunction",
            "pack.mcmeta"
        ]
    );
    assert_eq!(
        pack.files.get("data/myns/function/main.mcfunction"),
        Some("say hi\nsay bye\n")
    );
    assert_eq!(
        pack.files.get("data/myns/function/other.mcfunction"),
        Some("say x\n")
    );
    assert_eq!(
        pack.files.get("pack.mcmeta"),
        Some("{\n  \"pack\": {\n    \"pack_format\": 48,\n    \"description\": \"a test pack\"\n  }\n}\n")
    );
}

#[test]
fn a_debug_build_says_which_line_each_command_came_from() {
    let src = "fn main() {\n    raw!(\"say hi\");\n}";
    let pack = build(
        src,
        &Options {
            source: Some(Source {
                path: "src/main.mwl".to_owned(),
                text: src.to_owned(),
            }),
            ..Options::default()
        },
    );
    assert_eq!(
        pack.files.get("data/myns/function/main.mcfunction"),
        Some("# src/main.mwl:2\nsay hi\n")
    );
}

#[test]
fn a_release_build_does_not() {
    let src = "fn main() {\n    raw!(\"say hi\");\n}";
    let pack = build(
        src,
        &Options {
            source: Some(Source {
                path: "src/main.mwl".to_owned(),
                text: src.to_owned(),
            }),
            ..release()
        },
    );
    assert_eq!(
        pack.files.get("data/myns/function/main.mcfunction"),
        Some("say hi\n")
    );
}

#[test]
fn the_description_is_escaped_into_the_metadata() {
    let pack = build(
        "fn main() {}",
        &Options {
            description: r#"a "quoted" pack"#.to_owned(),
            ..release()
        },
    );
    let meta = pack.files.get("pack.mcmeta").expect("there is one");
    assert!(meta.contains(r#"a \"quoted\" pack"#), "{meta}");
}

#[test]
fn line_numbers_count_from_one() {
    assert_eq!(line_of("a\nb\nc", 0), 1);
    assert_eq!(line_of("a\nb\nc", 2), 2);
    assert_eq!(line_of("a\nb\nc", 4), 3);
    assert_eq!(
        line_of("a", 999),
        1,
        "an offset past the end must not panic"
    );
}

#[test]
fn a_constant_is_one_command_and_a_sum_goes_through_a_temporary() {
    let pack = build("fn main() { let x = 5; let y = x + 2; }", &release());
    assert_eq!(
        lines(&pack, "main"),
        vec![
            "scoreboard players set $main.x myns.v 5",
            "scoreboard players operation $t0 myns.t = $main.x myns.v",
            "scoreboard players add $t0 myns.t 2",
            "scoreboard players operation $main.y myns.v = $t0 myns.t",
        ]
    );
}

#[test]
fn taking_a_constant_away_is_a_remove() {
    let pack = build("fn main() { let mut x = 1; x -= 3; }", &release());
    assert_eq!(
        lines(&pack, "main"),
        vec![
            "scoreboard players set $main.x myns.v 1",
            "scoreboard players remove $main.x myns.v 3",
        ]
    );
}

#[test]
fn a_single_command_under_a_guard_needs_no_function() {
    let pack = build(
        r#"fn main() { let x = 1; if x < 5 { raw!("say low"); } }"#,
        &release(),
    );
    assert_eq!(
        lines(&pack, "main"),
        vec![
            "scoreboard players set $main.x myns.v 1",
            "execute if score $main.x myns.v matches ..4 run say low",
        ]
    );
    assert_eq!(pack.costs[0].commands, 3);
    assert!(!pack.costs[0].loops);
}

#[test]
fn both_sides_of_an_if_are_functions() {
    let pack = build(
        r#"fn main() { let x = 1; if x == 1 { raw!("say a"); raw!("say b"); } else { raw!("say c"); } }"#,
        &release(),
    );
    assert_eq!(
        lines(&pack, "main"),
        vec![
            "scoreboard players set $main.x myns.v 1",
            "execute if score $main.x myns.v matches 1..1 run function myns:main/if_0",
            "execute unless score $main.x myns.v matches 1..1 run function myns:main/else_1",
        ]
    );
    assert_eq!(lines(&pack, "main/if_0"), vec!["say a", "say b"]);
    assert_eq!(lines(&pack, "main/else_1"), vec!["say c"]);
}

#[test]
fn a_loop_is_a_function_that_calls_itself() {
    let pack = build(
        "fn main() { let mut i = 0; while i < 3 { i += 1; } }",
        &release(),
    );
    assert_eq!(
        lines(&pack, "main"),
        vec![
            "scoreboard players set $main.i myns.v 0",
            "function myns:main/while_0",
        ]
    );
    assert_eq!(
        lines(&pack, "main/while_0"),
        vec![
            "execute unless score $main.i myns.v matches ..2 run return 0",
            "scoreboard players add $main.i myns.v 1",
            "function myns:main/while_0",
        ]
    );
    assert_eq!(pack.costs[0].commands, 6);
    assert!(pack.costs[0].loops);
}

#[test]
fn a_recursive_call_saves_and_restores_what_is_still_needed() {
    let pack = build(
        "fn f(n: i32) -> i32 { if n == 0 { return 1; } return n * f(n - 1); }",
        &release(),
    );
    assert_eq!(
        lines(&pack, "f"),
        vec![
            "scoreboard players set $f.ctl myns.v 0",
            "execute if score $f.n myns.v matches 0..0 run function myns:f/if_0",
            "execute if score $f.ctl myns.v matches 3..3 run return run scoreboard players get $f.ret myns.v",
            "scoreboard players operation $t0 myns.t = $f.n myns.v",
            "scoreboard players remove $t0 myns.t 1",
            "data modify storage myns:mw mw.stack append value {}",
            "execute store result storage myns:mw mw.stack[-1].s0 int 1 run scoreboard players get $f.n myns.v",
            "execute store result storage myns:mw mw.stack[-1].s1 int 1 run scoreboard players get $t0 myns.t",
            "scoreboard players operation $f.n myns.v = $t0 myns.t",
            "execute store result score $t1 myns.t run function myns:f",
            "execute store result score $f.n myns.v run data get storage myns:mw mw.stack[-1].s0",
            "execute store result score $t0 myns.t run data get storage myns:mw mw.stack[-1].s1",
            "data remove storage myns:mw mw.stack[-1]",
            "scoreboard players operation $t2 myns.t = $f.n myns.v",
            "scoreboard players operation $t2 myns.t *= $t1 myns.t",
            "return run scoreboard players get $t2 myns.t",
        ]
    );
    assert_eq!(
        lines(&pack, "f/if_0"),
        vec![
            "scoreboard players set $f.ret myns.v 1",
            "scoreboard players set $f.ctl myns.v 3",
            "return 0",
        ]
    );
}

#[test]
fn mutual_recursion_saves_too_and_an_ordinary_call_does_not() {
    let pack = build(
        "fn a(n: i32) { b(n); } fn b(n: i32) { a(n); } fn c(n: i32) { a(n); }",
        &release(),
    );
    assert!(lines(&pack, "a").iter().any(|l| l.contains("mw.stack")));
    assert!(lines(&pack, "b").iter().any(|l| l.contains("mw.stack")));
    assert!(!lines(&pack, "c").iter().any(|l| l.contains("mw.stack")));
}

#[test]
fn what_is_known_of_a_struct_is_one_command() {
    let pack = build(
        "struct P { x: i32, #[nbt(byte)] y: i32 } fn main() { let a = 2; let p = P { x: 1, y: a }; }",
        &release(),
    );
    assert_eq!(
        lines(&pack, "main"),
        vec![
            "scoreboard players set $main.a myns.v 2",
            "data modify storage myns:mw mw.vars.main.p set value {x:1,y:0b}",
            "execute store result storage myns:mw mw.vars.main.p.y byte 1 run scoreboard players get $main.a myns.v",
        ]
    );
}

#[test]
fn a_match_tests_a_copy() {
    let pack = build(
        r#"enum S { Idle, Run { n: i32 } }
           fn main() {
               let s = S::Run { n: 2 };
               match s { S::Idle => { raw!("say idle"); } S::Run { n } => { raw!("say run"); } }
           }"#,
        &release(),
    );
    assert_eq!(
        lines(&pack, "main"),
        vec![
            r#"data modify storage myns:mw mw.vars.main.s set value {tag:"Run",n:2}"#,
            "data modify storage myns:mw mw.tmp.m0 set from storage myns:mw mw.vars.main.s",
            r#"execute if data storage myns:mw mw.tmp.m0{tag:"Idle"} run function myns:main/match_0/idle"#,
            r#"execute if data storage myns:mw mw.tmp.m0{tag:"Run"} run function myns:main/match_0/run"#,
        ]
    );
    assert_eq!(lines(&pack, "main/match_0/idle"), vec!["say idle"]);
    assert_eq!(
        lines(&pack, "main/match_0/run"),
        vec![
            "execute store result score $main.n myns.v run data get storage myns:mw mw.vars.main.s.n",
            "say run",
        ]
    );
}

#[test]
fn a_wildcard_rules_out_every_tag_before_it() {
    let pack = build(
        r#"enum S { A, B, C }
           fn main() { let s = S::A; match s { S::A => { raw!("say a"); } _ => { raw!("say b"); } } }"#,
        &release(),
    );
    assert_eq!(
        lines(&pack, "main")[3],
        r#"execute unless data storage myns:mw mw.tmp.m0{tag:"A"} run function myns:main/match_0/other"#
    );
}

#[test]
fn a_runtime_index_goes_through_a_macro() {
    let pack = build(
        "fn main() { let mut v = [1, 2]; v.push(3); let i = 0; let x = v[i]; let n = v.len(); }",
        &release(),
    );
    assert_eq!(
        lines(&pack, "main"),
        vec![
            "data modify storage myns:mw mw.vars.main.v set value [1,2]",
            "data modify storage myns:mw mw.vars.main.v append value 3",
            "scoreboard players set $main.i myns.v 0",
            "execute store result storage myns:mw mw.args.i int 1 run scoreboard players get $main.i myns.v",
            "execute store result score $main.x myns.v run function myns:main/index_0 with storage myns:mw mw.args",
            "execute store result score $main.n myns.v run data get storage myns:mw mw.vars.main.v",
        ]
    );
    assert_eq!(
        lines(&pack, "main/index_0"),
        vec!["$return run data get storage myns:mw mw.vars.main.v[$(i)]"]
    );
}

#[test]
fn a_list_is_walked_by_taking_its_first_element() {
    let pack = build(
        r#"fn main() { let v = [1, 2]; for x in v { raw!("say hi"); } }"#,
        &release(),
    );
    assert_eq!(
        lines(&pack, "main"),
        vec![
            "data modify storage myns:mw mw.vars.main.v set value [1,2]",
            "data modify storage myns:mw mw.iter.i0 set from storage myns:mw mw.vars.main.v",
            "function myns:main/for_0",
        ]
    );
    assert_eq!(
        lines(&pack, "main/for_0"),
        vec![
            "execute unless data storage myns:mw mw.iter.i0[0] run return 0",
            "execute store result score $main.x myns.v run data get storage myns:mw mw.iter.i0[0]",
            "data remove storage myns:mw mw.iter.i0[0]",
            "say hi",
            "function myns:main/for_0",
        ]
    );
}

#[test]
fn a_string_is_matched_not_compared() {
    let pack = build(
        r#"fn main() { let s = "a"; if s == "a" { raw!("say yes"); } }"#,
        &release(),
    );
    assert_eq!(
        lines(&pack, "main"),
        vec![
            r#"data modify storage myns:mw mw.vars.main.s set value "a""#,
            r#"execute store success score $t0 myns.t if data storage myns:mw mw.vars.main{s:"a"}"#,
            "execute if score $t0 myns.t matches 1..1 run say yes",
        ]
    );
}

#[test]
fn joining_strings_is_one_macro_line() {
    let pack = build(
        r#"fn main() { let a = "x"; let b = a + "!"; let c = b.slice(1..3); }"#,
        &release(),
    );
    assert_eq!(
        lines(&pack, "main"),
        vec![
            r#"data modify storage myns:mw mw.vars.main.a set value "x""#,
            "data modify storage myns:mw mw.args.a set from storage myns:mw mw.vars.main.a",
            "function myns:main/concat_0 with storage myns:mw mw.args",
            "data modify storage myns:mw mw.vars.main.c set string storage myns:mw mw.vars.main.b 1 3",
        ]
    );
    assert_eq!(
        lines(&pack, "main/concat_0"),
        vec![r#"$data modify storage myns:mw mw.vars.main.b set value "$(a)!""#]
    );
}

#[test]
fn a_fix_is_scaled_on_its_way_into_storage_and_out_of_it() {
    let pack = build(
        "struct M { d: f64 } fn main() { let a = fix::<1000>(1500); let m = M { d: a.as_f64() }; let b = fix::<1000>(m.d); }",
        &release(),
    );
    assert_eq!(
        lines(&pack, "main"),
        vec![
            "scoreboard players set $main.a myns.v 1500",
            "data modify storage myns:mw mw.vars.main.m set value {d:0d}",
            "execute store result storage myns:mw mw.vars.main.m.d double 0.001 run scoreboard players get $main.a myns.v",
            "execute store result score $main.b myns.v run data get storage myns:mw mw.vars.main.m.d 1000",
        ]
    );
}

#[test]
fn a_single_command_runs_straight_under_its_context() {
    let pack = build(
        r#"fn main() { as @e[type=zombie] { raw!("say hi"); } }"#,
        &release(),
    );
    assert_eq!(
        lines(&pack, "main"),
        vec!["execute as @e[type=zombie] run say hi"]
    );
    assert_eq!(pack.costs[0].commands, 2);
    assert!(pack.costs[0].loops, "one command per zombie");
}

#[test]
fn leaving_a_context_makes_the_later_entities_return() {
    let pack = build(
        r#"fn main() { for z in @e[type=zombie] { raw!("say hi"); break; } }"#,
        &release(),
    );
    assert_eq!(
        lines(&pack, "main"),
        vec![
            "scoreboard players set $main.ctl myns.v 0",
            "execute as @e[type=zombie] run function myns:main/for_0",
            "execute if score $main.ctl myns.v matches 1..1 run scoreboard players set $main.ctl myns.v 0",
        ]
    );
    assert_eq!(
        lines(&pack, "main/for_0"),
        vec![
            "execute if score $main.ctl myns.v matches 1.. run return 0",
            "say hi",
            "scoreboard players set $main.ctl myns.v 1",
            "return 0",
        ]
    );
}

#[test]
fn a_call_on_the_right_of_and_only_runs_when_it_has_to() {
    let pack = build(
        "fn f() -> bool { return true; } fn main() { let a = true; let b = a && f(); }",
        &release(),
    );
    assert_eq!(
        lines(&pack, "main"),
        vec![
            "scoreboard players set $main.a myns.v 1",
            "scoreboard players operation $t0 myns.t = $main.a myns.v",
            "execute if score $t0 myns.t matches 1..1 run function myns:main/and_0",
            "scoreboard players operation $main.b myns.v = $t0 myns.t",
        ]
    );
    assert_eq!(
        lines(&pack, "main/and_0"),
        vec![
            "execute store result score $t1 myns.t run function myns:f",
            "scoreboard players operation $t0 myns.t = $t1 myns.t",
        ]
    );
}

#[test]
fn a_check_is_in_a_debug_build_only() {
    let src = r#"#[test] fn t() { let a = 2; debug_assert!(a == 5, "two"); } fn main() { let a = 2; debug_assert!(a == 5); }"#;
    let debug = build(src, &Options::default());
    assert_eq!(
        lines(&debug, "t")[1],
        r#"execute unless score $t.a myns.v matches 5..5 run tellraw @a {"text":"minewell: two"}"#
    );
    assert_eq!(debug.tests, vec!["myns:t"]);
    let release = build(src, &release());
    assert_eq!(
        lines(&release, "main"),
        vec!["scoreboard players set $main.a myns.v 2"]
    );
    assert!(release.files.get("data/myns/function/t.mcfunction").is_none());
    assert!(release.tests.is_empty());
}

#[test]
fn what_cannot_be_lowered_yet_is_said() {
    for src in [
        "fn main() { let a: Option<i32> = Some(1); }",
        "fn main() { let a: Option<i32> = None; match a { Some(v) => {} None => {} } }",
        r#"fn main() { let a = 1; raw!("say {a}"); }"#,
        r#"fn main() { positioned pos!(~ ~1 ~) { raw!("say hi"); } }"#,
        "#[entity] struct Mob { hp: i32 } fn main() { let m = Mob::of(@p); let x = m.hp; }",
    ] {
        let report = compile(src, "myns", &Options::default()).expect_err(src);
        assert!(
            report.problems[0].message().contains("is not implemented yet"),
            "{src}: {report:?}"
        );
    }
}
