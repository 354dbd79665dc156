//! What holds of every program, seen on some.

use std::collections::HashMap;

use mwlc::cost::costs;
use mwlc::emit::{emit, Datapack, Options, Profile};
use mwlc::hir::{lower as lower_hir, Component, Hir, Type};
use mwlc::map::TextMap;
use mwlc::mir::{lower as lower_mir, Cmp, Inst, Mir, Op};
use mwlc::names::{fake_player, temp_objective, var_objective, var_path};
use mwlc::syntax::lexer::{lex, TokenKind};
use mwlc::syntax::parser::parse;

fn problems(src: &str) -> Vec<String> {
    let (file, errors) = parse(src);
    assert!(errors.is_empty(), "{errors:?}");
    let (_, errors) = lower_hir(&file, "myns", None);
    errors.into_iter().map(|e| e.message).collect()
}

fn mir(src: &str) -> Mir {
    let (file, errors) = parse(src);
    assert!(errors.is_empty(), "{errors:?}");
    let (hir, errors) = lower_hir(&file, "myns", None);
    assert!(errors.is_empty(), "{errors:?}");
    let (mir, errors) = lower_mir(&hir, false);
    assert!(errors.is_empty(), "{errors:?}");
    mir
}

fn pack(src: &str) -> Datapack {
    let options = Options {
        profile: Profile::Release,
        description: "laws".to_owned(),
        ..Options::default()
    };
    emit(&mir(src), &options)
}

/// The scores after the commands of the first function, in which there are no calls.
fn scores(src: &str) -> HashMap<String, i32> {
    let mir = mir(src);
    let mut s: HashMap<String, i32> = HashMap::new();
    for block in &mir.functions[0].blocks {
        for inst in &block.insts {
            let score = |reg: &mwlc::mir::Reg| s.get(&reg.holder).copied().unwrap_or(0);
            let (dst, value) = match inst {
                Inst::Const { dst, value } => (dst, *value),
                Inst::AddConst { dst, value } => (dst, score(dst).wrapping_add(*value)),
                Inst::Op { dst, op, src } => {
                    let (a, b) = (score(dst), score(src));
                    let value = match op {
                        Op::Assign => b,
                        Op::Add => a.wrapping_add(b),
                        Op::Sub => a.wrapping_sub(b),
                        Op::Mul => a.wrapping_mul(b),
                        Op::Div => a.div_euclid(b),
                        Op::Rem => a.rem_euclid(b),
                        Op::Min => a.min(b),
                        Op::Max => a.max(b),
                    };
                    (dst, value)
                }
                Inst::Cmp {
                    dst,
                    cmp,
                    negated,
                    lhs,
                    rhs,
                } => {
                    let (a, b) = (score(lhs), score(rhs));
                    let holds = match cmp {
                        Cmp::Lt => a < b,
                        Cmp::Le => a <= b,
                        Cmp::Eq => a == b,
                        Cmp::Ge => a >= b,
                        Cmp::Gt => a > b,
                    };
                    (dst, i32::from(holds != *negated))
                }
                Inst::Matches {
                    dst,
                    src,
                    min,
                    max,
                    negated,
                } => {
                    let n = score(src);
                    let holds = min.map_or(true, |m| m <= n) && max.map_or(true, |m| n <= m);
                    (dst, i32::from(holds != *negated))
                }
                other => panic!("{other:?}"),
            };
            s.insert(dst.holder.clone(), value);
        }
    }
    s
}

fn var(s: &HashMap<String, i32>, name: &str) -> i32 {
    s[&fake_player("main", name)]
}

#[test]
fn commands_compute_what_was_written() {
    let s = scores(
        "fn main() {
            let mut x = 5;
            let y = 3;
            x = x * y - 4;
            let big = x > 3 && !(y == 2);
            let none = x < y || y != 3;
            x -= -7;
            x += x;
            let z = -(x - y) % 7;
            let low = x <= 36 && 36 >= x;
            let edge = x < -2147483647;
        }",
    );
    assert_eq!(var(&s, "x"), 36);
    assert_eq!(var(&s, "y"), 3);
    assert_eq!(var(&s, "big"), 1);
    assert_eq!(var(&s, "none"), 0);
    assert_eq!(var(&s, "z"), (-33i32).rem_euclid(7));
    assert_eq!(var(&s, "low"), 1);
    assert_eq!(var(&s, "edge"), 0);
}

#[test]
fn numbers_wrap_around() {
    let s = scores(
        "fn main() {
            let mut x = 2147483647;
            x += 1;
            let mut y = -2147483647 - 1;
            y -= 1;
            let z = -x;
        }",
    );
    assert_eq!(var(&s, "x"), i32::MIN);
    assert_eq!(var(&s, "y"), i32::MAX);
    assert_eq!(var(&s, "z"), i32::MIN);
}

#[test]
fn an_operand_can_be_the_target() {
    let s = scores("fn main() { let mut x = 4; x = x + x * x; let mut b = true; b = !b; }");
    assert_eq!(var(&s, "x"), 20);
    assert_eq!(var(&s, "b"), 0);
}

#[test]
fn what_a_recursive_call_saves_it_restores() {
    let mir = mir("fn main(n: i32) -> i32 {
        if n < 2 { return n; }
        let a = main(n - 1);
        let b = main(n - 2);
        return a + b;
    }");
    let mut saved = Vec::new();
    let mut restored = Vec::new();
    let mut frames = 0;
    for f in &mir.functions {
        for block in &f.blocks {
            for inst in &block.insts {
                match inst {
                    Inst::Save { reg, slot } => saved.push((reg.holder.clone(), *slot)),
                    Inst::Restore { reg, slot } => restored.push((reg.holder.clone(), *slot)),
                    Inst::PushFrame => frames += 1,
                    Inst::PopFrame => frames -= 1,
                    _ => {}
                }
            }
        }
    }
    assert!(!saved.is_empty());
    assert_eq!(saved, restored);
    assert_eq!(frames, 0);
}

#[test]
fn a_binding_ends_with_its_block() {
    assert_eq!(
        problems("fn main() { if true { let inner = 1; } let x = inner; }"),
        vec!["'inner' is not defined"]
    );
    assert!(problems("fn main() { let x = 1; if true { let x = true; } let y = x + 1; }").is_empty());
}

#[test]
fn a_context_ends_with_its_block() {
    let inside = "fn main() { as @e { as @s { raw!(\"say hi\"); } } }";
    assert!(problems(inside).is_empty());
    let outside = "fn main() { as @e { raw!(\"say hi\"); } as @s { raw!(\"say hi\"); } }";
    assert_eq!(problems(outside).len(), 1);
}

#[test]
fn every_problem_is_reported() {
    let found = problems("fn main() { let a = x; let b = y; if z { let c = w; } }");
    assert_eq!(
        found,
        vec!["'x' is not defined", "'y' is not defined", "'z' is not defined"]
    );
}

#[test]
fn one_mistake_hides_nothing() {
    let (file, errors) = parse("fn a() { let ; let y = 1; } enum { fn b() {}");
    assert_eq!(file.items.len(), 2);
    assert_eq!(errors.len(), 2);
    let (file, errors) = parse("fn a( {} # fn b() {} fn c() { 1 }");
    assert!(!file.items.is_empty() && !errors.is_empty());
}

#[test]
fn mistakes_in_words_come_first() {
    let src = "fn a() { let = 1; } fn b() { let x = 99999999999; }";
    let (_, lexed) = lex(src);
    let (_, parsed) = parse(src);
    assert_eq!(lexed.len(), 1);
    assert!(parsed.len() > 1);
    assert_eq!(parsed[0], lexed[0]);
}

#[test]
fn tokens_are_in_order_and_not_empty() {
    let src = "fn main() { /* é */ let x = \"é\\n\"; @e[tag=a,nbt={b:\"]\"}] // end\n }";
    let (tokens, errors) = lex(src);
    assert!(errors.is_empty(), "{errors:?}");
    let mut end = 0;
    for token in &tokens {
        assert!(end <= token.span.start);
        assert!(token.span.start < token.span.end);
        end = token.span.end;
    }
    assert!(end <= src.len());
}

#[test]
fn quoted_text_is_read_back() {
    let text = "say \"hi\" \\ é\n";
    let shown = Component::text(text).render();
    let quoted = shown
        .strip_prefix("{\"text\":")
        .and_then(|rest| rest.strip_suffix("}"))
        .expect("one member");
    assert_eq!(quoted, "\"say \\\"hi\\\" \\\\ é\n\"");
    let (tokens, errors) = lex(quoted);
    assert!(errors.is_empty());
    assert_eq!(tokens.len(), 1);
    assert_eq!(tokens[0].kind, TokenKind::Str(text.to_owned()));
}

#[test]
fn names_do_not_collide() {
    assert_ne!(fake_player("a", "b_c"), fake_player("a_b", "c"));
    assert_ne!(fake_player("a.b", "c"), fake_player("a", "c"));
    assert_ne!(var_path("a", "b"), var_path("b", "a"));
    assert_ne!(var_objective("a"), temp_objective("a"));
}

#[test]
fn the_value_set_last_counts() {
    let mut one = TextMap::new();
    one.insert("color", "red".to_owned());
    one.insert("bold", "true".to_owned());
    one.insert("color", "blue".to_owned());
    let mut other = TextMap::new();
    other.insert("color", "blue".to_owned());
    other.insert("bold", "true".to_owned());
    assert_eq!(one.keys(), other.keys());
    assert_eq!(one.get("color"), Some("blue"));
    assert_eq!(other.get("color"), Some("blue"));
}

#[test]
fn a_function_that_calls_itself_is_never_exact() {
    let mir = mir("fn main() { while true { raw!(\"say hi\"); } } fn once() { raw!(\"say hi\"); }");
    for cost in costs(&mir) {
        if cost.path == "myns:once" {
            assert_eq!(cost.commands, 1);
            assert!(!cost.loops);
        }
        if cost.path.starts_with("myns:main") {
            assert!(cost.loops, "{cost:?}");
        }
    }
}

#[test]
fn every_function_is_lowered_but_for_tests_in_a_release() {
    let src = "fn main() {} fn helper() { raw!(\"say hi\"); } #[test] fn check() {}";
    let files = pack(src).files;
    assert_eq!(
        files.keys(),
        vec![
            "data/myns/function/helper.mcfunction",
            "data/myns/function/main.mcfunction",
            "pack.mcmeta",
        ]
    );
}

#[test]
fn the_same_list_type_is_the_same_type() {
    assert!(problems("fn f(v: Vec<i32>) {} fn main() { let v: Vec<i32> = [1, 2]; f(v); }").is_empty());
    assert_eq!(
        problems("fn f(v: Vec<bool>) {} fn main() { let v: Vec<i32> = [1, 2]; f(v); }").len(),
        1
    );
}

#[test]
fn every_instruction_is_one_line() {
    let src = "struct Point { x: i32 }
        fn helper(n: i32) -> i32 { return n + 1; }
        fn main() {
            let mut p = Point { x: 1 };
            p.x = helper(p.x);
            let s = \"text\";
            let v: Vec<i32> = [1, 2];
            for i in v { if i > 1 { break; } }
            as @e { raw!(\"say hi\"); raw!(\"say ho\"); }
        }";
    let mir = mir(src);
    let files = pack(src).files;
    for f in &mir.functions {
        let name = f.path.strip_prefix("myns:").expect("in the namespace");
        let text = files
            .get(&format!("data/myns/function/{name}.mcfunction"))
            .expect("written");
        let count: usize = f.blocks.iter().map(|block| block.insts.len()).sum();
        assert_eq!(text.lines().count(), count, "{text}");
    }
}

#[test]
fn what_would_fail_silently_is_caught() {
    let needs = "#[ctx(entity)] fn hurt() { raw!(\"say ow\"); } ";
    assert_eq!(problems(&format!("{needs} fn main() {{ hurt(); }}")).len(), 1);
    assert!(problems(&format!("{needs} fn main() {{ as @e {{ hurt(); }} }}")).is_empty());
    assert_eq!(problems("fn main() { nothing(); }").len(), 1);
    assert_eq!(
        problems("fn main() { let a = fix::<100>(1); let b = fix::<1000>(1); let c = a + b; }").len(),
        1
    );
    assert!(problems("fn main() { let a = fix::<100>(1); let c = a + a; }").is_empty());
}

#[test]
fn naming_a_selector_costs_nothing() {
    let text = pack("fn main() { let everyone = @a; let one = 1; }").files;
    assert_eq!(
        text.get("data/myns/function/main.mcfunction"),
        Some("scoreboard players set $main.one myns.v 1\n")
    );
}

#[test]
fn an_instance_is_made_once() {
    let (file, errors) =
        parse("fn id<T>(x: T) -> T { return x; } fn main() { let a = id(1); let b = id(2); let c = id(true); }");
    assert!(errors.is_empty(), "{errors:?}");
    let (hir, errors) = lower_hir(&file, "myns", None);
    assert!(errors.is_empty(), "{errors:?}");
    assert_eq!(hir.functions.len(), 3);
    for (i, f) in hir.functions.iter().enumerate() {
        assert_eq!(f.id.0, i as u32);
    }
}

fn program(src: &str) -> Hir {
    let (file, errors) = parse(src);
    assert!(errors.is_empty(), "{errors:?}");
    let (hir, errors) = lower_hir(&file, "myns", None);
    assert!(errors.is_empty(), "{errors:?}");
    hir
}

#[test]
fn a_type_answers_to_its_name() {
    let hir = program("struct P { x: i32 } enum S { A, B } struct Q { p: P, s: S } fn main() {}");
    for name in ["P", "S", "Q"] {
        let ty = hir.types.get(name).expect(name);
        assert_eq!(hir.types.name_of(ty), name);
        match ty {
            Type::Struct(id) => assert_eq!(hir.types.struct_def(id).name, name),
            Type::Enum(id) => assert_eq!(hir.types.enum_def(id).name, name),
            other => panic!("{other:?}"),
        }
    }
    assert_eq!(hir.types.get("R"), None);
}

#[test]
fn a_struct_instance_is_made_once() {
    let mut types = program("struct Pair<T> { a: T, b: T } fn main() {}").types;
    let before = types.struct_count();
    let one = types.instantiate("Pair", &vec![Type::I32]).expect("there is a template");
    assert_eq!(types.struct_count(), before + 1);
    let again = types.instantiate("Pair", &vec![Type::I32]).expect("there is a template");
    assert_eq!(one, again);
    assert_eq!(types.struct_count(), before + 1);
    let other = types.instantiate("Pair", &vec![Type::Bool]).expect("there is a template");
    assert_ne!(one, other);
    assert_eq!(types.struct_count(), before + 2);
    assert_eq!(types.instantiate("Nothing", &vec![Type::I32]), None);
    assert_eq!(types.struct_count(), before + 2);
}

#[test]
fn matching_is_undone_by_replacing() {
    let mut types = program("struct Pair<T> { a: T, b: T } fn main() {}").types;
    let declared = types.vec_of(Type::Param(0));
    let actual = types.vec_of(Type::I32);
    let mut args: Vec<Option<Type>> = vec![None];
    assert!(types.unify(declared, actual, &mut args));
    assert_eq!(args, vec![Some(Type::I32)]);
    assert_eq!(types.substitute(declared, &vec![Type::I32]), actual);
    let mut args: Vec<Option<Type>> = vec![Some(Type::Bool)];
    assert!(!types.unify(declared, actual, &mut args));
}
