//! What functions that call themselves compute, command by command.

use std::collections::HashMap;
use std::rc::Rc;

use mwlc::hir::lower as lower_hir;
use mwlc::mir::{lower as lower_mir, Cmp, Cond, Inst, Mir, Op, Reg};
use mwlc::syntax::parser::parse;
use mwlc::syntax::SyntaxError;

fn lowered(src: &str, debug: bool) -> (Mir, Vec<SyntaxError>) {
    let (file, errors) = parse(src);
    assert!(errors.is_empty(), "{errors:?}");
    let (hir, errors) = lower_hir(&file, "myns", None);
    assert!(errors.is_empty(), "{errors:?}");
    lower_mir(&hir, debug)
}

/// A world with scores, whole numbers in storage, and a stack of frames.
struct World {
    mir: Rc<Mir>,
    scores: HashMap<String, i32>,
    data: HashMap<String, i32>,
    stack: Vec<HashMap<u32, i32>>,
    said: Vec<String>,
}

/// How a command ended: it went on with a result, or it left the function with one.
enum Flow {
    On(i32),
    Leave(i32),
}

impl World {
    fn new(src: &str) -> World {
        let (mir, errors) = lowered(src, true);
        assert!(errors.is_empty(), "{errors:?}");
        World {
            mir: Rc::new(mir),
            scores: HashMap::new(),
            data: HashMap::new(),
            stack: Vec::new(),
            said: Vec::new(),
        }
    }

    fn score(&self, reg: &Reg) -> i32 {
        self.scores.get(&reg.holder).copied().unwrap_or(0)
    }

    fn set(&mut self, reg: &Reg, value: i32) {
        self.scores.insert(reg.holder.clone(), value);
    }

    fn within(n: i32, min: &Option<i32>, max: &Option<i32>) -> bool {
        min.map_or(true, |m| m <= n) && max.map_or(true, |m| n <= m)
    }

    fn compare(a: i32, cmp: &Cmp, b: i32) -> bool {
        match cmp {
            Cmp::Lt => a < b,
            Cmp::Le => a <= b,
            Cmp::Eq => a == b,
            Cmp::Ge => a >= b,
            Cmp::Gt => a > b,
        }
    }

    fn holds(&self, cond: &Cond) -> bool {
        match cond {
            Cond::Score { lhs, cmp, rhs, negated } => {
                World::compare(self.score(lhs), cmp, self.score(rhs)) != *negated
            }
            Cond::Matches { src, min, max, negated } => {
                World::within(self.score(src), min, max) != *negated
            }
            other => panic!("{other:?}"),
        }
    }

    fn call(&mut self, path: &str) -> i32 {
        let mir = self.mir.clone();
        let function = mir.functions.iter().find(|f| f.path == path);
        for block in &function.expect("the function is there").blocks {
            for inst in &block.insts {
                if let Flow::Leave(value) = self.run(inst) {
                    return value;
                }
            }
        }
        0
    }

    fn run(&mut self, inst: &Inst) -> Flow {
        match inst {
            Inst::Const { dst, value } => self.set(dst, *value),
            Inst::AddConst { dst, value } => self.set(dst, self.score(dst).wrapping_add(*value)),
            Inst::Op { dst, op, src } => {
                let (a, b) = (self.score(dst), self.score(src));
                let value = match op {
                    Op::Assign => b,
                    Op::Add => a.wrapping_add(b),
                    Op::Sub => a.wrapping_sub(b),
                    Op::Mul => a.wrapping_mul(b),
                    other => panic!("{other:?}"),
                };
                self.set(dst, value);
            }
            Inst::Cmp { dst, cmp, negated, lhs, rhs } => {
                let holds = World::compare(self.score(lhs), cmp, self.score(rhs));
                self.set(dst, i32::from(holds != *negated));
            }
            Inst::Matches { dst, src, min, max, negated } => {
                let holds = World::within(self.score(src), min, max);
                self.set(dst, i32::from(holds != *negated));
            }
            Inst::Call { path } => return Flow::On(self.call(path)),
            Inst::Get { src } => return Flow::On(self.score(src)),
            Inst::GetData { path } => {
                return Flow::On(self.data.get(path).copied().unwrap_or(0));
            }
            Inst::StoreResult { dst, inst } => {
                let value = self.result(inst);
                self.set(dst, value);
            }
            Inst::StoreData { path, inst, .. } => {
                let value = self.result(inst);
                self.data.insert(path.clone(), value);
            }
            Inst::SetValue { path, value } => {
                let value = value.parse().unwrap_or(0);
                self.data.insert(path.clone(), value);
            }
            Inst::ReturnRun { inst } => {
                let value = self.result(inst);
                return Flow::Leave(value);
            }
            Inst::Return { value } => return Flow::Leave(*value),
            Inst::PushFrame => self.stack.push(HashMap::new()),
            Inst::PopFrame => {
                self.stack.pop().expect("a frame was pushed");
            }
            Inst::Save { reg, slot } => {
                let value = self.score(reg);
                self.stack.last_mut().expect("a frame").insert(*slot, value);
            }
            Inst::Restore { reg, slot } => {
                let value = self.stack.last().expect("a frame")[slot];
                self.set(reg, value);
            }
            Inst::Guarded { cond, inst } => {
                if self.holds(cond) {
                    return self.run(inst);
                }
            }
            Inst::Context { inst, .. } => return self.run(inst),
            Inst::Raw { text, .. } => self.said.push(text.clone()),
            other => panic!("{other:?}"),
        }
        Flow::On(0)
    }

    fn result(&mut self, inst: &Inst) -> i32 {
        match self.run(inst) {
            Flow::On(value) => value,
            Flow::Leave(_) => panic!("{inst:?} does not leave"),
        }
    }

    /// The score of a binding of `main`, once `main` has run.
    fn after(src: &str, name: &str) -> i32 {
        let mut world = World::new(src);
        world.call("myns:main");
        assert!(world.stack.is_empty(), "every frame is popped");
        world.scores[&format!("$main.{name}")]
    }
}

#[test]
fn both_results_of_a_sum_survive() {
    let src = "fn fib(n: i32) -> i32 { if n < 2 { return n; } return fib(n - 1) + fib(n - 2); }
        fn main() { let x = fib(10); }";
    assert_eq!(World::after(src, "x"), 55);
}

#[test]
fn a_factorial() {
    let src = "fn f(n: i32) -> i32 { if n == 0 { return 1; } return n * f(n - 1); }
        fn main() { let x = f(6); }";
    assert_eq!(World::after(src, "x"), 720);
}

#[test]
fn bindings_of_both_calls_survive() {
    let src = "fn f(n: i32) -> i32 {
            if n < 2 { return n; }
            let a = f(n - 1);
            let b = f(n - 2);
            return a + b;
        }
        fn main() { let x = f(9); }";
    assert_eq!(World::after(src, "x"), 34);
}

#[test]
fn functions_that_call_each_other() {
    let src = "fn even(n: i32) -> bool { if n == 0 { return true; } let r = odd(n - 1); return r; }
        fn odd(n: i32) -> bool { if n == 0 { return false; } let r = even(n - 1); return r; }
        fn main() { let a = even(7); let b = even(8); }";
    assert_eq!(World::after(src, "a"), 0);
    assert_eq!(World::after(src, "b"), 1);
}

fn instructions(mir: &Mir) -> Vec<&Inst> {
    let mut found = Vec::new();
    for f in &mir.functions {
        for block in &f.blocks {
            found.extend(block.insts.iter());
        }
    }
    found
}

fn frames(src: &str) -> usize {
    let (mir, errors) = lowered(src, true);
    assert!(errors.is_empty(), "{errors:?}");
    instructions(&mir).iter().filter(|i| matches!(i, Inst::PushFrame)).count()
}

#[test]
fn a_call_counts_wherever_it_stands() {
    assert_eq!(
        frames("fn a() { as @e[type=zombie] { b(); } } fn b() { a(); }"),
        2
    );
    assert_eq!(frames("fn a() { at @p { b(); } } fn b() { a(); }"), 2);
    assert_eq!(
        frames("fn a() { for z in @e[type=zombie] { b(); } } fn b() { a(); }"),
        2
    );
    assert_eq!(
        frames("fn a() { let v = [1]; for x in v { b(); } } fn b() { a(); }"),
        2
    );
    assert_eq!(
        frames("fn a() -> i32 { let mut v = [1]; v.push(a()); return 1; }"),
        1
    );
    assert_eq!(frames("fn a() -> i32 { debug_assert!(a() == 1); return 1; }"), 1);
    assert_eq!(
        frames("struct P { x: i32 } fn a() -> i32 { let p = P { x: a() }; return 1; }"),
        1
    );
    assert_eq!(frames("fn a() -> i32 { let v = [a(), 2]; return 1; }"), 1);
    assert_eq!(frames("fn a() { b(); } fn b() { raw!(\"say b\"); }"), 0);
}

#[test]
fn what_an_arm_binds_is_saved() {
    let src = "enum S { Idle, Run { n: i32 } }
        fn f(d: i32) -> i32 {
            let s = S::Run { n: d };
            match s {
                S::Idle => {}
                S::Run { n } => {
                    if d > 0 { let r = f(d - 1); return r + n; }
                }
            }
            return 0;
        }";
    let (mir, errors) = lowered(src, true);
    assert!(errors.is_empty(), "{errors:?}");
    let saved: Vec<String> = instructions(&mir)
        .iter()
        .filter_map(|i| match i {
            Inst::Save { reg, .. } => Some(reg.holder.clone()),
            _ => None,
        })
        .collect();
    assert!(saved.contains(&"$f.n".to_owned()), "{saved:?}");
    assert!(saved.contains(&"$f.d".to_owned()), "{saved:?}");
}

#[test]
fn a_release_build_has_no_test_to_call() {
    let src = "#[test] fn check() { raw!(\"say hi\"); } fn main() { check(); }";
    let (_, errors) = lowered(src, true);
    assert!(errors.is_empty(), "{errors:?}");
    let (_, errors) = lowered(src, false);
    assert_eq!(errors.len(), 1);
    assert_eq!(
        errors[0].message,
        "'check' is a test, and a release build leaves tests out"
    );
    assert_eq!(&src[errors[0].span.start..errors[0].span.end], "check()");
}

#[test]
fn a_literal_is_written_once() {
    let check = |src: &str, path: &str, value: &str| {
        let (mir, errors) = lowered(src, false);
        assert!(errors.is_empty(), "{errors:?}");
        let set = Inst::SetValue {
            path: path.to_owned(),
            value: value.to_owned(),
        };
        assert_eq!(instructions(&mir), vec![&set]);
    };
    check(
        "struct M { name: String } fn main() { let m = M { name: \"a\" }; }",
        "mw.vars.main.m",
        "{name:\"a\"}",
    );
    check(
        "fn main() { let v = [\"a\", \"b\"]; }",
        "mw.vars.main.v",
        "[\"a\",\"b\"]",
    );
    check(
        "enum S { Idle, Run { n: i32 } } struct M { s: S } fn main() { let m = M { s: S::Run { n: 1 } }; }",
        "mw.vars.main.m",
        "{s:{tag:\"Run\",n:1}}",
    );
    check(
        "struct M { v: Vec<i32> } fn main() { let m = M { v: [1, 2] }; }",
        "mw.vars.main.m",
        "{v:[1,2]}",
    );
}
