//! Running tests.

use mwlc::testing::{loads, report, said, Effect, Tested};

fn effect(name: &str, args: &str) -> Effect {
    Effect {
        name: name.to_owned(),
        args: args.to_owned(),
    }
}

fn tested(id: &str, said: &[&str]) -> Tested {
    Tested {
        id: id.to_owned(),
        said: said.iter().map(|line| (*line).to_owned()).collect(),
    }
}

#[test]
fn a_failing_check_counts_and_so_does_a_diagnostic() {
    let effects = vec![
        effect("tellraw", "@a {\"text\":\"hello\"}"),
        effect("tellraw", "@a {\"text\":\"minewell: one is not two\"}"),
        effect("say", "minewell: not a tellraw"),
    ];
    assert_eq!(
        said(&effects, &vec!["unknown command".to_owned()]),
        vec!["@a {\"text\":\"minewell: one is not two\"}", "unknown command"]
    );
    assert!(said(&vec![effect("tellraw", "minewell:")], &Vec::new()).is_empty());
}

#[test]
fn a_run_is_reported_test_by_test() {
    let (text, passed) = report(&vec![tested("ns:a", &[]), tested("ns:b", &["x", "y"])]);
    assert!(!passed);
    assert_eq!(
        text,
        "running 2 test(s)\ntest ns:a ... ok\ntest ns:b ... FAILED\n    x\n    y\n\n\
         test result: FAILED. 1 passed; 1 failed\n"
    );
}

#[test]
fn a_run_without_failures_passes() {
    let (text, passed) = report(&vec![tested("ns:a", &[])]);
    assert!(passed);
    assert!(text.ends_with("test result: ok. 1 passed; 0 failed\n"), "{text}");
}

#[test]
fn a_run_without_tests_passes() {
    assert_eq!(report(&Vec::new()), ("no #[test] functions\n".to_owned(), true));
}

#[test]
fn the_functions_of_a_pack_are_loaded() {
    let mut files = mwlc::map::TextMap::new();
    files.insert("data/ns/function/a/b.mcfunction", "say hi\n".to_owned());
    files.insert("pack.mcmeta", "{}".to_owned());
    files.insert("data/minecraft/tags/function/load.json", "{}".to_owned());
    assert_eq!(
        loads(&files),
        vec![("ns:a/b".to_owned(), "say hi\n".to_owned())]
    );
}
