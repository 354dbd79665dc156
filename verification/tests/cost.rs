//! What functions cost.

use mwlc::cost::{over, table, Cost, MAX_COMMAND_CHAIN};

fn cost(path: &str, commands: u64, loops: bool) -> Cost {
    Cost {
        path: path.to_owned(),
        commands,
        loops,
    }
}

#[test]
fn the_table_lines_up_and_names_what_is_over() {
    let costs = vec![
        cost("ns:main", 3, false),
        cost("ns:main/while_0", 4, true),
        cost("ns:big", MAX_COMMAND_CHAIN + 1, false),
    ];
    let text = table(&costs);
    assert!(text.starts_with("# commands per call, callees included"), "{text}");
    assert!(text.contains("\nns:main          3\n"), "{text}");
    assert!(text.contains("\nns:main/while_0  4 +\n"), "{text}");
    assert!(
        text.ends_with("\n# over maxCommandChainLength:\n#   ns:big (65537)\n"),
        "{text}"
    );
    assert_eq!(over(&costs), vec![2]);
}

#[test]
fn a_loop_is_never_certain_to_be_over() {
    let costs = vec![cost("ns:main", MAX_COMMAND_CHAIN + 1, true)];
    assert!(over(&costs).is_empty());
    assert!(!table(&costs).contains("# over"));
}
