//! Maps from text to text.

use mwlc::map::TextMap;
use mwlc::names::{fake_player, storage, temp_objective, var_objective, var_path};

#[test]
fn keys_are_in_order_and_once() {
    let mut map = TextMap::new();
    map.insert("b", "1".to_owned());
    map.insert("a", "2".to_owned());
    map.insert("b", "3".to_owned());
    map.insert("ab", "4".to_owned());
    assert_eq!(map.keys(), vec!["a", "ab", "b"]);
    assert_eq!(map.get("b"), Some("3"));
    assert_eq!(map.get("c"), None);
    assert_eq!(map.len(), 3);
    assert!(!map.is_empty());
}

#[test]
fn names_are_qualified_by_their_function() {
    assert_eq!(fake_player("main", "hp"), "$main.hp");
    assert_eq!(var_path("main", "s"), "mw.vars.main.s");
    assert_eq!(var_objective("myns"), "myns.v");
    assert_eq!(temp_objective("myns"), "myns.t");
    assert_eq!(storage("myns"), "myns:mw");
}

#[test]
fn a_key_that_is_taken_away_is_gone() {
    let mut map = TextMap::new();
    for key in ["a", "b", "c"] {
        map.insert(key, key.to_owned());
    }
    map.remove("b");
    map.remove("d");
    assert_eq!(map.keys(), vec!["a", "c"]);
    assert_eq!(map.get("b"), None);
    assert_eq!(map.get("c"), Some("c"));
}
