use gcsst::spell_map::{merge_maps, SpellMap};

fn set_of(v: &[&str]) -> Vec<String> {
    v.iter().map(|s| s.to_string()).collect()
}

fn sorted(v: &Vec<String>) -> Vec<String> {
    let mut v = v.clone();
    v.sort();
    v
}

#[test]
fn lib_test_merge_maps() {
    let mut map1 = SpellMap::new();
    map1.insert("class1".to_string(), set_of(&["spell1"]));

    let mut map2 = SpellMap::new();
    map2.insert("class1".to_string(), set_of(&["spell2"]));
    map2.insert("class2".to_string(), set_of(&["spell3"]));

    merge_maps(&mut map1, map2);

    let left_spells = map1.get("class2").unwrap();
    let left_spells_vec: Vec<String> = left_spells.iter().map(String::from).collect();

    assert_eq!(left_spells_vec, vec!["spell3".to_string()]);
}

#[test]
fn merge_unions_spells_of_a_shared_name() {
    let mut map1 = SpellMap::new();
    map1.insert("class1".to_string(), set_of(&["spell1", "spell2"]));
    let mut map2 = SpellMap::new();
    map2.insert("class1".to_string(), set_of(&["spell2", "spell3"]));
    merge_maps(&mut map1, map2);
    assert_eq!(sorted(map1.get("class1").unwrap()), set_of(&["spell1", "spell2", "spell3"]));
    assert_eq!(map1.entries.len(), 1);
}

#[test]
fn merge_with_itself_changes_nothing() {
    let mut a = SpellMap::new();
    a.insert("x".to_string(), set_of(&["p", "q"]));
    let mut b = SpellMap::new();
    b.insert("x".to_string(), set_of(&["p", "q"]));
    merge_maps(&mut a, b);
    assert_eq!(sorted(a.get("x").unwrap()), set_of(&["p", "q"]));
}

#[test]
fn merge_is_commutative_on_an_example() {
    let build = |n: &str, s: &[&str]| {
        let mut m = SpellMap::new();
        m.insert(n.to_string(), set_of(s));
        m
    };
    let mut ab = build("a", &["1"]);
    merge_maps(&mut ab, build("b", &["2"]));
    let mut ba = build("b", &["2"]);
    merge_maps(&mut ba, build("a", &["1"]));
    for name in ["a", "b"] {
        assert_eq!(sorted(ab.get(name).unwrap()), sorted(ba.get(name).unwrap()));
    }
}

#[test]
fn insert_removes_repeated_spells() {
    let mut m = SpellMap::new();
    m.insert("n".to_string(), set_of(&["s", "s", "t"]));
    assert_eq!(sorted(m.get("n").unwrap()), set_of(&["s", "t"]));
    assert!(m.get("missing").is_none());
}
