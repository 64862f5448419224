use ree_save_core::assoc::AssocMap;

#[test]
fn insert_then_get() {
    let mut m: AssocMap<String, u32> = AssocMap::new();
    assert_eq!(m.get(&"a".to_string()), None);
    m.insert("a".to_string(), 1);
    m.insert("b".to_string(), 2);
    assert_eq!(m.get(&"a".to_string()), Some(&1));
    assert_eq!(m.get(&"b".to_string()), Some(&2));
    m.insert("a".to_string(), 3);
    assert_eq!(m.get(&"a".to_string()), Some(&3));
    assert_eq!(m.get(&"c".to_string()), None);
}

#[test]
fn pair_keys() {
    let mut m: AssocMap<(String, String), u8> = AssocMap::new();
    m.insert(("q".to_string(), "1".to_string()), 1);
    m.insert(("q".to_string(), "2".to_string()), 2);
    assert_eq!(m.get(&("q".to_string(), "1".to_string())), Some(&1));
    assert_eq!(m.get(&("q".to_string(), "2".to_string())), Some(&2));
    assert_eq!(m.get(&("r".to_string(), "1".to_string())), None);
}
