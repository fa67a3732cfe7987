use word_export::insertion_order_map::InsertionOrderMap;

fn s(text: &str) -> String {
    text.to_string()
}

fn sample() -> InsertionOrderMap<String, String> {
    let mut m = InsertionOrderMap::new();
    m.insert(s("pear"), s("梨"));
    m.insert(s("apple"), s("苹果"));
    m.insert(s("cherry"), s("樱桃"));
    m
}

#[test]
fn new_map_is_empty() {
    let m: InsertionOrderMap<String, String> = InsertionOrderMap::new();
    assert_eq!(m.len(), 0);
    assert!(m.keys().is_empty());
    let d: InsertionOrderMap<String, String> = InsertionOrderMap::default();
    assert_eq!(d.len(), 0);
}

#[test]
fn insert_then_get_returns_value() {
    let m = sample();
    assert_eq!(m.get(&s("apple")), Some(&s("苹果")));
    assert_eq!(m.get(&s("pear")), Some(&s("梨")));
    assert_eq!(m.get(&s("banana")), None);
}

#[test]
fn keys_keep_insertion_order() {
    let m = sample();
    let keys: Vec<String> = m.keys().into_iter().cloned().collect();
    assert_eq!(keys, vec![s("pear"), s("apple"), s("cherry")]);
}

#[test]
fn reinsert_keeps_place_and_replaces_value() {
    let mut m = sample();
    m.insert(s("pear"), s("pear tree"));
    assert_eq!(m.len(), 3);
    let pairs: Vec<(String, String)> = m.iter().into_iter().map(|(k, v)| (k.clone(), v.clone())).collect();
    assert_eq!(
        pairs,
        vec![(s("pear"), s("pear tree")), (s("apple"), s("苹果")), (s("cherry"), s("樱桃"))]
    );
}

#[test]
fn new_key_goes_to_the_end() {
    let mut m = sample();
    m.insert(s("banana"), s("香蕉"));
    assert_eq!(m.len(), 4);
    assert_eq!(m.keys()[3], &s("banana"));
}

#[test]
fn into_iter_gives_entries_in_order() {
    let m = sample();
    let items = m.into_iter();
    assert_eq!(items, vec![(s("pear"), s("梨")), (s("apple"), s("苹果")), (s("cherry"), s("樱桃"))]);
}

#[test]
fn update_value_for_present_key() {
    let mut m = sample();
    m.update_value_for_key(&s("apple"), |v: &mut String| v.push_str("!"));
    assert_eq!(m.get(&s("apple")), Some(&s("苹果!")));
    assert_eq!(m.keys()[1], &s("apple"));
}

#[test]
fn update_value_for_absent_key_does_nothing() {
    let mut m = sample();
    let mut called = false;
    m.update_value_for_key(&s("banana"), |_v: &mut String| called = true);
    assert!(!called);
    assert_eq!(m.len(), 3);
    assert_eq!(m.get(&s("banana")), None);
}

#[test]
fn sort_by_key_orders_words() {
    let mut m = sample();
    m.sort_by_key();
    let keys: Vec<String> = m.keys().into_iter().cloned().collect();
    assert_eq!(keys, vec![s("apple"), s("cherry"), s("pear")]);
    assert_eq!(m.get(&s("pear")), Some(&s("梨")));
}

#[test]
fn sort_by_key_uses_code_point_order() {
    let mut m: InsertionOrderMap<String, String> = InsertionOrderMap::new();
    for k in ["b", "B", "ab", "a", "é", "z", ""] {
        m.insert(s(k), s("x"));
    }
    m.sort_by_key();
    let keys: Vec<String> = m.keys().into_iter().cloned().collect();
    assert_eq!(keys, vec![s(""), s("B"), s("a"), s("ab"), s("b"), s("z"), s("é")]);
}

#[test]
fn shuffle_keeps_contents() {
    let mut m: InsertionOrderMap<String, String> = InsertionOrderMap::new();
    for i in 0..50 {
        m.insert(format!("w{}", i), format!("v{}", i));
    }
    let before: Vec<String> = m.keys().into_iter().cloned().collect();
    m.shuffle();
    assert_eq!(m.len(), 50);
    let after: Vec<String> = m.keys().into_iter().cloned().collect();
    assert_ne!(before, after);
    for i in 0..50 {
        assert_eq!(m.get(&format!("w{}", i)), Some(&format!("v{}", i)));
    }
    let mut keys: Vec<String> = m.keys().into_iter().cloned().collect();
    keys.sort();
    keys.dedup();
    assert_eq!(keys.len(), 50);
}

#[test]
fn shuffle_then_sort_equals_sort() {
    let mut a = sample();
    let mut b = sample();
    a.shuffle();
    a.sort_by_key();
    b.sort_by_key();
    assert_eq!(a.into_iter(), b.into_iter());
}

#[test]
fn insert_after_sort_appends() {
    let mut m = sample();
    m.sort_by_key();
    m.insert(s("banana"), s("香蕉"));
    m.insert(s("apple"), s("apple!"));
    let pairs = m.into_iter();
    assert_eq!(pairs[0], (s("apple"), s("apple!")));
    assert_eq!(pairs[3], (s("banana"), s("香蕉")));
}

#[test]
fn series_of_inserts_keeps_first_order_and_last_values() {
    let mut m = InsertionOrderMap::new();
    for (k, v) in [("b", "1"), ("a", "2"), ("b", "3"), ("c", "4"), ("a", "5"), ("b", "6")] {
        m.insert(s(k), s(v));
    }
    assert_eq!(m.len(), 3);
    let pairs: Vec<(String, String)> = m.iter().into_iter().map(|(k, v)| (k.clone(), v.clone())).collect();
    assert_eq!(pairs, vec![(s("b"), s("6")), (s("a"), s("5")), (s("c"), s("4"))]);
}

#[test]
fn len_counts_distinct_keys_across_operations() {
    let mut m = sample();
    m.insert(s("apple"), s("again"));
    m.update_value_for_key(&s("pear"), |v: &mut String| v.clear());
    m.sort_by_key();
    m.shuffle();
    m.insert(s("banana"), s("香蕉"));
    assert_eq!(m.len(), 4);
    assert_eq!(m.keys().len(), 4);
    assert_eq!(m.iter().len(), 4);
}
