use frame_relay::metadata::{Entry, MetadataBag, Parameter};

fn text(s: &str) -> Parameter {
    Parameter::Text(s.to_string())
}

fn keys(bag: MetadataBag) -> Vec<String> {
    bag.into_entries().into_iter().map(|entry| entry.key).collect()
}

#[test]
fn new_bag_is_empty() {
    let bag = MetadataBag::new();
    assert_eq!(bag.len(), 0);
    assert_eq!(bag.get("anything"), None);
    assert_eq!(bag.into_entries(), Vec::<Entry>::new());
}

#[test]
fn insert_adds_and_get_finds() {
    let mut bag = MetadataBag::new();
    assert_eq!(bag.insert("foo".to_string(), text("bar")), None);
    assert_eq!(bag.insert("n".to_string(), Parameter::Integer(-7)), None);
    assert_eq!(bag.insert("on".to_string(), Parameter::Bool(true)), None);
    assert_eq!(bag.len(), 3);
    assert_eq!(bag.get("foo"), Some(&text("bar")));
    assert_eq!(bag.get("n"), Some(&Parameter::Integer(-7)));
    assert_eq!(bag.get("on"), Some(&Parameter::Bool(true)));
    assert_eq!(bag.get("fo"), None);
    assert_eq!(bag.get("fooo"), None);
    assert_eq!(bag.get(""), None);
}

#[test]
fn insert_overwrites_and_hands_back_the_old_value() {
    let mut bag = MetadataBag::new();
    bag.insert("a".to_string(), Parameter::Integer(1));
    bag.insert("b".to_string(), Parameter::Integer(2));
    assert_eq!(bag.insert("a".to_string(), text("one")), Some(Parameter::Integer(1)));
    assert_eq!(bag.len(), 2);
    assert_eq!(bag.get("a"), Some(&text("one")));
    assert_eq!(bag.get("b"), Some(&Parameter::Integer(2)));
}

#[test]
fn entries_stand_in_the_order_of_their_keys() {
    let mut bag = MetadataBag::new();
    for key in ["width", "b", "", "a", "height", "ab", "B", "encoding", "é", "z", "aa"] {
        bag.insert(key.to_string(), Parameter::Bool(false));
    }
    let mut expected: Vec<String> =
        ["width", "b", "", "a", "height", "ab", "B", "encoding", "é", "z", "aa"]
            .iter()
            .map(|s| s.to_string())
            .collect();
    expected.sort();
    assert_eq!(keys(bag), expected);
}

#[test]
fn order_is_that_of_a_sorted_map() {
    let mut bag = MetadataBag::new();
    let mut map = std::collections::BTreeMap::new();
    for (i, key) in ["q", "Q", "10", "9", "ß", "ss", "a\u{0}", "a", "\u{10348}", "\u{ffff}"].iter().enumerate() {
        bag.insert(key.to_string(), Parameter::Integer(i as i64));
        map.insert(key.to_string(), i as i64);
    }
    let got: Vec<(String, Parameter)> =
        bag.into_entries().into_iter().map(|e| (e.key, e.value)).collect();
    let want: Vec<(String, Parameter)> =
        map.into_iter().map(|(k, v)| (k, Parameter::Integer(v))).collect();
    assert_eq!(got, want);
}

#[test]
fn every_kind_of_value_is_kept() {
    let values = vec![
        Parameter::Bool(true),
        Parameter::Integer(i64::MIN),
        text("text"),
        Parameter::ListInt(vec![1, 2, 3]),
        Parameter::Float(1.5f64.to_bits()),
        Parameter::ListFloat(vec![0.25f64.to_bits(), (-2.0f64).to_bits()]),
        Parameter::ListText(vec!["x".to_string(), "y".to_string()]),
    ];
    let mut bag = MetadataBag::new();
    for (i, value) in values.iter().enumerate() {
        bag.insert(format!("k{i}"), value.clone());
    }
    for (i, value) in values.iter().enumerate() {
        assert_eq!(bag.get(&format!("k{i}")), Some(value));
    }
    match bag.get("k4") {
        Some(Parameter::Float(bits)) => assert_eq!(f64::from_bits(*bits), 1.5),
        other => panic!("{other:?}"),
    }
}

#[test]
fn enrich_sets_three_entries_and_keeps_the_rest() {
    let mut bag = MetadataBag::new();
    bag.insert("foo".to_string(), text("bar"));
    bag.enrich("RGB8", 480, 640);
    assert_eq!(bag.len(), 4);
    assert_eq!(bag.get("foo"), Some(&text("bar")));
    assert_eq!(bag.get("encoding"), Some(&text("RGB8")));
    assert_eq!(bag.get("height"), Some(&Parameter::Integer(480)));
    assert_eq!(bag.get("width"), Some(&Parameter::Integer(640)));
    assert_eq!(keys(bag), ["encoding", "foo", "height", "width"]);
}

#[test]
fn enrich_overwrites_what_stood_under_its_keys() {
    let mut bag = MetadataBag::new();
    bag.insert("width".to_string(), text("wide"));
    bag.insert("height".to_string(), Parameter::Integer(1));
    bag.insert("encoding".to_string(), Parameter::Bool(false));
    bag.insert("zeta".to_string(), Parameter::Integer(26));
    bag.enrich("BGR8", 240, 320);
    assert_eq!(bag.len(), 4);
    assert_eq!(bag.get("encoding"), Some(&text("BGR8")));
    assert_eq!(bag.get("height"), Some(&Parameter::Integer(240)));
    assert_eq!(bag.get("width"), Some(&Parameter::Integer(320)));
    assert_eq!(bag.get("zeta"), Some(&Parameter::Integer(26)));
}

#[test]
fn order_does_not_depend_on_the_order_of_insertion() {
    let given = ["delta", "alpha", "charlie", "bravo", "echo"];
    let mut forward = MetadataBag::new();
    for (i, key) in given.iter().enumerate() {
        forward.insert(key.to_string(), Parameter::Integer(i as i64));
    }
    let mut backward = MetadataBag::new();
    for (i, key) in given.iter().enumerate().rev() {
        backward.insert(key.to_string(), Parameter::Integer(i as i64));
    }
    assert_eq!(forward, backward);
    assert_eq!(keys(forward), ["alpha", "bravo", "charlie", "delta", "echo"]);
}

#[test]
fn len_counts_keys_not_insertions() {
    let mut bag = MetadataBag::new();
    for _ in 0..3 {
        bag.insert("same".to_string(), Parameter::Bool(true));
    }
    bag.insert("other".to_string(), Parameter::Bool(true));
    assert_eq!(bag.len(), 2);
}
