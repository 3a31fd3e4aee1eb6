use rapt::configuration::Configuration;

#[test]
pub fn configuration_create_one_child() {
    let mut config = Configuration::new();
    let n0 = config.lookup_child(0, "n0", true).unwrap();
    let n1 = config.lookup_child(n0, "n1", true).unwrap();
    assert_eq!(config.item(n1).tag, "n1");
}

#[test]
pub fn test_lookup_0() {
    let mut config = Configuration::new();
    config.lookup("A", true);
    config.lookup("B", true);
    config.lookup("C", true);
}

#[test]
pub fn test_lookup_1() {
    let mut config = Configuration::new();
    config.lookup("A", true).unwrap();
    config.lookup("B", true).unwrap();
    config.lookup("A::AA", true).unwrap();
    config.lookup("B::BB", true).unwrap();
    config.lookup("B::BB::BBB1", true).unwrap();
    let bbb2 = config.lookup("B::BB::BBB2", true).unwrap();
    assert_eq!(config.item(config.item(bbb2).parent.unwrap()).tag, "BB");
    assert_eq!(config.item(config.item(bbb2).next.unwrap()).tag, "BBB1");
}

#[test]
pub fn test_set() {
    let mut config = Configuration::new();
    config.lookup("A", true).unwrap();
    config.lookup("A::AA", true).unwrap();
    config.SetValue("A::AA", "30");
    assert_eq!(config.Find("A::AA", ""), String::from("30"));

    // set value of not existing item.
    config.SetValue("B::BB", "40");
    assert_eq!(config.Find("B::BB", ""), String::from("40"));

    // conditional set value of already set item.
    config.CndSet("A::AA", "50");
    assert_eq!(config.Find("A::AA", ""), String::from("30"));

    // find not existing item's value
    assert_eq!(config.Find("Not::Exist", ""), String::new());
}

#[test]
pub fn test_fulltag() {
    let mut config = Configuration::new();
    let node = config.lookup("A::AB::AAA::AAAB::AAAAA", true).unwrap();
    assert_eq!(config.item(node).tag, "AAAAA");
    assert_eq!(config.item(node).FullTag(&config, 0), "A::AB::AAA::AAAB::AAAAA");
    let aaa = config.lookup("A::AB::AAA", false).unwrap();
    assert_eq!(config.item(node).FullTag(&config, aaa), "AAAB::AAAAA");
}

#[test]
fn lookup_without_create_changes_nothing() {
    let mut config = Configuration::new();
    assert_eq!(config.lookup("A::B", false), None);
    assert_eq!(config.len(), 1);
    assert_eq!(config.lookup("", false), None);
    let b = config.lookup("A::B", true).unwrap();
    assert_eq!(config.len(), 3);
    assert_eq!(config.lookup("A::B", true), Some(b));
    assert_eq!(config.lookup("A::B", false), Some(b));
    assert_eq!(config.find("A::B"), Some(b));
    assert_eq!(config.len(), 3);
    // the empty name is the first child of the root
    assert_eq!(config.lookup("", false), config.lookup("A", false));
    assert_eq!(config.Find("A::B", "none"), "none");
    config.CndSet("A::B", "1");
    assert_eq!(config.Find("A::B", "none"), "1");
    config.CndSet("A::B", "2");
    assert_eq!(config.Find("A::B", "none"), "1");
}

#[test]
pub fn test_clear() {
    let mut config = Configuration::new();
    config.SetValue("A::AA", "10");
    config.SetValue("A::AB", "xx");
    config.SetValue("A::AC", "30");
    config.SetValue("A::AD", "xx");
    config.SetValue("B", "0");

    // delete A's direct children having value "xx"
    config.Clear("A", "xx");
    assert_eq!(config.Find("A::AA", ""), "10");
    assert_eq!(config.Find("A::AB", ""), "");
    assert_eq!(config.Find("A::AC", ""), "30");
    assert_eq!(config.Find("A::AD", ""), "");

    // delete A's direct children
    config.SetValue("A::AA", "10");
    config.SetValue("A::AB", "xx");
    config.SetValue("A::AC", "30");
    config.SetValue("A::AD", "xx");
    config.ClearForce("A");
    assert_eq!(config.Find("A::AA", ""), "");
    assert_eq!(config.Find("A::AB", ""), "");
    assert_eq!(config.Find("A::AC", ""), "");
    assert_eq!(config.Find("A::AD", ""), "");

    // do nothing when the item doesn't exist
    config.Clear("X", "");
    config.ClearForce("X");
    assert_eq!(config.Find("X", ""), "");
}

#[test]
#[allow(non_snake_case)]
pub fn test_MoveSubTree() {
    let mut config = Configuration::new();
    config.SetValue("A", "A");
    config.SetValue("A::AA0", "AA0");
    config.SetValue("A::AA1", "AA1");
    config.SetValue("A::AA2", "AA2");
    config.SetValue("A::AA1::AAA0", "AAA0");
    config.SetValue("A::AA1::AAA1", "AAA1");
    config.SetValue("A::AA1::AAA1::AAAA0", "AAAA0");
    config.SetValue("A::AA1::AAA1::AAAA1", "AAAA1");
    config.SetValue("B", "B");
    config.SetValue("C", "C");

    config.MoveSubTree("A::AA1", "");

    config.lookup("AAA0", false).unwrap();
    config.lookup("AAA1", false).unwrap();
    config.lookup("AAA1::AAAA0", false).unwrap();
    config.lookup("AAA1::AAAA1", false).unwrap();
}

#[test]
fn moved_items_keep_their_values() {
    let mut config = Configuration::new();
    config.SetValue("A::AA1", "AA1");
    config.SetValue("A::AA1::AAA0", "AAA0");
    config.SetValue("A::AA1::AAA1", "AAA1");
    config.SetValue("A::AA1::AAA1::AAAA0", "AAAA0");
    config.SetValue("A::AA2", "AA2");
    config.MoveSubTree("A::AA1", "");
    assert_eq!(config.Find("AAA0", ""), "AAA0");
    assert_eq!(config.Find("AAA1", ""), "AAA1");
    assert_eq!(config.Find("AAA1::AAAA0", ""), "AAAA0");
    // the old item stays, without its value and its children
    assert!(config.find("A::AA1").is_some());
    assert_eq!(config.Find("A::AA1", "gone"), "gone");
    assert_eq!(config.find("A::AA1::AAA0"), None);
    assert_eq!(config.Find("A::AA2", ""), "AA2");
    // nothing moves where the names are one, or the old name is empty or unknown
    let size = config.len();
    config.MoveSubTree("A", "A");
    config.MoveSubTree("A", "A::");
    config.MoveSubTree("", "Z");
    config.MoveSubTree("Nowhere", "Z");
    assert_eq!(config.len(), size);
    assert_eq!(config.Find("A::AA2", ""), "AA2");
    // the new name stands twice before the tags
    config.MoveSubTree("A", "X::");
    assert_eq!(config.Find("X::X::AA2", ""), "AA2");
    assert_eq!(config.find("A::AA2"), None);
}

#[test]
fn cleared_children_leave_the_chain() {
    let mut config = Configuration::new();
    config.SetValue("A::a", "1");
    config.SetValue("A::b", "2");
    config.SetValue("A::c", "1");
    config.SetValue("A::d", "3");
    let a = config.find("A").unwrap();
    let d = config.find("A::d").unwrap();
    let b = config.find("A::b").unwrap();
    assert_eq!(config.children_of(a).len(), 4);
    config.Clear("A", "1");
    assert_eq!(config.children_of(a), vec![d, b]);
    config.Clear("A", "3");
    assert_eq!(config.children_of(a), vec![b]);
    config.ClearForce("A");
    assert_eq!(config.children_of(a), Vec::<usize>::new());
    assert_eq!(config.item(a).child, None);
}
