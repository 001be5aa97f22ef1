use pyq::names::NameSet;

fn owned(words: &[&str]) -> Vec<String> {
    words.iter().map(|w| w.to_string()).collect()
}

#[test]
fn new_set_is_empty() {
    let set = NameSet::new();
    assert!(set.is_empty());
    assert_eq!(set.len(), 0);
    assert!(set.names().is_empty());
    assert!(!set.contains("os"));
}

#[test]
fn from_names_sorts_and_collapses() {
    let set = NameSet::from_names(&owned(&["zeta", "alpha", "zeta", "mid", "alpha"]));
    assert_eq!(set.names(), &owned(&["alpha", "mid", "zeta"]));
    assert_eq!(set.len(), 3);
    assert!(!set.is_empty());
}

#[test]
fn from_names_does_not_depend_on_the_order_given() {
    let a = NameSet::from_names(&owned(&["b", "c", "a"]));
    let b = NameSet::from_names(&owned(&["a", "a", "c", "b", "c"]));
    assert_eq!(a.names(), b.names());
}

#[test]
fn insert_tells_whether_the_name_was_new() {
    let mut set = NameSet::new();
    assert!(set.insert("m".to_string()));
    assert!(set.insert("a".to_string()));
    assert!(set.insert("z".to_string()));
    assert!(!set.insert("m".to_string()));
    assert_eq!(set.names(), &owned(&["a", "m", "z"]));
}

#[test]
fn contains_finds_exactly_the_names_held() {
    let set = NameSet::from_names(&owned(&["json", "os", "sys", "abc", "re"]));
    for name in ["json", "os", "sys", "abc", "re"] {
        assert!(set.contains(name));
    }
    for name in ["", "JSON", "o", "oss", "zzz", "a"] {
        assert!(!set.contains(name));
    }
}

#[test]
fn names_differ_by_case() {
    let set = NameSet::from_names(&owned(&["os", "OS", "Os"]));
    assert_eq!(set.names(), &owned(&["OS", "Os", "os"]));
}
