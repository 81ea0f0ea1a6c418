//! Sets of names.
use zftop::names::NameSet;

#[test]
fn inserted_names_are_contained_until_removed() {
    let mut s = NameSet::new();
    assert!(!s.contains("tank"));
    assert!(s.insert("tank".to_string()));
    assert!(!s.insert("tank".to_string()));
    assert!(s.insert("tank/home".to_string()));
    assert!(s.insert("a".to_string()));
    assert!(s.contains("tank") && s.contains("tank/home") && s.contains("a"));
    assert!(!s.contains("tan"));
    assert!(s.remove("tank"));
    assert!(!s.remove("tank"));
    assert!(!s.contains("tank") && s.contains("tank/home"));
    s.clear();
    assert!(!s.contains("a"));
    assert_eq!(s, NameSet::new());
}

#[test]
fn sets_are_equal_whatever_the_order() {
    let names = ["rpool", "tank", "a", "", "\u{e9}t\u{e9}", "tank/home"];
    let mut a = NameSet::new();
    let mut b = NameSet::new();
    for n in names {
        a.insert(n.to_string());
    }
    for n in names.iter().rev() {
        b.insert(n.to_string());
    }
    assert_eq!(a, b);
    assert_eq!(a.clone(), b);
    b.remove("");
    assert_ne!(a, b);
}
