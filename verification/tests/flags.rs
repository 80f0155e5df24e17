use story_engine::GameFlags;

#[test]
fn new_store_is_empty() {
    let flags = GameFlags::new();
    assert!(!flags.contains("a"));
    assert!(flags.listing().is_empty());
    assert!(GameFlags::default().listing().is_empty());
}

#[test]
fn set_then_contains() {
    let mut flags = GameFlags::new();
    flags.set("door_open");
    assert!(flags.contains("door_open"));
    assert!(!flags.contains("door"));
}

#[test]
fn set_twice_holds_once() {
    let mut flags = GameFlags::new();
    flags.set("a");
    flags.set("a");
    assert_eq!(flags.listing(), vec!["a".to_string()]);
}

#[test]
fn remove_clears_only_that_flag() {
    let mut flags = GameFlags::new();
    flags.set("a");
    flags.set("b");
    flags.set("c");
    flags.remove("b");
    assert!(flags.contains("a"));
    assert!(!flags.contains("b"));
    assert!(flags.contains("c"));
    assert_eq!(flags.listing().len(), 2);
}

#[test]
fn remove_of_absent_flag_changes_nothing() {
    let mut flags = GameFlags::new();
    flags.set("a");
    flags.remove("b");
    assert_eq!(flags.listing(), vec!["a".to_string()]);
    let mut empty = GameFlags::new();
    empty.remove("a");
    assert!(empty.listing().is_empty());
}

#[test]
fn listing_holds_every_flag_once() {
    let mut flags = GameFlags::new();
    for name in ["x", "y", "x", "z", "y"] {
        flags.set(name);
    }
    let mut listing = flags.listing();
    listing.sort();
    assert_eq!(listing, vec!["x".to_string(), "y".to_string(), "z".to_string()]);
}

#[test]
fn flag_names_are_compared_whole() {
    let mut flags = GameFlags::new();
    flags.set("Agreed");
    assert!(!flags.contains("agreed"));
    assert!(!flags.contains("Agreed "));
    assert!(flags.contains("Agreed"));
}
