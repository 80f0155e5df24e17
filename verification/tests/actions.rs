use story_engine::action::parse_action;
use story_engine::{evaluate, perform_action, perform_actions, Action, GameFlags};

#[test]
fn set_flag_makes_condition_true() {
    let mut flags = GameFlags::new();
    assert!(!evaluate("friendly", &flags));
    let done = perform_action("set_flag:friendly", &mut flags);
    assert!(matches!(done, Action::SetFlag(name) if name == "friendly"));
    assert!(evaluate("friendly", &flags));
}

#[test]
fn remove_flag_clears_it() {
    let mut flags = GameFlags::new();
    flags.set("hostile");
    let done = perform_action("remove_flag:hostile", &mut flags);
    assert!(matches!(done, Action::RemoveFlag(name) if name == "hostile"));
    assert!(!flags.contains("hostile"));
}

#[test]
fn remove_flag_of_absent_flag_changes_nothing() {
    let mut flags = GameFlags::new();
    flags.set("a");
    perform_action("remove_flag:b", &mut flags);
    assert_eq!(flags.listing(), vec!["a".to_string()]);
}

#[test]
fn unknown_verb_is_unrecognized() {
    let mut flags = GameFlags::new();
    let done = perform_action("toggle_flag:a", &mut flags);
    assert!(matches!(done, Action::Unrecognized(raw) if raw == "toggle_flag:a"));
    assert!(flags.listing().is_empty());
}

#[test]
fn string_without_colon_is_unrecognized() {
    let mut flags = GameFlags::new();
    let done = perform_action("set_flag", &mut flags);
    assert!(matches!(done, Action::Unrecognized(raw) if raw == "set_flag"));
    assert!(flags.listing().is_empty());
    assert!(matches!(parse_action(""), Action::Unrecognized(raw) if raw.is_empty()));
}

#[test]
fn string_with_two_colons_is_unrecognized() {
    let mut flags = GameFlags::new();
    let done = perform_action("set_flag:a:b", &mut flags);
    assert!(matches!(done, Action::Unrecognized(raw) if raw == "set_flag:a:b"));
    assert!(flags.listing().is_empty());
    assert!(matches!(parse_action("set_flag::"), Action::Unrecognized(_)));
}

#[test]
fn verb_is_compared_whole() {
    assert!(matches!(parse_action("set_flags:a"), Action::Unrecognized(_)));
    assert!(matches!(parse_action("Set_flag:a"), Action::Unrecognized(_)));
    assert!(matches!(parse_action(" set_flag:a"), Action::Unrecognized(_)));
    assert!(matches!(parse_action(":a"), Action::Unrecognized(_)));
}

#[test]
fn argument_is_taken_as_written() {
    assert!(matches!(parse_action("set_flag: a b "), Action::SetFlag(name) if name == " a b "));
    assert!(matches!(parse_action("set_flag:"), Action::SetFlag(name) if name.is_empty()));
    assert!(matches!(parse_action("remove_flag:caf\u{e9}"), Action::RemoveFlag(name) if name == "caf\u{e9}"));
}

#[test]
fn actions_run_in_order() {
    let mut flags = GameFlags::new();
    let actions = vec![
        "set_flag:a".to_string(),
        "remove_flag:a".to_string(),
        "set_flag:b".to_string(),
    ];
    let unrecognized = perform_actions(&actions, &mut flags);
    assert!(unrecognized.is_empty());
    assert!(!flags.contains("a"));
    assert!(flags.contains("b"));
}

#[test]
fn unrecognized_action_blocks_nothing() {
    let mut flags = GameFlags::new();
    let actions = vec![
        "set_flag:a".to_string(),
        "explode".to_string(),
        "set_flag:b".to_string(),
        "give:item:now".to_string(),
        "remove_flag:a".to_string(),
    ];
    let unrecognized = perform_actions(&actions, &mut flags);
    assert_eq!(unrecognized, vec!["explode".to_string(), "give:item:now".to_string()]);
    assert!(!flags.contains("a"));
    assert!(flags.contains("b"));
}

#[test]
fn no_actions_change_nothing() {
    let mut flags = GameFlags::new();
    flags.set("a");
    let unrecognized = perform_actions(&[], &mut flags);
    assert!(unrecognized.is_empty());
    assert_eq!(flags.listing(), vec!["a".to_string()]);
}
