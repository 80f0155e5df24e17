use story_engine::{Choice, Dialogue, GameFlags, Node, Text};

fn text(condition: Option<&str>, text: &str) -> Text {
    Text { condition: condition.map(|c| c.to_string()), text: text.to_string() }
}

fn choice(text: &str, next: &str, condition: Option<&str>, actions: Option<&[&str]>) -> Choice {
    Choice {
        text: text.to_string(),
        next: next.to_string(),
        condition: condition.map(|c| c.to_string()),
        actions: actions.map(|list| list.iter().map(|a| a.to_string()).collect()),
    }
}

fn node(id: &str, texts: Vec<Text>, choices: Vec<Choice>, on_enter: Option<&[&str]>) -> Node {
    Node {
        id: id.to_string(),
        texts,
        choices,
        on_enter: on_enter.map(|list| list.iter().map(|a| a.to_string()).collect()),
    }
}

fn greeting() -> Dialogue {
    Dialogue {
        entry: "start".to_string(),
        nodes: vec![node(
            "start",
            vec![text(Some("hostile"), "Leave."), text(None, "Hello.")],
            vec![],
            None,
        )],
    }
}

#[test]
fn first_text_whose_condition_holds_is_shown() {
    let dialogue = greeting();
    let mut flags = GameFlags::new();
    assert_eq!(dialogue.get_text("start", &flags).unwrap().text, "Hello.");
    flags.set("hostile");
    assert_eq!(dialogue.get_text("start", &flags).unwrap().text, "Leave.");
}

#[test]
fn last_text_stands_in_when_no_condition_holds() {
    let dialogue = Dialogue {
        entry: "start".to_string(),
        nodes: vec![node(
            "start",
            vec![text(Some("a"), "one"), text(Some("b"), "two"), text(Some("c"), "three")],
            vec![],
            None,
        )],
    };
    let mut flags = GameFlags::new();
    assert_eq!(dialogue.get_text("start", &flags).unwrap().text, "three");
    flags.set("b");
    assert_eq!(dialogue.get_text("start", &flags).unwrap().text, "two");
    flags.set("a");
    assert_eq!(dialogue.get_text("start", &flags).unwrap().text, "one");
}

#[test]
fn order_of_texts_decides() {
    let dialogue = Dialogue {
        entry: "start".to_string(),
        nodes: vec![node(
            "start",
            vec![text(None, "Hello."), text(Some("hostile"), "Leave.")],
            vec![],
            None,
        )],
    };
    let mut flags = GameFlags::new();
    flags.set("hostile");
    assert_eq!(dialogue.get_text("start", &flags).unwrap().text, "Hello.");
}

#[test]
fn missing_node_has_no_text() {
    let dialogue = greeting();
    assert!(dialogue.get_text("nowhere", &GameFlags::new()).is_none());
    assert!(dialogue.get_text("", &GameFlags::new()).is_none());
    assert!(dialogue.find_node("nowhere").is_none());
}

#[test]
fn node_without_texts_has_no_text() {
    let dialogue =
        Dialogue { entry: "start".to_string(), nodes: vec![node("start", vec![], vec![], None)] };
    assert!(dialogue.get_text("start", &GameFlags::new()).is_none());
}

#[test]
fn first_node_with_an_id_wins() {
    let dialogue = Dialogue {
        entry: "start".to_string(),
        nodes: vec![
            node("other", vec![text(None, "zero")], vec![], None),
            node("start", vec![text(None, "first")], vec![choice("a", "x", None, None)], None),
            node("start", vec![text(None, "second")], vec![], Some(&["set_flag:late"])),
        ],
    };
    let mut flags = GameFlags::new();
    assert_eq!(dialogue.get_text("start", &flags).unwrap().text, "first");
    assert_eq!(dialogue.find_node("start").unwrap().texts[0].text, "first");
    assert_eq!(dialogue.get_choices("start", &flags).len(), 1);
    dialogue.apply_on_enter("start", &mut flags);
    assert!(!flags.contains("late"));
}

#[test]
fn choices_are_filtered_in_order() {
    let dialogue = Dialogue {
        entry: "start".to_string(),
        nodes: vec![node(
            "start",
            vec![text(None, "Well?")],
            vec![
                choice("Trade", "trade", Some("friendly"), None),
                choice("Ask", "ask", None, None),
                choice("Threaten", "threat", Some("armed && !friendly"), None),
                choice("Leave", "bye", Some(""), None),
            ],
            None,
        )],
    };
    let mut flags = GameFlags::new();
    let offered: Vec<String> =
        dialogue.get_choices("start", &flags).into_iter().map(|c| c.text).collect();
    assert_eq!(offered, vec!["Ask".to_string(), "Leave".to_string()]);
    flags.set("armed");
    let offered: Vec<String> =
        dialogue.get_choices("start", &flags).into_iter().map(|c| c.text).collect();
    assert_eq!(offered, vec!["Ask".to_string(), "Threaten".to_string(), "Leave".to_string()]);
    flags.set("friendly");
    let offered: Vec<String> =
        dialogue.get_choices("start", &flags).into_iter().map(|c| c.text).collect();
    assert_eq!(offered, vec!["Trade".to_string(), "Ask".to_string(), "Leave".to_string()]);
}

#[test]
fn offered_choice_is_a_full_copy() {
    let dialogue = Dialogue {
        entry: "start".to_string(),
        nodes: vec![node(
            "start",
            vec![],
            vec![choice("Agree", "n2", Some("!refused"), Some(&["set_flag:agreed", "bogus"]))],
            None,
        )],
    };
    let offered = dialogue.get_choices("start", &GameFlags::new());
    assert_eq!(offered.len(), 1);
    assert_eq!(offered[0].text, "Agree");
    assert_eq!(offered[0].next, "n2");
    assert_eq!(offered[0].condition, Some("!refused".to_string()));
    assert_eq!(
        offered[0].actions,
        Some(vec!["set_flag:agreed".to_string(), "bogus".to_string()])
    );
    let copy = offered[0].clone();
    assert_eq!(copy.next, "n2");
    assert_eq!(copy.actions, offered[0].actions);
}

#[test]
fn text_clone_is_a_full_copy() {
    let first = text(Some("a"), "Hello.");
    let copy = first.clone();
    assert_eq!(copy.condition, Some("a".to_string()));
    assert_eq!(copy.text, "Hello.");
}

#[test]
fn missing_node_offers_nothing() {
    let dialogue = greeting();
    assert!(dialogue.get_choices("nowhere", &GameFlags::new()).is_empty());
}

#[test]
fn on_enter_actions_run_in_order() {
    let dialogue = Dialogue {
        entry: "start".to_string(),
        nodes: vec![node(
            "start",
            vec![],
            vec![],
            Some(&["set_flag:met", "oops", "set_flag:tmp", "remove_flag:tmp"]),
        )],
    };
    let mut flags = GameFlags::new();
    let unrecognized = dialogue.apply_on_enter("start", &mut flags);
    assert_eq!(unrecognized, vec!["oops".to_string()]);
    assert!(flags.contains("met"));
    assert!(!flags.contains("tmp"));
}

#[test]
fn on_enter_without_node_or_actions_changes_nothing() {
    let dialogue = greeting();
    let mut flags = GameFlags::new();
    flags.set("a");
    assert!(dialogue.apply_on_enter("start", &mut flags).is_empty());
    assert!(dialogue.apply_on_enter("nowhere", &mut flags).is_empty());
    assert_eq!(flags.listing(), vec!["a".to_string()]);
}

#[test]
fn dialogue_clone_is_a_full_copy() {
    let dialogue = Dialogue {
        entry: "start".to_string(),
        nodes: vec![
            node(
                "start",
                vec![text(Some("hostile"), "Leave."), text(None, "Hello.")],
                vec![choice("Agree", "n2", Some("!refused"), Some(&["set_flag:agreed"]))],
                Some(&["set_flag:met"]),
            ),
            node("n2", vec![], vec![], None),
        ],
    };
    let copy = dialogue.clone();
    assert_eq!(copy.entry, "start");
    assert_eq!(copy.nodes.len(), 2);
    assert_eq!(copy.nodes[0].id, "start");
    assert_eq!(copy.nodes[0].texts.len(), 2);
    assert_eq!(copy.nodes[0].texts[0].condition, Some("hostile".to_string()));
    assert_eq!(copy.nodes[0].texts[1].text, "Hello.");
    assert_eq!(copy.nodes[0].choices[0].next, "n2");
    assert_eq!(copy.nodes[0].choices[0].actions, Some(vec!["set_flag:agreed".to_string()]));
    assert_eq!(copy.nodes[0].on_enter, Some(vec!["set_flag:met".to_string()]));
    assert_eq!(copy.nodes[1].id, "n2");
    assert!(copy.nodes[1].on_enter.is_none());
    let mut flags = GameFlags::new();
    assert_eq!(copy.get_text("start", &flags).unwrap().text, "Hello.");
    copy.apply_on_enter("start", &mut flags);
    assert!(flags.contains("met"));
}
