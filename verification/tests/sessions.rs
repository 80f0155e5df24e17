use std::sync::Arc;
use story_engine::{ActiveDialogue, Choice, Dialogue, DialogueSessions, GameFlags, Node, Text};

fn text(condition: Option<&str>, text: &str) -> Text {
    Text { condition: condition.map(|c| c.to_string()), text: text.to_string() }
}

fn choice(text: &str, next: &str, condition: Option<&str>, actions: Option<&[&str]>) -> Choice {
    Choice {
        text: text.to_string(),
        next: next.to_string(),
        condition: condition.map(|c| c.to_string()),
        actions: actions.map(|list| list.iter().map(|a| a.to_string()).collect()),
    }
}

fn node(id: &str, texts: Vec<Text>, choices: Vec<Choice>, on_enter: Option<&[&str]>) -> Node {
    Node {
        id: id.to_string(),
        texts,
        choices,
        on_enter: on_enter.map(|list| list.iter().map(|a| a.to_string()).collect()),
    }
}

fn captain() -> Arc<Dialogue> {
    Arc::new(Dialogue {
        entry: "n1".to_string(),
        nodes: vec![
            node(
                "n1",
                vec![text(None, "Will you help?")],
                vec![
                    choice("Agree", "n2", None, Some(&["set_flag:agreed"])),
                    choice("Refuse", "n3", Some("!agreed"), Some(&["frown", "set_flag:refused"])),
                ],
                Some(&["set_flag:met_captain"]),
            ),
            node(
                "n2",
                vec![text(Some("refused"), "Changed your mind?"), text(None, "Good.")],
                vec![choice("Back", "n1", None, None)],
                Some(&["set_flag:briefed", "wave"]),
            ),
            node("n3", vec![text(None, "Pity.")], vec![], None),
        ],
    })
}

fn trader() -> Arc<Dialogue> {
    Arc::new(Dialogue {
        entry: "shop".to_string(),
        nodes: vec![node(
            "shop",
            vec![text(None, "Buying?")],
            vec![choice("No", "shop", None, None)],
            None,
        )],
    })
}

fn offered(session: &ActiveDialogue) -> Vec<String> {
    session.current_choices().unwrap().iter().map(|c| c.text.clone()).collect()
}

#[test]
fn new_session_is_idle() {
    let session = ActiveDialogue::new();
    assert!(!session.is_engaged());
    assert_eq!(session.entity(), None);
    assert_eq!(session.node_id(), "start");
    assert!(session.current_choices().is_none());
    assert!(session.current_text(&GameFlags::new()).is_none());
}

#[test]
fn enter_starts_at_the_entry() {
    let mut flags = GameFlags::new();
    let mut session = ActiveDialogue::new();
    let unrecognized = session.enter(1, captain(), &mut flags);
    assert!(unrecognized.is_empty());
    assert!(session.is_engaged());
    assert_eq!(session.entity(), Some(1));
    assert_eq!(session.node_id(), "n1");
    assert!(flags.contains("met_captain"));
    assert_eq!(offered(&session), vec!["Agree".to_string(), "Refuse".to_string()]);
    assert_eq!(session.current_text(&flags).unwrap().text, "Will you help?");
}

#[test]
fn advance_runs_actions_and_moves_on() {
    let mut flags = GameFlags::new();
    let mut session = ActiveDialogue::new();
    session.enter(1, captain(), &mut flags);
    let unrecognized = session.advance(0, &mut flags);
    assert_eq!(unrecognized, vec!["wave".to_string()]);
    assert!(flags.contains("agreed"));
    assert_eq!(session.node_id(), "n2");
    assert!(flags.contains("briefed"));
    assert_eq!(offered(&session), vec!["Back".to_string()]);
    assert_eq!(session.current_text(&flags).unwrap().text, "Good.");
}

#[test]
fn advance_reports_unrecognized_actions_of_choice_then_node() {
    let mut flags = GameFlags::new();
    let mut session = ActiveDialogue::new();
    session.enter(1, captain(), &mut flags);
    let unrecognized = session.advance(1, &mut flags);
    assert_eq!(unrecognized, vec!["frown".to_string()]);
    assert!(flags.contains("refused"));
    assert_eq!(session.node_id(), "n3");
    assert!(offered(&session).is_empty());
    assert_eq!(session.current_text(&flags).unwrap().text, "Pity.");
}

#[test]
fn choices_are_offered_under_the_flags_after_on_enter() {
    let mut flags = GameFlags::new();
    let mut session = ActiveDialogue::new();
    session.enter(1, captain(), &mut flags);
    session.advance(0, &mut flags);
    session.advance(0, &mut flags);
    assert_eq!(session.node_id(), "n1");
    // `agreed` is set by now, so `Refuse` is no longer offered.
    assert_eq!(offered(&session), vec!["Agree".to_string()]);
}

#[test]
fn advance_out_of_range_changes_nothing() {
    let mut flags = GameFlags::new();
    let mut session = ActiveDialogue::new();
    session.enter(1, captain(), &mut flags);
    let before = flags.listing();
    assert!(session.advance(2, &mut flags).is_empty());
    assert!(session.advance(usize::MAX, &mut flags).is_empty());
    assert_eq!(session.node_id(), "n1");
    assert_eq!(flags.listing(), before);
    assert_eq!(offered(&session), vec!["Agree".to_string(), "Refuse".to_string()]);
}

#[test]
fn advance_while_idle_changes_nothing() {
    let mut flags = GameFlags::new();
    let mut session = ActiveDialogue::new();
    assert!(session.advance(0, &mut flags).is_empty());
    assert!(!session.is_engaged());
    assert!(flags.listing().is_empty());
}

#[test]
fn advance_to_a_missing_node_offers_nothing() {
    let dialogue = Arc::new(Dialogue {
        entry: "a".to_string(),
        nodes: vec![node("a", vec![text(None, "Hm.")], vec![choice("Go", "gone", None, None)], None)],
    });
    let mut flags = GameFlags::new();
    let mut session = ActiveDialogue::new();
    session.enter(1, dialogue, &mut flags);
    assert!(session.advance(0, &mut flags).is_empty());
    assert!(session.is_engaged());
    assert_eq!(session.node_id(), "gone");
    assert!(offered(&session).is_empty());
    assert!(session.current_text(&flags).is_none());
    assert!(session.advance(0, &mut flags).is_empty());
    assert_eq!(session.node_id(), "gone");
}

#[test]
fn entering_the_same_dialogue_again_keeps_the_node() {
    let mut flags = GameFlags::new();
    let mut session = ActiveDialogue::new();
    let dialogue = captain();
    session.enter(1, dialogue.clone(), &mut flags);
    session.advance(0, &mut flags);
    assert_eq!(session.node_id(), "n2");
    flags.remove("briefed");
    let unrecognized = session.enter(1, dialogue, &mut flags);
    assert_eq!(unrecognized, vec!["wave".to_string()]);
    assert_eq!(session.node_id(), "n2");
    assert!(flags.contains("briefed"));
}

#[test]
fn entering_another_dialogue_starts_at_its_entry() {
    let mut flags = GameFlags::new();
    let mut session = ActiveDialogue::new();
    session.enter(1, captain(), &mut flags);
    session.advance(0, &mut flags);
    session.enter(2, trader(), &mut flags);
    assert_eq!(session.entity(), Some(2));
    assert_eq!(session.node_id(), "shop");
    assert_eq!(offered(&session), vec!["No".to_string()]);
    session.enter(1, captain(), &mut flags);
    assert_eq!(session.node_id(), "n1");
}

#[test]
fn close_makes_idle_and_forgets_the_node() {
    let mut flags = GameFlags::new();
    let mut session = ActiveDialogue::new();
    session.enter(1, captain(), &mut flags);
    session.advance(0, &mut flags);
    session.close();
    assert!(!session.is_engaged());
    assert!(session.current_choices().is_none());
    assert!(session.current_text(&flags).is_none());
    session.close();
    assert!(!session.is_engaged());
    session.enter(1, captain(), &mut flags);
    assert_eq!(session.node_id(), "n1");
}

#[test]
fn close_keeps_the_flags() {
    let mut flags = GameFlags::new();
    let mut session = ActiveDialogue::new();
    session.enter(1, captain(), &mut flags);
    session.advance(0, &mut flags);
    session.close();
    assert!(flags.contains("agreed"));
    assert!(flags.contains("met_captain"));
}

#[test]
fn set_node_id_moves_without_running_anything() {
    let mut flags = GameFlags::new();
    let mut session = ActiveDialogue::new();
    session.enter(1, captain(), &mut flags);
    session.set_node_id("n2");
    assert_eq!(session.node_id(), "n2");
    assert_eq!(session.entity(), Some(1));
    assert!(!flags.contains("briefed"));
    assert_eq!(offered(&session), vec!["Agree".to_string(), "Refuse".to_string()]);
    assert_eq!(session.current_text(&flags).unwrap().text, "Good.");
}

#[test]
fn each_requester_has_its_own_session() {
    let mut flags = GameFlags::new();
    let mut sessions = DialogueSessions::new();
    sessions.enter(10, 1, captain(), &mut flags);
    sessions.enter(20, 1, captain(), &mut flags);
    sessions.advance(10, 0, &mut flags);
    assert_eq!(sessions.sessions.get(&10).unwrap().node_id, "n2");
    assert_eq!(sessions.sessions.get(&20).unwrap().node_id, "n1");
    assert_eq!(sessions.current_text(10, &flags).unwrap().text, "Good.");
    assert_eq!(sessions.current_text(20, &flags).unwrap().text, "Will you help?");
    assert_eq!(sessions.current_choices(10).unwrap().len(), 1);
    assert_eq!(sessions.current_choices(20).unwrap().len(), 2);
    assert!(sessions.current_choices(30).is_none());
    assert!(sessions.current_text(30, &flags).is_none());
}

#[test]
fn sessions_are_made_on_enter_and_dropped_on_close() {
    let mut flags = GameFlags::new();
    let mut sessions = DialogueSessions::new();
    assert!(sessions.sessions.is_empty());
    sessions.enter(10, 1, captain(), &mut flags);
    sessions.enter(20, 2, trader(), &mut flags);
    assert_eq!(sessions.sessions.len(), 2);
    sessions.close(10);
    assert_eq!(sessions.sessions.len(), 1);
    assert!(sessions.current_choices(10).is_none());
    sessions.close(10);
    sessions.close(99);
    assert_eq!(sessions.sessions.len(), 1);
    assert_eq!(sessions.sessions.get(&20).unwrap().entity, 2);
}

#[test]
fn sessions_advance_out_of_range_or_idle_changes_nothing() {
    let mut flags = GameFlags::new();
    let mut sessions = DialogueSessions::new();
    assert!(sessions.advance(10, 0, &mut flags).is_empty());
    assert!(sessions.sessions.is_empty());
    sessions.enter(10, 1, captain(), &mut flags);
    let before = flags.listing();
    assert!(sessions.advance(10, 5, &mut flags).is_empty());
    assert_eq!(sessions.sessions.get(&10).unwrap().node_id, "n1");
    assert_eq!(flags.listing(), before);
}

#[test]
fn sessions_reenter_keeps_node_and_other_dialogue_resets() {
    let mut flags = GameFlags::new();
    let mut sessions = DialogueSessions::new();
    sessions.enter(10, 1, captain(), &mut flags);
    sessions.advance(10, 0, &mut flags);
    sessions.enter(10, 1, captain(), &mut flags);
    assert_eq!(sessions.sessions.get(&10).unwrap().node_id, "n2");
    sessions.enter(10, 2, trader(), &mut flags);
    assert_eq!(sessions.sessions.get(&10).unwrap().node_id, "shop");
    sessions.close(10);
    sessions.enter(10, 1, captain(), &mut flags);
    assert_eq!(sessions.sessions.get(&10).unwrap().node_id, "n1");
}

#[test]
fn default_sessions_are_idle() {
    assert!(!ActiveDialogue::default().is_engaged());
    assert!(DialogueSessions::default().sessions.is_empty());
}
