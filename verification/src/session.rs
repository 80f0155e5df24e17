use crate::action::{
    flags_after_optional, perform_actions, unrecognized_of_optional,
};
use crate::dialogue::{choice_views, Choice, ChoiceView, Dialogue, DialogueView, Text};
use crate::flags::GameFlags;
use crate::text::strings;
use std::sync::Arc;
use vstd::prelude::*;

verus! {

/// A conversation under way: who is spoken to, their dialogue, the node the
/// conversation stands on and the choices last offered there.
#[derive(Debug)]
pub struct Engagement {
    /// The handle of the speaker. It stands for the dialogue: two
    /// engagements are with the same dialogue when their handles are equal.
    pub entity: u64,
    pub dialogue: Arc<Dialogue>,
    pub node_id: String,
    pub choices: Vec<Choice>,
}

/// One requester's place in a conversation: idle, or engaged with a speaker.
#[derive(Debug)]
pub struct ActiveDialogue {
    pub state: Option<Engagement>,
}

/// What an [`Engagement`] holds.
pub struct EngagementView {
    pub entity: u64,
    pub dialogue: DialogueView,
    pub node_id: Seq<char>,
    pub choices: Seq<ChoiceView>,
}

impl View for Engagement {
    type V = EngagementView;

    open spec fn view(&self) -> EngagementView {
        EngagementView {
            entity: self.entity,
            dialogue: (*self.dialogue)@,
            node_id: self.node_id@,
            choices: choice_views(self.choices@),
        }
    }
}

impl View for ActiveDialogue {
    type V = Option<EngagementView>;

    open spec fn view(&self) -> Option<EngagementView> {
        match self.state {
            Some(engagement) => Some(engagement@),
            None => None,
        }
    }
}

/// The node id that an idle session answers with.
pub open spec fn idle_node_id() -> Seq<char> {
    seq!['s', 't', 'a', 'r', 't']
}

/// The node at which entering the dialogue of `entity` puts a session: where
/// it stands, if it is engaged with that very speaker, and the dialogue's
/// entry otherwise.
pub open spec fn node_on_entering(
    session: Option<EngagementView>,
    entity: u64,
    dialogue: DialogueView,
) -> Seq<char> {
    match session {
        Some(engagement) => if engagement.entity == entity {
            engagement.node_id
        } else {
            dialogue.entry
        },
        None => dialogue.entry,
    }
}

/// A session engaged with `entity` that has just arrived at `node_id` under
/// `flags`: the node's on-enter actions run, then its choices are offered
/// under the flags that they leave.
pub open spec fn arrived(
    entity: u64,
    dialogue: DialogueView,
    node_id: Seq<char>,
    flags: Set<Seq<char>>,
) -> (EngagementView, Set<Seq<char>>) {
    let after = flags_after_optional(flags, dialogue.on_enter(node_id));
    (
        EngagementView { entity, dialogue, node_id, choices: dialogue.choices(node_id, after) },
        after,
    )
}

/// The session and the flags after entering the dialogue of `entity`.
pub open spec fn entered(
    session: Option<EngagementView>,
    entity: u64,
    dialogue: DialogueView,
    flags: Set<Seq<char>>,
) -> (EngagementView, Set<Seq<char>>) {
    arrived(entity, dialogue, node_on_entering(session, entity, dialogue), flags)
}

/// Whether `index` names one of the choices that the session last offered.
pub open spec fn can_advance(session: Option<EngagementView>, index: int) -> bool {
    session matches Some(engagement) && 0 <= index < engagement.choices.len()
}

/// The session and the flags after taking the choice `index`: the choice's
/// actions run, then the session arrives at the node that the choice leads
/// to. An index that names no offered choice changes nothing.
pub open spec fn advanced(session: Option<EngagementView>, index: int, flags: Set<Seq<char>>) -> (
    Option<EngagementView>,
    Set<Seq<char>>,
) {
    if can_advance(session, index) {
        let engagement = session->0;
        let choice = engagement.choices[index];
        let there = arrived(
            engagement.entity,
            engagement.dialogue,
            choice.next,
            flags_after_optional(flags, choice.actions),
        );
        (Some(there.0), there.1)
    } else {
        (session, flags)
    }
}

/// The unrecognized actions that taking the choice `index` meets: those of
/// the choice, then those of the node it leads to.
pub open spec fn unrecognized_on_advancing(session: Option<EngagementView>, index: int) -> Seq<
    Seq<char>,
> {
    if can_advance(session, index) {
        let engagement = session->0;
        let choice = engagement.choices[index];
        unrecognized_of_optional(choice.actions) + unrecognized_of_optional(
            engagement.dialogue.on_enter(choice.next),
        )
    } else {
        Seq::empty()
    }
}

impl ActiveDialogue {
    /// An idle session.
    pub fn new() -> (session: Self)
        ensures
            session@ is None,
    {
        ActiveDialogue { state: None }
    }

    /// Whether the session is engaged with a speaker.
    pub fn is_engaged(&self) -> (engaged: bool)
        ensures
            engaged == (self@ is Some),
    {
        self.state.is_some()
    }

    /// The handle of the speaker that the session is engaged with.
    pub fn entity(&self) -> (entity: Option<u64>)
        ensures
            entity == match self@ {
                Some(engagement) => Some(engagement.entity),
                None => None,
            },
    {
        match &self.state {
            Some(engagement) => Some(engagement.entity),
            None => None,
        }
    }

    /// The id of the node that the session stands on; `start` while idle.
    pub fn node_id(&self) -> (node_id: String)
        ensures
            node_id@ == match self@ {
                Some(engagement) => engagement.node_id,
                None => idle_node_id(),
            },
    {
        match &self.state {
            Some(engagement) => engagement.node_id.clone(),
            None => {
                proof {
                    reveal_strlit("start");
                    assert("start"@ =~= idle_node_id());
                }
                "start".to_owned()
            },
        }
    }

    /// Moves an engaged session to the node `node_id`. Nothing else changes:
    /// no action runs and the choices last offered stay.
    pub fn set_node_id(&mut self, node_id: &str)
        requires
            old(self)@ is Some,
        ensures
            final(self)@ == Some(EngagementView { node_id: node_id@, ..old(self)@->0 }),
    {
        match self.state.take() {
            Some(engagement) => {
                self.state = Some(
                    Engagement {
                        entity: engagement.entity,
                        dialogue: engagement.dialogue,
                        node_id: node_id.to_owned(),
                        choices: engagement.choices,
                    },
                );
            },
            None => {},
        }
    }

    /// Engages the session with the speaker `entity`, whose dialogue is
    /// `dialogue`. A session already engaged with that speaker stays on its
    /// node; any other starts at the dialogue's entry. Then the node's
    /// on-enter actions run and its choices are offered. Returns the
    /// unrecognized ones among the actions.
    pub fn enter(&mut self, entity: u64, dialogue: Arc<Dialogue>, flags: &mut GameFlags) -> (unrecognized:
        Vec<String>)
        ensures
            final(self)@ == Some(entered(old(self)@, entity, (*dialogue)@, old(flags)@).0),
            final(flags)@ == entered(old(self)@, entity, (*dialogue)@, old(flags)@).1,
            strings(unrecognized@) == unrecognized_of_optional(
                (*dialogue)@.on_enter(node_on_entering(old(self)@, entity, (*dialogue)@)),
            ),
    {
        let resumed = match &self.state {
            Some(engagement) => if engagement.entity == entity {
                Some(engagement.node_id.clone())
            } else {
                None
            },
            None => None,
        };
        let node_id = match resumed {
            Some(node_id) => node_id,
            None => dialogue.entry.clone(),
        };
        let unrecognized = dialogue.apply_on_enter(node_id.as_str(), flags);
        let choices = dialogue.get_choices(node_id.as_str(), flags);
        self.state = Some(Engagement { entity, dialogue, node_id, choices });
        unrecognized
    }

    /// Takes the choice `choice_index` of those last offered: its actions
    /// run, the session moves to the node it leads to, that node's on-enter
    /// actions run and its choices are offered. Returns the unrecognized ones
    /// among the actions. While idle, or with an index that names no offered
    /// choice, nothing changes.
    pub fn advance(&mut self, choice_index: usize, flags: &mut GameFlags) -> (unrecognized: Vec<
        String,
    >)
        ensures
            final(self)@ == advanced(old(self)@, choice_index as int, old(flags)@).0,
            final(flags)@ == advanced(old(self)@, choice_index as int, old(flags)@).1,
            strings(unrecognized@) == unrecognized_on_advancing(old(self)@, choice_index as int),
            !can_advance(old(self)@, choice_index as int) ==> *final(self) == *old(self),
    {
        let mut unrecognized: Vec<String> = Vec::new();
        assert(strings(unrecognized@) =~= Seq::<Seq<char>>::empty());
        match self.state.take() {
            Some(engagement) => {
                if choice_index < engagement.choices.len() {
                    let choice = &engagement.choices[choice_index];
                    assert(engagement@.choices[choice_index as int] == choice@);
                    if let Some(actions) = &choice.actions {
                        unrecognized = perform_actions(actions.as_slice(), flags);
                    }
                    let node_id = choice.next.clone();
                    let ghost first = strings(unrecognized@);
                    let mut more = engagement.dialogue.apply_on_enter(node_id.as_str(), flags);
                    let ghost second = strings(more@);
                    let choices = engagement.dialogue.get_choices(node_id.as_str(), flags);
                    unrecognized.append(&mut more);
                    assert(strings(unrecognized@) =~= first + second);
                    self.state = Some(
                        Engagement {
                            entity: engagement.entity,
                            dialogue: engagement.dialogue,
                            node_id,
                            choices,
                        },
                    );
                } else {
                    self.state = Some(engagement);
                }
            },
            None => {},
        }
        unrecognized
    }

    /// Ends the conversation. Closing an idle session changes nothing.
    pub fn close(&mut self)
        ensures
            final(self)@ is None,
    {
        self.state = None;
    }

    /// The text that the node of the session shows under `flags`; `None`
    /// while idle, or if the node does not exist or has no texts.
    pub fn current_text(&self, flags: &GameFlags) -> (shown: Option<&Text>)
        ensures
            match self@ {
                Some(engagement) => match shown {
                    Some(text) => engagement.dialogue.text(engagement.node_id, flags@) == Some(
                        text@,
                    ),
                    None => engagement.dialogue.text(engagement.node_id, flags@) is None,
                },
                None => shown is None,
            },
    {
        match &self.state {
            Some(engagement) => engagement.dialogue.get_text(engagement.node_id.as_str(), flags),
            None => None,
        }
    }

    /// The choices last offered; `None` while idle.
    pub fn current_choices(&self) -> (offered: Option<&Vec<Choice>>)
        ensures
            match self@ {
                Some(engagement) => offered matches Some(choices) && choice_views(choices@)
                    == engagement.choices,
                None => offered is None,
            },
    {
        match &self.state {
            Some(engagement) => Some(&engagement.choices),
            None => None,
        }
    }
}

/// Taking a choice that was not offered changes neither the session nor the
/// flags.
pub proof fn lemma_advance_out_of_range(
    session: Option<EngagementView>,
    index: int,
    flags: Set<Seq<char>>,
)
    requires
        !(session matches Some(engagement) && 0 <= index < engagement.choices.len()),
    ensures
        advanced(session, index, flags) == (session, flags),
{
}

/// Entering the dialogue that a session is engaged with leaves the session
/// on its node, whatever happened to the flags in between.
pub proof fn lemma_reentering_keeps_node(
    engagement: EngagementView,
    dialogue: DialogueView,
    flags: Set<Seq<char>>,
)
    ensures
        entered(Some(engagement), engagement.entity, dialogue, flags).0.node_id
            == engagement.node_id,
{
}

/// Entering the same dialogue twice in a row ends on the node that the first
/// entering ended on.
pub proof fn lemma_entering_twice_keeps_node(
    session: Option<EngagementView>,
    entity: u64,
    dialogue: DialogueView,
    flags: Set<Seq<char>>,
    later: Set<Seq<char>>,
)
    ensures
        entered(Some(entered(session, entity, dialogue, flags).0), entity, dialogue, later).0.node_id
            == entered(session, entity, dialogue, flags).0.node_id,
{
}

/// Entering a dialogue from an idle session, or from one engaged with another
/// speaker, starts at the dialogue's entry.
pub proof fn lemma_entering_another_starts_at_entry(
    session: Option<EngagementView>,
    entity: u64,
    dialogue: DialogueView,
    flags: Set<Seq<char>>,
)
    requires
        session matches Some(engagement) ==> engagement.entity != entity,
    ensures
        entered(session, entity, dialogue, flags).0.node_id == dialogue.entry,
        entered(session, entity, dialogue, flags).0.entity == entity,
        entered(session, entity, dialogue, flags).0.dialogue == dialogue,
{
}

impl Default for ActiveDialogue {
    fn default() -> (session: Self)
        ensures
            session@ is None,
    {
        ActiveDialogue::new()
    }
}

} // verus!
