use crate::action::unrecognized_of_optional;
use crate::dialogue::{choice_views, Choice, Dialogue, Text};
use crate::flags::GameFlags;
use crate::session::{
    advanced, can_advance, entered, node_on_entering, unrecognized_on_advancing, ActiveDialogue,
    Engagement, EngagementView,
};
use crate::text::strings;
use std::collections::HashMap;
use std::sync::Arc;
use vstd::prelude::*;
use vstd::std_specs::hash::*;

verus! {

broadcast use group_hash_axioms;

/// The conversations under way, one for each requester that is engaged. A
/// requester gets an entry when it first enters a dialogue and loses it when
/// it closes the conversation.
#[derive(Debug)]
pub struct DialogueSessions {
    pub sessions: HashMap<u64, Engagement>,
}

impl View for DialogueSessions {
    type V = Map<u64, EngagementView>;

    open spec fn view(&self) -> Map<u64, EngagementView> {
        self.sessions@.map_values(|e: Engagement| e@)
    }
}

/// The session of `requester`: its engagement, or `None` while it is idle.
pub open spec fn session_of(sessions: Map<u64, EngagementView>, requester: u64) -> Option<
    EngagementView,
> {
    if sessions.dom().contains(requester) {
        Some(sessions[requester])
    } else {
        None
    }
}

/// `sessions` with the session of `requester` replaced by `session`.
pub open spec fn with_session(
    sessions: Map<u64, EngagementView>,
    requester: u64,
    session: Option<EngagementView>,
) -> Map<u64, EngagementView> {
    match session {
        Some(engagement) => sessions.insert(requester, engagement),
        None => sessions.remove(requester),
    }
}

impl DialogueSessions {
    /// No requester is engaged.
    pub fn new() -> (all: Self)
        ensures
            all@ == Map::<u64, EngagementView>::empty(),
    {
        let all = DialogueSessions { sessions: HashMap::new() };
        assert(all@ =~= Map::<u64, EngagementView>::empty());
        all
    }

    /// Takes the session of `requester` out of the map.
    fn take(&mut self, requester: u64) -> (session: ActiveDialogue)
        ensures
            session@ == session_of(old(self)@, requester),
            final(self)@ == old(self)@.remove(requester),
    {
        let state = self.sessions.remove(&requester);
        assert(self@ =~= old(self)@.remove(requester));
        ActiveDialogue { state }
    }

    /// Puts the session of `requester` back into the map.
    fn put(&mut self, requester: u64, session: ActiveDialogue)
        requires
            !old(self)@.dom().contains(requester),
        ensures
            final(self)@ == with_session(old(self)@, requester, session@),
    {
        match session.state {
            Some(engagement) => {
                self.sessions.insert(requester, engagement);
                assert(self@ =~= old(self)@.insert(requester, engagement@));
            },
            None => {
                assert(self@ =~= old(self)@.remove(requester));
            },
        }
    }

    /// Engages `requester` with the speaker `entity`, as
    /// [`ActiveDialogue::enter`] does for one session.
    pub fn enter(
        &mut self,
        requester: u64,
        entity: u64,
        dialogue: Arc<Dialogue>,
        flags: &mut GameFlags,
    ) -> (unrecognized: Vec<String>)
        ensures
            final(self)@ == old(self)@.insert(
                requester,
                entered(session_of(old(self)@, requester), entity, (*dialogue)@, old(flags)@).0,
            ),
            final(flags)@ == entered(
                session_of(old(self)@, requester),
                entity,
                (*dialogue)@,
                old(flags)@,
            ).1,
            strings(unrecognized@) == unrecognized_of_optional(
                (*dialogue)@.on_enter(
                    node_on_entering(session_of(old(self)@, requester), entity, (*dialogue)@),
                ),
            ),
    {
        let ghost after = entered(
            session_of(old(self)@, requester),
            entity,
            (*dialogue)@,
            old(flags)@,
        ).0;
        let mut session = self.take(requester);
        let unrecognized = session.enter(entity, dialogue, flags);
        self.put(requester, session);
        assert(old(self)@.remove(requester).insert(requester, after) =~= old(self)@.insert(
            requester,
            after,
        ));
        unrecognized
    }

    /// Takes the choice `choice_index` for `requester`, as
    /// [`ActiveDialogue::advance`] does for one session. For an idle
    /// requester, or an index that names no offered choice, nothing changes.
    pub fn advance(&mut self, requester: u64, choice_index: usize, flags: &mut GameFlags) -> (unrecognized:
        Vec<String>)
        ensures
            final(self)@ == with_session(
                old(self)@,
                requester,
                advanced(session_of(old(self)@, requester), choice_index as int, old(flags)@).0,
            ),
            final(flags)@ == advanced(
                session_of(old(self)@, requester),
                choice_index as int,
                old(flags)@,
            ).1,
            strings(unrecognized@) == unrecognized_on_advancing(
                session_of(old(self)@, requester),
                choice_index as int,
            ),
            !can_advance(session_of(old(self)@, requester), choice_index as int) ==> final(self)@
                == old(self)@,
    {
        let ghost before = session_of(old(self)@, requester);
        let ghost after = advanced(before, choice_index as int, old(flags)@).0;
        let mut session = self.take(requester);
        let unrecognized = session.advance(choice_index, flags);
        self.put(requester, session);
        assert(with_session(old(self)@.remove(requester), requester, after) =~= with_session(
            old(self)@,
            requester,
            after,
        ));
        assert(!can_advance(before, choice_index as int) ==> with_session(
            old(self)@,
            requester,
            before,
        ) =~= old(self)@);
        unrecognized
    }

    /// Ends the conversation of `requester`. Closing for an idle requester
    /// changes nothing.
    pub fn close(&mut self, requester: u64)
        ensures
            final(self)@ == old(self)@.remove(requester),
    {
        self.sessions.remove(&requester);
        assert(self@ =~= old(self)@.remove(requester));
    }

    /// The text that the node of `requester` shows under `flags`; `None`
    /// while the requester is idle, or if the node does not exist or has no
    /// texts.
    pub fn current_text(&self, requester: u64, flags: &GameFlags) -> (shown: Option<&Text>)
        ensures
            match session_of(self@, requester) {
                Some(engagement) => match shown {
                    Some(text) => engagement.dialogue.text(engagement.node_id, flags@) == Some(
                        text@,
                    ),
                    None => engagement.dialogue.text(engagement.node_id, flags@) is None,
                },
                None => shown is None,
            },
    {
        match self.sessions.get(&requester) {
            Some(engagement) => engagement.dialogue.get_text(engagement.node_id.as_str(), flags),
            None => None,
        }
    }

    /// The choices last offered to `requester`; `None` while it is idle.
    pub fn current_choices(&self, requester: u64) -> (offered: Option<&Vec<Choice>>)
        ensures
            match session_of(self@, requester) {
                Some(engagement) => offered matches Some(choices) && choice_views(choices@)
                    == engagement.choices,
                None => offered is None,
            },
    {
        match self.sessions.get(&requester) {
            Some(engagement) => Some(&engagement.choices),
            None => None,
        }
    }
}

impl Default for DialogueSessions {
    fn default() -> (all: Self)
        ensures
            all@ == Map::<u64, EngagementView>::empty(),
    {
        DialogueSessions::new()
    }
}

/// What one requester does leaves the session of every other as it was.
pub proof fn lemma_other_sessions_stay(
    sessions: Map<u64, EngagementView>,
    requester: u64,
    session: Option<EngagementView>,
    other: u64,
)
    requires
        other != requester,
    ensures
        session_of(with_session(sessions, requester, session), other) == session_of(sessions, other),
        session_of(with_session(sessions, requester, session), requester) == session,
{
}

} // verus!
