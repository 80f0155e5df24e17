use crate::flags::GameFlags;
use crate::seqs::{first_where, lemma_first_where_is};
use crate::text::{chars_of, strings};
use vstd::prelude::*;

verus! {

/// What an action string asks for.
#[derive(Debug)]
pub enum Action {
    /// `set_flag:NAME`
    SetFlag(String),
    /// `remove_flag:NAME`
    RemoveFlag(String),
    /// Anything else, with the string as it was written.
    Unrecognized(String),
}

/// What an [`Action`] stands for in specifications.
pub enum ActionView {
    SetFlag(Seq<char>),
    RemoveFlag(Seq<char>),
    Unrecognized(Seq<char>),
}

impl View for Action {
    type V = ActionView;

    open spec fn view(&self) -> ActionView {
        match self {
            Action::SetFlag(name) => ActionView::SetFlag(name@),
            Action::RemoveFlag(name) => ActionView::RemoveFlag(name@),
            Action::Unrecognized(raw) => ActionView::Unrecognized(raw@),
        }
    }
}

/// The test for the character that parts a verb from its argument.
pub open spec fn is_colon() -> spec_fn(char) -> bool {
    |c: char| c == ':'
}

/// The verb `set_flag`.
pub open spec fn set_flag_verb() -> Seq<char> {
    seq!['s', 'e', 't', '_', 'f', 'l', 'a', 'g']
}

/// The verb `remove_flag`.
pub open spec fn remove_flag_verb() -> Seq<char> {
    seq!['r', 'e', 'm', 'o', 'v', 'e', '_', 'f', 'l', 'a', 'g']
}

/// The meaning of an action string. A string with exactly one colon is a
/// verb, the colon and an argument; the verbs are `set_flag` and
/// `remove_flag`. Every other string is unrecognized.
pub open spec fn action_of(s: Seq<char>) -> ActionView {
    let colon = first_where(s, is_colon());
    if colon < s.len() && !s.skip(colon + 1).contains(':') {
        let verb = s.take(colon);
        let argument = s.skip(colon + 1);
        if verb == set_flag_verb() {
            ActionView::SetFlag(argument)
        } else if verb == remove_flag_verb() {
            ActionView::RemoveFlag(argument)
        } else {
            ActionView::Unrecognized(s)
        }
    } else {
        ActionView::Unrecognized(s)
    }
}

/// The flags after one action: a recognized action sets or clears its flag,
/// an unrecognized one changes nothing.
pub open spec fn apply_action(flags: Set<Seq<char>>, action: ActionView) -> Set<Seq<char>> {
    match action {
        ActionView::SetFlag(name) => flags.insert(name),
        ActionView::RemoveFlag(name) => flags.remove(name),
        ActionView::Unrecognized(_) => flags,
    }
}

/// The flags after a list of actions, each applied in turn to what the ones
/// before it left.
pub open spec fn flags_after(flags: Set<Seq<char>>, actions: Seq<Seq<char>>) -> Set<Seq<char>>
    decreases actions.len(),
{
    if actions.len() == 0 {
        flags
    } else {
        apply_action(flags_after(flags, actions.drop_last()), action_of(actions.last()))
    }
}

/// The flags after an optional list of actions.
pub open spec fn flags_after_optional(
    flags: Set<Seq<char>>,
    actions: Option<Seq<Seq<char>>>,
) -> Set<Seq<char>> {
    match actions {
        Some(list) => flags_after(flags, list),
        None => flags,
    }
}

/// The test for an action string that is not recognized.
pub open spec fn is_unrecognized() -> spec_fn(Seq<char>) -> bool {
    |s: Seq<char>| action_of(s) is Unrecognized
}

/// The unrecognized ones among a list of action strings, in their order.
pub open spec fn unrecognized_of(actions: Seq<Seq<char>>) -> Seq<Seq<char>> {
    actions.filter(is_unrecognized())
}

/// The unrecognized ones among an optional list of action strings.
pub open spec fn unrecognized_of_optional(actions: Option<Seq<Seq<char>>>) -> Seq<Seq<char>> {
    match actions {
        Some(list) => unrecognized_of(list),
        None => Seq::empty(),
    }
}

/// Reads an action string.
pub fn parse_action(action: &str) -> (parsed: Action)
    ensures
        parsed@ == action_of(action@),
{
    let chars = chars_of(action);
    let n = chars.len();
    let mut colon: usize = 0;
    while colon < n && chars[colon] != ':'
        invariant
            n == chars.len(),
            colon <= n,
            forall|j: int| 0 <= j < colon ==> !is_colon()(#[trigger] chars@[j]),
        decreases n - colon,
    {
        colon += 1;
    }
    proof {
        lemma_first_where_is(chars@, is_colon(), colon as int);
    }
    if colon == n {
        return Action::Unrecognized(action.to_owned());
    }
    let mut i: usize = colon + 1;
    while i < n
        invariant
            n == chars.len(),
            chars@ == action@,
            colon == first_where(action@, is_colon()),
            colon < i <= n,
            forall|j: int| colon < j < i ==> chars@[j] != ':',
        decreases n - i,
    {
        if chars[i] == ':' {
            proof {
                let tail = action@.skip(colon + 1);
                assert(tail[i - colon - 1] == ':');
                assert(tail.contains(':'));
            }
            return Action::Unrecognized(action.to_owned());
        }
        i += 1;
    }
    proof {
        let tail = chars@.skip(colon + 1);
        assert forall|k: int| 0 <= k < tail.len() implies tail[k] != ':' by {
            assert(tail[k] == chars@[colon + 1 + k]);
        }
        assert(action@.take(colon as int) =~= action@.subrange(0, colon as int));
        assert(tail =~= action@.subrange(colon + 1, n as int));
        reveal_strlit("set_flag");
        reveal_strlit("remove_flag");
        assert("set_flag"@ =~= set_flag_verb());
        assert("remove_flag"@ =~= remove_flag_verb());
    }
    let verb = action.substring_char(0, colon);
    let argument = action.substring_char(colon + 1, n);
    if verb.eq("set_flag") {
        Action::SetFlag(argument.to_owned())
    } else if verb.eq("remove_flag") {
        Action::RemoveFlag(argument.to_owned())
    } else {
        Action::Unrecognized(action.to_owned())
    }
}

/// Applies one action to the flags and returns what the string was read as,
/// so that the caller can report an unrecognized one.
pub fn perform_action(action: &str, state: &mut GameFlags) -> (done: Action)
    ensures
        done@ == action_of(action@),
        final(state)@ == apply_action(old(state)@, action_of(action@)),
{
    let done = parse_action(action);
    match &done {
        Action::SetFlag(name) => state.set(name.as_str()),
        Action::RemoveFlag(name) => state.remove(name.as_str()),
        Action::Unrecognized(_) => {},
    }
    done
}

/// Applies each action in turn and returns the unrecognized ones. An
/// unrecognized action neither stops the ones after it nor undoes the ones
/// before it.
pub fn perform_actions(actions: &[String], state: &mut GameFlags) -> (unrecognized: Vec<String>)
    ensures
        final(state)@ == flags_after(old(state)@, strings(actions@)),
        strings(unrecognized@) == unrecognized_of(strings(actions@)),
{
    let ghost all = strings(actions@);
    let mut unrecognized: Vec<String> = Vec::new();
    let mut i: usize = 0;
    proof {
        reveal(Seq::filter);
        assert(all.take(0) =~= Seq::<Seq<char>>::empty());
        assert(strings(unrecognized@) =~= Seq::<Seq<char>>::empty());
    }
    while i < actions.len()
        invariant
            all == strings(actions@),
            i <= actions.len(),
            state@ == flags_after(old(state)@, all.take(i as int)),
            strings(unrecognized@) == unrecognized_of(all.take(i as int)),
        decreases actions.len() - i,
    {
        let ghost before = strings(unrecognized@);
        let done = perform_action(actions[i].as_str(), state);
        if let Action::Unrecognized(raw) = done {
            unrecognized.push(raw);
            assert(strings(unrecognized@) =~= before.push(all[i as int]));
        }
        proof {
            let next = all.take(i + 1);
            assert(next.drop_last() =~= all.take(i as int));
            assert(next.last() == all[i as int]);
            assert(next =~= all.take(i as int).push(all[i as int]));
            all.take(i as int).lemma_filter_push(all[i as int], is_unrecognized());
        }
        i += 1;
    }
    assert(all.take(i as int) =~= all);
    unrecognized
}

/// Running one list of actions after another is running the two as one list.
pub proof fn lemma_flags_after_concat(
    flags: Set<Seq<char>>,
    first: Seq<Seq<char>>,
    second: Seq<Seq<char>>,
)
    ensures
        flags_after(flags, first + second) == flags_after(flags_after(flags, first), second),
    decreases second.len(),
{
    if second.len() == 0 {
        assert(first + second =~= first);
    } else {
        lemma_flags_after_concat(flags, first, second.drop_last());
        assert((first + second).drop_last() =~= first + second.drop_last());
        assert((first + second).last() == second.last());
    }
}

/// An unrecognized action in a list neither undoes what the actions before
/// it did nor keeps the ones after it from running: the flags end as if it
/// had not been in the list.
pub proof fn lemma_unrecognized_action_is_passed_over(
    flags: Set<Seq<char>>,
    before: Seq<Seq<char>>,
    raw: Seq<char>,
    after: Seq<Seq<char>>,
)
    requires
        action_of(raw) is Unrecognized,
    ensures
        flags_after(flags, before + seq![raw] + after) == flags_after(flags, before + after),
{
    lemma_flags_after_concat(flags, before + seq![raw], after);
    lemma_flags_after_concat(flags, before, seq![raw]);
    lemma_flags_after_concat(flags, before, after);
    assert(seq![raw].drop_last() =~= Seq::<Seq<char>>::empty());
    assert(flags_after(flags_after(flags, before), seq![raw]) == flags_after(flags, before)) by {
        assert(seq![raw].last() == raw);
        assert(flags_after(flags_after(flags, before), seq![raw].drop_last()) == flags_after(
            flags,
            before,
        ));
    }
}

} // verus!
