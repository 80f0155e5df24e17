use crate::action::{flags_after_optional, perform_actions, unrecognized_of_optional};
use crate::condition::gate_open;
use crate::flags::GameFlags;
use crate::seqs::{
    first_where, lemma_filter_ordered_part, lemma_first_where, lemma_first_where_is, ordered_part_of,
};
use crate::text::strings;
use vstd::prelude::*;

verus! {

/// One line that a node may show, with the condition under which it is meant.
#[derive(Debug)]
pub struct Text {
    pub condition: Option<String>,
    pub text: String,
}

/// One way on from a node: what the player reads, the node it leads to, the
/// condition under which it is offered and the actions that taking it runs.
#[derive(Debug)]
pub struct Choice {
    pub text: String,
    pub next: String,
    pub condition: Option<String>,
    pub actions: Option<Vec<String>>,
}

/// One beat of a dialogue.
#[derive(Debug)]
pub struct Node {
    pub id: String,
    pub texts: Vec<Text>,
    pub choices: Vec<Choice>,
    pub on_enter: Option<Vec<String>>,
}

/// A dialogue: its nodes in the order in which they were written, and the id
/// of the node at which a conversation starts. Ids need not be unique; the
/// first node with an id is the one that the id means.
#[derive(Debug)]
pub struct Dialogue {
    pub entry: String,
    pub nodes: Vec<Node>,
}

/// What a [`Text`] holds.
pub struct TextView {
    pub condition: Option<Seq<char>>,
    pub text: Seq<char>,
}

/// What a [`Choice`] holds.
pub struct ChoiceView {
    pub text: Seq<char>,
    pub next: Seq<char>,
    pub condition: Option<Seq<char>>,
    pub actions: Option<Seq<Seq<char>>>,
}

/// What a [`Node`] holds.
pub struct NodeView {
    pub id: Seq<char>,
    pub texts: Seq<TextView>,
    pub choices: Seq<ChoiceView>,
    pub on_enter: Option<Seq<Seq<char>>>,
}

/// What a [`Dialogue`] holds.
pub struct DialogueView {
    pub entry: Seq<char>,
    pub nodes: Seq<NodeView>,
}

/// An optional string as its characters.
pub open spec fn optional_string(s: Option<String>) -> Option<Seq<char>> {
    match s {
        Some(s) => Some(s@),
        None => None,
    }
}

/// An optional list of strings, each as its characters.
pub open spec fn optional_strings(list: Option<Vec<String>>) -> Option<Seq<Seq<char>>> {
    match list {
        Some(list) => Some(strings(list@)),
        None => None,
    }
}

impl View for Text {
    type V = TextView;

    open spec fn view(&self) -> TextView {
        TextView { condition: optional_string(self.condition), text: self.text@ }
    }
}

impl View for Choice {
    type V = ChoiceView;

    open spec fn view(&self) -> ChoiceView {
        ChoiceView {
            text: self.text@,
            next: self.next@,
            condition: optional_string(self.condition),
            actions: optional_strings(self.actions),
        }
    }
}

/// What a sequence of texts holds.
pub open spec fn text_views(texts: Seq<Text>) -> Seq<TextView> {
    texts.map_values(|t: Text| t@)
}

/// What a sequence of choices holds.
pub open spec fn choice_views(choices: Seq<Choice>) -> Seq<ChoiceView> {
    choices.map_values(|c: Choice| c@)
}

impl View for Node {
    type V = NodeView;

    open spec fn view(&self) -> NodeView {
        NodeView {
            id: self.id@,
            texts: text_views(self.texts@),
            choices: choice_views(self.choices@),
            on_enter: optional_strings(self.on_enter),
        }
    }
}

/// What a sequence of nodes holds.
pub open spec fn node_views(nodes: Seq<Node>) -> Seq<NodeView> {
    nodes.map_values(|n: Node| n@)
}

impl View for Dialogue {
    type V = DialogueView;

    open spec fn view(&self) -> DialogueView {
        DialogueView { entry: self.entry@, nodes: node_views(self.nodes@) }
    }
}

/// The test for a node with the id `id`.
pub open spec fn has_id(id: Seq<char>) -> spec_fn(NodeView) -> bool {
    |n: NodeView| n.id == id
}

/// The test for a text whose condition holds under `flags`.
pub open spec fn is_open(flags: Set<Seq<char>>) -> spec_fn(TextView) -> bool {
    |t: TextView| gate_open(t.condition, flags)
}

/// The test for a choice whose condition holds under `flags`.
pub open spec fn is_offered(flags: Set<Seq<char>>) -> spec_fn(ChoiceView) -> bool {
    |c: ChoiceView| gate_open(c.condition, flags)
}

/// The text to show among `texts`: the first whose condition holds, or the
/// last one if none holds. Without texts there is nothing to show.
pub open spec fn shown_text(texts: Seq<TextView>, flags: Set<Seq<char>>) -> Option<TextView> {
    if texts.len() == 0 {
        None
    } else if first_where(texts, is_open(flags)) < texts.len() {
        Some(texts[first_where(texts, is_open(flags))])
    } else {
        Some(texts.last())
    }
}

impl DialogueView {
    /// The node that `id` means: the first one with that id.
    pub open spec fn node(self, id: Seq<char>) -> Option<NodeView> {
        if first_where(self.nodes, has_id(id)) < self.nodes.len() {
            Some(self.nodes[first_where(self.nodes, has_id(id))])
        } else {
            None
        }
    }

    /// The text that the node `id` shows under `flags`.
    pub open spec fn text(self, id: Seq<char>, flags: Set<Seq<char>>) -> Option<TextView> {
        match self.node(id) {
            Some(node) => shown_text(node.texts, flags),
            None => None,
        }
    }

    /// The choices that the node `id` offers under `flags`: those whose
    /// condition holds, in the order in which they were written.
    pub open spec fn choices(self, id: Seq<char>, flags: Set<Seq<char>>) -> Seq<ChoiceView> {
        match self.node(id) {
            Some(node) => node.choices.filter(is_offered(flags)),
            None => Seq::empty(),
        }
    }

    /// The actions that entering the node `id` runs.
    pub open spec fn on_enter(self, id: Seq<char>) -> Option<Seq<Seq<char>>> {
        match self.node(id) {
            Some(node) => node.on_enter,
            None => None,
        }
    }
}

/// A copy of an optional string.
fn clone_optional_string(s: &Option<String>) -> (copy: Option<String>)
    ensures
        optional_string(copy) == optional_string(*s),
{
    match s {
        Some(s) => Some(s.clone()),
        None => None,
    }
}

/// A copy of a list of strings.
fn clone_strings(list: &Vec<String>) -> (copy: Vec<String>)
    ensures
        strings(copy@) == strings(list@),
{
    let mut copy: Vec<String> = Vec::new();
    let mut i: usize = 0;
    while i < list.len()
        invariant
            i <= list.len(),
            strings(copy@) == strings(list@).take(i as int),
        decreases list.len() - i,
    {
        let ghost before = strings(copy@);
        copy.push(list[i].clone());
        assert(strings(copy@) =~= before.push(list@[i as int]@));
        assert(strings(copy@) =~= strings(list@).take(i + 1));
        i += 1;
    }
    assert(strings(list@).take(i as int) =~= strings(list@));
    copy
}

impl Clone for Text {
    fn clone(&self) -> (copy: Self)
        ensures
            copy@ == self@,
    {
        Text { condition: clone_optional_string(&self.condition), text: self.text.clone() }
    }
}

impl Clone for Choice {
    fn clone(&self) -> (copy: Self)
        ensures
            copy@ == self@,
    {
        let actions = match &self.actions {
            Some(list) => Some(clone_strings(list)),
            None => None,
        };
        Choice {
            text: self.text.clone(),
            next: self.next.clone(),
            condition: clone_optional_string(&self.condition),
            actions,
        }
    }
}

impl Clone for Node {
    fn clone(&self) -> (copy: Self)
        ensures
            copy@ == self@,
    {
        let mut texts: Vec<Text> = Vec::new();
        let mut i: usize = 0;
        while i < self.texts.len()
            invariant
                i <= self.texts.len(),
                text_views(texts@) == text_views(self.texts@).take(i as int),
            decreases self.texts.len() - i,
        {
            let ghost before = text_views(texts@);
            texts.push(self.texts[i].clone());
            assert(text_views(texts@) =~= before.push(self.texts@[i as int]@));
            assert(text_views(texts@) =~= text_views(self.texts@).take(i + 1));
            i += 1;
        }
        assert(text_views(self.texts@).take(i as int) =~= text_views(self.texts@));
        let mut choices: Vec<Choice> = Vec::new();
        let mut j: usize = 0;
        while j < self.choices.len()
            invariant
                j <= self.choices.len(),
                choice_views(choices@) == choice_views(self.choices@).take(j as int),
            decreases self.choices.len() - j,
        {
            let ghost before = choice_views(choices@);
            choices.push(self.choices[j].clone());
            assert(choice_views(choices@) =~= before.push(self.choices@[j as int]@));
            assert(choice_views(choices@) =~= choice_views(self.choices@).take(j + 1));
            j += 1;
        }
        assert(choice_views(self.choices@).take(j as int) =~= choice_views(self.choices@));
        let on_enter = match &self.on_enter {
            Some(list) => Some(clone_strings(list)),
            None => None,
        };
        Node { id: self.id.clone(), texts, choices, on_enter }
    }
}

impl Clone for Dialogue {
    fn clone(&self) -> (copy: Self)
        ensures
            copy@ == self@,
    {
        let mut nodes: Vec<Node> = Vec::new();
        let mut i: usize = 0;
        while i < self.nodes.len()
            invariant
                i <= self.nodes.len(),
                node_views(nodes@) == node_views(self.nodes@).take(i as int),
            decreases self.nodes.len() - i,
        {
            let ghost before = node_views(nodes@);
            nodes.push(self.nodes[i].clone());
            assert(node_views(nodes@) =~= before.push(self.nodes@[i as int]@));
            assert(node_views(nodes@) =~= node_views(self.nodes@).take(i + 1));
            i += 1;
        }
        assert(node_views(self.nodes@).take(i as int) =~= node_views(self.nodes@));
        Dialogue { entry: self.entry.clone(), nodes }
    }
}

impl Dialogue {
    /// The node that `node_id` means, if there is one.
    pub fn find_node(&self, node_id: &str) -> (found: Option<&Node>)
        ensures
            match found {
                Some(node) => self@.node(node_id@) == Some(node@),
                None => self@.node(node_id@) is None,
            },
    {
        let mut i: usize = 0;
        while i < self.nodes.len()
            invariant
                i <= self.nodes.len(),
                forall|j: int| 0 <= j < i ==> !has_id(node_id@)(#[trigger] self@.nodes[j]),
            decreases self.nodes.len() - i,
        {
            if self.nodes[i].id.as_str().eq(node_id) {
                proof {
                    assert(self@.nodes[i as int] == self.nodes[i as int]@);
                    lemma_first_where_is(self@.nodes, has_id(node_id@), i as int);
                }
                return Some(&self.nodes[i]);
            }
            assert(self@.nodes[i as int] == self.nodes[i as int]@);
            i += 1;
        }
        proof {
            lemma_first_where_is(self@.nodes, has_id(node_id@), i as int);
        }
        None
    }

    /// The text that the node `node_id` shows under `flags`: the first of its
    /// texts whose condition holds, or its last text if none holds. `None`
    /// only if there is no such node or the node has no texts.
    pub fn get_text(&self, node_id: &str, flags: &GameFlags) -> (shown: Option<&Text>)
        ensures
            match shown {
                Some(text) => self@.text(node_id@, flags@) == Some(text@),
                None => self@.text(node_id@, flags@) is None,
            },
            shown is None <==> (self@.node(node_id@) matches Some(node) ==> node.texts.len() == 0),
    {
        let node = match self.find_node(node_id) {
            Some(node) => node,
            None => {
                return None;
            },
        };
        let n = node.texts.len();
        if n == 0 {
            return None;
        }
        let mut i: usize = 0;
        while i < n
            invariant
                self@.node(node_id@) == Some(node@),
                0 < n == node.texts.len(),
                i <= n,
                forall|j: int| 0 <= j < i ==> !is_open(flags@)(#[trigger] node@.texts[j]),
            decreases n - i,
        {
            let open = match &node.texts[i].condition {
                Some(condition) => flags.check(Some(condition.as_str())),
                None => true,
            };
            assert(node@.texts[i as int] == node.texts[i as int]@);
            if open {
                proof {
                    lemma_first_where_is(node@.texts, is_open(flags@), i as int);
                }
                return Some(&node.texts[i]);
            }
            i += 1;
        }
        proof {
            lemma_first_where_is(node@.texts, is_open(flags@), i as int);
            assert(node@.texts.last() == node.texts[n - 1]@);
        }
        Some(&node.texts[n - 1])
    }

    /// The choices that the node `node_id` offers under `flags`: those whose
    /// condition holds or is absent, in the order in which they were written.
    /// Empty if there is no such node.
    pub fn get_choices(&self, node_id: &str, flags: &GameFlags) -> (offered: Vec<Choice>)
        ensures
            choice_views(offered@) == self@.choices(node_id@, flags@),
    {
        let mut offered: Vec<Choice> = Vec::new();
        let node = match self.find_node(node_id) {
            Some(node) => node,
            None => {
                assert(choice_views(offered@) =~= Seq::<ChoiceView>::empty());
                return offered;
            },
        };
        let ghost all = node@.choices;
        let mut i: usize = 0;
        proof {
            reveal(Seq::filter);
            assert(all.take(0) =~= Seq::<ChoiceView>::empty());
            assert(choice_views(offered@) =~= Seq::<ChoiceView>::empty());
        }
        while i < node.choices.len()
            invariant
                all == node@.choices,
                i <= node.choices.len(),
                choice_views(offered@) == all.take(i as int).filter(is_offered(flags@)),
            decreases node.choices.len() - i,
        {
            let choice = &node.choices[i];
            let open = match &choice.condition {
                Some(condition) => flags.check(Some(condition.as_str())),
                None => true,
            };
            let ghost before = choice_views(offered@);
            assert(all[i as int] == choice@);
            if open {
                offered.push(choice.clone());
                assert(choice_views(offered@) =~= before.push(choice@));
            }
            proof {
                assert(all.take(i + 1) =~= all.take(i as int).push(all[i as int]));
                all.take(i as int).lemma_filter_push(all[i as int], is_offered(flags@));
            }
            i += 1;
        }
        assert(all.take(i as int) =~= all);
        offered
    }

    /// Runs the actions that entering the node `node_id` runs, in their
    /// order, and returns the unrecognized ones. Without such a node, or
    /// without actions on it, nothing happens.
    pub fn apply_on_enter(&self, node_id: &str, flags: &mut GameFlags) -> (unrecognized: Vec<
        String,
    >)
        ensures
            final(flags)@ == flags_after_optional(old(flags)@, self@.on_enter(node_id@)),
            strings(unrecognized@) == unrecognized_of_optional(self@.on_enter(node_id@)),
    {
        if let Some(node) = self.find_node(node_id) {
            if let Some(actions) = &node.on_enter {
                return perform_actions(actions.as_slice(), flags);
            }
        }
        let unrecognized: Vec<String> = Vec::new();
        assert(strings(unrecognized@) =~= Seq::<Seq<char>>::empty());
        unrecognized
    }
}

/// A node that exists and has texts always shows one of them, whatever the
/// flags: where no condition holds, the last text stands in.
pub proof fn lemma_text_is_shown(dialogue: DialogueView, id: Seq<char>, flags: Set<Seq<char>>)
    requires
        dialogue.node(id) matches Some(node) && node.texts.len() > 0,
    ensures
        dialogue.text(id, flags) matches Some(text) && dialogue.node(id)->0.texts.contains(text),
{
    let texts = dialogue.node(id)->0.texts;
    lemma_first_where(texts, is_open(flags));
    let at = first_where(texts, is_open(flags));
    if at < texts.len() {
        assert(texts[at] == dialogue.text(id, flags)->0);
    } else {
        assert(texts[texts.len() - 1] == dialogue.text(id, flags)->0);
    }
}

/// The choices that a node offers are some of the choices written on it, in
/// the order in which they were written, and the condition of each holds.
/// Without the node nothing is offered.
pub proof fn lemma_choices_are_ordered_part(
    dialogue: DialogueView,
    id: Seq<char>,
    flags: Set<Seq<char>>,
)
    ensures
        match dialogue.node(id) {
            Some(node) => ordered_part_of(dialogue.choices(id, flags), node.choices),
            None => dialogue.choices(id, flags).len() == 0,
        },
        forall|k: int|
            0 <= k < dialogue.choices(id, flags).len() ==> gate_open(
                (#[trigger] dialogue.choices(id, flags)[k]).condition,
                flags,
            ),
{
    if let Some(node) = dialogue.node(id) {
        lemma_filter_ordered_part(node.choices, is_offered(flags));
    }
}

} // verus!
