//! A story engine for branching dialogue: a set of flags, conditions over
//! the flags, dialogues whose texts and choices the conditions gate, actions
//! that set and clear flags, the choice of whom to talk to, and the place of
//! each requester in its conversation.

pub mod text;
pub mod seqs;
pub mod flags;
pub mod condition;
pub mod truth;
pub mod action;
pub mod dialogue;
pub mod selector;
pub mod session;
pub mod sessions;

pub use action::{perform_action, perform_actions, Action};
pub use condition::{evaluate, tokenize_condition, Token};
pub use dialogue::{Choice, Dialogue, Node, Text};
pub use flags::GameFlags;
pub use selector::{distance_squared, nearest_index, select_nearest, Candidate, Position};
pub use session::{ActiveDialogue, Engagement};
pub use sessions::DialogueSessions;
