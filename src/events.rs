//! Requests and notifications exchanged with the host.

use vstd::prelude::*;

use crate::script::Choice;

verus! {

/// A request to advance the conversation to its next line.
pub struct NextDialogueEvent;

/// The player picked the choice leading to the line with this id.
pub struct ChoicePickedEvent(pub i32);

/// The conversation reached a line that offers these choices.
pub struct ChoicesReachedEvent(pub Vec<Choice>);

} // verus!
