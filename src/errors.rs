//! Errors of the traversal requests and of building a talk.

use vstd::prelude::*;

verus! {

/// Identifier of an action in a talk.
pub type ActionId = usize;

/// Errors when moving to the next line of a conversation.
#[derive(Debug, Clone, PartialEq, Eq)]
pub enum NextActionError {
    /// The current line has no line after it.
    NoNextAction,
    /// The current line offers choices: one of them must be picked by a jump.
    ChoicesNotHandled,
    /// A jump named a line id that the conversation does not hold.
    WrongJump(i32),
    /// A request was made for a talk that does not exist.
    NoTalk,
}

/// Errors when building a talk.
#[derive(Debug, Clone, PartialEq, Eq)]
pub enum BuildTalkError {
    /// The talk is empty.
    EmptyTalk,
    /// An action names a non-existent actor.
    InvalidActor(ActionId, String),
    /// An action points to a next action that does not exist.
    InvalidNextAction(ActionId, ActionId),
    /// The handle did not have a talk loaded.
    RawTalkNotLoaded,
}

} // verus!
