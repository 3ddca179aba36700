//! The authored form of a conversation, as a host hands it over.

use vstd::prelude::*;

verus! {

/// A named speaker and the asset that depicts it.
#[derive(Debug, Clone, PartialEq, Eq)]
pub struct Talker {
    pub name: String,
    pub asset: String,
}

/// One option offered to the player, leading to the line with id `next`.
#[derive(Debug, Clone, PartialEq, Eq)]
pub struct Choice {
    pub text: String,
    pub next: i32,
}

/// One authored line of dialogue, before validation.
#[derive(Debug, Clone, PartialEq, Eq)]
pub struct DialogueLine {
    /// Unique among the lines of a script.
    pub id: i32,
    pub text: String,
    /// Name of a talker of the script, if the line has a speaker.
    pub talker: Option<String>,
    /// Options for the player; used only when `next` is absent.
    pub choices: Option<Vec<Choice>>,
    /// Id of the line that follows; takes priority over `choices`.
    pub next: Option<i32>,
    /// Marks the single line a conversation starts on.
    pub start: Option<bool>,
    /// Informational only: a line ends a conversation when it leads nowhere,
    /// whatever this flag says.
    pub end: Option<bool>,
}

/// A whole script: the talkers and the lines, in authored order.
#[derive(Debug, Clone, PartialEq, Eq)]
pub struct RawTalk {
    pub talkers: Vec<Talker>,
    pub lines: Vec<DialogueLine>,
}

impl Talker {
    /// A field-by-field copy.
    pub fn copied(&self) -> (r: Talker)
        ensures
            r == *self,
    {
        Talker { name: self.name.clone(), asset: self.asset.clone() }
    }
}

impl Choice {
    /// A field-by-field copy.
    pub fn copied(&self) -> (r: Choice)
        ensures
            r == *self,
    {
        Choice { text: self.text.clone(), next: self.next }
    }
}

/// A copy of a list of choices, element by element.
pub fn copy_choices(cs: &Vec<Choice>) -> (r: Vec<Choice>)
    ensures
        r@ == cs@,
{
    let mut r: Vec<Choice> = Vec::new();
    let mut i: usize = 0;
    while i < cs.len()
        invariant
            i <= cs.len(),
            r@ == cs@.subrange(0, i as int),
        decreases cs.len() - i,
    {
        r.push(cs[i].copied());
        i = i + 1;
        assert(r@ =~= cs@.subrange(0, i as int));
    }
    assert(cs@.subrange(0, cs.len() as int) =~= cs@);
    r
}

} // verus!
