//! Branching dialogue graphs: a script of dialogue lines is validated and
//! compiled into a directed graph, which is then walked one line at a time.

pub mod conversation;
pub mod errors;
pub mod events;
pub mod graph;
pub mod rules;
pub mod script;
