//! The inbound action vocabulary: what a connected participant may request.

use vstd::prelude::*;

verus! {

#[derive(Debug, PartialEq, Eq)]
pub struct SkipWord {
    pub skip_word: bool,
}

#[derive(Debug, PartialEq, Eq)]
pub struct StartNextRound {
    pub start_next_round: bool,
}

#[derive(Debug, PartialEq, Eq)]
pub struct Hint {
    pub hint: String,
}

#[derive(Debug, PartialEq, Eq)]
pub struct Guess {
    pub guess: String,
}

/// The closed set of actions a participant can take during a session.
#[derive(Debug, PartialEq, Eq)]
pub enum Action {
    SkipWordAction(SkipWord),
    StartNextRoundAction(StartNextRound),
    HintAction(Hint),
    GuessAction(Guess),
}

/// An action as carried by one inbound message.
#[derive(Debug, PartialEq, Eq)]
pub struct ActionMessage {
    pub action: Action,
}

} // verus!
