//! The outbound event vocabulary and its mathematical model.

use vstd::prelude::*;

verus! {

/// A participant id together with the display name, as sent in roster
/// notifications.
#[derive(Debug, PartialEq, Eq)]
pub struct ClientIdAndName {
    pub id: String,
    pub username: String,
}

#[verifier::ext_equal]
pub struct ClientIdAndNameV {
    pub id: Seq<char>,
    pub username: Seq<char>,
}

impl View for ClientIdAndName {
    type V = ClientIdAndNameV;

    open spec fn view(&self) -> ClientIdAndNameV {
        ClientIdAndNameV { id: self.id@, username: self.username@ }
    }
}

impl DeepView for ClientIdAndName {
    type V = ClientIdAndNameV;

    open spec fn deep_view(&self) -> ClientIdAndNameV {
        self.view()
    }
}

/// A participant id together with the hint it submitted, as sent in the
/// end-of-round hint summaries.
#[derive(Debug, PartialEq, Eq)]
pub struct ClientAndHint {
    pub client: String,
    pub hint: String,
}

#[verifier::ext_equal]
pub struct ClientAndHintV {
    pub client: Seq<char>,
    pub hint: Seq<char>,
}

impl View for ClientAndHint {
    type V = ClientAndHintV;

    open spec fn view(&self) -> ClientAndHintV {
        ClientAndHintV { client: self.client@, hint: self.hint@ }
    }
}

impl DeepView for ClientAndHint {
    type V = ClientAndHintV;

    open spec fn deep_view(&self) -> ClientAndHintV {
        self.view()
    }
}

/// One event of the protocol, addressed to a single participant.
#[derive(Debug, PartialEq, Eq)]
pub enum Event {
    NewGame { id: String },
    YourData { id: String, username: String },
    OtherPlayers { players: Vec<ClientIdAndName> },
    Join { id: String, username: String },
    Quit { id: String },
    NewRoundGuesser,
    NewRoundHinter { word: String, guesser: String },
    HintReceived { client: String },
    AllHintsToGuesser { hints: Vec<ClientAndHint>, users_with_duplicates: Vec<String> },
    AllHints { duplicates: Vec<ClientAndHint>, hints: Vec<ClientAndHint> },
    GuessResult { correct: bool, word: String, guess: String },
}

#[verifier::ext_equal]
pub enum EventV {
    NewGame { id: Seq<char> },
    YourData { id: Seq<char>, username: Seq<char> },
    OtherPlayers { players: Seq<ClientIdAndNameV> },
    Join { id: Seq<char>, username: Seq<char> },
    Quit { id: Seq<char> },
    NewRoundGuesser,
    NewRoundHinter { word: Seq<char>, guesser: Seq<char> },
    HintReceived { client: Seq<char> },
    AllHintsToGuesser { hints: Seq<ClientAndHintV>, users_with_duplicates: Seq<Seq<char>> },
    AllHints { duplicates: Seq<ClientAndHintV>, hints: Seq<ClientAndHintV> },
    GuessResult { correct: bool, word: Seq<char>, guess: Seq<char> },
}

impl View for Event {
    type V = EventV;

    open spec fn view(&self) -> EventV {
        match self {
            Event::NewGame { id } => EventV::NewGame { id: id@ },
            Event::YourData { id, username } => EventV::YourData {
                id: id@,
                username: username@,
            },
            Event::OtherPlayers { players } => EventV::OtherPlayers {
                players: players.deep_view(),
            },
            Event::Join { id, username } => EventV::Join { id: id@, username: username@ },
            Event::Quit { id } => EventV::Quit { id: id@ },
            Event::NewRoundGuesser => EventV::NewRoundGuesser,
            Event::NewRoundHinter { word, guesser } => EventV::NewRoundHinter {
                word: word@,
                guesser: guesser@,
            },
            Event::HintReceived { client } => EventV::HintReceived { client: client@ },
            Event::AllHintsToGuesser { hints, users_with_duplicates } => {
                EventV::AllHintsToGuesser {
                    hints: hints.deep_view(),
                    users_with_duplicates: users_with_duplicates.deep_view(),
                }
            },
            Event::AllHints { duplicates, hints } => EventV::AllHints {
                duplicates: duplicates.deep_view(),
                hints: hints.deep_view(),
            },
            Event::GuessResult { correct, word, guess } => EventV::GuessResult {
                correct: *correct,
                word: word@,
                guess: guess@,
            },
        }
    }
}

impl DeepView for Event {
    type V = EventV;

    open spec fn deep_view(&self) -> EventV {
        self.view()
    }
}

/// An event queued for delivery to the participant with id `to`.
#[derive(Debug, PartialEq, Eq)]
pub struct Outbound {
    pub to: String,
    pub event: Event,
}

#[verifier::ext_equal]
pub struct OutboundV {
    pub to: Seq<char>,
    pub event: EventV,
}

impl View for Outbound {
    type V = OutboundV;

    open spec fn view(&self) -> OutboundV {
        OutboundV { to: self.to@, event: self.event@ }
    }
}

impl DeepView for Outbound {
    type V = OutboundV;

    open spec fn deep_view(&self) -> OutboundV {
        self.view()
    }
}

} // verus!
