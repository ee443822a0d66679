//! The session data model: participants, sessions, and the session registry.

use vstd::prelude::*;

use crate::numbers::dec_rep;

verus! {

/// One connected participant of a session.
#[derive(Debug)]
pub struct Client {
    pub client_id: String,
    pub hint: Option<String>,
    pub username: String,
}

/// Mathematical model of a [`Client`].
#[verifier::ext_equal]
pub struct ClientV {
    pub id: Seq<char>,
    pub hint: Option<Seq<char>>,
    pub username: Seq<char>,
}

impl View for Client {
    type V = ClientV;

    open spec fn view(&self) -> ClientV {
        ClientV { id: self.client_id@, hint: self.hint.deep_view(), username: self.username@ }
    }
}

impl DeepView for Client {
    type V = ClientV;

    open spec fn deep_view(&self) -> ClientV {
        self.view()
    }
}

/// Round state of a session: rotation order and the active word.
#[derive(Debug)]
pub struct GameState {
    pub client_turns: Vec<String>,
    pub word_to_guess: Option<String>,
}

/// One live session.
#[derive(Debug)]
pub struct Game {
    pub game_id: String,
    pub game_state: GameState,
    pub clients: Vec<Client>,
}

/// Mathematical model of a [`Game`].
#[verifier::ext_equal]
pub struct GameV {
    pub id: Seq<char>,
    pub word: Option<Seq<char>>,
    pub turns: Seq<Seq<char>>,
    pub roster: Seq<ClientV>,
}

impl View for Game {
    type V = GameV;

    open spec fn view(&self) -> GameV {
        GameV {
            id: self.game_id@,
            word: self.game_state.word_to_guess.deep_view(),
            turns: self.game_state.client_turns.deep_view(),
            roster: self.clients.deep_view(),
        }
    }
}

impl DeepView for Game {
    type V = GameV;

    open spec fn deep_view(&self) -> GameV {
        self.view()
    }
}

/// The registry of all live sessions.
#[derive(Debug)]
pub struct GameContainer {
    pub games_created: u32,
    pub live_games: Vec<Game>,
    pub test_word: Option<String>,
}

/// Mathematical model of a [`GameContainer`].
#[verifier::ext_equal]
pub struct ContainerV {
    pub created: u32,
    pub games: Seq<GameV>,
    pub test_word: Option<Seq<char>>,
}

impl View for GameContainer {
    type V = ContainerV;

    open spec fn view(&self) -> ContainerV {
        ContainerV {
            created: self.games_created,
            games: self.live_games.deep_view(),
            test_word: self.test_word.deep_view(),
        }
    }
}

/// The ids of the roster members, in roster order.
pub open spec fn ids_of(roster: Seq<ClientV>) -> Seq<Seq<char>> {
    roster.map_values(|c: ClientV| c.id)
}

/// No two roster members share an id.
pub open spec fn distinct_ids(roster: Seq<ClientV>) -> bool {
    forall|i: int, j: int| 0 <= i < j < roster.len() ==> roster[i].id != roster[j].id
}

pub open spec fn in_roster(roster: Seq<ClientV>, id: Seq<char>) -> bool {
    exists|i: int| 0 <= i < roster.len() && roster[i].id == id
}

impl GameV {
    /// Well-formedness: roster ids are distinct and the turn order is a
    /// permutation of them.
    pub open spec fn wf(self) -> bool {
        &&& distinct_ids(self.roster)
        &&& self.turns.to_multiset() == ids_of(self.roster).to_multiset()
    }
}

/// The id was allocated by the registry's counter while it stood at most at
/// `created`.
pub open spec fn id_minted(id: Seq<char>, created: u32) -> bool {
    exists|k: nat| 1 <= k <= created && id == #[trigger] dec_rep(1000 + k)
}

impl ContainerV {
    pub open spec fn wf(self) -> bool {
        &&& forall|i: int| 0 <= i < self.games.len() ==> (#[trigger] self.games[i]).wf()
        &&& forall|i: int, j: int|
            0 <= i < j < self.games.len() ==> self.games[i].id != self.games[j].id
        &&& forall|i: int|
            0 <= i < self.games.len() ==> id_minted((#[trigger] self.games[i]).id, self.created)
    }

    pub open spec fn has_game(self, id: Seq<char>) -> bool {
        exists|i: int| 0 <= i < self.games.len() && self.games[i].id == id
    }
}

/// Why a session-scoped request had no effect.
#[derive(Debug, PartialEq, Eq, Structural, Clone, Copy)]
pub enum GameError {
    SessionNotFound,
    ParticipantNotFound,
}

/// Index of the first roster member with the given id.
pub fn find_client_index(clients: &Vec<Client>, client_id: &String) -> (r: Option<usize>)
    ensures
        match r {
            Some(k) => {
                &&& k < clients@.len()
                &&& clients.deep_view()[k as int].id == client_id@
                &&& forall|j: int| 0 <= j < k ==> clients.deep_view()[j].id != client_id@
            },
            None => !in_roster(clients.deep_view(), client_id@),
        },
{
    let n = clients.len();
    let mut i: usize = 0;
    while i < n
        invariant
            n == clients@.len(),
            i <= n,
            forall|j: int| 0 <= j < i ==> clients.deep_view()[j].id != client_id@,
        decreases n - i,
    {
        let c = &clients[i];
        if c.client_id == *client_id {
            return Some(i);
        }
        i += 1;
    }
    None
}

/// Index of the first live session with the given id.
pub fn find_game_index(games: &Vec<Game>, game_id: &String) -> (r: Option<usize>)
    ensures
        match r {
            Some(k) => {
                &&& k < games@.len()
                &&& games.deep_view()[k as int].id == game_id@
                &&& forall|j: int| 0 <= j < k ==> games.deep_view()[j].id != game_id@
            },
            None => forall|j: int|
                0 <= j < games@.len() ==> games.deep_view()[j].id != game_id@,
        },
{
    let n = games.len();
    let mut i: usize = 0;
    while i < n
        invariant
            n == games@.len(),
            i <= n,
            forall|j: int| 0 <= j < i ==> games.deep_view()[j].id != game_id@,
        decreases n - i,
    {
        let g = &games[i];
        if g.game_id == *game_id {
            return Some(i);
        }
        i += 1;
    }
    None
}

} // verus!
