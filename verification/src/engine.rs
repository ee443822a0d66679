//! The session protocol engine: creating and joining sessions, rounds,
//! hints, guesses, and disconnects.  Every operation mutates the registry
//! under the caller's exclusion and returns the ordered list of events to
//! deliver.

use vstd::prelude::*;
use vstd::string::StringExecFns;

use crate::actions::Action;
use crate::actions::ActionMessage;
use crate::dedup::clone_cah_vec;
use crate::dedup::dup_ids;
use crate::dedup::dup_payload;
use crate::dedup::is_all_hints_given;
use crate::dedup::num_hinted;
use crate::dedup::uniq_payload;
use crate::dedup::uniques_and_duplicates;
use crate::events::ClientAndHintV;
use crate::events::ClientIdAndName;
use crate::events::ClientIdAndNameV;
use crate::events::Event;
use crate::events::EventV;
use crate::events::Outbound;
use crate::events::OutboundV;
use crate::game::Client;
use crate::game::ClientV;
use crate::game::ContainerV;
use crate::game::Game;
use crate::game::GameContainer;
use crate::game::GameError;
use crate::game::GameV;
use crate::game::distinct_ids;
use crate::game::find_client_index;
use crate::game::find_game_index;
use crate::game::id_minted;
use crate::game::ids_of;
use crate::game::in_roster;
use crate::numbers::dec_rep;
use crate::numbers::lemma_dec_rep_injective;
use crate::numbers::u32_to_string;
use crate::strutil::lower_of;
use crate::strutil::lowercase;
use crate::words::WordGenerator;

verus! {

/// The display name of the roster member carrying the given id.
pub open spec fn username_in(roster: Seq<ClientV>, id: Seq<char>) -> Seq<char> {
    let i = choose|i: int| 0 <= i < roster.len() && roster[i].id == id;
    roster[i].username
}

pub proof fn lemma_username_in(roster: Seq<ClientV>, k: int)
    requires
        distinct_ids(roster),
        0 <= k < roster.len(),
    ensures
        username_in(roster, roster[k].id) == roster[k].username,
{
    let id = roster[k].id;
    assert(0 <= k < roster.len() && roster[k].id == id);
    let i = choose|i: int| 0 <= i < roster.len() && roster[i].id == id;
    if i != k {
        assert(roster[i].id != roster[k].id);
    }
}

/// The `other_players` payload: the members already present, in turn order.
pub open spec fn others_list(g: GameV) -> Seq<ClientIdAndNameV> {
    Seq::new(
        g.turns.len(),
        |i: int| ClientIdAndNameV { id: g.turns[i], username: username_in(g.roster, g.turns[i]) },
    )
}

/// The `join` notifications to every member already present, roster order.
pub open spec fn join_notifications(roster: Seq<ClientV>, cid: Seq<char>, uname: Seq<char>) -> Seq<
    OutboundV,
> {
    Seq::new(
        roster.len(),
        |i: int| OutboundV { to: roster[i].id, event: EventV::Join { id: cid, username: uname } },
    )
}

/// Everything sent when a participant joins an existing session: `join` to
/// everyone present, then `other_players` to the joiner (unless the session
/// was empty).
pub open spec fn join_events(g: GameV, cid: Seq<char>, uname: Seq<char>) -> Seq<OutboundV> {
    join_notifications(g.roster, cid, uname) + if g.roster.len() > 0 {
        seq![OutboundV { to: cid, event: EventV::OtherPlayers { players: others_list(g) } }]
    } else {
        Seq::<OutboundV>::empty()
    }
}

/// The session after a join: the participant is appended to the roster and
/// to the tail of the turn order.
pub open spec fn join_state(g: GameV, cid: Seq<char>, uname: Seq<char>) -> GameV {
    GameV {
        turns: g.turns.push(cid),
        roster: g.roster.push(ClientV { id: cid, hint: None, username: uname }),
        ..g
    }
}

/// The state and events shared by registry operations: counter and test word
/// untouched, and no session vanishes or appears.
pub open spec fn frame_ok(pre: ContainerV, post: ContainerV) -> bool {
    &&& post.created == pre.created
    &&& post.test_word == pre.test_word
    &&& post.games.len() == pre.games.len()
}

/// Sessions other than the addressed one are untouched.
pub open spec fn untouched_others(pre: ContainerV, post: ContainerV, gid: Seq<char>) -> bool {
    forall|j: int|
        0 <= j < pre.games.len() && (#[trigger] pre.games[j]).id != gid ==> post.games[j]
            == pre.games[j]
}

/// The events of `r`, or none when the operation failed.
pub open spec fn evs_of(r: Result<Vec<Outbound>, GameError>) -> Seq<OutboundV> {
    match r {
        Ok(e) => e.deep_view(),
        Err(_) => Seq::<OutboundV>::empty(),
    }
}

/// Builds the `your_data` event for a newly attached participant.
pub fn user_data_message(client_id: &String, username: &String) -> (e: Event)
    ensures
        e@ == (EventV::YourData { id: client_id@, username: username@ }),
{
    Event::YourData { id: client_id.clone(), username: username.clone() }
}

/// Builds the `other_players` event from the session's turn order.
pub fn other_clients_message(game: &Game) -> (e: Event)
    requires
        game@.wf(),
    ensures
        e@ == (EventV::OtherPlayers { players: others_list(game@) }),
{
    let turns = &game.game_state.client_turns;
    let n = turns.len();
    let mut players: Vec<ClientIdAndName> = Vec::new();
    let mut i: usize = 0;
    proof {
        assert(players.deep_view() =~= others_list(game@).take(0));
    }
    while i < n
        invariant
            game@.wf(),
            n == game@.turns.len(),
            n == turns@.len(),
            turns@ == game.game_state.client_turns@,
            i <= n,
            players.deep_view() == others_list(game@).take(i as int),
        decreases n - i,
    {
        let turn_id = &turns[i];
        proof {
            let gv = game@;
            assert(gv.turns[i as int] == game.game_state.client_turns@[i as int]@);
            assert(turns@[i as int] == game.game_state.client_turns@[i as int]);
            assert(turn_id@ == gv.turns[i as int]);
            gv.turns.to_multiset_ensures();
            ids_of(gv.roster).to_multiset_ensures();
            assert(gv.turns.contains(gv.turns[i as int]));
            assert(gv.turns.to_multiset().count(gv.turns[i as int]) > 0);
            assert(ids_of(gv.roster).contains(gv.turns[i as int]));
        }
        let k = match find_client_index(&game.clients, turn_id) {
            Some(k) => k,
            None => {
                proof {
                    let gv = game@;
                    let t = choose|t: int|
                        0 <= t < ids_of(gv.roster).len() && ids_of(gv.roster)[t] == gv.turns[i as int];
                    assert(gv.roster[t].id == gv.turns[i as int]);
                    assert(in_roster(gv.roster, turn_id@));
                }
                vstd::pervasive::unreached()
            },
        };
        let ghost old_players = players.deep_view();
        players.push(
            ClientIdAndName { id: turn_id.clone(), username: game.clients[k].username.clone() },
        );
        proof {
            let gv = game@;
            assert(gv.roster[k as int] == game.clients@[k as int]@);
            lemma_username_in(gv.roster, k as int);
            assert(players.deep_view() =~= old_players.push(
                ClientIdAndNameV {
                    id: gv.turns[i as int],
                    username: username_in(gv.roster, gv.turns[i as int]),
                },
            ));
            assert(players.deep_view() =~= others_list(gv).take(i + 1));
        }
        i += 1;
    }
    proof {
        assert(others_list(game@).take(n as int) =~= others_list(game@));
    }
    Event::OtherPlayers { players }
}

/// A deterministic participant id derived from the display name.
pub fn create_client_id(username: &String) -> (r: String)
    ensures
        r@ == username@ + "_id"@,
{
    let mut s = username.clone();
    s.append("_id");
    s
}

/// Relies on `uuid::Uuid::new_v4` and the `Simple` format: a fresh random
/// identifier rendered as 32 lowercase hexadecimal characters.
#[verifier::external_body]
fn random_id() -> (r: String)
    ensures
        r@.len() == 32,
{
    uuid::Uuid::new_v4().simple().to_string()
}

/// Builds a fresh participant with a random id.
pub fn create_client(username: String) -> (r: (String, Client))
    ensures
        r.1@.id == r.0@,
        r.1@.username == username@,
        r.1@.hint is None,
        r.0@.len() == 32,
{
    let client_id = random_id();
    let new_client = Client { client_id: client_id.clone(), hint: None, username };
    (client_id, new_client)
}

/// Builds a session holding exactly the creating participant.
pub fn create_game_with_id(game_id: &String, client_id: String, client: Client) -> (g: Game)
    requires
        client@.id == client_id@,
    ensures
        g@ == (GameV {
            id: game_id@,
            word: None,
            turns: seq![client_id@],
            roster: seq![client@],
        }),
        g@.wf(),
{
    let mut clients: Vec<Client> = Vec::new();
    let ghost cv = client@;
    clients.push(client);
    let mut turns: Vec<String> = Vec::new();
    turns.push(client_id);
    let game_state = crate::game::GameState { client_turns: turns, word_to_guess: None };
    let new_game = Game { game_id: game_id.clone(), game_state, clients };
    proof {
        assert(new_game@.roster =~= seq![cv]);
        assert(new_game@.turns =~= seq![cv.id]);
        assert(new_game@ =~~= (GameV {
            id: game_id@,
            word: None,
            turns: seq![cv.id],
            roster: seq![cv],
        }));
        assert(ids_of(seq![cv]) =~= seq![cv.id]);
    }
    new_game
}

/// Allocates the next session id: the counter is advanced and rendered as
/// `1000 + counter` in decimal.
pub fn create_new_game_id(games: &mut GameContainer) -> (id: String)
    requires
        old(games).games_created <= u32::MAX - 1001,
    ensures
        final(games).games_created == old(games).games_created + 1,
        final(games)@.games == old(games)@.games,
        final(games)@.test_word == old(games)@.test_word,
        id@ == dec_rep((1000 + old(games).games_created + 1) as nat),
{
    games.games_created += 1;
    u32_to_string(1000 + games.games_created)
}

/// Creates a session for the given participant and returns the new session
/// id together with the `new_game` and `your_data` events for the creator.
pub fn new_game(games: &mut GameContainer, client_id: String, username: String) -> (r: (
    String,
    Vec<Outbound>,
))
    requires
        old(games).games_created <= u32::MAX - 1001,
    ensures
        final(games)@.created == old(games)@.created + 1,
        final(games)@.test_word == old(games)@.test_word,
        r.0@ == dec_rep((1000 + old(games)@.created + 1) as nat),
        final(games)@.games == old(games)@.games.push(
            GameV {
                id: r.0@,
                word: None,
                turns: seq![client_id@],
                roster: seq![ClientV { id: client_id@, hint: None, username: username@ }],
            },
        ),
        r.1.deep_view() == seq![
            OutboundV { to: client_id@, event: EventV::NewGame { id: r.0@ } },
            OutboundV { to: client_id@, event: EventV::YourData { id: client_id@, username: username@ } },
        ],
        old(games)@.wf() ==> final(games)@.wf(),
{
    let ghost pre = games@;
    let new_game_id = create_new_game_id(games);
    let new_client = Client {
        client_id: client_id.clone(),
        hint: None,
        username: username.clone(),
    };
    let ghost cv = new_client@;
    let g = create_game_with_id(&new_game_id, client_id.clone(), new_client);
    let ghost gv = g@;
    let ghost old_games_seq = games@.games;
    games.live_games.push(g);
    let mut evs: Vec<Outbound> = Vec::new();
    evs.push(Outbound { to: client_id.clone(), event: Event::NewGame { id: new_game_id.clone() } });
    let user_data = user_data_message(&client_id, &username);
    evs.push(Outbound { to: client_id, event: user_data });
    proof {
        assert(games@.games =~= old_games_seq.push(gv));
        assert(games@.games =~~= pre.games.push(
            GameV {
                id: new_game_id@,
                word: None,
                turns: seq![cv.id],
                roster: seq![cv],
            },
        ));
        assert(evs.deep_view() =~~= seq![
            OutboundV { to: cv.id, event: EventV::NewGame { id: new_game_id@ } },
            OutboundV { to: cv.id, event: EventV::YourData { id: cv.id, username: username@ } },
        ]);
        if pre.wf() {
            let post = games@;
            let newk = (pre.created + 1) as nat;
            assert forall|i: int| 0 <= i < post.games.len() implies (#[trigger] post.games[i]).wf()
                && id_minted(post.games[i].id, post.created) by {
                if i < pre.games.len() {
                    assert(pre.games[i].wf());
                    assert(id_minted(pre.games[i].id, pre.created));
                    let k = choose|k: nat|
                        1 <= k <= pre.created && pre.games[i].id == #[trigger] dec_rep(1000 + k);
                    assert(1 <= k <= post.created && post.games[i].id == dec_rep(1000 + k));
                } else {
                    assert(post.games[i] == gv);
                    assert(1 <= newk <= post.created && gv.id == dec_rep(1000 + newk));
                }
            }
            assert forall|i: int, j: int|
                0 <= i < j < post.games.len() implies post.games[i].id != post.games[j].id by {
                if j < pre.games.len() {
                    assert(pre.games[i].id != pre.games[j].id);
                } else {
                    assert(id_minted(pre.games[i].id, pre.created));
                    let k = choose|k: nat|
                        1 <= k <= pre.created && pre.games[i].id == #[trigger] dec_rep(1000 + k);
                    lemma_dec_rep_injective(1000 + k, 1000 + newk);
                }
            }
        }
    }
    (new_game_id, evs)
}

/// Inserts a participant into an existing session: everyone present is
/// notified with `join`, the joiner receives `other_players` (built from the
/// turn order before the insertion), and the roster and turn order grow by
/// the joiner.
pub fn add_client_to_game(client_id: String, username: String, games: &mut GameContainer, game_id: &String) -> (r: Result<
    Vec<Outbound>,
    GameError,
>)
    requires
        old(games)@.wf(),
        forall|j: int|
            0 <= j < old(games)@.games.len() && (#[trigger] old(games)@.games[j]).id == game_id@
                ==> !in_roster(old(games)@.games[j].roster, client_id@),
    ensures
        final(games)@.wf(),
        frame_ok(old(games)@, final(games)@),
        untouched_others(old(games)@, final(games)@, game_id@),
        r is Err <==> !old(games)@.has_game(game_id@),
        r is Err ==> r->Err_0 == GameError::SessionNotFound && final(games)@.games == old(
            games,
        )@.games,
        forall|j: int|
            0 <= j < old(games)@.games.len() && (#[trigger] old(games)@.games[j]).id == game_id@
                ==> final(games)@.games[j] == join_state(
                old(games)@.games[j],
                client_id@,
                username@,
            ) && evs_of(r) == join_events(old(games)@.games[j], client_id@, username@),
{
    let ghost pre = games@;
    let j = match find_game_index(&games.live_games, game_id) {
        None => {
            return Err(GameError::SessionNotFound);
        },
        Some(j) => j,
    };
    let ghost gv = pre.games[j as int];
    let mut g = games.live_games.remove(j);
    proof {
        assert(g@ == gv);
        assert(gv.wf());
    }
    let mut evs: Vec<Outbound> = Vec::new();
    let n = g.clients.len();
    let mut i: usize = 0;
    proof {
        assert(evs.deep_view() =~= join_notifications(gv.roster, client_id@, username@).take(0));
    }
    while i < n
        invariant
            n == g.clients@.len(),
            i <= n,
            g@ == gv,
            evs.deep_view() == join_notifications(gv.roster, client_id@, username@).take(i as int),
        decreases n - i,
    {
        let c = &g.clients[i];
        let ghost old_evs = evs.deep_view();
        evs.push(
            Outbound {
                to: c.client_id.clone(),
                event: Event::Join { id: client_id.clone(), username: username.clone() },
            },
        );
        proof {
            assert(gv.roster[i as int] == g.clients@[i as int]@);
            assert(evs.deep_view() =~= old_evs.push(
                OutboundV {
                    to: gv.roster[i as int].id,
                    event: EventV::Join { id: client_id@, username: username@ },
                },
            ));
            assert(evs.deep_view() =~= join_notifications(gv.roster, client_id@, username@).take(
                i + 1,
            ));
        }
        i += 1;
    }
    proof {
        assert(join_notifications(gv.roster, client_id@, username@).take(n as int)
            =~= join_notifications(gv.roster, client_id@, username@));
    }
    if g.clients.len() > 0 {
        let op = other_clients_message(&g);
        let ghost old_evs = evs.deep_view();
        evs.push(Outbound { to: client_id.clone(), event: op });
        proof {
            assert(evs.deep_view() =~= old_evs.push(
                OutboundV { to: client_id@, event: EventV::OtherPlayers { players: others_list(gv) } },
            ));
            assert(evs.deep_view() =~= join_events(gv, client_id@, username@));
        }
    } else {
        proof {
            assert(join_events(gv, client_id@, username@) =~= join_notifications(
                gv.roster,
                client_id@,
                username@,
            ));
        }
    }
    let ghost cv = ClientV { id: client_id@, hint: None, username: username@ };
    let new_member = Client { client_id: client_id.clone(), hint: None, username };
    g.clients.push(new_member);
    g.game_state.client_turns.push(client_id);
    proof {
        assert(g@.roster =~= gv.roster.push(cv));
        assert(g@.turns =~= gv.turns.push(cv.id));
        assert(g@ =~~= join_state(gv, cv.id, cv.username));
        // The joined session is still well-formed: the id is fresh and both
        // sides of the permutation grow by it.
        assert(!in_roster(gv.roster, cv.id));
        assert(distinct_ids(g@.roster)) by {
            assert(forall|x: int|
                0 <= x < gv.roster.len() ==> (#[trigger] gv.roster[x]).id != cv.id);
            assert(forall|x: int|
                0 <= x < gv.roster.len() ==> g@.roster[x] == gv.roster[x]);
        }
        assert(ids_of(g@.roster) =~= ids_of(gv.roster).push(cv.id));
        gv.turns.to_multiset_ensures();
        ids_of(gv.roster).to_multiset_ensures();
        vstd::seq_lib::to_multiset_build(gv.turns, cv.id);
        vstd::seq_lib::to_multiset_build(ids_of(gv.roster), cv.id);
        assert(g@.turns.to_multiset() =~= ids_of(g@.roster).to_multiset());
        assert(g@.wf());
    }
    let ghost g2 = g@;
    games.live_games.insert(j, g);
    proof {
        assert(games@.games =~= pre.games.update(j as int, g2));
        assert(games@.wf());
    }
    Ok(evs)
}

/// Attaches a joining participant to the session: the join notifications of
/// [`add_client_to_game`] followed by the joiner's own `your_data`.  A
/// missing session id leaves the registry untouched and yields
/// `SessionNotFound`; the connection then stays outside any session.
pub fn join_game(games: &mut GameContainer, game_id: &String, client_id: String, username: String) -> (r: Result<
    Vec<Outbound>,
    GameError,
>)
    requires
        old(games)@.wf(),
        forall|j: int|
            0 <= j < old(games)@.games.len() && (#[trigger] old(games)@.games[j]).id == game_id@
                ==> !in_roster(old(games)@.games[j].roster, client_id@),
    ensures
        final(games)@.wf(),
        frame_ok(old(games)@, final(games)@),
        untouched_others(old(games)@, final(games)@, game_id@),
        r is Err <==> !old(games)@.has_game(game_id@),
        r is Err ==> r->Err_0 == GameError::SessionNotFound && final(games)@.games == old(
            games,
        )@.games,
        forall|j: int|
            0 <= j < old(games)@.games.len() && (#[trigger] old(games)@.games[j]).id == game_id@
                ==> final(games)@.games[j] == join_state(
                old(games)@.games[j],
                client_id@,
                username@,
            ) && evs_of(r) == join_events(old(games)@.games[j], client_id@, username@).push(
                OutboundV {
                    to: client_id@,
                    event: EventV::YourData { id: client_id@, username: username@ },
                },
            ),
{
    let cid = client_id.clone();
    let uname = username.clone();
    match add_client_to_game(client_id, username, games, game_id) {
        Ok(mut evs) => {
            let ghost old_evs = evs.deep_view();
            let user_data = user_data_message(&cid, &uname);
            evs.push(Outbound { to: cid, event: user_data });
            proof {
                assert(evs.deep_view() =~= old_evs.push(
                    OutboundV { to: cid@, event: EventV::YourData { id: cid@, username: uname@ } },
                ));
            }
            Ok(evs)
        },
        Err(e) => Err(e),
    }
}

/// The guesser's position in the turn order: the head when roles roll, else
/// the tail (the previous guesser keeps the role).
pub open spec fn spec_guesser_index(turns: Seq<Seq<char>>, roll_roles: bool) -> int {
    if roll_roles {
        0
    } else {
        turns.len() - 1
    }
}

/// All round hints are forgotten at round start.
pub open spec fn clear_hints(roster: Seq<ClientV>) -> Seq<ClientV> {
    roster.map_values(|c: ClientV| ClientV { hint: None::<Seq<char>>, ..c })
}

/// The session after a round start: the word is set, the guesser moves from
/// its position to the tail of the turn order, and every hint is cleared.
pub open spec fn start_state(g: GameV, word: Seq<char>, roll_roles: bool) -> GameV {
    let gi = spec_guesser_index(g.turns, roll_roles);
    GameV {
        word: Some(word),
        turns: g.turns.remove(gi).push(g.turns[gi]),
        roster: clear_hints(g.roster),
        ..g
    }
}

/// The round-start notifications: `new_round` with the guesser role to the
/// guesser, then `new_round` with the word and the guesser's id to every
/// hinter, in turn order.
pub open spec fn start_events(g: GameV, word: Seq<char>, roll_roles: bool) -> Seq<OutboundV> {
    let gi = spec_guesser_index(g.turns, roll_roles);
    let guesser = g.turns[gi];
    let hinters = g.turns.remove(gi);
    seq![OutboundV { to: guesser, event: EventV::NewRoundGuesser }] + Seq::new(
        hinters.len(),
        |i: int| OutboundV {
            to: hinters[i],
            event: EventV::NewRoundHinter { word: word, guesser: guesser },
        },
    )
}

/// The effect of a round start on the addressed session: no-op when the
/// turn order is empty (a defunct session), else the state advances by
/// [`start_state`] and exactly the [`start_events`] are emitted.
pub open spec fn start_round_applied(
    pre: ContainerV,
    post: ContainerV,
    evs: Seq<OutboundV>,
    ok: bool,
    gid: Seq<char>,
    roll_roles: bool,
    word: Seq<char>,
) -> bool {
    forall|j: int|
        0 <= j < pre.games.len() && (#[trigger] pre.games[j]).id == gid ==> ({
            let g = pre.games[j];
            if g.turns.len() == 0 {
                post.games[j] == g && ok && evs.len() == 0
            } else {
                post.games[j] == start_state(g, word, roll_roles) && ok && evs == start_events(
                    g,
                    word,
                    roll_roles,
                )
            }
        })
}

/// Selects the guesser's position in the turn order.
pub fn get_guesser_index(game_state: &crate::game::GameState, roll_roles: bool) -> (r: usize)
    requires
        game_state.client_turns@.len() > 0,
    ensures
        r == spec_guesser_index(game_state.client_turns.deep_view(), roll_roles),
        r < game_state.client_turns@.len(),
{
    if roll_roles {
        0
    } else {
        game_state.client_turns.len() - 1
    }
}

/// The word for the next round: the registry's test override when present,
/// else whatever the word source supplies.
pub fn choose_word<G: WordGenerator>(games: &GameContainer, word_generator: &mut G) -> (w: String)
    ensures
        games@.test_word is Some ==> w@ == games@.test_word->0,
{
    match &games.test_word {
        Some(tw) => tw.clone(),
        None => word_generator.get_random_word(),
    }
}

/// Starts a round with the given word (see [`start_next_round`] for the word
/// selection).  A session whose turn order is empty is defunct: the request
/// is accepted and nothing happens.
pub fn start_round_with_word(games: &mut GameContainer, game_id: &String, roll_roles: bool, word: String) -> (r: Result<
    Vec<Outbound>,
    GameError,
>)
    requires
        old(games)@.wf(),
    ensures
        final(games)@.wf(),
        frame_ok(old(games)@, final(games)@),
        untouched_others(old(games)@, final(games)@, game_id@),
        r is Err <==> !old(games)@.has_game(game_id@),
        r is Err ==> r->Err_0 == GameError::SessionNotFound && final(games)@.games == old(
            games,
        )@.games,
        start_round_applied(
            old(games)@,
            final(games)@,
            evs_of(r),
            r is Ok,
            game_id@,
            roll_roles,
            word@,
        ),
{
    let ghost pre = games@;
    let j = match find_game_index(&games.live_games, game_id) {
        None => {
            return Err(GameError::SessionNotFound);
        },
        Some(j) => j,
    };
    let ghost gv = pre.games[j as int];
    let mut g = games.live_games.remove(j);
    proof {
        assert(g@ == gv);
        assert(gv.wf());
    }
    if g.game_state.client_turns.len() == 0 {
        games.live_games.insert(j, g);
        proof {
            assert(games@.games =~= pre.games.update(j as int, gv));
            assert(games@.games =~= pre.games);
        }
        return Ok(Vec::new());
    }
    let gi = get_guesser_index(&g.game_state, roll_roles);
    let guesser_id = g.game_state.client_turns.remove(gi);
    let ghost rest = gv.turns.remove(gi as int);
    proof {
        assert(guesser_id@ == gv.turns[gi as int]);
        assert(g.game_state.client_turns.deep_view() =~= rest);
    }
    let mut evs: Vec<Outbound> = Vec::new();
    evs.push(Outbound { to: guesser_id.clone(), event: Event::NewRoundGuesser });
    proof {
        assert(evs.deep_view() =~= start_events(gv, word@, roll_roles).take(1));
    }
    let hn = g.game_state.client_turns.len();
    let mut i: usize = 0;
    while i < hn
        invariant
            hn == g.game_state.client_turns@.len(),
            i <= hn,
            g.game_state.client_turns.deep_view() == rest,
            rest == gv.turns.remove(spec_guesser_index(gv.turns, roll_roles)),
            0 <= spec_guesser_index(gv.turns, roll_roles) < gv.turns.len(),
            guesser_id@ == gv.turns[spec_guesser_index(gv.turns, roll_roles)],
            evs.deep_view() == start_events(gv, word@, roll_roles).take(i + 1),
        decreases hn - i,
    {
        let hid = &g.game_state.client_turns[i];
        let ghost old_evs = evs.deep_view();
        evs.push(
            Outbound {
                to: hid.clone(),
                event: Event::NewRoundHinter { word: word.clone(), guesser: guesser_id.clone() },
            },
        );
        proof {
            assert(hid@ == rest[i as int]);
            assert(evs.deep_view() =~= old_evs.push(
                OutboundV {
                    to: rest[i as int],
                    event: EventV::NewRoundHinter { word: word@, guesser: guesser_id@ },
                },
            ));
            assert(evs.deep_view() =~= start_events(gv, word@, roll_roles).take(i + 2));
        }
        i += 1;
    }
    proof {
        assert(start_events(gv, word@, roll_roles).take(hn + 1) =~= start_events(
            gv,
            word@,
            roll_roles,
        ));
    }
    g.game_state.client_turns.push(guesser_id);
    g.game_state.word_to_guess = Some(word);
    let cn = g.clients.len();
    let mut cleared: Vec<Client> = Vec::new();
    let ghost roster0 = gv.roster;
    proof {
        assert(cleared.deep_view() =~= clear_hints(roster0).take(0));
    }
    let mut ci: usize = 0;
    while ci < cn
        invariant
            cn == g.clients@.len(),
            ci <= cn,
            g.clients.deep_view() == roster0,
            cleared.deep_view() == clear_hints(roster0).take(ci as int),
        decreases cn - ci,
    {
        let c = &g.clients[ci];
        let ghost old_cleared = cleared.deep_view();
        cleared.push(
            Client { client_id: c.client_id.clone(), hint: None, username: c.username.clone() },
        );
        proof {
            assert(roster0[ci as int] == g.clients@[ci as int]@);
            assert(cleared.deep_view() =~= old_cleared.push(
                ClientV { id: roster0[ci as int].id, hint: None, username: roster0[ci as int].username },
            ));
            assert(cleared.deep_view() =~= clear_hints(roster0).take(ci + 1));
        }
        ci += 1;
    }
    proof {
        assert(clear_hints(roster0).take(cn as int) =~= clear_hints(roster0));
    }
    g.clients = cleared;
    proof {
        let gi_s = spec_guesser_index(gv.turns, roll_roles);
        assert(g.game_state.client_turns.deep_view() =~= rest.push(gv.turns[gi_s]));
        assert(g@ =~~= start_state(gv, word@, roll_roles));
        // Permutation is preserved: the guesser merely moves to the tail,
        // and clearing hints keeps every id in place.
        gv.turns.to_multiset_ensures();
        vstd::seq_lib::to_multiset_remove(gv.turns, gi_s);
        vstd::seq_lib::to_multiset_build(rest, gv.turns[gi_s]);
        assert(gv.turns.contains(gv.turns[gi_s]));
        assert(gv.turns.to_multiset().count(gv.turns[gi_s]) > 0);
        assert(g@.turns.to_multiset() =~= gv.turns.to_multiset());
        assert(ids_of(clear_hints(roster0)) =~= ids_of(roster0));
        assert(g@.wf());
    }
    let ghost g2 = g@;
    games.live_games.insert(j, g);
    proof {
        assert(games@.games =~= pre.games.update(j as int, g2));
        assert(games@.wf());
    }
    Ok(evs)
}

/// Starts the next round: picks the word (test override or the word
/// source), sets it, rotates the guesser role, and notifies every member of
/// its role.
pub fn start_next_round<G: WordGenerator>(game_id: &String, games: &mut GameContainer, roll_roles: bool, word_generator: &mut G) -> (r: Result<
    Vec<Outbound>,
    GameError,
>)
    requires
        old(games)@.wf(),
    ensures
        final(games)@.wf(),
        frame_ok(old(games)@, final(games)@),
        untouched_others(old(games)@, final(games)@, game_id@),
        r is Err <==> !old(games)@.has_game(game_id@),
        r is Err ==> r->Err_0 == GameError::SessionNotFound && final(games)@.games == old(
            games,
        )@.games,
        exists|word: Seq<char>|
            #[trigger] start_round_applied(
                old(games)@,
                final(games)@,
                evs_of(r),
                r is Ok,
                game_id@,
                roll_roles,
                word,
            ) && (old(games)@.test_word is Some ==> word == old(games)@.test_word->0),
{
    let word = choose_word(games, word_generator);
    let ghost w = word@;
    let r = start_round_with_word(games, game_id, roll_roles, word);
    proof {
        assert(start_round_applied(
            old(games)@,
            games@,
            evs_of(r),
            r is Ok,
            game_id@,
            roll_roles,
            w,
        ));
    }
    r
}

/// The `hint_received` notifications: one to every roster member but the
/// submitter, in roster order.
pub open spec fn hint_events(roster: Seq<ClientV>, cid: Seq<char>) -> Seq<OutboundV>
    decreases roster.len(),
{
    if roster.len() == 0 {
        Seq::empty()
    } else {
        hint_events(roster.drop_last(), cid) + if roster.last().id == cid {
            Seq::<OutboundV>::empty()
        } else {
            seq![OutboundV { to: roster.last().id, event: EventV::HintReceived { client: cid } }]
        }
    }
}

/// The end-of-round summaries: `all_hints_to_guesser` to the tail of the
/// turn order (the guesser), then `all_hints` to every other member in turn
/// order.
pub open spec fn summary_events(turns: Seq<Seq<char>>, roster: Seq<ClientV>) -> Seq<OutboundV> {
    seq![
        OutboundV {
            to: turns.last(),
            event: EventV::AllHintsToGuesser {
                hints: uniq_payload(roster),
                users_with_duplicates: dup_ids(roster),
            },
        },
    ] + Seq::new(
        (turns.len() - 1) as nat,
        |i: int| OutboundV {
            to: turns[i],
            event: EventV::AllHints {
                duplicates: dup_payload(roster),
                hints: uniq_payload(roster),
            },
        },
    )
}

/// The session after a hint: the submitter's hint is set, all else as it
/// was.
pub open spec fn add_hint_state(g: GameV, k: int, text: Seq<char>) -> GameV {
    GameV { roster: g.roster.update(k, ClientV { hint: Some(text), ..g.roster[k] }), ..g }
}

/// Completeness fires exactly when this submission is the submitter's first
/// of the round and brings the count to all-but-one.
pub open spec fn hint_fired(g: GameV, k: int, text: Seq<char>) -> bool {
    let g2 = add_hint_state(g, k, text);
    g.roster[k].hint is None && num_hinted(g2.roster) + 1 == g2.roster.len()
}

/// Everything sent for one hint submission: the `hint_received`
/// notifications, and the summaries when completeness fires.
pub open spec fn add_hint_events(g: GameV, k: int, text: Seq<char>) -> Seq<OutboundV> {
    let g2 = add_hint_state(g, k, text);
    hint_events(g2.roster, g.roster[k].id) + if hint_fired(g, k, text) {
        summary_events(g2.turns, g2.roster)
    } else {
        Seq::<OutboundV>::empty()
    }
}

/// The effect of a hint submission on the addressed session.
pub open spec fn add_hint_applied(
    pre: ContainerV,
    post: ContainerV,
    evs: Seq<OutboundV>,
    gid: Seq<char>,
    cid: Seq<char>,
    text: Seq<char>,
) -> bool {
    forall|j: int|
        0 <= j < pre.games.len() && (#[trigger] pre.games[j]).id == gid ==> ({
            let g = pre.games[j];
            if !in_roster(g.roster, cid) {
                post.games[j] == g && evs.len() == 0
            } else {
                forall|k: int|
                    0 <= k < g.roster.len() && (#[trigger] g.roster[k]).id == cid ==> post.games[j]
                        == add_hint_state(g, k, text) && evs == add_hint_events(g, k, text)
            }
        })
}

/// Stores the submitter's hint, notifies everyone else, and, when this
/// submission completes the round's hints, sends the summaries.
pub fn add_hint(client_id: &String, hint: &String, game_id: &String, games: &mut GameContainer) -> (r: Result<
    Vec<Outbound>,
    GameError,
>)
    requires
        old(games)@.wf(),
    ensures
        final(games)@.wf(),
        frame_ok(old(games)@, final(games)@),
        untouched_others(old(games)@, final(games)@, game_id@),
        (r is Err && r->Err_0 == GameError::SessionNotFound) <==> !old(games)@.has_game(game_id@),
        (r is Err && r->Err_0 == GameError::ParticipantNotFound) <==> (exists|j: int|
            0 <= j < old(games)@.games.len() && (#[trigger] old(games)@.games[j]).id == game_id@
                && !in_roster(old(games)@.games[j].roster, client_id@)),
        r is Err ==> final(games)@.games == old(games)@.games,
        add_hint_applied(
            old(games)@,
            final(games)@,
            evs_of(r),
            game_id@,
            client_id@,
            hint@,
        ),
{
    let ghost pre = games@;
    let j = match find_game_index(&games.live_games, game_id) {
        None => {
            return Err(GameError::SessionNotFound);
        },
        Some(j) => j,
    };
    let ghost gv = pre.games[j as int];
    let mut g = games.live_games.remove(j);
    proof {
        assert(g@ == gv);
        assert(gv.wf());
    }
    let k = match find_client_index(&g.clients, client_id) {
        None => {
            games.live_games.insert(j, g);
            proof {
                assert(games@.games =~= pre.games.update(j as int, gv));
                assert(games@.games =~= pre.games);
            }
            return Err(GameError::ParticipantNotFound);
        },
        Some(k) => k,
    };
    let mut c = g.clients.remove(k);
    let had_hint = c.hint.is_some();
    c.hint = Some(hint.clone());
    g.clients.insert(k, c);
    let ghost roster2 = gv.roster.update(
        k as int,
        ClientV { hint: Some(hint@), ..gv.roster[k as int] },
    );
    proof {
        assert(g.clients.deep_view() =~= roster2);
        assert(g@ =~~= add_hint_state(gv, k as int, hint@));
    }
    let mut evs: Vec<Outbound> = Vec::new();
    let n = g.clients.len();
    let mut i: usize = 0;
    proof {
        assert(evs.deep_view() =~= hint_events(roster2.take(0), client_id@));
    }
    while i < n
        invariant
            n == g.clients@.len(),
            i <= n,
            g.clients.deep_view() == roster2,
            evs.deep_view() == hint_events(roster2.take(i as int), client_id@),
        decreases n - i,
    {
        let c = &g.clients[i];
        proof {
            assert(roster2.take(i + 1).drop_last() =~= roster2.take(i as int));
            assert(roster2.take(i + 1).last() == roster2[i as int]);
            assert(roster2[i as int] == g.clients@[i as int]@);
        }
        if c.client_id == *client_id {
            proof {
                assert(evs.deep_view() =~= hint_events(roster2.take(i + 1), client_id@));
            }
        } else {
            let ghost old_evs = evs.deep_view();
            evs.push(
                Outbound {
                    to: c.client_id.clone(),
                    event: Event::HintReceived { client: client_id.clone() },
                },
            );
            proof {
                assert(evs.deep_view() =~= old_evs.push(
                    OutboundV {
                        to: roster2[i as int].id,
                        event: EventV::HintReceived { client: client_id@ },
                    },
                ));
                assert(evs.deep_view() =~= hint_events(roster2.take(i + 1), client_id@));
            }
        }
        i += 1;
    }
    proof {
        assert(roster2.take(n as int) =~= roster2);
    }
    let complete = is_all_hints_given(&g.clients);
    let fire = !had_hint && complete;
    proof {
        assert(fire == hint_fired(gv, k as int, hint@));
    }
    if fire {
        let (unique_hinter_clients, duplicate_hinter_clients, duplicate_hinter_ids) =
            uniques_and_duplicates(&g.clients);
        let tlen = g.game_state.client_turns.len();
        proof {
            gv.turns.to_multiset_ensures();
            ids_of(gv.roster).to_multiset_ensures();
            assert(gv.turns.len() == ids_of(gv.roster).len());
            assert(tlen > 0);
        }
        let guesser = &g.game_state.client_turns[tlen - 1];
        let ghost old_evs = evs.deep_view();
        let ghost summ = summary_events(gv.turns, roster2);
        evs.push(
            Outbound {
                to: guesser.clone(),
                event: Event::AllHintsToGuesser {
                    hints: clone_cah_vec(&unique_hinter_clients),
                    users_with_duplicates: duplicate_hinter_ids,
                },
            },
        );
        proof {
            assert(gv.turns[tlen - 1] == g.game_state.client_turns@[tlen - 1]@);
            assert(gv.turns.last() == gv.turns[tlen - 1]);
            assert(evs.deep_view() =~= old_evs + summ.take(1));
        }
        let mut h: usize = 0;
        while h < tlen - 1
            invariant
                tlen == g.game_state.client_turns@.len(),
                tlen == gv.turns.len(),
                tlen > 0,
                h <= tlen - 1,
                g.game_state.client_turns.deep_view() == gv.turns,
                unique_hinter_clients.deep_view() == uniq_payload(roster2),
                duplicate_hinter_clients.deep_view() == dup_payload(roster2),
                summ == summary_events(gv.turns, roster2),
                old_evs == hint_events(roster2, client_id@),
                evs.deep_view() == old_evs + summ.take(h + 1),
            decreases tlen - 1 - h,
        {
            let hid = &g.game_state.client_turns[h];
            let ghost old_evs2 = evs.deep_view();
            evs.push(
                Outbound {
                    to: hid.clone(),
                    event: Event::AllHints {
                        duplicates: clone_cah_vec(&duplicate_hinter_clients),
                        hints: clone_cah_vec(&unique_hinter_clients),
                    },
                },
            );
            proof {
                assert(gv.turns[h as int] == g.game_state.client_turns@[h as int]@);
                assert(evs.deep_view() =~= old_evs2.push(summ[h + 1]));
                assert(evs.deep_view() =~= old_evs + summ.take(h + 2));
            }
            h += 1;
        }
        proof {
            assert(summ.take((tlen - 1) + 1) =~= summ);
            assert(evs.deep_view() =~= hint_events(roster2, client_id@) + summ);
            assert(evs.deep_view() =~= add_hint_events(gv, k as int, hint@));
        }
    } else {
        proof {
            assert(evs.deep_view() =~= add_hint_events(gv, k as int, hint@));
        }
    }
    proof {
        // The updated session stays well-formed: ids are untouched.
        assert(ids_of(roster2) =~= ids_of(gv.roster));
        assert(g@.wf());
    }
    let ghost g2 = g@;
    games.live_games.insert(j, g);
    proof {
        assert(games@.games =~= pre.games.update(j as int, g2));
        assert(games@.wf());
        assert forall|jj: int, kk: int|
            0 <= jj < pre.games.len() && (#[trigger] pre.games[jj]).id == game_id@ && 0 <= kk
                < pre.games[jj].roster.len() && (#[trigger] pre.games[jj].roster[kk]).id
                == client_id@ implies kk == k as int by {
            assert(pre.games[jj] == gv);
            if kk != k as int {
                assert(gv.roster[kk].id != gv.roster[k as int].id);
            }
        }
    }
    Ok(evs)
}

/// Everything sent when a guess is resolved: `guess_result` to every
/// member in roster order, and, to each member without a stored hint (by
/// construction the guesser), the `all_hints` summary right after its
/// result.
pub open spec fn guess_events(
    roster: Seq<ClientV>,
    correct: bool,
    word: Seq<char>,
    guess: Seq<char>,
    dups: Seq<ClientAndHintV>,
    uniqs: Seq<ClientAndHintV>,
) -> Seq<OutboundV>
    decreases roster.len(),
{
    if roster.len() == 0 {
        Seq::empty()
    } else {
        guess_events(roster.drop_last(), correct, word, guess, dups, uniqs) + seq![
            OutboundV {
                to: roster.last().id,
                event: EventV::GuessResult { correct: correct, word: word, guess: guess },
            },
        ] + if roster.last().hint is None {
            seq![
                OutboundV {
                    to: roster.last().id,
                    event: EventV::AllHints { duplicates: dups, hints: uniqs },
                },
            ]
        } else {
            Seq::<OutboundV>::empty()
        }
    }
}

/// The events of a guess against the addressed session; the state never
/// changes.
pub open spec fn guess_applied(c: ContainerV, evs: Seq<OutboundV>, gid: Seq<char>, guess: Seq<
    char,
>) -> bool {
    forall|j: int|
        0 <= j < c.games.len() && (#[trigger] c.games[j]).id == gid ==> ({
            let g = c.games[j];
            if g.word is None {
                evs.len() == 0
            } else {
                evs == guess_events(
                    g.roster,
                    lower_of(guess) == lower_of(g.word->0),
                    g.word->0,
                    guess,
                    dup_payload(g.roster),
                    uniq_payload(g.roster),
                )
            }
        })
}

/// Resolves a guess: case-insensitive comparison against the active word,
/// `guess_result` to everyone, and the hint summary to members without a
/// stored hint.  Before any round has started the guess is silently
/// ignored.
pub fn check_guess(guess: String, game_id: &String, games: &GameContainer) -> (r: Result<
    Vec<Outbound>,
    GameError,
>)
    requires
        games@.wf(),
    ensures
        r is Err <==> !games@.has_game(game_id@),
        r is Err ==> r->Err_0 == GameError::SessionNotFound,
        guess_applied(games@, evs_of(r), game_id@, guess@),
{
    let j = match find_game_index(&games.live_games, game_id) {
        None => {
            return Err(GameError::SessionNotFound);
        },
        Some(j) => j,
    };
    let g = &games.live_games[j];
    let ghost gv = games@.games[j as int];
    proof {
        assert(g@ == gv);
    }
    let word = match &g.game_state.word_to_guess {
        None => {
            return Ok(Vec::new());
        },
        Some(word) => word,
    };
    let guess_lower = lowercase(guess.as_str());
    let word_lower = lowercase(word.as_str());
    let correct = guess_lower == word_lower;
    let (unique_hinter_clients, duplicate_hinter_clients, _duplicate_ids) =
        uniques_and_duplicates(&g.clients);
    let ghost dups = dup_payload(gv.roster);
    let ghost uniqs = uniq_payload(gv.roster);
    let mut evs: Vec<Outbound> = Vec::new();
    let n = g.clients.len();
    let mut i: usize = 0;
    proof {
        assert(evs.deep_view() =~= guess_events(
            gv.roster.take(0),
            correct,
            word@,
            guess@,
            dups,
            uniqs,
        ));
    }
    while i < n
        invariant
            n == g.clients@.len(),
            g@ == gv,
            gv.word == Some(word@),
            i <= n,
            correct == (lower_of(guess@) == lower_of(word@)),
            unique_hinter_clients.deep_view() == uniqs,
            duplicate_hinter_clients.deep_view() == dups,
            dups == dup_payload(gv.roster),
            uniqs == uniq_payload(gv.roster),
            word@ == gv.word->0,
            evs.deep_view() == guess_events(
                gv.roster.take(i as int),
                correct,
                word@,
                guess@,
                dups,
                uniqs,
            ),
        decreases n - i,
    {
        let c = &g.clients[i];
        proof {
            assert(gv.roster.take(i + 1).drop_last() =~= gv.roster.take(i as int));
            assert(gv.roster.take(i + 1).last() == gv.roster[i as int]);
            assert(gv.roster[i as int] == g.clients@[i as int]@);
        }
        let ghost old_evs = evs.deep_view();
        evs.push(
            Outbound {
                to: c.client_id.clone(),
                event: Event::GuessResult {
                    correct: correct,
                    word: word.clone(),
                    guess: guess.clone(),
                },
            },
        );
        if c.hint.is_none() {
            evs.push(
                Outbound {
                    to: c.client_id.clone(),
                    event: Event::AllHints {
                        duplicates: clone_cah_vec(&duplicate_hinter_clients),
                        hints: clone_cah_vec(&unique_hinter_clients),
                    },
                },
            );
        }
        proof {
            assert(evs.deep_view() =~= guess_events(
                gv.roster.take(i + 1),
                correct,
                word@,
                guess@,
                dups,
                uniqs,
            ));
        }
        i += 1;
    }
    proof {
        assert(gv.roster.take(n as int) =~= gv.roster);
    }
    Ok(evs)
}

/// The `quit` notifications to everyone still present.
pub open spec fn quit_events(roster: Seq<ClientV>, cid: Seq<char>) -> Seq<OutboundV> {
    Seq::new(
        roster.len(),
        |i: int| OutboundV { to: roster[i].id, event: EventV::Quit { id: cid } },
    )
}

/// The effect of a disconnect on the addressed session.
pub open spec fn remove_applied(
    pre: ContainerV,
    post: ContainerV,
    evs: Seq<OutboundV>,
    gid: Seq<char>,
    cid: Seq<char>,
) -> bool {
    forall|j: int|
        0 <= j < pre.games.len() && (#[trigger] pre.games[j]).id == gid ==> ({
            let g = pre.games[j];
            if !in_roster(g.roster, cid) {
                post.games[j] == g && evs.len() == 0
            } else {
                forall|k: int|
                    0 <= k < g.roster.len() && (#[trigger] g.roster[k]).id == cid ==> ({
                        let g2 = post.games[j];
                        &&& g2.id == g.id
                        &&& g2.word == g.word
                        &&& g2.roster == g.roster.remove(k)
                        &&& (forall|t: int|
                            0 <= t < g.turns.len() && g.turns[t] == cid ==> g2.turns
                                == g.turns.remove(t))
                        &&& evs == quit_events(g.roster.remove(k), cid)
                    })
            }
        })
}

/// Index of the first turn-order entry with the given id.
fn find_turn_index(turns: &Vec<String>, id: &String) -> (r: Option<usize>)
    ensures
        match r {
            Some(t) => t < turns@.len() && turns.deep_view()[t as int] == id@,
            None => forall|t: int| 0 <= t < turns@.len() ==> turns.deep_view()[t] != id@,
        },
{
    let n = turns.len();
    let mut i: usize = 0;
    while i < n
        invariant
            n == turns@.len(),
            i <= n,
            forall|t: int| 0 <= t < i ==> turns.deep_view()[t] != id@,
        decreases n - i,
    {
        let entry = &turns[i];
        if *entry == *id {
            return Some(i);
        }
        i += 1;
    }
    None
}

/// Detaches a disconnecting participant: it leaves the roster and the turn
/// order, and everyone remaining receives one `quit`.  A session or
/// participant already gone makes this a no-op.
pub fn remove_client(games: &mut GameContainer, game_id: &String, client_id: &String) -> (evs: Vec<
    Outbound,
>)
    requires
        old(games)@.wf(),
    ensures
        final(games)@.wf(),
        frame_ok(old(games)@, final(games)@),
        untouched_others(old(games)@, final(games)@, game_id@),
        !old(games)@.has_game(game_id@) ==> final(games)@.games == old(games)@.games
            && evs@.len() == 0,
        remove_applied(old(games)@, final(games)@, evs.deep_view(), game_id@, client_id@),
{
    let ghost pre = games@;
    let j = match find_game_index(&games.live_games, game_id) {
        None => {
            return Vec::new();
        },
        Some(j) => j,
    };
    let ghost gv = pre.games[j as int];
    let mut g = games.live_games.remove(j);
    proof {
        assert(g@ == gv);
        assert(gv.wf());
    }
    let k = match find_client_index(&g.clients, client_id) {
        None => {
            games.live_games.insert(j, g);
            proof {
                assert(games@.games =~= pre.games.update(j as int, gv));
                assert(games@.games =~= pre.games);
            }
            return Vec::new();
        },
        Some(k) => k,
    };
    let t = match find_turn_index(&g.game_state.client_turns, client_id) {
        None => {
            proof {
                // The turn order is a permutation of the roster ids, so the
                // id must occur in it.
                gv.turns.to_multiset_ensures();
                ids_of(gv.roster).to_multiset_ensures();
                assert(ids_of(gv.roster)[k as int] == client_id@);
                assert(ids_of(gv.roster).contains(client_id@));
                assert(gv.turns.to_multiset().count(client_id@) > 0);
                assert(gv.turns.contains(client_id@));
                let tt = choose|tt: int| 0 <= tt < gv.turns.len() && gv.turns[tt] == client_id@;
                assert(gv.turns[tt] != client_id@);
            }
            vstd::pervasive::unreached()
        },
        Some(t) => t,
    };
    let _removed = g.clients.remove(k);
    let _removed_turn = g.game_state.client_turns.remove(t);
    let ghost roster2 = gv.roster.remove(k as int);
    proof {
        assert(g.clients.deep_view() =~= roster2);
        assert(g.game_state.client_turns.deep_view() =~= gv.turns.remove(t as int));
    }
    let mut evs: Vec<Outbound> = Vec::new();
    let n = g.clients.len();
    let mut i: usize = 0;
    proof {
        assert(evs.deep_view() =~= quit_events(roster2, client_id@).take(0));
    }
    while i < n
        invariant
            n == g.clients@.len(),
            i <= n,
            g.clients.deep_view() == roster2,
            evs.deep_view() == quit_events(roster2, client_id@).take(i as int),
        decreases n - i,
    {
        let c = &g.clients[i];
        let ghost old_evs = evs.deep_view();
        evs.push(
            Outbound { to: c.client_id.clone(), event: Event::Quit { id: client_id.clone() } },
        );
        proof {
            assert(roster2[i as int] == g.clients@[i as int]@);
            assert(evs.deep_view() =~= old_evs.push(
                OutboundV { to: roster2[i as int].id, event: EventV::Quit { id: client_id@ } },
            ));
            assert(evs.deep_view() =~= quit_events(roster2, client_id@).take(i + 1));
        }
        i += 1;
    }
    proof {
        assert(quit_events(roster2, client_id@).take(n as int) =~= quit_events(
            roster2,
            client_id@,
        ));
    }
    proof {
        // Both sides of the permutation lose exactly one occurrence of the
        // leaving id.
        gv.turns.to_multiset_ensures();
        ids_of(gv.roster).to_multiset_ensures();
        vstd::seq_lib::to_multiset_remove(gv.turns, t as int);
        vstd::seq_lib::to_multiset_remove(ids_of(gv.roster), k as int);
        assert(ids_of(roster2) =~= ids_of(gv.roster).remove(k as int));
        assert(gv.turns[t as int] == client_id@);
        assert(ids_of(gv.roster)[k as int] == client_id@);
        assert(g@.turns.to_multiset() =~= ids_of(g@.roster).to_multiset());
        assert(distinct_ids(roster2));
        assert(g@.wf());
    }
    let ghost g2 = g@;
    games.live_games.insert(j, g);
    proof {
        assert(games@.games =~= pre.games.update(j as int, g2));
        assert(games@.wf());
        assert forall|kk: int|
            0 <= kk < gv.roster.len() && (#[trigger] gv.roster[kk]).id == client_id@ implies kk
            == k as int by {
            if kk != k as int {
                assert(gv.roster[kk].id != gv.roster[k as int].id);
            }
        }
        assert forall|tt: int|
            0 <= tt < gv.turns.len() && gv.turns[tt] == client_id@ implies tt == t as int by {
            if tt != t as int {
                // Two occurrences of the same id would make the turn-order
                // multiset count exceed the roster's single occurrence.
                gv.turns.to_multiset_ensures();
                vstd::seq_lib::to_multiset_remove(gv.turns, t as int);
                gv.turns.remove(t as int).to_multiset_ensures();
                let rt = gv.turns.remove(t as int);
                let tt2: int = if tt < t as int { tt } else { tt - 1 };
                assert(rt[tt2] == client_id@);
                assert(rt.contains(client_id@));
                assert(rt.to_multiset().count(client_id@) > 0);
                assert(gv.turns.to_multiset().count(client_id@) >= 2);
                ids_of(gv.roster).to_multiset_ensures();
                let m = ids_of(gv.roster).to_multiset();
                assert(m.count(client_id@) >= 2);
                // But roster ids are distinct.
                vstd::seq_lib::to_multiset_remove(ids_of(gv.roster), k as int);
                let ri = ids_of(gv.roster).remove(k as int);
                ri.to_multiset_ensures();
                assert(ri.to_multiset().count(client_id@) > 0);
                assert(ri.contains(client_id@));
                let kk2 = choose|kk2: int| 0 <= kk2 < ri.len() && ri[kk2] == client_id@;
                let korig: int = if kk2 < k as int { kk2 } else { kk2 + 1 };
                assert(ids_of(gv.roster)[korig] == client_id@);
                assert(gv.roster[korig].id == gv.roster[k as int].id);
                assert(korig != k as int);
                assert(false);
            }
        }
    }
    evs
}

/// Dispatches one parsed inbound action to the matching operation; an
/// action that cannot be honoured (unknown session or participant) is
/// silently dropped, as is its error.
pub fn handle_message<G: WordGenerator>(game_id: &String, client_id: &String, message: ActionMessage, games: &mut GameContainer, word_generator: &mut G) -> (evs: Vec<
    Outbound,
>)
    requires
        old(games)@.wf(),
    ensures
        final(games)@.wf(),
        frame_ok(old(games)@, final(games)@),
        untouched_others(old(games)@, final(games)@, game_id@),
        !old(games)@.has_game(game_id@) ==> evs.deep_view() == Seq::<OutboundV>::empty(),
        match message.action {
            Action::SkipWordAction(_) => exists|word: Seq<char>|
                #[trigger] start_round_applied(
                    old(games)@,
                    final(games)@,
                    evs.deep_view(),
                    true,
                    game_id@,
                    false,
                    word,
                ) && (old(games)@.test_word is Some ==> word == old(games)@.test_word->0),
            Action::StartNextRoundAction(_) => exists|word: Seq<char>|
                #[trigger] start_round_applied(
                    old(games)@,
                    final(games)@,
                    evs.deep_view(),
                    true,
                    game_id@,
                    true,
                    word,
                ) && (old(games)@.test_word is Some ==> word == old(games)@.test_word->0),
            Action::HintAction(h) => add_hint_applied(
                old(games)@,
                final(games)@,
                evs.deep_view(),
                game_id@,
                client_id@,
                h.hint@,
            ),
            Action::GuessAction(gu) => final(games)@.games == old(games)@.games && guess_applied(
                old(games)@,
                evs.deep_view(),
                game_id@,
                gu.guess@,
            ),
        },
{
    match message.action {
        Action::SkipWordAction(_) => {
            let r = start_next_round(game_id, games, false, word_generator);
            let ghost re = evs_of(r);
            let ghost rok = r is Ok;
            let evs = flatten(r);
            proof {
                let w = choose|w: Seq<char>|
                    #[trigger] start_round_applied(
                        old(games)@,
                        games@,
                        re,
                        rok,
                        game_id@,
                        false,
                        w,
                    ) && (old(games)@.test_word is Some ==> w == old(games)@.test_word->0);
                if !rok {
                    assert(!old(games)@.has_game(game_id@));
                }
                assert(start_round_applied(
                    old(games)@,
                    games@,
                    evs.deep_view(),
                    true,
                    game_id@,
                    false,
                    w,
                ));
            }
            evs
        },
        Action::StartNextRoundAction(_) => {
            let r = start_next_round(game_id, games, true, word_generator);
            let ghost re = evs_of(r);
            let ghost rok = r is Ok;
            let evs = flatten(r);
            proof {
                let w = choose|w: Seq<char>|
                    #[trigger] start_round_applied(
                        old(games)@,
                        games@,
                        re,
                        rok,
                        game_id@,
                        true,
                        w,
                    ) && (old(games)@.test_word is Some ==> w == old(games)@.test_word->0);
                if !rok {
                    assert(!old(games)@.has_game(game_id@));
                }
                assert(start_round_applied(
                    old(games)@,
                    games@,
                    evs.deep_view(),
                    true,
                    game_id@,
                    true,
                    w,
                ));
            }
            evs
        },
        Action::HintAction(h) => {
            let r = add_hint(client_id, &h.hint, game_id, games);
            flatten(r)
        },
        Action::GuessAction(gu) => {
            let r = check_guess(gu.guess, game_id, games);
            flatten(r)
        },
    }
}

/// Drops the error of a session-scoped operation: the action is ignored.
fn flatten(r: Result<Vec<Outbound>, GameError>) -> (evs: Vec<Outbound>)
    ensures
        evs.deep_view() == evs_of(r),
{
    match r {
        Ok(e) => e,
        Err(_) => {
            let e: Vec<Outbound> = Vec::new();
            proof {
                assert(e.deep_view() =~= Seq::<OutboundV>::empty());
            }
            e
        },
    }
}

} // verus!
