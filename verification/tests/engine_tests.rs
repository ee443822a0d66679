//! Scenario tests for the session protocol engine, driven through the same
//! create/join/action/leave operations a connection handler would use.

use sanapeli::actions::{Action, ActionMessage, Guess, Hint, SkipWord, StartNextRound};
use sanapeli::engine::{
    add_hint, check_guess, create_client_id, handle_message, join_game, new_game, remove_client,
};
use sanapeli::events::{ClientAndHint, ClientIdAndName, Event, Outbound};
use sanapeli::game::GameContainer;
use sanapeli::words::RandomWordGenerator;

fn s(x: &str) -> String {
    String::from(x)
}

fn empty_games() -> GameContainer {
    GameContainer {
        games_created: 0,
        live_games: Vec::new(),
        test_word: Some(s("testisana")),
    }
}

fn word_gen() -> RandomWordGenerator {
    RandomWordGenerator::from_words(Vec::new())
}

fn uid(name: &str) -> String {
    create_client_id(&s(name))
}

fn start_game(games: &mut GameContainer, name: &str) -> (String, Vec<Outbound>) {
    new_game(games, uid(name), s(name))
}

fn join(games: &mut GameContainer, game_id: &str, name: &str) -> Vec<Outbound> {
    join_game(games, &s(game_id), uid(name), s(name)).expect("join")
}

fn start_round(games: &mut GameContainer, game_id: &str, by: &str) -> Vec<Outbound> {
    handle_message(
        &s(game_id),
        &uid(by),
        ActionMessage {
            action: Action::StartNextRoundAction(StartNextRound { start_next_round: true }),
        },
        games,
        &mut word_gen(),
    )
}

fn skip_word(games: &mut GameContainer, game_id: &str, by: &str) -> Vec<Outbound> {
    handle_message(
        &s(game_id),
        &uid(by),
        ActionMessage { action: Action::SkipWordAction(SkipWord { skip_word: true }) },
        games,
        &mut word_gen(),
    )
}

fn send_hint(games: &mut GameContainer, game_id: &str, by: &str, text: &str) -> Vec<Outbound> {
    handle_message(
        &s(game_id),
        &uid(by),
        ActionMessage { action: Action::HintAction(Hint { hint: s(text) }) },
        games,
        &mut word_gen(),
    )
}

fn send_guess(games: &mut GameContainer, game_id: &str, by: &str, text: &str) -> Vec<Outbound> {
    handle_message(
        &s(game_id),
        &uid(by),
        ActionMessage { action: Action::GuessAction(Guess { guess: s(text) }) },
        games,
        &mut word_gen(),
    )
}

fn to(target: &str, event: Event) -> Outbound {
    Outbound { to: uid(target), event }
}

fn id_and_name(name: &str) -> ClientIdAndName {
    ClientIdAndName { id: uid(name), username: s(name) }
}

fn client_and_hint(name: &str, hint: &str) -> ClientAndHint {
    ClientAndHint { client: uid(name), hint: s(hint) }
}

#[test]
fn new_game_creator_is_sent_the_game_id() {
    let mut games = empty_games();
    let (game_id, evs) = start_game(&mut games, "user1");
    assert_eq!(game_id, s("1001"));
    assert_eq!(
        evs,
        vec![
            to("user1", Event::NewGame { id: s("1001") }),
            to("user1", Event::YourData { id: uid("user1"), username: s("user1") }),
        ]
    );
}

#[test]
fn join_event_is_delivered_to_existing_players() {
    let mut games = empty_games();
    let (game_id, _) = start_game(&mut games, "user1");

    let evs = join(&mut games, &game_id, "user2");
    assert_eq!(
        evs,
        vec![
            to("user1", Event::Join { id: uid("user2"), username: s("user2") }),
            to("user2", Event::OtherPlayers { players: vec![id_and_name("user1")] }),
            to("user2", Event::YourData { id: uid("user2"), username: s("user2") }),
        ]
    );

    let evs = join(&mut games, &game_id, "user3");
    assert_eq!(
        evs,
        vec![
            to("user1", Event::Join { id: uid("user3"), username: s("user3") }),
            to("user2", Event::Join { id: uid("user3"), username: s("user3") }),
            to(
                "user3",
                Event::OtherPlayers { players: vec![id_and_name("user1"), id_and_name("user2")] }
            ),
            to("user3", Event::YourData { id: uid("user3"), username: s("user3") }),
        ]
    );

    assert_eq!(3, games.live_games[0].clients.len());
}

#[test]
fn staring_game_chooses_word_and_notifies_roles() {
    let mut games = empty_games();
    let (game_id, _) = start_game(&mut games, "user1");
    join(&mut games, &game_id, "user2");
    join(&mut games, &game_id, "user3");

    let evs = start_round(&mut games, &game_id, "user1");
    assert_eq!(
        evs,
        vec![
            to("user1", Event::NewRoundGuesser),
            to(
                "user2",
                Event::NewRoundHinter { word: s("testisana"), guesser: uid("user1") }
            ),
            to(
                "user3",
                Event::NewRoundHinter { word: s("testisana"), guesser: uid("user1") }
            ),
        ]
    );

    let word = games.live_games[0].game_state.word_to_guess.clone();
    assert_eq!(word, Some(s("testisana")));
}

fn four_player_round() -> (GameContainer, String) {
    let mut games = empty_games();
    let (game_id, _) = start_game(&mut games, "user1");
    join(&mut games, &game_id, "user2");
    join(&mut games, &game_id, "user3");
    join(&mut games, &game_id, "user4");
    start_round(&mut games, &game_id, "user1");
    (games, game_id)
}

#[test]
fn sent_hints_are_stored_and_after_last_hint_result_are_sent() {
    let (mut games, game_id) = four_player_round();

    let evs = send_hint(&mut games, &game_id, "user2", "vinkki2");
    assert_eq!(
        evs,
        vec![
            to("user1", Event::HintReceived { client: uid("user2") }),
            to("user3", Event::HintReceived { client: uid("user2") }),
            to("user4", Event::HintReceived { client: uid("user2") }),
        ]
    );

    let stored = games.live_games[0]
        .clients
        .iter()
        .find(|c| c.client_id == uid("user2"))
        .expect("client")
        .hint
        .clone();
    assert_eq!(Some(s("vinkki2")), stored);

    let evs = send_hint(&mut games, &game_id, "user3", "vinkki3");
    assert_eq!(
        evs,
        vec![
            to("user1", Event::HintReceived { client: uid("user3") }),
            to("user2", Event::HintReceived { client: uid("user3") }),
            to("user4", Event::HintReceived { client: uid("user3") }),
        ]
    );

    // The identical hint from user4 completes the round: everyone is told,
    // then the summaries go out.
    let evs = send_hint(&mut games, &game_id, "user4", "vinkki3");
    assert_eq!(
        evs,
        vec![
            to("user1", Event::HintReceived { client: uid("user4") }),
            to("user2", Event::HintReceived { client: uid("user4") }),
            to("user3", Event::HintReceived { client: uid("user4") }),
            to(
                "user1",
                Event::AllHintsToGuesser {
                    hints: vec![client_and_hint("user2", "vinkki2")],
                    users_with_duplicates: vec![uid("user3"), uid("user4")],
                }
            ),
            to(
                "user2",
                Event::AllHints {
                    duplicates: vec![
                        client_and_hint("user3", "vinkki3"),
                        client_and_hint("user4", "vinkki3"),
                    ],
                    hints: vec![client_and_hint("user2", "vinkki2")],
                }
            ),
            to(
                "user3",
                Event::AllHints {
                    duplicates: vec![
                        client_and_hint("user3", "vinkki3"),
                        client_and_hint("user4", "vinkki3"),
                    ],
                    hints: vec![client_and_hint("user2", "vinkki2")],
                }
            ),
            to(
                "user4",
                Event::AllHints {
                    duplicates: vec![
                        client_and_hint("user3", "vinkki3"),
                        client_and_hint("user4", "vinkki3"),
                    ],
                    hints: vec![client_and_hint("user2", "vinkki2")],
                }
            ),
        ]
    );
}

fn four_player_round_all_hints() -> (GameContainer, String) {
    let (mut games, game_id) = four_player_round();
    send_hint(&mut games, &game_id, "user2", "vinkki2");
    send_hint(&mut games, &game_id, "user3", "vinkki3");
    send_hint(&mut games, &game_id, "user4", "vinkki3");
    (games, game_id)
}

#[test]
fn correct_guess_is_given() {
    let (mut games, game_id) = four_player_round_all_hints();

    let evs = send_guess(&mut games, &game_id, "user1", "testisana");
    let result =
        || Event::GuessResult { correct: true, word: s("testisana"), guess: s("testisana") };
    let summary = Event::AllHints {
        duplicates: vec![
            client_and_hint("user3", "vinkki3"),
            client_and_hint("user4", "vinkki3"),
        ],
        hints: vec![client_and_hint("user2", "vinkki2")],
    };
    // The guesser is the only member without a stored hint, so only the
    // guesser additionally receives the hint summary.
    assert_eq!(
        evs,
        vec![
            to("user1", result()),
            to("user1", summary),
            to("user2", result()),
            to("user3", result()),
            to("user4", result()),
        ]
    );
}

#[test]
fn incorrect_guess_is_given() {
    let (mut games, game_id) = four_player_round_all_hints();

    let evs = send_guess(&mut games, &game_id, "user1", "wrong");
    let wrong =
        || Event::GuessResult { correct: false, word: s("testisana"), guess: s("wrong") };
    let summary = Event::AllHints {
        duplicates: vec![
            client_and_hint("user3", "vinkki3"),
            client_and_hint("user4", "vinkki3"),
        ],
        hints: vec![client_and_hint("user2", "vinkki2")],
    };
    assert_eq!(
        evs,
        vec![
            to("user1", wrong()),
            to("user1", summary),
            to("user2", wrong()),
            to("user3", wrong()),
            to("user4", wrong()),
        ]
    );
}

#[test]
fn requesting_new_round_gives_word_and_notifies_roles() {
    let mut games = empty_games();
    let (game_id, _) = start_game(&mut games, "user1");
    join(&mut games, &game_id, "user2");
    join(&mut games, &game_id, "user3");
    start_round(&mut games, &game_id, "user1");
    send_hint(&mut games, &game_id, "user3", "vinkki3");

    let word = games.live_games[0].game_state.word_to_guess.clone();
    assert_eq!(word, Some(s("testisana")));

    // A second round start hands the guesser role to the next in turn.
    let evs = start_round(&mut games, &game_id, "user1");
    assert_eq!(
        evs,
        vec![
            to("user2", Event::NewRoundGuesser),
            to(
                "user3",
                Event::NewRoundHinter { word: s("testisana"), guesser: uid("user2") }
            ),
            to(
                "user1",
                Event::NewRoundHinter { word: s("testisana"), guesser: uid("user2") }
            ),
        ]
    );

    for client in &games.live_games[0].clients {
        assert_eq!(None, client.hint);
    }
}

#[test]
fn skip_word_and_retain_roles() {
    let mut games = empty_games();
    let (game_id, _) = start_game(&mut games, "user1");
    join(&mut games, &game_id, "user2");
    start_round(&mut games, &game_id, "user1");

    games.test_word = Some(s("sanatesti"));

    let evs = skip_word(&mut games, &game_id, "user1");
    assert_eq!(
        evs,
        vec![
            to("user1", Event::NewRoundGuesser),
            to(
                "user2",
                Event::NewRoundHinter { word: s("sanatesti"), guesser: uid("user1") }
            ),
        ]
    );
}

#[test]
fn player_quit_is_informed_to_all_others() {
    let mut games = empty_games();
    let (game_id, _) = start_game(&mut games, "user1");
    join(&mut games, &game_id, "user2");
    join(&mut games, &game_id, "user3");

    let evs = remove_client(&mut games, &game_id, &uid("user3"));
    assert_eq!(
        evs,
        vec![
            to("user1", Event::Quit { id: uid("user3") }),
            to("user2", Event::Quit { id: uid("user3") }),
        ]
    );
    assert_eq!(2, games.live_games[0].clients.len());
}

#[test]
fn hint_after_completeness_does_not_resend_summaries() {
    let (mut games, game_id) = four_player_round_all_hints();

    // A hinter re-submitting after completeness only produces the usual
    // hint notifications.
    let evs = send_hint(&mut games, &game_id, "user2", "vinkki2b");
    assert_eq!(
        evs,
        vec![
            to("user1", Event::HintReceived { client: uid("user2") }),
            to("user3", Event::HintReceived { client: uid("user2") }),
            to("user4", Event::HintReceived { client: uid("user2") }),
        ]
    );

    // So does a late hint from the guesser.
    let evs = send_hint(&mut games, &game_id, "user1", "vinkki1");
    assert_eq!(
        evs,
        vec![
            to("user2", Event::HintReceived { client: uid("user1") }),
            to("user3", Event::HintReceived { client: uid("user1") }),
            to("user4", Event::HintReceived { client: uid("user1") }),
        ]
    );
}

#[test]
fn guess_is_case_insensitive() {
    let (mut games, game_id) = four_player_round_all_hints();
    let evs = send_guess(&mut games, &game_id, "user1", "TESTISANA");
    match &evs[0].event {
        Event::GuessResult { correct, word, guess } => {
            assert!(*correct);
            assert_eq!(word, &s("testisana"));
            assert_eq!(guess, &s("TESTISANA"));
        }
        other => panic!("unexpected event {:?}", other),
    }
}

#[test]
fn session_scoped_errors_are_reported() {
    let mut games = empty_games();
    let (game_id, _) = start_game(&mut games, "user1");

    let err = join_game(&mut games, &s("9999"), uid("user2"), s("user2"));
    assert_eq!(err, Err(sanapeli::game::GameError::SessionNotFound));

    let err = add_hint(&uid("ghost"), &s("vinkki"), &game_id, &mut games);
    assert_eq!(err, Err(sanapeli::game::GameError::ParticipantNotFound));

    let err = add_hint(&uid("user1"), &s("vinkki"), &s("9999"), &mut games);
    assert_eq!(err, Err(sanapeli::game::GameError::SessionNotFound));

    let err = check_guess(s("sana"), &s("9999"), &games);
    assert_eq!(err, Err(sanapeli::game::GameError::SessionNotFound));
}

#[test]
fn actions_on_unknown_sessions_produce_no_events() {
    let mut games = empty_games();
    start_game(&mut games, "user1");
    assert_eq!(send_hint(&mut games, "9999", "user1", "vinkki"), Vec::new());
    assert_eq!(send_guess(&mut games, "9999", "user1", "testisana"), Vec::new());
    assert_eq!(start_round(&mut games, "9999", "user1"), Vec::new());
    assert_eq!(skip_word(&mut games, "9999", "user1"), Vec::new());
}

#[test]
fn guess_before_round_start_is_ignored() {
    let mut games = empty_games();
    let (game_id, _) = start_game(&mut games, "user1");
    let evs = send_guess(&mut games, &game_id, "user1", "testisana");
    assert_eq!(evs, Vec::new());
}

#[test]
fn joining_an_emptied_session_sees_no_other_players() {
    let mut games = empty_games();
    let (game_id, _) = start_game(&mut games, "user1");
    remove_client(&mut games, &game_id, &uid("user1"));

    // Nobody is left to notify and there is nobody to list.
    let evs = join(&mut games, &game_id, "user2");
    assert_eq!(
        evs,
        vec![to("user2", Event::YourData { id: uid("user2"), username: s("user2") })]
    );
    assert_eq!(1, games.live_games[0].clients.len());
}

#[test]
fn removing_last_member_leaves_defunct_session() {
    let mut games = empty_games();
    let (game_id, _) = start_game(&mut games, "user1");
    let evs = remove_client(&mut games, &game_id, &uid("user1"));
    assert_eq!(evs, Vec::new());
    assert_eq!(0, games.live_games[0].clients.len());

    // Starting a round in the defunct session changes nothing.
    let evs = start_round(&mut games, &game_id, "user1");
    assert_eq!(evs, Vec::new());
    assert_eq!(None, games.live_games[0].game_state.word_to_guess);
}
