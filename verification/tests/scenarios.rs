use duelcore::card::{load_cards, Deck};
use duelcore::duel::{duel, random_answer, setup_duel, DuelError, MessageConsumer, User};
use duelcore::game::Game;
use duelcore::generator::{ask_query, next_step};
use duelcore::messages::{
    validate_answer, Answer, HandleError, Message, PriorityAction, Query, Step, Substep,
};
use rand::seq::IndexedRandom;
use rand::RngExt;

const LAND: usize = 101;

struct CountingConsumer {
    seen: usize,
}

impl MessageConsumer for CountingConsumer {
    fn handle_message(&mut self, _msg: &Message) -> Result<(), HandleError> {
        self.seen += 1;
        Ok(())
    }
}

fn land_deck(count: usize) -> Deck {
    Deck(vec![(LAND, count)])
}

fn user(name: &str) -> User {
    User { name: name.to_string() }
}

fn apply_one_round(game: &mut Game) -> Vec<Message> {
    let msgs = next_step(game);
    for m in &msgs {
        game.handle_message(m).unwrap();
    }
    msgs
}

#[test]
fn setup_gives_each_card_to_exactly_one_library() {
    let repo = load_cards();
    let mut consumers: Vec<CountingConsumer> = vec![CountingConsumer { seen: 0 }];
    let game = setup_duel(
        &user("Leo"),
        &land_deck(10),
        &user("Marc"),
        &land_deck(10),
        &mut consumers,
        &repo,
    )
    .unwrap();
    assert_eq!(game.players.len(), 2);
    assert_eq!(game.players[0].library.len(), 10);
    assert_eq!(game.players[1].library.len(), 10);
    // Two creations plus twenty card additions were announced.
    assert_eq!(consumers[0].seen, 22);
    let mut all: Vec<usize> = Vec::new();
    all.extend(game.players[0].library.iter());
    all.extend(game.players[1].library.iter());
    let mut sorted = all.clone();
    sorted.sort();
    sorted.dedup();
    // Every card id is unique across both libraries...
    assert_eq!(sorted.len(), all.len());
    // ...registered, and owned by the library it sits in.
    for (p, player) in game.players.iter().enumerate() {
        for cid in player.library.iter() {
            assert_eq!(game.cards.get(cid).unwrap().owner_id, p);
        }
    }
}

#[test]
fn setup_refuses_an_unknown_definition() {
    let repo = load_cards();
    let mut consumers: Vec<CountingConsumer> = Vec::new();
    let r = setup_duel(
        &user("Leo"),
        &Deck(vec![(LAND, 2), (31337, 1)]),
        &user("Marc"),
        &land_deck(1),
        &mut consumers,
        &repo,
    );
    assert!(matches!(r, Err(DuelError::Reducer(HandleError::CardDefIdError))));
}

#[test]
fn scenario_a_initial_draws_leave_seven_in_hand_three_in_library() {
    let repo = load_cards();
    let mut consumers: Vec<CountingConsumer> = Vec::new();
    let mut game = setup_duel(
        &user("Leo"),
        &land_deck(10),
        &user("Marc"),
        &land_deck(10),
        &mut consumers,
        &repo,
    )
    .unwrap();
    assert_eq!(game.substep, Substep::InitialShuffle);
    apply_one_round(&mut game);
    assert_eq!(game.substep, Substep::InitialDrawCards);
    apply_one_round(&mut game);
    assert_eq!(game.substep, Substep::CheckStateBasedActions);
    for player in game.players.iter() {
        assert_eq!(player.library.len(), 3);
        assert_eq!(player.hand.len(), 7);
        assert!(!player.has_drawn_from_empty);
    }
}

#[test]
fn scenario_b_drawing_past_an_empty_library_loses_the_match() {
    let repo = load_cards();
    let mut game = Game::new(&repo);
    game.handle_message(&Message::CreatePlayer { id: 0, name: "Leo".to_string() }).unwrap();
    game.handle_message(&Message::CreatePlayer { id: 1, name: "Marc".to_string() }).unwrap();
    game.handle_message(&Message::AddCard { id: 1001, owner_id: 0, def_id: LAND }).unwrap();

    // First draw empties the library.
    let first = duelcore::generator::try_draw_card(&game.players[0]);
    assert_eq!(first, Message::DrawCard(0, 1001));
    game.handle_message(&first).unwrap();
    assert!(game.players[0].library.is_empty());
    assert!(!game.players[0].has_drawn_from_empty);

    // The second draw yields draw-from-empty and sets the flag.
    let second = duelcore::generator::try_draw_card(&game.players[0]);
    assert_eq!(second, Message::DrawFromEmpty(0));
    game.handle_message(&second).unwrap();
    assert!(game.players[0].has_drawn_from_empty);

    // The next state-based-action check marks the loss...
    game.handle_message(&Message::Substep(Substep::CheckStateBasedActions)).unwrap();
    let msgs = apply_one_round(&mut game);
    assert_eq!(msgs, vec![Message::PlayerLoses(0)]);
    assert!(game.players[0].has_lost);

    // ...and the one after, finding no new loss, ends the match with the
    // opponent as winner, without repeating the loss.
    let msgs = apply_one_round(&mut game);
    assert_eq!(
        msgs,
        vec![Message::PlayerWins(1), Message::Substep(Substep::GameEnded)]
    );
    assert_eq!(game.substep, Substep::GameEnded);
}

#[test]
fn scenario_c_one_land_per_turn() {
    let repo = load_cards();
    let mut game = Game::new(&repo);
    game.handle_message(&Message::CreatePlayer { id: 0, name: "Leo".to_string() }).unwrap();
    game.handle_message(&Message::CreatePlayer { id: 1, name: "Marc".to_string() }).unwrap();
    game.handle_message(&Message::AddCard { id: 1001, owner_id: 0, def_id: LAND }).unwrap();
    game.handle_message(&Message::DrawCard(0, 1001)).unwrap();
    game.handle_message(&Message::BeginTurn(0)).unwrap();
    game.handle_message(&Message::Step(Step::PrecombatMain)).unwrap();
    game.handle_message(&Message::Substep(Substep::PlayerPriority)).unwrap();
    game.handle_message(&Message::PlayerHasPriority(0)).unwrap();
    assert_eq!(game.players[0].lands_played, 0);

    // The offered actions include playing the land.
    let msgs = next_step(&game);
    assert_eq!(
        msgs,
        vec![Message::Query(Query::PriorityAction(vec![
            PriorityAction::Pass,
            PriorityAction::PlayLand(1001)
        ]))]
    );
    for m in &msgs {
        game.handle_message(m).unwrap();
    }

    // Accepting the play-land answer moves exactly that card onto the board.
    game.maybe_answer = Some(Answer::PriorityAction(PriorityAction::PlayLand(1001)));
    let oid = game.next_id;
    let msgs = apply_one_round(&mut game);
    assert_eq!(
        msgs,
        vec![Message::AcceptAnswer, Message::PlayLand(0, 1001, oid)]
    );
    assert_eq!(game.players[0].lands_played, 1);
    assert!(game.players[0].hand.is_empty());
    let object = game.objects.get(&oid).unwrap();
    assert_eq!(object.kind, duelcore::game::ObjectKind::Card(1001));
    assert_eq!(object.location, duelcore::game::ObjectLocation::Battlefield);

    // A second query this turn offers no play-land action, even with
    // another land in hand.
    game.handle_message(&Message::AddCard { id: 2001, owner_id: 0, def_id: LAND }).unwrap();
    game.handle_message(&Message::DrawCard(0, 2001)).unwrap();
    let msgs = next_step(&game);
    assert_eq!(
        msgs,
        vec![Message::Query(Query::PriorityAction(vec![PriorityAction::Pass]))]
    );

    // A new turn allows another land; its accepted play commits a fresh,
    // distinct object id, leaving the first battlefield object untouched.
    game.handle_message(&Message::BeginTurn(0)).unwrap();
    for m in &msgs {
        game.handle_message(m).unwrap();
    }
    game.maybe_answer = Some(Answer::PriorityAction(PriorityAction::PlayLand(2001)));
    let oid2 = game.next_id;
    assert!(oid2 > oid);
    let msgs = apply_one_round(&mut game);
    assert_eq!(
        msgs,
        vec![Message::AcceptAnswer, Message::PlayLand(0, 2001, oid2)]
    );
    assert_eq!(game.objects.len(), 2);
    assert_eq!(
        game.objects.get(&oid).unwrap().kind,
        duelcore::game::ObjectKind::Card(1001)
    );
    assert_eq!(
        game.objects.get(&oid2).unwrap().kind,
        duelcore::game::ObjectKind::Card(2001)
    );
}

#[test]
fn priority_reaches_stack_resolution_in_player_count_plus_one_rounds() {
    let repo = load_cards();
    let mut game = Game::new(&repo);
    game.handle_message(&Message::CreatePlayer { id: 0, name: "Leo".to_string() }).unwrap();
    game.handle_message(&Message::CreatePlayer { id: 1, name: "Marc".to_string() }).unwrap();
    game.handle_message(&Message::Substep(Substep::PlayerPriority)).unwrap();
    game.handle_message(&Message::PlayerHasPriority(0)).unwrap();
    // Only the active player has not passed, and a pass is pending.
    game.handle_message(&Message::PlayerPasses(1)).unwrap();
    game.maybe_answer = Some(Answer::PriorityAction(PriorityAction::Pass));
    let mut rounds = 0;
    while game.substep == Substep::PlayerPriority {
        apply_one_round(&mut game);
        rounds += 1;
        assert!(rounds < 10);
    }
    assert_eq!(game.substep, Substep::ResolveStack);
    assert_eq!(rounds, 3);
    // Closing the round cleared every passed flag.
    assert!(game.players.iter().all(|p| !p.has_passed));
}

#[test]
fn cleanup_discards_down_to_seven() {
    let repo = load_cards();
    let mut game = Game::new(&repo);
    game.handle_message(&Message::CreatePlayer { id: 0, name: "Leo".to_string() }).unwrap();
    game.handle_message(&Message::CreatePlayer { id: 1, name: "Marc".to_string() }).unwrap();
    for i in 0..9 {
        game.handle_message(&Message::AddCard { id: 1001 + i, owner_id: 0, def_id: LAND })
            .unwrap();
        game.handle_message(&Message::DrawCard(0, 1001 + i)).unwrap();
    }
    game.handle_message(&Message::Step(Step::Cleanup)).unwrap();
    game.handle_message(&Message::Substep(Substep::BeginOfStep)).unwrap();
    let msgs = next_step(&game);
    assert_eq!(
        msgs,
        vec![Message::Query(Query::Discard(game.players[0].hand.clone(), 2))]
    );
    for m in &msgs {
        game.handle_message(m).unwrap();
    }
    game.maybe_answer = Some(Answer::Discard(vec![1001, 1005]));
    let msgs = apply_one_round(&mut game);
    assert_eq!(
        msgs,
        vec![
            Message::AcceptAnswer,
            Message::Discard(0, 1001),
            Message::Discard(0, 1005),
            Message::Substep(Substep::EndOfStep)
        ]
    );
    assert_eq!(game.players[0].hand.len(), 7);
    assert_eq!(game.players[0].graveyard, vec![1001, 1005]);
}

#[test]
fn random_answers_validate_against_their_query() {
    let q = Query::PriorityAction(vec![
        PriorityAction::Pass,
        PriorityAction::PlayLand(5),
        PriorityAction::PlayLand(9),
    ]);
    for _ in 0..50 {
        let a = random_answer(&q);
        assert!(validate_answer(&q, &a));
    }
    let d = Query::Discard(vec![1, 2, 3, 4, 5], 3);
    for _ in 0..50 {
        let a = random_answer(&d);
        assert!(validate_answer(&d, &a));
        if let Answer::Discard(sel) = a {
            assert_eq!(sel.len(), 3);
        } else {
            panic!("a discard query draws a discard answer");
        }
    }
}

#[test]
fn accepted_answers_are_members_of_the_offered_set() {
    let mut rng = rand::rng();
    let repo = load_cards();
    for _ in 0..200 {
        let mut game = Game::new(&repo);
        game.handle_message(&Message::CreatePlayer { id: 0, name: "Leo".to_string() })
            .unwrap();
        let offered: Vec<usize> = (0..rng.random_range(1..6)).map(|i| 100 + 10 * i).collect();
        let n = rng.random_range(0..4) as i32;
        let query = Query::Discard(offered.clone(), n);
        let candidate: Vec<usize> = (0..rng.random_range(0..5))
            .map(|_| *[100usize, 110, 120, 130, 140, 999].choose(&mut rng).unwrap())
            .collect();
        game.maybe_answer = Some(Answer::Discard(candidate.clone()));
        let mut msgs: Vec<Message> = Vec::new();
        match ask_query(&game, &mut msgs, query) {
            Some(Answer::Discard(sel)) => {
                // Accepted: every selected card is a member of the offered
                // set, with the exact asked cardinality.
                assert_eq!(msgs, vec![Message::AcceptAnswer]);
                assert_eq!(sel.len() as i32, n);
                assert!(sel.iter().all(|c| offered.contains(c)));
            },
            Some(Answer::PriorityAction(_)) => panic!("a discard query never draws an action"),
            None => {
                // Rejected: the validator indeed refuses the candidate.
                assert!(!validate_answer(
                    &Query::Discard(offered.clone(), n),
                    &Answer::Discard(candidate)
                ));
            },
        }
    }
}

#[test]
fn a_whole_duel_runs_to_the_end() {
    let repo = load_cards();
    let mut consumers: Vec<CountingConsumer> = vec![CountingConsumer { seen: 0 }];
    let game = duel(
        user("Leo"),
        land_deck(10),
        user("Marc"),
        land_deck(10),
        &mut consumers,
        &repo,
        1_000_000,
    )
    .unwrap();
    assert_eq!(game.substep, Substep::GameEnded);
    // Somebody ran out of cards and was marked the loser.
    assert!(game.players.iter().any(|p| p.has_lost));
    assert!(game.players.iter().any(|p| p.has_drawn_from_empty));
    assert!(consumers[0].seen > 22);
}

#[test]
fn a_duel_without_fuel_reports_exhaustion() {
    let repo = load_cards();
    let mut consumers: Vec<CountingConsumer> = Vec::new();
    let r = duel(
        user("Leo"),
        land_deck(2),
        user("Marc"),
        land_deck(2),
        &mut consumers,
        &repo,
        1,
    );
    assert!(matches!(r, Err(DuelError::FuelExhausted)));
}
