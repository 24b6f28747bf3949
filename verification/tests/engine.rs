use duelcore::card::load_cards;
use duelcore::game::{Game, ObjectKind, ObjectLocation};
use duelcore::generator::{next_step, state_based_actions, try_draw_card, try_draw_cards};
use duelcore::messages::{
    validate_answer, Answer, HandleError, Message, PriorityAction, Query, Step, Substep,
};

const LAND: usize = 101;

fn two_player_game(repo: &duelcore::card::CardRepository) -> Game<'_> {
    let mut game = Game::new(repo);
    game.handle_message(&Message::CreatePlayer { id: 0, name: "Leo".to_string() }).unwrap();
    game.handle_message(&Message::CreatePlayer { id: 1, name: "Marc".to_string() }).unwrap();
    game
}

#[test]
fn repository_holds_the_land_definition() {
    let repo = load_cards();
    let def = repo.get(&LAND).unwrap();
    assert_eq!(def.id, LAND);
    assert!(def.mechanics.is_land);
    assert!(!def.mechanics.is_token);
    assert!(repo.get(&999).is_none());
}

#[test]
fn create_player_requires_sequential_ids() {
    let repo = load_cards();
    let mut game = Game::new(&repo);
    let r = game.handle_message(&Message::CreatePlayer { id: 1, name: "Leo".to_string() });
    assert_eq!(r, Err(HandleError::PlayerIdError));
    assert_eq!(game.players.len(), 0);
    game.handle_message(&Message::CreatePlayer { id: 0, name: "Leo".to_string() }).unwrap();
    assert_eq!(game.players.len(), 1);
    assert_eq!(game.players[0].life, 20);
    assert_eq!(game.players[0].name, "Leo");
}

#[test]
fn add_card_requires_known_definition() {
    let repo = load_cards();
    let mut game = two_player_game(&repo);
    let r = game.handle_message(&Message::AddCard { id: 1001, owner_id: 0, def_id: 424242 });
    assert_eq!(r, Err(HandleError::CardDefIdError));
    assert!(game.cards.is_empty());
    game.handle_message(&Message::AddCard { id: 1001, owner_id: 0, def_id: LAND }).unwrap();
    assert_eq!(game.players[0].library, vec![1001]);
    assert_eq!(game.cards.get(&1001).unwrap().owner_id, 0);
}

#[test]
fn draw_card_requires_matching_top_of_library() {
    let repo = load_cards();
    let mut game = two_player_game(&repo);
    game.handle_message(&Message::AddCard { id: 1001, owner_id: 0, def_id: LAND }).unwrap();
    game.handle_message(&Message::AddCard { id: 1002, owner_id: 0, def_id: LAND }).unwrap();
    // The tail of the library is its top; a mismatching id is refused.
    let r = game.handle_message(&Message::DrawCard(0, 1001));
    assert_eq!(r, Err(HandleError::CardIdError));
    assert_eq!(game.players[0].library, vec![1001, 1002]);
    assert!(game.players[0].hand.is_empty());
    game.handle_message(&Message::DrawCard(0, 1002)).unwrap();
    assert_eq!(game.players[0].library, vec![1001]);
    assert_eq!(game.players[0].hand, vec![1002]);
}

#[test]
fn rejection_is_a_no_op() {
    let repo = load_cards();
    let mut game = two_player_game(&repo);
    game.handle_message(&Message::AddCard { id: 1001, owner_id: 0, def_id: LAND }).unwrap();
    let library_before = game.players[0].library.clone();
    let hand_before = game.players[0].hand.clone();
    let next_id_before = game.next_id;
    let substep_before = game.substep;

    // A draw naming a card that is not on top, a discard of a card not in
    // hand, a stale land object id and an unknown player id are all refused
    // without touching the state.
    assert!(game.handle_message(&Message::DrawCard(0, 77)).is_err());
    assert!(game.handle_message(&Message::Discard(0, 77)).is_err());
    assert!(game.handle_message(&Message::PlayLand(0, 77, 0)).is_err());
    assert_eq!(
        game.handle_message(&Message::PlayerPasses(9)),
        Err(HandleError::PlayerIdError)
    );
    assert_eq!(
        game.handle_message(&Message::ResolveSpell(1)),
        Err(HandleError::CardIdError)
    );

    assert_eq!(game.players[0].library, library_before);
    assert_eq!(game.players[0].hand, hand_before);
    assert_eq!(game.next_id, next_id_before);
    assert_eq!(game.substep, substep_before);
    assert_eq!(game.players.len(), 2);
}

#[test]
fn id_counter_previews_then_commits_monotonically() {
    let repo = load_cards();
    let mut game = Game::new(&repo);
    assert_eq!(game.next_id, 1001);
    let a = game.get_id();
    let b = game.get_id();
    assert_eq!(a, 1001);
    assert_eq!(b, 1002);
    assert_eq!(game.next_id, 1003);
    // Committing moves the counter past the id: 1500 can never be reused.
    game.commit_id(1500);
    assert_eq!(game.next_id, 1501);
}

#[test]
fn shuffle_keeps_the_library_contents() {
    let repo = load_cards();
    let mut game = two_player_game(&repo);
    for i in 0..20 {
        game.handle_message(&Message::AddCard { id: 1001 + i, owner_id: 0, def_id: LAND })
            .unwrap();
    }
    let mut before = game.players[0].library.clone();
    game.handle_message(&Message::ShuffleLibrary(0)).unwrap();
    let mut after = game.players[0].library.clone();
    before.sort();
    after.sort();
    assert_eq!(before, after);
}

#[test]
fn try_draw_reads_the_library_tail() {
    let repo = load_cards();
    let mut game = two_player_game(&repo);
    game.handle_message(&Message::AddCard { id: 1001, owner_id: 0, def_id: LAND }).unwrap();
    game.handle_message(&Message::AddCard { id: 1002, owner_id: 0, def_id: LAND }).unwrap();
    assert_eq!(try_draw_card(&game.players[0]), Message::DrawCard(0, 1002));
    assert_eq!(
        try_draw_cards(&game.players[0], 2),
        vec![Message::DrawCard(0, 1002), Message::DrawCard(0, 1001)]
    );
    // Exhaustion yields a single draw-from-empty after the real draws.
    assert_eq!(
        try_draw_cards(&game.players[0], 5),
        vec![
            Message::DrawCard(0, 1002),
            Message::DrawCard(0, 1001),
            Message::DrawFromEmpty(0)
        ]
    );
    assert_eq!(try_draw_card(&game.players[1]), Message::DrawFromEmpty(1));
}

#[test]
fn validator_checks_membership_and_cardinality() {
    let q = Query::Discard(vec![10, 20, 30], 2);
    assert!(validate_answer(&q, &Answer::Discard(vec![10, 30])));
    assert!(validate_answer(&q, &Answer::Discard(vec![10, 10])));
    assert!(!validate_answer(&q, &Answer::Discard(vec![10])));
    assert!(!validate_answer(&q, &Answer::Discard(vec![10, 40])));
    assert!(!validate_answer(&q, &Answer::Discard(vec![10, 20, 30])));
    let p = Query::PriorityAction(vec![PriorityAction::Pass, PriorityAction::PlayLand(7)]);
    assert!(validate_answer(&p, &Answer::PriorityAction(PriorityAction::Pass)));
    assert!(validate_answer(&p, &Answer::PriorityAction(PriorityAction::PlayLand(7))));
    assert!(!validate_answer(&p, &Answer::PriorityAction(PriorityAction::PlayLand(8))));
    // A cross-shaped pair never validates.
    assert!(!validate_answer(&p, &Answer::Discard(vec![])));
    assert!(!validate_answer(&q, &Answer::PriorityAction(PriorityAction::Pass)));
}

#[test]
fn generator_is_deterministic_on_a_fixed_state() {
    let repo = load_cards();
    let mut game = two_player_game(&repo);
    for i in 0..5 {
        game.handle_message(&Message::AddCard { id: 1001 + i, owner_id: 0, def_id: LAND })
            .unwrap();
    }
    let first = next_step(&game);
    let second = next_step(&game);
    assert_eq!(first, second);
    game.handle_message(&Message::Substep(Substep::InitialDrawCards)).unwrap();
    assert_eq!(next_step(&game), next_step(&game));
}

#[test]
fn state_based_actions_detect_losses_and_the_winner() {
    let repo = load_cards();
    let mut game = two_player_game(&repo);
    assert_eq!(state_based_actions(&game), vec![]);
    game.handle_message(&Message::DrawFromEmpty(0)).unwrap();
    assert_eq!(state_based_actions(&game), vec![Message::PlayerLoses(0)]);
    game.handle_message(&Message::PlayerLoses(0)).unwrap();
    // The loss is already marked: no second loss message, only the decision.
    assert_eq!(
        state_based_actions(&game),
        vec![Message::PlayerWins(1), Message::Substep(Substep::GameEnded)]
    );
}

#[test]
fn resolve_spell_pops_only_the_top() {
    let repo = load_cards();
    let mut game = two_player_game(&repo);
    game.stack.push(duelcore::game::Spell { id: 5 });
    game.stack.push(duelcore::game::Spell { id: 6 });
    assert_eq!(
        game.handle_message(&Message::ResolveSpell(5)),
        Err(HandleError::CardIdError)
    );
    assert_eq!(game.stack.len(), 2);
    game.handle_message(&Message::ResolveSpell(6)).unwrap();
    assert_eq!(game.stack.len(), 1);
    assert_eq!(next_step_on(&mut game), vec![Message::ResolveSpell(5)]);
}

fn next_step_on(game: &mut Game) -> Vec<Message> {
    game.substep = Substep::ResolveStack;
    next_step(game)
}

#[test]
fn play_land_moves_the_card_and_commits_the_object_id() {
    let repo = load_cards();
    let mut game = two_player_game(&repo);
    game.handle_message(&Message::AddCard { id: 1001, owner_id: 0, def_id: LAND }).unwrap();
    game.handle_message(&Message::DrawCard(0, 1001)).unwrap();
    let oid = game.next_id;
    // A stale object id is refused before anything changes, and so is one
    // the counter could not move past.
    assert_eq!(
        game.handle_message(&Message::PlayLand(0, 1001, oid - 1)),
        Err(HandleError::CardIdError)
    );
    assert_eq!(
        game.handle_message(&Message::PlayLand(0, 1001, usize::MAX)),
        Err(HandleError::CardIdError)
    );
    assert_eq!(game.players[0].hand, vec![1001]);
    game.handle_message(&Message::PlayLand(0, 1001, oid)).unwrap();
    assert!(game.players[0].hand.is_empty());
    assert_eq!(game.players[0].lands_played, 1);
    // The commit moves the counter past the object id, so the same id can
    // never be committed again.
    assert_eq!(game.next_id, oid + 1);
    game.handle_message(&Message::AddCard { id: 3001, owner_id: 0, def_id: LAND }).unwrap();
    game.handle_message(&Message::DrawCard(0, 3001)).unwrap();
    assert_eq!(
        game.handle_message(&Message::PlayLand(0, 3001, oid)),
        Err(HandleError::CardIdError)
    );
    let object = game.objects.get(&oid).unwrap();
    assert_eq!(object.kind, ObjectKind::Card(1001));
    assert_eq!(object.location, ObjectLocation::Battlefield);
}

#[test]
fn discard_moves_the_card_to_the_graveyard() {
    let repo = load_cards();
    let mut game = two_player_game(&repo);
    game.handle_message(&Message::AddCard { id: 1001, owner_id: 0, def_id: LAND }).unwrap();
    game.handle_message(&Message::DrawCard(0, 1001)).unwrap();
    game.handle_message(&Message::Discard(0, 1001)).unwrap();
    assert!(game.players[0].hand.is_empty());
    assert_eq!(game.players[0].graveyard, vec![1001]);
}

#[test]
fn priority_round_trip_with_passes() {
    let repo = load_cards();
    let mut game = two_player_game(&repo);
    game.handle_message(&Message::Substep(Substep::PlayerPriority)).unwrap();
    game.handle_message(&Message::PlayerHasPriority(0)).unwrap();
    // Round 1: no pending answer, so the generator issues the query.
    let msgs = next_step(&game);
    assert_eq!(
        msgs,
        vec![Message::Query(Query::PriorityAction(vec![PriorityAction::Pass]))]
    );
    for m in &msgs {
        game.handle_message(m).unwrap();
    }
    // The driver stores an answer; the next round accepts it and passes.
    game.maybe_answer = Some(Answer::PriorityAction(PriorityAction::Pass));
    let msgs = next_step(&game);
    assert_eq!(msgs, vec![Message::AcceptAnswer, Message::PlayerPasses(0)]);
    for m in &msgs {
        game.handle_message(m).unwrap();
    }
    assert!(game.players[0].has_passed);
    // Priority hands over to the other player, who has not passed yet.
    assert_eq!(next_step(&game), vec![Message::PlayerHasPriority(1)]);
}

#[test]
fn a_rejected_answer_reissues_the_query() {
    let repo = load_cards();
    let mut game = two_player_game(&repo);
    game.handle_message(&Message::Substep(Substep::PlayerPriority)).unwrap();
    game.handle_message(&Message::PlayerHasPriority(0)).unwrap();
    game.maybe_answer = Some(Answer::PriorityAction(PriorityAction::PlayLand(9999)));
    let msgs = next_step(&game);
    assert_eq!(
        msgs,
        vec![
            Message::RejectAnswer,
            Message::Query(Query::PriorityAction(vec![PriorityAction::Pass]))
        ]
    );
}

#[test]
fn step_table_skips_combat_without_attackers() {
    let repo = load_cards();
    let mut game = two_player_game(&repo);
    game.handle_message(&Message::Substep(Substep::EndOfStep)).unwrap();
    game.handle_message(&Message::Step(Step::DeclareAttackers)).unwrap();
    let msgs = next_step(&game);
    assert_eq!(
        msgs,
        vec![
            Message::Step(Step::EndOfCombat),
            Message::Substep(Substep::BeginOfStep)
        ]
    );
    // A turn rollover happens exactly when cleanup ends.
    game.handle_message(&Message::Step(Step::Cleanup)).unwrap();
    let msgs = next_step(&game);
    assert_eq!(
        msgs,
        vec![
            Message::BeginTurn(1),
            Message::Step(Step::Untap),
            Message::Substep(Substep::BeginOfStep)
        ]
    );
}

#[test]
fn a_fresh_player_starts_clean() {
    let p = duelcore::player::Player::new(3, "Ada".to_string());
    assert_eq!(p.id, 3);
    assert_eq!(p.name, "Ada");
    assert!(p.library.is_empty());
    assert!(p.hand.is_empty());
    assert!(p.graveyard.is_empty());
    assert_eq!(p.life, 20);
    assert_eq!(p.lands_played, 0);
    assert!(!p.has_drawn_from_empty && !p.has_lost && !p.has_passed);
    assert_eq!(p.max_hand_size(), 7);
}

#[test]
fn spell_resolution_yields_no_messages_yet() {
    let spell = duelcore::game::Spell { id: 9 };
    assert!(spell.resolve().is_empty());
}

#[test]
fn starting_priority_grants_it_to_the_active_player() {
    let repo = load_cards();
    let mut game = two_player_game(&repo);
    game.handle_message(&Message::BeginTurn(1)).unwrap();
    let msgs = duelcore::generator::start_player_priority(&game);
    assert_eq!(
        msgs,
        vec![
            Message::Substep(Substep::PlayerPriority),
            Message::PlayerHasPriority(1)
        ]
    );
}

#[test]
fn begin_turn_resets_lands_played_of_the_new_active_player() {
    let repo = load_cards();
    let mut game = two_player_game(&repo);
    game.handle_message(&Message::AddCard { id: 1001, owner_id: 1, def_id: LAND }).unwrap();
    game.handle_message(&Message::DrawCard(1, 1001)).unwrap();
    game.handle_message(&Message::PlayLand(1, 1001, game.next_id)).unwrap();
    assert_eq!(game.players[1].lands_played, 1);
    game.handle_message(&Message::BeginTurn(1)).unwrap();
    assert_eq!(game.active_player_id, 1);
    assert_eq!(game.players[1].lands_played, 0);
    game.handle_message(&Message::GetPriority(1)).unwrap();
    assert_eq!(game.priority_player_id, 1);
}

#[test]
fn asking_a_query_follows_the_protocol() {
    let repo = load_cards();
    let mut game = two_player_game(&repo);
    let offered = Query::PriorityAction(vec![PriorityAction::Pass]);

    // No pending answer: the query is issued.
    let mut msgs: Vec<Message> = Vec::new();
    let r = duelcore::generator::ask_query(&game, &mut msgs, offered.clone());
    assert!(r.is_none());
    assert_eq!(msgs, vec![Message::Query(offered.clone())]);

    // A pending answer that validates is accepted and returned.
    game.maybe_answer = Some(Answer::PriorityAction(PriorityAction::Pass));
    let mut msgs: Vec<Message> = Vec::new();
    let r = duelcore::generator::ask_query(&game, &mut msgs, offered.clone());
    assert_eq!(r, Some(Answer::PriorityAction(PriorityAction::Pass)));
    assert_eq!(msgs, vec![Message::AcceptAnswer]);

    // A pending answer that fails validation is rejected; the query is
    // re-issued.
    game.maybe_answer = Some(Answer::Discard(vec![1]));
    let mut msgs: Vec<Message> = Vec::new();
    let r = duelcore::generator::ask_query(&game, &mut msgs, offered.clone());
    assert!(r.is_none());
    assert_eq!(
        msgs,
        vec![Message::RejectAnswer, Message::Query(offered.clone())]
    );
}

#[test]
fn query_messages_store_the_pending_query() {
    let repo = load_cards();
    let mut game = two_player_game(&repo);
    let q = Query::Discard(vec![1, 2], 1);
    game.maybe_answer = Some(Answer::Discard(vec![1]));
    game.handle_message(&Message::Query(q.clone())).unwrap();
    assert_eq!(game.maybe_query, Some(q));
    // Storing a query clears any pending answer.
    assert_eq!(game.maybe_answer, None);
    game.handle_message(&Message::AcceptAnswer).unwrap();
    assert_eq!(game.maybe_query, None);
}

#[test]
fn a_finished_game_generates_nothing() {
    let repo = load_cards();
    let mut game = two_player_game(&repo);
    game.handle_message(&Message::Substep(Substep::GameEnded)).unwrap();
    assert!(next_step(&game).is_empty());
    assert!(next_step(&game).is_empty());
}
