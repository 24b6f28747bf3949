use crate::game::{Game, GameV};
use crate::messages::{
    lemma_msgs_view_add, lemma_msgs_view_push, msgs_view, spec_validate_answer, Answer, AnswerV,
    CardID, Message, MessageV, PlayerID, PriorityAction, Query, QueryV, Step, Substep,
};
use crate::player::{Player, PlayerV};
use vstd::prelude::*;
use vstd::seq_lib::*;

verus! {

// ---------------------------------------------------------------------------
// Drawing cards
// ---------------------------------------------------------------------------
/// The first `k` draw messages for `p`: the library is drawn from its tail.
pub open spec fn spec_draw_run(p: PlayerV, k: int) -> Seq<MessageV> {
    Seq::new(k as nat, |i: int| MessageV::DrawCard(p.id, p.library[p.library.len() - 1 - i]))
}

/// The messages that drawing `count` cards yields: one draw per card while
/// the library lasts, then a single draw-from-empty on exhaustion.
pub open spec fn spec_try_draw_cards(p: PlayerV, count: int) -> Seq<MessageV> {
    if count <= p.library.len() {
        spec_draw_run(p, count)
    } else {
        spec_draw_run(p, p.library.len() as int) + seq![MessageV::DrawFromEmpty(p.id)]
    }
}

/// One draw: the top of the library, or draw-from-empty.
pub open spec fn spec_try_draw_card(p: PlayerV) -> MessageV {
    if p.library.len() > 0 {
        MessageV::DrawCard(p.id, p.library.last())
    } else {
        MessageV::DrawFromEmpty(p.id)
    }
}

/// Messages to draw up to `count` cards for `player`, drawing from the tail
/// of the library, with a draw-from-empty once it runs out.
pub fn try_draw_cards(player: &Player, count: usize) -> (msg: Vec<Message>)
    ensures
        msgs_view(msg@) == spec_try_draw_cards(player@, count as int),
{
    let mut msg: Vec<Message> = Vec::new();
    let n = player.library.len();
    let draws = if count <= n {
        count
    } else {
        n
    };
    let mut i: usize = 0;
    while i < draws
        invariant
            i <= draws,
            draws <= n,
            n == player@.library.len(),
            msgs_view(msg@) =~= spec_draw_run(player@, i as int),
        decreases draws - i,
    {
        let card_id = player.library[n - 1 - i];
        let ghost m0 = msg@;
        msg.push(Message::DrawCard(player.id, card_id));
        proof {
            lemma_msgs_view_push(m0, Message::DrawCard(player.id, card_id));
            assert(msgs_view(msg@) =~= spec_draw_run(player@, i + 1));
        }
        i = i + 1;
    }
    if count > n {
        let ghost m0 = msg@;
        msg.push(Message::DrawFromEmpty(player.id));
        proof {
            lemma_msgs_view_push(m0, Message::DrawFromEmpty(player.id));
        }
    }
    proof {
        assert(msgs_view(msg@) =~= spec_try_draw_cards(player@, count as int));
    }
    msg
}

/// The single message for one draw.
pub fn try_draw_card(player: &Player) -> (r: Message)
    ensures
        r@ == spec_try_draw_card(player@),
{
    if player.library.len() > 0 {
        Message::DrawCard(player.id, player.library[player.library.len() - 1])
    } else {
        Message::DrawFromEmpty(player.id)
    }
}

// ---------------------------------------------------------------------------
// State-based actions
// ---------------------------------------------------------------------------
/// A player's loss condition: its life is gone or it has drawn from an
/// empty library.
pub open spec fn spec_loss_condition(p: PlayerV) -> bool {
    p.life <= 0 || p.has_drawn_from_empty
}

/// A newly found loss: the loss condition holds of a player not yet marked
/// lost. Already-marked players get no second loss message.
pub open spec fn spec_is_new_loser(p: PlayerV) -> bool {
    spec_loss_condition(p) && !p.has_lost
}

/// The new-loss messages for the first `i` players, in player order.
pub open spec fn spec_loser_msgs(players: Seq<PlayerV>, i: int) -> Seq<MessageV>
    decreases i,
{
    if i <= 0 {
        Seq::empty()
    } else {
        spec_loser_msgs(players, i - 1) + if spec_is_new_loser(players[i - 1]) {
            seq![MessageV::PlayerLoses(players[i - 1].id)]
        } else {
            Seq::empty()
        }
    }
}

/// How many of the first `i` players are already marked lost.
pub open spec fn spec_count_lost(players: Seq<PlayerV>, i: int) -> int
    decreases i,
{
    if i <= 0 {
        0
    } else {
        spec_count_lost(players, i - 1) + if players[i - 1].has_lost {
            1int
        } else {
            0int
        }
    }
}

/// The first player from `j` on that is not marked lost; the player count if
/// every one of them is.
pub open spec fn spec_first_alive_from(players: Seq<PlayerV>, j: int) -> int
    decreases players.len() - j,
{
    if j < 0 || j >= players.len() {
        players.len() as int
    } else if !players[j].has_lost {
        j
    } else {
        spec_first_alive_from(players, j + 1)
    }
}

pub proof fn lemma_first_alive_from(players: Seq<PlayerV>, j: int, k: int)
    requires
        0 <= j <= k < players.len(),
        forall|t: int| j <= t < k ==> players[t].has_lost,
        !players[k].has_lost,
    ensures
        spec_first_alive_from(players, j) == k,
    decreases k - j,
{
    if j < k {
        lemma_first_alive_from(players, j + 1, k);
    }
}

pub proof fn lemma_count_lost_all(players: Seq<PlayerV>, i: int)
    requires
        0 <= i <= players.len(),
        forall|t: int| 0 <= t < i ==> players[t].has_lost,
    ensures
        spec_count_lost(players, i) == i,
    decreases i,
{
    if i > 0 {
        lemma_count_lost_all(players, i - 1);
    }
}

/// What the state-based-action check emits: a loss for every player whose
/// loss condition holds and who is not yet marked lost, re-checked next
/// cycle; only when no new loss was found is the end decided — the end of
/// the game if every player is marked lost, or the one remaining player's
/// win and the end of the game.
pub open spec fn spec_state_based_actions(g: GameV) -> Seq<MessageV> {
    let new_losses = spec_loser_msgs(g.players, g.players.len() as int);
    let n_lost = spec_count_lost(g.players, g.players.len() as int);
    if new_losses.len() > 0 {
        new_losses
    } else if n_lost == g.players.len() {
        seq![MessageV::Substep(Substep::GameEnded)]
    } else if n_lost == g.players.len() - 1 {
        seq![
            MessageV::PlayerWins(g.players[spec_first_alive_from(g.players, 0)].id),
            MessageV::Substep(Substep::GameEnded),
        ]
    } else {
        Seq::empty()
    }
}

/// The state-based-action check. A loss is emitted only for a player not
/// yet marked lost; the end of the game is decided only once no new loss
/// was found. Winning is also a state-based action here, contrary to the
/// paper rules.
pub fn state_based_actions(game: &Game) -> (msg: Vec<Message>)
    ensures
        msgs_view(msg@) == spec_state_based_actions(game@),
{
    let mut msg: Vec<Message> = Vec::new();
    let n = game.players.len();
    let mut i: usize = 0;
    while i < n
        invariant
            i <= n,
            n == game.players@.len(),
            game@.players.len() == n,
            msgs_view(msg@) =~= spec_loser_msgs(game@.players, i as int),
        decreases n - i,
    {
        let player = &game.players[i];
        if (player.life <= 0 || player.has_drawn_from_empty) && !player.has_lost {
            let ghost m0 = msg@;
            msg.push(Message::PlayerLoses(player.id));
            proof {
                lemma_msgs_view_push(m0, Message::PlayerLoses(player.id));
            }
        }
        proof {
            assert(msgs_view(msg@) =~= spec_loser_msgs(game@.players, i + 1));
        }
        i = i + 1;
    }
    if msg.len() > 0 {
        // New losses found: emit them alone, re-checked next cycle.
        proof {
            assert(msgs_view(msg@) =~= spec_state_based_actions(game@));
        }
        return msg;
    }
    let mut lost: usize = 0;
    let mut j: usize = 0;
    while j < n
        invariant
            j <= n,
            n == game.players@.len(),
            game@.players.len() == n,
            lost <= j,
            lost == spec_count_lost(game@.players, j as int),
        decreases n - j,
    {
        if game.players[j].has_lost {
            lost = lost + 1;
        }
        j = j + 1;
    }
    if lost == n {
        let ghost m0 = msg@;
        msg.push(Message::Substep(Substep::GameEnded));
        proof {
            lemma_msgs_view_push(m0, Message::Substep(Substep::GameEnded));
            assert(msgs_view(msg@) =~= spec_state_based_actions(game@));
        }
        msg
    } else if lost == n - 1 {
        let mut k: usize = 0;
        while k < n
            invariant
                k <= n,
                n == game.players@.len(),
                game@.players.len() == n,
                n > 0,
                lost == spec_count_lost(game@.players, n as int),
                lost == n - 1,
                msg@.len() == 0,
                spec_loser_msgs(game@.players, n as int).len() == 0,
                forall|t: int| 0 <= t < k ==> game@.players[t].has_lost,
            decreases n - k,
        {
            if !game.players[k].has_lost {
                let winner_id = game.players[k].id;
                let ghost m0 = msg@;
                msg.push(Message::PlayerWins(winner_id));
                proof {
                    lemma_msgs_view_push(m0, Message::PlayerWins(winner_id));
                }
                let ghost m1 = msg@;
                msg.push(Message::Substep(Substep::GameEnded));
                proof {
                    lemma_msgs_view_push(m1, Message::Substep(Substep::GameEnded));
                    lemma_first_alive_from(game@.players, 0, k as int);
                    assert(msgs_view(msg@) =~= spec_state_based_actions(game@));
                }
                return msg;
            }
            k = k + 1;
        }
        proof {
            lemma_count_lost_all(game@.players, n as int);
            assert(false);
        }
        msg
    } else {
        proof {
            assert(msgs_view(msg@) =~= spec_state_based_actions(game@));
        }
        msg
    }
}

// ---------------------------------------------------------------------------
// Granting priority
// ---------------------------------------------------------------------------
/// No player shows a passed flag.
pub open spec fn all_unpassed(players: Seq<PlayerV>) -> bool {
    forall|j: int| 0 <= j < players.len() ==> !players[j].has_passed
}

/// Every player shows a passed flag.
pub open spec fn all_passed(players: Seq<PlayerV>) -> bool {
    forall|j: int| 0 <= j < players.len() ==> players[j].has_passed
}

/// Open a priority round, granting priority to the active player. Priority
/// may not restart while any player still shows a passed flag.
pub fn start_player_priority(game: &Game) -> (msg: Vec<Message>)
    requires
        all_unpassed(game@.players),
    ensures
        msgs_view(msg@) == seq![
            MessageV::Substep(Substep::PlayerPriority),
            MessageV::PlayerHasPriority(game@.active_player_id),
        ],
{
    let mut msg: Vec<Message> = Vec::new();
    msg.push(Message::Substep(Substep::PlayerPriority));
    msg.push(Message::PlayerHasPriority(game.active_player_id));
    proof {
        assert(msgs_view(msg@) =~= seq![
            MessageV::Substep(Substep::PlayerPriority),
            MessageV::PlayerHasPriority(game@.active_player_id),
        ]);
    }
    msg
}

// ---------------------------------------------------------------------------
// The query/answer protocol
// ---------------------------------------------------------------------------
/// What putting `q` to the decision provider in state `g` yields: the
/// messages to emit, and the accepted answer, if there is one. With no
/// pending answer the query is issued; a pending answer that validates is
/// accepted and returned; one that fails validation is rejected and the
/// query re-issued.
pub open spec fn spec_ask_query(g: GameV, q: QueryV) -> (Seq<MessageV>, Option<AnswerV>) {
    match g.maybe_answer {
        Some(a) => if spec_validate_answer(q, a) {
            (seq![MessageV::AcceptAnswer], Some(a))
        } else {
            (seq![MessageV::RejectAnswer, MessageV::Query(q)], None)
        },
        None => (seq![MessageV::Query(q)], None),
    }
}

// ---------------------------------------------------------------------------
// The step generator
// ---------------------------------------------------------------------------
/// Shuffle messages for the first `k` players, in player order.
pub open spec fn spec_shuffle_run(players: Seq<PlayerV>, k: int) -> Seq<MessageV> {
    Seq::new(k as nat, |i: int| MessageV::ShuffleLibrary(players[i].id))
}

/// The opening draws: seven cards for each of the first `i` players.
pub open spec fn spec_initial_draws(players: Seq<PlayerV>, i: int) -> Seq<MessageV>
    decreases i,
{
    if i <= 0 {
        Seq::empty()
    } else {
        spec_initial_draws(players, i - 1) + spec_try_draw_cards(players[i - 1], 7)
    }
}

/// Whether the card is a land by its registered definition. A card id that
/// resolves to no card or no definition offers nothing.
pub open spec fn spec_is_land(g: GameV, cid: CardID) -> bool {
    &&& g.cards.contains_key(cid)
    &&& g.card_repository.contains_key(g.cards[cid].def_id)
    &&& g.card_repository[g.cards[cid].def_id].mechanics.is_land
}

/// The play-land actions offered from the first `i` cards of `hand`.
pub open spec fn spec_land_actions(g: GameV, hand: Seq<CardID>, i: int) -> Seq<PriorityAction>
    decreases i,
{
    if i <= 0 {
        Seq::empty()
    } else {
        spec_land_actions(g, hand, i - 1) + if spec_is_land(g, hand[i - 1]) {
            seq![PriorityAction::PlayLand(hand[i - 1])]
        } else {
            Seq::empty()
        }
    }
}

/// The legal actions of the priority holder: always pass; play a land for
/// every land in hand, but only for the active player, in a main step,
/// under the one-land-per-turn limit.
pub open spec fn spec_legal_actions(g: GameV) -> Seq<PriorityAction> {
    let holder = g.players[g.priority_player_id as int];
    seq![PriorityAction::Pass] + if (g.step == Step::PrecombatMain || g.step
        == Step::PostcombatMain) && g.active_player_id == g.priority_player_id
        && holder.lands_played < 1 {
        spec_land_actions(g, holder.hand, holder.hand.len() as int)
    } else {
        Seq::empty()
    }
}

/// One round of the priority sub-machine.
pub open spec fn spec_player_priority(g: GameV) -> Seq<MessageV> {
    let holder = g.players[g.priority_player_id as int];
    if holder.has_passed {
        let next = (g.priority_player_id + 1) % (g.players.len() as int);
        if next == g.active_player_id {
            seq![MessageV::PriorityEnded, MessageV::Substep(Substep::ResolveStack)]
        } else {
            seq![MessageV::PlayerHasPriority(next as usize)]
        }
    } else {
        let q = QueryV::PriorityAction(spec_legal_actions(g));
        let asked = spec_ask_query(g, q);
        asked.0 + match asked.1 {
            Some(AnswerV::PriorityAction(action)) => match action {
                PriorityAction::Pass => seq![MessageV::PlayerPasses(holder.id)],
                PriorityAction::PlayLand(cid) => seq![
                    MessageV::PlayLand(g.priority_player_id, cid, g.next_id),
                ],
            },
            _ => Seq::empty(),
        }
    }
}

/// The step that follows `s` in the turn cycle. Attackers are never declared
/// (there is no declaration mechanism), so declare-attackers falls through
/// to end-of-combat.
pub open spec fn spec_step_table(s: Step) -> Step {
    match s {
        Step::Untap => Step::Upkeep,
        Step::Upkeep => Step::Draw,
        Step::Draw => Step::PrecombatMain,
        Step::PrecombatMain => Step::BeginCombat,
        Step::BeginCombat => Step::DeclareAttackers,
        Step::DeclareAttackers => Step::EndOfCombat,
        Step::DeclareBlockers => Step::FirstStrikeDamage,
        Step::FirstStrikeDamage => Step::SecondStrikeDamage,
        Step::SecondStrikeDamage => Step::EndOfCombat,
        Step::EndOfCombat => Step::PostcombatMain,
        Step::PostcombatMain => Step::End,
        Step::End => Step::Cleanup,
        Step::Cleanup => Step::Untap,
    }
}

/// Closing a step: on cleanup, a turn rollover to the next player first;
/// then the step transition and the move to begin-of-step.
pub open spec fn spec_end_of_step(g: GameV) -> Seq<MessageV> {
    (if g.step == Step::Cleanup {
        seq![
            MessageV::BeginTurn(
                (((g.active_player_id + 1) as int % g.players.len() as int) as usize),
            ),
        ]
    } else {
        Seq::empty()
    }) + seq![
        MessageV::Step(spec_step_table(g.step)),
        MessageV::Substep(Substep::BeginOfStep),
    ]
}

/// The discard messages for the chosen cards, in the chosen order.
pub open spec fn spec_discard_msgs(pid: PlayerID, ids: Seq<CardID>) -> Seq<MessageV> {
    Seq::new(ids.len(), |j: int| MessageV::Discard(pid, ids[j]))
}

/// Opening a step: the draw step draws one card for the active player; the
/// cleanup step forces a discard down to the maximum hand size through a
/// query; every other step proceeds to the state-based-action check.
pub open spec fn spec_begin_of_step(g: GameV) -> Seq<MessageV> {
    match g.step {
        Step::Draw => spec_try_draw_cards(g.players[g.active_player_id as int], 1) + seq![
            MessageV::Substep(Substep::CheckStateBasedActions),
        ],
        Step::Cleanup => {
            let p = g.players[g.active_player_id as int];
            let excess = p.hand.len() as int - 7;
            if excess > 0 {
                let q = QueryV::Discard(p.hand, excess);
                let asked = spec_ask_query(g, q);
                asked.0 + match asked.1 {
                    Some(AnswerV::Discard(card_ids)) => spec_discard_msgs(p.id, card_ids) + seq![
                        MessageV::Substep(Substep::EndOfStep),
                    ],
                    _ => Seq::empty(),
                }
            } else {
                seq![MessageV::Substep(Substep::EndOfStep)]
            }
        },
        _ => seq![MessageV::Substep(Substep::CheckStateBasedActions)],
    }
}

/// What the generator asks of the state it reads: the ids it indexes with
/// must address live players, priority may not restart while a player shows
/// a passed flag, and a forced discard count must fit the query's field.
/// The driver establishes these before every call.
pub open spec fn next_step_pre(g: GameV) -> bool {
    &&& (g.substep == Substep::CheckStateBasedActions && spec_state_based_actions(g).len() == 0)
        ==> all_unpassed(g.players)
    &&& g.substep == Substep::PlayerPriority ==> g.priority_player_id < g.players.len()
    &&& (g.substep == Substep::EndOfStep && g.step == Step::Cleanup) ==> g.active_player_id
        < g.players.len()
    &&& (g.substep == Substep::BeginOfStep && (g.step == Step::Draw || g.step == Step::Cleanup))
        ==> g.active_player_id < g.players.len()
    &&& (g.substep == Substep::BeginOfStep && g.step == Step::Cleanup) ==> g.players[
        g.active_player_id as int
    ].hand.len() <= 7 + i32::MAX
}

/// The step generator: a pure function of the observed state to the ordered
/// messages to apply next. Its output is valid only for the state it read,
/// so it must be re-invoked after every applied batch.
pub open spec fn spec_next_step(g: GameV) -> Seq<MessageV> {
    match g.substep {
        Substep::InitialShuffle => spec_shuffle_run(g.players, g.players.len() as int) + seq![
            MessageV::Substep(Substep::InitialDrawCards),
        ],
        Substep::InitialDrawCards => spec_initial_draws(g.players, g.players.len() as int) + seq![
            MessageV::Substep(Substep::CheckStateBasedActions),
        ],
        Substep::CheckStateBasedActions => {
            let actions = spec_state_based_actions(g);
            if actions.len() > 0 {
                actions
            } else {
                seq![
                    MessageV::Substep(Substep::PlayerPriority),
                    MessageV::PlayerHasPriority(g.active_player_id),
                ]
            }
        },
        Substep::PlayerPriority => spec_player_priority(g),
        Substep::ResolveStack => {
            if g.stack.len() > 0 {
                seq![MessageV::ResolveSpell(g.stack.last().id)]
            } else {
                seq![MessageV::Substep(Substep::EndOfStep)]
            }
        },
        Substep::EndOfStep => spec_end_of_step(g),
        Substep::BeginOfStep => spec_begin_of_step(g),
        Substep::GameEnded => Seq::empty(),
        _ => seq![MessageV::Substep(Substep::GameEnded)],
    }
}

/// Put `query` to the pending answer, appending the protocol messages to
/// `msg` and returning the accepted answer, if any.
pub fn ask_query(game: &Game, msg: &mut Vec<Message>, query: Query) -> (r: Option<Answer>)
    ensures
        msgs_view(final(msg)@) == msgs_view(old(msg)@) + spec_ask_query(game@, query@).0,
        match r {
            Some(ans) => spec_ask_query(game@, query@).1 == Some(ans@),
            None => spec_ask_query(game@, query@).1 is None,
        },
{
    match &game.maybe_answer {
        Some(answer) => {
            if crate::messages::validate_answer(&query, answer) {
                msg.push(Message::AcceptAnswer);
                let r = crate::messages::clone_answer(answer);
                proof {
                    lemma_msgs_view_push(old(msg)@, Message::AcceptAnswer);
                    assert(msgs_view(msg@) =~= msgs_view(old(msg)@) + spec_ask_query(
                        game@,
                        query@,
                    ).0);
                }
                Some(r)
            } else {
                msg.push(Message::RejectAnswer);
                proof {
                    lemma_msgs_view_push(old(msg)@, Message::RejectAnswer);
                }
                let ghost mid = msg@;
                msg.push(Message::Query(query));
                proof {
                    lemma_msgs_view_push(mid, Message::Query(query));
                    assert(msgs_view(msg@) =~= msgs_view(old(msg)@) + spec_ask_query(
                        game@,
                        query@,
                    ).0);
                }
                None
            }
        },
        None => {
            msg.push(Message::Query(query));
            proof {
                lemma_msgs_view_push(old(msg)@, Message::Query(query));
                assert(msgs_view(msg@) =~= msgs_view(old(msg)@) + spec_ask_query(game@, query@).0);
            }
            None
        },
    }
}

/// One generator call: the messages to apply to `game` next.
#[verifier::rlimit(100)]
pub fn next_step(game: &Game) -> (msg: Vec<Message>)
    requires
        next_step_pre(game@),
    ensures
        msgs_view(msg@) == spec_next_step(game@),
{
    let mut msg: Vec<Message> = Vec::new();
    match game.substep {
        Substep::InitialShuffle => {
            let n = game.players.len();
            let mut i: usize = 0;
            while i < n
                invariant
                    i <= n,
                    n == game.players@.len(),
                    msgs_view(msg@) =~= spec_shuffle_run(game@.players, i as int),
                decreases n - i,
            {
                let pid = game.players[i].id;
                let ghost m0 = msg@;
                msg.push(Message::ShuffleLibrary(pid));
                proof {
                    lemma_msgs_view_push(m0, Message::ShuffleLibrary(pid));
                    assert(msgs_view(msg@) =~= spec_shuffle_run(game@.players, i + 1));
                }
                i = i + 1;
            }
            let ghost m0 = msg@;
            msg.push(Message::Substep(Substep::InitialDrawCards));
            proof {
                lemma_msgs_view_push(m0, Message::Substep(Substep::InitialDrawCards));
                assert(msgs_view(msg@) =~= spec_next_step(game@));
            }
        },
        Substep::InitialDrawCards => {
            let n = game.players.len();
            let mut i: usize = 0;
            while i < n
                invariant
                    i <= n,
                    n == game.players@.len(),
                    msgs_view(msg@) =~= spec_initial_draws(game@.players, i as int),
                decreases n - i,
            {
                let mut draws = try_draw_cards(&game.players[i], 7);
                let ghost m0 = msg@;
                let ghost d0 = draws@;
                msg.append(&mut draws);
                proof {
                    lemma_msgs_view_add(m0, d0);
                    assert(msgs_view(msg@) =~= spec_initial_draws(game@.players, i + 1));
                }
                i = i + 1;
            }
            let ghost m0 = msg@;
            msg.push(Message::Substep(Substep::CheckStateBasedActions));
            proof {
                lemma_msgs_view_push(m0, Message::Substep(Substep::CheckStateBasedActions));
                assert(msgs_view(msg@) =~= spec_next_step(game@));
            }
        },
        Substep::CheckStateBasedActions => {
            let mut actions = state_based_actions(game);
            if actions.len() > 0 {
                let ghost a0 = actions@;
                msg.append(&mut actions);
                proof {
                    lemma_msgs_view_add(Seq::empty(), a0);
                    assert(msg@ =~= Seq::empty() + a0);
                    assert(msgs_view(msg@) =~= spec_next_step(game@));
                }
            } else {
                let mut pr = start_player_priority(game);
                let ghost p0 = pr@;
                msg.append(&mut pr);
                proof {
                    assert(msg@ =~= p0);
                    assert(msgs_view(msg@) =~= spec_next_step(game@));
                }
            }
        },
        Substep::PlayerPriority => {
            let holder = game.priority_player_id;
            proof {
                assert(game@.substep == Substep::PlayerPriority);
                assert(holder < game@.players.len());
            }
            if game.players[holder].has_passed {
                let n_players = game.players.len();
                proof {
                    assert(holder < n_players);
                }
                let next_player_id = (holder + 1) % n_players;
                if next_player_id == game.active_player_id {
                    let ghost m0 = msg@;
                    msg.push(Message::PriorityEnded);
                    proof {
                        lemma_msgs_view_push(m0, Message::PriorityEnded);
                    }
                    let ghost m1 = msg@;
                    msg.push(Message::Substep(Substep::ResolveStack));
                    proof {
                        lemma_msgs_view_push(m1, Message::Substep(Substep::ResolveStack));
                        assert(msgs_view(msg@) =~= spec_next_step(game@));
                    }
                } else {
                    let ghost m0 = msg@;
                    msg.push(Message::PlayerHasPriority(next_player_id));
                    proof {
                        lemma_msgs_view_push(m0, Message::PlayerHasPriority(next_player_id));
                        assert(msgs_view(msg@) =~= spec_next_step(game@));
                    }
                }
            } else {
                let mut actions: Vec<PriorityAction> = Vec::new();
                actions.push(PriorityAction::Pass);
                if (matches!(game.step, Step::PrecombatMain) || matches!(
                    game.step,
                    Step::PostcombatMain,
                )) && game.active_player_id == holder {
                    if game.players[holder].lands_played < 1 {
                        let hand_len = game.players[holder].hand.len();
                        let mut hi: usize = 0;
                        while hi < hand_len
                            invariant
                                hi <= hand_len,
                                holder == game@.priority_player_id,
                                holder < game@.players.len(),
                                hand_len == game@.players[holder as int].hand.len(),
                                actions@ =~= seq![PriorityAction::Pass] + spec_land_actions(
                                    game@,
                                    game@.players[holder as int].hand,
                                    hi as int,
                                ),
                            decreases hand_len - hi,
                        {
                            let cid = game.players[holder].hand[hi];
                            let is_land = match game.cards.get(&cid) {
                                Some(card) => match game.card_repository.get(&card.def_id) {
                                    Some(d) => d.mechanics.is_land,
                                    None => false,
                                },
                                None => false,
                            };
                            if is_land {
                                actions.push(PriorityAction::PlayLand(cid));
                            }
                            proof {
                                assert(actions@ =~= seq![PriorityAction::Pass] + spec_land_actions(
                                    game@,
                                    game@.players[holder as int].hand,
                                    hi + 1,
                                ));
                            }
                            hi = hi + 1;
                        }
                    }
                }
                proof {
                    assert(actions@ =~= spec_legal_actions(game@));
                }
                let query = Query::PriorityAction(actions);
                let ghost qv = query@;
                proof {
                    assert(qv == QueryV::PriorityAction(spec_legal_actions(game@)));
                }
                match ask_query(game, &mut msg, query) {
                    Some(answer) => {
                        match answer {
                            Answer::PriorityAction(action) => {
                                match action {
                                    PriorityAction::Pass => {
                                        let pid = game.players[holder].id;
                                        let ghost m0 = msg@;
                                        msg.push(Message::PlayerPasses(pid));
                                        proof {
                                            lemma_msgs_view_push(m0, Message::PlayerPasses(pid));
                                            assert(msgs_view(msg@) =~= spec_next_step(game@));
                                        }
                                    },
                                    PriorityAction::PlayLand(cid) => {
                                        let ghost m0 = msg@;
                                        msg.push(Message::PlayLand(holder, cid, game.next_id));
                                        proof {
                                            lemma_msgs_view_push(
                                                m0,
                                                Message::PlayLand(holder, cid, game.next_id),
                                            );
                                            assert(msgs_view(msg@) =~= spec_next_step(game@));
                                        }
                                    },
                                }
                            },
                            Answer::Discard(_) => {
                                // A discard answer cannot validate against a
                                // priority-action query.
                                proof {
                                    assert(msgs_view(msg@) =~= spec_next_step(game@));
                                }
                            },
                        }
                    },
                    None => {
                        proof {
                            assert(msgs_view(msg@) =~= spec_next_step(game@));
                        }
                    },
                }
            }
        },
        Substep::ResolveStack => {
            if game.stack.len() > 0 {
                let spell = game.stack[game.stack.len() - 1];
                let ghost m0 = msg@;
                msg.push(Message::ResolveSpell(spell.id));
                proof {
                    lemma_msgs_view_push(m0, Message::ResolveSpell(spell.id));
                }
                let mut resolved = spell.resolve();
                let ghost m1 = msg@;
                let ghost r0 = resolved@;
                msg.append(&mut resolved);
                proof {
                    lemma_msgs_view_add(m1, r0);
                    assert(msgs_view(msg@) =~= spec_next_step(game@));
                }
            } else {
                let ghost m0 = msg@;
                msg.push(Message::Substep(Substep::EndOfStep));
                proof {
                    lemma_msgs_view_push(m0, Message::Substep(Substep::EndOfStep));
                    assert(msgs_view(msg@) =~= spec_next_step(game@));
                }
            }
        },
        Substep::EndOfStep => {
            if matches!(game.step, Step::Cleanup) {
                proof {
                    assert(game@.substep == Substep::EndOfStep && game@.step == Step::Cleanup);
                    assert(game@.active_player_id < game@.players.len());
                }
                let n_players = game.players.len();
                proof {
                    assert(game.active_player_id < n_players);
                }
                let next_active = (game.active_player_id + 1) % n_players;
                let ghost m0 = msg@;
                msg.push(Message::BeginTurn(next_active));
                proof {
                    lemma_msgs_view_push(m0, Message::BeginTurn(next_active));
                }
            }
            let next = match game.step {
                Step::Untap => Step::Upkeep,
                Step::Upkeep => Step::Draw,
                Step::Draw => Step::PrecombatMain,
                Step::PrecombatMain => Step::BeginCombat,
                Step::BeginCombat => Step::DeclareAttackers,
                Step::DeclareAttackers => Step::EndOfCombat,
                Step::DeclareBlockers => Step::FirstStrikeDamage,
                Step::FirstStrikeDamage => Step::SecondStrikeDamage,
                Step::SecondStrikeDamage => Step::EndOfCombat,
                Step::EndOfCombat => Step::PostcombatMain,
                Step::PostcombatMain => Step::End,
                Step::End => Step::Cleanup,
                Step::Cleanup => Step::Untap,
            };
            let ghost m1 = msg@;
            msg.push(Message::Step(next));
            proof {
                lemma_msgs_view_push(m1, Message::Step(next));
            }
            let ghost m2 = msg@;
            msg.push(Message::Substep(Substep::BeginOfStep));
            proof {
                lemma_msgs_view_push(m2, Message::Substep(Substep::BeginOfStep));
                assert(msgs_view(msg@) =~= spec_next_step(game@));
            }
        },
        Substep::BeginOfStep => {
            match game.step {
                Step::Draw => {
                    let mut draws = try_draw_cards(&game.players[game.active_player_id], 1);
                    let ghost d0 = draws@;
                    msg.append(&mut draws);
                    proof {
                        lemma_msgs_view_add(Seq::empty(), d0);
                        assert(msg@ =~= Seq::empty() + d0);
                    }
                    let ghost m0 = msg@;
                    msg.push(Message::Substep(Substep::CheckStateBasedActions));
                    proof {
                        lemma_msgs_view_push(m0, Message::Substep(Substep::CheckStateBasedActions));
                        assert(msgs_view(msg@) =~= spec_next_step(game@));
                    }
                },
                Step::Cleanup => {
                    let active = game.active_player_id;
                    let hand_len = game.players[active].hand.len();
                    if hand_len > 7 {
                        let number_to_discard = hand_len - 7;
                        let hand_copy = crate::messages::clone_card_ids(&game.players[active].hand);
                        let query = Query::Discard(hand_copy, number_to_discard as i32);
                        let ghost qv = query@;
                        proof {
                            assert(qv == QueryV::Discard(
                                game@.players[active as int].hand,
                                game@.players[active as int].hand.len() - 7,
                            ));
                        }
                        match ask_query(game, &mut msg, query) {
                            Some(answer) => {
                                match answer {
                                    Answer::Discard(card_ids) => {
                                        let pid = game.players[active].id;
                                        let dn = card_ids.len();
                                        let mut di: usize = 0;
                                        let ghost mbase = msg@;
                                        while di < dn
                                            invariant
                                                di <= dn,
                                                dn == card_ids@.len(),
                                                msg@.len() == mbase.len() + di,
                                                mbase =~= msg@.subrange(0, mbase.len() as int),
                                                msgs_view(msg@) =~= msgs_view(mbase)
                                                    + spec_discard_msgs(
                                                    pid,
                                                    card_ids@.subrange(0, di as int),
                                                ),
                                            decreases dn - di,
                                        {
                                            let cid = card_ids[di];
                                            let ghost m0 = msg@;
                                            msg.push(Message::Discard(pid, cid));
                                            proof {
                                                lemma_msgs_view_push(m0, Message::Discard(pid, cid));
                                                assert(card_ids@.subrange(0, di + 1) =~= card_ids@.subrange(
                                                    0,
                                                    di as int,
                                                ).push(cid));
                                                assert(spec_discard_msgs(
                                                    pid,
                                                    card_ids@.subrange(0, di + 1),
                                                ) =~= spec_discard_msgs(
                                                    pid,
                                                    card_ids@.subrange(0, di as int),
                                                ).push(MessageV::Discard(pid, cid)));
                                                assert(msgs_view(msg@) =~= msgs_view(mbase)
                                                    + spec_discard_msgs(
                                                    pid,
                                                    card_ids@.subrange(0, di + 1),
                                                ));
                                            }
                                            di = di + 1;
                                        }
                                        proof {
                                            assert(card_ids@.subrange(0, dn as int) =~= card_ids@);
                                        }
                                        let ghost m1 = msg@;
                                        msg.push(Message::Substep(Substep::EndOfStep));
                                        proof {
                                            lemma_msgs_view_push(
                                                m1,
                                                Message::Substep(Substep::EndOfStep),
                                            );
                                            assert(msgs_view(msg@) =~= spec_next_step(game@));
                                        }
                                    },
                                    Answer::PriorityAction(_) => {
                                        // A priority answer cannot validate
                                        // against a discard query.
                                        proof {
                                            assert(msgs_view(msg@) =~= spec_next_step(game@));
                                        }
                                    },
                                }
                            },
                            None => {
                                proof {
                                    assert(msgs_view(msg@) =~= spec_next_step(game@));
                                }
                            },
                        }
                    } else {
                        let ghost m0 = msg@;
                        msg.push(Message::Substep(Substep::EndOfStep));
                        proof {
                            lemma_msgs_view_push(m0, Message::Substep(Substep::EndOfStep));
                            assert(msgs_view(msg@) =~= spec_next_step(game@));
                        }
                    }
                },
                _ => {
                    let ghost m0 = msg@;
                    msg.push(Message::Substep(Substep::CheckStateBasedActions));
                    proof {
                        lemma_msgs_view_push(m0, Message::Substep(Substep::CheckStateBasedActions));
                        assert(msgs_view(msg@) =~= spec_next_step(game@));
                    }
                },
            }
        },
        Substep::GameEnded => {
            // Terminal: repeat calls are a safe no-op and emit nothing.
            proof {
                assert(msgs_view(msg@) =~= spec_next_step(game@));
            }
        },
        _ => {
            let ghost m0 = msg@;
            msg.push(Message::Substep(Substep::GameEnded));
            proof {
                lemma_msgs_view_push(m0, Message::Substep(Substep::GameEnded));
                assert(msgs_view(msg@) =~= spec_next_step(game@));
            }
        },
    }
    msg
}

} // verus!
