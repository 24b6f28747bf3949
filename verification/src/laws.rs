use crate::game::{apply_msg, msg_enabled, GameV};
use crate::generator::{
    all_passed, spec_ask_query, spec_legal_actions, spec_loser_msgs, spec_next_step,
    spec_player_priority, spec_state_based_actions, spec_try_draw_cards,
};
use crate::messages::{
    spec_validate_answer, AnswerV, MessageV, PlayerID, PriorityAction, QueryV, Substep,
};
use crate::player::PlayerV;
use vstd::arithmetic::div_mod::{lemma_mod_self_0, lemma_small_mod};
use vstd::prelude::*;

verus! {

// ---------------------------------------------------------------------------
// Folding generator output back into the state
// ---------------------------------------------------------------------------
/// The state after a message list is applied front to back.
pub open spec fn spec_apply_all(g: GameV, msgs: Seq<MessageV>) -> GameV
    decreases msgs.len(),
{
    if msgs.len() == 0 {
        g
    } else {
        spec_apply_all(apply_msg(g, msgs[0]), msgs.drop_first())
    }
}

/// Whether the reducer accepts every message of the list in turn, each one
/// against the state the ones before it produced.
pub open spec fn spec_all_enabled(g: GameV, msgs: Seq<MessageV>) -> bool
    decreases msgs.len(),
{
    msgs.len() == 0 || (msg_enabled(g, msgs[0]) && spec_all_enabled(
        apply_msg(g, msgs[0]),
        msgs.drop_first(),
    ))
}

/// Folding distributes over concatenation.
pub proof fn lemma_apply_all_append(g: GameV, a: Seq<MessageV>, b: Seq<MessageV>)
    ensures
        spec_apply_all(g, a + b) == spec_apply_all(spec_apply_all(g, a), b),
    decreases a.len(),
{
    if a.len() == 0 {
        assert(a + b =~= b);
        assert(spec_apply_all(g, a) == g);
    } else {
        assert((a + b)[0] == a[0]);
        assert((a + b).drop_first() =~= a.drop_first() + b);
        lemma_apply_all_append(apply_msg(g, a[0]), a.drop_first(), b);
    }
}

/// Acceptance composes over concatenation.
pub proof fn lemma_all_enabled_append(g: GameV, a: Seq<MessageV>, b: Seq<MessageV>)
    requires
        spec_all_enabled(g, a),
        spec_all_enabled(spec_apply_all(g, a), b),
    ensures
        spec_all_enabled(g, a + b),
    decreases a.len(),
{
    if a.len() == 0 {
        assert(a + b =~= b);
        assert(spec_apply_all(g, a) == g);
    } else {
        assert((a + b)[0] == a[0]);
        assert((a + b).drop_first() =~= a.drop_first() + b);
        lemma_all_enabled_append(apply_msg(g, a[0]), a.drop_first(), b);
    }
}

/// One driver round: generate from the state, then apply everything that
/// was generated.
pub open spec fn spec_round(g: GameV) -> GameV {
    spec_apply_all(g, spec_next_step(g))
}

/// `n` driver rounds.
pub open spec fn spec_rounds(g: GameV, n: int) -> GameV
    decreases n,
{
    if n <= 0 {
        g
    } else {
        spec_rounds(spec_round(g), n - 1)
    }
}

// ---------------------------------------------------------------------------
// Generator determinism
// ---------------------------------------------------------------------------
/// The generator is a function of the observed state alone: equal states
/// yield identical message sequences, however often it is invoked. Together
/// with `next_step`'s contract, which pins its output to `spec_next_step`,
/// repeated executable invocations on a fixed state return equal lists;
/// randomness enters play only through the shuffle reducer, never here.
pub proof fn lemma_generator_deterministic(g1: GameV, g2: GameV)
    requires
        g1 == g2,
    ensures
        spec_next_step(g1) == spec_next_step(g2),
{
}

// ---------------------------------------------------------------------------
// The generated match keeps its players
// ---------------------------------------------------------------------------
/// Applying anything but a player creation keeps the roster: the player
/// count, and every player's id and name.
pub proof fn lemma_apply_msg_keeps_roster(g: GameV, m: MessageV)
    requires
        !(m is CreatePlayer),
        msg_enabled(g, m),
    ensures
        apply_msg(g, m).players.len() == g.players.len(),
        forall|j: int|
            0 <= j < g.players.len() ==> (#[trigger] apply_msg(g, m).players[j]).id
                == g.players[j].id && apply_msg(g, m).players[j].name == g.players[j].name,
{
    match m {
        MessageV::PriorityEnded => {
            assert(apply_msg(g, m).players == crate::game::clear_passed(g.players));
            assert(crate::game::clear_passed(g.players).len() == g.players.len());
            assert forall|j: int| 0 <= j < g.players.len() implies (#[trigger] apply_msg(
                g,
                m,
            ).players[j]).id == g.players[j].id && apply_msg(g, m).players[j].name
                == g.players[j].name by {
                assert(crate::game::clear_passed(g.players)[j] == (PlayerV {
                    has_passed: false,
                    ..g.players[j]
                }));
            }
        },
        MessageV::CreatePlayer { .. } => {
            assert(false);
        },
        _ => {
            assert(apply_msg(g, m).players.len() == g.players.len());
        },
    }
}

/// The id counter never decreases: the one message that commits an id, a
/// land play, is accepted only with an id at or above the counter.
pub proof fn lemma_id_counter_monotonic(g: GameV, m: MessageV)
    requires
        msg_enabled(g, m),
    ensures
        apply_msg(g, m).next_id >= g.next_id,
{
}

/// Every board object's id lies below the id counter. A fresh match has no
/// objects, so the bound holds from the start.
pub open spec fn spec_objects_below(g: GameV) -> bool {
    forall|oid: crate::messages::ObjectID| #[trigger] g.objects.contains_key(oid) ==> oid
        < g.next_id
}

/// Committed object ids never collide, even under repeated preview: where
/// every object id lies below the counter, an accepted land play commits an
/// id that no existing object holds, and every accepted message keeps the
/// bound, because the commit moves the counter past the id it consumed.
pub proof fn lemma_committed_ids_never_collide(g: GameV, m: MessageV)
    requires
        spec_objects_below(g),
        msg_enabled(g, m),
    ensures
        spec_objects_below(apply_msg(g, m)),
        m matches MessageV::PlayLand(pid, cid, oid) ==> !g.objects.contains_key(oid) && apply_msg(
            g,
            m,
        ).objects.contains_key(oid),
{
    match m {
        MessageV::PlayLand(pid, cid, oid) => {
            assert(!g.objects.contains_key(oid));
            let g1 = apply_msg(g, m);
            assert forall|o: crate::messages::ObjectID| g1.objects.contains_key(
                o,
            ) implies o < g1.next_id by {
                if o != oid {
                    assert(g.objects.contains_key(o));
                }
            }
        },
        _ => {
            assert(apply_msg(g, m).objects == g.objects);
            assert(apply_msg(g, m).next_id >= g.next_id);
        },
    }
}

/// A shuffle keeps the roster: the player count, and every player's id and
/// name; only the shuffled library changes.
pub proof fn lemma_shuffle_keeps_roster(
    pre: GameV,
    pid: crate::messages::PlayerID,
    post: GameV,
)
    requires
        crate::game::shuffle_applied(pre, pid, post),
    ensures
        post.players.len() == pre.players.len(),
        forall|j: int|
            0 <= j < pre.players.len() ==> (#[trigger] post.players[j]).id == pre.players[j].id
                && post.players[j].name == pre.players[j].name,
{
    let lib = choose|lib: Seq<crate::messages::CardID>|
        #[trigger] lib.to_multiset() == pre.players[pid as int].library.to_multiset() && post == (
        GameV {
            players: pre.players.update(
                pid as int,
                PlayerV { library: lib, ..pre.players[pid as int] },
            ),
            ..pre
        });
    assert(post.players.len() == pre.players.len());
}

proof fn lemma_try_draw_cards_no_create(p: PlayerV, count: int)
    ensures
        forall|i: int|
            0 <= i < spec_try_draw_cards(p, count).len() ==> !((#[trigger] spec_try_draw_cards(
                p,
                count,
            )[i]) is CreatePlayer),
{
}

proof fn lemma_initial_draws_no_create(players: Seq<PlayerV>, n: int)
    ensures
        forall|i: int|
            0 <= i < crate::generator::spec_initial_draws(players, n).len() ==> !((
            #[trigger] crate::generator::spec_initial_draws(players, n)[i]) is CreatePlayer),
    decreases n,
{
    if n > 0 {
        lemma_initial_draws_no_create(players, n - 1);
        lemma_try_draw_cards_no_create(players[n - 1], 7);
    }
}

proof fn lemma_loser_msgs_no_create(players: Seq<PlayerV>, n: int)
    ensures
        forall|i: int|
            0 <= i < spec_loser_msgs(players, n).len() ==> !((#[trigger] spec_loser_msgs(
                players,
                n,
            )[i]) is CreatePlayer),
    decreases n,
{
    if n > 0 {
        lemma_loser_msgs_no_create(players, n - 1);
    }
}

/// The step generator never creates players: its whole vocabulary moves the
/// match that setup built.
pub proof fn lemma_next_step_emits_no_create(g: GameV)
    ensures
        forall|i: int|
            0 <= i < spec_next_step(g).len() ==> !((#[trigger] spec_next_step(
                g,
            )[i]) is CreatePlayer),
{
    let msgs = spec_next_step(g);
    match g.substep {
        Substep::InitialDrawCards => {
            lemma_initial_draws_no_create(g.players, g.players.len() as int);
        },
        Substep::CheckStateBasedActions => {
            lemma_loser_msgs_no_create(g.players, g.players.len() as int);
        },
        _ => {},
    }
}

// ---------------------------------------------------------------------------
// Accepted answers are members of the offered set
// ---------------------------------------------------------------------------
/// Whatever answer the protocol accepts validates structurally against the
/// query it was accepted for: an accepted priority action is a member of the
/// offered action list, and an accepted discard selects exactly the asked
/// number of cards, every one from the offered set.
pub proof fn lemma_accepted_answer_is_member(g: GameV, q: QueryV)
    ensures
        spec_ask_query(g, q).1 matches Some(a) ==> spec_validate_answer(q, a),
        match (q, spec_ask_query(g, q).1) {
            (QueryV::PriorityAction(actions), Some(a)) => a matches AnswerV::PriorityAction(act)
                && actions.contains(act),
            (QueryV::Discard(cards, n), Some(a)) => a matches AnswerV::Discard(sel) && sel.len()
                == n && forall|i: int| 0 <= i < sel.len() ==> cards.contains(#[trigger] sel[i]),
            _ => true,
        },
{
}

// ---------------------------------------------------------------------------
// An empty-library draw marks the player a loser
// ---------------------------------------------------------------------------
proof fn lemma_loser_msgs_contains(players: Seq<PlayerV>, i: int, k: int)
    requires
        0 <= k < i <= players.len(),
        crate::generator::spec_is_new_loser(players[k]),
    ensures
        spec_loser_msgs(players, i).contains(MessageV::PlayerLoses(players[k].id)),
    decreases i,
{
    let whole = spec_loser_msgs(players, i);
    let fore = spec_loser_msgs(players, i - 1);
    if k == i - 1 {
        assert(whole[fore.len() as int] == MessageV::PlayerLoses(players[k].id));
    } else {
        lemma_loser_msgs_contains(players, i - 1, k);
        let wi = choose|wi: int| 0 <= wi < fore.len() && fore[wi] == MessageV::PlayerLoses(
            players[k].id,
        );
        assert(whole[wi] == MessageV::PlayerLoses(players[k].id));
    }
}

/// Drawing from an empty library never aborts the match: the generator
/// emits a draw-from-empty message instead of a draw, the reducer accepts
/// it and marks the player, and the next state-based-action check emits
/// that player's loss (a new one: the player was not marked lost before).
pub proof fn lemma_empty_draw_marks_loser(g: GameV, pid: PlayerID)
    requires
        pid < g.players.len(),
        !g.players[pid as int].has_lost,
    ensures
        g.players[pid as int].library.len() == 0 ==> spec_try_draw_cards(g.players[pid as int], 1)
            =~= seq![MessageV::DrawFromEmpty(g.players[pid as int].id)],
        msg_enabled(g, MessageV::DrawFromEmpty(pid)),
        spec_state_based_actions(apply_msg(g, MessageV::DrawFromEmpty(pid))).contains(
            MessageV::PlayerLoses(g.players[pid as int].id),
        ),
{
    let g1 = apply_msg(g, MessageV::DrawFromEmpty(pid));
    assert(crate::generator::spec_is_new_loser(g1.players[pid as int]));
    lemma_loser_msgs_contains(g1.players, g1.players.len() as int, pid as int);
    let losers = spec_loser_msgs(g1.players, g1.players.len() as int);
    let wi = choose|wi: int| 0 <= wi < losers.len() && losers[wi] == MessageV::PlayerLoses(
        g1.players[pid as int].id,
    );
    assert(spec_state_based_actions(g1) == losers);
    assert(spec_state_based_actions(g1)[wi] == MessageV::PlayerLoses(g.players[pid as int].id));
}

// ---------------------------------------------------------------------------
// The opening draws
// ---------------------------------------------------------------------------
/// Applying a generated draw run moves exactly `count` cards, in order,
/// from the tail of the library into the hand; the reducer accepts every
/// one of them, and nothing else changes.
pub proof fn lemma_draw_batch(g: GameV, pid: PlayerID, count: int)
    requires
        pid < g.players.len(),
        g.players[pid as int].id == pid,
        0 <= count <= g.players[pid as int].library.len(),
    ensures
        spec_all_enabled(g, spec_try_draw_cards(g.players[pid as int], count)),
        spec_apply_all(g, spec_try_draw_cards(g.players[pid as int], count)) == (GameV {
            players: g.players.update(
                pid as int,
                PlayerV {
                    library: g.players[pid as int].library.take(
                        g.players[pid as int].library.len() - count,
                    ),
                    hand: g.players[pid as int].hand + Seq::new(
                        count as nat,
                        |i: int|
                            g.players[pid as int].library[g.players[pid as int].library.len() - 1
                                - i],
                    ),
                    ..g.players[pid as int]
                },
            ),
            ..g
        }),
    decreases count,
{
    let p = g.players[pid as int];
    let msgs = spec_try_draw_cards(p, count);
    let target_p = PlayerV {
        library: p.library.take(p.library.len() - count),
        hand: p.hand + Seq::new(count as nat, |i: int| p.library[p.library.len() - 1 - i]),
        ..p
    };
    if count == 0 {
        assert(msgs =~= Seq::<MessageV>::empty());
        assert(spec_apply_all(g, msgs) == g);
        assert(target_p.library =~= p.library);
        assert(target_p.hand =~= p.hand);
        assert(target_p == p);
        assert(g.players.update(pid as int, target_p) =~= g.players);
        assert(spec_apply_all(g, msgs) =~~= (GameV {
            players: g.players.update(pid as int, target_p),
            ..g
        }));
    } else {
        let m0 = MessageV::DrawCard(pid, p.library.last());
        assert(msgs[0] == m0);
        assert(msg_enabled(g, m0));
        let g1 = apply_msg(g, m0);
        let p1 = g1.players[pid as int];
        assert(p1 == (PlayerV {
            library: p.library.drop_last(),
            hand: p.hand.push(p.library.last()),
            ..p
        }));
        assert(g1.players.len() == g.players.len());
        assert(msgs.drop_first() =~= spec_try_draw_cards(p1, count - 1)) by {
            assert forall|i: int| 0 <= i < count - 1 implies msgs.drop_first()[i]
                == spec_try_draw_cards(p1, count - 1)[i] by {
                assert(msgs.drop_first()[i] == msgs[i + 1]);
            }
        }
        lemma_draw_batch(g1, pid, count - 1);
        assert(spec_all_enabled(g1, msgs.drop_first()));
        assert(spec_all_enabled(g, msgs));
        let sub_p = PlayerV {
            library: p1.library.take(p1.library.len() - (count - 1)),
            hand: p1.hand + Seq::new(
                (count - 1) as nat,
                |i: int| p1.library[p1.library.len() - 1 - i],
            ),
            ..p1
        };
        assert(spec_apply_all(g1, msgs.drop_first()) == (GameV {
            players: g1.players.update(pid as int, sub_p),
            ..g1
        }));
        assert(spec_apply_all(g, msgs) == spec_apply_all(g1, msgs.drop_first()));
        assert(sub_p.library =~= target_p.library);
        assert(sub_p.hand =~= target_p.hand);
        assert(sub_p == target_p);
        assert(g1.players.update(pid as int, sub_p) =~= g.players.update(pid as int, target_p));
        assert(spec_apply_all(g, msgs) =~~= (GameV {
            players: g.players.update(pid as int, target_p),
            ..g
        }));
    }
}

/// The opening-draw round: when both players' libraries hold at least seven
/// cards, one generator round at the initial-draw substep is fully
/// accepted and leaves each player with seven more cards in hand and that
/// many fewer in the library, the draw-from-empty flag untouched, and the
/// substep at the state-based-action check.
pub proof fn lemma_initial_draw_round(g: GameV)
    requires
        g.substep == Substep::InitialDrawCards,
        g.players.len() == 2,
        g.players[0].id == 0,
        g.players[1].id == 1,
        g.players[0].library.len() >= 7,
        g.players[1].library.len() >= 7,
    ensures
        spec_all_enabled(g, spec_next_step(g)),
        spec_round(g).substep == Substep::CheckStateBasedActions,
        spec_round(g).players.len() == 2,
        forall|p: int|
            0 <= p < 2 ==> {
                &&& (#[trigger] spec_round(g).players[p]).library.len() == g.players[
                    p
                ].library.len() - 7
                &&& spec_round(g).players[p].hand.len() == g.players[p].hand.len() + 7
                &&& spec_round(g).players[p].has_drawn_from_empty == g.players[
                    p
                ].has_drawn_from_empty
            },
{
    let msgs = spec_next_step(g);
    let d0 = spec_try_draw_cards(g.players[0], 7);
    let d1 = spec_try_draw_cards(g.players[1], 7);
    let fin = seq![MessageV::Substep(Substep::CheckStateBasedActions)];
    assert(crate::generator::spec_initial_draws(g.players, 0) == Seq::<MessageV>::empty());
    assert(crate::generator::spec_initial_draws(g.players, 1) =~= d0);
    assert(crate::generator::spec_initial_draws(g.players, 2) =~= d0 + d1);
    assert(msgs =~= (d0 + d1) + fin);
    lemma_draw_batch(g, 0, 7);
    let g1 = spec_apply_all(g, d0);
    assert(g1.players[1] == g.players[1]);
    assert(g1.players.len() == 2);
    assert(spec_try_draw_cards(g1.players[1], 7) == d1);
    lemma_draw_batch(g1, 1, 7);
    let g2 = spec_apply_all(g1, d1);
    assert(g2.players[0] == g1.players[0]);
    lemma_apply_all_append(g, d0, d1);
    assert(spec_apply_all(g, d0 + d1) == g2);
    let g3 = apply_msg(g2, fin[0]);
    assert(fin.drop_first() =~= Seq::<MessageV>::empty());
    assert(spec_apply_all(g3, fin.drop_first()) == g3);
    assert(spec_apply_all(g2, fin) == g3);
    lemma_apply_all_append(g, d0 + d1, fin);
    assert(spec_apply_all(g, msgs) == g3);
    assert(spec_round(g) == g3);
    // Every message of the round is accepted.
    assert(msg_enabled(g2, fin[0]));
    assert(spec_all_enabled(g3, fin.drop_first()));
    assert(spec_all_enabled(g2, fin));
    lemma_all_enabled_append(g, d0, d1);
    lemma_all_enabled_append(g, d0 + d1, fin);
    assert(spec_all_enabled(g, msgs));
    // The per-player outcome.
    assert(g3.substep == Substep::CheckStateBasedActions);
    assert(g3.players == g2.players);
    assert(g2.players[0].library.len() == g.players[0].library.len() - 7);
    assert(g2.players[0].hand.len() == g.players[0].hand.len() + 7);
    assert(g2.players[0].has_drawn_from_empty == g.players[0].has_drawn_from_empty);
    assert(g2.players[1].library.len() == g.players[1].library.len() - 7);
    assert(g2.players[1].hand.len() == g.players[1].hand.len() + 7);
    assert(g2.players[1].has_drawn_from_empty == g.players[1].has_drawn_from_empty);
}

// ---------------------------------------------------------------------------
// Priority termination
// ---------------------------------------------------------------------------
/// How many pass-advance rounds separate the priority holder `h` from the
/// wrap back to the active player `a`, among `n` players.
pub open spec fn spec_wrap_dist(h: int, a: int, n: int) -> int {
    if h < a {
        a - h - 1
    } else {
        a + n - h - 1
    }
}

/// Once every player has passed, the priority round is pure bookkeeping:
/// the substep stays in the priority round while priority is handed past
/// `r` passed players — `r` the cyclic distance from the holder to the wrap
/// back to the active player — and the round after that closes it, clearing
/// the flags and moving to stack resolution. From the active player as
/// holder that is exactly one round per player.
pub proof fn lemma_all_passed_rounds(g: GameV, r: int)
    requires
        g.substep == Substep::PlayerPriority,
        1 <= g.players.len(),
        g.active_player_id < g.players.len(),
        g.priority_player_id < g.players.len(),
        g.players.len() <= usize::MAX,
        all_passed(g.players),
        r == spec_wrap_dist(
            g.priority_player_id as int,
            g.active_player_id as int,
            g.players.len() as int,
        ),
    ensures
        spec_rounds(g, r + 1).substep == Substep::ResolveStack,
        forall|m: int| 0 <= m <= r ==> (#[trigger] spec_rounds(g, m)).substep
            == Substep::PlayerPriority,
    decreases r,
{
    let h = g.priority_player_id as int;
    let a = g.active_player_id as int;
    let n = g.players.len() as int;
    let msgs = spec_player_priority(g);
    let next = (h + 1) % n;
    if h + 1 < n {
        lemma_small_mod((h + 1) as nat, n as nat);
        assert(next == h + 1);
    } else {
        lemma_mod_self_0(n);
        assert(next == 0);
    }
    assert(spec_next_step(g) == msgs);
    if next == a {
        assert(r == 0);
        assert(msgs =~= seq![MessageV::PriorityEnded, MessageV::Substep(Substep::ResolveStack)]);
        let g1 = apply_msg(g, MessageV::PriorityEnded);
        let g2 = apply_msg(g1, MessageV::Substep(Substep::ResolveStack));
        assert(msgs.drop_first() =~= seq![MessageV::Substep(Substep::ResolveStack)]);
        assert(msgs.drop_first().drop_first() =~= Seq::<MessageV>::empty());
        assert(spec_apply_all(g2, msgs.drop_first().drop_first()) == g2);
        assert(msgs.drop_first()[0] == MessageV::Substep(Substep::ResolveStack));
        assert(spec_apply_all(g1, msgs.drop_first()) == g2);
        assert(msgs[0] == MessageV::PriorityEnded);
        assert(spec_apply_all(g, msgs) == g2);
        assert(spec_round(g) == g2);
        assert(g2.substep == Substep::ResolveStack);
        assert(spec_rounds(spec_round(g), 0) == spec_round(g));
        assert(spec_rounds(g, 0) == g);
        assert(spec_rounds(g, r + 1) == spec_round(g));
    } else {
        assert(r >= 1) by {
            if h < a {
            } else {
            }
        }
        assert(msgs =~= seq![MessageV::PlayerHasPriority(next as usize)]);
        let g1 = apply_msg(g, MessageV::PlayerHasPriority(next as usize));
        assert(msgs.drop_first() =~= Seq::<MessageV>::empty());
        assert(spec_apply_all(g1, msgs.drop_first()) == g1);
        assert(msgs[0] == MessageV::PlayerHasPriority(next as usize));
        assert(spec_apply_all(g, msgs) == g1);
        assert(spec_round(g) == g1);
        assert(g1.priority_player_id == next as usize);
        assert(spec_wrap_dist(next, a, n) == r - 1) by {
            if h < a {
            } else {
            }
        }
        assert(0 <= next < n);
        assert(g1.priority_player_id as int == next);
        assert(g1.active_player_id == g.active_player_id);
        assert(g1.players == g.players);
        assert(spec_wrap_dist(
            g1.priority_player_id as int,
            g1.active_player_id as int,
            g1.players.len() as int,
        ) == r - 1);
        lemma_all_passed_rounds(g1, r - 1);
        assert forall|m: int| 0 <= m <= r implies (#[trigger] spec_rounds(g, m)).substep
            == Substep::PlayerPriority by {
            if m >= 1 {
                assert(spec_rounds(g, m) == spec_rounds(g1, m - 1));
            }
        }
        assert(spec_rounds(g, r + 1) == spec_rounds(g1, r));
    }
}

/// Priority terminates: from a priority round in which only the active
/// player has not yet passed, the active player holds priority, and a
/// passing answer is already pending (a provider that always answers pass),
/// the substep stays in the priority round for the first `N` driver rounds
/// and reaches stack resolution in exactly round `N + 1`, `N` the player
/// count: one round to accept the pass, `N - 1` to hand priority past the
/// passed players, one to close the round.
pub proof fn lemma_priority_termination(g: GameV)
    requires
        g.substep == Substep::PlayerPriority,
        1 <= g.players.len(),
        g.active_player_id < g.players.len(),
        g.priority_player_id == g.active_player_id,
        g.players.len() <= usize::MAX,
        forall|j: int| 0 <= j < g.players.len() ==> (#[trigger] g.players[j].id) == j,
        forall|j: int|
            0 <= j < g.players.len() && j != g.active_player_id
                ==> (#[trigger] g.players[j]).has_passed,
        !g.players[g.active_player_id as int].has_passed,
        g.maybe_answer == Some(AnswerV::PriorityAction(PriorityAction::Pass)),
    ensures
        spec_rounds(g, g.players.len() as int + 1).substep == Substep::ResolveStack,
        forall|m: int| 0 <= m <= g.players.len() as int ==> (#[trigger] spec_rounds(g, m)).substep
            == Substep::PlayerPriority,
{
    let a = g.active_player_id as int;
    let n = g.players.len() as int;
    let actions = spec_legal_actions(g);
    assert(actions[0] == PriorityAction::Pass);
    assert(actions.contains(PriorityAction::Pass));
    let q = QueryV::PriorityAction(actions);
    assert(spec_validate_answer(q, AnswerV::PriorityAction(PriorityAction::Pass)));
    let msgs = spec_player_priority(g);
    assert(msgs =~= seq![MessageV::AcceptAnswer, MessageV::PlayerPasses(g.players[a].id)]);
    let g1 = apply_msg(g, MessageV::AcceptAnswer);
    let g2 = apply_msg(g1, MessageV::PlayerPasses(g.players[a].id));
    assert(msgs.drop_first() =~= seq![MessageV::PlayerPasses(g.players[a].id)]);
    assert(msgs.drop_first().drop_first() =~= Seq::<MessageV>::empty());
    assert(spec_next_step(g) == msgs);
    assert(spec_apply_all(g2, msgs.drop_first().drop_first()) == g2);
    assert(msgs.drop_first()[0] == MessageV::PlayerPasses(g.players[a].id));
    assert(spec_apply_all(g1, msgs.drop_first()) == g2);
    assert(msgs[0] == MessageV::AcceptAnswer);
    assert(spec_apply_all(g, msgs) == g2);
    assert(spec_round(g) == g2);
    assert(g2.players[a].has_passed);
    assert(all_passed(g2.players)) by {
        assert forall|j: int| 0 <= j < g2.players.len() implies (
        #[trigger] g2.players[j]).has_passed by {
            if j != a {
                assert(g2.players[j] == g.players[j]);
            }
        }
    }
    assert(spec_wrap_dist(a, a, n) == n - 1);
    lemma_all_passed_rounds(g2, n - 1);
    assert forall|m: int| 0 <= m <= n implies (#[trigger] spec_rounds(g, m)).substep
        == Substep::PlayerPriority by {
        if m >= 1 {
            assert(spec_rounds(g, m) == spec_rounds(g2, m - 1));
        }
    }
    assert(spec_rounds(g, n + 1) == spec_rounds(g2, n));
}

} // verus!
