use crate::card::{CardDefID, CardDefinition, CardRepository, Deck};
use crate::game::{apply_msg, msg_enabled, Game, GameV, Spell};
use crate::generator::{all_unpassed, next_step, next_step_pre, state_based_actions};
use crate::messages::{
    spec_query_wf, spec_validate_answer, Answer, CardID, HandleError, Message, MessageV, PlayerID,
    PriorityAction, Query, Step, Substep,
};
use crate::player::{fresh_player, PlayerV};
use vstd::prelude::*;
use vstd::seq_lib::*;

verus! {

/// A participant's identity outside the match.
#[derive(Debug)]
pub struct User {
    pub name: String,
}

/// A read-only observer, notified once per applied message in registration
/// order. Its result is discarded: a failing consumer must not corrupt the
/// match.
pub trait MessageConsumer {
    fn handle_message(&mut self, msg: &Message) -> Result<(), HandleError>;
}

/// Why a match was abandoned by the driver.
#[derive(Debug, Clone, Copy, PartialEq, Eq, Structural)]
pub enum DuelError {
    /// The reducer refused a generated message: a logic defect, fatal.
    Reducer(HandleError),
    /// The state no longer satisfies what the generator asks of it: an
    /// internal contract breach, fatal.
    InvariantBroken,
    /// The round budget ran out before the match ended.
    FuelExhausted,
}

/// A uniformly random structurally-valid answer to a well-formed query.
/// For a malformed query (one the generator never issues) the choice falls
/// back to an arbitrary answer, which the protocol will then reject.
pub fn random_answer(query: &Query) -> (r: Answer)
    ensures
        spec_query_wf(query@) ==> spec_validate_answer(query@, r@),
{
    match query {
        Query::Discard(cards, n) => {
            if *n < 0 {
                Answer::Discard(Vec::new())
            } else {
                let picked = crate::rng::choose_cards(cards, *n as usize);
                Answer::Discard(picked)
            }
        },
        Query::PriorityAction(actions) => {
            match crate::rng::choose_action(actions) {
                Some(action) => Answer::PriorityAction(action),
                None => Answer::PriorityAction(PriorityAction::Pass),
            }
        },
    }
}

// ---------------------------------------------------------------------------
// Deck expansion and match setup
// ---------------------------------------------------------------------------
/// The definition ids of the first `k` deck entries, each repeated by its
/// count, in input order.
pub open spec fn spec_deck_defs(d: Seq<(CardDefID, usize)>, k: int) -> Seq<CardDefID>
    decreases k,
{
    if k <= 0 {
        Seq::empty()
    } else {
        spec_deck_defs(d, k - 1) + Seq::new(d[k - 1].1 as nat, |i: int| d[k - 1].0)
    }
}

/// Every definition id of `defs` resolves in the repository.
pub open spec fn spec_defs_ok(repo: Map<CardDefID, CardDefinition>, defs: Seq<CardDefID>) -> bool {
    forall|i: int| 0 <= i < defs.len() ==> repo.contains_key(#[trigger] defs[i])
}

/// The card-creation messages for one deck: sequential ids from `base`, all
/// owned by `owner`.
pub open spec fn spec_addcard_run(base: int, owner: PlayerID, defs: Seq<CardDefID>) -> Seq<
    MessageV,
> {
    Seq::new(
        defs.len(),
        |i: int| MessageV::AddCard { id: (base + i) as usize, owner_id: owner, def_id: defs[i] },
    )
}

/// The whole setup batch: two player creations, then player 0's cards, then
/// player 1's, so starting ids are reproducible.
pub open spec fn spec_setup_msgs(
    name1: Seq<char>,
    name2: Seq<char>,
    defs1: Seq<CardDefID>,
    defs2: Seq<CardDefID>,
) -> Seq<MessageV> {
    seq![
        MessageV::CreatePlayer { id: 0, name: name1 },
        MessageV::CreatePlayer { id: 1, name: name2 },
    ] + spec_addcard_run(1001, 0, defs1) + spec_addcard_run(1001 + defs1.len() as int, 1, defs2)
}

/// The definition id committed by setup message `2 + k`.
pub open spec fn spec_def_at(defs1: Seq<CardDefID>, defs2: Seq<CardDefID>, k: int) -> CardDefID {
    if k < defs1.len() {
        defs1[k]
    } else {
        defs2[k - defs1.len()]
    }
}

/// The id range `[base, base + k)`, in order.
pub open spec fn spec_lib_ids(base: int, k: int) -> Seq<CardID> {
    Seq::new(k as nat, |i: int| (base + i) as usize)
}

/// Every registered card id lies below `bound`.
pub open spec fn spec_ids_below(g: GameV, bound: int) -> bool {
    forall|cid: CardID| #[trigger] g.cards.contains_key(cid) ==> cid < bound
}

/// Every card of the registry is owned by a live player and sits in that
/// player's library; each library holds no duplicates and only registered
/// cards of its own player.
pub open spec fn spec_cards_partition(g: GameV) -> bool {
    &&& forall|p: int, i: int|
        0 <= p < g.players.len() && 0 <= i < g.players[p].library.len() ==> {
            &&& g.cards.contains_key(#[trigger] g.players[p].library[i])
            &&& g.cards[g.players[p].library[i]].owner_id == p
        }
    &&& forall|p: int, i: int, j: int|
        #![trigger g.players[p].library[i], g.players[p].library[j]]
        0 <= p < g.players.len() && 0 <= i < g.players[p].library.len() && 0 <= j
            < g.players[p].library.len() && g.players[p].library[i] == g.players[p].library[j]
            ==> i == j
    &&& forall|cid: CardID| #[trigger] g.cards.contains_key(cid) ==> {
        &&& g.cards[cid].owner_id < g.players.len()
        &&& g.players[g.cards[cid].owner_id as int].library.contains(cid)
    }
}

/// The driver's invariant while the setup batch is applied, after `t` of its
/// messages.
pub open spec fn spec_setup_inv(
    g: GameV,
    repo: Map<CardDefID, CardDefinition>,
    name1: Seq<char>,
    name2: Seq<char>,
    n1: int,
    n2: int,
    t: int,
) -> bool {
    let c = if t <= 2 {
        0int
    } else {
        t - 2
    };
    let c1 = if c <= n1 {
        c
    } else {
        n1
    };
    let c2 = if c <= n1 {
        0int
    } else {
        c - n1
    };
    &&& g.card_repository == repo
    &&& g.substep == Substep::InitialShuffle
    &&& g.step == Step::Untap
    &&& g.active_player_id == 0
    &&& g.priority_player_id == 0
    &&& g.stack == Seq::<Spell>::empty()
    &&& g.maybe_query is None
    &&& g.maybe_answer is None
    &&& g.next_id == 1001 + n1 + n2
    &&& g.players.len() == (if t >= 2 {
        2int
    } else {
        t
    })
    &&& t >= 1 ==> g.players[0] == (PlayerV {
        library: spec_lib_ids(1001, c1),
        ..fresh_player(0, name1)
    })
    &&& t >= 2 ==> g.players[1] == (PlayerV {
        library: spec_lib_ids(1001 + n1, c2),
        ..fresh_player(1, name2)
    })
    &&& spec_ids_below(g, 1001 + c)
    &&& spec_cards_partition(g)
}

/// What a successful setup leaves behind: two fresh players holding their
/// expanded decks as libraries under sequential fresh ids, every card owned
/// by exactly one player's library, at the start of the initial shuffle.
pub open spec fn spec_setup_ok(
    g: GameV,
    repo: Map<CardDefID, CardDefinition>,
    name1: Seq<char>,
    name2: Seq<char>,
    n1: int,
    n2: int,
) -> bool {
    &&& g.players.len() == 2
    &&& g.players[0] == (PlayerV { library: spec_lib_ids(1001, n1), ..fresh_player(0, name1) })
    &&& g.players[1] == (PlayerV {
        library: spec_lib_ids(1001 + n1, n2),
        ..fresh_player(1, name2)
    })
    &&& g.substep == Substep::InitialShuffle
    &&& g.card_repository == repo
    &&& g.next_id == 1001 + n1 + n2
    &&& spec_cards_partition(g)
}

/// One step of the setup batch preserves the setup invariant, and a setup
/// message is refused exactly when its definition id does not resolve.
pub proof fn lemma_setup_step(
    g: GameV,
    repo: Map<CardDefID, CardDefinition>,
    name1: Seq<char>,
    name2: Seq<char>,
    defs1: Seq<CardDefID>,
    defs2: Seq<CardDefID>,
    t: int,
)
    requires
        0 <= t < spec_setup_msgs(name1, name2, defs1, defs2).len(),
        spec_setup_inv(g, repo, name1, name2, defs1.len() as int, defs2.len() as int, t),
        1001 + defs1.len() + defs2.len() <= usize::MAX,
    ensures
        t < 2 ==> msg_enabled(g, spec_setup_msgs(name1, name2, defs1, defs2)[t]),
        t >= 2 ==> (msg_enabled(g, spec_setup_msgs(name1, name2, defs1, defs2)[t])
            <==> repo.contains_key(spec_def_at(defs1, defs2, t - 2))),
        msg_enabled(g, spec_setup_msgs(name1, name2, defs1, defs2)[t]) ==> spec_setup_inv(
            apply_msg(g, spec_setup_msgs(name1, name2, defs1, defs2)[t]),
            repo,
            name1,
            name2,
            defs1.len() as int,
            defs2.len() as int,
            t + 1,
        ),
{
    let n1 = defs1.len() as int;
    let n2 = defs2.len() as int;
    let msgs = spec_setup_msgs(name1, name2, defs1, defs2);
    let m = msgs[t];
    if t == 0 {
        assert(m == MessageV::CreatePlayer { id: 0, name: name1 });
        assert(msg_enabled(g, m));
        let g1 = apply_msg(g, m);
        assert(g1.players[0] =~~= (PlayerV { library: spec_lib_ids(1001, 0), ..fresh_player(
            0,
            name1,
        ) }));
        assert(spec_setup_inv(g1, repo, name1, name2, n1, n2, 1));
    } else if t == 1 {
        assert(m == MessageV::CreatePlayer { id: 1, name: name2 });
        assert(msg_enabled(g, m));
        let g1 = apply_msg(g, m);
        assert(g1.players[0] == g.players[0]);
        assert(g1.players[1] =~~= (PlayerV { library: spec_lib_ids(1001 + n1, 0), ..fresh_player(
            1,
            name2,
        ) }));
        assert(spec_setup_inv(g1, repo, name1, name2, n1, n2, 2));
    } else {
        let k = t - 2;
        let c = k;
        let def = spec_def_at(defs1, defs2, k);
        let owner: PlayerID = if k < n1 {
            0
        } else {
            1
        };
        let id = (1001 + k) as usize;
        assert(m == MessageV::AddCard { id, owner_id: owner, def_id: def }) by {
            if k < n1 {
                assert(msgs[t] == spec_addcard_run(1001, 0, defs1)[k]);
            } else {
                assert(msgs[t] == spec_addcard_run(1001 + n1, 1, defs2)[k - n1]);
            }
        }
        assert(msg_enabled(g, m) <==> repo.contains_key(def));
        if msg_enabled(g, m) {
            let g1 = apply_msg(g, m);
            let p = g.players[owner as int];
            let card = crate::game::Card {
                id,
                public_id: 0,
                object_id: None,
                owner_id: owner,
                def_id: def,
            };
            assert(g1.cards == g.cards.insert(id, card));
            assert(g1.players == g.players.update(
                owner as int,
                PlayerV { library: p.library.push(id), ..p },
            ));
            // The pushed id extends the id range of the owner's library.
            if owner == 0 {
                assert(g1.players[0].library =~= spec_lib_ids(
                    1001,
                    if c + 1 <= n1 {
                        c + 1
                    } else {
                        n1
                    },
                ));
            } else {
                assert(g1.players[1].library =~= spec_lib_ids(1001 + n1, c + 1 - n1));
            }
            // Freshness: the new id tops the range.
            assert(spec_ids_below(g1, 1001 + c + 1)) by {
                assert forall|cid: CardID| g1.cards.contains_key(cid) implies cid < 1001 + c
                    + 1 by {
                    if cid != id {
                        assert(g.cards.contains_key(cid));
                    }
                }
            }
            // The partition survives: the new card is fresh, so it collides
            // with no library entry, and it lands in its owner's library.
            assert(spec_cards_partition(g1)) by {
                assert forall|pp: int, i: int|
                    0 <= pp < g1.players.len() && 0 <= i < g1.players[pp].library.len() implies {
                    &&& g1.cards.contains_key(#[trigger] g1.players[pp].library[i])
                    &&& g1.cards[g1.players[pp].library[i]].owner_id == pp
                } by {
                    if pp == owner as int && i == g.players[owner as int].library.len() {
                    } else {
                        assert(g1.players[pp].library[i] == g.players[pp].library[i]);
                        assert(g.cards.contains_key(g.players[pp].library[i]));
                        assert(g.players[pp].library[i] != id);
                    }
                }
                assert forall|pp: int, i: int, j: int|
                    0 <= pp < g1.players.len() && 0 <= i < g1.players[pp].library.len() && 0 <= j
                        < g1.players[pp].library.len() && #[trigger] g1.players[pp].library[i]
                        == #[trigger] g1.players[pp].library[j] implies i == j by {
                    let oldlen = g.players[owner as int].library.len();
                    if pp == owner as int {
                        if i != j {
                            if i < oldlen && j < oldlen {
                                assert(g.players[pp].library[i] == g.players[pp].library[j]);
                            } else if i < oldlen && j == oldlen {
                                assert(g.cards.contains_key(g.players[pp].library[i]));
                                assert(g.players[pp].library[i] != id);
                            } else if j < oldlen && i == oldlen {
                                assert(g.cards.contains_key(g.players[pp].library[j]));
                                assert(g.players[pp].library[j] != id);
                            }
                        }
                    } else {
                        assert(g.players[pp].library[i] == g.players[pp].library[j]);
                    }
                }
                assert forall|cid: CardID| g1.cards.contains_key(cid) implies {
                    &&& g1.cards[cid].owner_id < g1.players.len()
                    &&& g1.players[g1.cards[cid].owner_id as int].library.contains(cid)
                } by {
                    if cid == id {
                        let lib1 = g1.players[owner as int].library;
                        assert(lib1[lib1.len() - 1] == id);
                    } else {
                        assert(g.cards.contains_key(cid));
                        let po = g.cards[cid].owner_id;
                        assert(g.players[po as int].library.contains(cid));
                        let wi = choose|wi: int|
                            0 <= wi < g.players[po as int].library.len() && g.players[
                                po as int
                            ].library[wi] == cid;
                        assert(g1.players[po as int].library[wi] == cid);
                        assert(g1.players[po as int].library.contains(cid));
                    }
                }
            }
            assert(spec_setup_inv(g1, repo, name1, name2, n1, n2, t + 1));
        }
    }
}

/// Expand a deck deterministically, in input order, into the flat list of
/// definition ids to create cards from.
pub fn expand_deck(deck: &Deck) -> (r: Vec<CardDefID>)
    ensures
        r@ == spec_deck_defs(deck.0@, deck.0@.len() as int),
{
    let mut r: Vec<CardDefID> = Vec::new();
    let mut k: usize = 0;
    while k < deck.0.len()
        invariant
            k <= deck.0@.len(),
            r@ =~= spec_deck_defs(deck.0@, k as int),
        decreases deck.0@.len() - k,
    {
        let (def_id, count) = deck.0[k];
        let mut c: usize = 0;
        while c < count
            invariant
                c <= count,
                k < deck.0@.len(),
                def_id == deck.0@[k as int].0,
                count == deck.0@[k as int].1,
                r@ =~= spec_deck_defs(deck.0@, k as int) + Seq::new(
                    c as nat,
                    |i: int| deck.0@[k as int].0,
                ),
            decreases count - c,
        {
            r.push(def_id);
            proof {
                assert(r@ =~= spec_deck_defs(deck.0@, k as int) + Seq::new(
                    (c + 1) as nat,
                    |i: int| deck.0@[k as int].0,
                ));
            }
            c = c + 1;
        }
        proof {
            assert(r@ =~= spec_deck_defs(deck.0@, k + 1));
        }
        k = k + 1;
    }
    r
}

/// Create the match state for two users and their decks: two players, then
/// every card of both decks under sequential fresh ids, each applied through
/// the reducer and announced to the consumers. Fails exactly when a deck
/// names a definition the repository does not hold.
#[verifier::rlimit(60)]
pub fn setup_duel<'a, C: MessageConsumer>(
    user1: &User,
    deck1: &Deck,
    user2: &User,
    deck2: &Deck,
    consumers: &mut Vec<C>,
    card_repository: &'a CardRepository,
) -> (r: Result<Game<'a>, DuelError>)
    requires
        1001 + spec_deck_defs(deck1.0@, deck1.0@.len() as int).len() + spec_deck_defs(
            deck2.0@,
            deck2.0@.len() as int,
        ).len() <= usize::MAX,
    ensures
        r is Ok <==> spec_defs_ok(
            card_repository@,
            spec_deck_defs(deck1.0@, deck1.0@.len() as int),
        ) && spec_defs_ok(card_repository@, spec_deck_defs(deck2.0@, deck2.0@.len() as int)),
        r matches Ok(g) ==> spec_setup_ok(
            g@,
            card_repository@,
            user1.name@,
            user2.name@,
            spec_deck_defs(deck1.0@, deck1.0@.len() as int).len() as int,
            spec_deck_defs(deck2.0@, deck2.0@.len() as int).len() as int,
        ),
        r matches Err(e) ==> e == DuelError::Reducer(HandleError::CardDefIdError),
{
    let defs1 = expand_deck(deck1);
    let defs2 = expand_deck(deck2);
    let ghost n1 = defs1@.len() as int;
    let ghost n2 = defs2@.len() as int;
    let mut game = Game::new(card_repository);
    let ghost g0 = game@;

    let mut init_msg: Vec<Message> = Vec::new();
    init_msg.push(Message::CreatePlayer { id: 0, name: user1.name.clone() });
    init_msg.push(Message::CreatePlayer { id: 1, name: user2.name.clone() });
    proof {
        assert(crate::messages::msgs_view(init_msg@) =~= seq![
            MessageV::CreatePlayer { id: 0, name: user1.name@ },
            MessageV::CreatePlayer { id: 1, name: user2.name@ },
        ]);
    }

    let mut i: usize = 0;
    while i < defs1.len()
        invariant
            i <= defs1@.len(),
            n1 == defs1@.len(),
            n2 == defs2@.len(),
            1001 + n1 + n2 <= usize::MAX,
            game@ == (GameV { next_id: (1001 + i) as usize, ..g0 }),
            g0.next_id == 1001,
            crate::messages::msgs_view(init_msg@) =~= seq![
                MessageV::CreatePlayer { id: 0, name: user1.name@ },
                MessageV::CreatePlayer { id: 1, name: user2.name@ },
            ] + spec_addcard_run(1001, 0, defs1@.subrange(0, i as int)),
        decreases defs1@.len() - i,
    {
        let id = game.get_id();
        let ghost m0 = init_msg@;
        let m = Message::AddCard { id, owner_id: 0, def_id: defs1[i] };
        init_msg.push(m);
        proof {
            crate::messages::lemma_msgs_view_push(m0, m);
            assert(spec_addcard_run(1001, 0, defs1@.subrange(0, i + 1)) =~= spec_addcard_run(
                1001,
                0,
                defs1@.subrange(0, i as int),
            ).push(MessageV::AddCard { id, owner_id: 0, def_id: defs1@[i as int] }));
            assert(crate::messages::msgs_view(init_msg@) =~= seq![
                MessageV::CreatePlayer { id: 0, name: user1.name@ },
                MessageV::CreatePlayer { id: 1, name: user2.name@ },
            ] + spec_addcard_run(1001, 0, defs1@.subrange(0, i + 1)));
        }
        i = i + 1;
    }
    proof {
        assert(defs1@.subrange(0, n1) =~= defs1@);
    }

    let mut j: usize = 0;
    while j < defs2.len()
        invariant
            j <= defs2@.len(),
            n1 == defs1@.len(),
            n2 == defs2@.len(),
            1001 + n1 + n2 <= usize::MAX,
            game@ == (GameV { next_id: (1001 + n1 + j) as usize, ..g0 }),
            g0.next_id == 1001,
            crate::messages::msgs_view(init_msg@) =~= seq![
                MessageV::CreatePlayer { id: 0, name: user1.name@ },
                MessageV::CreatePlayer { id: 1, name: user2.name@ },
            ] + spec_addcard_run(1001, 0, defs1@) + spec_addcard_run(
                1001 + n1,
                1,
                defs2@.subrange(0, j as int),
            ),
        decreases defs2@.len() - j,
    {
        let id = game.get_id();
        let ghost m0 = init_msg@;
        let m = Message::AddCard { id, owner_id: 1, def_id: defs2[j] };
        init_msg.push(m);
        proof {
            crate::messages::lemma_msgs_view_push(m0, m);
            assert(spec_addcard_run(1001 + n1, 1, defs2@.subrange(0, j + 1)) =~= spec_addcard_run(
                1001 + n1,
                1,
                defs2@.subrange(0, j as int),
            ).push(MessageV::AddCard { id, owner_id: 1, def_id: defs2@[j as int] }));
            assert(crate::messages::msgs_view(init_msg@) =~= seq![
                MessageV::CreatePlayer { id: 0, name: user1.name@ },
                MessageV::CreatePlayer { id: 1, name: user2.name@ },
            ] + spec_addcard_run(1001, 0, defs1@) + spec_addcard_run(
                1001 + n1,
                1,
                defs2@.subrange(0, j + 1),
            ));
        }
        j = j + 1;
    }
    proof {
        assert(defs2@.subrange(0, n2) =~= defs2@);
        assert(crate::messages::msgs_view(init_msg@) =~= spec_setup_msgs(
            user1.name@,
            user2.name@,
            defs1@,
            defs2@,
        ));
        assert(spec_setup_inv(game@, card_repository@, user1.name@, user2.name@, n1, n2, 0));
    }

    let total = init_msg.len();
    let mut t: usize = 0;
    while t < total
        invariant
            t <= total,
            n1 == defs1@.len(),
            n2 == defs2@.len(),
            defs1@ == spec_deck_defs(deck1.0@, deck1.0@.len() as int),
            defs2@ == spec_deck_defs(deck2.0@, deck2.0@.len() as int),
            1001 + n1 + n2 <= usize::MAX,
            total == init_msg@.len(),
            total == 2 + n1 + n2,
            crate::messages::msgs_view(init_msg@) == spec_setup_msgs(
                user1.name@,
                user2.name@,
                defs1@,
                defs2@,
            ),
            spec_setup_inv(
                game@,
                card_repository@,
                user1.name@,
                user2.name@,
                n1,
                n2,
                t as int,
            ),
            forall|k: int|
                0 <= k < t - 2 ==> card_repository@.contains_key(
                    #[trigger] spec_def_at(defs1@, defs2@, k),
                ),
        decreases total - t,
    {
        proof {
            lemma_setup_step(
                game@,
                card_repository@,
                user1.name@,
                user2.name@,
                defs1@,
                defs2@,
                t as int,
            );
            assert(init_msg@[t as int]@ == spec_setup_msgs(
                user1.name@,
                user2.name@,
                defs1@,
                defs2@,
            )[t as int]);
        }
        let m = &init_msg[t];
        match game.handle_message(m) {
            Ok(()) => {},
            Err(e) => {
                proof {
                    assert(t >= 2);
                    assert(!card_repository@.contains_key(spec_def_at(defs1@, defs2@, t - 2)));
                    let mv = spec_setup_msgs(user1.name@, user2.name@, defs1@, defs2@)[t as int];
                    if t - 2 < n1 {
                        assert(defs1@[t - 2] == spec_def_at(defs1@, defs2@, t - 2));
                        assert(!spec_defs_ok(card_repository@, defs1@));
                        assert(mv == spec_addcard_run(1001, 0, defs1@)[t - 2]);
                    } else {
                        assert(defs2@[t - 2 - n1] == spec_def_at(defs1@, defs2@, t - 2));
                        assert(!spec_defs_ok(card_repository@, defs2@));
                        assert(mv == spec_addcard_run(1001 + n1, 1, defs2@)[t - 2 - n1]);
                    }
                    // The one refusable setup message is a card addition
                    // whose definition does not resolve.
                    assert(e == HandleError::CardDefIdError);
                }
                return Err(DuelError::Reducer(e));
            },
        }
        let mut ci: usize = 0;
        while ci < consumers.len()
            invariant
                ci <= consumers@.len(),
            decreases consumers@.len() - ci,
        {
            let _ = consumers[ci].handle_message(m);
            ci = ci + 1;
        }
        t = t + 1;
    }
    proof {
        assert(spec_setup_ok(game@, card_repository@, user1.name@, user2.name@, n1, n2));
        assert forall|k: int| 0 <= k < n1 implies card_repository@.contains_key(
            #[trigger] defs1@[k],
        ) by {
            assert(card_repository@.contains_key(spec_def_at(defs1@, defs2@, k)));
        }
        assert forall|k: int| 0 <= k < n2 implies card_repository@.contains_key(
            #[trigger] defs2@[k],
        ) by {
            assert(card_repository@.contains_key(spec_def_at(defs1@, defs2@, n1 + k)));
        }
    }
    Ok(game)
}

/// Whether any player still shows a passed flag.
fn players_all_unpassed(game: &Game) -> (r: bool)
    ensures
        r == all_unpassed(game@.players),
{
    let mut i: usize = 0;
    while i < game.players.len()
        invariant
            i <= game.players@.len(),
            forall|j: int| 0 <= j < i ==> !game@.players[j].has_passed,
        decreases game.players@.len() - i,
    {
        if game.players[i].has_passed {
            assert(game@.players[i as int].has_passed);
            return false;
        }
        i = i + 1;
    }
    true
}

/// Decide at run time whether the state still satisfies what the generator
/// asks of it; a violation is an internal contract breach the driver treats
/// as fatal.
fn check_next_step_pre(game: &Game) -> (r: bool)
    ensures
        r == next_step_pre(game@),
{
    match game.substep {
        Substep::CheckStateBasedActions => {
            let actions = state_based_actions(game);
            if actions.len() > 0 {
                true
            } else {
                players_all_unpassed(game)
            }
        },
        Substep::PlayerPriority => game.priority_player_id < game.players.len(),
        Substep::EndOfStep => {
            !matches!(game.step, Step::Cleanup) || game.active_player_id < game.players.len()
        },
        Substep::BeginOfStep => {
            match game.step {
                Step::Draw => game.active_player_id < game.players.len(),
                Step::Cleanup => game.active_player_id < game.players.len()
                    && game.players[game.active_player_id].hand.len() <= 7 + (i32::MAX as usize),
                _ => true,
            }
        },
        _ => true,
    }
}

/// Drive a whole match: set it up, then generate, apply and announce
/// messages until the game ends, answering queries with a random valid
/// choice. `fuel` bounds the number of generator rounds, making the
/// otherwise unbounded wait on decisions cancellable.
pub fn duel<'a, C: MessageConsumer>(
    user1: User,
    deck1: Deck,
    user2: User,
    deck2: Deck,
    consumers: &mut Vec<C>,
    card_repository: &'a CardRepository,
    fuel: u64,
) -> (r: Result<Game<'a>, DuelError>)
    requires
        1001 + spec_deck_defs(deck1.0@, deck1.0@.len() as int).len() + spec_deck_defs(
            deck2.0@,
            deck2.0@.len() as int,
        ).len() <= usize::MAX,
    ensures
        r matches Ok(g) ==> {
            &&& g@.substep == Substep::GameEnded
            &&& g@.players.len() == 2
            &&& g@.players[0].id == 0
            &&& g@.players[1].id == 1
            &&& g@.players[0].name == user1.name@
            &&& g@.players[1].name == user2.name@
        },
        r is Ok ==> spec_defs_ok(
            card_repository@,
            spec_deck_defs(deck1.0@, deck1.0@.len() as int),
        ) && spec_defs_ok(card_repository@, spec_deck_defs(deck2.0@, deck2.0@.len() as int)),
        !(spec_defs_ok(card_repository@, spec_deck_defs(deck1.0@, deck1.0@.len() as int))
            && spec_defs_ok(card_repository@, spec_deck_defs(deck2.0@, deck2.0@.len() as int)))
            ==> (r matches Err(e) && e == DuelError::Reducer(HandleError::CardDefIdError)),
{
    let mut game = match setup_duel(&user1, &deck1, &user2, &deck2, consumers, card_repository) {
        Ok(g) => g,
        Err(e) => {
            return Err(e);
        },
    };
    let mut steps: u64 = fuel;
    let mut finished = matches!(game.substep, Substep::GameEnded);
    while !finished && steps > 0
        invariant
            finished ==> game@.substep == Substep::GameEnded,
            spec_defs_ok(card_repository@, spec_deck_defs(deck1.0@, deck1.0@.len() as int)),
            spec_defs_ok(card_repository@, spec_deck_defs(deck2.0@, deck2.0@.len() as int)),
            game@.players.len() == 2,
            game@.players[0].id == 0,
            game@.players[1].id == 1,
            game@.players[0].name == user1.name@,
            game@.players[1].name == user2.name@,
        decreases steps,
    {
        steps = steps - 1;
        if !check_next_step_pre(&game) {
            return Err(DuelError::InvariantBroken);
        }
        let msgs = next_step(&game);
        proof {
            crate::laws::lemma_next_step_emits_no_create(game@);
            assert forall|t: int| 0 <= t < msgs@.len() implies !((
            #[trigger] msgs@[t]@) is CreatePlayer) by {
                assert(crate::messages::msgs_view(msgs@)[t] == msgs@[t]@);
            }
        }
        let mut k: usize = 0;
        while k < msgs.len()
            invariant
                k <= msgs@.len(),
                spec_defs_ok(card_repository@, spec_deck_defs(deck1.0@, deck1.0@.len() as int)),
                spec_defs_ok(card_repository@, spec_deck_defs(deck2.0@, deck2.0@.len() as int)),
                game@.players.len() == 2,
                game@.players[0].id == 0,
                game@.players[1].id == 1,
                game@.players[0].name == user1.name@,
                game@.players[1].name == user2.name@,
                forall|t: int| 0 <= t < msgs@.len() ==> !((#[trigger] msgs@[t]@) is CreatePlayer),
            decreases msgs@.len() - k,
        {
            let m = &msgs[k];
            let ghost pre = game@;
            match game.handle_message(m) {
                Ok(()) => {},
                Err(e) => {
                    return Err(DuelError::Reducer(e));
                },
            }
            proof {
                assert(!(m@ is CreatePlayer));
                match m@ {
                    MessageV::ShuffleLibrary(pid) => {
                        crate::laws::lemma_shuffle_keeps_roster(pre, pid, game@);
                    },
                    _ => {
                        crate::laws::lemma_apply_msg_keeps_roster(pre, m@);
                    },
                }
                assert(game@.players[0].id == 0 && game@.players[0].name == user1.name@);
                assert(game@.players[1].id == 1 && game@.players[1].name == user2.name@);
            }
            if let Message::Query(q) = m {
                game.maybe_answer = Some(random_answer(q));
            }
            let mut ci: usize = 0;
            while ci < consumers.len()
                invariant
                    ci <= consumers@.len(),
                decreases consumers@.len() - ci,
            {
                let _ = consumers[ci].handle_message(m);
                ci = ci + 1;
            }
            k = k + 1;
        }
        finished = matches!(game.substep, Substep::GameEnded);
    }
    if finished {
        Ok(game)
    } else {
        Err(DuelError::FuelExhausted)
    }
}

} // verus!
