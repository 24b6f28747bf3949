use crate::card::{CardDefID, CardDefinition, CardRepository};
use crate::messages::{
    CardID, HandleError, Message, MessageV, ObjectID, PlayerID, PublicCardID, Query, QueryV,
    SpellID, Step, Substep,
};
use crate::messages::{Answer, AnswerV};
use crate::player::{fresh_player, Player, PlayerV};
use std::collections::HashMap;
use vstd::prelude::*;
use vstd::seq_lib::*;

verus! {

broadcast use vstd::std_specs::hash::group_hash_axioms;

/// A card instance of the match. It persists across zone moves: zone
/// membership is tracked by id, never by copying the card. The definition is
/// shared through the repository, so cards of one definition have the same
/// mechanics.
#[derive(Debug, Clone, Copy, PartialEq, Eq)]
pub struct Card {
    pub id: CardID,
    pub public_id: PublicCardID,
    pub object_id: Option<ObjectID>,
    pub owner_id: PlayerID,
    pub def_id: CardDefID,
}

/// Zone location of a board object.
#[derive(Debug, Clone, Copy, PartialEq, Eq, Structural)]
pub enum ObjectLocation {
    Library,
    Hand,
    Stack,
    Battlefield,
    Graveyard,
}

/// What a board object stands for.
#[derive(Debug, Clone, Copy, PartialEq, Eq, Structural)]
pub enum ObjectKind {
    Card(CardID),
    ActivatedAbility(CardID, usize),
}

/// An instance actually present on the board, with a tracked identity.
#[derive(Debug, Clone, Copy, PartialEq, Eq, Structural)]
pub struct Object {
    pub id: ObjectID,
    pub kind: ObjectKind,
    pub location: ObjectLocation,
}

/// A minimal stack entry.
#[derive(Debug, Clone, Copy, PartialEq, Eq, Structural)]
pub struct Spell {
    pub id: SpellID,
}

impl Spell {
    /// Resolution yields follow-up messages; none today (extension point).
    pub fn resolve(&self) -> (r: Vec<Message>)
        ensures
            r@ == Seq::<Message>::empty(),
    {
        Vec::new()
    }
}

/// The aggregate match state. All mutation goes through `handle_message`.
#[derive(Debug)]
pub struct Game<'a> {
    pub cards: HashMap<CardID, Card>,
    pub players: Vec<Player>,
    pub substep: Substep,
    pub step: Step,
    pub active_player_id: PlayerID,
    pub priority_player_id: PlayerID,
    pub card_repository: &'a CardRepository,
    pub stack: Vec<Spell>,
    pub maybe_query: Option<Query>,
    pub maybe_answer: Option<Answer>,
    pub next_id: usize,
    pub objects: HashMap<ObjectID, Object>,
}

/// Mathematical model of a `Game`.
#[verifier::ext_equal]
pub struct GameV {
    pub cards: Map<CardID, Card>,
    pub players: Seq<PlayerV>,
    pub substep: Substep,
    pub step: Step,
    pub active_player_id: PlayerID,
    pub priority_player_id: PlayerID,
    pub card_repository: Map<CardDefID, CardDefinition>,
    pub stack: Seq<Spell>,
    pub maybe_query: Option<QueryV>,
    pub maybe_answer: Option<AnswerV>,
    pub next_id: usize,
    pub objects: Map<ObjectID, Object>,
}

/// The model of a player list.
pub open spec fn players_view(v: Seq<Player>) -> Seq<PlayerV> {
    v.map_values(|p: Player| p@)
}

impl<'a> View for Game<'a> {
    type V = GameV;

    open spec fn view(&self) -> GameV {
        GameV {
            cards: self.cards@,
            players: players_view(self.players@),
            substep: self.substep,
            step: self.step,
            active_player_id: self.active_player_id,
            priority_player_id: self.priority_player_id,
            card_repository: self.card_repository@,
            stack: self.stack@,
            maybe_query: match self.maybe_query {
                Some(q) => Some(q@),
                None => None,
            },
            maybe_answer: match self.maybe_answer {
                Some(a) => Some(a@),
                None => None,
            },
            next_id: self.next_id,
            objects: self.objects@,
        }
    }
}

pub proof fn lemma_players_view_update_frame(v0: Seq<Player>, v1: Seq<Player>, i: int)
    requires
        0 <= i < v0.len(),
        v1.len() == v0.len(),
        forall|j: int| 0 <= j < v0.len() && j != i ==> v1[j] == v0[j],
    ensures
        players_view(v1) =~= players_view(v0).update(i, v1[i]@),
{
    assert forall|j: int| 0 <= j < v0.len() implies players_view(v1)[j] == players_view(v0).update(
        i,
        v1[i]@,
    )[j] by {
        if j != i {
            assert(v1[j] == v0[j]);
        }
    }
}

pub proof fn lemma_players_view_push(v: Seq<Player>, p: Player)
    ensures
        players_view(v.push(p)) =~= players_view(v).push(p@),
{
    assert forall|j: int| 0 <= j < v.len() + 1 implies players_view(v.push(p))[j] == players_view(
        v,
    ).push(p@)[j] by {
        if j == v.len() {
        } else {
        }
    }
}

/// Every player with the passed flag cleared; emitted when a priority round ends.
pub open spec fn clear_passed(players: Seq<PlayerV>) -> Seq<PlayerV> {
    players.map_values(|p: PlayerV| PlayerV { has_passed: false, ..p })
}

/// When the reducer accepts a message in state `g`. A refused message leaves
/// the state untouched and yields `msg_denial`.
pub open spec fn msg_enabled(g: GameV, m: MessageV) -> bool {
    match m {
        MessageV::CreatePlayer { id, .. } => id == g.players.len(),
        MessageV::AddCard { id: _, owner_id, def_id } => g.card_repository.contains_key(def_id)
            && owner_id < g.players.len(),
        MessageV::BeginTurn(pid) => pid < g.players.len(),
        MessageV::ShuffleLibrary(pid) => pid < g.players.len(),
        MessageV::DrawCard(pid, cid) => pid < g.players.len() && g.players[pid as int].library.len()
            > 0 && g.players[pid as int].library.last() == cid,
        MessageV::DrawFromEmpty(pid) => pid < g.players.len(),
        MessageV::PlayerLoses(pid) => pid < g.players.len(),
        MessageV::PlayerPasses(pid) => pid < g.players.len(),
        MessageV::ResolveSpell(sid) => g.stack.len() > 0 && g.stack.last().id == sid,
        MessageV::Discard(pid, cid) => pid < g.players.len() && g.players[pid as int].hand.contains(
            cid,
        ),
        MessageV::PlayLand(pid, cid, oid) => pid < g.players.len() && g.players[
            pid as int
        ].hand.contains(cid) && oid >= g.next_id && oid < usize::MAX && g.players[
            pid as int
        ].lands_played < u32::MAX,
        _ => true,
    }
}

/// Which error a refused message yields. Meaningful only when the message is
/// not enabled.
pub open spec fn msg_denial(g: GameV, m: MessageV) -> HandleError {
    match m {
        MessageV::CreatePlayer { .. } => HandleError::PlayerIdError,
        MessageV::AddCard { id: _, owner_id: _, def_id } => if !g.card_repository.contains_key(
            def_id,
        ) {
            HandleError::CardDefIdError
        } else {
            HandleError::PlayerIdError
        },
        MessageV::BeginTurn(_) => HandleError::PlayerIdError,
        MessageV::ShuffleLibrary(_) => HandleError::PlayerIdError,
        MessageV::DrawFromEmpty(_) => HandleError::PlayerIdError,
        MessageV::PlayerLoses(_) => HandleError::PlayerIdError,
        MessageV::PlayerPasses(_) => HandleError::PlayerIdError,
        MessageV::DrawCard(pid, _) => if pid >= g.players.len() {
            HandleError::PlayerIdError
        } else {
            HandleError::CardIdError
        },
        MessageV::ResolveSpell(_) => HandleError::CardIdError,
        MessageV::Discard(pid, _) => if pid >= g.players.len() {
            HandleError::PlayerIdError
        } else {
            HandleError::CardIdError
        },
        MessageV::PlayLand(pid, _, _) => if pid >= g.players.len() {
            HandleError::PlayerIdError
        } else {
            HandleError::CardIdError
        },
        _ => HandleError::PlayerIdError,
    }
}

/// The state after an enabled message is applied. `ShuffleLibrary` is the one
/// message whose outcome is not a function of the state; it is specified by
/// `shuffle_applied` instead, and this function leaves the state unchanged
/// for it.
pub open spec fn apply_msg(g: GameV, m: MessageV) -> GameV {
    match m {
        MessageV::Query(q) => GameV { maybe_query: Some(q), maybe_answer: None, ..g },
        MessageV::AcceptAnswer => GameV { maybe_query: None, maybe_answer: None, ..g },
        MessageV::RejectAnswer => GameV { maybe_query: None, maybe_answer: None, ..g },
        MessageV::CreatePlayer { id, name } => GameV {
            players: g.players.push(fresh_player(id, name)),
            ..g
        },
        MessageV::AddCard { id, owner_id, def_id } => {
            let p = g.players[owner_id as int];
            GameV {
                cards: g.cards.insert(
                    id,
                    Card { id, public_id: 0, object_id: None, owner_id, def_id },
                ),
                players: g.players.update(
                    owner_id as int,
                    PlayerV { library: p.library.push(id), ..p },
                ),
                ..g
            }
        },
        MessageV::Substep(s) => GameV { substep: s, ..g },
        MessageV::Step(s) => GameV { step: s, ..g },
        MessageV::BeginTurn(pid) => {
            let p = g.players[pid as int];
            GameV {
                active_player_id: pid,
                players: g.players.update(pid as int, PlayerV { lands_played: 0u32, ..p }),
                ..g
            }
        },
        MessageV::GetPriority(pid) => GameV { priority_player_id: pid, ..g },
        MessageV::ShuffleLibrary(_) => g,
        MessageV::DrawCard(pid, cid) => {
            let p = g.players[pid as int];
            GameV {
                players: g.players.update(
                    pid as int,
                    PlayerV { library: p.library.drop_last(), hand: p.hand.push(cid), ..p },
                ),
                ..g
            }
        },
        MessageV::DrawFromEmpty(pid) => {
            let p = g.players[pid as int];
            GameV {
                players: g.players.update(
                    pid as int,
                    PlayerV { has_drawn_from_empty: true, ..p },
                ),
                ..g
            }
        },
        MessageV::PlayerLoses(pid) => {
            let p = g.players[pid as int];
            GameV { players: g.players.update(pid as int, PlayerV { has_lost: true, ..p }), ..g }
        },
        MessageV::PlayerWins(_) => g,
        MessageV::PlayerHasPriority(pid) => GameV { priority_player_id: pid, ..g },
        MessageV::PlayerPasses(pid) => {
            let p = g.players[pid as int];
            GameV { players: g.players.update(pid as int, PlayerV { has_passed: true, ..p }), ..g }
        },
        MessageV::PriorityEnded => GameV { players: clear_passed(g.players), ..g },
        MessageV::ResolveSpell(_) => GameV { stack: g.stack.drop_last(), ..g },
        MessageV::Discard(pid, cid) => {
            let p = g.players[pid as int];
            GameV {
                players: g.players.update(
                    pid as int,
                    PlayerV {
                        hand: p.hand.remove_value(cid),
                        graveyard: p.graveyard.push(cid),
                        ..p
                    },
                ),
                ..g
            }
        },
        MessageV::PlayLand(pid, cid, oid) => {
            let p = g.players[pid as int];
            GameV {
                players: g.players.update(
                    pid as int,
                    PlayerV {
                        hand: p.hand.remove_value(cid),
                        lands_played: (p.lands_played + 1) as u32,
                        ..p
                    },
                ),
                next_id: (oid + 1) as usize,
                objects: g.objects.insert(
                    oid,
                    Object { id: oid, kind: ObjectKind::Card(cid), location:
                        ObjectLocation::Battlefield },
                ),
                ..g
            }
        },
    }
}

/// How a library shuffle relates the state before to the state after: that
/// player's library holds the same cards in some order; everything else is
/// untouched.
pub open spec fn shuffle_applied(pre: GameV, pid: PlayerID, post: GameV) -> bool {
    &&& pid < pre.players.len()
    &&& exists|lib: Seq<CardID>|
        {
            &&& #[trigger] lib.to_multiset() == pre.players[pid as int].library.to_multiset()
            &&& post == (GameV {
                players: pre.players.update(
                    pid as int,
                    PlayerV { library: lib, ..pre.players[pid as int] },
                ),
                ..pre
            })
        }
}

impl<'a> Game<'a> {
    /// A fresh match over a repository: no players, no cards, id counter at
    /// its initial value, at the start of the initial shuffle.
    pub fn new(card_repository: &'a CardRepository) -> (r: Game<'a>)
        ensures
            r@ == (GameV {
                cards: Map::empty(),
                players: Seq::empty(),
                substep: Substep::InitialShuffle,
                step: Step::Untap,
                active_player_id: 0usize,
                priority_player_id: 0usize,
                card_repository: card_repository@,
                stack: Seq::empty(),
                maybe_query: None,
                maybe_answer: None,
                next_id: 1001usize,
                objects: Map::empty(),
            }),
    {
        let r = Game {
            cards: HashMap::new(),
            players: Vec::new(),
            substep: Substep::InitialShuffle,
            step: Step::Untap,
            active_player_id: 0,
            priority_player_id: 0,
            card_repository: card_repository,
            stack: Vec::new(),
            next_id: 1001,
            objects: HashMap::new(),
            maybe_answer: None,
            maybe_query: None,
        };
        proof {
            assert(players_view(r.players@) =~= Seq::<PlayerV>::empty());
        }
        r
    }

    /// Mint a fresh identifier: returns the counter and advances it.
    pub fn get_id(&mut self) -> (r: usize)
        requires
            old(self).next_id < usize::MAX,
        ensures
            r == old(self).next_id,
            final(self)@ == (GameV { next_id: (old(self).next_id + 1) as usize, ..old(self)@ }),
    {
        let res = self.next_id;
        self.next_id = self.next_id + 1;
        res
    }

    /// Commit a previously previewed identifier. The counter is monotonic
    /// and moves past the committed value, so the same id can never be
    /// previewed or committed twice; a stale value (below the counter) must
    /// be refused by the caller.
    pub fn commit_id(&mut self, id: usize)
        requires
            id >= old(self).next_id,
            id < usize::MAX,
        ensures
            *final(self) == (Game { next_id: (id + 1) as usize, ..*old(self) }),
            final(self)@ == (GameV { next_id: (id + 1) as usize, ..old(self)@ }),
    {
        self.next_id = id + 1;
        proof {
            assert(self@ =~= (GameV { next_id: (id + 1) as usize, ..old(self)@ }));
        }
    }

    /// The reducer: validate `message` against the current state, and apply
    /// it only if every check passes. A refused message leaves the state
    /// identical to what it was before the attempt.
    #[verifier::rlimit(100)]
    pub fn handle_message(&mut self, message: &Message) -> (r: Result<(), HandleError>)
        ensures
            r is Ok <==> msg_enabled(old(self)@, message@),
            r is Err ==> *final(self) == *old(self),
            r matches Err(e) ==> e == msg_denial(old(self)@, message@),
            (r is Ok && !(message@ is ShuffleLibrary)) ==> final(self)@ == apply_msg(
                old(self)@,
                message@,
            ),
            message@ matches MessageV::ShuffleLibrary(pid) ==> (r is Ok ==> shuffle_applied(
                old(self)@,
                pid,
                final(self)@,
            )),
    {
        match message {
            Message::Query(query) => {
                self.maybe_query = Some(crate::messages::clone_query(query));
                self.maybe_answer = None;
                Ok(())
            },
            Message::AcceptAnswer => {
                self.maybe_query = None;
                self.maybe_answer = None;
                Ok(())
            },
            Message::RejectAnswer => {
                self.maybe_query = None;
                self.maybe_answer = None;
                Ok(())
            },
            Message::CreatePlayer { id, name } => {
                if self.players.len() != *id {
                    Err(HandleError::PlayerIdError)
                } else {
                    let player = Player::new(*id, name.clone());
                    let ghost pg = player;
                    self.players.push(player);
                    proof {
                        lemma_players_view_push(old(self).players@, pg);
                        assert(self@ =~~= apply_msg(old(self)@, message@));
                    }
                    Ok(())
                }
            },
            Message::AddCard { id, owner_id, def_id } => {
                if !self.card_repository.contains_key(def_id) {
                    Err(HandleError::CardDefIdError)
                } else if *owner_id >= self.players.len() {
                    Err(HandleError::PlayerIdError)
                } else {
                    let card = Card {
                        id: *id,
                        public_id: 0,
                        owner_id: *owner_id,
                        object_id: None,
                        def_id: *def_id,
                    };
                    let _ = self.cards.insert(*id, card);
                    self.players[*owner_id].library.push(*id);
                    proof {
                        lemma_players_view_update_frame(
                            old(self).players@,
                            self.players@,
                            *owner_id as int,
                        );
                        assert(self@ =~~= apply_msg(old(self)@, message@));
                    }
                    Ok(())
                }
            },
            Message::Substep(s) => {
                self.substep = *s;
                Ok(())
            },
            Message::Step(s) => {
                self.step = *s;
                Ok(())
            },
            Message::BeginTurn(pid) => {
                if *pid >= self.players.len() {
                    Err(HandleError::PlayerIdError)
                } else {
                    self.active_player_id = *pid;
                    self.players[*pid].lands_played = 0;
                    proof {
                        lemma_players_view_update_frame(
                            old(self).players@,
                            self.players@,
                            *pid as int,
                        );
                        assert(self@ =~~= apply_msg(old(self)@, message@));
                    }
                    Ok(())
                }
            },
            Message::GetPriority(pid) => {
                self.priority_player_id = *pid;
                Ok(())
            },
            Message::ShuffleLibrary(pid) => {
                if *pid >= self.players.len() {
                    Err(HandleError::PlayerIdError)
                } else {
                    crate::rng::shuffle_cards(&mut self.players[*pid].library);
                    proof {
                        lemma_players_view_update_frame(
                            old(self).players@,
                            self.players@,
                            *pid as int,
                        );
                        let lib = self.players@[*pid as int]@.library;
                        assert(lib.to_multiset() == old(self)@.players[
                            *pid as int
                        ].library.to_multiset());
                        assert(self@ =~~= (GameV {
                            players: old(self)@.players.update(
                                *pid as int,
                                PlayerV { library: lib, ..old(self)@.players[*pid as int] },
                            ),
                            ..old(self)@
                        }));
                        assert(shuffle_applied(old(self)@, *pid, self@));
                    }
                    Ok(())
                }
            },
            Message::DrawCard(pid, cid) => {
                if *pid >= self.players.len() {
                    return Err(HandleError::PlayerIdError);
                }
                let n = self.players[*pid].library.len();
                if n == 0 {
                    return Err(HandleError::CardIdError);
                }
                if self.players[*pid].library[n - 1] != *cid {
                    return Err(HandleError::CardIdError);
                }
                self.players[*pid].library.pop();
                self.players[*pid].hand.push(*cid);
                proof {
                    lemma_players_view_update_frame(old(self).players@, self.players@, *pid as int);
                    assert(self@ =~~= apply_msg(old(self)@, message@));
                }
                Ok(())
            },
            Message::DrawFromEmpty(pid) => {
                if *pid >= self.players.len() {
                    Err(HandleError::PlayerIdError)
                } else {
                    self.players[*pid].has_drawn_from_empty = true;
                    proof {
                        lemma_players_view_update_frame(
                            old(self).players@,
                            self.players@,
                            *pid as int,
                        );
                        assert(self@ =~~= apply_msg(old(self)@, message@));
                    }
                    Ok(())
                }
            },
            Message::PlayerLoses(pid) => {
                if *pid >= self.players.len() {
                    Err(HandleError::PlayerIdError)
                } else {
                    self.players[*pid].has_lost = true;
                    proof {
                        lemma_players_view_update_frame(
                            old(self).players@,
                            self.players@,
                            *pid as int,
                        );
                        assert(self@ =~~= apply_msg(old(self)@, message@));
                    }
                    Ok(())
                }
            },
            Message::PlayerWins(_pid) => {
                // Do nothing (extension point: a dedicated winner field).
                Ok(())
            },
            Message::PlayerHasPriority(pid) => {
                self.priority_player_id = *pid;
                Ok(())
            },
            Message::PlayerPasses(pid) => {
                if *pid >= self.players.len() {
                    Err(HandleError::PlayerIdError)
                } else {
                    self.players[*pid].has_passed = true;
                    proof {
                        lemma_players_view_update_frame(
                            old(self).players@,
                            self.players@,
                            *pid as int,
                        );
                        assert(self@ =~~= apply_msg(old(self)@, message@));
                    }
                    Ok(())
                }
            },
            Message::PriorityEnded => {
                let mut i: usize = 0;
                while i < self.players.len()
                    invariant
                        i <= self.players@.len(),
                        self.players@.len() == old(self).players@.len(),
                        forall|j: int|
                            0 <= j < i ==> self.players@[j]@ == (PlayerV {
                                has_passed: false,
                                ..old(self).players@[j]@
                            }),
                        forall|j: int|
                            i <= j < self.players@.len() ==> self.players@[j] == old(
                                self,
                            ).players@[j],
                        self.cards == old(self).cards,
                        self.substep == old(self).substep,
                        self.step == old(self).step,
                        self.active_player_id == old(self).active_player_id,
                        self.priority_player_id == old(self).priority_player_id,
                        self.card_repository == old(self).card_repository,
                        self.stack == old(self).stack,
                        self.maybe_query == old(self).maybe_query,
                        self.maybe_answer == old(self).maybe_answer,
                        self.next_id == old(self).next_id,
                        self.objects == old(self).objects,
                    decreases self.players@.len() - i,
                {
                    self.players[i].has_passed = false;
                    i = i + 1;
                }
                proof {
                    assert(self@.players =~~= clear_passed(old(self)@.players));
                    assert(self@ =~~= apply_msg(old(self)@, message@));
                }
                Ok(())
            },
            Message::ResolveSpell(sid) => {
                let n = self.stack.len();
                if n == 0 {
                    return Err(HandleError::CardIdError);
                }
                if self.stack[n - 1].id != *sid {
                    return Err(HandleError::CardIdError);
                }
                self.stack.pop();
                Ok(())
            },
            Message::Discard(pid, cid) => {
                if *pid >= self.players.len() {
                    return Err(HandleError::PlayerIdError);
                }
                match find_card(&self.players[*pid].hand, *cid) {
                    Some(i) => {
                        proof {
                            old(self).players@[*pid as int].hand@.index_of_first_ensures(*cid);
                        }
                        let card_id = self.players[*pid].hand.remove(i);
                        self.players[*pid].graveyard.push(card_id);
                        proof {
                            lemma_players_view_update_frame(
                                old(self).players@,
                                self.players@,
                                *pid as int,
                            );
                            assert(self@ =~~= apply_msg(old(self)@, message@));
                        }
                        Ok(())
                    },
                    None => Err(HandleError::CardIdError),
                }
            },
            Message::PlayLand(pid, cid, oid) => {
                if *pid >= self.players.len() {
                    return Err(HandleError::PlayerIdError);
                }
                match find_card(&self.players[*pid].hand, *cid) {
                    Some(i) => {
                        if *oid < self.next_id {
                            return Err(HandleError::CardIdError);
                        }
                        if *oid == usize::MAX {
                            return Err(HandleError::CardIdError);
                        }
                        if self.players[*pid].lands_played == u32::MAX {
                            return Err(HandleError::CardIdError);
                        }
                        proof {
                            old(self).players@[*pid as int].hand@.index_of_first_ensures(*cid);
                        }
                        let card_id = self.players[*pid].hand.remove(i);
                        self.players[*pid].lands_played = self.players[*pid].lands_played + 1;
                        let object = Object {
                            id: *oid,
                            kind: ObjectKind::Card(card_id),
                            location: ObjectLocation::Battlefield,
                        };
                        let _ = self.objects.insert(*oid, object);
                        self.commit_id(*oid);
                        proof {
                            lemma_players_view_update_frame(
                                old(self).players@,
                                self.players@,
                                *pid as int,
                            );
                            assert(self@ =~~= apply_msg(old(self)@, message@));
                        }
                        Ok(())
                    },
                    None => Err(HandleError::CardIdError),
                }
            },
        }
    }
}

/// First position of `cid` in `cards`, if it occurs at all.
fn find_card(cards: &Vec<CardID>, cid: CardID) -> (r: Option<usize>)
    ensures
        match r {
            Some(i) => cards@.index_of_first(cid) == Some(i as int),
            None => !cards@.contains(cid),
        },
{
    let mut i: usize = 0;
    while i < cards.len()
        invariant
            i <= cards@.len(),
            forall|j: int| 0 <= j < i ==> cards@[j] != cid,
        decreases cards@.len() - i,
    {
        if cards[i] == cid {
            proof {
                cards@.index_of_first_ensures(cid);
                assert(cards@.contains(cid)) by {
                    assert(cards@[i as int] == cid);
                }
                match cards@.index_of_first(cid) {
                    Some(idx) => {
                        if idx < i as int {
                            assert(cards@[idx] != cid);
                        }
                        if idx > i as int {
                            assert(cards@[i as int] != cid);
                        }
                        assert(idx == i as int);
                    },
                    None => {
                        assert(false);
                    },
                }
            }
            return Some(i);
        }
        i = i + 1;
    }
    None
}

} // verus!
