use vstd::prelude::*;

verus! {

pub type CardID = usize;

pub type PublicCardID = usize;

pub type PlayerID = usize;

pub type ObjectID = usize;

pub type SpellID = usize;

/// Micro-phase driving the state-based-action / priority / stack-resolution loop.
#[derive(Debug, Clone, Copy, PartialEq, Eq, Structural)]
pub enum Substep {
    InitialShuffle,
    InitialDrawCards,
    BeginOfStep,
    CheckStateBasedActions,
    CheckTriggers,
    PlayerPriority,
    ResolveStack,
    EndOfStep,
    GameEnded,
}

/// Macro-phase of a turn.
#[derive(Debug, Clone, Copy, PartialEq, Eq, Structural)]
pub enum Step {
    Untap,
    Upkeep,
    Draw,
    PrecombatMain,
    BeginCombat,
    DeclareAttackers,
    DeclareBlockers,
    FirstStrikeDamage,
    SecondStrikeDamage,
    EndOfCombat,
    PostcombatMain,
    End,
    Cleanup,
}

/// One legal action a player holding priority may take.
#[derive(Debug, Clone, Copy, PartialEq, Eq, Structural)]
pub enum PriorityAction {
    Pass,
    PlayLand(CardID),
}

/// A closed offered set of choices put to a decision provider.
#[derive(Debug, Clone, PartialEq)]
pub enum Query {
    Discard(Vec<CardID>, i32),
    PriorityAction(Vec<PriorityAction>),
}

/// Mathematical model of a `Query`.
#[verifier::ext_equal]
pub enum QueryV {
    Discard(Seq<CardID>, int),
    PriorityAction(Seq<PriorityAction>),
}

impl View for Query {
    type V = QueryV;

    open spec fn view(&self) -> QueryV {
        match self {
            Query::Discard(cards, n) => QueryV::Discard(cards@, *n as int),
            Query::PriorityAction(actions) => QueryV::PriorityAction(actions@),
        }
    }
}

/// A decision provider's reply to a `Query`.
#[derive(Debug, PartialEq)]
pub enum Answer {
    Discard(Vec<CardID>),
    PriorityAction(PriorityAction),
}

/// Mathematical model of an `Answer`.
#[verifier::ext_equal]
pub enum AnswerV {
    Discard(Seq<CardID>),
    PriorityAction(PriorityAction),
}

impl View for Answer {
    type V = AnswerV;

    open spec fn view(&self) -> AnswerV {
        match self {
            Answer::Discard(cards) => AnswerV::Discard(cards@),
            Answer::PriorityAction(action) => AnswerV::PriorityAction(*action),
        }
    }
}

/// The event vocabulary: the sole channel through which state changes.
#[derive(Debug, PartialEq)]
pub enum Message {
    Query(Query),
    RejectAnswer,
    AcceptAnswer,
    CreatePlayer { id: PlayerID, name: String },
    AddCard { id: CardID, owner_id: PlayerID, def_id: crate::card::CardDefID },
    Substep(Substep),
    Step(Step),
    BeginTurn(PlayerID),
    GetPriority(PlayerID),
    ShuffleLibrary(PlayerID),
    DrawCard(PlayerID, CardID),
    DrawFromEmpty(PlayerID),
    PlayerLoses(PlayerID),
    PlayerWins(PlayerID),
    PlayerHasPriority(PlayerID),
    PlayerPasses(PlayerID),
    PriorityEnded,
    ResolveSpell(SpellID),
    Discard(PlayerID, CardID),
    PlayLand(PlayerID, CardID, ObjectID),
}

/// Mathematical model of a `Message`.
#[verifier::ext_equal]
pub enum MessageV {
    Query(QueryV),
    RejectAnswer,
    AcceptAnswer,
    CreatePlayer { id: PlayerID, name: Seq<char> },
    AddCard { id: CardID, owner_id: PlayerID, def_id: crate::card::CardDefID },
    Substep(Substep),
    Step(Step),
    BeginTurn(PlayerID),
    GetPriority(PlayerID),
    ShuffleLibrary(PlayerID),
    DrawCard(PlayerID, CardID),
    DrawFromEmpty(PlayerID),
    PlayerLoses(PlayerID),
    PlayerWins(PlayerID),
    PlayerHasPriority(PlayerID),
    PlayerPasses(PlayerID),
    PriorityEnded,
    ResolveSpell(SpellID),
    Discard(PlayerID, CardID),
    PlayLand(PlayerID, CardID, ObjectID),
}

impl View for Message {
    type V = MessageV;

    open spec fn view(&self) -> MessageV {
        match self {
            Message::Query(q) => MessageV::Query(q@),
            Message::RejectAnswer => MessageV::RejectAnswer,
            Message::AcceptAnswer => MessageV::AcceptAnswer,
            Message::CreatePlayer { id, name } => MessageV::CreatePlayer { id: *id, name: name@ },
            Message::AddCard { id, owner_id, def_id } => MessageV::AddCard {
                id: *id,
                owner_id: *owner_id,
                def_id: *def_id,
            },
            Message::Substep(s) => MessageV::Substep(*s),
            Message::Step(s) => MessageV::Step(*s),
            Message::BeginTurn(pid) => MessageV::BeginTurn(*pid),
            Message::GetPriority(pid) => MessageV::GetPriority(*pid),
            Message::ShuffleLibrary(pid) => MessageV::ShuffleLibrary(*pid),
            Message::DrawCard(pid, cid) => MessageV::DrawCard(*pid, *cid),
            Message::DrawFromEmpty(pid) => MessageV::DrawFromEmpty(*pid),
            Message::PlayerLoses(pid) => MessageV::PlayerLoses(*pid),
            Message::PlayerWins(pid) => MessageV::PlayerWins(*pid),
            Message::PlayerHasPriority(pid) => MessageV::PlayerHasPriority(*pid),
            Message::PlayerPasses(pid) => MessageV::PlayerPasses(*pid),
            Message::PriorityEnded => MessageV::PriorityEnded,
            Message::ResolveSpell(sid) => MessageV::ResolveSpell(*sid),
            Message::Discard(pid, cid) => MessageV::Discard(*pid, *cid),
            Message::PlayLand(pid, cid, oid) => MessageV::PlayLand(*pid, *cid, *oid),
        }
    }
}

/// A query the generator can stand behind: a discard asks for no more cards
/// than it offers, and an action query offers at least one action.
pub open spec fn spec_query_wf(q: QueryV) -> bool {
    match q {
        QueryV::Discard(cards, n) => 0 <= n <= cards.len(),
        QueryV::PriorityAction(actions) => actions.len() > 0,
    }
}

/// The model of a message list.
pub open spec fn msgs_view(v: Seq<Message>) -> Seq<MessageV> {
    v.map_values(|m: Message| m@)
}

pub proof fn lemma_msgs_view_push(v: Seq<Message>, m: Message)
    ensures
        msgs_view(v.push(m)) =~= msgs_view(v).push(m@),
{
    assert forall|j: int| 0 <= j < v.len() + 1 implies msgs_view(v.push(m))[j] == msgs_view(v).push(
        m@,
    )[j] by {
        if j == v.len() {
        } else {
        }
    }
}

pub proof fn lemma_msgs_view_add(a: Seq<Message>, b: Seq<Message>)
    ensures
        msgs_view(a + b) =~= msgs_view(a) + msgs_view(b),
{
    assert forall|j: int| 0 <= j < a.len() + b.len() implies msgs_view(a + b)[j] == (msgs_view(a)
        + msgs_view(b))[j] by {
        if j < a.len() {
            assert((a + b)[j] == a[j]);
        } else {
            assert((a + b)[j] == b[j - a.len()]);
        }
    }
}

/// The reducer's failure modes: a message inconsistent with the current state.
#[derive(Debug, Clone, Copy, PartialEq, Eq, Structural)]
pub enum HandleError {
    PlayerIdError,
    CardIdError,
    CardDefIdError,
}

/// An answer is admissible exactly when every item it references is a member
/// of the offered set, and, for a discard, its cardinality matches exactly.
pub open spec fn spec_validate_answer(query: QueryV, answer: AnswerV) -> bool {
    match (query, answer) {
        (QueryV::Discard(cards, n), AnswerV::Discard(selected)) => {
            &&& selected.len() == n
            &&& forall|i: int| 0 <= i < selected.len() ==> cards.contains(#[trigger] selected[i])
        },
        (QueryV::PriorityAction(actions), AnswerV::PriorityAction(action)) => actions.contains(
            action,
        ),
        _ => false,
    }
}

/// Whether `cid` occurs in `cards`.
pub fn contains_card(cards: &Vec<CardID>, cid: CardID) -> (r: bool)
    ensures
        r == cards@.contains(cid),
{
    let mut i: usize = 0;
    while i < cards.len()
        invariant
            i <= cards@.len(),
            forall|j: int| 0 <= j < i ==> cards@[j] != cid,
        decreases cards@.len() - i,
    {
        if cards[i] == cid {
            assert(cards@.contains(cid)) by {
                assert(cards@[i as int] == cid);
            }
            return true;
        }
        i = i + 1;
    }
    false
}

/// Whether `action` occurs in `actions`.
pub fn contains_action(actions: &Vec<PriorityAction>, action: &PriorityAction) -> (r: bool)
    ensures
        r == actions@.contains(*action),
{
    let mut i: usize = 0;
    while i < actions.len()
        invariant
            i <= actions@.len(),
            forall|j: int| 0 <= j < i ==> actions@[j] != *action,
        decreases actions@.len() - i,
    {
        if actions[i] == *action {
            assert(actions@.contains(*action)) by {
                assert(actions@[i as int] == *action);
            }
            return true;
        }
        i = i + 1;
    }
    false
}

/// Structural validation of an answer against the offered set of a query.
pub fn validate_answer(query: &Query, answer: &Answer) -> (r: bool)
    ensures
        r == spec_validate_answer(query@, answer@),
{
    match (query, answer) {
        (Query::Discard(cards, n), Answer::Discard(selected)) => {
            if *n < 0 {
                return false;
            }
            if selected.len() != *n as usize {
                return false;
            }
            let mut i: usize = 0;
            while i < selected.len()
                invariant
                    i <= selected@.len(),
                    query@ == QueryV::Discard(cards@, *n as int),
                    answer@ == AnswerV::Discard(selected@),
                    selected@.len() == *n as int,
                    forall|j: int| 0 <= j < i ==> cards@.contains(#[trigger] selected@[j]),
                decreases selected@.len() - i,
            {
                if !contains_card(cards, selected[i]) {
                    assert(!spec_validate_answer(query@, answer@)) by {
                        assert(query@ == QueryV::Discard(cards@, *n as int));
                        assert(answer@ == AnswerV::Discard(selected@));
                        assert(!cards@.contains(selected@[i as int]));
                    }
                    return false;
                }
                i = i + 1;
            }
            true
        },
        (Query::PriorityAction(actions), Answer::PriorityAction(action)) => contains_action(
            actions,
            action,
        ),
        _ => false,
    }
}

/// A copy of a card-id list whose contents the contracts can track.
pub fn clone_card_ids(v: &Vec<CardID>) -> (r: Vec<CardID>)
    ensures
        r@ == v@,
{
    let mut r: Vec<CardID> = Vec::new();
    let mut i: usize = 0;
    while i < v.len()
        invariant
            i <= v@.len(),
            r@ == v@.subrange(0, i as int),
        decreases v@.len() - i,
    {
        r.push(v[i]);
        proof {
            assert(r@ =~= v@.subrange(0, i + 1 as int));
        }
        i = i + 1;
    }
    proof {
        assert(r@ =~= v@);
    }
    r
}

/// A copy of an action list whose contents the contracts can track.
pub fn clone_actions(v: &Vec<PriorityAction>) -> (r: Vec<PriorityAction>)
    ensures
        r@ == v@,
{
    let mut r: Vec<PriorityAction> = Vec::new();
    let mut i: usize = 0;
    while i < v.len()
        invariant
            i <= v@.len(),
            r@ == v@.subrange(0, i as int),
        decreases v@.len() - i,
    {
        r.push(v[i]);
        proof {
            assert(r@ =~= v@.subrange(0, i + 1 as int));
        }
        i = i + 1;
    }
    proof {
        assert(r@ =~= v@);
    }
    r
}

/// A copy of a query with an identical model.
pub fn clone_query(q: &Query) -> (r: Query)
    ensures
        r@ == q@,
{
    match q {
        Query::Discard(cards, n) => Query::Discard(clone_card_ids(cards), *n),
        Query::PriorityAction(actions) => Query::PriorityAction(clone_actions(actions)),
    }
}

/// A copy of an answer with an identical model.
pub fn clone_answer(a: &Answer) -> (r: Answer)
    ensures
        r@ == a@,
{
    match a {
        Answer::Discard(cards) => Answer::Discard(clone_card_ids(cards)),
        Answer::PriorityAction(action) => Answer::PriorityAction(*action),
    }
}

} // verus!
