use crate::messages::{CardID, PlayerID};
use vstd::prelude::*;

verus! {

/// One participant of the match, with its zones and flags.
/// Created once via a creation message; mutated throughout; never destroyed.
#[derive(Debug)]
pub struct Player {
    pub id: PlayerID,
    pub name: String,
    /// Ordered; the tail is the top, where draws take from.
    pub library: Vec<CardID>,
    pub hand: Vec<CardID>,
    pub graveyard: Vec<CardID>,
    pub has_drawn_from_empty: bool,
    pub has_lost: bool,
    pub has_passed: bool,
    pub life: i32,
    pub lands_played: u32,
}

/// Mathematical model of a `Player`.
#[verifier::ext_equal]
pub struct PlayerV {
    pub id: PlayerID,
    pub name: Seq<char>,
    pub library: Seq<CardID>,
    pub hand: Seq<CardID>,
    pub graveyard: Seq<CardID>,
    pub has_drawn_from_empty: bool,
    pub has_lost: bool,
    pub has_passed: bool,
    pub life: i32,
    pub lands_played: u32,
}

impl View for Player {
    type V = PlayerV;

    open spec fn view(&self) -> PlayerV {
        PlayerV {
            id: self.id,
            name: self.name@,
            library: self.library@,
            hand: self.hand@,
            graveyard: self.graveyard@,
            has_drawn_from_empty: self.has_drawn_from_empty,
            has_lost: self.has_lost,
            has_passed: self.has_passed,
            life: self.life,
            lands_played: self.lands_played,
        }
    }
}

/// The state a just-created player starts in: empty zones, 20 life, no flags.
pub open spec fn fresh_player(id: PlayerID, name: Seq<char>) -> PlayerV {
    PlayerV {
        id: id,
        name: name,
        library: Seq::empty(),
        hand: Seq::empty(),
        graveyard: Seq::empty(),
        has_drawn_from_empty: false,
        has_lost: false,
        has_passed: false,
        life: 20i32,
        lands_played: 0u32,
    }
}

impl Player {
    pub fn new(id: PlayerID, name: String) -> (r: Player)
        ensures
            r@ == fresh_player(id, name@),
    {
        let r = Player {
            id: id,
            name: name,
            library: Vec::new(),
            hand: Vec::new(),
            graveyard: Vec::new(),
            has_drawn_from_empty: false,
            has_lost: false,
            has_passed: false,
            life: 20,
            lands_played: 0,
        };
        proof {
            assert(r@ =~= fresh_player(id, r.name@));
        }
        r
    }

    /// The hand size above which the cleanup step forces discards.
    pub fn max_hand_size(&self) -> (r: i32)
        ensures
            r == 7,
    {
        7
    }
}

} // verus!
