use std::collections::HashMap;
use vstd::prelude::*;

verus! {

broadcast use vstd::std_specs::hash::group_hash_axioms;

pub type CardDefID = usize;

/// A deck of cards lists the card definitions with their count.
#[derive(Debug)]
pub struct Deck(pub Vec<(CardDefID, usize)>);

/// A card definition consists of the mechanical part and the display part;
/// cards with the same mechanics are the same for the purpose of the game,
/// the display part is purely visual.
#[derive(Debug, Clone)]
pub struct CardDefinition {
    pub id: CardDefID,
    pub mechanics: CardMechanics,
    pub display: CardDisplay,
}

/// The capability flags of a card that the rules read.
#[derive(Debug, Clone)]
pub struct CardMechanics {
    pub is_token: bool,
    pub is_land: bool,
}

/// The visual payload of a card; irrelevant to the rules.
#[derive(Debug, Clone)]
pub struct CardDisplay();

/// Immutable mapping from card-definition id to definition, shared
/// read-only by every match that uses it.
pub type CardRepository = HashMap<CardDefID, CardDefinition>;

/// The sample repository: one land definition under id 101.
pub fn load_cards() -> (r: CardRepository)
    ensures
        r@.dom() =~= set![101usize],
        r@[101] == (CardDefinition {
            id: 101,
            mechanics: CardMechanics { is_token: false, is_land: true },
            display: CardDisplay(),
        }),
{
    let mut m: CardRepository = HashMap::new();
    m.insert(
        101,
        CardDefinition {
            id: 101,
            mechanics: CardMechanics { is_token: false, is_land: true },
            display: CardDisplay(),
        },
    );
    m
}

} // verus!
