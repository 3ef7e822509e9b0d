//! The card vocabulary: a closed set of denominations, each with a fixed
//! multiplicity in a full deck.

use vstd::prelude::*;

verus! {

/// One card denomination. Seven "color" kinds plus three specials: the
/// wildcard-like Rainbow, the Gold bonus card, and the negative Points card.
#[derive(Clone, Copy, Debug, PartialEq, Eq, Structural, Hash)]
pub enum Card {
    Red,
    Orange,
    Yellow,
    Green,
    Blue,
    Purple,
    Brown,
    Rainbow,
    Gold,
    Points,
}

/// How many copies of `card` a full deck holds. Fixed per kind.
pub open spec fn spec_amount(card: Card) -> nat {
    match card {
        Card::Rainbow => 2,
        Card::Gold => 1,
        Card::Points => 10,
        _ => 9,
    }
}

/// The seven color kinds, in their canonical order.
pub open spec fn spec_colors() -> Seq<Card> {
    seq![
        Card::Red,
        Card::Orange,
        Card::Yellow,
        Card::Green,
        Card::Blue,
        Card::Purple,
        Card::Brown,
    ]
}

impl Card {
    /// The multiplicity of this kind in a full deck.
    pub fn amount(&self) -> (n: usize)
        ensures
            n == spec_amount(*self),
    {
        match self {
            Card::Red
            | Card::Orange
            | Card::Yellow
            | Card::Green
            | Card::Blue
            | Card::Purple
            | Card::Brown => 9,
            Card::Rainbow => 2,
            Card::Gold => 1,
            Card::Points => 10,
        }
    }

    /// The seven color kinds, in their canonical order.
    pub fn colors() -> (v: Vec<Card>)
        ensures
            v@ == spec_colors(),
    {
        let mut v: Vec<Card> = Vec::new();
        v.push(Card::Red);
        v.push(Card::Orange);
        v.push(Card::Yellow);
        v.push(Card::Green);
        v.push(Card::Blue);
        v.push(Card::Purple);
        v.push(Card::Brown);
        proof {
            assert(v@ =~= spec_colors());
        }
        v
    }
}

} // verus!
