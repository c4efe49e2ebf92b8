use vstd::prelude::*;

verus! {

/// The ten hand categories, in tally order: the ordinal of each variant
/// is its index into a tally, and this ordering is part of the external
/// contract.
#[derive(Debug, Clone, Copy, PartialEq, Eq, Structural, Hash)]
pub enum PokerHand {
    HighCard,
    OnePair,
    TwoPair,
    ThreeOfAKind,
    Straight,
    Flush,
    FullHouse,
    FourOfAKind,
    StraightFlush,
    RoyalFlush,
}

impl PokerHand {
    /// The category's ordinal.
    pub open spec fn spec_raw_value(self) -> int {
        match self {
            PokerHand::HighCard => 0,
            PokerHand::OnePair => 1,
            PokerHand::TwoPair => 2,
            PokerHand::ThreeOfAKind => 3,
            PokerHand::Straight => 4,
            PokerHand::Flush => 5,
            PokerHand::FullHouse => 6,
            PokerHand::FourOfAKind => 7,
            PokerHand::StraightFlush => 8,
            PokerHand::RoyalFlush => 9,
        }
    }

    /// The category's index into a tally.
    pub fn raw_value(self) -> (r: usize)
        ensures
            r == self.spec_raw_value(),
    {
        match self {
            PokerHand::HighCard => 0,
            PokerHand::OnePair => 1,
            PokerHand::TwoPair => 2,
            PokerHand::ThreeOfAKind => 3,
            PokerHand::Straight => 4,
            PokerHand::Flush => 5,
            PokerHand::FullHouse => 6,
            PokerHand::FourOfAKind => 7,
            PokerHand::StraightFlush => 8,
            PokerHand::RoyalFlush => 9,
        }
    }
}

} // verus!
