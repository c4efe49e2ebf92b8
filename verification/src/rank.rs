use vstd::prelude::*;

verus! {

/// A card rank: 2 through 10 literally, then 11 = J, 12 = Q, 13 = K, 14 = A.
/// Values below 2 are reserved and never denote a playable rank.
#[derive(Debug, Clone, Copy, Eq, PartialEq, Structural, Default)]
pub struct Rank {
    pub value: u8,
}

impl Rank {
    /// Whether this value denotes one of the thirteen playable ranks.
    pub open spec fn valid(self) -> bool {
        2 <= self.value <= 14
    }

    /// The rank denoted by one character of the text form, if any.
    pub open spec fn spec_from_char(c: char) -> Option<u8> {
        match c {
            '2' => Some(2u8),
            '3' => Some(3u8),
            '4' => Some(4u8),
            '5' => Some(5u8),
            '6' => Some(6u8),
            '7' => Some(7u8),
            '8' => Some(8u8),
            '9' => Some(9u8),
            'T' => Some(10u8),
            'J' => Some(11u8),
            'Q' => Some(12u8),
            'K' => Some(13u8),
            'A' => Some(14u8),
            _ => None,
        }
    }

    /// All thirteen playable ranks, in ascending order.
    pub fn iter() -> (r: Vec<Rank>)
        ensures
            r@.len() == 13,
            forall|i: int| 0 <= i < 13 ==> (#[trigger] r@[i]).value == 2 + i,
    {
        let mut v: Vec<Rank> = Vec::new();
        let mut value: u8 = 2;
        while value <= 14
            invariant
                2 <= value <= 15,
                v@.len() == value - 2,
                forall|i: int| 0 <= i < v@.len() ==> (#[trigger] v@[i]).value == 2 + i,
            decreases 15 - value,
        {
            v.push(Rank { value });
            value = value + 1;
        }
        v
    }

    /// Parses one character of the text form into a rank value.
    pub fn from_char(c: char) -> (r: Option<u8>)
        ensures
            r == Self::spec_from_char(c),
            r is Some ==> 2 <= r.unwrap() <= 14,
    {
        match c {
            '2' => Some(2),
            '3' => Some(3),
            '4' => Some(4),
            '5' => Some(5),
            '6' => Some(6),
            '7' => Some(7),
            '8' => Some(8),
            '9' => Some(9),
            'T' => Some(10),
            'J' => Some(11),
            'Q' => Some(12),
            'K' => Some(13),
            'A' => Some(14),
            _ => None,
        }
    }
}

} // verus!
