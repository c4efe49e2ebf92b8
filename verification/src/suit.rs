use vstd::prelude::*;

verus! {

/// A card suit: 0 = hearts, 1 = diamonds, 2 = clubs, 3 = spades.
/// The value 5 is an internal sentinel for "no card"; the classifier
/// refuses it by precondition.
#[derive(Debug, Clone, Copy, Eq, PartialEq, Structural, Default)]
pub struct Suit {
    pub value: u8,
}

impl Suit {
    /// Whether this value denotes one of the four real suits.
    pub open spec fn valid(self) -> bool {
        self.value <= 3
    }

    /// The suit denoted by one character of the text form, if any.
    pub open spec fn spec_from_char(c: char) -> Option<u8> {
        match c {
            'H' => Some(0u8),
            'D' => Some(1u8),
            'C' => Some(2u8),
            'S' => Some(3u8),
            _ => None,
        }
    }

    /// All four suits, in ascending order.
    pub fn iter() -> (r: Vec<Suit>)
        ensures
            r@.len() == 4,
            forall|i: int| 0 <= i < 4 ==> (#[trigger] r@[i]).value == i,
    {
        let mut v: Vec<Suit> = Vec::new();
        let mut value: u8 = 0;
        while value < 4
            invariant
                value <= 4,
                v@.len() == value,
                forall|i: int| 0 <= i < v@.len() ==> (#[trigger] v@[i]).value == i,
            decreases 4 - value,
        {
            v.push(Suit { value });
            value = value + 1;
        }
        v
    }

    /// Parses one character of the text form into a suit value.
    pub fn from_char(c: char) -> (r: Option<u8>)
        ensures
            r == Self::spec_from_char(c),
            r is Some ==> r.unwrap() <= 3,
    {
        match c {
            'H' => Some(0),
            'D' => Some(1),
            'C' => Some(2),
            'S' => Some(3),
            _ => None,
        }
    }
}

} // verus!
