use vstd::prelude::*;

use crate::rank::Rank;
use crate::suit::Suit;

verus! {

/// A playing card: a rank paired with a suit. Equality is structural.
#[derive(Debug, Clone, Copy, Eq, PartialEq, Structural)]
pub struct Card {
    pub rank: Rank,
    pub suit: Suit,
}

/// Whether every card of the sequence has a playable rank and a real suit.
pub open spec fn valid_cards(s: Seq<Card>) -> bool {
    forall|i: int| 0 <= i < s.len() ==> (#[trigger] s[i]).valid()
}

impl Card {
    /// Whether the card has a playable rank and a real suit.
    pub open spec fn valid(self) -> bool {
        self.rank.valid() && self.suit.valid()
    }

    /// The sentinel card that pre-fills scratch buffers before a draw.
    pub open spec fn spec_invalid() -> Card {
        Card { rank: Rank { value: 0 }, suit: Suit { value: 5 } }
    }

    /// Builds the sentinel card.
    pub fn invalid() -> (c: Card)
        ensures
            c == Self::spec_invalid(),
    {
        Card { rank: Rank { value: 0 }, suit: Suit { value: 5 } }
    }

    /// Builds a card from its two components.
    pub fn new(rank: Rank, suit: Suit) -> (c: Card)
        ensures
            c == (Card { rank, suit }),
    {
        Card { rank, suit }
    }

    /// The card denoted by a two-character text form such as `"AS"` or `"TH"`.
    pub open spec fn spec_from_str(s: Seq<char>) -> Option<Card> {
        if s.len() == 2 {
            match (Rank::spec_from_char(s[0]), Suit::spec_from_char(s[1])) {
                (Some(r), Some(t)) => Some(
                    Card { rank: Rank { value: r }, suit: Suit { value: t } },
                ),
                _ => None,
            }
        } else {
            None
        }
    }

    /// Parses the two-character text form of a card.
    pub fn from_str(s: &str) -> (r: Option<Card>)
        ensures
            r == Self::spec_from_str(s@),
            r is Some ==> r.unwrap().valid(),
    {
        if s.unicode_len() != 2 {
            return None;
        }
        let rank_char = s.get_char(0);
        let suit_char = s.get_char(1);
        let rank_value = match Rank::from_char(rank_char) {
            Some(v) => v,
            None => {
                return None;
            },
        };
        let suit_value = match Suit::from_char(suit_char) {
            Some(v) => v,
            None => {
                return None;
            },
        };
        Some(Card { rank: Rank { value: rank_value }, suit: Suit { value: suit_value } })
    }

    /// Whitespace accepted between cards in the text form of a hand:
    /// the characters with the Unicode `White_Space` property, exactly
    /// the set `char::is_whitespace` accepts.
    pub open spec fn is_space(c: char) -> bool {
        ||| c == ' '
        ||| ('\u{09}' <= c && c <= '\u{0D}')
        ||| c == '\u{85}'
        ||| c == '\u{A0}'
        ||| c == '\u{1680}'
        ||| ('\u{2000}' <= c && c <= '\u{200A}')
        ||| c == '\u{2028}'
        ||| c == '\u{2029}'
        ||| c == '\u{202F}'
        ||| c == '\u{205F}'
        ||| c == '\u{3000}'
    }

    /// Index of the first whitespace character at or after `i` (or the end).
    pub open spec fn token_end(s: Seq<char>, i: int) -> int
        decreases s.len() - i,
    {
        if i < 0 || i >= s.len() || Self::is_space(s[i]) {
            i
        } else {
            Self::token_end(s, i + 1)
        }
    }

    /// Bounds of `token_end`: it stays within the text, everything before
    /// it is non-whitespace, and it stops at whitespace or the end.
    pub proof fn lemma_token_end(s: Seq<char>, i: int)
        requires
            0 <= i <= s.len(),
        ensures
            i <= Self::token_end(s, i) <= s.len(),
            forall|k: int| i <= k < Self::token_end(s, i) ==> !Self::is_space(s[k]),
            Self::token_end(s, i) < s.len() ==> Self::is_space(s[Self::token_end(s, i)]),
        decreases s.len() - i,
    {
        if i < s.len() && !Self::is_space(s[i]) {
            Self::lemma_token_end(s, i + 1);
        }
    }

    proof fn lemma_token_end_is(s: Seq<char>, i: int, j: int)
        requires
            0 <= i <= j <= s.len(),
            forall|k: int| i <= k < j ==> !Self::is_space(s[k]),
            j < s.len() ==> Self::is_space(s[j]),
        ensures
            Self::token_end(s, i) == j,
        decreases j - i,
    {
        if i < j {
            assert(!Self::is_space(s[i]));
            Self::lemma_token_end_is(s, i + 1, j);
        }
    }

    /// The cards denoted by the text from position `i` on: whitespace is
    /// skipped, each maximal non-whitespace run must parse as one card.
    pub open spec fn parse_cards(s: Seq<char>, i: int) -> Option<Seq<Card>>
        decreases s.len() - i,
    {
        if i < 0 || i >= s.len() {
            Some(Seq::empty())
        } else if Self::is_space(s[i]) {
            Self::parse_cards(s, i + 1)
        } else {
            proof {
                Self::lemma_token_end(s, i);
            }
            let j = Self::token_end(s, i);
            match Self::spec_from_str(s.subrange(i, j)) {
                None => None,
                Some(c) => match Self::parse_cards(s, j) {
                    None => None,
                    Some(rest) => Some(seq![c] + rest),
                },
            }
        }
    }

    /// The hand denoted by a whitespace-separated list of card text forms.
    pub open spec fn spec_make_hand(s: Seq<char>) -> Option<Seq<Card>> {
        Self::parse_cards(s, 0)
    }

    fn char_is_space(c: char) -> (b: bool)
        ensures
            b == Self::is_space(c),
    {
        match c {
            ' ' => true,
            '\u{09}'..='\u{0D}' => true,
            '\u{85}' => true,
            '\u{A0}' => true,
            '\u{1680}' => true,
            '\u{2000}'..='\u{200A}' => true,
            '\u{2028}' => true,
            '\u{2029}' => true,
            '\u{202F}' => true,
            '\u{205F}' => true,
            '\u{3000}' => true,
            _ => false,
        }
    }

    /// Parses a whitespace-separated list of cards; `None` if any token
    /// is not a card.
    pub fn make_hand(s: &str) -> (r: Option<Vec<Card>>)
        ensures
            match r {
                Some(v) => Self::spec_make_hand(s@) == Some(v@) && valid_cards(v@),
                None => Self::spec_make_hand(s@) is None,
            },
    {
        let n = s.unicode_len();
        let mut cards: Vec<Card> = Vec::new();
        let mut i: usize = 0;
        while i < n
            invariant
                n == s@.len(),
                i <= n,
                valid_cards(cards@),
                Self::parse_cards(s@, 0) is Some <==> Self::parse_cards(s@, i as int) is Some,
                Self::parse_cards(s@, 0) is Some ==> Self::parse_cards(s@, 0).unwrap() == cards@
                    + Self::parse_cards(s@, i as int).unwrap(),
            decreases n - i,
        {
            let c = s.get_char(i);
            if Self::char_is_space(c) {
                i = i + 1;
            } else {
                let ghost i0 = i as int;
                let mut j: usize = i + 1;
                while j < n && !Self::char_is_space(s.get_char(j))
                    invariant
                        n == s@.len(),
                        i0 < j <= n,
                        forall|k: int| i0 <= k < j ==> !Self::is_space(s@[k]),
                    decreases n - j,
                {
                    j = j + 1;
                }
                proof {
                    Self::lemma_token_end_is(s@, i0, j as int);
                }
                let token = s.substring_char(i, j);
                match Self::from_str(token) {
                    None => {
                        return None;
                    },
                    Some(card) => {
                        let ghost cards0 = cards@;
                        cards.push(card);
                        proof {
                            let rest1 = Self::parse_cards(s@, j as int);
                            if rest1 is Some {
                                assert(Self::parse_cards(s@, i0).unwrap() == seq![card]
                                    + rest1.unwrap());
                                assert(cards@ + rest1.unwrap() =~= cards0 + (seq![card]
                                    + rest1.unwrap()));
                            }
                        }
                        i = j;
                    },
                }
            }
        }
        Some(cards)
    }
}

} // verus!
