use vstd::prelude::*;
use vstd::slice::slice_to_vec;

use crate::card::Card;
use crate::card::valid_cards;
use crate::rank::Rank;
use crate::rng::PcgRng;
use crate::suit::Suit;

verus! {

/// `out` is a draw from `deck`: each of its cards sits at a deck
/// position of its own, all positions distinct.
pub open spec fn is_draw_of(src: Seq<int>, out: Seq<Card>, deck: Seq<Card>) -> bool {
    &&& src.len() == out.len()
    &&& forall|p: int|
        0 <= p < src.len() ==> 0 <= #[trigger] src[p] < deck.len() && out[p] == deck[src[p]]
    &&& forall|p: int, q: int| 0 <= p < q < src.len() ==> src[p] != src[q]
}

/// A draw from a deck without duplicate cards has no duplicates itself.
pub proof fn lemma_draw_distinct(src: Seq<int>, out: Seq<Card>, deck: Seq<Card>)
    requires
        is_draw_of(src, out, deck),
        forall|p: int, q: int| 0 <= p < q < deck.len() ==> deck[p] != deck[q],
    ensures
        forall|p: int, q: int| 0 <= p < q < out.len() ==> out[p] != out[q],
{
    assert forall|p: int, q: int| 0 <= p < q < out.len() implies out[p] != out[q] by {
        if src[p] < src[q] {
            assert(deck[src[p]] != deck[src[q]]);
        } else {
            assert(deck[src[q]] != deck[src[p]]);
        }
    }
}

/// An ordered collection of cards. The order is observable only through
/// the sampler; no invariant forbids duplicates.
#[derive(Debug, Clone)]
pub struct Deck {
    pub cards: Vec<Card>,
}

/// The card at position `i` of the standard 52-card deck: the rank grows
/// every four positions, the suit cycles within them.
pub open spec fn standard_card(i: int) -> Card {
    Card { rank: Rank { value: (2 + i / 4) as u8 }, suit: Suit { value: (i % 4) as u8 } }
}

impl Deck {
    /// Fills `out` with `out.len()` cards drawn from the deck without
    /// replacement, by reservoir sampling: the first `out.len()` deck
    /// cards, then each further card displaces a random slot. The result
    /// picks every card from a deck position of its own.
    pub fn sample_draw(&self, rng: &mut PcgRng, out: &mut Vec<Card>)
        requires
            old(out)@.len() <= self.cards@.len(),
        ensures
            final(out)@.len() == old(out)@.len(),
            exists|src: Seq<int>| is_draw_of(src, final(out)@, self.cards@),
    {
        let deck_size = self.cards.len();
        let draw_size = out.len();
        let mut i: usize = 0;
        while i < draw_size
            invariant
                draw_size <= deck_size,
                deck_size == self.cards@.len(),
                out@.len() == draw_size,
                i <= draw_size,
                forall|p: int| 0 <= p < i ==> out@[p] == self.cards@[p],
            decreases draw_size - i,
        {
            let c = self.cards[i];
            out.set(i, c);
            i = i + 1;
        }
        let ghost mut src: Seq<int> = Seq::new(draw_size as nat, |p: int| p);
        let mut i: usize = draw_size;
        while i < deck_size
            invariant
                draw_size <= i <= deck_size,
                deck_size == self.cards@.len(),
                out@.len() == draw_size,
                src.len() == draw_size,
                forall|p: int|
                    0 <= p < draw_size ==> 0 <= #[trigger] src[p] < i && out@[p]
                        == self.cards@[src[p]],
                forall|p: int, q: int| 0 <= p < q < draw_size ==> src[p] != src[q],
            decreases deck_size - i,
        {
            let j = rng.gen_index(i);
            if j < draw_size {
                let c = self.cards[i];
                out.set(j, c);
                proof {
                    src = src.update(j as int, i as int);
                }
            }
            i = i + 1;
        }
        proof {
            assert(is_draw_of(src, out@, self.cards@));
        }
    }

    /// Copies the given cards into a new deck.
    pub fn new(cards: &[Card]) -> (d: Deck)
        ensures
            d.cards@ == cards@,
    {
        Deck { cards: slice_to_vec(cards) }
    }

    /// Builds the standard deck: all 52 combinations of rank and suit.
    pub fn make_standard() -> (d: Deck)
        ensures
            d.cards@.len() == 52,
            forall|i: int| 0 <= i < 52 ==> d.cards@[i] == standard_card(i),
            valid_cards(d.cards@),
    {
        let ranks = Rank::iter();
        let suits = Suit::iter();
        let mut cards: Vec<Card> = Vec::new();
        let mut r: usize = 0;
        while r < 13
            invariant
                r <= 13,
                ranks@.len() == 13,
                forall|i: int| 0 <= i < 13 ==> (#[trigger] ranks@[i]).value == 2 + i,
                suits@.len() == 4,
                forall|i: int| 0 <= i < 4 ==> (#[trigger] suits@[i]).value == i,
                cards@.len() == 4 * r,
                forall|i: int| 0 <= i < cards@.len() ==> #[trigger] cards@[i] == standard_card(i),
            decreases 13 - r,
        {
            let mut t: usize = 0;
            while t < 4
                invariant
                    r < 13,
                    t <= 4,
                    ranks@.len() == 13,
                    forall|i: int| 0 <= i < 13 ==> (#[trigger] ranks@[i]).value == 2 + i,
                    suits@.len() == 4,
                    forall|i: int| 0 <= i < 4 ==> (#[trigger] suits@[i]).value == i,
                    cards@.len() == 4 * r + t,
                    forall|i: int|
                        0 <= i < cards@.len() ==> #[trigger] cards@[i] == standard_card(i),
                decreases 4 - t,
            {
                let card = Card::new(ranks[r], suits[t]);
                proof {
                    assert(standard_card(4 * r + t) == (Card {
                        rank: Rank { value: (2 + r) as u8 },
                        suit: Suit { value: t as u8 },
                    })) by {
                        assert((4 * r + t) / 4 == r as int && (4 * r + t) % 4 == t as int) by (nonlinear_arith)
                            requires
                                0 <= t < 4,
                                0 <= r,
                        ;
                    };
                }
                cards.push(card);
                t = t + 1;
            }
            r = r + 1;
        }
        Deck { cards }
    }
}

} // verus!
