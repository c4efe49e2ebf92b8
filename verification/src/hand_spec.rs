use vstd::prelude::*;
use vstd::multiset::Multiset;

use crate::card::Card;
use crate::rank::Rank;
use crate::suit::Suit;

verus! {

broadcast use vstd::multiset::group_multiset_axioms;

// All category predicates are stated over the multiset of a hand's cards,
// so they are insensitive to the order of the hand by construction.

/// Number of cards of rank `r` and suit `t` in the hand.
pub open spec fn rank_suit_count(m: Multiset<Card>, r: int, t: int) -> nat {
    m.count(Card { rank: Rank { value: r as u8 }, suit: Suit { value: t as u8 } })
}

/// Number of cards of rank `r` in the hand, over the four real suits.
pub open spec fn rank_count(m: Multiset<Card>, r: int) -> nat {
    (rank_suit_count(m, r, 0) + rank_suit_count(m, r, 1) + rank_suit_count(m, r, 2)
        + rank_suit_count(m, r, 3)) as nat
}

/// Number of cards of suit `t` with a playable rank below `k`.
pub open spec fn suit_count_upto(m: Multiset<Card>, t: int, k: int) -> nat
    decreases k,
{
    if k <= 2 {
        0
    } else {
        (suit_count_upto(m, t, k - 1) + rank_suit_count(m, k - 1, t)) as nat
    }
}

/// Number of cards of suit `t` in the hand (playable ranks).
pub open spec fn suit_count(m: Multiset<Card>, t: int) -> nat {
    suit_count_upto(m, t, 15)
}

/// Number of ranks below `k` held exactly `c` times.
pub open spec fn ranks_with_exactly(m: Multiset<Card>, c: nat, k: int) -> nat
    decreases k,
{
    if k <= 2 {
        0
    } else {
        (ranks_with_exactly(m, c, k - 1) + if rank_count(m, k - 1) == c {
            1nat
        } else {
            0nat
        }) as nat
    }
}

/// Number of ranks below `k` held at least `c` times.
pub open spec fn ranks_with_at_least(m: Multiset<Card>, c: nat, k: int) -> nat
    decreases k,
{
    if k <= 2 {
        0
    } else {
        (ranks_with_at_least(m, c, k - 1) + if rank_count(m, k - 1) >= c {
            1nat
        } else {
            0nat
        }) as nat
    }
}

/// Number of ranks held exactly twice.
pub open spec fn pair_ranks(m: Multiset<Card>) -> nat {
    ranks_with_exactly(m, 2, 15)
}

/// Number of ranks held exactly three times.
pub open spec fn three_ranks(m: Multiset<Card>) -> nat {
    ranks_with_exactly(m, 3, 15)
}

/// Number of ranks held exactly four times.
pub open spec fn four_ranks(m: Multiset<Card>) -> nat {
    ranks_with_exactly(m, 4, 15)
}

/// Number of ranks held five or more times.
pub open spec fn five_ranks(m: Multiset<Card>) -> nat {
    ranks_with_at_least(m, 5, 15)
}

/// A non-empty hand always realizes a high card.
pub open spec fn has_high_card(m: Multiset<Card>) -> bool {
    m.len() > 0
}

/// Some rank is held at least twice.
pub open spec fn has_one_pair(m: Multiset<Card>) -> bool {
    pair_ranks(m) + three_ranks(m) + four_ranks(m) + five_ranks(m) >= 1
}

/// Two pairs of distinct ranks, or one rank held four or more times.
pub open spec fn has_two_pair(m: Multiset<Card>) -> bool {
    ||| pair_ranks(m) + three_ranks(m) + four_ranks(m) + five_ranks(m) >= 2
    ||| four_ranks(m) >= 1
    ||| five_ranks(m) >= 1
}

/// Some rank is held at least three times.
pub open spec fn has_three_of_a_kind(m: Multiset<Card>) -> bool {
    three_ranks(m) + four_ranks(m) + five_ranks(m) >= 1
}

/// Some rank is held at least four times.
pub open spec fn has_four_of_a_kind(m: Multiset<Card>) -> bool {
    four_ranks(m) + five_ranks(m) >= 1
}

/// A rank held three times plus a distinct rank held twice, in any of
/// the group combinations that can furnish them.
pub open spec fn has_full_house(m: Multiset<Card>) -> bool {
    ||| (three_ranks(m) >= 1 && pair_ranks(m) >= 1)
    ||| (four_ranks(m) >= 1 && (pair_ranks(m) >= 1 || three_ranks(m) >= 1))
    ||| three_ranks(m) >= 2
    ||| four_ranks(m) >= 2
    ||| five_ranks(m) >= 1
}

/// Five cards of one suit.
pub open spec fn has_flush(m: Multiset<Card>) -> bool {
    exists|t: int| 0 <= t < 4 && suit_count(m, t) >= 5
}

/// The five ranks `lo .. lo + 5` are all present.
pub open spec fn straight_at(m: Multiset<Card>, lo: int) -> bool {
    forall|r: int| lo <= r < lo + 5 ==> rank_count(m, r) > 0
}

/// Ace played low: ranks 2, 3, 4, 5 and the ace are all present.
pub open spec fn wheel(m: Multiset<Card>) -> bool {
    rank_count(m, 14) > 0 && (forall|r: int| 2 <= r < 6 ==> rank_count(m, r) > 0)
}

/// Five consecutive ranks, the wheel included.
pub open spec fn has_straight(m: Multiset<Card>) -> bool {
    (exists|lo: int| 2 <= lo <= 10 && straight_at(m, lo)) || wheel(m)
}

/// The five ranks `lo .. lo + 5` are all present within suit `t`.
pub open spec fn suited_straight_at(m: Multiset<Card>, t: int, lo: int) -> bool {
    forall|r: int| lo <= r < lo + 5 ==> rank_suit_count(m, r, t) > 0
}

/// The wheel entirely within suit `t`.
pub open spec fn suited_wheel(m: Multiset<Card>, t: int) -> bool {
    rank_suit_count(m, 14, t) > 0 && (forall|r: int|
        2 <= r < 6 ==> rank_suit_count(m, r, t) > 0)
}

/// Five consecutive ranks within suit `t`, the royal run and the wheel
/// included.
pub open spec fn suited_run(m: Multiset<Card>, t: int) -> bool {
    (exists|lo: int| 2 <= lo <= 10 && suited_straight_at(m, t, lo)) || suited_wheel(m, t)
}

/// Five consecutive ranks within one suit, the royal run included.
pub open spec fn has_straight_flush(m: Multiset<Card>) -> bool {
    exists|t: int| 0 <= t < 4 && suited_run(m, t)
}

/// Ten through ace entirely within one suit.
pub open spec fn has_royal_flush(m: Multiset<Card>) -> bool {
    exists|t: int| 0 <= t < 4 && suited_straight_at(m, t, 10)
}

/// Whether the category with ordinal `i` is realizable in the hand.
pub open spec fn category_holds(m: Multiset<Card>, i: int) -> bool {
    if i == 0 {
        has_high_card(m)
    } else if i == 1 {
        has_one_pair(m)
    } else if i == 2 {
        has_two_pair(m)
    } else if i == 3 {
        has_three_of_a_kind(m)
    } else if i == 4 {
        has_straight(m)
    } else if i == 5 {
        has_flush(m)
    } else if i == 6 {
        has_full_house(m)
    } else if i == 7 {
        has_four_of_a_kind(m)
    } else if i == 8 {
        has_straight_flush(m)
    } else if i == 9 {
        has_royal_flush(m)
    } else {
        false
    }
}

/// 1 where the category with ordinal `i` is realizable, 0 elsewhere.
pub open spec fn category_delta(m: Multiset<Card>, i: int) -> int {
    if category_holds(m, i) {
        1
    } else {
        0
    }
}

// A run of five ranks within a suit forces at least five cards of that
// suit; these lemmas carry the count through the per-rank sum.

proof fn lemma_suited_run_count(m: Multiset<Card>, t: int, lo: int, k: int)
    requires
        2 <= lo,
        lo + 5 <= 15,
        2 <= k <= 15,
        forall|r: int| lo <= r < lo + 5 ==> rank_suit_count(m, r, t) >= 1,
    ensures
        suit_count_upto(m, t, k) >= (if k >= lo + 5 {
            5
        } else if k <= lo {
            0
        } else {
            k - lo
        }),
    decreases k,
{
    if k > 2 {
        lemma_suited_run_count(m, t, lo, k - 1);
    }
}

proof fn lemma_suited_wheel_count(m: Multiset<Card>, t: int, k: int)
    requires
        2 <= k <= 15,
        rank_suit_count(m, 14, t) >= 1,
        forall|r: int| 2 <= r < 6 ==> rank_suit_count(m, r, t) >= 1,
    ensures
        suit_count_upto(m, t, k) >= (if k >= 15 {
            5
        } else if k <= 6 {
            k - 2
        } else {
            4
        }),
    decreases k,
{
    if k > 2 {
        lemma_suited_wheel_count(m, t, k - 1);
    }
}

/// A straight flush (or royal flush) in suit `t` puts five cards there.
pub proof fn lemma_suited_run_implies_flush(m: Multiset<Card>, t: int)
    requires
        suited_run(m, t),
    ensures
        suit_count(m, t) >= 5,
{
    if exists|lo: int| 2 <= lo <= 10 && suited_straight_at(m, t, lo) {
        let lo = choose|lo: int| 2 <= lo <= 10 && suited_straight_at(m, t, lo);
        lemma_suited_run_count(m, t, lo, 15);
    } else {
        lemma_suited_wheel_count(m, t, 15);
    }
}

/// The realizable categories are downward closed under implication:
/// a witness of the stronger category also witnesses the weaker ones.
pub proof fn lemma_category_implications(m: Multiset<Card>)
    ensures
        has_royal_flush(m) ==> has_straight_flush(m),
        has_straight_flush(m) ==> has_straight(m) && has_flush(m),
        has_four_of_a_kind(m) ==> has_three_of_a_kind(m) && has_two_pair(m) && has_one_pair(m),
        has_full_house(m) ==> has_three_of_a_kind(m) && has_one_pair(m),
        has_three_of_a_kind(m) ==> has_one_pair(m),
        has_two_pair(m) ==> has_one_pair(m),
        m.len() > 0 ==> has_high_card(m),
{
    if has_royal_flush(m) {
        let t = choose|t: int| 0 <= t < 4 && suited_straight_at(m, t, 10);
        assert(suited_run(m, t)) by {
            assert(2 <= 10 <= 10 && suited_straight_at(m, t, 10));
        }
        assert(has_straight_flush(m));
    }
    if has_straight_flush(m) {
        let t = choose|t: int| 0 <= t < 4 && suited_run(m, t);
        lemma_suited_run_implies_flush(m, t);
        assert(has_flush(m));
        if exists|lo: int| 2 <= lo <= 10 && suited_straight_at(m, t, lo) {
            let lo = choose|lo: int| 2 <= lo <= 10 && suited_straight_at(m, t, lo);
            assert forall|r: int| lo <= r < lo + 5 implies rank_count(m, r) > 0 by {
                assert(rank_suit_count(m, r, t) > 0);
            }
            assert(straight_at(m, lo));
        } else {
            assert(suited_wheel(m, t));
            assert(rank_count(m, 14) > 0) by {
                assert(rank_suit_count(m, 14, t) > 0);
            }
            assert forall|r: int| 2 <= r < 6 implies rank_count(m, r) > 0 by {
                assert(rank_suit_count(m, r, t) > 0);
            }
            assert(wheel(m));
        }
    }
}

proof fn lemma_suit_count_upto_insert(m: Multiset<Card>, c: Card, t: int, k: int)
    requires
        c.valid(),
        0 <= t < 4,
        2 <= k <= 15,
    ensures
        suit_count_upto(m.insert(c), t, k) == suit_count_upto(m, t, k) + if t == c.suit.value
            && c.rank.value < k {
            1int
        } else {
            0int
        },
    decreases k,
{
    if k > 2 {
        lemma_suit_count_upto_insert(m, c, t, k - 1);
    }
}

/// Effect of adding one valid card on the per-rank and per-suit counts.
pub proof fn lemma_counts_insert(m: Multiset<Card>, c: Card)
    requires
        c.valid(),
    ensures
        forall|r: int, t: int|
            0 <= r < 15 && 0 <= t < 4 ==> #[trigger] rank_suit_count(m.insert(c), r, t)
                == rank_suit_count(m, r, t) + if r == c.rank.value && t == c.suit.value {
                1int
            } else {
                0int
            },
        forall|r: int|
            0 <= r < 15 ==> #[trigger] rank_count(m.insert(c), r) == rank_count(m, r) + if r
                == c.rank.value {
                1int
            } else {
                0int
            },
        forall|t: int|
            0 <= t < 4 ==> #[trigger] suit_count(m.insert(c), t) == suit_count(m, t) + if t
                == c.suit.value {
                1int
            } else {
                0int
            },
{
    assert forall|r: int, t: int| 0 <= r < 15 && 0 <= t < 4 implies #[trigger] rank_suit_count(
        m.insert(c),
        r,
        t,
    ) == rank_suit_count(m, r, t) + if r == c.rank.value && t == c.suit.value {
        1int
    } else {
        0int
    } by {
        let w = Card { rank: Rank { value: r as u8 }, suit: Suit { value: t as u8 } };
        if w == c {
            assert(r == c.rank.value && t == c.suit.value);
        } else {
            assert(!(r == c.rank.value && t == c.suit.value));
        }
    }
    assert forall|t: int| 0 <= t < 4 implies #[trigger] suit_count(m.insert(c), t) == suit_count(
        m,
        t,
    ) + if t == c.suit.value {
        1int
    } else {
        0int
    } by {
        lemma_suit_count_upto_insert(m, c, t, 15);
    }
}

proof fn lemma_suit_count_upto_zero(m: Multiset<Card>, t: int, k: int)
    requires
        m.len() == 0,
        k <= 15,
    ensures
        suit_count_upto(m, t, k) == 0,
    decreases k,
{
    if k > 2 {
        lemma_suit_count_upto_zero(m, t, k - 1);
    }
}

proof fn lemma_group_counts_zero(m: Multiset<Card>, c: nat, k: int)
    requires
        m.len() == 0,
        c >= 1,
        k <= 15,
    ensures
        ranks_with_exactly(m, c, k) == 0,
        ranks_with_at_least(m, c, k) == 0,
    decreases k,
{
    if k > 2 {
        lemma_group_counts_zero(m, c, k - 1);
    }
}

/// All counts of an empty hand are zero.
pub proof fn lemma_counts_of_nothing(m: Multiset<Card>)
    requires
        m.len() == 0,
    ensures
        forall|r: int, t: int| #[trigger] rank_suit_count(m, r, t) == 0,
        forall|r: int| #[trigger] rank_count(m, r) == 0,
        forall|t: int| #[trigger] suit_count(m, t) == 0,
{
    assert forall|t: int| #[trigger] suit_count(m, t) == 0 by {
        lemma_suit_count_upto_zero(m, t, 15);
    }
}

/// An empty hand realizes no category at all.
pub proof fn lemma_empty_hand(m: Multiset<Card>)
    requires
        m.len() == 0,
    ensures
        forall|i: int| 0 <= i < 10 ==> !category_holds(m, i),
{
    lemma_group_counts_zero(m, 2, 15);
    lemma_group_counts_zero(m, 3, 15);
    lemma_group_counts_zero(m, 4, 15);
    lemma_group_counts_zero(m, 5, 15);
    assert forall|t: int| 0 <= t < 4 implies suit_count(m, t) == 0 by {
        lemma_suit_count_upto_zero(m, t, 15);
    }
    assert(!has_straight(m)) by {
        assert(rank_count(m, 14) == 0);
        assert forall|lo: int| 2 <= lo <= 10 implies !straight_at(m, lo) by {
            assert(rank_count(m, lo) == 0);
        }
    }
    assert(!has_straight_flush(m)) by {
        assert forall|t: int| 0 <= t < 4 implies !suited_run(m, t) by {
            assert(rank_suit_count(m, 14, t) == 0);
            assert forall|lo: int| 2 <= lo <= 10 implies !suited_straight_at(m, t, lo) by {
                assert(rank_suit_count(m, lo, t) == 0);
            }
        }
    }
    assert(!has_royal_flush(m)) by {
        assert forall|t: int| 0 <= t < 4 implies !suited_straight_at(m, t, 10) by {
            assert(rank_suit_count(m, 10, t) == 0);
        }
    }
}

/// Permuting a hand leaves every category unchanged: the predicates are
/// functions of the hand's multiset alone.
pub proof fn lemma_order_invariance(h1: Seq<Card>, h2: Seq<Card>)
    requires
        h1.to_multiset() == h2.to_multiset(),
    ensures
        forall|i: int|
            0 <= i < 10 ==> category_holds(h1.to_multiset(), i) == category_holds(
                h2.to_multiset(),
                i,
            ),
{
}

} // verus!
