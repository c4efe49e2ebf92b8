use vstd::prelude::*;
use vstd::multiset::Multiset;

use crate::card::Card;
use crate::card::valid_cards;
use crate::hand_spec::{
    category_delta, has_flush, has_royal_flush, has_straight, has_straight_flush,
    lemma_counts_insert, lemma_counts_of_nothing, lemma_empty_hand, lemma_suited_run_implies_flush,
    rank_count, rank_suit_count, ranks_with_at_least, ranks_with_exactly, straight_at, suit_count,
    suited_run, suited_straight_at, suited_wheel, wheel,
};
use crate::poker_hand::PokerHand;
use crate::poker_hands_count::PokerHandsCount;

verus! {

broadcast use {vstd::multiset::group_multiset_axioms, vstd::seq_lib::group_to_multiset_ensures};

/// Whether bit `i` of `x` is set.
pub open spec fn get_bit16(x: u16, i: u16) -> bool {
    (x >> i) & 1 == 1
}

proof fn lemma_bit_zero(j: u16)
    by (bit_vector)
    requires
        j < 16,
    ensures
        !get_bit16(0u16, j),
{
}

proof fn lemma_bit_or(x: u16, i: u16, j: u16)
    by (bit_vector)
    requires
        i < 16,
        j < 16,
    ensures
        get_bit16(x | (1u16 << i), j) == (j == i || get_bit16(x, j)),
{
}

proof fn lemma_run_mask(b: u16, lo: u16)
    by (bit_vector)
    requires
        2 <= lo <= 10,
    ensures
        ((b & (0x1Fu16 << lo)) == (0x1Fu16 << lo)) <==> (get_bit16(b, lo) && get_bit16(
            b,
            (lo + 1) as u16,
        ) && get_bit16(b, (lo + 2) as u16) && get_bit16(b, (lo + 3) as u16) && get_bit16(
            b,
            (lo + 4) as u16,
        )),
{
}

proof fn lemma_wheel_mask(b: u16)
    by (bit_vector)
    ensures
        ((b & 0x403Cu16) == 0x403Cu16) <==> (get_bit16(b, 2) && get_bit16(b, 3) && get_bit16(b, 4)
            && get_bit16(b, 5) && get_bit16(b, 14)),
{
}

/// The bit-parallel hand classifier.
pub struct PokerHandResolver;

impl PokerHandResolver {
    /// Flags, in `hands`, every category realizable as a five-card subset
    /// of `hand` (high card: whenever the hand is non-empty). Each counter
    /// grows by at most one per call.
    pub fn poker_hands(hand: &[Card], hands: &mut PokerHandsCount)
        requires
            valid_cards(hand@),
            old(hands).wf(),
            forall|i: int| 0 <= i < 10 ==> #[trigger] old(hands)@[i] + 1 <= i64::MAX,
        ensures
            final(hands).wf(),
            forall|i: int|
                0 <= i < 10 ==> #[trigger] final(hands)@[i] == old(hands)@[i] + category_delta(
                    hand@.to_multiset(),
                    i,
                ),
            forall|i: int|
                0 <= i < 10 ==> old(hands)@[i] <= #[trigger] final(hands)@[i] <= old(hands)@[i]
                    + 1,
    {
        let ghost m = hand@.to_multiset();
        if hand.len() == 0 {
            proof {
                assert(hand@.to_multiset().len() == hand@.len());
                lemma_empty_hand(m);
            }
            return ;
        }
        proof {
            assert(hand@.to_multiset().len() == hand@.len());
        }
        hands.add_one(PokerHand::HighCard);

        // One counting pass: per-rank counts, per-suit counts, and the
        // per-suit rank bitmaps.
        let mut rank_counts: Vec<usize> = Vec::new();
        let mut k: usize = 0;
        while k < 15
            invariant
                k <= 15,
                rank_counts@.len() == k,
                forall|j: int| 0 <= j < k ==> rank_counts@[j] == 0,
            decreases 15 - k,
        {
            rank_counts.push(0);
            k = k + 1;
        }
        let mut suit_counts: Vec<usize> = Vec::new();
        let mut suit_rank_bits: Vec<u16> = Vec::new();
        let mut k: usize = 0;
        while k < 4
            invariant
                k <= 4,
                suit_counts@.len() == k,
                suit_rank_bits@.len() == k,
                forall|j: int| 0 <= j < k ==> suit_counts@[j] == 0,
                forall|j: int| 0 <= j < k ==> suit_rank_bits@[j] == 0,
            decreases 4 - k,
        {
            suit_counts.push(0);
            suit_rank_bits.push(0);
            k = k + 1;
        }

        proof {
            assert(hand@.take(0) =~= Seq::<Card>::empty());
            assert(hand@.take(0).to_multiset().len() == 0);
            lemma_counts_of_nothing(hand@.take(0).to_multiset());
            assert forall|j: u16| j < 16 implies !get_bit16(0u16, j) by {
                lemma_bit_zero(j);
            }
        }

        let n = hand.len();
        let mut i: usize = 0;
        while i < n
            invariant
                n == hand@.len(),
                i <= n,
                valid_cards(hand@),
                rank_counts@.len() == 15,
                suit_counts@.len() == 4,
                suit_rank_bits@.len() == 4,
                forall|r: int|
                    0 <= r < 15 ==> #[trigger] rank_counts@[r] == rank_count(
                        hand@.take(i as int).to_multiset(),
                        r,
                    ),
                forall|r: int| 0 <= r < 15 ==> #[trigger] rank_counts@[r] <= i,
                forall|t: int|
                    0 <= t < 4 ==> #[trigger] suit_counts@[t] == suit_count(
                        hand@.take(i as int).to_multiset(),
                        t,
                    ),
                forall|t: int| 0 <= t < 4 ==> #[trigger] suit_counts@[t] <= i,
                forall|t: int, r: u16|
                    0 <= t < 4 && 2 <= r < 15 ==> (#[trigger] get_bit16(suit_rank_bits@[t], r)
                        <==> rank_suit_count(hand@.take(i as int).to_multiset(), r as int, t) > 0),
                forall|t: int, r: u16|
                    0 <= t < 4 && (r < 2 || 15 <= r < 16) ==> !(#[trigger] get_bit16(
                        suit_rank_bits@[t],
                        r,
                    )),
            decreases n - i,
        {
            let c = hand[i];
            let ghost m0 = hand@.take(i as int).to_multiset();
            proof {
                assert(hand@[i as int].valid());
                assert(hand@.take(i + 1) =~= hand@.take(i as int).push(hand@[i as int]));
                lemma_counts_insert(m0, c);
            }
            let rv = c.rank.value as usize;
            let tv = c.suit.value as usize;
            let rc = rank_counts[rv];
            rank_counts.set(rv, rc + 1);
            let sc = suit_counts[tv];
            suit_counts.set(tv, sc + 1);
            let ghost bits0 = suit_rank_bits@[tv as int];
            let b = suit_rank_bits[tv];
            suit_rank_bits.set(tv, b | (1u16 << (c.rank.value as u16)));
            proof {
                let m1 = hand@.take(i + 1).to_multiset();
                assert(m1 == m0.insert(c));
                assert forall|t: int, r: u16| 0 <= t < 4 && r < 16 implies (#[trigger] get_bit16(
                    suit_rank_bits@[t],
                    r,
                ) == (r == c.rank.value as u16 && t == tv || get_bit16(
                    if t == tv {
                        bits0
                    } else {
                        suit_rank_bits@[t]
                    },
                    r,
                ))) by {
                    if t == tv {
                        lemma_bit_or(bits0, c.rank.value as u16, r);
                    }
                }
            }
            i = i + 1;
        }
        proof {
            assert(hand@.take(n as int) =~= hand@);
        }

        // Group the ranks by how often they occur.
        let mut pair_count: usize = 0;
        let mut three_count: usize = 0;
        let mut four_count: usize = 0;
        let mut five_count: usize = 0;
        let mut r: usize = 2;
        while r < 15
            invariant
                2 <= r <= 15,
                rank_counts@.len() == 15,
                forall|j: int| 0 <= j < 15 ==> #[trigger] rank_counts@[j] == rank_count(m, j),
                pair_count == ranks_with_exactly(m, 2, r as int),
                three_count == ranks_with_exactly(m, 3, r as int),
                four_count == ranks_with_exactly(m, 4, r as int),
                five_count == ranks_with_at_least(m, 5, r as int),
                pair_count <= r,
                three_count <= r,
                four_count <= r,
                five_count <= r,
            decreases 15 - r,
        {
            let count = rank_counts[r];
            if count == 2 {
                pair_count = pair_count + 1;
            } else if count == 3 {
                three_count = three_count + 1;
            } else if count == 4 {
                four_count = four_count + 1;
            } else if count >= 5 {
                five_count = five_count + 1;
            }
            r = r + 1;
        }

        let has_pair = pair_count > 0 || three_count > 0 || four_count > 0 || five_count > 0;
        let total_groups = pair_count + three_count + four_count + five_count;
        let has_two_pair_b = total_groups >= 2 || four_count > 0 || five_count > 0;
        let has_three = three_count > 0 || four_count > 0 || five_count > 0;
        let has_four = four_count > 0 || five_count > 0;
        let has_full_house_b = (three_count > 0 && pair_count > 0) || (four_count > 0 && (pair_count
            > 0 || three_count > 0)) || three_count >= 2 || four_count >= 2 || five_count > 0;

        if has_pair {
            hands.add_one(PokerHand::OnePair);
        }
        if has_two_pair_b {
            hands.add_one(PokerHand::TwoPair);
        }
        if has_three {
            hands.add_one(PokerHand::ThreeOfAKind);
        }
        if has_four {
            hands.add_one(PokerHand::FourOfAKind);
        }
        if has_full_house_b {
            hands.add_one(PokerHand::FullHouse);
        }

        // Flush: five or more cards of one suit.
        let has_flush_b = suit_counts[0] >= 5 || suit_counts[1] >= 5 || suit_counts[2] >= 5
            || suit_counts[3] >= 5;
        proof {
            if has_flush_b {
                assert(has_flush(m));
            } else {
                assert forall|t: int| 0 <= t < 4 implies suit_count(m, t) < 5 by {
                    if t == 0 {
                        assert(suit_counts@[0] < 5);
                    } else if t == 1 {
                        assert(suit_counts@[1] < 5);
                    } else if t == 2 {
                        assert(suit_counts@[2] < 5);
                    } else {
                        assert(suit_counts@[3] < 5);
                    }
                }
            }
        }
        if has_flush_b {
            hands.add_one(PokerHand::Flush);
        }

        // Straight: five consecutive present ranks, the wheel included.
        let has_straight_b = Self::has_straight_bits(&rank_counts, Ghost(m));
        if has_straight_b {
            hands.add_one(PokerHand::Straight);
        }

        // Straight flush and royal flush, per qualifying suit.
        let straight_flush_result = Self::check_straight_flush_bits(
            &suit_rank_bits,
            &suit_counts,
            Ghost(m),
        );
        proof {
            assert((straight_flush_result & 2 != 0) <==> straight_flush_result == 3)
                by (bit_vector)
                requires
                    straight_flush_result == 0 || straight_flush_result == 1
                        || straight_flush_result == 3,
            ;
        }
        if straight_flush_result > 0 {
            hands.add_one(PokerHand::StraightFlush);
            if straight_flush_result & 2 != 0 {
                hands.add_one(PokerHand::RoyalFlush);
            }
        }
    }

    /// Straight detection on the rank-presence bitmap: one mask test per
    /// possible run, plus the wheel mask.
    fn has_straight_bits(rank_counts: &Vec<usize>, Ghost(m): Ghost<Multiset<Card>>) -> (res: bool)
        requires
            rank_counts@.len() == 15,
            forall|j: int| 2 <= j < 15 ==> #[trigger] rank_counts@[j] == rank_count(m, j),
        ensures
            res == has_straight(m),
    {
        let mut rank_bits: u16 = 0;
        proof {
            assert forall|j: u16| j < 16 implies !get_bit16(0u16, j) by {
                lemma_bit_zero(j);
            }
        }
        let mut r: usize = 2;
        while r < 15
            invariant
                2 <= r <= 15,
                rank_counts@.len() == 15,
                forall|j: int| 2 <= j < 15 ==> #[trigger] rank_counts@[j] == rank_count(m, j),
                forall|j: u16|
                    j < 16 ==> (#[trigger] get_bit16(rank_bits, j) <==> (2 <= j < r && rank_count(
                        m,
                        j as int,
                    ) > 0)),
            decreases 15 - r,
        {
            let ghost bits0 = rank_bits;
            if rank_counts[r] > 0 {
                rank_bits = rank_bits | (1u16 << (r as u16));
            }
            proof {
                assert forall|j: u16| j < 16 implies (#[trigger] get_bit16(rank_bits, j) <==> (2
                    <= j < r + 1 && rank_count(m, j as int) > 0)) by {
                    if rank_counts@[r as int] > 0 {
                        lemma_bit_or(bits0, r as u16, j);
                    }
                }
            }
            r = r + 1;
        }

        let mut lo: usize = 2;
        let mut found = false;
        while lo < 11
            invariant
                2 <= lo <= 11,
                forall|j: u16|
                    j < 16 ==> (#[trigger] get_bit16(rank_bits, j) <==> (2 <= j < 15 && rank_count(
                        m,
                        j as int,
                    ) > 0)),
                found <==> exists|l: int| 2 <= l < lo && straight_at(m, l),
            decreases 11 - lo,
        {
            let mask: u16 = 0x1Fu16 << (lo as u16);
            if (rank_bits & mask) == mask {
                proof {
                    lemma_run_mask(rank_bits, lo as u16);
                    assert forall|rr: int| lo <= rr < lo + 5 implies rank_count(m, rr) > 0 by {
                        assert(get_bit16(rank_bits, rr as u16));
                    }
                    assert(straight_at(m, lo as int));
                }
                found = true;
            } else {
                proof {
                    lemma_run_mask(rank_bits, lo as u16);
                    if straight_at(m, lo as int) {
                        assert(rank_count(m, lo as int) > 0);
                        assert(rank_count(m, lo + 1) > 0);
                        assert(rank_count(m, lo + 2) > 0);
                        assert(rank_count(m, lo + 3) > 0);
                        assert(rank_count(m, lo + 4) > 0);
                        assert(get_bit16(rank_bits, lo as u16));
                        assert(get_bit16(rank_bits, (lo + 1) as u16));
                        assert(get_bit16(rank_bits, (lo + 2) as u16));
                        assert(get_bit16(rank_bits, (lo + 3) as u16));
                        assert(get_bit16(rank_bits, (lo + 4) as u16));
                        assert(false);
                    }
                }
            }
            lo = lo + 1;
        }

        let wheel_mask: u16 = 0x403C;
        let wheel_hit = (rank_bits & wheel_mask) == wheel_mask;
        proof {
            lemma_wheel_mask(rank_bits);
            if wheel_hit {
                assert forall|rr: int| 2 <= rr < 6 implies rank_count(m, rr) > 0 by {
                    assert(get_bit16(rank_bits, rr as u16));
                }
                assert(rank_count(m, 14) > 0) by {
                    assert(get_bit16(rank_bits, 14u16));
                }
                assert(wheel(m));
            } else {
                if wheel(m) {
                    assert(rank_count(m, 2) > 0 && rank_count(m, 3) > 0 && rank_count(m, 4) > 0
                        && rank_count(m, 5) > 0 && rank_count(m, 14) > 0);
                    assert(get_bit16(rank_bits, 2u16) && get_bit16(rank_bits, 3u16) && get_bit16(
                        rank_bits,
                        4u16,
                    ) && get_bit16(rank_bits, 5u16) && get_bit16(rank_bits, 14u16));
                    assert(false);
                }
            }
        }
        found || wheel_hit
    }

    /// Straight-flush detection per qualifying suit: returns 0 for none,
    /// 1 for a straight flush, 3 when the run is royal.
    fn check_straight_flush_bits(
        suit_rank_bits: &Vec<u16>,
        suit_counts: &Vec<usize>,
        Ghost(m): Ghost<Multiset<Card>>,
    ) -> (res: u8)
        requires
            suit_rank_bits@.len() == 4,
            suit_counts@.len() == 4,
            forall|t: int| 0 <= t < 4 ==> #[trigger] suit_counts@[t] == suit_count(m, t),
            forall|t: int, r: u16|
                0 <= t < 4 && 2 <= r < 15 ==> (#[trigger] get_bit16(suit_rank_bits@[t], r)
                    <==> rank_suit_count(m, r as int, t) > 0),
            forall|t: int, r: u16|
                0 <= t < 4 && (r < 2 || 15 <= r < 16) ==> !(#[trigger] get_bit16(
                    suit_rank_bits@[t],
                    r,
                )),
        ensures
            res == 0 || res == 1 || res == 3,
            res >= 1 <==> has_straight_flush(m),
            res == 3 <==> has_royal_flush(m),
    {
        let mut sf = false;
        let mut rf = false;
        let mut suit: usize = 0;
        while suit < 4
            invariant
                suit <= 4,
                suit_rank_bits@.len() == 4,
                suit_counts@.len() == 4,
                forall|t: int| 0 <= t < 4 ==> #[trigger] suit_counts@[t] == suit_count(m, t),
                forall|t: int, r: u16|
                    0 <= t < 4 && 2 <= r < 15 ==> (#[trigger] get_bit16(suit_rank_bits@[t], r)
                        <==> rank_suit_count(m, r as int, t) > 0),
                sf <==> exists|t: int| 0 <= t < suit && suited_run(m, t),
                rf <==> exists|t: int| 0 <= t < suit && suited_straight_at(m, t, 10),
            decreases 4 - suit,
        {
            let ghost t = suit as int;
            if suit_counts[suit] < 5 {
                proof {
                    if suited_run(m, t) {
                        lemma_suited_run_implies_flush(m, t);
                        assert(false);
                    }
                    if suited_straight_at(m, t, 10) {
                        assert(2 <= 10 <= 10 && suited_straight_at(m, t, 10));
                        assert(suited_run(m, t));
                    }
                }
                suit = suit + 1;
                continue ;
            }
            let bits = suit_rank_bits[suit];
            let mut run_here = false;
            let mut royal_here = false;
            let mut lo: usize = 2;
            while lo < 11
                invariant
                    2 <= lo <= 11,
                    suit < 4,
                    t == suit as int,
                    bits == suit_rank_bits@[t],
                    suit_rank_bits@.len() == 4,
                    forall|tt: int, r: u16|
                        0 <= tt < 4 && 2 <= r < 15 ==> (#[trigger] get_bit16(
                            suit_rank_bits@[tt],
                            r,
                        ) <==> rank_suit_count(m, r as int, tt) > 0),
                    run_here <==> exists|l: int| 2 <= l < lo && suited_straight_at(m, t, l),
                    royal_here <==> (lo > 10 && suited_straight_at(m, t, 10)),
                decreases 11 - lo,
            {
                let mask: u16 = 0x1Fu16 << (lo as u16);
                if (bits & mask) == mask {
                    proof {
                        lemma_run_mask(bits, lo as u16);
                        assert forall|rr: int| lo <= rr < lo + 5 implies rank_suit_count(m, rr, t)
                            > 0 by {
                            assert(get_bit16(bits, rr as u16));
                        }
                        assert(suited_straight_at(m, t, lo as int));
                    }
                    run_here = true;
                    if lo == 10 {
                        royal_here = true;
                    }
                } else {
                    proof {
                        lemma_run_mask(bits, lo as u16);
                        if suited_straight_at(m, t, lo as int) {
                            assert(rank_suit_count(m, lo as int, t) > 0);
                            assert(rank_suit_count(m, lo + 1, t) > 0);
                            assert(rank_suit_count(m, lo + 2, t) > 0);
                            assert(rank_suit_count(m, lo + 3, t) > 0);
                            assert(rank_suit_count(m, lo + 4, t) > 0);
                            assert(get_bit16(bits, lo as u16));
                            assert(get_bit16(bits, (lo + 1) as u16));
                            assert(get_bit16(bits, (lo + 2) as u16));
                            assert(get_bit16(bits, (lo + 3) as u16));
                            assert(get_bit16(bits, (lo + 4) as u16));
                            assert(false);
                        }
                    }
                }
                lo = lo + 1;
            }
            let wheel_mask: u16 = 0x403C;
            let wheel_here = (bits & wheel_mask) == wheel_mask;
            proof {
                lemma_wheel_mask(bits);
                if wheel_here {
                    assert forall|rr: int| 2 <= rr < 6 implies rank_suit_count(m, rr, t) > 0 by {
                        assert(get_bit16(bits, rr as u16));
                    }
                    assert(rank_suit_count(m, 14, t) > 0) by {
                        assert(get_bit16(bits, 14u16));
                    }
                    assert(suited_wheel(m, t));
                } else {
                    if suited_wheel(m, t) {
                        assert(rank_suit_count(m, 2, t) > 0 && rank_suit_count(m, 3, t) > 0
                            && rank_suit_count(m, 4, t) > 0 && rank_suit_count(m, 5, t) > 0
                            && rank_suit_count(m, 14, t) > 0);
                        assert(get_bit16(bits, 2u16) && get_bit16(bits, 3u16) && get_bit16(
                            bits,
                            4u16,
                        ) && get_bit16(bits, 5u16) && get_bit16(bits, 14u16));
                        assert(false);
                    }
                }
            }
            proof {
                if run_here {
                    let l = choose|l: int| 2 <= l < 11 && suited_straight_at(m, t, l);
                    assert(2 <= l <= 10 && suited_straight_at(m, t, l));
                    assert(suited_run(m, t));
                } else if !wheel_here {
                    if exists|lo: int| 2 <= lo <= 10 && suited_straight_at(m, t, lo) {
                        let l = choose|lo: int| 2 <= lo <= 10 && suited_straight_at(m, t, lo);
                        assert(2 <= l < 11 && suited_straight_at(m, t, l));
                        assert(false);
                    }
                    assert(!suited_run(m, t));
                }
            }
            if run_here || wheel_here {
                sf = true;
            }
            if royal_here {
                rf = true;
            }
            proof {
                assert(run_here || wheel_here ==> suited_run(m, t));
                assert(!(run_here || wheel_here) ==> !suited_run(m, t));
                if sf {
                    assert(exists|tp: int| 0 <= tp < suit + 1 && suited_run(m, tp));
                } else {
                    assert(!(exists|tp: int| 0 <= tp < suit + 1 && suited_run(m, tp)));
                }
            }
            suit = suit + 1;
        }
        proof {
            if rf {
                let t = choose|t: int| 0 <= t < 4 && suited_straight_at(m, t, 10);
                assert(suited_run(m, t)) by {
                    assert(2 <= 10 <= 10 && suited_straight_at(m, t, 10));
                }
                assert(sf);
            }
        }
        if sf {
            if rf {
                3
            } else {
                1
            }
        } else {
            0
        }
    }
}

} // verus!
