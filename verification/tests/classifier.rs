use std::collections::HashSet;

use discarder::card::Card;
use discarder::poker_hand::PokerHand;
use discarder::poker_hand::PokerHand::{
    Flush, FourOfAKind, FullHouse, HighCard, OnePair, RoyalFlush, Straight, StraightFlush,
    ThreeOfAKind, TwoPair,
};
use discarder::poker_hand_resolver::PokerHandResolver;
use discarder::poker_hands_count::PokerHandsCount;

fn all_hands() -> [PokerHand; 10] {
    [
        HighCard,
        OnePair,
        TwoPair,
        ThreeOfAKind,
        Straight,
        Flush,
        FullHouse,
        FourOfAKind,
        StraightFlush,
        RoyalFlush,
    ]
}

fn assert_poker_hands(hand_str: &str, expected_hands: &[PokerHand]) {
    let hand = Card::make_hand(hand_str).unwrap();
    let mut hands_count = PokerHandsCount::new();
    PokerHandResolver::poker_hands(&hand, &mut hands_count);

    // Check that each element is at most 1
    for (i, &count) in hands_count.iter().iter().enumerate() {
        assert!(
            count <= 1,
            "hands_count[{}] = {} (should be 0 or 1)",
            i,
            count
        );
    }

    // Convert to HashSet for comparison
    let mut actual_hands = HashSet::new();

    for poker_hand in all_hands() {
        if hands_count.get(poker_hand) > 0 {
            actual_hands.insert(poker_hand);
        }
    }

    let expected_set: HashSet<PokerHand> = expected_hands.iter().cloned().collect();
    assert_eq!(actual_hands, expected_set);
}

#[test]
fn test_high_card() {
    assert_poker_hands("2S", &[HighCard]);
    assert_poker_hands("AH", &[HighCard]);
    assert_poker_hands("2S 5H 7C 9D JH", &[HighCard]);
}

#[test]
fn test_one_pair() {
    assert_poker_hands("2S 2H", &[HighCard, OnePair]);
    assert_poker_hands("AS AH", &[HighCard, OnePair]);
    assert_poker_hands("KS KH 3C", &[HighCard, OnePair]);
}

#[test]
fn test_two_pair() {
    assert_poker_hands("2S 2H 3C 3D", &[HighCard, OnePair, TwoPair]);
    assert_poker_hands("AS AH KC KD", &[HighCard, OnePair, TwoPair]);
    assert_poker_hands("7S 7H QC QD 5H", &[HighCard, OnePair, TwoPair]);
}

#[test]
fn test_three_of_a_kind() {
    assert_poker_hands("2S 2H 2C", &[HighCard, OnePair, ThreeOfAKind]);
    assert_poker_hands("AS AH AC", &[HighCard, OnePair, ThreeOfAKind]);
    assert_poker_hands("KS KH KC 5D 7H", &[HighCard, OnePair, ThreeOfAKind]);
}

#[test]
fn test_straight() {
    assert_poker_hands("2S 3H 4C 5D 6H", &[HighCard, Straight]);
    assert_poker_hands("TS JH QC KD AH", &[HighCard, Straight]);
    assert_poker_hands("AS 2H 3C 4D 5H", &[HighCard, Straight]); // Ace-low straight
}

#[test]
fn test_flush() {
    assert_poker_hands("2S 5S 7S 9S JS", &[HighCard, Flush]);
    assert_poker_hands("AH 3H 6H 9H QH", &[HighCard, Flush]);
}

#[test]
fn test_full_house() {
    assert_poker_hands(
        "2S 2H 2C 3D 3H",
        &[HighCard, OnePair, TwoPair, ThreeOfAKind, FullHouse],
    );
    assert_poker_hands(
        "AS AH AC KD KH",
        &[HighCard, OnePair, TwoPair, ThreeOfAKind, FullHouse],
    );
}

#[test]
fn test_four_of_a_kind() {
    assert_poker_hands(
        "2S 2H 2C 2D",
        &[HighCard, OnePair, TwoPair, ThreeOfAKind, FourOfAKind], // Quads contain two pair
    );
    assert_poker_hands(
        "AS AH AC AD",
        &[HighCard, OnePair, TwoPair, ThreeOfAKind, FourOfAKind], // Quads contain two pair
    );
    assert_poker_hands(
        "KS KH KC KD 5H",
        &[HighCard, OnePair, TwoPair, ThreeOfAKind, FourOfAKind], // Quads contain two pair
    );
}

#[test]
fn test_straight_flush() {
    assert_poker_hands("2S 3S 4S 5S 6S", &[HighCard, Flush, Straight, StraightFlush]);
    assert_poker_hands("7H 8H 9H TH JH", &[HighCard, Flush, Straight, StraightFlush]);
}

#[test]
fn test_royal_flush() {
    assert_poker_hands(
        "TS JS QS KS AS",
        &[HighCard, Flush, Straight, StraightFlush, RoyalFlush],
    );
    assert_poker_hands(
        "TH JH QH KH AH",
        &[HighCard, Flush, Straight, StraightFlush, RoyalFlush],
    );
}

#[test]
fn test_empty_hand() {
    assert_poker_hands("", &[]);
}

#[test]
fn test_single_card() {
    assert_poker_hands("AS", &[HighCard]);
    assert_poker_hands("2C", &[HighCard]);
}

#[test]
fn test_non_consecutive_cards() {
    assert_poker_hands("2S 4H 6C 8D TH", &[HighCard]);
    assert_poker_hands("AS 3H 5C 7D 9H", &[HighCard]);
}

#[test]
fn test_almost_straight() {
    assert_poker_hands("2S 3H 4C 5D 7H", &[HighCard]); // Missing 6
    assert_poker_hands("TS JH QC AD 2H", &[HighCard]); // Gap between K and A
}

#[test]
fn test_almost_flush() {
    assert_poker_hands("2S 5S 7S 9S JH", &[HighCard]); // 4 spades + 1 heart
}

#[test]
fn test_six_card_hand() {
    // Contains both a flush and a straight
    assert_poker_hands(
        "2S 3S 4S 5S 6S 7H",
        &[HighCard, Flush, Straight, StraightFlush],
    );

    // Contains full house
    assert_poker_hands(
        "AS AH AC KD KH QC",
        &[HighCard, OnePair, TwoPair, ThreeOfAKind, FullHouse],
    );

    // Contains four of a kind
    assert_poker_hands(
        "2S 2H 2C 2D 5H 7C",
        &[HighCard, OnePair, TwoPair, ThreeOfAKind, FourOfAKind], // Quads contain two pair
    );
}

#[test]
fn test_seven_card_hand() {
    // Contains multiple pairs
    assert_poker_hands("2S 2H 3C 3D 4H 4S 5C", &[HighCard, OnePair, TwoPair]);

    // Contains straight flush
    assert_poker_hands(
        "2S 3S 4S 5S 6S 7H 8C",
        &[HighCard, Flush, Straight, StraightFlush],
    );

    // Contains full house with extra cards
    assert_poker_hands(
        "AS AH AC KD KH QC JH",
        &[HighCard, OnePair, TwoPair, ThreeOfAKind, FullHouse],
    );
}

#[test]
fn test_eight_card_hand() {
    // Contains royal flush with extra cards
    assert_poker_hands(
        "TS JS QS KS AS 2H 3C 4D",
        &[HighCard, Flush, Straight, StraightFlush, RoyalFlush],
    );

    // Contains multiple different hands
    assert_poker_hands("2S 2H 3C 3D 4H 4S 5C 5D", &[HighCard, OnePair, TwoPair]);

    // Contains four of a kind with extra cards
    assert_poker_hands(
        "AS AH AC AD KS KH QC JD",
        &[HighCard, OnePair, TwoPair, ThreeOfAKind, FullHouse, FourOfAKind],
    );

    // Complex hand with flush and pairs
    assert_poker_hands(
        "2S 3S 4S 5S 7S 2H 3H 4H",
        &[HighCard, OnePair, TwoPair, Flush],
    );
}

#[test]
fn test_ace_low_straight() {
    assert_poker_hands("AS 2H 3C 4D 5S", &[HighCard, Straight]);
}

#[test]
fn test_ace_high_straight() {
    assert_poker_hands("TS JH QC KD AS", &[HighCard, Straight]);
}

#[test]
fn test_ace_low_straight_flush() {
    assert_poker_hands("AS 2S 3S 4S 5S", &[HighCard, Flush, Straight, StraightFlush]);
}

#[test]
fn test_not_ace_wrap_around_straight() {
    // Q, K, A, 2, 3 is not a valid straight
    assert_poker_hands("QS KH AC 2D 3S", &[HighCard]);
}

#[test]
fn test_straight_and_flush_but_not_straight_flush() {
    // Contains straight (2-3-4-5-6) and flush (7H 8H JH QH KH) but not straight flush
    // Expected: OnePair (two 4s), Straight, Flush, but NOT StraightFlush
    assert_poker_hands(
        "2H 3D 4C 5S 6C 4H 7H 8H JH QH KH",
        &[HighCard, OnePair, Straight, Flush],
    );
}

#[test]
fn test_royal_straight_and_flush_but_not_royal_flush() {
    // Contains royal straight (T-J-Q-K-A) in mixed suits and separate flush
    assert_poker_hands("TH JD QC KS AH 2C 3C 5C 7C 9C", &[HighCard, Straight, Flush]);

    // Another case: royal straight + different flush (no overlapping cards)
    assert_poker_hands("TC JH QD KH AS 4S 6S 8S 9S", &[HighCard, Straight, Flush]);
}

#[test]
fn test_multiple_straights_and_flushes() {
    // Hand with multiple possible straights and flushes
    assert_poker_hands(
        "AH 2H 3H 4H 5H 6H 7H 8C 9D",
        &[HighCard, Straight, Flush, StraightFlush],
    );
}

#[test]
fn test_multiple_pairs_and_three_of_kinds() {
    // Complex hand: AAA 222 33 44 5 (two three-of-kinds, two pairs)
    // This also forms a straight: A-2-3-4-5!
    assert_poker_hands(
        "AS AH AC 2S 2H 2C 3S 3H 4D 4C 5H",
        &[HighCard, OnePair, TwoPair, ThreeOfAKind, FullHouse, Straight],
    );
}

#[test]
fn test_four_of_kind_with_additional_pairs() {
    // AAAA BB CC D (four-of-kind + two pairs)
    assert_poker_hands(
        "AS AH AC AD 2S 2H 3C 3D 5H",
        &[HighCard, OnePair, TwoPair, ThreeOfAKind, FullHouse, FourOfAKind],
    );
}

#[test]
fn test_double_flush_different_suits() {
    // 5+ hearts AND 5+ spades (but no straight flush)
    assert_poker_hands("2H 4H 6H 8H JH 3S 9S QS KS AS", &[HighCard, Flush]);
}

#[test]
fn test_almost_straight_flush_with_gaps() {
    // Has flush (hearts) but with gaps in the straight flush
    assert_poker_hands("2H 3H 6H 7H 8H 9H JH 4C", &[HighCard, Flush]);
}

#[test]
fn test_extended_royal_flush() {
    // Royal flush with extra cards: 9H TH JH QH KH AH 2C
    assert_poker_hands(
        "9H TH JH QH KH AH 2C",
        &[HighCard, Flush, Straight, StraightFlush, RoyalFlush],
    );
}

#[test]
fn test_wheel_straight_with_extra_aces() {
    // A-2-3-4-5 straight with extra aces: A A 2 3 4 5 6
    assert_poker_hands("AS AH 2C 3D 4H 5S 6C", &[HighCard, OnePair, Straight]);
}

#[test]
fn test_broadway_and_wheel_straights() {
    // Has both Broadway (T-J-Q-K-A) and Wheel (A-2-3-4-5) straights
    assert_poker_hands("AC 2D 3H 4S 5C TH JD QS KH", &[HighCard, Straight]);
}

#[test]
fn test_complex_ten_card_hand() {
    // Complex 10-card hand with multiple overlapping features
    assert_poker_hands(
        "TS JS QS KS AS 2H 2C 7H 7D 9C",
        &[
            HighCard,
            OnePair,
            TwoPair,
            Flush,
            Straight,
            StraightFlush,
            RoyalFlush,
        ],
    );
}

#[test]
fn test_quad_aces_with_broadway_straight() {
    // Four aces + Broadway straight using other cards
    assert_poker_hands(
        "AS AH AC AD TS JC QD KH 9S",
        &[HighCard, OnePair, TwoPair, ThreeOfAKind, FourOfAKind, Straight],
    );
}

#[test]
fn test_multiple_straight_flushes_possible() {
    // Hand that could form multiple straight flushes
    assert_poker_hands(
        "5H 6H 7H 8H 9H TH 2C",
        &[HighCard, Flush, Straight, StraightFlush],
    );
}

#[test]
fn test_full_house_with_quads() {
    // Hand with four-of-a-kind AND full house
    assert_poker_hands(
        "AS AH AC AD 2S 2H 2C",
        &[HighCard, OnePair, TwoPair, ThreeOfAKind, FullHouse, FourOfAKind],
    );
}

#[test]
fn test_steel_wheel_straight_flush() {
    // A-2-3-4-5 straight flush (steel wheel)
    assert_poker_hands(
        "AS 2S 3S 4S 5S 6H 7C",
        &[HighCard, Flush, Straight, StraightFlush],
    );
}

#[test]
fn test_near_impossible_hand() {
    // Hand with nearly everything: straight flush + full house
    assert_poker_hands(
        "TS JS QS KS AS 2H 2C 2D KH KC",
        &[
            HighCard,
            OnePair,
            TwoPair,
            ThreeOfAKind,
            FullHouse,
            Flush,
            Straight,
            StraightFlush,
            RoyalFlush,
        ],
    );
}

#[test]
fn test_overlapping_straight_flushes() {
    // 8-card hand with overlapping straight flushes in hearts
    assert_poker_hands(
        "3H 4H 5H 6H 7H 8H 9H 2C",
        &[HighCard, Flush, Straight, StraightFlush],
    );
}

#[test]
fn test_quad_with_two_pairs() {
    // Four of a kind + two additional pairs: AAAA + 22 + 33
    assert_poker_hands(
        "AS AH AC AD 2S 2H 3C 3D",
        &[HighCard, OnePair, TwoPair, ThreeOfAKind, FullHouse, FourOfAKind],
    );
}

#[test]
fn test_impossible_poker_scenario() {
    // 13-card hand with maximum complexity
    assert_poker_hands(
        "TS JS QS KS AS 2H 2C 2D 2S 7H 7C 7D KH",
        &[
            HighCard,
            OnePair,
            TwoPair,
            ThreeOfAKind,
            FullHouse,
            FourOfAKind,
            Flush,
            Straight,
            StraightFlush,
            RoyalFlush,
        ],
    );
}

#[test]
fn test_mixed_wheel_and_broadway() {
    // Hand with both ace-low and ace-high straight potential
    assert_poker_hands(
        "AS AH 2C 3D 4H 5S TC JD QH KS",
        &[HighCard, OnePair, Straight], // OnePair from two aces
    );
}

#[test]
fn test_single_four_of_kind_contains_two_pair() {
    // AAAA + single cards: quads contain two pair (can select 2A + 2A)
    assert_poker_hands(
        "AS AH AC AD 5C 7D 9H",
        &[HighCard, OnePair, TwoPair, ThreeOfAKind, FourOfAKind], // Quads contain two pair
    );
}

#[test]
fn test_double_four_of_kinds_full_house() {
    // Two four-of-kinds should allow full house formation
    assert_poker_hands(
        "AS AH AC AD 2S 2H 2C 2D",
        &[HighCard, OnePair, TwoPair, ThreeOfAKind, FullHouse, FourOfAKind],
    );
}

#[test]
fn test_five_of_a_kind_contains_full_house() {
    assert_poker_hands(
        "AS AH AC AD 2S 2H 2C 2D 3S 3H 3C", // 4A + 4two + 3three
        &[HighCard, OnePair, TwoPair, ThreeOfAKind, FullHouse, FourOfAKind],
    );
}

#[test]
fn test_correct_two_pair_scenarios() {
    // These SHOULD have TwoPair
    assert_poker_hands(
        "AS AH 2C 2D 5H", // Two aces + two twos (traditional two pair)
        &[HighCard, OnePair, TwoPair],
    );

    assert_poker_hands(
        "KS KH KC 2S 2H", // Three kings + two twos -> can form KK22+card
        &[HighCard, OnePair, TwoPair, ThreeOfAKind, FullHouse],
    );

    assert_poker_hands(
        "AS AH AC AD 2S 2H", // Four aces + two twos -> can form AA22+card
        &[HighCard, OnePair, TwoPair, ThreeOfAKind, FullHouse, FourOfAKind],
    );
}

#[test]
fn test_new_logic_verification() {
    // Quads contain two pair
    assert_poker_hands(
        "AS AH AC AD", // Four aces: can form AA + AA (two pair from same rank)
        &[HighCard, OnePair, TwoPair, ThreeOfAKind, FourOfAKind],
    );

    // No two pair when only one rank with less than 4 cards
    assert_poker_hands(
        "AS AH AC 5D 7H", // Three aces + singles: can form AA but not two pair
        &[HighCard, OnePair, ThreeOfAKind], // No TwoPair
    );
}

#[test]
fn test_six_plus_cards_logic() {
    // Maximum possible with real deck: 4 aces + 4 kings + 4 queens
    assert_poker_hands(
        "AS AH AC AD KS KH KC KD QS QH QC QD", // 4A + 4K + 4Q
        &[HighCard, OnePair, TwoPair, ThreeOfAKind, FullHouse, FourOfAKind],
    );
}

#[test]
fn test_royal_flush_beside_lower_straight_flush() {
    // A royal flush in spades is detected even when another suit holds
    // a lower straight flush of its own.
    assert_poker_hands(
        "2H 3H 4H 5H 6H TS JS QS KS AS",
        &[HighCard, Flush, Straight, StraightFlush, RoyalFlush],
    );
}

#[test]
fn test_default_tally_is_zero() {
    let tally = PokerHandsCount::default();
    assert_eq!(tally, PokerHandsCount::new());
    for &count in tally.iter().iter() {
        assert_eq!(count, 0);
    }
}

#[test]
fn test_order_invariance_on_sample_hands() {
    // Classifying a permuted hand produces the identical tally.
    let texts = [
        "AS KH 5S TC 6D",
        "TS JS QS KS AS 2H 2C 7H 7D 9C",
        "2S 2H 3C 3D 4H 4S 5C",
    ];
    for text in texts {
        let hand = Card::make_hand(text).unwrap();
        let mut reversed = hand.clone();
        reversed.reverse();
        let mut forward_tally = PokerHandsCount::new();
        let mut reversed_tally = PokerHandsCount::new();
        PokerHandResolver::poker_hands(&hand, &mut forward_tally);
        PokerHandResolver::poker_hands(&reversed, &mut reversed_tally);
        assert_eq!(forward_tally, reversed_tally);
    }
}

#[test]
fn test_category_implications_on_royal_hand() {
    // The implication chain on a single classification: a royal flush
    // hand realizes every category it implies.
    let hand = Card::make_hand("TH JH QH KH AH").unwrap();
    let mut tally = PokerHandsCount::new();
    PokerHandResolver::poker_hands(&hand, &mut tally);
    assert!(tally.get(RoyalFlush) <= tally.get(StraightFlush));
    assert!(tally.get(StraightFlush) <= tally.get(Straight));
    assert!(tally.get(StraightFlush) <= tally.get(Flush));
    assert!(tally.get(FourOfAKind) <= tally.get(ThreeOfAKind));
    assert!(tally.get(ThreeOfAKind) <= tally.get(OnePair));
    assert!(tally.get(TwoPair) <= tally.get(OnePair));
    assert_eq!(tally.get(HighCard), 1);
}
