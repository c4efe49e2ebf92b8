use discarder::card::Card;
use discarder::deck::Deck;
use discarder::rng::PcgRng;

#[test]
fn test_new_deck_has_52_cards() {
    let deck = Deck::make_standard();
    assert_eq!(deck.cards.len(), 52);
}

#[test]
fn test_deck_contains_all_cards() {
    let deck = Deck::make_standard();

    // Check we have exactly 13 ranks and 4 suits
    let mut rank_counts = [0; 15]; // index 2-14
    let mut suit_counts = [0; 4]; // index 0-3

    for card in &deck.cards {
        rank_counts[card.rank.value as usize] += 1;
        suit_counts[card.suit.value as usize] += 1;
    }

    // Each rank should appear exactly 4 times (once per suit)
    for rank in 2..=14 {
        assert_eq!(rank_counts[rank], 4, "Rank {} should appear 4 times", rank);
    }

    // Each suit should appear exactly 13 times (once per rank)
    for suit in 0..4 {
        assert_eq!(suit_counts[suit], 13, "Suit {} should appear 13 times", suit);
    }
}

#[test]
fn test_sample_draw() {
    let deck = Deck::make_standard();
    let mut rng = PcgRng::new(42);

    for size in 0..=52 {
        let mut result = vec![Card::invalid(); size];
        deck.sample_draw(&mut rng, &mut result);
        assert_eq!(result.len(), size);

        // Check no duplicates
        for i in 0..result.len() {
            for j in i + 1..result.len() {
                assert_ne!(result[i], result[j], "Found duplicate cards in sample");
            }
        }
    }
}

#[test]
fn test_sample_draw_covers_ranks() {
    // Over many full-size draws of a smaller size, every rank shows up
    // in roughly k/13 of the draws; use a loose statistical bound.
    let deck = Deck::make_standard();
    let mut rng = PcgRng::new(7);
    let draws = 2000;
    let k = 13;
    let mut with_rank = [0u32; 15];
    for _ in 0..draws {
        let mut result = vec![Card::invalid(); k];
        deck.sample_draw(&mut rng, &mut result);
        let mut seen = [false; 15];
        for card in &result {
            seen[card.rank.value as usize] = true;
        }
        for rank in 2..=14 {
            if seen[rank] {
                with_rank[rank] += 1;
            }
        }
    }
    // With k = 13 of 52 cards, a given rank is present in about 77% of
    // draws; accept a generous band.
    for rank in 2..=14 {
        let share = with_rank[rank] as f64 / draws as f64;
        assert!(share > 0.6 && share < 0.95, "rank {} share {}", rank, share);
    }
}

#[test]
fn test_sample_draw_small_deck() {
    // Drawing the whole deck returns a permutation of it.
    let cards = Card::make_hand("2S 3S 4S").unwrap();
    let deck = Deck::new(&cards);
    let mut rng = PcgRng::new(5);
    let mut result = vec![Card::invalid(); 3];
    deck.sample_draw(&mut rng, &mut result);
    for c in &cards {
        assert!(result.contains(c));
    }
}
