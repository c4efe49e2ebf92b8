use discarder::card::Card;
use discarder::deck::Deck;
use discarder::discarder::Discarder;
use discarder::poker_hands_count::PokerHandsCount;

fn perform_test(
    discarder: &Discarder,
    hand_string: &str,
    max_iterations: usize,
    expected_iterations: usize,
    expected_result: &[i64],
) {
    let hand = Card::make_hand(hand_string).unwrap();

    let result = discarder.run(&hand, max_iterations);

    println!("Final Result: {:?}", result);

    assert_eq!(result.iterations, expected_iterations);
    assert_eq!(result.count, PokerHandsCount::from_array(expected_result));
}

// The Monte Carlo tallies depend on the seed, the worker count and the
// per-worker seed derivation; these runs use fourteen workers.

#[test]
fn test_full_draw() {
    perform_test(
        &Discarder::new(Deck::make_standard(), 8, 43).with_threads(14),
        "",
        10000,
        10000,
        &[10000, 8865, 4380, 1167, 1020, 758, 609, 29, 6, 0],
    );
}

#[test]
fn test_straight_draw() {
    perform_test(
        &Discarder::new(Deck::make_standard(), 8, 43).with_threads(14),
        "2S 3S 4S 5S",
        10000,
        10000,
        &[10000, 8784, 4077, 1093, 5026, 6940, 514, 32, 1479, 0],
    );
}

#[test]
fn test_montecarlo_reproducible() {
    // Two runs with the same seed, worker count and budget agree exactly.
    let hand = Card::make_hand("2S 3S 4S 5S").unwrap();
    let a = Discarder::new(Deck::make_standard(), 8, 7).with_threads(4).run(&hand, 5000);
    let b = Discarder::new(Deck::make_standard(), 8, 7).with_threads(4).run(&hand, 5000);
    assert_eq!(a.iterations, 5000);
    assert_eq!(b.iterations, 5000);
    assert_eq!(a.count, b.count);
}

#[test]
fn test_empty_draw() {
    perform_test(
        &Discarder::new(Deck::make_standard(), 8, 43),
        "AS AS AS AS AS AS AS AS",
        10000,
        1,
        &[1, 1, 1, 1, 0, 1, 1, 1, 0, 0],
    );
}

#[test]
fn test_large_hand() {
    perform_test(
        &Discarder::new(Deck::make_standard(), 8, 43),
        "AS AS AS AS AS AS AS AS AS AS AS AS",
        10000,
        1,
        &[1, 1, 1, 1, 0, 1, 1, 1, 0, 0],
    );
}

#[test]
fn test_draw_one() {
    perform_test(
        &Discarder::new(Deck::make_standard(), 8, 43),
        "2S 3S 4S 5S 6S 7S 8S",
        10000,
        52,
        &[52, 28, 0, 0, 52, 52, 0, 0, 52, 0],
    );
}

#[test]
fn test_draw_small() {
    perform_test(
        &Discarder::new(Deck::make_standard(), 8, 43),
        "AS KH 5S TC 6D",
        30000,
        22100,
        &[22100, 18516, 7220, 1492, 1008, 286, 480, 20, 1, 0],
    );
}

#[test]
fn test_small_deck() {
    let deck = Deck::new(&Card::make_hand("2S 3S").unwrap());

    perform_test(
        &Discarder::new(deck, 8, 43),
        "AS KH 3H TC 2D",
        10000,
        1,
        &[1, 1, 1, 0, 0, 0, 0, 0, 0, 0],
    );
}

#[test]
fn test_empty_deck() {
    let deck = Deck::new(&[]);

    perform_test(
        &Discarder::new(deck, 8, 43),
        "AS KH 3H TC 2D",
        10000,
        1,
        &[1, 0, 0, 0, 0, 0, 0, 0, 0, 0],
    );
}

#[test]
fn test_empty_hand_empty_deck() {
    let deck = Deck::new(&[]);
    perform_test(
        &Discarder::new(deck, 8, 43),
        "",
        10000,
        1,
        &[0, 0, 0, 0, 0, 0, 0, 0, 0, 0],
    );
}
