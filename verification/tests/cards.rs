use discarder::card::Card;
use discarder::rank::Rank;
use discarder::suit::Suit;

#[test]
fn test_card_from_str() {
    let card = Card::from_str("3H").unwrap();
    assert_eq!(card.rank.value, 3);
    assert_eq!(card.suit.value, 0);

    let card = Card::from_str("JS").unwrap();
    assert_eq!(card.rank.value, 11);
    assert_eq!(card.suit.value, 3);

    assert!(Card::from_str("").is_none());
    assert!(Card::from_str("XH").is_none());
    assert!(Card::from_str("3X").is_none());
}

#[test]
fn test_make_hand() {
    let hand = Card::make_hand("2H 3D 4C 5S 7H").unwrap();
    assert_eq!(hand.len(), 5);
    assert_eq!(hand[0].rank.value, 2);
    assert_eq!(hand[0].suit.value, 0);
    assert_eq!(hand[1].rank.value, 3);
    assert_eq!(hand[1].suit.value, 1);
    assert_eq!(hand[2].rank.value, 4);
    assert_eq!(hand[2].suit.value, 2);
    assert_eq!(hand[3].rank.value, 5);
    assert_eq!(hand[3].suit.value, 3);
    assert_eq!(hand[4].rank.value, 7);
    assert_eq!(hand[4].suit.value, 0);

    assert_eq!(Card::make_hand(""), Some(vec![]));
    assert!(Card::make_hand("2H 3D XC").is_none());
    assert!(Card::make_hand("2H 3D 4X").is_none());
}

#[test]
fn test_make_hand_whitespace_runs() {
    let hand = Card::make_hand("  2H\t3D \n 4C  ").unwrap();
    assert_eq!(hand.len(), 3);
    assert_eq!(hand[0], Card::new(Rank { value: 2 }, Suit { value: 0 }));
    assert_eq!(hand[1], Card::new(Rank { value: 3 }, Suit { value: 1 }));
    assert_eq!(hand[2], Card::new(Rank { value: 4 }, Suit { value: 2 }));
    assert!(Card::make_hand("2H 3DD").is_none());
}

#[test]
fn test_make_hand_unicode_whitespace() {
    // Any Unicode whitespace separates cards, as `split_whitespace` has it.
    let hand = Card::make_hand("2H\u{0B}3D\u{A0}4C\u{2003}5S").unwrap();
    assert_eq!(hand.len(), 4);
    assert_eq!(hand[3], Card::new(Rank { value: 5 }, Suit { value: 3 }));
    for (mine, std) in "2H\u{0B}3D\u{A0}4C\u{2003}5S".split_whitespace().zip(["2H", "3D", "4C", "5S"]) {
        assert_eq!(mine, std);
    }
}

#[test]
fn test_rank_from_char() {
    assert_eq!(Rank::from_char('3'), Some(3));
    assert_eq!(Rank::from_char('T'), Some(10));
    assert_eq!(Rank::from_char('J'), Some(11));
    assert_eq!(Rank::from_char('Q'), Some(12));
    assert_eq!(Rank::from_char('K'), Some(13));
    assert_eq!(Rank::from_char('A'), Some(14));
    assert_eq!(Rank::from_char('X'), None);
}

#[test]
fn test_suit_from_char() {
    assert_eq!(Suit::from_char('H'), Some(0));
    assert_eq!(Suit::from_char('D'), Some(1));
    assert_eq!(Suit::from_char('C'), Some(2));
    assert_eq!(Suit::from_char('S'), Some(3));
    assert_eq!(Suit::from_char('X'), None);
}

#[test]
fn test_invalid_card_sentinel() {
    let c = Card::invalid();
    assert_eq!(c.rank.value, 0);
    assert_eq!(c.suit.value, 5);
}
