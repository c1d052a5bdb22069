use blackjackrs::card::{Card, Rank, Suit};

#[test]
fn ranks_have_blackjack_values() {
    assert_eq!(Rank::Ace.blackjack_value(), 1);
    assert_eq!(Rank::Two.blackjack_value(), 2);
    assert_eq!(Rank::Nine.blackjack_value(), 9);
    assert_eq!(Rank::Ten.blackjack_value(), 10);
    assert_eq!(Rank::Jack.blackjack_value(), 10);
    assert_eq!(Rank::Queen.blackjack_value(), 10);
    assert_eq!(Rank::King.blackjack_value(), 10);
}

#[test]
fn card_display_combines_rank_and_suit() {
    assert_eq!(Card::new(Rank::Ace, Suit::Spades).to_string(), "A♠");
    assert_eq!(Card::new(Rank::Ten, Suit::Hearts).to_string(), "10♥");
    assert_eq!(Card::new(Rank::Queen, Suit::Diamonds).to_string(), "Q♦");
}

#[test]
fn card_exposes_immutable_rank_and_suit() {
    let card = Card::new(Rank::Seven, Suit::Clubs);

    assert_eq!(card.rank(), Rank::Seven);
    assert_eq!(card.suit(), Suit::Clubs);
}

#[test]
fn every_rank_and_suit_has_a_label() {
    assert_eq!(Card::new(Rank::King, Suit::Clubs).to_string(), "K♣");
    assert_eq!(Card::new(Rank::Two, Suit::Diamonds).to_string(), "2♦");
    assert_eq!(Rank::Jack.label(), "J");
    assert_eq!(Suit::Hearts.symbol(), "♥");
}
