use canasta::card::{calculate_card_value, PlayCard, Rank, Suit};
use canasta::deck::{card_for_id, shuffled_order, Deck};
use canasta::discard::Discard;
use canasta::meld::Meld;

#[test]
fn card_values_follow_rank_and_colour() {
    assert_eq!(calculate_card_value(&Suit::Hearts, &Rank::Ace), 20);
    assert_eq!(calculate_card_value(&Suit::Clubs, &Rank::Two), 20);
    assert_eq!(calculate_card_value(&Suit::Hearts, &Rank::Three), 100);
    assert_eq!(calculate_card_value(&Suit::Diamonds, &Rank::Three), 100);
    assert_eq!(calculate_card_value(&Suit::Spades, &Rank::Three), 5);
    assert_eq!(calculate_card_value(&Suit::Clubs, &Rank::Three), 5);
    assert_eq!(calculate_card_value(&Suit::Clubs, &Rank::Seven), 5);
    assert_eq!(calculate_card_value(&Suit::Clubs, &Rank::Eight), 10);
    assert_eq!(calculate_card_value(&Suit::Clubs, &Rank::King), 10);
    assert_eq!(calculate_card_value(&Suit::Spades, &Rank::Joker), 50);
}

#[test]
fn card_predicates() {
    let red_three = PlayCard::new(1, Suit::Diamonds, Rank::Three);
    let black_three = PlayCard::new(2, Suit::Spades, Rank::Three);
    let two = PlayCard::new(3, Suit::Hearts, Rank::Two);
    let joker = PlayCard::new(4, Suit::Clubs, Rank::Joker);
    let king = PlayCard::new(5, Suit::Clubs, Rank::King);
    assert!(red_three.is_red_three() && !red_three.is_black_three() && !red_three.is_wild());
    assert!(black_three.is_black_three() && !black_three.is_red_three());
    assert!(two.is_wild() && joker.is_wild() && !king.is_wild());
    assert_eq!(red_three.value(), 100);
    assert_eq!(king.get_id(), 5);
    assert_eq!(*king.suit(), Suit::Clubs);
    assert_eq!(*king.rank(), Rank::King);
}

#[test]
fn rank_numbers_and_names() {
    assert_eq!(Rank::Ace.number(), 1);
    assert_eq!(Rank::King.number(), 13);
    assert_eq!(Rank::Joker.number(), 14);
    assert_eq!(Rank::from(7u8), Rank::Seven);
    assert_eq!(Rank::from(0u8), Rank::Joker);
    assert_eq!(Rank::from(200u8), Rank::Joker);
    assert!(Rank::Ace < Rank::Two && Rank::King < Rank::Joker);
    assert_eq!(Rank::Queen.name(), "Queen");
    assert_eq!(Suit::from_index(2), Some(Suit::Clubs));
    assert_eq!(Suit::from_index(4), None);
    assert_eq!(Suit::Diamonds.name(), "Diamonds");
}

#[test]
fn identities_lay_out_a_full_pack() {
    let c = card_for_id(0);
    assert_eq!((*c.suit(), *c.rank()), (Suit::Hearts, Rank::Ace));
    let c = card_for_id(14);
    assert_eq!((*c.suit(), *c.rank()), (Suit::Hearts, Rank::Two));
    let c = card_for_id(26);
    assert_eq!((*c.suit(), *c.rank()), (Suit::Hearts, Rank::Joker));
    let c = card_for_id(77);
    assert_eq!((*c.suit(), *c.rank()), (Suit::Clubs, Rank::Jack));
    let c = card_for_id(107);
    assert_eq!((*c.suit(), *c.rank()), (Suit::Spades, Rank::Joker));
}

#[test]
fn new_deck_holds_108_distinct_cards_with_four_jokers() {
    let mut deck = Deck::new();
    assert_eq!(deck.remaining(), 108);
    let mut seen = vec![false; 108];
    let mut jokers = 0;
    let mut twos = 0;
    while let Some(c) = deck.draw() {
        let id = c.get_id() as usize;
        assert!(id < 108);
        assert!(!seen[id]);
        seen[id] = true;
        if *c.rank() == Rank::Joker {
            jokers += 1;
        }
        if *c.rank() == Rank::Two {
            twos += 1;
        }
    }
    assert!(seen.iter().all(|s| *s));
    assert_eq!(jokers, 4);
    assert_eq!(twos, 8);
    assert_eq!(deck.remaining(), 0);
    assert!(deck.draw().is_none());
}

#[test]
fn shuffled_order_is_a_permutation() {
    let order = shuffled_order();
    let mut sorted = order.clone();
    sorted.sort();
    let expected: Vec<u8> = (0..108).collect();
    assert_eq!(sorted, expected);
}

#[test]
fn deck_draws_from_the_end_of_its_order() {
    let order: Vec<u8> = (0..108).collect();
    let mut deck = Deck::from_order(&order);
    assert_eq!(deck.draw().map(|c| c.get_id()), Some(107));
    assert_eq!(deck.draw().map(|c| c.get_id()), Some(106));
    assert_eq!(deck.remaining(), 106);
}

#[test]
fn discard_pile_freezes_on_a_wild_card_until_taken() {
    let mut pile = Discard::new();
    assert!(pile.top().is_none());
    assert!(!pile.is_frozen());
    pile.throw(PlayCard::new(1, Suit::Clubs, Rank::Nine));
    assert!(!pile.is_frozen());
    pile.throw(PlayCard::new(2, Suit::Clubs, Rank::Two));
    assert!(pile.is_frozen());
    pile.throw(PlayCard::new(3, Suit::Clubs, Rank::Five));
    assert!(pile.is_frozen());
    assert_eq!(pile.top().map(|c| c.get_id()), Some(3));
    let taken = pile.take();
    assert_eq!(taken.iter().map(|c| c.get_id()).collect::<Vec<_>>(), vec![1, 2, 3]);
    assert_eq!(pile.len(), 0);
    assert!(!pile.is_frozen());
}

fn card(id: u8, rank: Rank) -> PlayCard {
    PlayCard::new(id, Suit::Clubs, rank)
}

#[test]
fn meld_admits_batches_with_fewer_wilds_than_naturals() {
    let mut meld = Meld::new(Rank::Five);
    assert!(meld.can_add(&vec![card(1, Rank::Five), card(2, Rank::Five), card(3, Rank::Two)]).is_ok());
    assert!(meld.can_add(&vec![card(1, Rank::Five), card(3, Rank::Two)]).is_err());
    assert!(meld.can_add(&vec![card(1, Rank::Five), card(2, Rank::Six), card(4, Rank::Five)]).is_err());
    assert!(meld.can_add(&vec![]).is_err());
    meld.add(&vec![card(1, Rank::Five), card(2, Rank::Five), card(3, Rank::Joker)]);
    assert_eq!(meld.normal_count(), 2);
    assert_eq!(meld.wild_count(), 1);
    assert!(!meld.is_natural());
    assert!(meld.can_add(&vec![card(5, Rank::Five)]).is_ok());
    assert!(meld.can_add(&vec![card(5, Rank::Two)]).is_err());
    assert!(meld.can_add(&vec![card(5, Rank::Five), card(6, Rank::Two)]).is_ok());
    assert!(meld.can_add(&vec![card(5, Rank::Two), card(6, Rank::Joker), card(7, Rank::Five)]).is_err());
    assert!(meld.can_add(&vec![]).is_ok());
}

#[test]
fn meld_is_complete_at_seven_cards() {
    let mut meld = Meld::new(Rank::King);
    meld.add(&vec![card(1, Rank::King), card(2, Rank::King), card(3, Rank::King), card(4, Rank::King)]);
    assert!(meld.is_natural());
    assert_eq!(meld.len(), 4);
    assert!(!meld.is_complete());
    meld.add(&vec![card(5, Rank::Two), card(6, Rank::Joker)]);
    assert_eq!(meld.len(), 6);
    assert!(!meld.is_complete());
    meld.add(&vec![card(7, Rank::Two)]);
    assert_eq!(meld.len(), 7);
    assert!(meld.is_complete());
    assert_eq!(meld.wild_count(), 3);
    assert_eq!(meld.normal_count(), 4);
}

#[test]
fn shuffled_order_is_not_the_pack_order() {
    let identity: Vec<u8> = (0..108).collect();
    let first = shuffled_order();
    let second = shuffled_order();
    assert!(first != identity || second != identity);
    assert!(first != second);
}
