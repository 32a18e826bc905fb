use canasta::card::{PlayCard, Rank, Suit};
use canasta::errors::{GameError, InternalMeldError, PlayerActionError};
use canasta::game::{CanastaGame, TurnPhase};
use canasta::player::Player;

/// The pack in identity order: the top card is identity 107.
fn plain_order() -> Vec<u8> {
    (0..108).collect()
}

fn with_swaps(swaps: &[(usize, usize)]) -> Vec<u8> {
    let mut order = plain_order();
    for &(a, b) in swaps {
        order.swap(a, b);
    }
    order
}

fn ids(cards: &[PlayCard]) -> Vec<u8> {
    cards.iter().map(|c| c.get_id()).collect()
}

fn sorted_ids(cards: &[PlayCard]) -> Vec<u8> {
    let mut v = ids(cards);
    v.sort();
    v
}

fn two_player_game(order: Vec<u8>) -> CanastaGame {
    CanastaGame::with_deck_order(2, 1, false, order).unwrap()
}

#[test]
fn dealing_two_players_leaves_77_cards_after_one_safe_discard() {
    let game = two_player_game(plain_order());
    assert_eq!(game.get_hand(0).unwrap().len(), 15);
    assert_eq!(game.get_hand(1).unwrap().len(), 15);
    assert_eq!(ids(game.discard_pile()), vec![77]);
    assert_eq!(game.deck_remaining(), 108 - 30 - 1);
    assert_eq!(game.get_current_player(), 0);
    assert_eq!(game.get_phase(), TurnPhase::Draw);
    assert!(!game.is_discard_frozen());
    let hand0 = ids(game.get_hand(0).unwrap());
    assert_eq!(hand0[0], 107);
    assert_eq!(hand0[14], 79);
}

#[test]
fn wild_upcard_is_followed_by_more_discards_and_freezes_the_pile() {
    // identity 1 is the Two of Hearts, turned up first after the deal
    let game = two_player_game(with_swaps(&[(77, 1)]));
    assert_eq!(ids(game.discard_pile()), vec![1, 76]);
    assert_eq!(game.deck_remaining(), 108 - 30 - 2);
    assert!(game.is_discard_frozen());
}

#[test]
fn deal_sizes_for_every_player_count() {
    for (players, deal) in [(2u8, 15usize), (3, 13), (4, 11), (5, 11), (6, 11)] {
        let game = CanastaGame::with_deck_order(players, 1, true, plain_order()).unwrap();
        let mut seen = vec![false; 108];
        for p in 0..players {
            let hand = game.get_hand(p).unwrap();
            let reds = game.get_red_threes(p).unwrap();
            assert_eq!(hand.len() + reds.len(), deal);
            for c in hand.iter().chain(reds.iter()) {
                assert!(!seen[c.get_id() as usize]);
                seen[c.get_id() as usize] = true;
            }
        }
        for c in game.discard_pile() {
            assert!(!seen[c.get_id() as usize]);
            seen[c.get_id() as usize] = true;
        }
        let k = game.discard_pile().len();
        assert!(k >= 1);
        assert_eq!(game.deck_remaining(), 108 - deal * players as usize - k);
        assert_eq!(seen.iter().filter(|s| **s).count(), deal * players as usize + k);
        assert!(game.get_hand(players).is_err());
    }
}

#[test]
fn dealt_red_threes_are_set_aside() {
    // identity 2 is the Three of Hearts; it lands in player 0's hand
    let game = two_player_game(with_swaps(&[(107, 2)]));
    assert_eq!(game.get_hand(0).unwrap().len(), 14);
    assert_eq!(ids(game.get_red_threes(0).unwrap()), vec![2]);
}

#[test]
fn invalid_settings_give_no_game() {
    assert!(CanastaGame::with_deck_order(1, 1, false, plain_order()).is_none());
    assert!(CanastaGame::with_deck_order(7, 1, false, plain_order()).is_none());
    let mut short = plain_order();
    short.pop();
    assert!(CanastaGame::with_deck_order(2, 1, false, short).is_none());
    let mut repeated = plain_order();
    repeated[0] = 5;
    assert!(CanastaGame::with_deck_order(2, 1, false, repeated).is_none());
    let mut out_of_range = plain_order();
    out_of_range[0] = 200;
    assert!(CanastaGame::with_deck_order(2, 1, false, out_of_range).is_none());
}

#[test]
fn draw_moves_to_meld_phase_and_adds_one_card() {
    let mut game = two_player_game(plain_order());
    let before = game.get_hand(0).unwrap().len();
    let card = game.draw(0).unwrap();
    assert_eq!(card.get_id(), 76);
    assert_eq!(game.get_phase(), TurnPhase::Meld);
    assert_eq!(game.get_hand(0).unwrap().len(), before + 1);
    assert_eq!(game.deck_remaining(), 76);
}

#[test]
fn drawn_red_threes_are_set_aside_and_drawing_goes_on() {
    let mut game = two_player_game(with_swaps(&[(76, 2)]));
    let before = game.get_hand(0).unwrap().len();
    let card = game.draw(0).unwrap();
    assert_eq!(card.get_id(), 75);
    assert_eq!(ids(game.get_red_threes(0).unwrap()), vec![2]);
    assert_eq!(game.get_hand(0).unwrap().len(), before + 1);
    assert_eq!(game.deck_remaining(), 75);
}

#[test]
fn second_draw_is_refused_with_incorrect_phase() {
    let mut game = two_player_game(plain_order());
    assert!(game.draw(0).is_ok());
    assert_eq!(game.draw(0), Err(PlayerActionError::IncorrectTurnPhase));
    assert_eq!(game.get_hand(0).unwrap().len(), 16);
}

#[test]
fn quick_hand_lets_the_first_player_draw_once() {
    let mut game = CanastaGame::quick_hand();
    let player = game.get_current_player();
    assert_eq!(player, 0);
    assert!(game.draw(player).is_ok());
    assert!(game.draw(player).is_err());
    assert!(game.get_hand(1).is_ok());
    assert_eq!(game.get_hand(4).err(), Some(GameError::InvalidPlayer));
}

#[test]
fn actions_out_of_turn_are_refused() {
    let mut game = two_player_game(plain_order());
    assert_eq!(game.draw(1), Err(PlayerActionError::NotPlayerTurn(0)));
    assert_eq!(game.discard(0, 107), Err(PlayerActionError::IncorrectTurnPhase));
    assert_eq!(game.meld(0, vec![93, 79, 95], Rank::King), Err(PlayerActionError::IncorrectTurnPhase));
}

#[test]
fn discarding_a_card_not_in_hand_fails_and_leaves_the_pile() {
    let mut game = two_player_game(plain_order());
    game.draw(0).unwrap();
    let pile = ids(game.discard_pile());
    // identity 106 is in player 1's hand
    assert_eq!(game.discard(0, 106), Err(PlayerActionError::InvalidCard));
    assert_eq!(ids(game.discard_pile()), pile);
    assert_eq!(game.get_phase(), TurnPhase::Meld);
    assert_eq!(game.get_hand(0).unwrap().len(), 16);
}

#[test]
fn discard_ends_the_turn() {
    let mut game = two_player_game(plain_order());
    game.draw(0).unwrap();
    let thrown = game.discard(0, 76).unwrap();
    assert_eq!(thrown.get_id(), 76);
    assert_eq!(ids(game.discard_pile()), vec![77, 76]);
    assert_eq!(game.get_hand(0).unwrap().len(), 15);
    assert_eq!(game.get_current_player(), 1);
    assert_eq!(game.get_phase(), TurnPhase::Draw);
    game.draw(1).unwrap();
    game.discard(1, 106).unwrap();
    assert_eq!(game.get_current_player(), 0);
}

#[test]
fn discarding_a_wild_card_freezes_the_pile() {
    let mut game = two_player_game(plain_order());
    game.draw(0).unwrap();
    assert!(!game.is_discard_frozen());
    // identity 95 is the Two of Spades
    game.discard(0, 95).unwrap();
    assert!(game.is_discard_frozen());
    game.draw(1).unwrap();
    game.discard(1, 106).unwrap();
    assert!(game.is_discard_frozen());
}

#[test]
fn staging_and_committing_a_meld() {
    let mut game = two_player_game(plain_order());
    game.draw(0).unwrap();
    // Kings 93 and 79 with the Two 95
    game.meld(0, vec![93, 79, 95], Rank::King).unwrap();
    assert_eq!(sorted_ids(game.get_staged(0, Rank::King).unwrap()), vec![79, 93, 95]);
    assert_eq!(game.get_hand(0).unwrap().len(), 13);
    game.commit(0, Rank::King).unwrap();
    assert!(game.get_staged(0, Rank::King).unwrap().is_empty());
    let meld = game.get_meld(0, Rank::King).unwrap().unwrap();
    assert_eq!(meld.normal_count(), 2);
    assert_eq!(meld.wild_count(), 1);
    assert!(meld.wild_count() < meld.normal_count());
    assert_eq!(game.get_hand(0).unwrap().len(), 13);
}

#[test]
fn commit_refuses_too_many_wilds_and_too_few_cards() {
    let mut game = two_player_game(plain_order());
    game.draw(0).unwrap();
    game.meld(0, vec![93, 79, 95, 107], Rank::King).unwrap();
    assert_eq!(game.commit(0, Rank::King), Err(PlayerActionError::InvalidCard));
    assert_eq!(game.get_staged(0, Rank::King).unwrap().len(), 4);
    assert!(game.get_meld(0, Rank::King).unwrap().is_none());
    game.unstage(0, vec![107, 95]).unwrap();
    assert_eq!(game.commit(0, Rank::King), Err(PlayerActionError::InvalidCard));
    assert_eq!(game.get_hand(0).unwrap().len(), 14);
}

#[test]
fn failed_staging_leaves_the_hand_as_it_was() {
    let mut game = two_player_game(plain_order());
    game.draw(0).unwrap();
    let hand = ids(game.get_hand(0).unwrap());
    // 105 is a Queen
    assert_eq!(game.meld(0, vec![93, 95, 105], Rank::King), Err(PlayerActionError::InvalidCard));
    assert_eq!(ids(game.get_hand(0).unwrap()), hand);
    assert!(game.get_staged(0, Rank::King).unwrap().is_empty());
    assert_eq!(game.meld(0, vec![93, 200], Rank::King), Err(PlayerActionError::InvalidCard));
    assert_eq!(ids(game.get_hand(0).unwrap()), hand);
    assert_eq!(game.meld(0, vec![95], Rank::Joker), Err(PlayerActionError::InvalidCard));
    assert_eq!(ids(game.get_hand(0).unwrap()), hand);
}

#[test]
fn unstage_returns_found_cards_and_reports_missing_ones() {
    let mut game = two_player_game(plain_order());
    game.draw(0).unwrap();
    game.meld(0, vec![93, 79], Rank::King).unwrap();
    assert_eq!(game.unstage(0, vec![93, 55]), Err(PlayerActionError::InvalidCard));
    assert_eq!(ids(game.get_staged(0, Rank::King).unwrap()), vec![79]);
    assert_eq!(game.get_hand(0).unwrap().len(), 15);
    assert!(ids(game.get_hand(0).unwrap()).contains(&93));
}

#[test]
fn staged_cards_return_to_hand_at_the_end_of_the_turn() {
    let mut game = two_player_game(plain_order());
    game.draw(0).unwrap();
    game.meld(0, vec![93, 79], Rank::King).unwrap();
    game.discard(0, 76).unwrap();
    assert_eq!(game.get_hand(0).unwrap().len(), 15);
    assert!(game.get_staged(0, Rank::King).unwrap().is_empty());
}

#[test]
fn taking_the_discard_pile() {
    let mut game = two_player_game(plain_order());
    game.draw(0).unwrap();
    game.discard(0, 76).unwrap();
    let taken = game.take_discard(1).unwrap();
    assert_eq!(ids(&taken), vec![77, 76]);
    assert_eq!(game.get_hand(1).unwrap().len(), 17);
    assert!(game.discard_pile().is_empty());
    assert_eq!(game.get_phase(), TurnPhase::Meld);
    assert_eq!(game.take_discard(1), Err(PlayerActionError::IncorrectTurnPhase));
}

#[test]
fn a_frozen_pile_needs_a_matching_natural() {
    let mut game = two_player_game(plain_order());
    game.draw(0).unwrap();
    game.discard(0, 95).unwrap();
    // the top card is a Two: the frozen pile cannot be taken
    assert_eq!(game.take_discard(1), Err(PlayerActionError::InvalidCard));
    assert!(game.is_discard_frozen());
    game.draw(1).unwrap();
    // player 1 throws the Queen 78 and holds the Queen 92; player 0 holds the Queen 105
    game.discard(1, 78).unwrap();
    let taken = game.take_discard(0).unwrap();
    assert_eq!(ids(&taken), vec![77, 95, 78]);
    assert!(!game.is_discard_frozen());
}

#[test]
fn taken_cards_can_be_played_again() {
    let mut game = two_player_game(plain_order());
    game.draw(0).unwrap();
    game.discard(0, 76).unwrap();
    game.take_discard(1).unwrap();
    game.discard(1, 106).unwrap();
    game.draw(0).unwrap();
    game.discard(0, 75).unwrap();
    game.take_discard(1).unwrap();
    game.discard(1, 75).unwrap();
    assert_eq!(ids(game.discard_pile()), vec![75]);
}

#[test]
fn player_staging_reports_each_error() {
    let mut p = Player::new(3);
    p.add_hand(PlayCard::new(10, Suit::Clubs, Rank::Five));
    p.add_hand(PlayCard::new(11, Suit::Hearts, Rank::Three));
    p.add_hand(PlayCard::new(12, Suit::Clubs, Rank::Two));
    assert_eq!(p.meld_red_threes(), 1);
    assert_eq!(ids(p.get_red_threes()), vec![11]);
    p.add_hand(PlayCard::new(13, Suit::Diamonds, Rank::Three));
    assert_eq!(p.meld(vec![10, 13], Rank::Five), Err(InternalMeldError::InvalidCardToMeld(13)));
    assert_eq!(p.meld(vec![12, 99], Rank::Five), Err(InternalMeldError::InvalidCardId(99)));
    assert_eq!(p.meld(vec![12, 10, 12], Rank::Five), Err(InternalMeldError::InvalidCardId(12)));
    assert_eq!(p.meld(vec![10], Rank::Six), Err(InternalMeldError::IncorrectRank(10)));
    assert_eq!(p.meld(vec![10], Rank::Two), Err(InternalMeldError::IneligibleRank));
    assert_eq!(ids(p.get_hand()), vec![10, 12, 13]);
    assert_eq!(p.meld(vec![12, 10], Rank::Five), Ok(()));
    assert_eq!(ids(p.view_temp_meld(Rank::Five)), vec![12, 10]);
    assert_eq!(ids(p.get_hand()), vec![13]);
    assert_eq!(p.remove_from_temp(vec![10, 77]), Err(vec![77]));
    assert_eq!(ids(p.get_hand()), vec![13, 10]);
    p.clear_temp_meld();
    assert_eq!(ids(p.get_hand()), vec![13, 10, 12]);
    assert!(p.view_all_temp().iter().all(|s| s.is_empty()));
    assert_eq!(p.discard(12).map(|c| c.get_id()), Some(12));
    assert!(p.discard(12).is_none());
    assert_eq!(p.canasta_count(), 0);
}

#[test]
fn builder_needs_every_setting() {
    assert!(CanastaGame::builder().players(2).canastas(1).build().is_none());
    assert!(CanastaGame::builder().players(2).hand().build().is_none());
    assert!(CanastaGame::builder().players(9).canastas(2).hand().build().is_none());
    let game = CanastaGame::builder().players(4).canastas(2).full_game().build().unwrap();
    assert_eq!(game.player_count(), 4);
    assert!(game.is_full_game());
    assert_eq!(game.canastas_to_go_out(), 2);
    for p in 0..4 {
        let n = game.get_hand(p).unwrap().len() + game.get_red_threes(p).unwrap().len();
        assert_eq!(n, 11);
    }
    let game = CanastaGame::builder().players(3).canastas(1).hand().build().unwrap();
    assert!(!game.is_full_game());
    assert_eq!(game.deck_remaining() + game.discard_pile().len(), 108 - 39);
}

#[test]
fn exhausting_the_pack_ends_the_game() {
    let mut game = two_player_game(plain_order());
    let mut turns = 0;
    loop {
        let player = game.get_current_player();
        match game.draw(player) {
            Ok(card) => {
                game.discard(player, card.get_id()).unwrap();
                turns += 1;
            },
            Err(e) => {
                assert_eq!(e, PlayerActionError::GameOver);
                break;
            },
        }
    }
    // the 77 cards left after the deal hold four red threes, set aside when drawn
    assert_eq!(turns, 73);
    let reds = game.get_red_threes(0).unwrap().len() + game.get_red_threes(1).unwrap().len();
    assert_eq!(reds, 4);
    assert_eq!(game.deck_remaining(), 0);
    assert_eq!(game.get_phase(), TurnPhase::GameOver);
    let player = game.get_current_player();
    assert_eq!(game.draw(player), Err(PlayerActionError::GameOver));
    assert_eq!(game.discard(player, 0), Err(PlayerActionError::GameOver));
    assert_eq!(game.take_discard(player), Err(PlayerActionError::GameOver));
}
