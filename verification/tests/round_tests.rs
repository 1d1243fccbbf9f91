use blackjack::cards::{Card, CardRank, CardSuite};
use blackjack::game::settle::{natural_payout, settle_hand};
use blackjack::game::turns::{
    play_dealer_hand, play_dealer_hand_step, play_hand, play_hand_step, play_player, play_wager,
    stand_player, stand_wager,
};
use blackjack::game::{BlackJack, BlackJackPlayerResults, BlackJackStats};
use blackjack::hand::{DealerHand, HandOutcome, PlayerHand, PlayerMasterHand};
use blackjack::player::{Dealer, Player};
use blackjack::rules::HouseRules;

fn spade(rank: CardRank) -> Card {
    Card { suite: CardSuite::SPADES, rank: rank }
}

fn shoe_of(ranks: &[CardRank]) -> Vec<Card> {
    ranks.iter().map(|rank| spade(*rank)).collect()
}

fn ranks_of(cards: &Vec<Card>) -> Vec<CardRank> {
    cards.iter().map(|card| card.rank).collect()
}

fn wager_of(ranks: &[CardRank], bet: u32) -> PlayerMasterHand {
    let mut master_hand = PlayerMasterHand::create();
    master_hand.add_start_hand(bet);
    for rank in ranks.iter() {
        master_hand.hands[0].add_card(&spade(*rank));
    }
    master_hand
}

fn player_hand_of(ranks: &[CardRank], bet: u32) -> PlayerHand {
    let mut hand = PlayerHand::create(false, bet);
    for rank in ranks.iter() {
        hand.add_card(&spade(*rank));
    }
    hand
}

fn dealer_hand_of(ranks: &[CardRank]) -> DealerHand {
    let mut hand = DealerHand::create();
    for rank in ranks.iter() {
        hand.add_card(&spade(*rank));
    }
    hand
}

fn rigged_table(ranks: &[CardRank]) -> BlackJack {
    let mut blackjack = BlackJack::create();
    blackjack.shoe = shoe_of(ranks);
    blackjack.shoe_top = 0;
    blackjack
}

fn results_of<'a>(blackjack: &'a BlackJack, name: &str) -> &'a BlackJackPlayerResults {
    let at = blackjack.results.iter().position(|record| record.name == name);
    &blackjack.results[at.unwrap()].results
}

#[test]
fn test_hand_transitions() {
    let mut hand = player_hand_of(&[CardRank::TEN, CardRank::SIX], 10);
    hand.stand();
    assert_eq!(hand.outcome, HandOutcome::STAND);
    assert_eq!(hand.bet, 10);

    let mut hand = player_hand_of(&[CardRank::TEN, CardRank::SIX], 11);
    hand.surrender();
    assert_eq!(hand.outcome, HandOutcome::SURRENDER);
    assert_eq!(hand.bet, 5);

    let mut hand = player_hand_of(&[CardRank::FIVE, CardRank::SIX], 10);
    hand.double_down(&spade(CardRank::KING));
    assert_eq!(hand.outcome, HandOutcome::STAND);
    assert_eq!(hand.bet, 20);
    assert_eq!(hand.count(), 21);
    assert_eq!(hand.num_cards(), 3);

    // a double that goes over 21 still stands: the count settles it
    let mut hand = player_hand_of(&[CardRank::TEN, CardRank::TWO], 10);
    hand.double_down(&spade(CardRank::KING));
    assert_eq!(hand.outcome, HandOutcome::STAND);
    assert_eq!(hand.is_bust(), true);

    let mut hand = player_hand_of(&[CardRank::TEN, CardRank::SIX], 10);
    hand.hit(&spade(CardRank::FIVE));
    assert_eq!(hand.outcome, HandOutcome::IN_PLAY);
    assert_eq!(hand.count(), 21);
    hand.hit(&spade(CardRank::ACE));
    assert_eq!(hand.outcome, HandOutcome::BUST);
    assert_eq!(hand.count(), 22);
    assert_eq!(hand.bet, 10);
}

#[test]
fn test_dealer_moves() {
    let rules = HouseRules::standard();
    assert_eq!(dealer_hand_of(&[CardRank::TEN, CardRank::SIX]).must_hit(&rules), true);
    assert_eq!(dealer_hand_of(&[CardRank::TEN, CardRank::SEVEN]).must_hit(&rules), false);
    assert_eq!(dealer_hand_of(&[CardRank::ACE, CardRank::FIVE]).must_hit(&rules), true);
    assert_eq!(dealer_hand_of(&[CardRank::ACE, CardRank::SIX]).must_hit(&rules), false);
    // an ace that counts 1: a hard 16 draws
    assert_eq!(
        dealer_hand_of(&[CardRank::ACE, CardRank::FIVE, CardRank::TEN]).must_hit(&rules),
        true
    );

    let mut soft = HouseRules::standard();
    soft.dealer_hits_soft_on = 18;
    assert_eq!(dealer_hand_of(&[CardRank::ACE, CardRank::SIX]).must_hit(&soft), true);
    assert_eq!(dealer_hand_of(&[CardRank::ACE, CardRank::SEVEN]).must_hit(&soft), false);

    let mut hand = dealer_hand_of(&[CardRank::TEN, CardRank::SIX]);
    hand.hit(&spade(CardRank::FIVE));
    assert_eq!(hand.outcome, HandOutcome::IN_PLAY);
    hand.stand();
    assert_eq!(hand.outcome, HandOutcome::STAND);
    assert_eq!(hand.count(), 21);

    let mut hand = dealer_hand_of(&[CardRank::TEN, CardRank::SIX]);
    hand.hit(&spade(CardRank::SIX));
    assert_eq!(hand.outcome, HandOutcome::BUST);
}

#[test]
fn test_play_hand_stand_and_surrender() {
    let rules = HouseRules::standard();
    let shoe = shoe_of(&[CardRank::TWO, CardRank::THREE]);

    let mut wager = wager_of(&[CardRank::TEN, CardRank::EIGHT], 10);
    let end = play_hand(&mut wager, 0, &spade(CardRank::TEN), &shoe, 0, &rules);
    assert_eq!(end, (0, true));
    assert_eq!(wager.hands[0].outcome, HandOutcome::STAND);
    assert_eq!(wager.hands[0].bet, 10);
    assert_eq!(wager.hands[0].num_cards(), 2);

    let mut wager = wager_of(&[CardRank::TEN, CardRank::SIX], 10);
    let end = play_hand(&mut wager, 0, &spade(CardRank::TEN), &shoe, 1, &rules);
    assert_eq!(end, (1, true));
    assert_eq!(wager.hands[0].outcome, HandOutcome::SURRENDER);
    assert_eq!(wager.hands[0].bet, 5);

    // a hand that is over is left alone
    let mut wager = wager_of(&[CardRank::TWO, CardRank::TWO], 10);
    wager.hands[0].outcome = HandOutcome::DEALER_BLACKJACK;
    let end = play_hand(&mut wager, 0, &spade(CardRank::TEN), &shoe, 0, &rules);
    assert_eq!(end, (0, true));
    assert_eq!(wager.hands[0].outcome, HandOutcome::DEALER_BLACKJACK);
    assert_eq!(wager.num_hands(), 1);
}

#[test]
fn test_play_hand_double_and_hit() {
    let rules = HouseRules::standard();

    let shoe = shoe_of(&[CardRank::NINE, CardRank::KING]);
    let mut wager = wager_of(&[CardRank::FIVE, CardRank::SIX], 10);
    let end = play_hand(&mut wager, 0, &spade(CardRank::TEN), &shoe, 0, &rules);
    assert_eq!(end, (1, true));
    assert_eq!(wager.hands[0].outcome, HandOutcome::STAND);
    assert_eq!(wager.hands[0].bet, 20);
    assert_eq!(
        ranks_of(&wager.hands[0].cards),
        vec![CardRank::FIVE, CardRank::SIX, CardRank::NINE]
    );

    // 5 against a ten: hit 2 (7), hit 3 (10), hit 4 (14), hit the king: bust
    let shoe = shoe_of(&[CardRank::TWO, CardRank::THREE, CardRank::FOUR, CardRank::KING, CardRank::ACE]);
    let mut wager = wager_of(&[CardRank::TWO, CardRank::THREE], 10);
    let end = play_hand(&mut wager, 0, &spade(CardRank::TEN), &shoe, 0, &rules);
    assert_eq!(end, (4, true));
    assert_eq!(wager.hands[0].outcome, HandOutcome::BUST);
    assert_eq!(wager.hands[0].count(), 24);
    assert_eq!(wager.hands[0].bet, 10);

    // 5 against a ten: hit 6 (11), hit the king (21): stand
    let shoe = shoe_of(&[CardRank::ACE, CardRank::SIX, CardRank::KING, CardRank::ACE]);
    let mut wager = wager_of(&[CardRank::TWO, CardRank::THREE], 10);
    let end = play_hand(&mut wager, 0, &spade(CardRank::TEN), &shoe, 1, &rules);
    assert_eq!(end, (3, true));
    assert_eq!(wager.hands[0].outcome, HandOutcome::STAND);
    assert_eq!(wager.hands[0].count(), 21);
    assert_eq!(wager.hands[0].num_cards(), 4);
}

#[test]
fn test_play_hand_step_by_step() {
    let rules = HouseRules::standard();
    let shoe = shoe_of(&[CardRank::SIX, CardRank::KING]);
    let mut wager = wager_of(&[CardRank::TWO, CardRank::THREE], 10);
    let up = spade(CardRank::TEN);

    assert_eq!(play_hand_step(&mut wager, 0, &up, &shoe, 0, &rules), (1, true, true));
    assert_eq!(wager.hands[0].count(), 11);
    assert_eq!(wager.hands[0].outcome, HandOutcome::IN_PLAY);
    assert_eq!(play_hand_step(&mut wager, 0, &up, &shoe, 1, &rules), (2, true, true));
    assert_eq!(wager.hands[0].count(), 21);
    assert_eq!(play_hand_step(&mut wager, 0, &up, &shoe, 2, &rules), (2, false, true));
    assert_eq!(wager.hands[0].outcome, HandOutcome::STAND);
    assert_eq!(play_hand_step(&mut wager, 0, &up, &shoe, 2, &rules), (2, false, true));
}

#[test]
fn test_play_hand_runs_out_of_cards() {
    let rules = HouseRules::standard();
    let up = spade(CardRank::TEN);

    // a hit with no card left
    let shoe = shoe_of(&[CardRank::TWO]);
    let mut wager = wager_of(&[CardRank::TWO, CardRank::THREE], 10);
    let end = play_hand(&mut wager, 0, &up, &shoe, 0, &rules);
    assert_eq!(end, (1, false));
    assert_eq!(wager.hands[0].outcome, HandOutcome::IN_PLAY);
    assert_eq!(ranks_of(&wager.hands[0].cards), vec![CardRank::TWO, CardRank::THREE, CardRank::TWO]);

    // a double with no card left
    let mut wager = wager_of(&[CardRank::FIVE, CardRank::SIX], 10);
    let end = play_hand(&mut wager, 0, &up, &shoe, 1, &rules);
    assert_eq!(end, (1, false));
    assert_eq!(wager.hands[0].outcome, HandOutcome::IN_PLAY);
    assert_eq!(wager.hands[0].bet, 10);
    assert_eq!(wager.hands[0].num_cards(), 2);

    // a split with one card left
    let mut wager = wager_of(&[CardRank::EIGHT, CardRank::EIGHT], 10);
    let end = play_hand(&mut wager, 0, &spade(CardRank::SIX), &shoe, 0, &rules);
    assert_eq!(end, (0, false));
    assert_eq!(wager.num_hands(), 1);
    assert_eq!(wager.hands[0].from_split, false);
}

#[test]
fn test_play_hand_split() {
    let rules = HouseRules::standard();
    // eights against a six: split; 8+3 doubles and gets a ten
    let shoe = shoe_of(&[CardRank::THREE, CardRank::KING, CardRank::TEN, CardRank::ACE]);
    let mut wager = wager_of(&[CardRank::EIGHT, CardRank::EIGHT], 10);
    let end = play_hand(&mut wager, 0, &spade(CardRank::SIX), &shoe, 0, &rules);
    assert_eq!(end, (3, true));
    assert_eq!(wager.num_hands(), 2);
    assert_eq!(
        ranks_of(&wager.hands[0].cards),
        vec![CardRank::EIGHT, CardRank::THREE, CardRank::TEN]
    );
    assert_eq!(wager.hands[0].outcome, HandOutcome::STAND);
    assert_eq!(wager.hands[0].bet, 20);
    assert_eq!(wager.hands[0].from_split, true);
    assert_eq!(ranks_of(&wager.hands[1].cards), vec![CardRank::EIGHT, CardRank::KING]);
    assert_eq!(wager.hands[1].outcome, HandOutcome::IN_PLAY);
    assert_eq!(wager.hands[1].bet, 10);
    assert_eq!(wager.hands[1].from_split, true);

    // no doubling after a split: 8+3 hits instead
    let mut no_das = HouseRules::standard();
    no_das.double_down_after_split = false;
    let mut wager = wager_of(&[CardRank::EIGHT, CardRank::EIGHT], 10);
    let end = play_hand(&mut wager, 0, &spade(CardRank::SIX), &shoe, 0, &no_das);
    assert_eq!(end, (3, true));
    assert_eq!(wager.hands[0].count(), 21);
    assert_eq!(wager.hands[0].outcome, HandOutcome::STAND);
    assert_eq!(wager.hands[0].bet, 10);
}

#[test]
fn test_play_hand_splits_up_to_the_limit() {
    let rules = HouseRules::standard();
    // eight after eight: three splits fill the wager, then 16 stands against a six
    let shoe = shoe_of(&[
        CardRank::EIGHT,
        CardRank::TWO,
        CardRank::EIGHT,
        CardRank::THREE,
        CardRank::EIGHT,
        CardRank::FOUR,
        CardRank::EIGHT,
        CardRank::FIVE,
    ]);
    let mut wager = wager_of(&[CardRank::EIGHT, CardRank::EIGHT], 10);
    let end = play_hand(&mut wager, 0, &spade(CardRank::SIX), &shoe, 0, &rules);
    assert_eq!(end, (6, true));
    assert_eq!(wager.num_hands(), 4);
    assert_eq!(ranks_of(&wager.hands[0].cards), vec![CardRank::EIGHT, CardRank::EIGHT]);
    assert_eq!(wager.hands[0].outcome, HandOutcome::STAND);
    assert_eq!(ranks_of(&wager.hands[1].cards), vec![CardRank::EIGHT, CardRank::TWO]);
    assert_eq!(ranks_of(&wager.hands[2].cards), vec![CardRank::EIGHT, CardRank::THREE]);
    assert_eq!(ranks_of(&wager.hands[3].cards), vec![CardRank::EIGHT, CardRank::FOUR]);
    for hand in wager.hands.iter().skip(1) {
        assert_eq!(hand.outcome, HandOutcome::IN_PLAY);
        assert_eq!(hand.from_split, true);
        assert_eq!(hand.bet, 10);
    }
}

#[test]
fn test_play_hand_split_aces() {
    let rules = HouseRules::standard();
    let shoe = shoe_of(&[CardRank::KING, CardRank::FIVE, CardRank::TEN]);
    let mut wager = wager_of(&[CardRank::ACE, CardRank::ACE], 10);
    let end = play_hand(&mut wager, 0, &spade(CardRank::SIX), &shoe, 0, &rules);
    assert_eq!(end, (2, true));
    assert_eq!(wager.num_hands(), 2);
    assert_eq!(ranks_of(&wager.hands[0].cards), vec![CardRank::ACE, CardRank::KING]);
    assert_eq!(ranks_of(&wager.hands[1].cards), vec![CardRank::ACE, CardRank::FIVE]);
    assert_eq!(wager.hands[0].outcome, HandOutcome::STAND);
    assert_eq!(wager.hands[1].outcome, HandOutcome::STAND);
    assert_eq!(wager.hands[0].is_natural(), false);

    // where split aces may draw: the hand goes on, the new one waits for its turn
    let mut draw = HouseRules::standard();
    draw.no_more_cards_after_splitting_aces = false;
    let mut wager = wager_of(&[CardRank::ACE, CardRank::ACE], 10);
    let end = play_hand(&mut wager, 0, &spade(CardRank::SIX), &shoe, 0, &draw);
    assert_eq!(end, (2, true));
    assert_eq!(wager.hands[0].outcome, HandOutcome::STAND);
    assert_eq!(wager.hands[0].count(), 21);
    assert_eq!(wager.hands[1].outcome, HandOutcome::IN_PLAY);
}

#[test]
fn test_play_wager_and_player() {
    let rules = HouseRules::standard();
    let shoe = shoe_of(&[CardRank::THREE, CardRank::KING, CardRank::TEN, CardRank::NINE]);

    // the hand that was there is played, and then the one split off it: 18 stands
    let mut wager = wager_of(&[CardRank::EIGHT, CardRank::EIGHT], 10);
    let end = play_wager(&mut wager, &spade(CardRank::SIX), &shoe, 0, &rules);
    assert_eq!(end, (3, true));
    assert_eq!(wager.num_hands(), 2);
    assert_eq!(wager.hands[0].outcome, HandOutcome::STAND);
    assert_eq!(wager.hands[0].bet, 20);
    assert_eq!(ranks_of(&wager.hands[1].cards), vec![CardRank::EIGHT, CardRank::KING]);
    assert_eq!(wager.hands[1].outcome, HandOutcome::STAND);
    assert_eq!(wager.hands[1].bet, 10);

    let mut player = Player::create("Jill");
    player.master_hands.push(wager_of(&[CardRank::EIGHT, CardRank::EIGHT], 10));
    player.master_hands.push(wager_of(&[CardRank::FIVE, CardRank::SIX], 10));
    let end = play_player(&mut player, &spade(CardRank::SIX), &shoe, 0, &rules);
    assert_eq!(end, (4, true));
    assert_eq!(player.master_hands[0].num_hands(), 2);
    assert_eq!(player.master_hands[1].num_hands(), 1);
    assert_eq!(
        ranks_of(&player.master_hands[1].hands[0].cards),
        vec![CardRank::FIVE, CardRank::SIX, CardRank::NINE]
    );
    assert_eq!(player.master_hands[1].hands[0].bet, 20);

    // out of cards on the second wager: the first is played, the second is not
    let mut player = Player::create("Jill");
    player.master_hands.push(wager_of(&[CardRank::EIGHT, CardRank::EIGHT], 10));
    player.master_hands.push(wager_of(&[CardRank::FIVE, CardRank::SIX], 10));
    let short = shoe_of(&[CardRank::THREE, CardRank::KING, CardRank::TEN]);
    let end = play_player(&mut player, &spade(CardRank::SIX), &short, 0, &rules);
    assert_eq!(end, (3, false));
    assert_eq!(player.master_hands[0].hands[0].outcome, HandOutcome::STAND);
    assert_eq!(player.master_hands[1].hands[0].outcome, HandOutcome::IN_PLAY);
    assert_eq!(player.master_hands[1].hands[0].num_cards(), 2);
}

#[test]
fn test_stand_on_everything() {
    let mut wager = wager_of(&[CardRank::EIGHT, CardRank::EIGHT], 10);
    wager.split_hand(0, [spade(CardRank::TWO), spade(CardRank::THREE)]);
    stand_wager(&mut wager);
    assert_eq!(wager.num_hands(), 2);
    for hand in wager.hands.iter() {
        assert_eq!(hand.outcome, HandOutcome::STAND);
        assert_eq!(hand.bet, 10);
        assert_eq!(hand.num_cards(), 2);
    }

    let mut player = Player::create("Jack");
    player.set_game_bets(&vec![1, 2, 3]);
    stand_player(&mut player);
    assert_eq!(player.num_master_hands(), 3);
    for master_hand in player.master_hands.iter() {
        assert_eq!(master_hand.hands[0].outcome, HandOutcome::STAND);
    }
}

#[test]
fn test_play_dealer_hand() {
    let rules = HouseRules::standard();
    let shoe = shoe_of(&[CardRank::TWO, CardRank::THREE, CardRank::KING, CardRank::FIVE]);

    // 16: draws 2 (18) and stands
    let mut hand = dealer_hand_of(&[CardRank::TEN, CardRank::SIX]);
    assert_eq!(play_dealer_hand(&mut hand, &shoe, 0, &rules), (1, true));
    assert_eq!(hand.outcome, HandOutcome::STAND);
    assert_eq!(hand.count(), 18);

    // 12: draws 3 (15), draws the king: bust
    let mut hand = dealer_hand_of(&[CardRank::TEN, CardRank::TWO]);
    assert_eq!(play_dealer_hand(&mut hand, &shoe, 1, &rules), (3, true));
    assert_eq!(hand.outcome, HandOutcome::BUST);
    assert_eq!(hand.count(), 25);

    // 17 stands at once; a soft 17 too
    let mut hand = dealer_hand_of(&[CardRank::TEN, CardRank::SEVEN]);
    assert_eq!(play_dealer_hand(&mut hand, &shoe, 0, &rules), (0, true));
    assert_eq!(hand.outcome, HandOutcome::STAND);
    let mut hand = dealer_hand_of(&[CardRank::ACE, CardRank::SIX]);
    assert_eq!(play_dealer_hand(&mut hand, &shoe, 0, &rules), (0, true));
    assert_eq!(hand.outcome, HandOutcome::STAND);
    assert_eq!(hand.num_cards(), 2);

    // a soft 16 draws the king and is a hard 16, draws 5: 21
    let mut hand = dealer_hand_of(&[CardRank::ACE, CardRank::FIVE]);
    assert_eq!(play_dealer_hand(&mut hand, &shoe, 2, &rules), (4, true));
    assert_eq!(hand.outcome, HandOutcome::STAND);
    assert_eq!(hand.count(), 21);

    // a hand that is over is left alone
    let mut hand = dealer_hand_of(&[CardRank::ACE, CardRank::KING]);
    hand.outcome = HandOutcome::DEALER_BLACKJACK;
    assert_eq!(play_dealer_hand(&mut hand, &shoe, 0, &rules), (0, true));
    assert_eq!(hand.outcome, HandOutcome::DEALER_BLACKJACK);
    assert_eq!(hand.num_cards(), 2);

    // out of cards
    let mut hand = dealer_hand_of(&[CardRank::TEN, CardRank::TWO]);
    assert_eq!(play_dealer_hand(&mut hand, &shoe, 4, &rules), (4, false));
    assert_eq!(hand.outcome, HandOutcome::IN_PLAY);
    assert_eq!(play_dealer_hand_step(&mut hand, &shoe, 3, &rules), (4, true, true));
    assert_eq!(play_dealer_hand_step(&mut hand, &shoe, 4, &rules), (4, false, true));
    assert_eq!(hand.outcome, HandOutcome::STAND);
    assert_eq!(hand.count(), 17);
}

#[test]
fn test_settle_hand() {
    let rules = HouseRules::standard();
    let mut dealer_18 = dealer_hand_of(&[CardRank::TEN, CardRank::EIGHT]);
    dealer_18.outcome = HandOutcome::STAND;
    let mut dealer_bust = dealer_hand_of(&[CardRank::TEN, CardRank::SIX, CardRank::TEN]);
    dealer_bust.outcome = HandOutcome::BUST;
    let mut dealer_natural = dealer_hand_of(&[CardRank::ACE, CardRank::KING]);
    dealer_natural.outcome = HandOutcome::DEALER_BLACKJACK;

    let nineteen = player_hand_of(&[CardRank::TEN, CardRank::NINE], 10);
    let eighteen = player_hand_of(&[CardRank::TEN, CardRank::EIGHT], 10);
    let seventeen = player_hand_of(&[CardRank::TEN, CardRank::SEVEN], 10);
    let bust = player_hand_of(&[CardRank::TEN, CardRank::SEVEN, CardRank::FIVE], 10);
    let natural = player_hand_of(&[CardRank::ACE, CardRank::KING], 10);
    let mut surrendered = player_hand_of(&[CardRank::TEN, CardRank::SIX], 10);
    surrendered.surrender();
    let mut split_21 = PlayerHand::create(true, 10);
    split_21.add_card(&spade(CardRank::ACE));
    split_21.add_card(&spade(CardRank::KING));

    assert_eq!(settle_hand(&nineteen, &dealer_18, &rules), 10);
    assert_eq!(settle_hand(&eighteen, &dealer_18, &rules), 0);
    assert_eq!(settle_hand(&seventeen, &dealer_18, &rules), -10);
    assert_eq!(settle_hand(&bust, &dealer_18, &rules), -10);
    assert_eq!(settle_hand(&natural, &dealer_18, &rules), 15);
    assert_eq!(settle_hand(&surrendered, &dealer_18, &rules), -5);
    assert_eq!(settle_hand(&split_21, &dealer_18, &rules), 10);

    assert_eq!(settle_hand(&seventeen, &dealer_bust, &rules), 10);
    assert_eq!(settle_hand(&bust, &dealer_bust, &rules), -10);
    assert_eq!(settle_hand(&surrendered, &dealer_bust, &rules), -5);
    assert_eq!(settle_hand(&natural, &dealer_bust, &rules), 15);

    assert_eq!(settle_hand(&natural, &dealer_natural, &rules), 0);
    assert_eq!(settle_hand(&nineteen, &dealer_natural, &rules), -10);
    assert_eq!(settle_hand(&split_21, &dealer_natural, &rules), -10);
    assert_eq!(settle_hand(&surrendered, &dealer_natural, &rules), -5);
}

#[test]
fn test_natural_payout() {
    let rules = HouseRules::standard();
    assert_eq!(natural_payout(0, &rules), 0);
    assert_eq!(natural_payout(1, &rules), 1);
    assert_eq!(natural_payout(2, &rules), 3);
    assert_eq!(natural_payout(4, &rules), 6);
    assert_eq!(natural_payout(5, &rules), 7);
    assert_eq!(natural_payout(100, &rules), 150);
    for bet in 0u32..2000 {
        assert_eq!(natural_payout(bet, &rules), ((bet as f32) * 1.5) as i32);
    }
    assert_eq!(natural_payout(1431655765, &rules), 2147483647);
    assert_eq!(natural_payout(u32::MAX, &rules), i32::MAX);

    let mut six_to_five = HouseRules::standard();
    six_to_five.natural_blackjack_payout_numerator = 6;
    six_to_five.natural_blackjack_payout_denominator = 5;
    assert_eq!(natural_payout(10, &six_to_five), 12);
    assert_eq!(natural_payout(2, &six_to_five), 2);
}

#[test]
fn test_records_and_results() {
    let mut blackjack = BlackJack::create();
    assert_eq!(blackjack.results.len(), 0);
    assert_eq!(blackjack.stats, BlackJackStats::create());
    assert_eq!(blackjack.stats.double_down_count, 0);

    blackjack.set_players_for_game(vec![Player::create("Jack"), Player::create("Jill")]);
    assert_eq!(blackjack.results.len(), 2);
    assert_eq!(blackjack.results[0].name, "Jack");
    assert_eq!(blackjack.results[1].name, "Jill");
    assert_eq!(blackjack.results[0].results, BlackJackPlayerResults::create());

    blackjack.players[0].master_hands.push(wager_of(&[CardRank::TEN, CardRank::NINE], 2));
    let doubled = wager_of(&[CardRank::FIVE, CardRank::SIX, CardRank::TEN], 4);
    blackjack.players[1].master_hands.push(doubled);

    blackjack.add_result(0, 0, 0, 2, 2);
    assert_eq!(
        *results_of(&blackjack, "Jack"),
        BlackJackPlayerResults {
            hands_played: 1,
            hands_won: 1,
            hands_lost: 0,
            hands_pushed: 0,
            proceeds: 2
        }
    );
    assert_eq!(blackjack.stats, BlackJackStats::create());

    blackjack.add_result(1, 0, 0, 2, -4);
    blackjack.add_result(1, 0, 0, 2, 0);
    assert_eq!(
        *results_of(&blackjack, "Jill"),
        BlackJackPlayerResults {
            hands_played: 2,
            hands_won: 0,
            hands_lost: 1,
            hands_pushed: 1,
            proceeds: -4
        }
    );
    assert_eq!(blackjack.stats.double_down_count, 1);
    assert_eq!(blackjack.stats.surrender_count, 0);
    assert_eq!(blackjack.stats.split_count, 0);
    assert_eq!(blackjack.stats.aces_split, 0);

    // the same names again: the records stay; a new name gets one
    blackjack.set_players_for_game(vec![
        Player::create("Jill"),
        Player::create("Joe"),
        Player::create("Joe"),
    ]);
    assert_eq!(blackjack.num_players(), 3);
    assert_eq!(blackjack.results.len(), 3);
    assert_eq!(blackjack.results[2].name, "Joe");
    assert_eq!(results_of(&blackjack, "Jill").hands_played, 2);
    assert_eq!(results_of(&blackjack, "Jack").proceeds, 2);
}

#[test]
fn test_counts_of_special_plays() {
    let mut blackjack = BlackJack::create();
    blackjack.set_players_for_game(vec![Player::create("Jack")]);

    let mut aces = wager_of(&[CardRank::ACE, CardRank::ACE], 2);
    aces.split_hand(0, [spade(CardRank::KING), spade(CardRank::FIVE)]);
    blackjack.players[0].master_hands.push(aces);
    let mut surrendered = wager_of(&[CardRank::TEN, CardRank::SIX], 2);
    surrendered.hands[0].surrender();
    blackjack.players[0].master_hands.push(surrendered);

    blackjack.add_result(0, 0, 0, 2, 2);
    assert_eq!(
        blackjack.stats,
        BlackJackStats { double_down_count: 0, surrender_count: 0, split_count: 0, aces_split: 1 }
    );
    blackjack.add_result(0, 0, 1, 2, -2);
    assert_eq!(
        blackjack.stats,
        BlackJackStats { double_down_count: 0, surrender_count: 0, split_count: 1, aces_split: 2 }
    );
    blackjack.add_result(0, 1, 0, 2, -1);
    assert_eq!(
        blackjack.stats,
        BlackJackStats { double_down_count: 0, surrender_count: 1, split_count: 1, aces_split: 2 }
    );
    assert_eq!(
        *results_of(&blackjack, "Jack"),
        BlackJackPlayerResults {
            hands_played: 3,
            hands_won: 1,
            hands_lost: 2,
            hands_pushed: 0,
            proceeds: -1
        }
    );

    // a player without a record: only the counts move
    blackjack.players[0].name = "Nobody".to_string();
    blackjack.add_result(0, 1, 0, 2, -1);
    assert_eq!(blackjack.stats.surrender_count, 2);
    assert_eq!(blackjack.results.len(), 1);
    assert_eq!(results_of(&blackjack, "Jack").hands_played, 3);
}

#[test]
fn test_get_card_and_reshuffle() {
    let mut blackjack = BlackJack::create();
    let first = blackjack.shoe[0];
    let second = blackjack.shoe[1];
    assert_eq!(blackjack.get_card_from_shoe(), first);
    assert_eq!(blackjack.get_card_from_shoe(), second);
    assert_eq!(blackjack.shoe_top, 2);

    let before = blackjack.shoe.clone();
    blackjack.reshuffle_shoe();
    assert_eq!(blackjack.shoe_top, 0);
    assert_eq!(blackjack.shoe.len(), 312);
    assert_ne!(blackjack.shoe, before);
    let mut sorted_before: Vec<(u8, usize)> =
        before.iter().map(|c| (c.suite.discriminant(), c.rank.discriminant())).collect();
    let mut sorted_after: Vec<(u8, usize)> =
        blackjack.shoe.iter().map(|c| (c.suite.discriminant(), c.rank.discriminant())).collect();
    sorted_before.sort();
    sorted_after.sort();
    assert_eq!(sorted_before, sorted_after);
}

#[test]
fn test_create_shuffles_the_shoe() {
    let blackjack = BlackJack::create();
    let unshuffled = blackjack::cards::create_shoe(6);
    assert_ne!(blackjack.shoe, unshuffled);
    // the seed is fixed: every table starts with the same shoe
    assert_eq!(blackjack.shoe, BlackJack::create().shoe);
}

#[test]
fn test_deal_hands() {
    let mut blackjack = rigged_table(&[
        CardRank::TWO,
        CardRank::THREE,
        CardRank::FOUR,
        CardRank::FIVE,
        CardRank::SIX,
        CardRank::SEVEN,
        CardRank::EIGHT,
        CardRank::NINE,
        CardRank::TEN,
    ]);
    blackjack.set_players_for_game(vec![Player::create("Jack"), Player::create("Jill")]);
    blackjack.players[0].set_game_bets(&vec![2]);
    blackjack.players[1].set_game_bets(&vec![2, 2]);
    let mut dealer = Dealer::create("Steamboat Dealer");

    assert_eq!(blackjack.deal_hands(&mut dealer), true);
    assert_eq!(blackjack.shoe_top, 8);
    assert_eq!(
        ranks_of(&blackjack.players[0].master_hands[0].hands[0].cards),
        vec![CardRank::TWO, CardRank::SIX]
    );
    assert_eq!(
        ranks_of(&blackjack.players[1].master_hands[0].hands[0].cards),
        vec![CardRank::THREE, CardRank::SEVEN]
    );
    assert_eq!(
        ranks_of(&blackjack.players[1].master_hands[1].hands[0].cards),
        vec![CardRank::FOUR, CardRank::EIGHT]
    );
    assert_eq!(ranks_of(&dealer.hand.cards), vec![CardRank::FIVE, CardRank::NINE]);
    assert_eq!(dealer.top_card().rank, CardRank::FIVE);
    assert_eq!(dealer.hole_card().rank, CardRank::NINE);

    // one card left: nothing more is dealt
    assert_eq!(blackjack.deal_hands(&mut dealer), false);
    assert_eq!(blackjack.shoe_top, 8);
    assert_eq!(dealer.hand.num_cards(), 2);
    assert_eq!(blackjack.players[0].master_hands[0].hands[0].num_cards(), 2);

    // one round needs four cards here
    blackjack.shoe_top = 5;
    blackjack.deal_round(&mut dealer);
    assert_eq!(blackjack.shoe_top, 9);
    assert_eq!(
        ranks_of(&blackjack.players[1].master_hands[1].hands[0].cards),
        vec![CardRank::FOUR, CardRank::EIGHT, CardRank::NINE]
    );
    assert_eq!(ranks_of(&dealer.hand.cards), vec![CardRank::FIVE, CardRank::NINE, CardRank::TEN]);
}

#[test]
fn test_game_with_surrender_double_and_natural() {
    let mut blackjack = rigged_table(&[
        // first cards: Jack, Jill, Jill, dealer
        CardRank::TEN,
        CardRank::FIVE,
        CardRank::ACE,
        CardRank::TEN,
        // second cards
        CardRank::SIX,
        CardRank::SIX,
        CardRank::KING,
        CardRank::SEVEN,
        // Jill's double
        CardRank::NINE,
        CardRank::TWO,
    ]);
    let dealer = blackjack.play_game().unwrap();
    assert_eq!(dealer.name, "Steamboat Dealer");
    assert_eq!(ranks_of(&dealer.hand.cards), vec![CardRank::TEN, CardRank::SEVEN]);
    assert_eq!(dealer.hand.outcome, HandOutcome::STAND);
    assert_eq!(blackjack.shoe_top, 9);
    assert_eq!(blackjack.shoe.len(), 10);

    assert_eq!(blackjack.num_players(), 2);
    assert_eq!(blackjack.players[0].name, "Jack");
    assert_eq!(blackjack.players[1].name, "Jill");
    let jack = &blackjack.players[0].master_hands[0].hands[0];
    assert_eq!(jack.outcome, HandOutcome::SURRENDER);
    assert_eq!(jack.bet, 1);
    let doubled = &blackjack.players[1].master_hands[0].hands[0];
    assert_eq!(doubled.outcome, HandOutcome::STAND);
    assert_eq!(doubled.bet, 4);
    assert_eq!(doubled.count(), 20);
    let natural = &blackjack.players[1].master_hands[1].hands[0];
    assert_eq!(natural.outcome, HandOutcome::STAND);
    assert_eq!(natural.is_natural(), true);
    assert_eq!(natural.bet, 2);

    assert_eq!(
        *results_of(&blackjack, "Jack"),
        BlackJackPlayerResults {
            hands_played: 1,
            hands_won: 0,
            hands_lost: 1,
            hands_pushed: 0,
            proceeds: -1
        }
    );
    assert_eq!(
        *results_of(&blackjack, "Jill"),
        BlackJackPlayerResults {
            hands_played: 2,
            hands_won: 2,
            hands_lost: 0,
            hands_pushed: 0,
            proceeds: 7
        }
    );
    assert_eq!(
        blackjack.stats,
        BlackJackStats { double_down_count: 1, surrender_count: 1, split_count: 0, aces_split: 0 }
    );
}

#[test]
fn test_game_with_dealer_natural() {
    let mut blackjack = rigged_table(&[
        CardRank::ACE,
        CardRank::TEN,
        CardRank::EIGHT,
        CardRank::ACE,
        CardRank::QUEEN,
        CardRank::NINE,
        CardRank::EIGHT,
        CardRank::KING,
        CardRank::TWO,
    ]);
    let dealer = blackjack.play_game().unwrap();
    assert_eq!(dealer.hand.outcome, HandOutcome::DEALER_BLACKJACK);
    assert_eq!(dealer.hand.num_cards(), 2);
    assert_eq!(blackjack.shoe_top, 8);
    for player in blackjack.players.iter() {
        for master_hand in player.master_hands.iter() {
            assert_eq!(master_hand.num_hands(), 1);
            assert_eq!(master_hand.hands[0].outcome, HandOutcome::STAND);
            assert_eq!(master_hand.hands[0].num_cards(), 2);
            assert_eq!(master_hand.hands[0].bet, 2);
        }
    }
    // Jack's natural is a push; Jill loses both bets
    assert_eq!(
        *results_of(&blackjack, "Jack"),
        BlackJackPlayerResults {
            hands_played: 1,
            hands_won: 0,
            hands_lost: 0,
            hands_pushed: 1,
            proceeds: 0
        }
    );
    assert_eq!(
        *results_of(&blackjack, "Jill"),
        BlackJackPlayerResults {
            hands_played: 2,
            hands_won: 0,
            hands_lost: 2,
            hands_pushed: 0,
            proceeds: -4
        }
    );
    assert_eq!(blackjack.stats, BlackJackStats::create());
}

#[test]
fn test_game_with_split_and_dealer_bust() {
    let mut blackjack = rigged_table(&[
        // first cards: Jack, Jill, Jill, dealer
        CardRank::EIGHT,
        CardRank::TEN,
        CardRank::NINE,
        CardRank::SIX,
        // second cards
        CardRank::EIGHT,
        CardRank::JACK,
        CardRank::TWO,
        CardRank::TEN,
        // Jack splits and doubles
        CardRank::THREE,
        CardRank::TEN,
        CardRank::TEN,
        // Jill doubles
        CardRank::FIVE,
        // the dealer draws
        CardRank::KING,
    ]);
    let dealer = blackjack.play_game().unwrap();
    assert_eq!(dealer.hand.outcome, HandOutcome::BUST);
    assert_eq!(dealer.hand.count(), 26);
    assert_eq!(blackjack.shoe_top, 13);

    let jack = &blackjack.players[0].master_hands[0];
    assert_eq!(jack.num_hands(), 2);
    assert_eq!(
        ranks_of(&jack.hands[0].cards),
        vec![CardRank::EIGHT, CardRank::THREE, CardRank::TEN]
    );
    assert_eq!(jack.hands[0].bet, 4);
    assert_eq!(jack.hands[0].outcome, HandOutcome::STAND);
    assert_eq!(ranks_of(&jack.hands[1].cards), vec![CardRank::EIGHT, CardRank::TEN]);
    assert_eq!(jack.hands[1].bet, 2);
    assert_eq!(jack.hands[1].outcome, HandOutcome::STAND);

    let jill = &blackjack.players[1];
    assert_eq!(jill.master_hands[0].num_hands(), 1);
    assert_eq!(jill.master_hands[0].hands[0].outcome, HandOutcome::STAND);
    assert_eq!(jill.master_hands[0].hands[0].num_cards(), 2);
    assert_eq!(jill.master_hands[1].hands[0].count(), 16);
    assert_eq!(jill.master_hands[1].hands[0].bet, 4);

    assert_eq!(
        *results_of(&blackjack, "Jack"),
        BlackJackPlayerResults {
            hands_played: 2,
            hands_won: 2,
            hands_lost: 0,
            hands_pushed: 0,
            proceeds: 6
        }
    );
    assert_eq!(
        *results_of(&blackjack, "Jill"),
        BlackJackPlayerResults {
            hands_played: 2,
            hands_won: 2,
            hands_lost: 0,
            hands_pushed: 0,
            proceeds: 6
        }
    );
    assert_eq!(
        blackjack.stats,
        BlackJackStats { double_down_count: 2, surrender_count: 0, split_count: 1, aces_split: 0 }
    );
}

#[test]
fn test_game_runs_out_of_cards() {
    // seven cards: the deal needs eight
    let mut blackjack = rigged_table(&[CardRank::TWO; 7]);
    assert_eq!(blackjack.play_game().is_none(), true);
    assert_eq!(blackjack.shoe_top, 0);
    assert_eq!(blackjack.num_players(), 2);
    assert_eq!(blackjack.players[1].master_hands[1].hands[0].num_cards(), 0);
    assert_eq!(blackjack.results.len(), 2);
    assert_eq!(results_of(&blackjack, "Jill").hands_played, 0);

    // eight twos: every hand wants a card and there is none
    let mut blackjack = rigged_table(&[CardRank::TWO; 8]);
    assert_eq!(blackjack.play_game().is_none(), true);
    assert_eq!(blackjack.shoe_top, 8);
    assert_eq!(blackjack.players[0].master_hands[0].hands[0].num_cards(), 2);
    assert_eq!(results_of(&blackjack, "Jack").hands_played, 0);
    assert_eq!(blackjack.stats, BlackJackStats::create());

    // the players stand on 20, the dealer has 12 and no card to draw
    let mut blackjack = rigged_table(&[
        CardRank::TEN,
        CardRank::TEN,
        CardRank::TEN,
        CardRank::TEN,
        CardRank::TEN,
        CardRank::TEN,
        CardRank::TEN,
        CardRank::TWO,
    ]);
    assert_eq!(blackjack.play_game().is_none(), true);
    assert_eq!(blackjack.players[0].master_hands[0].hands[0].outcome, HandOutcome::STAND);
    assert_eq!(results_of(&blackjack, "Jack").hands_played, 0);
}

#[test]
fn test_games_from_a_fresh_table() {
    let mut blackjack = BlackJack::create();
    let mut again = BlackJack::create();
    let mut hands_settled: u64 = 0;
    for _game in 0..5 {
        let top_before = blackjack.shoe_top;
        let dealer = blackjack.play_game().unwrap();
        let dealer_again = again.play_game().unwrap();
        assert!(blackjack.shoe_top >= top_before + 8);
        assert!(dealer.hand.num_cards() >= 2);
        assert_eq!(dealer.hand.is_hand_over(), true);
        assert_eq!(dealer.hand.cards, dealer_again.hand.cards);
        assert_eq!(dealer.hand.outcome, dealer_again.hand.outcome);

        assert_eq!(blackjack.num_players(), 2);
        assert_eq!(blackjack.players[0].num_master_hands(), 1);
        assert_eq!(blackjack.players[1].num_master_hands(), 2);
        for player in blackjack.players.iter() {
            for master_hand in player.master_hands.iter() {
                assert!(master_hand.num_hands() >= 1);
                assert!(master_hand.num_hands() <= master_hand.HANDS_LIMIT);
                for hand in master_hand.hands.iter() {
                    assert_eq!(hand.is_hand_over(), true);
                }
                hands_settled += master_hand.num_hands() as u64;
            }
        }
        assert_eq!(blackjack.shoe_top, again.shoe_top);
        assert_eq!(blackjack.stats, again.stats);
    }
    assert_eq!(blackjack.results.len(), 2);
    let jack = results_of(&blackjack, "Jack");
    let jill = results_of(&blackjack, "Jill");
    assert_eq!(jack.hands_played + jill.hands_played, hands_settled);
    assert_eq!(jack.hands_played, jack.hands_won + jack.hands_lost + jack.hands_pushed);
    assert_eq!(jill.hands_played, jill.hands_won + jill.hands_lost + jill.hands_pushed);
    assert!(jack.hands_played >= 5);
    assert!(jill.hands_played >= 10);
    assert_eq!(*jack, *results_of(&again, "Jack"));
    assert_eq!(*jill, *results_of(&again, "Jill"));
}

#[test]
fn test_game_reshuffles_a_used_shoe() {
    let mut blackjack = BlackJack::create();
    let before = blackjack.shoe.clone();
    blackjack.shoe_top = 234;
    let top_before = blackjack.shoe_top;
    // at three quarters the shoe is still good for a game
    if blackjack.play_game().is_some() {
        assert!(blackjack.shoe_top >= top_before + 8);
    }
    assert_eq!(blackjack.shoe, before);

    blackjack.shoe_top = 235;
    assert_eq!(blackjack.play_game().is_some(), true);
    assert_ne!(blackjack.shoe, before);
    assert_eq!(blackjack.shoe.len(), 312);
    assert!(blackjack.shoe_top >= 8);
    assert!(blackjack.shoe_top < 235);
}

#[test]
fn test_play_round_with_other_rules() {
    // the dealer draws on a soft 17; naturals pay six to five; no surrender
    let mut rules = HouseRules::standard();
    rules.dealer_hits_soft_on = 18;
    rules.natural_blackjack_payout_numerator = 6;
    rules.natural_blackjack_payout_denominator = 5;
    rules.surrender_allowed = false;
    let mut blackjack = rigged_table(&[
        // first cards: Ann, dealer
        CardRank::ACE,
        CardRank::ACE,
        // second cards
        CardRank::KING,
        CardRank::SIX,
        // the dealer draws
        CardRank::THREE,
        CardRank::TWO,
    ]);
    blackjack.set_players_for_game(vec![Player::create("Ann")]);
    blackjack.players[0].set_game_bets(&vec![10]);
    let mut dealer = Dealer::create("Riverboat Dealer");
    assert_eq!(blackjack.play_round(&mut dealer, 10, &rules), true);
    assert_eq!(dealer.hand.count(), 20);
    assert_eq!(dealer.hand.outcome, HandOutcome::STAND);
    assert_eq!(blackjack.shoe_top, 5);
    assert_eq!(
        *results_of(&blackjack, "Ann"),
        BlackJackPlayerResults {
            hands_played: 1,
            hands_won: 1,
            hands_lost: 0,
            hands_pushed: 0,
            proceeds: 12
        }
    );
}

#[test]
fn test_play_wager_plays_the_hands_split_off() {
    let rules = HouseRules::standard();
    // eights against a six. The first split brings an eight again, so the
    // hand is split once more and then doubles on 8+2. The two hands split
    // off are played after it: 8+5 stands, 8+3 doubles.
    let shoe = shoe_of(&[
        CardRank::EIGHT,
        CardRank::FIVE,
        CardRank::TWO,
        CardRank::THREE,
        CardRank::KING,
        CardRank::NINE,
        CardRank::ACE,
    ]);
    let mut wager = wager_of(&[CardRank::EIGHT, CardRank::EIGHT], 10);
    let end = play_wager(&mut wager, &spade(CardRank::SIX), &shoe, 0, &rules);
    assert_eq!(end, (6, true));
    assert_eq!(wager.num_hands(), 3);
    assert_eq!(
        ranks_of(&wager.hands[0].cards),
        vec![CardRank::EIGHT, CardRank::TWO, CardRank::KING]
    );
    assert_eq!(wager.hands[0].bet, 20);
    assert_eq!(ranks_of(&wager.hands[1].cards), vec![CardRank::EIGHT, CardRank::FIVE]);
    assert_eq!(wager.hands[1].bet, 10);
    assert_eq!(
        ranks_of(&wager.hands[2].cards),
        vec![CardRank::EIGHT, CardRank::THREE, CardRank::NINE]
    );
    assert_eq!(wager.hands[2].bet, 20);
    for hand in wager.hands.iter() {
        assert_eq!(hand.outcome, HandOutcome::STAND);
        assert_eq!(hand.from_split, true);
    }

    // a hand split off is a pair itself: it is split in its turn, up to the limit
    let shoe = shoe_of(&[
        CardRank::TEN,
        CardRank::EIGHT,
        CardRank::TEN,
        CardRank::EIGHT,
        CardRank::TEN,
        CardRank::EIGHT,
        CardRank::TEN,
    ]);
    let mut wager = wager_of(&[CardRank::EIGHT, CardRank::EIGHT], 10);
    let end = play_wager(&mut wager, &spade(CardRank::SIX), &shoe, 0, &rules);
    assert_eq!(end, (6, true));
    assert_eq!(wager.num_hands(), 4);
    assert_eq!(ranks_of(&wager.hands[0].cards), vec![CardRank::EIGHT, CardRank::TEN]);
    assert_eq!(ranks_of(&wager.hands[1].cards), vec![CardRank::EIGHT, CardRank::TEN]);
    assert_eq!(ranks_of(&wager.hands[2].cards), vec![CardRank::EIGHT, CardRank::TEN]);
    // the wager is full: the last pair of eights stands on 16 against the six
    assert_eq!(ranks_of(&wager.hands[3].cards), vec![CardRank::EIGHT, CardRank::EIGHT]);
    for hand in wager.hands.iter() {
        assert_eq!(hand.outcome, HandOutcome::STAND);
        assert_eq!(hand.bet, 10);
    }

    // out of cards on the hand split off: the turns stop there
    let shoe = shoe_of(&[CardRank::TEN, CardRank::THREE]);
    let mut wager = wager_of(&[CardRank::EIGHT, CardRank::EIGHT], 10);
    let end = play_wager(&mut wager, &spade(CardRank::SIX), &shoe, 0, &rules);
    assert_eq!(end, (2, false));
    assert_eq!(wager.hands[0].outcome, HandOutcome::STAND);
    assert_eq!(wager.hands[1].outcome, HandOutcome::IN_PLAY);
    assert_eq!(wager.hands[1].num_cards(), 2);
    assert_eq!(wager.hands[1].bet, 10);
}

#[test]
fn test_play_wager_on_split_aces() {
    let rules = HouseRules::standard();
    let shoe = shoe_of(&[CardRank::KING, CardRank::FIVE, CardRank::TEN]);
    let mut wager = wager_of(&[CardRank::ACE, CardRank::ACE], 10);
    let end = play_wager(&mut wager, &spade(CardRank::SIX), &shoe, 0, &rules);
    assert_eq!(end, (2, true));
    assert_eq!(wager.num_hands(), 2);
    assert_eq!(wager.hands[0].outcome, HandOutcome::STAND);
    assert_eq!(wager.hands[1].outcome, HandOutcome::STAND);
    assert_eq!(wager.hands[1].num_cards(), 2);

    // where split aces may draw, the second half plays on: a soft 16 doubles
    let mut draw = HouseRules::standard();
    draw.no_more_cards_after_splitting_aces = false;
    let mut wager = wager_of(&[CardRank::ACE, CardRank::ACE], 10);
    let end = play_wager(&mut wager, &spade(CardRank::SIX), &shoe, 0, &draw);
    assert_eq!(end, (3, true));
    assert_eq!(wager.hands[0].count(), 21);
    assert_eq!(wager.hands[0].outcome, HandOutcome::STAND);
    assert_eq!(
        ranks_of(&wager.hands[1].cards),
        vec![CardRank::ACE, CardRank::FIVE, CardRank::TEN]
    );
    assert_eq!(wager.hands[1].count(), 16);
    assert_eq!(wager.hands[1].bet, 20);
    assert_eq!(wager.hands[1].outcome, HandOutcome::STAND);
}

#[test]
fn test_game_plays_the_hand_split_off() {
    let mut blackjack = rigged_table(&[
        // first cards: Jack, Jill, Jill, dealer
        CardRank::EIGHT,
        CardRank::TEN,
        CardRank::TEN,
        CardRank::SIX,
        // second cards
        CardRank::EIGHT,
        CardRank::TEN,
        CardRank::NINE,
        CardRank::TEN,
        // Jack splits: 8+10 stands; 8+3 is played after it and doubles
        CardRank::TEN,
        CardRank::THREE,
        CardRank::TEN,
        // the dealer draws
        CardRank::TEN,
    ]);
    let dealer = blackjack.play_game().unwrap();
    assert_eq!(dealer.hand.outcome, HandOutcome::BUST);
    assert_eq!(blackjack.shoe_top, 12);

    let jack = &blackjack.players[0].master_hands[0];
    assert_eq!(jack.num_hands(), 2);
    assert_eq!(ranks_of(&jack.hands[0].cards), vec![CardRank::EIGHT, CardRank::TEN]);
    assert_eq!(jack.hands[0].outcome, HandOutcome::STAND);
    assert_eq!(jack.hands[0].bet, 2);
    assert_eq!(
        ranks_of(&jack.hands[1].cards),
        vec![CardRank::EIGHT, CardRank::THREE, CardRank::TEN]
    );
    assert_eq!(jack.hands[1].outcome, HandOutcome::STAND);
    assert_eq!(jack.hands[1].bet, 4);
    for player in blackjack.players.iter() {
        for master_hand in player.master_hands.iter() {
            for hand in master_hand.hands.iter() {
                assert_ne!(hand.outcome, HandOutcome::IN_PLAY);
            }
        }
    }

    assert_eq!(
        *results_of(&blackjack, "Jack"),
        BlackJackPlayerResults {
            hands_played: 2,
            hands_won: 2,
            hands_lost: 0,
            hands_pushed: 0,
            proceeds: 6
        }
    );
    assert_eq!(
        *results_of(&blackjack, "Jill"),
        BlackJackPlayerResults {
            hands_played: 2,
            hands_won: 2,
            hands_lost: 0,
            hands_pushed: 0,
            proceeds: 4
        }
    );
    assert_eq!(
        blackjack.stats,
        BlackJackStats { double_down_count: 1, surrender_count: 0, split_count: 1, aces_split: 0 }
    );

    // one card less: the hand split off takes the last card, and the dealer has none
    let mut short = rigged_table(&[
        CardRank::EIGHT,
        CardRank::TEN,
        CardRank::TEN,
        CardRank::SIX,
        CardRank::EIGHT,
        CardRank::TEN,
        CardRank::NINE,
        CardRank::TEN,
        CardRank::TEN,
        CardRank::THREE,
        CardRank::TEN,
    ]);
    assert_eq!(short.play_game().is_none(), true);
    assert_eq!(short.shoe_top, 11);
    assert_eq!(short.players[0].master_hands[0].hands[1].outcome, HandOutcome::STAND);
    assert_eq!(results_of(&short, "Jack").hands_played, 0);
}

#[test]
fn test_start_game() {
    let mut blackjack = BlackJack::create();
    let shoe = blackjack.shoe.clone();
    blackjack.shoe_top = 100;
    let dealer = blackjack.start_game();
    assert_eq!(dealer.name, "Steamboat Dealer");
    assert_eq!(dealer.hand.num_cards(), 0);
    assert_eq!(dealer.hand.outcome, HandOutcome::IN_PLAY);
    assert_eq!(blackjack.shoe_top, 100);
    assert_eq!(blackjack.shoe, shoe);
    assert_eq!(blackjack.num_players(), 2);
    assert_eq!(blackjack.players[0].name, "Jack");
    assert_eq!(blackjack.players[0].num_master_hands(), 1);
    assert_eq!(blackjack.players[1].name, "Jill");
    assert_eq!(blackjack.players[1].num_master_hands(), 2);
    for player in blackjack.players.iter() {
        for master_hand in player.master_hands.iter() {
            assert_eq!(master_hand.HANDS_LIMIT, 4);
            assert_eq!(master_hand.num_hands(), 1);
            assert_eq!(master_hand.hands[0].bet, 2);
            assert_eq!(master_hand.hands[0].num_cards(), 0);
            assert_eq!(master_hand.hands[0].outcome, HandOutcome::IN_PLAY);
            assert_eq!(master_hand.hands[0].from_split, false);
        }
    }
    assert_eq!(blackjack.results.len(), 2);
    assert_eq!(blackjack.results[0].name, "Jack");
    assert_eq!(blackjack.results[1].name, "Jill");

    // more than three quarters dealt: the shoe is shuffled
    blackjack.shoe_top = 235;
    blackjack.start_game();
    assert_eq!(blackjack.shoe_top, 0);
    assert_ne!(blackjack.shoe, shoe);
    assert_eq!(blackjack.shoe.len(), 312);
    assert_eq!(blackjack.results.len(), 2);
}

#[test]
fn test_dealer_shows_natural() {
    let mut blackjack = rigged_table(&[CardRank::TWO; 4]);
    blackjack.set_players_for_game(vec![Player::create("Ann")]);
    blackjack.players[0].master_hands.push(wager_of(&[CardRank::TEN, CardRank::SIX], 2));
    blackjack.players[0].master_hands.push(wager_of(&[CardRank::ACE, CardRank::KING], 2));

    let mut dealer = Dealer::create("Riverboat Dealer");
    dealer.hand.add_card(&spade(CardRank::KING));
    dealer.hand.add_card(&spade(CardRank::NINE));
    assert_eq!(blackjack.dealer_shows_natural(&mut dealer), false);
    assert_eq!(dealer.hand.outcome, HandOutcome::IN_PLAY);
    assert_eq!(blackjack.players[0].master_hands[0].hands[0].outcome, HandOutcome::IN_PLAY);

    let mut dealer = Dealer::create("Riverboat Dealer");
    dealer.hand.add_card(&spade(CardRank::KING));
    dealer.hand.add_card(&spade(CardRank::ACE));
    assert_eq!(blackjack.dealer_shows_natural(&mut dealer), true);
    assert_eq!(dealer.hand.outcome, HandOutcome::DEALER_BLACKJACK);
    assert_eq!(dealer.hand.num_cards(), 2);
    assert_eq!(dealer.name, "Riverboat Dealer");
    for master_hand in blackjack.players[0].master_hands.iter() {
        assert_eq!(master_hand.hands[0].outcome, HandOutcome::STAND);
        assert_eq!(master_hand.hands[0].num_cards(), 2);
        assert_eq!(master_hand.hands[0].bet, 2);
    }
    assert_eq!(blackjack.shoe_top, 0);
}

#[test]
fn test_steps_add_up_to_the_game() {
    let rules = HouseRules::standard();
    let mut whole = BlackJack::create();
    let mut stepped = BlackJack::create();
    for _game in 0..8 {
        let dealer = whole.play_game().unwrap();

        let mut stepped_dealer = stepped.start_game();
        assert_eq!(stepped.deal_hands(&mut stepped_dealer), true);
        let top_card = stepped_dealer.top_card();
        if !stepped.dealer_shows_natural(&mut stepped_dealer) {
            for p in 0..stepped.num_players() {
                for mh in 0..stepped.players[p].num_master_hands() {
                    let mut h: usize = 0;
                    while h < stepped.players[p].master_hands[mh].num_hands() {
                        loop {
                            let (next_top, again, complete) = play_hand_step(
                                &mut stepped.players[p].master_hands[mh],
                                h,
                                &top_card,
                                &stepped.shoe,
                                stepped.shoe_top,
                                &rules,
                            );
                            assert_eq!(complete, true);
                            stepped.shoe_top = next_top;
                            if !again {
                                break;
                            }
                        }
                        h += 1;
                    }
                }
            }
        }
        loop {
            let (next_top, again, complete) = play_dealer_hand_step(
                &mut stepped_dealer.hand,
                &stepped.shoe,
                stepped.shoe_top,
                &rules,
            );
            assert_eq!(complete, true);
            stepped.shoe_top = next_top;
            if !again {
                break;
            }
        }
        stepped.settle_hands(&stepped_dealer.hand, 2, &rules);

        assert_eq!(stepped.shoe, whole.shoe);
        assert_eq!(stepped.shoe_top, whole.shoe_top);
        assert_eq!(stepped_dealer.hand.cards, dealer.hand.cards);
        assert_eq!(stepped_dealer.hand.outcome, dealer.hand.outcome);
        assert_eq!(stepped.stats, whole.stats);
        assert_eq!(stepped.results.len(), whole.results.len());
        for (record, other) in stepped.results.iter().zip(whole.results.iter()) {
            assert_eq!(record.name, other.name);
            assert_eq!(record.results, other.results);
        }
        assert_eq!(stepped.num_players(), whole.num_players());
        for (player, other) in stepped.players.iter().zip(whole.players.iter()) {
            assert_eq!(player.num_master_hands(), other.num_master_hands());
            for (wager, other_wager) in player.master_hands.iter().zip(other.master_hands.iter()) {
                assert_eq!(wager.num_hands(), other_wager.num_hands());
                for (hand, other_hand) in wager.hands.iter().zip(other_wager.hands.iter()) {
                    assert_eq!(hand.cards, other_hand.cards);
                    assert_eq!(hand.bet, other_hand.bet);
                    assert_eq!(hand.outcome, other_hand.outcome);
                    assert_eq!(hand.from_split, other_hand.from_split);
                    assert_ne!(hand.outcome, HandOutcome::IN_PLAY);
                }
            }
        }
    }
}
