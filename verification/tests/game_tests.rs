use blackjack::game::BlackJack;
use blackjack::player;
use blackjack::rules;

#[test]
fn test_blackjack_create() {
    let blackjack: BlackJack = BlackJack::create();
    assert_eq!(blackjack.num_players(), 0);
    assert_eq!(blackjack.shoe.len(), 52 * rules::DECKS_IN_SHOE);
    assert_eq!(blackjack.shoe_top, 0);
}

#[test]
fn test_blackjack_set_players_for_game() {
    let mut blackjack: BlackJack = BlackJack::create();

    let players: Vec<player::Player> = vec![
        player::Player::create("Jack"),
        player::Player::create("Jill"),
    ];
    blackjack.set_players_for_game(players);
    assert_eq!(blackjack.num_players(), 2);
}

#[test]
fn test_blackjack_set_game_bets() {
    let mut blackjack: BlackJack = BlackJack::create();

    let players: Vec<player::Player> = vec![
        player::Player::create("Jack"),
        player::Player::create("Jill"),
    ];
    blackjack.set_players_for_game(players);

    let initial_bet: u32 = 100;
    blackjack.players[0].set_game_bets(&vec![initial_bet, ]);
    blackjack.players[1].set_game_bets(&vec![initial_bet, initial_bet]);
    assert_eq!(blackjack.players[0].num_master_hands(), 1);
    assert_eq!(blackjack.players[1].num_master_hands(), 2);
}
