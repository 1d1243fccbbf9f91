//! A round at the table: the deal, the turns of the players, the turn of the
//! dealer and the settlement, one after another.

use vstd::prelude::*;

use crate::cards::Card;
use crate::game::deal::{
    spec_deal_to_player, spec_deal_to_players, spec_dealable, spec_player_dealable, spec_wagers,
};
use crate::game::settle::{
    lemma_hands_within_capacity, lemma_room_shrinks, lemma_same_capacity,
    lemma_settle_table_room, spec_capacity_at_table, spec_capacity_of_player, spec_hands_at_table,
    spec_player_settleable, spec_settle_table, spec_settleable, spec_table_settleable,
    spec_wager_settleable, Ledger,
};
use crate::game::turns::{
    play_dealer_hand, spec_play_dealer_hand, spec_play_players, spec_player_sound,
    spec_player_over, spec_same_limits, spec_same_table, spec_sound, spec_stand_all,
    spec_table_in_play, spec_table_over, spec_table_playable, spec_table_sound, spec_wager_over, spec_wager_playable,
    spec_wager_sound, TableTurn,
};
use crate::game::{spec_seat_all, BlackJack, BlackJackPlayerResults, BlackJackView};
use crate::hand::{
    lemma_totals_bounds, spec_countable, DealerHandView, HandOutcome, MasterHandView,
};
use crate::player::{spec_start_wager, Dealer, DealerView, Player, PlayerView};
use crate::rules::{HouseRules, HouseRulesView, FORCE_RESHUFFLE};

verus! {

/// Whether a wager is as a bet opens it and a round can start on it: it has
/// room for a hand and has one, which is empty, in play, not out of a split,
/// and carries a bet that still fits a result when doubled.
pub open spec fn spec_fresh_wager(master_hand: MasterHandView) -> bool {
    &&& master_hand.hands_limit >= 1
    &&& master_hand.hands.len() == 1
    &&& master_hand.hands[0].cards.len() == 0
    &&& !master_hand.hands[0].from_split
    &&& master_hand.hands[0].outcome == HandOutcome::IN_PLAY
    &&& master_hand.hands[0].bet * 2 <= i32::MAX
}

/// Whether every wager on the table is fresh.
pub open spec fn spec_fresh_table(players: Seq<PlayerView>) -> bool {
    forall|p: int, mh: int|
        0 <= p < players.len() && 0 <= mh < players[p].master_hands.len() ==> spec_fresh_wager(
            #[trigger] players[p].master_hands[mh],
        )
}

/// Whether a wager is as the deal of a round leaves a fresh one: its one
/// hand has two cards.
pub open spec fn spec_dealt_wager(master_hand: MasterHandView) -> bool {
    &&& master_hand.hands_limit >= 1
    &&& master_hand.hands.len() == 1
    &&& master_hand.hands[0].cards.len() == 2
    &&& !master_hand.hands[0].from_split
    &&& master_hand.hands[0].outcome == HandOutcome::IN_PLAY
    &&& master_hand.hands[0].bet * 2 <= i32::MAX
}

/// Whether every wager on the table is as the deal leaves it.
pub open spec fn spec_dealt_table(players: Seq<PlayerView>) -> bool {
    forall|p: int, mh: int|
        0 <= p < players.len() && 0 <= mh < players[p].master_hands.len() ==> spec_dealt_wager(
            #[trigger] players[p].master_hands[mh],
        )
}

/// How a round ended: the players and the dealer's hand as it left them, the
/// place in the shoe, the books, and whether the round came to its end. A
/// round that needs a card from a shoe that has none left stops where it is,
/// settles nothing and is not complete.
pub struct RoundView {
    pub players: Seq<PlayerView>,
    pub dealer: DealerHandView,
    pub shoe_top: nat,
    pub ledger: Ledger,
    pub complete: bool,
}

/// A round on a fresh table with the cards of the shoe from `shoe_top` on.
///
/// Two cards are dealt to each wager and to the dealer, one at a time around
/// the table; where the shoe has not that many, nothing happens. If the
/// dealer shows a natural, the dealer's hand is marked so and every player
/// stands on every hand; else the players take their turns against the
/// dealer's first card. Then the dealer takes a turn, which leaves a hand
/// that is over as it is. At last every hand is settled against the
/// dealer's hand and booked.
pub open spec fn spec_round(
    players: Seq<PlayerView>,
    dealer: DealerHandView,
    shoe: Seq<Card>,
    shoe_top: nat,
    ledger: Ledger,
    initial_bet: u32,
    rules: HouseRulesView,
) -> RoundView {
    let wagers = spec_wagers(players, players.len());
    if shoe_top + 2 * wagers + 2 > shoe.len() {
        RoundView {
            players: players,
            dealer: dealer,
            shoe_top: shoe_top,
            ledger: ledger,
            complete: false,
        }
    } else {
        let dealt = spec_deal_to_players(
            spec_deal_to_players(players, shoe, shoe_top),
            shoe,
            shoe_top + wagers + 1,
        );
        let hand = dealer.with_card(shoe[(shoe_top + wagers) as int]).with_card(
            shoe[(shoe_top + 2 * wagers + 1) as int],
        );
        let dealt_top = shoe_top + 2 * wagers + 2;
        let shown = if hand.is_natural() {
            DealerHandView { outcome: HandOutcome::DEALER_BLACKJACK, ..hand }
        } else {
            hand
        };
        let turn = if hand.is_natural() {
            TableTurn { players: spec_stand_all(dealt), shoe_top: dealt_top, complete: true }
        } else {
            spec_play_players(dealt, dealt.len(), hand.cards[0].rank, shoe, dealt_top, rules)
        };
        if !turn.complete {
            RoundView {
                players: turn.players,
                dealer: shown,
                shoe_top: turn.shoe_top,
                ledger: ledger,
                complete: false,
            }
        } else {
            let dealer_turn = spec_play_dealer_hand(shown, shoe, turn.shoe_top, rules);
            RoundView {
                players: turn.players,
                dealer: dealer_turn.hand,
                shoe_top: dealer_turn.shoe_top,
                ledger: if dealer_turn.complete {
                    spec_settle_table(
                        ledger,
                        turn.players,
                        turn.players.len(),
                        dealer_turn.hand,
                        initial_bet,
                        rules,
                    )
                } else {
                    ledger
                },
                complete: dealer_turn.complete,
            }
        }
    }
}

/// One card dealt around a table leaves every wager with the hands it had,
/// but for the first, which has the card more.
pub proof fn lemma_deal_to_players(
    players: Seq<PlayerView>,
    shoe: Seq<Card>,
    shoe_top: nat,
    p: int,
    mh: int,
)
    requires
        0 <= p < players.len(),
        0 <= mh < players[p].master_hands.len(),
        players[p].master_hands[mh].hands.len() > 0,
    ensures
        spec_deal_to_players(players, shoe, shoe_top).len() == players.len(),
        spec_deal_to_players(players, shoe, shoe_top)[p].name == players[p].name,
        spec_deal_to_players(players, shoe, shoe_top)[p].master_hands.len()
            == players[p].master_hands.len(),
        spec_deal_to_players(players, shoe, shoe_top)[p].master_hands[mh].hands_limit
            == players[p].master_hands[mh].hands_limit,
        spec_deal_to_players(players, shoe, shoe_top)[p].master_hands[mh].hands.len()
            == players[p].master_hands[mh].hands.len(),
        spec_deal_to_players(players, shoe, shoe_top)[p].master_hands[mh].hands[0]
            == players[p].master_hands[mh].hands[0].with_card(
            shoe[shoe_top + spec_wagers(players, p as nat) + mh],
        ),
{
    let dealt = spec_deal_to_players(players, shoe, shoe_top);
    assert(dealt[p] == spec_deal_to_player(
        players[p],
        shoe,
        shoe_top + spec_wagers(players, p as nat),
    ));
}

/// The deal of a round leaves a fresh table dealt, with the wagers and
/// limits it had.
pub proof fn lemma_deal_fresh(
    players: Seq<PlayerView>,
    shoe: Seq<Card>,
    shoe_top: nat,
    next_top: nat,
)
    requires
        spec_fresh_table(players),
    ensures
        spec_dealt_table(
            spec_deal_to_players(spec_deal_to_players(players, shoe, shoe_top), shoe, next_top),
        ),
        spec_same_table(
            players,
            spec_deal_to_players(spec_deal_to_players(players, shoe, shoe_top), shoe, next_top),
        ),
{
    let once = spec_deal_to_players(players, shoe, shoe_top);
    let twice = spec_deal_to_players(once, shoe, next_top);
    assert forall|p: int, mh: int|
        0 <= p < twice.len() && 0 <= mh < twice[p].master_hands.len() implies spec_dealt_wager(
        #[trigger] twice[p].master_hands[mh],
    ) by {
        assert(spec_fresh_wager(players[p].master_hands[mh]));
        lemma_deal_to_players(players, shoe, shoe_top, p, mh);
        lemma_deal_to_players(once, shoe, next_top, p, mh);
    }
    assert forall|p: int| 0 <= p < players.len() implies spec_same_limits(
        players[p],
        #[trigger] twice[p],
    ) by {
        assert forall|mh: int| 0 <= mh < players[p].master_hands.len() implies (
        #[trigger] twice[p].master_hands[mh]).hands_limit
            == players[p].master_hands[mh].hands_limit by {
            assert(spec_fresh_wager(players[p].master_hands[mh]));
            lemma_deal_to_players(players, shoe, shoe_top, p, mh);
            lemma_deal_to_players(once, shoe, next_top, p, mh);
        }
        if players[p].master_hands.len() == 0 {
            assert(once[p] == spec_deal_to_player(
                players[p],
                shoe,
                shoe_top + spec_wagers(players, p as nat),
            ));
            assert(twice[p] == spec_deal_to_player(
                once[p],
                shoe,
                next_top + spec_wagers(once, p as nat),
            ));
        } else {
            assert(spec_fresh_wager(players[p].master_hands[0]));
            lemma_deal_to_players(players, shoe, shoe_top, p, 0);
            lemma_deal_to_players(once, shoe, next_top, p, 0);
        }
    }
}

/// A dealt table is sound, and every hand on it can be played and counted.
pub proof fn lemma_dealt_is_sound(players: Seq<PlayerView>)
    requires
        spec_dealt_table(players),
    ensures
        spec_table_sound(players),
        spec_table_playable(players),
        spec_dealable(players),
        forall|p: int, mh: int, h: int|
            0 <= p < players.len() && 0 <= mh < players[p].master_hands.len() && 0 <= h
                < players[p].master_hands[mh].hands.len() ==> spec_countable(
                (#[trigger] players[p].master_hands[mh].hands[h]).cards,
            ),
{
    assert forall|p: int, mh: int|
        0 <= p < players.len() && 0 <= mh < players[p].master_hands.len() implies {
        &&& spec_wager_sound(#[trigger] players[p].master_hands[mh])
        &&& spec_wager_playable(players[p].master_hands[mh])
        &&& players[p].master_hands[mh].hands.len() > 0
        &&& spec_countable(players[p].master_hands[mh].hands[0].cards)
    } by {
        let wager = players[p].master_hands[mh];
        assert(spec_dealt_wager(wager));
        lemma_totals_bounds(wager.hands[0].cards);
        assert(spec_sound(wager.hands[0]));
    }
}

/// Where every player stands on every hand, a sound table stays sound and
/// keeps its wagers and limits.
pub proof fn lemma_stand_all_sound(players: Seq<PlayerView>)
    requires
        spec_table_sound(players),
    ensures
        spec_table_sound(spec_stand_all(players)),
        spec_same_table(players, spec_stand_all(players)),
{
    let stood = spec_stand_all(players);
    assert forall|p: int| 0 <= p < stood.len() implies spec_player_sound(
        #[trigger] stood[p],
    ) by {
        assert(spec_player_sound(players[p]));
        assert forall|mh: int|
            0 <= mh < stood[p].master_hands.len() implies spec_wager_sound(
            #[trigger] stood[p].master_hands[mh],
        ) by {
            let before = players[p].master_hands[mh];
            let after = stood[p].master_hands[mh];
            assert(spec_wager_sound(before));
            assert forall|h: int| 0 <= h < after.hands.len() implies spec_sound(
                #[trigger] after.hands[h],
            ) by {
                assert(spec_sound(before.hands[h]));
            }
        }
    }
    assert forall|p: int| 0 <= p < players.len() implies spec_same_limits(
        players[p],
        #[trigger] stood[p],
    ) by {}
}

/// Where every player stands on every hand, every hand on the table is
/// over.
pub proof fn lemma_stand_all_over(players: Seq<PlayerView>)
    ensures
        spec_table_over(spec_stand_all(players)),
{
    let stood = spec_stand_all(players);
    assert forall|p: int| 0 <= p < stood.len() implies spec_player_over(#[trigger] stood[p]) by {
        assert forall|mh: int| 0 <= mh < stood[p].master_hands.len() implies spec_wager_over(
            #[trigger] stood[p].master_hands[mh],
        ) by {}
    }
}

/// A sound table is one whose hands can all be settled, and it keeps to the
/// limits of its wagers.
pub proof fn lemma_sound_is_settleable(players: Seq<PlayerView>)
    requires
        spec_table_sound(players),
    ensures
        spec_table_settleable(players),
        forall|p: int, mh: int|
            0 <= p < players.len() && 0 <= mh < players[p].master_hands.len() ==> (
            #[trigger] players[p].master_hands[mh]).hands.len()
                <= players[p].master_hands[mh].hands_limit,
{
    assert forall|p: int| 0 <= p < players.len() implies spec_player_settleable(
        #[trigger] players[p],
    ) by {
        assert(spec_player_sound(players[p]));
        assert forall|mh: int|
            0 <= mh
                < players[p].master_hands.len() implies spec_wager_settleable(
            #[trigger] players[p].master_hands[mh],
        ) by {
            let wager = players[p].master_hands[mh];
            assert(spec_wager_sound(wager));
            assert forall|h: int| 0 <= h < wager.hands.len() implies spec_settleable(
                #[trigger] wager.hands[h],
            ) by {
                assert(spec_sound(wager.hands[h]));
            }
        }
    }
    assert forall|p: int, mh: int|
        0 <= p < players.len() && 0 <= mh < players[p].master_hands.len() implies (
    #[trigger] players[p].master_hands[mh]).hands.len()
        <= players[p].master_hands[mh].hands_limit by {
        assert(spec_player_sound(players[p]));
        assert(spec_wager_sound(players[p].master_hands[mh]));
    }
}

/// Players whose hands can all be counted are well formed.
pub proof fn lemma_countable_is_wf(players: Seq<Player>)
    requires
        forall|p: int, mh: int, h: int|
            0 <= p < players.len() && 0 <= mh < players[p]@.master_hands.len() && 0 <= h
                < players[p]@.master_hands[mh].hands.len() ==> spec_countable(
                (#[trigger] players[p]@.master_hands[mh].hands[h]).cards,
            ),
    ensures
        forall|p: int| 0 <= p < players.len() ==> (#[trigger] players[p]).wf(),
{
    assert forall|p: int| 0 <= p < players.len() implies (#[trigger] players[p]).wf() by {
        let player = players[p];
        assert forall|mh: int| 0 <= mh < player.master_hands@.len() implies (
        #[trigger] player.master_hands@[mh]).wf() by {
            let wager = player.master_hands@[mh];
            assert(player@.master_hands[mh] == wager@);
            assert forall|h: int| 0 <= h < wager.hands@.len() implies (#[trigger] wager.hands@[h]).wf() by {
                assert(wager@.hands[h] == wager.hands@[h]@);
                assert(spec_countable(players[p]@.master_hands[mh].hands[h].cards));
            }
        }
    }
}

/// Books that nothing was booked on keep their room.
pub proof fn lemma_unbooked_room(ledger: Ledger, capacity: nat)
    ensures
        forall|room: nat| #[trigger]
            ledger.has_room(room) && room >= capacity ==> ledger.has_room(
                (room - capacity) as nat,
            ),
{
    assert forall|room: nat| #[trigger] ledger.has_room(room) && room >= capacity implies ledger.has_room(
        (room - capacity) as nat,
    ) by {
        lemma_room_shrinks(ledger, room, (room - capacity) as nat);
    }
}

impl BlackJack {
    /// Looks at the dealer's hand after the deal, and says whether it is a
    /// natural. If it is, the hand is marked so and every player stands on
    /// every hand: nobody draws against a dealer's natural. The hands of
    /// the players are all in play.
    pub fn dealer_shows_natural(&mut self, dealer: &mut Dealer) -> (natural: bool)
        requires
            old(dealer).hand.wf(),
            spec_table_in_play(old(self)@.players),
        ensures
            natural == old(dealer)@.hand.is_natural(),
            natural ==> final(dealer)@ == (DealerView {
                hand: DealerHandView {
                    outcome: HandOutcome::DEALER_BLACKJACK,
                    ..old(dealer)@.hand
                },
                ..old(dealer)@
            }),
            natural ==> final(self)@.players == spec_stand_all(old(self)@.players),
            !natural ==> final(dealer)@ == old(dealer)@,
            !natural ==> final(self).players == old(self).players,
            final(dealer).hand.wf(),
            final(self).players@.len() == old(self).players@.len(),
            old(self).wf() ==> final(self).wf(),
            final(self).shoe == old(self).shoe,
            final(self).shoe_top == old(self).shoe_top,
            final(self).results == old(self).results,
            final(self).stats == old(self).stats,
    {
        if dealer.hand.is_natural() {
            dealer.hand.outcome = HandOutcome::DEALER_BLACKJACK;
            self.stand_all();
            true
        } else {
            false
        }
    }

    /// Plays a round on a fresh table under the given rules, and says
    /// whether the round came to its end. `initial_bet` is the bet that the
    /// wagers were opened with.
    ///
    /// The books need room for as many hands as the wagers can fan out to.
    pub fn play_round(&mut self, dealer: &mut Dealer, initial_bet: u32, rules: &HouseRules) -> (complete:
        bool)
        requires
            old(self).wf(),
            rules.wf(),
            initial_bet * 2 <= u32::MAX,
            spec_fresh_table(old(self)@.players),
            old(dealer)@.hand.cards.len() == 0,
            old(dealer)@.hand.outcome == HandOutcome::IN_PLAY,
            old(self)@.ledger().has_room(
                spec_capacity_at_table(old(self)@.players, old(self)@.players.len()),
            ),
        ensures
            final(self)@.players == spec_round(
                old(self)@.players,
                old(dealer)@.hand,
                old(self)@.shoe,
                old(self)@.shoe_top,
                old(self)@.ledger(),
                initial_bet,
                rules@,
            ).players,
            final(dealer)@.hand == spec_round(
                old(self)@.players,
                old(dealer)@.hand,
                old(self)@.shoe,
                old(self)@.shoe_top,
                old(self)@.ledger(),
                initial_bet,
                rules@,
            ).dealer,
            final(self)@.shoe_top == spec_round(
                old(self)@.players,
                old(dealer)@.hand,
                old(self)@.shoe,
                old(self)@.shoe_top,
                old(self)@.ledger(),
                initial_bet,
                rules@,
            ).shoe_top,
            final(self)@.ledger() == spec_round(
                old(self)@.players,
                old(dealer)@.hand,
                old(self)@.shoe,
                old(self)@.shoe_top,
                old(self)@.ledger(),
                initial_bet,
                rules@,
            ).ledger,
            complete == spec_round(
                old(self)@.players,
                old(dealer)@.hand,
                old(self)@.shoe,
                old(self)@.shoe_top,
                old(self)@.ledger(),
                initial_bet,
                rules@,
            ).complete,
            complete ==> spec_table_over(final(self)@.players),
            complete ==> final(dealer)@.hand.is_hand_over(),
            final(dealer)@.name == old(dealer)@.name,
            final(self).wf(),
            forall|room: nat| #[trigger]
                old(self)@.ledger().has_room(room) && room >= spec_capacity_at_table(
                    old(self)@.players,
                    old(self)@.players.len(),
                ) ==> final(self)@.ledger().has_room(
                    (room - spec_capacity_at_table(old(self)@.players, old(self)@.players.len()))
                        as nat,
                ),
            final(self).shoe == old(self).shoe,
            final(self)@.shoe_top <= final(self)@.shoe.len(),
            final(self).players@.len() == old(self).players@.len(),
    {
        let ghost table = self@.players;
        let ghost wagers = spec_wagers(table, table.len());
        proof {
            assert(spec_dealable(table)) by {
                assert forall|p: int| 0 <= p < table.len() implies spec_player_dealable(
                    #[trigger] table[p],
                ) by {
                    assert forall|mh: int| 0 <= mh < table[p].master_hands.len() implies (
                    #[trigger] table[p].master_hands[mh]).hands.len() > 0 by {
                        assert(spec_fresh_wager(table[p].master_hands[mh]));
                    }
                }
            }
        }
        let ghost books = self@.ledger();
        let ghost capacity = spec_capacity_at_table(table, table.len());
        if !self.deal_hands(dealer) {
            proof {
                lemma_unbooked_room(books, capacity);
            }
            return false;
        }
        let ghost dealt = self@.players;
        let ghost dealt_top = self@.shoe_top;
        let ghost hand = dealer@.hand;
        proof {
            lemma_deal_fresh(table, self@.shoe, old(self)@.shoe_top, old(self)@.shoe_top + wagers + 1);
            lemma_dealt_is_sound(dealt);
            assert forall|p: int, mh: int, h: int|
                0 <= p < self.players@.len() && 0 <= mh < self.players@[p]@.master_hands.len() && 0
                    <= h < self.players@[p]@.master_hands[mh].hands.len() implies spec_countable(
                (#[trigger] self.players@[p]@.master_hands[mh].hands[h]).cards,
            ) by {
                assert(self.players@[p]@ == dealt[p]);
                assert(spec_countable(dealt[p].master_hands[mh].hands[h].cards));
            }
            lemma_countable_is_wf(self.players@);
            lemma_totals_bounds(hand.cards);
        }
        if self.dealer_shows_natural(dealer) {
            proof {
                lemma_stand_all_sound(dealt);
                lemma_stand_all_over(dealt);
            }
        } else {
            let dealer_top_card = dealer.top_card();
            if !self.play_players(&dealer_top_card, rules) {
                proof {
                    lemma_unbooked_room(books, capacity);
                }
                return false;
            }
        }
        let ghost played = self@.players;
        let (next_top, complete) = play_dealer_hand(
            &mut dealer.hand,
            &self.shoe,
            self.shoe_top,
            rules,
        );
        self.shoe_top = next_top;
        if !complete {
            proof {
                lemma_unbooked_room(books, capacity);
            }
            return false;
        }
        proof {
            lemma_sound_is_settleable(played);
            lemma_hands_within_capacity(played, played.len());
            assert(spec_same_table(table, played)) by {
                assert forall|p: int| 0 <= p < table.len() implies spec_same_limits(
                    table[p],
                    #[trigger] played[p],
                ) by {
                    assert(spec_same_limits(table[p], dealt[p]));
                    assert(spec_same_limits(dealt[p], played[p]));
                }
            }
            assert forall|p: int, mh: int|
                0 <= p < table.len() && 0 <= mh < table[p].master_hands.len() implies (
            #[trigger] played[p].master_hands[mh]).hands_limit
                == table[p].master_hands[mh].hands_limit by {
                assert(spec_same_limits(table[p], played[p]));
            }
            assert forall|p: int| 0 <= p < table.len() implies (#[trigger] played[p]).master_hands.len()
                == table[p].master_hands.len() by {
                assert(spec_same_limits(table[p], played[p]));
            }
            lemma_same_capacity(table, played, table.len());
            lemma_room_shrinks(
                self@.ledger(),
                spec_capacity_at_table(table, table.len()),
                spec_hands_at_table(played, played.len()),
            );
        }
        self.settle_hands(&dealer.hand, initial_bet, rules);
        proof {
            let hands = spec_hands_at_table(played, played.len());
            assert forall|room: nat| #[trigger]
                books.has_room(room) && room >= capacity implies self@.ledger().has_room(
                (room - capacity) as nat,
            ) by {
                lemma_settle_table_room(
                    books,
                    played,
                    played.len(),
                    dealer@.hand,
                    initial_bet,
                    rules@,
                    room,
                );
                lemma_room_shrinks(self@.ledger(), (room - hands) as nat, (room - capacity) as nat);
            }
        }
        true
    }
}

/// The bet that every wager of a game is opened with.
pub const INITIAL_BET: u32 = 2;

/// The players of a game before the deal: Jack with one wager and Jill with
/// two, each wager opened with the initial bet.
pub open spec fn spec_game_players() -> Seq<PlayerView> {
    seq![
        PlayerView { master_hands: seq![spec_start_wager(INITIAL_BET)], name: "Jack"@ },
        PlayerView {
            master_hands: seq![spec_start_wager(INITIAL_BET), spec_start_wager(INITIAL_BET)],
            name: "Jill"@,
        },
    ]
}

/// The most hands that the wagers of a game can fan out to: three wagers of
/// up to four hands.
pub const GAME_CAPACITY: usize = 12;

/// Seating players leaves the room of the books as it is: the records that
/// were there stay, and a new one is empty.
pub proof fn lemma_seat_all_room(
    results: Seq<(Seq<char>, BlackJackPlayerResults)>,
    players: Seq<PlayerView>,
    count: nat,
    room: nat,
)
    requires
        room <= 0xffff_ffff,
        forall|i: int| 0 <= i < results.len() ==> (#[trigger] results[i]).1.has_room(room),
    ensures
        forall|i: int|
            0 <= i < spec_seat_all(results, players, count).len() ==> (#[trigger] spec_seat_all(
                results,
                players,
                count,
            )[i]).1.has_room(room),
    decreases count,
{
    if count > 0 {
        lemma_seat_all_room(results, players, (count - 1) as nat, room);
        let before = spec_seat_all(results, players, (count - 1) as nat);
        let after = spec_seat_all(results, players, count);
        assert forall|i: int| 0 <= i < after.len() implies (#[trigger] after[i]).1.has_room(room) by {
            if i < before.len() {
                assert(before[i].1.has_room(room));
            }
        }
    }
}

impl BlackJack {
    /// Sets the table for a game: the shoe is shuffled if more than three
    /// quarters of it have been dealt, and Jack sits down with one wager and
    /// Jill with two. Returns the dealer of the game, with an empty hand.
    pub fn start_game(&mut self) -> (dealer: Dealer)
        ensures
            final(self)@.shoe.to_multiset() == old(self)@.shoe.to_multiset(),
            final(self)@.shoe.len() == old(self)@.shoe.len(),
            old(self)@.shoe_top <= FORCE_RESHUFFLE ==> final(self)@.shoe == old(self)@.shoe,
            final(self)@.shoe_top == spec_game_start(old(self)@),
            final(self)@.players == spec_game_players(),
            final(self)@.ledger() == spec_game_ledger(old(self)@),
            old(self).wf() ==> final(self).wf(),
            forall|room: nat| #[trigger]
                old(self)@.ledger().has_room(room) && room <= 0xffff_ffff
                    ==> final(self)@.ledger().has_room(room),
            dealer.hand.wf(),
            dealer@ == (DealerView {
                hand: DealerHandView { cards: Seq::empty(), outcome: HandOutcome::IN_PLAY },
                name: "Steamboat Dealer"@,
            }),
    {
        if self.shoe_top > FORCE_RESHUFFLE {
            self.reshuffle_shoe();
        }
        let dealer = Dealer::create("Steamboat Dealer");

        let mut players: Vec<Player> = Vec::new();
        players.push(Player::create("Jack"));
        players.push(Player::create("Jill"));
        let ghost seated = players@.map_values(|player: Player| player@);
        self.set_players_for_game(players);

        let initial_bet: u32 = INITIAL_BET;
        let mut jack_bets: Vec<u32> = Vec::new();
        jack_bets.push(initial_bet);
        let mut jill_bets: Vec<u32> = Vec::new();
        jill_bets.push(initial_bet);
        jill_bets.push(initial_bet);
        self.players[0].set_game_bets(&jack_bets);
        self.players[1].set_game_bets(&jill_bets);

        proof {
            let table = self@.players;
            assert(table[0] == self.players@[0]@);
            assert(table[1] == self.players@[1]@);
            assert(table[0].master_hands =~= seq![spec_start_wager(INITIAL_BET)]);
            assert(table[1].master_hands =~= seq![
                spec_start_wager(INITIAL_BET),
                spec_start_wager(INITIAL_BET),
            ]);
            assert(table =~= spec_game_players());
            assert(seated[0].name == table[0].name);
            assert(seated[1].name == table[1].name);
            lemma_seat_all_names(old(self)@.results, seated, table, 2);
            assert forall|room: nat| #[trigger]
                old(self)@.ledger().has_room(room) && room
                    <= 0xffff_ffff implies self@.ledger().has_room(room) by {
                assert forall|i: int| 0 <= i < old(self)@.results.len() implies (#[trigger] old(
                    self,
                )@.results[i]).1.has_room(room) by {
                    assert(old(self)@.ledger().results[i].1.has_room(room));
                }
                lemma_seat_all_room(old(self)@.results, table, 2, room);
            }
        }
        dealer
    }

    /// Plays one game: the table is set as `start_game` sets it, and a
    /// round is played under the standard rules. Returns the dealer with the
    /// hand of the round, or nothing if the round stopped for want of
    /// cards. After a round that came to its end, every hand on the table
    /// is over.
    ///
    /// The books need room for the hands of a game.
    pub fn play_game(&mut self) -> (dealer: Option<Dealer>)
        requires
            old(self).wf(),
            old(self)@.ledger().has_room(GAME_CAPACITY as nat),
        ensures
            final(self)@.shoe.to_multiset() == old(self)@.shoe.to_multiset(),
            old(self)@.shoe_top <= FORCE_RESHUFFLE ==> final(self)@.shoe == old(self)@.shoe,
            final(self)@.players == spec_game(old(self)@, final(self)@.shoe).players,
            final(self)@.shoe_top == spec_game(old(self)@, final(self)@.shoe).shoe_top,
            final(self)@.ledger() == spec_game(old(self)@, final(self)@.shoe).ledger,
            dealer is Some <==> spec_game(old(self)@, final(self)@.shoe).complete,
            dealer matches Some(dealer) ==> dealer@ == (DealerView {
                hand: spec_game(old(self)@, final(self)@.shoe).dealer,
                name: "Steamboat Dealer"@,
            }),
            dealer matches Some(dealer) ==> spec_table_over(final(self)@.players)
                && dealer@.hand.is_hand_over(),
            final(self).wf(),
            forall|room: nat| #[trigger]
                old(self)@.ledger().has_room(room) && GAME_CAPACITY <= room <= 0xffff_ffff
                    ==> final(self)@.ledger().has_room((room - GAME_CAPACITY) as nat),
    {
        let mut dealer = self.start_game();
        let rules = HouseRules::standard();
        proof {
            lemma_game_capacity();
        }
        if self.play_round(&mut dealer, INITIAL_BET, &rules) {
            Some(dealer)
        } else {
            None
        }
    }
}

/// The place in the shoe from which a game is dealt: the first card after a
/// shuffle, which is due once more than three quarters of the shoe have been
/// dealt, and else the place where the shoe stands.
pub open spec fn spec_game_start(table: BlackJackView) -> nat {
    if table.shoe_top > FORCE_RESHUFFLE {
        0
    } else {
        table.shoe_top
    }
}

/// The table when a game starts: the books after Jack and Jill sat down.
pub open spec fn spec_game_ledger(table: BlackJackView) -> Ledger {
    Ledger { results: spec_seat_all(table.results, spec_game_players(), 2), stats: table.stats }
}

/// A game on the table as it was, with the shoe as it is after the shuffle
/// that the game may have started with.
pub open spec fn spec_game(table: BlackJackView, shoe: Seq<Card>) -> RoundView {
    spec_round(
        spec_game_players(),
        DealerHandView { cards: Seq::empty(), outcome: HandOutcome::IN_PLAY },
        shoe,
        spec_game_start(table),
        spec_game_ledger(table),
        INITIAL_BET,
        HouseRulesView::standard(),
    )
}

/// Only the names of the players matter when they are seated.
pub proof fn lemma_seat_all_names(
    results: Seq<(Seq<char>, BlackJackPlayerResults)>,
    players: Seq<PlayerView>,
    others: Seq<PlayerView>,
    count: nat,
)
    requires
        forall|i: int| 0 <= i < count ==> (#[trigger] players[i]).name == others[i].name,
    ensures
        spec_seat_all(results, players, count) == spec_seat_all(results, others, count),
    decreases count,
{
    if count > 0 {
        lemma_seat_all_names(results, players, others, (count - 1) as nat);
        assert(players[count - 1].name == others[count - 1].name);
    }
}

/// The wagers of a game are fresh and can fan out to twelve hands.
pub proof fn lemma_game_capacity()
    ensures
        spec_fresh_table(spec_game_players()),
        spec_capacity_at_table(spec_game_players(), 2) == GAME_CAPACITY,
{
    let players = spec_game_players();
    reveal_with_fuel(spec_capacity_at_table, 3);
    reveal_with_fuel(spec_capacity_of_player, 3);
    assert(spec_capacity_of_player(players[0], 1) == 4);
    assert(spec_capacity_of_player(players[1], 2) == 8);
}

} // verus!
