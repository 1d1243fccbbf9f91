//! The settlement of a round: what each hand wins or loses against the
//! dealer's hand, and how that is booked.

use vstd::prelude::*;

use crate::game::{
    lemma_find, spec_record, BlackJack, BlackJackPlayerResults, BlackJackStats, BlackJackView,
};
use crate::hand::{
    DealerHand, DealerHandView, HandOutcome, HandView, MasterHandView, PlayerHand,
};
use crate::player::PlayerView;
use crate::rules::{HouseRules, HouseRulesView};

verus! {

/// What a natural wins on this bet: the bet times the payout ratio of the
/// rules, rounded down, and no more than a result can hold.
pub open spec fn spec_natural_payout(bet: u32, rules: HouseRulesView) -> int {
    let payout = (bet * rules.natural_blackjack_payout_numerator)
        / rules.natural_blackjack_payout_denominator as int;
    if payout > i32::MAX {
        i32::MAX as int
    } else {
        payout
    }
}

/// What a player's hand wins (above zero) or loses (below zero) against the
/// dealer's hand.
///
/// Against a dealer's natural a natural is a push and every other hand
/// loses its bet. Else a hand that is bust or surrendered loses what is left
/// of its bet; a natural wins the payout of the rules; against a dealer who
/// is bust the hand wins its bet; and else the higher total wins the bet,
/// equal totals being a push.
pub open spec fn spec_settle(hand: HandView, dealer: DealerHandView, rules: HouseRulesView)
    -> int {
    if dealer.outcome == HandOutcome::DEALER_BLACKJACK {
        if hand.is_natural() {
            0
        } else {
            -(hand.bet as int)
        }
    } else if hand.is_bust() {
        -(hand.bet as int)
    } else if hand.outcome == HandOutcome::SURRENDER {
        -(hand.bet as int)
    } else if hand.is_natural() {
        spec_natural_payout(hand.bet, rules)
    } else if dealer.is_bust() {
        hand.bet as int
    } else if hand.count() < dealer.count() {
        -(hand.bet as int)
    } else if hand.count() > dealer.count() {
        hand.bet as int
    } else {
        0
    }
}

/// What a natural wins on this bet under the given rules.
pub fn natural_payout(bet: u32, rules: &HouseRules) -> (payout: i32)
    requires
        rules.wf(),
    ensures
        payout == spec_natural_payout(bet, rules@),
        payout >= 0,
{
    assert(bet * rules.natural_blackjack_payout_numerator <= 0xffff_ffff * 0xffff_ffff)
        by (nonlinear_arith)
        requires
            0 <= bet <= 0xffff_ffff,
            0 <= rules.natural_blackjack_payout_numerator <= 0xffff_ffff,
    ;
    let product: u64 = (bet as u64) * (rules.natural_blackjack_payout_numerator as u64);
    let payout: u64 = product / (rules.natural_blackjack_payout_denominator as u64);
    if payout > 0x7fff_ffff {
        0x7fff_ffff
    } else {
        payout as i32
    }
}

/// What the player's hand wins or loses against the dealer's hand under the
/// given rules.
pub fn settle_hand(player_hand: &PlayerHand, dealer_hand: &DealerHand, rules: &HouseRules) -> (result:
    i32)
    requires
        player_hand.wf(),
        dealer_hand.wf(),
        rules.wf(),
        player_hand@.bet <= i32::MAX,
    ensures
        result == spec_settle(player_hand@, dealer_hand@, rules@),
        result > i32::MIN,
{
    let bet: i32 = player_hand.bet as i32;
    if dealer_hand.outcome == HandOutcome::DEALER_BLACKJACK {
        if player_hand.is_natural() {
            0
        } else {
            -bet
        }
    } else if player_hand.is_bust() {
        -bet
    } else if player_hand.is_surrender() {
        -bet
    } else if player_hand.is_natural() {
        natural_payout(player_hand.bet, rules)
    } else if dealer_hand.is_bust() {
        bet
    } else if player_hand.count() < dealer_hand.count() {
        -bet
    } else if player_hand.count() > dealer_hand.count() {
        bet
    } else {
        0
    }
}

/// The books of the table: the records of the players and the counts of
/// the special plays.
pub struct Ledger {
    pub results: Seq<(Seq<char>, BlackJackPlayerResults)>,
    pub stats: BlackJackStats,
}

impl Ledger {
    /// The books after the result of one hand of the player of that name
    /// was booked.
    pub open spec fn book(
        self,
        name: Seq<char>,
        hand: HandView,
        hand_index: nat,
        initial_bet: u32,
        result: i32,
    ) -> Ledger {
        Ledger {
            results: spec_record(self.results, name, result),
            stats: self.stats.count(hand, hand_index, initial_bet, result),
        }
    }

    /// Every counter can take `hands` more hands.
    pub open spec fn has_room(self, hands: nat) -> bool {
        &&& self.stats.has_room(hands)
        &&& forall|i: int|
            0 <= i < self.results.len() ==> (#[trigger] self.results[i]).1.has_room(hands)
    }
}

impl BlackJackView {
    /// The books of the table.
    pub open spec fn ledger(self) -> Ledger {
        Ledger { results: self.results, stats: self.stats }
    }
}

/// The books after the first `count` hands of a wager were settled against
/// the dealer's hand, one hand after another.
pub open spec fn spec_settle_wager(
    ledger: Ledger,
    name: Seq<char>,
    master_hand: MasterHandView,
    count: nat,
    dealer: DealerHandView,
    initial_bet: u32,
    rules: HouseRulesView,
) -> Ledger
    decreases count,
{
    if count == 0 {
        ledger
    } else {
        let hand = master_hand.hands[count - 1];
        spec_settle_wager(
            ledger,
            name,
            master_hand,
            (count - 1) as nat,
            dealer,
            initial_bet,
            rules,
        ).book(name, hand, (count - 1) as nat, initial_bet, spec_settle(hand, dealer, rules) as i32)
    }
}

/// The books after the first `count` wagers of a player were settled, one
/// wager after another.
pub open spec fn spec_settle_player(
    ledger: Ledger,
    player: PlayerView,
    count: nat,
    dealer: DealerHandView,
    initial_bet: u32,
    rules: HouseRulesView,
) -> Ledger
    decreases count,
{
    if count == 0 {
        ledger
    } else {
        spec_settle_wager(
            spec_settle_player(ledger, player, (count - 1) as nat, dealer, initial_bet, rules),
            player.name,
            player.master_hands[count - 1],
            player.master_hands[count - 1].hands.len(),
            dealer,
            initial_bet,
            rules,
        )
    }
}

/// The books after the first `count` players were settled, one player after
/// another.
pub open spec fn spec_settle_table(
    ledger: Ledger,
    players: Seq<PlayerView>,
    count: nat,
    dealer: DealerHandView,
    initial_bet: u32,
    rules: HouseRulesView,
) -> Ledger
    decreases count,
{
    if count == 0 {
        ledger
    } else {
        spec_settle_player(
            spec_settle_table(ledger, players, (count - 1) as nat, dealer, initial_bet, rules),
            players[count - 1],
            players[count - 1].master_hands.len(),
            dealer,
            initial_bet,
            rules,
        )
    }
}

/// The number of hands of the first `count` wagers of a player.
pub open spec fn spec_hands_of_player(player: PlayerView, count: nat) -> nat
    decreases count,
{
    if count == 0 {
        0
    } else {
        spec_hands_of_player(player, (count - 1) as nat) + player.master_hands[count - 1].hands.len()
    }
}

/// The number of hands of the first `count` players at the table.
pub open spec fn spec_hands_at_table(players: Seq<PlayerView>, count: nat) -> nat
    decreases count,
{
    if count == 0 {
        0
    } else {
        spec_hands_at_table(players, (count - 1) as nat) + spec_hands_of_player(
            players[count - 1],
            players[count - 1].master_hands.len(),
        )
    }
}

/// Whether a hand can be settled: its bet fits a result, and if it came out
/// of a split it has a card.
pub open spec fn spec_settleable(hand: HandView) -> bool {
    &&& hand.bet <= i32::MAX
    &&& hand.from_split ==> hand.cards.len() > 0
}

/// Whether every hand of a wager can be settled.
pub open spec fn spec_wager_settleable(master_hand: MasterHandView) -> bool {
    forall|h: int|
        0 <= h < master_hand.hands.len() ==> spec_settleable(#[trigger] master_hand.hands[h])
}

/// Whether every hand of a player can be settled.
pub open spec fn spec_player_settleable(player: PlayerView) -> bool {
    forall|mh: int|
        0 <= mh < player.master_hands.len() ==> spec_wager_settleable(
            #[trigger] player.master_hands[mh],
        )
}

/// Whether every hand on the table can be settled.
pub open spec fn spec_table_settleable(players: Seq<PlayerView>) -> bool {
    forall|p: int| 0 <= p < players.len() ==> spec_player_settleable(#[trigger] players[p])
}

/// Booking a hand takes up the room of one hand.
pub proof fn lemma_book_room(
    ledger: Ledger,
    name: Seq<char>,
    hand: HandView,
    hand_index: nat,
    initial_bet: u32,
    result: i32,
    room: nat,
)
    requires
        ledger.has_room(room),
        room > 0,
    ensures
        ledger.book(name, hand, hand_index, initial_bet, result).has_room((room - 1) as nat),
        ledger.book(name, hand, hand_index, initial_bet, result).results.len()
            == ledger.results.len(),
{
    let booked = ledger.book(name, hand, hand_index, initial_bet, result);
    lemma_find(ledger.results, name);
    assert forall|i: int| 0 <= i < booked.results.len() implies (#[trigger] booked.results[i]).1.has_room(
        (room - 1) as nat,
    ) by {
        assert(ledger.results[i].1.has_room(room));
    }
}

/// Settling hands of a wager takes up the room of as many hands.
pub proof fn lemma_settle_wager_room(
    ledger: Ledger,
    name: Seq<char>,
    master_hand: MasterHandView,
    count: nat,
    dealer: DealerHandView,
    initial_bet: u32,
    rules: HouseRulesView,
    room: nat,
)
    requires
        ledger.has_room(room),
        count <= room,
    ensures
        spec_settle_wager(ledger, name, master_hand, count, dealer, initial_bet, rules).has_room(
            (room - count) as nat,
        ),
    decreases count,
{
    if count > 0 {
        lemma_settle_wager_room(
            ledger,
            name,
            master_hand,
            (count - 1) as nat,
            dealer,
            initial_bet,
            rules,
            room,
        );
        let hand = master_hand.hands[count - 1];
        lemma_book_room(
            spec_settle_wager(
                ledger,
                name,
                master_hand,
                (count - 1) as nat,
                dealer,
                initial_bet,
                rules,
            ),
            name,
            hand,
            (count - 1) as nat,
            initial_bet,
            spec_settle(hand, dealer, rules) as i32,
            (room - (count - 1)) as nat,
        );
    }
}

/// Settling wagers of a player takes up the room of as many hands as they
/// have.
pub proof fn lemma_settle_player_room(
    ledger: Ledger,
    player: PlayerView,
    count: nat,
    dealer: DealerHandView,
    initial_bet: u32,
    rules: HouseRulesView,
    room: nat,
)
    requires
        ledger.has_room(room),
        spec_hands_of_player(player, count) <= room,
    ensures
        spec_settle_player(ledger, player, count, dealer, initial_bet, rules).has_room(
            (room - spec_hands_of_player(player, count)) as nat,
        ),
    decreases count,
{
    if count > 0 {
        lemma_settle_player_room(
            ledger,
            player,
            (count - 1) as nat,
            dealer,
            initial_bet,
            rules,
            room,
        );
        lemma_settle_wager_room(
            spec_settle_player(ledger, player, (count - 1) as nat, dealer, initial_bet, rules),
            player.name,
            player.master_hands[count - 1],
            player.master_hands[count - 1].hands.len(),
            dealer,
            initial_bet,
            rules,
            (room - spec_hands_of_player(player, (count - 1) as nat)) as nat,
        );
    }
}

/// Settling players takes up the room of as many hands as they have.
pub proof fn lemma_settle_table_room(
    ledger: Ledger,
    players: Seq<PlayerView>,
    count: nat,
    dealer: DealerHandView,
    initial_bet: u32,
    rules: HouseRulesView,
    room: nat,
)
    requires
        ledger.has_room(room),
        spec_hands_at_table(players, count) <= room,
    ensures
        spec_settle_table(ledger, players, count, dealer, initial_bet, rules).has_room(
            (room - spec_hands_at_table(players, count)) as nat,
        ),
    decreases count,
{
    if count > 0 {
        lemma_settle_table_room(
            ledger,
            players,
            (count - 1) as nat,
            dealer,
            initial_bet,
            rules,
            room,
        );
        lemma_settle_player_room(
            spec_settle_table(ledger, players, (count - 1) as nat, dealer, initial_bet, rules),
            players[count - 1],
            players[count - 1].master_hands.len(),
            dealer,
            initial_bet,
            rules,
            (room - spec_hands_at_table(players, (count - 1) as nat)) as nat,
        );
    }
}

/// More wagers have no fewer hands.
pub proof fn lemma_hands_of_player_grow(player: PlayerView, count: nat, more: nat)
    requires
        count <= more,
    ensures
        spec_hands_of_player(player, count) <= spec_hands_of_player(player, more),
    decreases more,
{
    if count < more {
        lemma_hands_of_player_grow(player, count, (more - 1) as nat);
    }
}

/// More players have no fewer hands.
pub proof fn lemma_hands_at_table_grow(players: Seq<PlayerView>, count: nat, more: nat)
    requires
        count <= more,
    ensures
        spec_hands_at_table(players, count) <= spec_hands_at_table(players, more),
    decreases more,
{
    if count < more {
        lemma_hands_at_table_grow(players, count, (more - 1) as nat);
    }
}

impl BlackJack {
    /// Settles the hands of one wager against the dealer's hand, one hand
    /// after another, and books each result.
    pub fn settle_wager(
        &mut self,
        player_index: usize,
        master_hand_index: usize,
        dealer_hand: &DealerHand,
        initial_bet: u32,
        rules: &HouseRules,
    )
        requires
            old(self).wf(),
            dealer_hand.wf(),
            rules.wf(),
            initial_bet * 2 <= u32::MAX,
            old(self)@.has_wager(player_index as int, master_hand_index as int),
            spec_wager_settleable(old(self)@.wager(player_index as int, master_hand_index as int)),
            old(self)@.ledger().has_room(
                old(self)@.wager(player_index as int, master_hand_index as int).hands.len(),
            ),
        ensures
            final(self)@.ledger() == spec_settle_wager(
                old(self)@.ledger(),
                old(self)@.players[player_index as int].name,
                old(self)@.wager(player_index as int, master_hand_index as int),
                old(self)@.wager(player_index as int, master_hand_index as int).hands.len(),
                dealer_hand@,
                initial_bet,
                rules@,
            ),
            final(self).wf(),
            final(self).players == old(self).players,
            final(self).shoe == old(self).shoe,
            final(self).shoe_top == old(self).shoe_top,
    {
        let ghost ledger = old(self)@.ledger();
        let ghost player = old(self)@.players[player_index as int];
        let ghost wager = player.master_hands[master_hand_index as int];
        proof {
            assert(player == self.players@[player_index as int]@);
            assert(wager == self.players@[player_index as int].master_hands@[master_hand_index as int]@);
        }
        let hands: usize = self.players[player_index].master_hands[master_hand_index].num_hands();
        let mut h: usize = 0;
        while h < hands
            invariant
                h <= hands,
                hands == wager.hands.len(),
                self.players == old(self).players,
                self.shoe == old(self).shoe,
                self.shoe_top == old(self).shoe_top,
                self.wf(),
                dealer_hand.wf(),
                rules.wf(),
                initial_bet * 2 <= u32::MAX,
                player_index < self.players@.len(),
                master_hand_index < self.players@[player_index as int].master_hands@.len(),
                player == self.players@[player_index as int]@,
                wager == self.players@[player_index as int].master_hands@[master_hand_index as int]@,
                spec_wager_settleable(wager),
                ledger.has_room(hands as nat),
                self@.ledger() == spec_settle_wager(
                    ledger,
                    player.name,
                    wager,
                    h as nat,
                    dealer_hand@,
                    initial_bet,
                    rules@,
                ),
            decreases hands - h,
        {
            proof {
                lemma_settle_wager_room(
                    ledger,
                    player.name,
                    wager,
                    h as nat,
                    dealer_hand@,
                    initial_bet,
                    rules@,
                    hands as nat,
                );
                let seat = self.players@[player_index as int];
                let stake = seat.master_hands@[master_hand_index as int];
                assert(wager.hands[h as int] == stake.hands@[h as int]@);
                assert(seat.wf());
                assert(stake.wf());
                assert(self@.ledger().has_room(1));
                assert forall|i: int| 0 <= i < self@.results.len() implies (
                #[trigger] self@.results[i]).1.has_room(1) by {
                    assert(self@.ledger().results[i].1.has_room(1));
                }
            }
            let result = settle_hand(
                &self.players[player_index].master_hands[master_hand_index].hands[h],
                dealer_hand,
                rules,
            );
            self.add_result(player_index, master_hand_index, h, initial_bet, result);
            h += 1;
        }
    }

    /// Settles the wagers of one player against the dealer's hand, one
    /// wager after another, and books each result.
    pub fn settle_player(
        &mut self,
        player_index: usize,
        dealer_hand: &DealerHand,
        initial_bet: u32,
        rules: &HouseRules,
    )
        requires
            old(self).wf(),
            dealer_hand.wf(),
            rules.wf(),
            initial_bet * 2 <= u32::MAX,
            player_index < old(self)@.players.len(),
            spec_player_settleable(old(self)@.players[player_index as int]),
            old(self)@.ledger().has_room(
                spec_hands_of_player(
                    old(self)@.players[player_index as int],
                    old(self)@.players[player_index as int].master_hands.len(),
                ),
            ),
        ensures
            final(self)@.ledger() == spec_settle_player(
                old(self)@.ledger(),
                old(self)@.players[player_index as int],
                old(self)@.players[player_index as int].master_hands.len(),
                dealer_hand@,
                initial_bet,
                rules@,
            ),
            final(self).wf(),
            final(self).players == old(self).players,
            final(self).shoe == old(self).shoe,
            final(self).shoe_top == old(self).shoe_top,
    {
        let ghost ledger = old(self)@.ledger();
        let ghost player = old(self)@.players[player_index as int];
        proof {
            assert(player == self.players@[player_index as int]@);
        }
        let wagers: usize = self.players[player_index].num_master_hands();
        let mut mh: usize = 0;
        while mh < wagers
            invariant
                mh <= wagers,
                wagers == player.master_hands.len(),
                self.players == old(self).players,
                self.shoe == old(self).shoe,
                self.shoe_top == old(self).shoe_top,
                self.wf(),
                dealer_hand.wf(),
                rules.wf(),
                initial_bet * 2 <= u32::MAX,
                player_index < self@.players.len(),
                player == self@.players[player_index as int],
                spec_player_settleable(player),
                ledger.has_room(spec_hands_of_player(player, wagers as nat)),
                self@.ledger() == spec_settle_player(
                    ledger,
                    player,
                    mh as nat,
                    dealer_hand@,
                    initial_bet,
                    rules@,
                ),
            decreases wagers - mh,
        {
            proof {
                lemma_hands_of_player_grow(player, (mh + 1) as nat, wagers as nat);
                lemma_settle_player_room(
                    ledger,
                    player,
                    mh as nat,
                    dealer_hand@,
                    initial_bet,
                    rules@,
                    spec_hands_of_player(player, wagers as nat),
                );
                lemma_room_shrinks(
                    self@.ledger(),
                    (spec_hands_of_player(player, wagers as nat) - spec_hands_of_player(
                        player,
                        mh as nat,
                    )) as nat,
                    player.master_hands[mh as int].hands.len(),
                );
            }
            self.settle_wager(player_index, mh, dealer_hand, initial_bet, rules);
            mh += 1;
        }
    }

    /// Settles every hand on the table against the dealer's hand, player
    /// after player, and books each result: on the record of the player and
    /// in the counts of the special plays. `initial_bet` is the bet that the
    /// wagers of the round were opened with.
    pub fn settle_hands(&mut self, dealer_hand: &DealerHand, initial_bet: u32, rules: &HouseRules)
        requires
            old(self).wf(),
            dealer_hand.wf(),
            rules.wf(),
            initial_bet * 2 <= u32::MAX,
            spec_table_settleable(old(self)@.players),
            old(self)@.ledger().has_room(
                spec_hands_at_table(old(self)@.players, old(self)@.players.len()),
            ),
        ensures
            final(self)@.ledger() == spec_settle_table(
                old(self)@.ledger(),
                old(self)@.players,
                old(self)@.players.len(),
                dealer_hand@,
                initial_bet,
                rules@,
            ),
            final(self).wf(),
            final(self).players == old(self).players,
            final(self).shoe == old(self).shoe,
            final(self).shoe_top == old(self).shoe_top,
    {
        let ghost ledger = old(self)@.ledger();
        let ghost table = old(self)@.players;
        let players: usize = self.num_players();
        let mut p: usize = 0;
        while p < players
            invariant
                p <= players,
                players == table.len(),
                self.players == old(self).players,
                self.shoe == old(self).shoe,
                self.shoe_top == old(self).shoe_top,
                self.wf(),
                dealer_hand.wf(),
                rules.wf(),
                initial_bet * 2 <= u32::MAX,
                table == self@.players,
                spec_table_settleable(table),
                ledger.has_room(spec_hands_at_table(table, players as nat)),
                self@.ledger() == spec_settle_table(
                    ledger,
                    table,
                    p as nat,
                    dealer_hand@,
                    initial_bet,
                    rules@,
                ),
            decreases players - p,
        {
            proof {
                lemma_hands_at_table_grow(table, (p + 1) as nat, players as nat);
                lemma_settle_table_room(
                    ledger,
                    table,
                    p as nat,
                    dealer_hand@,
                    initial_bet,
                    rules@,
                    spec_hands_at_table(table, players as nat),
                );
                lemma_room_shrinks(
                    self@.ledger(),
                    (spec_hands_at_table(table, players as nat) - spec_hands_at_table(
                        table,
                        p as nat,
                    )) as nat,
                    spec_hands_of_player(table[p as int], table[p as int].master_hands.len()),
                );
            }
            self.settle_player(p, dealer_hand, initial_bet, rules);
            p += 1;
        }
    }
}

/// Books with room for some hands have room for fewer.
pub proof fn lemma_room_shrinks(ledger: Ledger, room: nat, less: nat)
    requires
        ledger.has_room(room),
        less <= room,
    ensures
        ledger.has_room(less),
{
    assert forall|i: int| 0 <= i < ledger.results.len() implies (#[trigger] ledger.results[i]).1.has_room(
        less,
    ) by {
        assert(ledger.results[i].1.has_room(room));
    }
}

/// The most hands that the first `count` wagers of a player can fan out to.
pub open spec fn spec_capacity_of_player(player: PlayerView, count: nat) -> nat
    decreases count,
{
    if count == 0 {
        0
    } else {
        spec_capacity_of_player(player, (count - 1) as nat) + player.master_hands[count
            - 1].hands_limit
    }
}

/// The most hands that the wagers of the first `count` players can fan out
/// to.
pub open spec fn spec_capacity_at_table(players: Seq<PlayerView>, count: nat) -> nat
    decreases count,
{
    if count == 0 {
        0
    } else {
        spec_capacity_at_table(players, (count - 1) as nat) + spec_capacity_of_player(
            players[count - 1],
            players[count - 1].master_hands.len(),
        )
    }
}

/// A player whose wagers keep to their limits has no more hands than the
/// limits add up to.
pub proof fn lemma_hands_within_capacity_of_player(player: PlayerView, count: nat)
    requires
        count <= player.master_hands.len(),
        forall|mh: int|
            0 <= mh < player.master_hands.len() ==> (#[trigger] player.master_hands[mh]).hands.len()
                <= player.master_hands[mh].hands_limit,
    ensures
        spec_hands_of_player(player, count) <= spec_capacity_of_player(player, count),
    decreases count,
{
    if count > 0 {
        lemma_hands_within_capacity_of_player(player, (count - 1) as nat);
        assert(player.master_hands[count - 1].hands.len() <= player.master_hands[count
            - 1].hands_limit);
    }
}

/// A table whose wagers keep to their limits has no more hands than the
/// limits add up to.
pub proof fn lemma_hands_within_capacity(players: Seq<PlayerView>, count: nat)
    requires
        count <= players.len(),
        forall|p: int, mh: int|
            0 <= p < players.len() && 0 <= mh < players[p].master_hands.len() ==> (
            #[trigger] players[p].master_hands[mh]).hands.len()
                <= players[p].master_hands[mh].hands_limit,
    ensures
        spec_hands_at_table(players, count) <= spec_capacity_at_table(players, count),
    decreases count,
{
    if count > 0 {
        lemma_hands_within_capacity(players, (count - 1) as nat);
        let player = players[count - 1];
        assert forall|mh: int| 0 <= mh < player.master_hands.len() implies (
        #[trigger] player.master_hands[mh]).hands.len() <= player.master_hands[mh].hands_limit by {
            assert(players[count - 1].master_hands[mh].hands.len() <= players[count
                - 1].master_hands[mh].hands_limit);
        }
        lemma_hands_within_capacity_of_player(player, player.master_hands.len());
    }
}

/// Players with the same wagers and limits can fan out to as many hands.
pub proof fn lemma_same_capacity_of_player(before: PlayerView, after: PlayerView, count: nat)
    requires
        count <= before.master_hands.len(),
        after.master_hands.len() == before.master_hands.len(),
        forall|mh: int|
            0 <= mh < before.master_hands.len() ==> (#[trigger] after.master_hands[mh]).hands_limit
                == before.master_hands[mh].hands_limit,
    ensures
        spec_capacity_of_player(after, count) == spec_capacity_of_player(before, count),
    decreases count,
{
    if count > 0 {
        lemma_same_capacity_of_player(before, after, (count - 1) as nat);
        assert(after.master_hands[count - 1].hands_limit == before.master_hands[count
            - 1].hands_limit);
    }
}

/// Tables with the same wagers and limits can fan out to as many hands.
pub proof fn lemma_same_capacity(before: Seq<PlayerView>, after: Seq<PlayerView>, count: nat)
    requires
        count <= before.len(),
        after.len() == before.len(),
        forall|p: int|
            0 <= p < before.len() ==> (#[trigger] after[p]).master_hands.len()
                == before[p].master_hands.len(),
        forall|p: int, mh: int|
            0 <= p < before.len() && 0 <= mh < before[p].master_hands.len() ==> (
            #[trigger] after[p].master_hands[mh]).hands_limit
                == before[p].master_hands[mh].hands_limit,
    ensures
        spec_capacity_at_table(after, count) == spec_capacity_at_table(before, count),
    decreases count,
{
    if count > 0 {
        lemma_same_capacity(before, after, (count - 1) as nat);
        let b = before[count - 1];
        let a = after[count - 1];
        assert(a.master_hands.len() == b.master_hands.len());
        assert forall|mh: int| 0 <= mh < b.master_hands.len() implies (
        #[trigger] a.master_hands[mh]).hands_limit == b.master_hands[mh].hands_limit by {
            assert(after[count - 1].master_hands[mh].hands_limit == before[count
                - 1].master_hands[mh].hands_limit);
        }
        lemma_same_capacity_of_player(b, a, b.master_hands.len());
    }
}

} // verus!
