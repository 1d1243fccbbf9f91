//! The deal of a round: two cards to the first hand of every wager and to
//! the dealer, one card at a time around the table.

use vstd::prelude::*;

use crate::cards::Card;
use crate::game::BlackJack;
use crate::hand::{DealerHandView, HandView, MasterHandView};
use crate::player::{Dealer, DealerView, Player, PlayerView};

verus! {

impl HandView {
    /// The hand with one more card at its end.
    pub open spec fn with_card(self, card: Card) -> HandView {
        HandView { cards: self.cards.push(card), ..self }
    }
}

/// The number of wagers of the first `count` players.
pub open spec fn spec_wagers(players: Seq<PlayerView>, count: nat) -> nat
    decreases count,
{
    if count == 0 {
        0
    } else {
        spec_wagers(players, (count - 1) as nat) + players[count - 1].master_hands.len()
    }
}

/// Whether every wager of the player has a hand to deal to.
pub open spec fn spec_player_dealable(player: PlayerView) -> bool {
    forall|mh: int|
        0 <= mh < player.master_hands.len() ==> (#[trigger] player.master_hands[mh]).hands.len() > 0
}

/// The player after one card was dealt to the first hand of each wager, in
/// the order of the wagers, from `shoe_top` on.
pub open spec fn spec_deal_to_player(player: PlayerView, shoe: Seq<Card>, shoe_top: nat)
    -> PlayerView {
    PlayerView {
        master_hands: Seq::new(
            player.master_hands.len(),
            |mh: int|
                MasterHandView {
                    hands: player.master_hands[mh].hands.update(
                        0,
                        player.master_hands[mh].hands[0].with_card(shoe[shoe_top + mh]),
                    ),
                    ..player.master_hands[mh]
                },
        ),
        ..player
    }
}

/// The players after one card was dealt to the first hand of each wager,
/// player after player, from `shoe_top` on.
pub open spec fn spec_deal_to_players(players: Seq<PlayerView>, shoe: Seq<Card>, shoe_top: nat)
    -> Seq<PlayerView> {
    Seq::new(
        players.len(),
        |p: int| spec_deal_to_player(players[p], shoe, shoe_top + spec_wagers(players, p as nat)),
    )
}

/// Deals one card to the first hand of each wager of the player, from
/// `shoe_top` on, and returns the place in the shoe after that.
pub fn deal_to_player(player: &mut Player, shoe: &Vec<Card>, shoe_top: usize) -> (next_top: usize)
    requires
        spec_player_dealable(old(player)@),
        shoe_top + old(player)@.master_hands.len() <= shoe@.len(),
    ensures
        final(player)@ == spec_deal_to_player(old(player)@, shoe@, shoe_top as nat),
        final(player).master_hands@.len() == old(player).master_hands@.len(),
        next_top == shoe_top + old(player)@.master_hands.len(),
{
    let wagers: usize = player.num_master_hands();
    let mut top: usize = shoe_top;
    let mut mh: usize = 0;
    while mh < wagers
        invariant
            mh <= wagers,
            wagers == old(player).master_hands@.len(),
            player.master_hands@.len() == wagers,
            top == shoe_top + mh,
            shoe_top + wagers <= shoe@.len(),
            player@.name == old(player)@.name,
            spec_player_dealable(old(player)@),
            forall|j: int|
                0 <= j < mh ==> #[trigger] player@.master_hands[j] == spec_deal_to_player(
                    old(player)@,
                    shoe@,
                    shoe_top as nat,
                ).master_hands[j],
            forall|j: int|
                mh <= j < wagers ==> #[trigger] player@.master_hands[j] == old(
                    player,
                )@.master_hands[j],
        decreases wagers - mh,
    {
        let ghost before = player@;
        let ghost wager = before.master_hands[mh as int];
        assert(wager == player.master_hands@[mh as int]@);
        assert(wager.hands.len() > 0);
        assert(wager.hands[0] == player.master_hands@[mh as int].hands@[0]@);
        let card = shoe[top];
        assert(top < shoe.len());
        player.master_hands[mh].hands[0].add_card(&card);
        top += 1;
        proof {
            assert(player.master_hands@[mh as int]@.hands =~= wager.hands.update(
                0,
                wager.hands[0].with_card(card),
            ));
            assert(player@.master_hands[mh as int] == player.master_hands@[mh as int]@);
            assert forall|j: int| 0 <= j < mh implies #[trigger] player@.master_hands[j]
                == spec_deal_to_player(old(player)@, shoe@, shoe_top as nat).master_hands[j] by {
                assert(player@.master_hands[j] == before.master_hands[j]);
            }
            assert forall|j: int| mh + 1 <= j < wagers implies #[trigger] player@.master_hands[j]
                == old(player)@.master_hands[j] by {
                assert(player@.master_hands[j] == before.master_hands[j]);
            }
        }
        mh += 1;
    }
    assert(player@.master_hands =~= spec_deal_to_player(
        old(player)@,
        shoe@,
        shoe_top as nat,
    ).master_hands);
    top
}

impl DealerHandView {
    /// The hand with one more card at its end.
    pub open spec fn with_card(self, card: Card) -> DealerHandView {
        DealerHandView { cards: self.cards.push(card), ..self }
    }
}

/// Whether every wager on the table has a hand to deal to.
pub open spec fn spec_dealable(players: Seq<PlayerView>) -> bool {
    forall|p: int| 0 <= p < players.len() ==> spec_player_dealable(#[trigger] players[p])
}

/// The number of wagers on the table, if there are no more than `limit`.
fn count_wagers(players: &Vec<Player>, limit: usize) -> (wagers: Option<usize>)
    ensures
        match wagers {
            Some(wagers) => wagers == spec_wagers(
                players@.map_values(|player: Player| player@),
                players@.len(),
            ) && wagers <= limit,
            None => spec_wagers(players@.map_values(|player: Player| player@), players@.len())
                > limit,
        },
{
    let ghost views = players@.map_values(|player: Player| player@);
    let mut wagers: usize = 0;
    let mut p: usize = 0;
    while p < players.len()
        invariant
            p <= players@.len(),
            views == players@.map_values(|player: Player| player@),
            wagers == spec_wagers(views, p as nat),
            wagers <= limit,
        decreases players@.len() - p,
    {
        let more = players[p].num_master_hands();
        assert(views[p as int] == players@[p as int]@);
        if more > limit - wagers {
            proof {
                lemma_wagers_grow(views, (p + 1) as nat, players@.len());
            }
            return None;
        }
        wagers += more;
        p += 1;
    }
    Some(wagers)
}

/// More players have no fewer wagers.
pub proof fn lemma_wagers_grow(players: Seq<PlayerView>, count: nat, more: nat)
    requires
        count <= more,
    ensures
        spec_wagers(players, count) <= spec_wagers(players, more),
    decreases more,
{
    if count < more {
        lemma_wagers_grow(players, count, (more - 1) as nat);
    }
}

impl BlackJack {
    /// Deals one card around the table: to the first hand of each wager,
    /// player after player, and then to the dealer.
    pub fn deal_round(&mut self, dealer: &mut Dealer)
        requires
            spec_dealable(old(self)@.players),
            old(self)@.shoe_top + spec_wagers(old(self)@.players, old(self)@.players.len()) + 1
                <= old(self)@.shoe.len(),
        ensures
            final(self)@.players == spec_deal_to_players(
                old(self)@.players,
                old(self)@.shoe,
                old(self)@.shoe_top,
            ),
            final(self).players@.len() == old(self).players@.len(),
            final(dealer)@ == (DealerView {
                hand: old(dealer)@.hand.with_card(
                    old(self)@.shoe[(old(self)@.shoe_top + spec_wagers(
                        old(self)@.players,
                        old(self)@.players.len(),
                    )) as int],
                ),
                ..old(dealer)@
            }),
            final(self)@.shoe_top == old(self)@.shoe_top + spec_wagers(
                old(self)@.players,
                old(self)@.players.len(),
            ) + 1,
            final(self).shoe == old(self).shoe,
            final(self).results == old(self).results,
            final(self).stats == old(self).stats,
    {
        let ghost table = old(self)@.players;
        let ghost goal = spec_deal_to_players(table, old(self)@.shoe, old(self)@.shoe_top);
        let players: usize = self.players.len();
        let mut top: usize = self.shoe_top;
        let mut p: usize = 0;
        while p < players
            invariant
                p <= players,
                players == old(self).players@.len(),
                self.players@.len() == players,
                self.shoe == old(self).shoe,
                self.shoe_top == old(self).shoe_top,
                self.results == old(self).results,
                self.stats == old(self).stats,
                table == old(self)@.players,
                goal == spec_deal_to_players(table, old(self)@.shoe, old(self)@.shoe_top),
                spec_dealable(table),
                top == old(self).shoe_top + spec_wagers(table, p as nat),
                old(self)@.shoe_top + spec_wagers(table, players as nat) + 1 <= old(
                    self,
                )@.shoe.len(),
                forall|j: int| 0 <= j < p ==> #[trigger] self@.players[j] == goal[j],
                forall|j: int| p <= j < players ==> #[trigger] self@.players[j] == table[j],
            decreases players - p,
        {
            let ghost before = self@.players;
            proof {
                assert(before[p as int] == self.players@[p as int]@);
                lemma_wagers_grow(table, (p + 1) as nat, players as nat);
            }
            top = deal_to_player(&mut self.players[p], &self.shoe, top);
            proof {
                assert(self@.players[p as int] == self.players@[p as int]@);
                assert forall|j: int| 0 <= j < p implies #[trigger] self@.players[j] == goal[j] by {
                    assert(self@.players[j] == before[j]);
                }
                assert forall|j: int| p + 1 <= j < players implies #[trigger] self@.players[j]
                    == table[j] by {
                    assert(self@.players[j] == before[j]);
                }
            }
            p += 1;
        }
        assert(self@.players =~= goal);
        let card = self.shoe[top];
        assert(top < self.shoe.len());
        dealer.hand.add_card(&card);
        self.shoe_top = top + 1;
    }

    /// Deals the round: two cards to the first hand of each wager and to
    /// the dealer, one card at a time around the table. Where the shoe has
    /// not that many cards left, nothing is dealt and the answer is `false`.
    pub fn deal_hands(&mut self, dealer: &mut Dealer) -> (dealt: bool)
        requires
            old(self)@.shoe_top <= old(self)@.shoe.len(),
            spec_dealable(old(self)@.players),
        ensures
            dealt == (old(self)@.shoe_top + 2 * spec_wagers(
                old(self)@.players,
                old(self)@.players.len(),
            ) + 2 <= old(self)@.shoe.len()),
            dealt ==> final(self)@.players == spec_deal_to_players(
                spec_deal_to_players(old(self)@.players, old(self)@.shoe, old(self)@.shoe_top),
                old(self)@.shoe,
                old(self)@.shoe_top + spec_wagers(old(self)@.players, old(self)@.players.len())
                    + 1,
            ),
            dealt ==> final(dealer)@ == (DealerView {
                hand: old(dealer)@.hand.with_card(
                    old(self)@.shoe[(old(self)@.shoe_top + spec_wagers(
                        old(self)@.players,
                        old(self)@.players.len(),
                    )) as int],
                ).with_card(
                    old(self)@.shoe[(old(self)@.shoe_top + 2 * spec_wagers(
                        old(self)@.players,
                        old(self)@.players.len(),
                    ) + 1) as int],
                ),
                ..old(dealer)@
            }),
            dealt ==> final(self)@.shoe_top == old(self)@.shoe_top + 2 * spec_wagers(
                old(self)@.players,
                old(self)@.players.len(),
            ) + 2,
            !dealt ==> final(self)@ == old(self)@ && final(dealer)@ == old(dealer)@,
            !dealt ==> final(self).players == old(self).players,
            final(self).players@.len() == old(self).players@.len(),
            final(self).shoe == old(self).shoe,
            final(self).results == old(self).results,
            final(self).stats == old(self).stats,
    {
        let remaining: usize = self.shoe.len() - self.shoe_top;
        if remaining < 2 {
            return false;
        }
        let wagers = match count_wagers(&self.players, (remaining - 2) / 2) {
            Some(wagers) => wagers,
            None => {
                return false;
            },
        };
        let ghost table = self@.players;
        self.deal_round(dealer);
        proof {
            lemma_deal_keeps_wagers(table, self@.shoe, old(self)@.shoe_top, table.len());
            assert(spec_dealable(self@.players)) by {
                assert forall|p: int| 0 <= p < self@.players.len() implies spec_player_dealable(
                    #[trigger] self@.players[p],
                ) by {
                    assert(spec_player_dealable(table[p]));
                }
            }
        }
        self.deal_round(dealer);
        true
    }
}

/// Dealing a card around the table changes no player's number of wagers.
pub proof fn lemma_deal_keeps_wagers(
    players: Seq<PlayerView>,
    shoe: Seq<Card>,
    shoe_top: nat,
    count: nat,
)
    requires
        count <= players.len(),
    ensures
        spec_wagers(spec_deal_to_players(players, shoe, shoe_top), count) == spec_wagers(
            players,
            count,
        ),
    decreases count,
{
    if count > 0 {
        lemma_deal_keeps_wagers(players, shoe, shoe_top, (count - 1) as nat);
    }
}

} // verus!
