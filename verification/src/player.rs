//! The people at the table: a player with the wagers of a round, and the
//! dealer with one hand.

use vstd::prelude::*;
use vstd::string::*;

use crate::cards::Card;
use crate::hand::{DealerHand, DealerHandView, HandOutcome, HandView, MasterHandView, PlayerMasterHand};
use crate::rules::SPLITS_PER_HAND;

verus! {

/// A player as mathematics: the name, and the wagers of the round in the
/// order in which they were placed.
pub struct PlayerView {
    pub master_hands: Seq<MasterHandView>,
    pub name: Seq<char>,
}

/// A player. Each wager of a round is played as a hand of its own, which can
/// be split into more hands up to the limit of the rules.
pub struct Player {
    pub master_hands: Vec<PlayerMasterHand>,
    pub name: String,
}

impl View for Player {
    type V = PlayerView;

    open spec fn view(&self) -> PlayerView {
        PlayerView {
            master_hands: self.master_hands@.map_values(|master_hand: PlayerMasterHand| master_hand@),
            name: self.name@,
        }
    }
}

/// The wager that a bet opens: one empty hand in play with the bet on it,
/// under the limit of the standard rules.
pub open spec fn spec_start_wager(bet: u32) -> MasterHandView {
    MasterHandView {
        hands_limit: SPLITS_PER_HAND as nat + 1,
        hands: seq![
            HandView {
                cards: Seq::empty(),
                from_split: false,
                bet: bet,
                outcome: HandOutcome::IN_PLAY,
            },
        ],
    }
}

impl Player {
    /// Every hand of every wager is small enough to be counted in machine
    /// words.
    pub open spec fn wf(&self) -> bool {
        forall|i: int| 0 <= i < self.master_hands@.len() ==> (#[trigger] self.master_hands@[i]).wf()
    }

    /// A player of that name with no wager.
    pub fn create(name: &str) -> (player: Player)
        ensures
            player.wf(),
            player@ == (PlayerView { master_hands: Seq::empty(), name: name@ }),
            player.master_hands@.len() == 0,
    {
        let player = Player { master_hands: Vec::new(), name: String::from_str(name) };
        assert(player@.master_hands =~= Seq::empty());
        player
    }

    /// The number of wagers that the player has on the table.
    pub fn num_master_hands(&self) -> (n: usize)
        ensures
            n == self@.master_hands.len(),
    {
        self.master_hands.len()
    }

    /// Takes the player's wagers off the table.
    pub fn game_reset(&mut self)
        ensures
            final(self).wf(),
            final(self)@ == (PlayerView { master_hands: Seq::empty(), ..old(self)@ }),
            final(self).master_hands@.len() == 0,
    {
        self.master_hands = Vec::new();
        assert(self@.master_hands =~= Seq::empty());
    }

    /// Replaces the player's wagers by one for each bet, in the order of the
    /// bets.
    pub fn set_game_bets(&mut self, bets: &Vec<u32>)
        ensures
            final(self).wf(),
            final(self)@ == (PlayerView {
                master_hands: bets@.map_values(|bet: u32| spec_start_wager(bet)),
                ..old(self)@
            }),
            final(self).master_hands@.len() == bets@.len(),
    {
        self.game_reset();
        let mut i: usize = 0;
        while i < bets.len()
            invariant
                i <= bets@.len(),
                self.wf(),
                self.name@ == old(self).name@,
                self.master_hands@.len() == i,
                forall|j: int|
                    0 <= j < i ==> (#[trigger] self.master_hands@[j])@ == spec_start_wager(bets@[j]),
            decreases bets@.len() - i,
        {
            let mut master_hand = PlayerMasterHand::create();
            master_hand.add_start_hand(bets[i]);
            assert(master_hand@.hands =~= spec_start_wager(bets@[i as int]).hands);
            self.master_hands.push(master_hand);
            i += 1;
        }
        assert(self@.master_hands =~= bets@.map_values(|bet: u32| spec_start_wager(bet)));
    }
}

/// The dealer as mathematics.
pub struct DealerView {
    pub hand: DealerHandView,
    pub name: Seq<char>,
}

/// The dealer. The first card of the dealer's hand lies face up, the second
/// face down.
pub struct Dealer {
    pub hand: DealerHand,
    pub name: String,
}

impl View for Dealer {
    type V = DealerView;

    open spec fn view(&self) -> DealerView {
        DealerView { hand: self.hand@, name: self.name@ }
    }
}

impl Dealer {
    /// A dealer of that name with an empty hand in play.
    pub fn create(name: &str) -> (dealer: Dealer)
        ensures
            dealer.hand.wf(),
            dealer@ == (DealerView {
                hand: DealerHandView { cards: Seq::empty(), outcome: HandOutcome::IN_PLAY },
                name: name@,
            }),
    {
        Dealer { hand: DealerHand::create(), name: String::from_str(name) }
    }

    /// Gives the dealer an empty hand in play.
    pub fn game_reset(&mut self)
        ensures
            final(self).hand.wf(),
            final(self)@ == (DealerView {
                hand: DealerHandView { cards: Seq::empty(), outcome: HandOutcome::IN_PLAY },
                ..old(self)@
            }),
    {
        self.hand = DealerHand::create();
    }

    /// The dealer's up card: the first of the hand.
    pub fn top_card(&self) -> (card: Card)
        requires
            self@.hand.cards.len() >= 1,
        ensures
            card == self@.hand.cards[0],
    {
        self.hand.cards[0]
    }

    /// The dealer's hole card: the second of the hand.
    pub fn hole_card(&self) -> (card: Card)
        requires
            self@.hand.cards.len() >= 2,
        ensures
            card == self@.hand.cards[1],
    {
        self.hand.cards[1]
    }
}

} // verus!
