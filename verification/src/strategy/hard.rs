//! Basic strategy for a hand that is played by its hard total.

use vstd::prelude::*;

use crate::cards::{Card, CardRank};
use crate::strategy::Decision;
use crate::strategy::Decision::{Dh, Uh, Us, H, NO, S};

verus! {

/// The hard-total table. A row is a hand total from 0 to 21, a column the
/// ordinal of the dealer's up card from ace (1) to king (13); column 0
/// stands for no card. A cell that no hand of two or more cards reaches
/// holds `NO`.
pub const HARD_TOTAL_DECISIONS: [[Decision; 14]; 22] = [
    //0   A   2   3   4   5   6   7   8   9  10   J   Q   K
    [NO, NO, NO, NO, NO, NO, NO, NO, NO, NO, NO, NO, NO, NO],
    // hand total 1
    [NO, NO, NO, NO, NO, NO, NO, NO, NO, NO, NO, NO, NO, NO],
    // hand total 2
    [NO, NO, NO, NO, NO, NO, NO, NO, NO, NO, NO, NO, NO, NO],
    // hand total 3
    [NO, NO, NO, NO, NO, NO, NO, NO, NO, NO, NO, NO, NO, NO],
    // hand total 4
    [NO, H, H, H, H, H, H, H, H, H, H, H, H, H],
    // hand total 5
    [NO, H, H, H, H, H, H, H, H, H, H, H, H, H],
    // hand total 6
    [NO, H, H, H, H, H, H, H, H, H, H, H, H, H],
    // hand total 7
    [NO, H, H, H, H, H, H, H, H, H, H, H, H, H],
    // hand total 8
    [NO, H, H, H, H, H, H, H, H, H, H, H, H, H],
    // hand total 9
    [NO, H, H, Dh, Dh, Dh, Dh, H, H, H, H, H, H, H],
    // hand total 10
    [NO, H, Dh, Dh, Dh, Dh, Dh, Dh, Dh, Dh, H, H, H, H],
    // hand total 11
    [NO, Dh, Dh, Dh, Dh, Dh, Dh, Dh, Dh, Dh, Dh, Dh, Dh, Dh],
    // hand total 12
    [NO, H, H, H, S, S, S, H, H, H, H, H, H, H],
    // hand total 13
    [NO, H, S, S, S, S, S, H, H, H, H, H, H, H],
    // hand total 14
    [NO, H, S, S, S, S, S, H, H, H, H, H, H, H],
    // hand total 15
    [NO, Uh, S, S, S, S, S, H, H, H, Uh, Uh, Uh, Uh],
    // hand total 16
    [NO, Uh, S, S, S, S, S, H, H, Uh, Uh, Uh, Uh, Uh],
    // hand total 17
    [NO, Us, S, S, S, S, S, S, S, S, S, S, S, S],
    // hand total 18
    [NO, S, S, S, S, S, S, S, S, S, S, S, S, S],
    // hand total 19
    [NO, S, S, S, S, S, S, S, S, S, S, S, S, S],
    // hand total 20
    [NO, S, S, S, S, S, S, S, S, S, S, S, S, S],
    // hand total 21
    [NO, S, S, S, S, S, S, S, S, S, S, S, S, S],
];

/// The cell of the hard-total table for a hand total and the rank of the
/// dealer's up card.
pub open spec fn spec_hard_total_decision(total: nat, dealer_rank: CardRank) -> Decision {
    HARD_TOTAL_DECISIONS[total as int][dealer_rank.spec_discriminant() as int]
}

/// Reads the hard-total table.
pub fn get_hard_total_decision(player_hand_total: usize, dealer_top_card: &Card) -> (decision:
    Decision)
    requires
        player_hand_total <= 21,
    ensures
        decision == spec_hard_total_decision(player_hand_total as nat, dealer_top_card.rank),
{
    let dealer_top_card_rank = dealer_top_card.rank;
    HARD_TOTAL_DECISIONS[player_hand_total][dealer_top_card_rank.discriminant()]
}

/// Every hand total from 4 to 21 has a decision against every up card, and
/// none of them is a split: the table knows standing, hitting, doubling and
/// surrender.
pub proof fn lemma_hard_total_decided(total: nat, dealer_rank: CardRank)
    requires
        4 <= total <= 21,
    ensures
        spec_hard_total_decision(total, dealer_rank) != NO,
        spec_hard_total_decision(total, dealer_rank) != Decision::SP,
        spec_hard_total_decision(total, dealer_rank) != Decision::Usp,
        spec_hard_total_decision(total, dealer_rank) != Decision::Ds,
{
}

/// On 17 or more the player stands, but for a 17 against an ace, which is
/// surrendered where that is allowed; on 8 or less the player hits.
pub proof fn lemma_hard_total_extremes(total: nat, dealer_rank: CardRank)
    requires
        4 <= total <= 21,
    ensures
        total >= 17 && !(total == 17 && dealer_rank == CardRank::ACE) ==> spec_hard_total_decision(
            total,
            dealer_rank,
        ) == S,
        total == 17 && dealer_rank == CardRank::ACE ==> spec_hard_total_decision(
            total,
            dealer_rank,
        ) == Us,
        total <= 8 ==> spec_hard_total_decision(total, dealer_rank) == H,
        total == 11 ==> spec_hard_total_decision(total, dealer_rank) == Dh,
{
}

} // verus!
