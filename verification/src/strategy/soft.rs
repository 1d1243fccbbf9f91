//! Basic strategy for a hand with an ace that counts as 11.

use vstd::prelude::*;

use crate::cards::{Card, CardRank};
use crate::strategy::Decision;
use crate::strategy::Decision::{Dh, Ds, H, NO, S};

verus! {

/// The soft-total table. A row is a soft hand total from 0 to 21, a column
/// the ordinal of the dealer's up card from ace (1) to king (13); column 0
/// stands for no card. A soft total is 12 at least, so the rows below 12
/// hold `NO`.
pub const SOFT_TOTAL_DECISIONS: [[Decision; 14]; 22] = [
    //0   A   2   3   4   5   6   7   8   9  10   J   Q   K
    [NO, NO, NO, NO, NO, NO, NO, NO, NO, NO, NO, NO, NO, NO],
    // soft hand total 1
    [NO, NO, NO, NO, NO, NO, NO, NO, NO, NO, NO, NO, NO, NO],
    // soft hand total 2
    [NO, NO, NO, NO, NO, NO, NO, NO, NO, NO, NO, NO, NO, NO],
    // soft hand total 3
    [NO, NO, NO, NO, NO, NO, NO, NO, NO, NO, NO, NO, NO, NO],
    // soft hand total 4
    [NO, NO, NO, NO, NO, NO, NO, NO, NO, NO, NO, NO, NO, NO],
    // soft hand total 5
    [NO, NO, NO, NO, NO, NO, NO, NO, NO, NO, NO, NO, NO, NO],
    // soft hand total 6
    [NO, NO, NO, NO, NO, NO, NO, NO, NO, NO, NO, NO, NO, NO],
    // soft hand total 7
    [NO, NO, NO, NO, NO, NO, NO, NO, NO, NO, NO, NO, NO, NO],
    // soft hand total 8
    [NO, NO, NO, NO, NO, NO, NO, NO, NO, NO, NO, NO, NO, NO],
    // soft hand total 9
    [NO, NO, NO, NO, NO, NO, NO, NO, NO, NO, NO, NO, NO, NO],
    // soft hand total 10
    [NO, NO, NO, NO, NO, NO, NO, NO, NO, NO, NO, NO, NO, NO],
    // soft hand total 11
    [NO, NO, NO, NO, NO, NO, NO, NO, NO, NO, NO, NO, NO, NO],
    // soft hand total 12
    [NO, H, H, H, H, H, Dh, H, H, H, H, H, H, H],
    // soft hand total 13
    [NO, H, H, H, H, Dh, Dh, H, H, H, H, H, H, H],
    // soft hand total 14
    [NO, H, H, H, H, Dh, Dh, H, H, H, H, H, H, H],
    // soft hand total 15
    [NO, H, H, H, Dh, Dh, Dh, H, H, H, H, H, H, H],
    // soft hand total 16
    [NO, H, H, H, Dh, Dh, Dh, H, H, H, H, H, H, H],
    // soft hand total 17
    [NO, H, H, Dh, Dh, Dh, Dh, H, H, H, H, H, H, H],
    // soft hand total 18
    [NO, H, Ds, Ds, Ds, Ds, Ds, S, S, H, H, H, H, H],
    // soft hand total 19
    [NO, S, S, S, S, S, Ds, S, S, S, S, S, S, S],
    // soft hand total 20
    [NO, S, S, S, S, S, S, S, S, S, S, S, S, S],
    // soft hand total 21
    [NO, S, S, S, S, S, S, S, S, S, S, S, S, S],
];

/// The cell of the soft-total table for a soft hand total and the rank of the
/// dealer's up card.
pub open spec fn spec_soft_total_decision(total: nat, dealer_rank: CardRank) -> Decision {
    SOFT_TOTAL_DECISIONS[total as int][dealer_rank.spec_discriminant() as int]
}

/// Reads the soft-total table.
pub fn get_soft_total_decision(player_hand_total: usize, dealer_top_card: &Card) -> (decision:
    Decision)
    requires
        player_hand_total <= 21,
    ensures
        decision == spec_soft_total_decision(player_hand_total as nat, dealer_top_card.rank),
{
    let dealer_top_card_rank = dealer_top_card.rank;
    SOFT_TOTAL_DECISIONS[player_hand_total][dealer_top_card_rank.discriminant()]
}

/// Every soft total from 12 to 21 has a decision against every up card, and
/// none of them is a split or a surrender: a soft hand stands, hits or
/// doubles.
pub proof fn lemma_soft_total_decided(total: nat, dealer_rank: CardRank)
    requires
        12 <= total <= 21,
    ensures
        spec_soft_total_decision(total, dealer_rank) == S || spec_soft_total_decision(
            total,
            dealer_rank,
        ) == H || spec_soft_total_decision(total, dealer_rank) == Dh || spec_soft_total_decision(
            total,
            dealer_rank,
        ) == Ds,
{
}

/// A soft 20 or 21 stands, and a soft 17 or less never does.
pub proof fn lemma_soft_total_extremes(total: nat, dealer_rank: CardRank)
    requires
        12 <= total <= 21,
    ensures
        total >= 20 ==> spec_soft_total_decision(total, dealer_rank) == S,
        total <= 17 ==> spec_soft_total_decision(total, dealer_rank) == H
            || spec_soft_total_decision(total, dealer_rank) == Dh,
{
}

} // verus!
