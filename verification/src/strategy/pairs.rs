//! Basic strategy for a pair: whether to split it.

use vstd::prelude::*;

use crate::cards::CardRank;
use crate::strategy::Decision;
use crate::strategy::Decision::{Dh, Usp, H, NO, S, SP};

verus! {

/// The pair table. A row is the ordinal of the rank that the player holds
/// twice, a column the ordinal of the dealer's up card, both from ace (1) to
/// king (13); row and column 0 stand for no card.
pub const PAIR_DECISIONS: [[Decision; 14]; 14] = [
    //0   A   2   3   4   5   6   7   8   9  10   J   Q   K
    [NO, NO, NO, NO, NO, NO, NO, NO, NO, NO, NO, NO, NO, NO],
    // pair of aces
    [NO, SP, SP, SP, SP, SP, SP, SP, SP, SP, SP, SP, SP, SP],
    // pair of twos
    [NO, H, SP, SP, SP, SP, SP, SP, H, H, H, H, H, H],
    // pair of threes
    [NO, H, SP, SP, SP, SP, SP, SP, H, H, H, H, H, H],
    // pair of fours
    [NO, H, H, H, H, SP, SP, H, H, H, H, H, H, H],
    // pair of fives
    [NO, H, Dh, Dh, Dh, Dh, Dh, Dh, Dh, Dh, H, H, H, H],
    // pair of sixes
    [NO, H, SP, SP, SP, SP, SP, H, H, H, H, H, H, H],
    // pair of sevens
    [NO, H, SP, SP, SP, SP, SP, SP, H, H, H, H, H, H],
    // pair of eights
    [NO, Usp, SP, SP, SP, SP, SP, SP, SP, SP, SP, SP, SP, SP],
    // pair of nines
    [NO, S, SP, SP, SP, SP, SP, S, SP, SP, S, S, S, S],
    // pair of tens
    [NO, S, S, S, S, S, S, S, S, S, S, S, S, S],
    // pair of jacks
    [NO, S, S, S, S, S, S, S, S, S, S, S, S, S],
    // pair of queens
    [NO, S, S, S, S, S, S, S, S, S, S, S, S, S],
    // pair of kings
    [NO, S, S, S, S, S, S, S, S, S, S, S, S, S],
];

/// The cell of the pair table for the rank of the pair and the rank of the
/// dealer's up card.
pub open spec fn spec_pair_decision(pair_rank: CardRank, dealer_rank: CardRank) -> Decision {
    PAIR_DECISIONS[pair_rank.spec_discriminant() as int][dealer_rank.spec_discriminant() as int]
}

/// Reads the pair table.
pub fn get_pair_decision(player_hand_pair_rank: CardRank, dealer_top_card_rank: CardRank) -> (decision:
    Decision)
    ensures
        decision == spec_pair_decision(player_hand_pair_rank, dealer_top_card_rank),
        decision != NO,
{
    PAIR_DECISIONS[player_hand_pair_rank.discriminant()][dealer_top_card_rank.discriminant()]
}

/// Aces are always split, and so are eights, but that eights against an ace
/// are surrendered where that is allowed. Fives and cards that count ten are
/// never split.
pub proof fn lemma_pair_table_rules(pair_rank: CardRank, dealer_rank: CardRank)
    ensures
        pair_rank == CardRank::ACE ==> spec_pair_decision(pair_rank, dealer_rank) == SP,
        pair_rank == CardRank::EIGHT && dealer_rank != CardRank::ACE ==> spec_pair_decision(
            pair_rank,
            dealer_rank,
        ) == SP,
        pair_rank == CardRank::EIGHT && dealer_rank == CardRank::ACE ==> spec_pair_decision(
            pair_rank,
            dealer_rank,
        ) == Usp,
        pair_rank == CardRank::FIVE || pair_rank.spec_value() == 10 ==> spec_pair_decision(
            pair_rank,
            dealer_rank,
        ) != SP && spec_pair_decision(pair_rank, dealer_rank) != Usp,
{
}

} // verus!
