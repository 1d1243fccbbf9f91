//! House rules: the table's standard rules as constants, and the same rules
//! as a value that the evaluator, the split engine and the resolver read.

use vstd::prelude::*;

verus! {

/// The number of decks in the shoe.
pub const DECKS_IN_SHOE: usize = 6;

/// Once more cards than this have left the shoe, it is shuffled before the
/// next round: three quarters of the shoe.
pub const FORCE_RESHUFFLE: usize = ((52 * DECKS_IN_SHOE) * 3) / 4;

/// After a pair of aces is split, both hands stand on the one card dealt to
/// each.
pub const NO_MORE_CARDS_AFTER_SPLITTING_ACES: bool = true;

/// The totals on which a player may double down.
pub const CAN_DOUBLE_DOWN_ON_TOTAL: [usize; 21] = [
    1, 2, 3, 4, 5, 6, 7, 8, 9, 10, 11, 12, 13, 14, 15, 16, 17, 18, 19, 20, 21,
];

/// Doubling down is open to a hand that came out of a split.
pub const DOUBLE_DOWN_AFTER_SPLIT: bool = true;

/// How often one wagered hand may be split: with 3, it grows to 4 hands at
/// most.
pub const SPLITS_PER_HAND: usize = 3;

/// Two cards make a pair when they count the same, so that a king and a ten
/// can be split; otherwise only when their ranks are the same.
pub const SPLIT_ON_VALUE_MATCH: bool = true;

/// The dealer draws on a hard total up to and including this one.
pub const DEALER_HITS_HARD_ON: usize = 16;

/// The dealer draws on a soft total below this one.
pub const DEALER_HITS_SOFT_ON: usize = 17;

/// A natural pays the wager times this numerator over this denominator: 3 to 2.
pub const NATURAL_BLACKJACK_PAYOUT_NUMERATOR: u32 = 3;

/// The denominator of the payout ratio of a natural.
pub const NATURAL_BLACKJACK_PAYOUT_DENOMINATOR: u32 = 2;

/// A player may surrender a hand on the first decision.
pub const SURRENDER_ALLOWED: bool = true;

/// Whether the standard rules let a player double down on this total.
pub fn can_double_down(top_card_value: usize) -> (allowed: bool)
    ensures
        allowed == CAN_DOUBLE_DOWN_ON_TOTAL@.contains(top_card_value),
        allowed == (1 <= top_card_value <= 21),
{
    let mut i: usize = 0;
    while i < 21
        invariant
            i <= 21,
            forall|j: int| 0 <= j < i ==> CAN_DOUBLE_DOWN_ON_TOTAL@[j] != top_card_value,
            forall|j: int| 0 <= j < 21 ==> CAN_DOUBLE_DOWN_ON_TOTAL@[j] == j + 1,
        decreases 21 - i,
    {
        if CAN_DOUBLE_DOWN_ON_TOTAL[i] == top_card_value {
            return true;
        }
        i += 1;
    }
    assert(!(1 <= top_card_value <= 21)) by {
        if 1 <= top_card_value <= 21 {
            assert(CAN_DOUBLE_DOWN_ON_TOTAL@[top_card_value - 1] == top_card_value);
        }
    }
    false
}

/// The rules of one table. The engine reads them and never changes them.
pub struct HouseRules {
    pub no_more_cards_after_splitting_aces: bool,
    pub double_down_on_totals: Vec<usize>,
    pub double_down_after_split: bool,
    pub splits_per_hand: usize,
    pub split_on_value_match: bool,
    pub dealer_hits_hard_on: usize,
    pub dealer_hits_soft_on: usize,
    pub natural_blackjack_payout_numerator: u32,
    pub natural_blackjack_payout_denominator: u32,
    pub surrender_allowed: bool,
}

/// What the rules say, as mathematics.
pub struct HouseRulesView {
    pub no_more_cards_after_splitting_aces: bool,
    pub double_down_on_totals: Set<nat>,
    pub double_down_after_split: bool,
    pub splits_per_hand: nat,
    pub split_on_value_match: bool,
    pub dealer_hits_hard_on: nat,
    pub dealer_hits_soft_on: nat,
    pub natural_blackjack_payout_numerator: nat,
    pub natural_blackjack_payout_denominator: nat,
    pub surrender_allowed: bool,
}

impl HouseRulesView {
    /// The standard rules of this table.
    pub open spec fn standard() -> HouseRulesView {
        HouseRulesView {
            no_more_cards_after_splitting_aces: true,
            double_down_on_totals: Set::new(|total: nat| 1 <= total <= 21),
            double_down_after_split: true,
            splits_per_hand: 3,
            split_on_value_match: true,
            dealer_hits_hard_on: 16,
            dealer_hits_soft_on: 17,
            natural_blackjack_payout_numerator: 3,
            natural_blackjack_payout_denominator: 2,
            surrender_allowed: true,
        }
    }

    /// The most hands that one wager can fan out to: the first and one for
    /// each split.
    pub open spec fn hands_limit(self) -> nat {
        self.splits_per_hand + 1
    }
}

impl View for HouseRules {
    type V = HouseRulesView;

    open spec fn view(&self) -> HouseRulesView {
        HouseRulesView {
            no_more_cards_after_splitting_aces: self.no_more_cards_after_splitting_aces,
            double_down_on_totals: Set::new(
                |total: nat|
                    exists|i: int|
                        0 <= i < self.double_down_on_totals@.len()
                            && self.double_down_on_totals@[i] == total,
            ),
            double_down_after_split: self.double_down_after_split,
            splits_per_hand: self.splits_per_hand as nat,
            split_on_value_match: self.split_on_value_match,
            dealer_hits_hard_on: self.dealer_hits_hard_on as nat,
            dealer_hits_soft_on: self.dealer_hits_soft_on as nat,
            natural_blackjack_payout_numerator: self.natural_blackjack_payout_numerator as nat,
            natural_blackjack_payout_denominator: self.natural_blackjack_payout_denominator as nat,
            surrender_allowed: self.surrender_allowed,
        }
    }
}

impl HouseRules {
    /// Rules that the engine can work with: the payout ratio has a
    /// denominator, and the limit on hands fits a machine word.
    pub open spec fn wf(&self) -> bool {
        &&& self.natural_blackjack_payout_denominator > 0
        &&& self.splits_per_hand < usize::MAX
    }

    /// The standard rules of this table, as the constants above give them.
    pub fn standard() -> (rules: HouseRules)
        ensures
            rules.wf(),
            rules@ == HouseRulesView::standard(),
    {
        let mut totals: Vec<usize> = Vec::new();
        let mut i: usize = 0;
        while i < 21
            invariant
                i <= 21,
                totals@.len() == i,
                forall|j: int| 0 <= j < i ==> totals@[j] == j + 1,
                forall|j: int| 0 <= j < 21 ==> CAN_DOUBLE_DOWN_ON_TOTAL@[j] == j + 1,
            decreases 21 - i,
        {
            totals.push(CAN_DOUBLE_DOWN_ON_TOTAL[i]);
            i += 1;
        }
        let rules = HouseRules {
            no_more_cards_after_splitting_aces: NO_MORE_CARDS_AFTER_SPLITTING_ACES,
            double_down_on_totals: totals,
            double_down_after_split: DOUBLE_DOWN_AFTER_SPLIT,
            splits_per_hand: SPLITS_PER_HAND,
            split_on_value_match: SPLIT_ON_VALUE_MATCH,
            dealer_hits_hard_on: DEALER_HITS_HARD_ON,
            dealer_hits_soft_on: DEALER_HITS_SOFT_ON,
            natural_blackjack_payout_numerator: NATURAL_BLACKJACK_PAYOUT_NUMERATOR,
            natural_blackjack_payout_denominator: NATURAL_BLACKJACK_PAYOUT_DENOMINATOR,
            surrender_allowed: SURRENDER_ALLOWED,
        };
        proof {
            assert forall|total: nat|
                rules@.double_down_on_totals.contains(total) == (1 <= total <= 21) by {
                if 1 <= total <= 21 {
                    assert(totals@[total - 1] == total);
                }
            }
            assert(rules@.double_down_on_totals =~= HouseRulesView::standard().double_down_on_totals);
        }
        rules
    }

    /// Whether these rules let a player double down on this total.
    pub fn can_double_down(&self, total: usize) -> (allowed: bool)
        ensures
            allowed == self@.double_down_on_totals.contains(total as nat),
    {
        let mut i: usize = 0;
        while i < self.double_down_on_totals.len()
            invariant
                i <= self.double_down_on_totals@.len(),
                forall|j: int| 0 <= j < i ==> self.double_down_on_totals@[j] != total,
            decreases self.double_down_on_totals@.len() - i,
        {
            if self.double_down_on_totals[i] == total {
                return true;
            }
            i += 1;
        }
        false
    }
}

} // verus!
