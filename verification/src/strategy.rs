//! Basic strategy: the raw decisions that the tables hold, the actions that a
//! player takes, and the resolver that leads from a hand and the dealer's up
//! card to the action.

use vstd::prelude::*;
use vstd::string::*;

use crate::cards::{Card, CardRank};
use crate::hand::{lemma_hard_total_min, lemma_totals_bounds, HandView, PlayerHand};
use crate::rules::{HouseRules, HouseRulesView};
use crate::strategy::hard::{
    get_hard_total_decision, lemma_hard_total_decided, spec_hard_total_decision,
};
use crate::strategy::pairs::{get_pair_decision, spec_pair_decision};
use crate::strategy::soft::{
    get_soft_total_decision, lemma_soft_total_decided, spec_soft_total_decision,
};

pub mod hard;
pub mod pairs;
pub mod soft;

verus! {

/// A cell of a strategy table. Some cells name two actions: the first if the
/// rules and the state of the hand allow it, else the second.
#[derive(Copy, Clone, PartialEq, Eq, Structural, Debug)]
pub enum Decision {
    /// Stand.
    S,
    /// Hit.
    H,
    /// Double down if allowed, or hit.
    Dh,
    /// Double down if allowed, or stand.
    Ds,
    /// Split.
    SP,
    /// Surrender if allowed, or hit.
    Uh,
    /// Surrender if allowed, or stand.
    Us,
    /// Surrender if allowed, or split.
    Usp,
    /// No decision: the cell of a hand that cannot be.
    NO,
}

impl Decision {
    /// The ordinal of the decision, from 0 for `S` to 8 for `NO`.
    pub open spec fn spec_discriminant(self) -> nat {
        match self {
            Decision::S => 0,
            Decision::H => 1,
            Decision::Dh => 2,
            Decision::Ds => 3,
            Decision::SP => 4,
            Decision::Uh => 5,
            Decision::Us => 6,
            Decision::Usp => 7,
            Decision::NO => 8,
        }
    }

    /// The decision in words.
    pub open spec fn spec_label(self) -> Seq<char> {
        match self {
            Decision::S => "stand"@,
            Decision::H => "hit"@,
            Decision::Dh => "double-down-if-allowed-or-hit"@,
            Decision::Ds => "double-down-if-allowed-or-stand"@,
            Decision::SP => "split"@,
            Decision::Uh => "surrender-if-allowed-or-hit"@,
            Decision::Us => "surrender-if-allowed-or-stand"@,
            Decision::Usp => "surrender-if-allowed-or-split"@,
            Decision::NO => "no-decision"@,
        }
    }

    /// All decisions, in ordinal order.
    pub open spec fn spec_all() -> Seq<Decision> {
        seq![
            Decision::S,
            Decision::H,
            Decision::Dh,
            Decision::Ds,
            Decision::SP,
            Decision::Uh,
            Decision::Us,
            Decision::Usp,
            Decision::NO,
        ]
    }

    /// All decisions, in ordinal order.
    pub fn iterator() -> (decisions: Vec<Decision>)
        ensures
            decisions@ == Decision::spec_all(),
    {
        let decisions = vec![
            Decision::S,
            Decision::H,
            Decision::Dh,
            Decision::Ds,
            Decision::SP,
            Decision::Uh,
            Decision::Us,
            Decision::Usp,
            Decision::NO,
        ];
        assert(decisions@ =~= Decision::spec_all());
        decisions
    }

    /// The ordinal.
    pub fn discriminant(&self) -> (d: u8)
        ensures
            d == self.spec_discriminant(),
    {
        match self {
            Decision::S => 0,
            Decision::H => 1,
            Decision::Dh => 2,
            Decision::Ds => 3,
            Decision::SP => 4,
            Decision::Uh => 5,
            Decision::Us => 6,
            Decision::Usp => 7,
            Decision::NO => 8,
        }
    }

    /// The decision with the given ordinal; a number that is no ordinal gives
    /// `S`.
    pub fn transmute(discrim: u8) -> (decision: Decision)
        ensures
            discrim <= 8 ==> decision.spec_discriminant() == discrim,
            discrim > 8 ==> decision == Decision::S,
    {
        match discrim {
            0 => Decision::S,
            1 => Decision::H,
            2 => Decision::Dh,
            3 => Decision::Ds,
            4 => Decision::SP,
            5 => Decision::Uh,
            6 => Decision::Us,
            7 => Decision::Usp,
            8 => Decision::NO,
            _ => Decision::S,
        }
    }

    /// The text that stands for the value.
    pub fn to_string(&self) -> (s: String)
        ensures
            s@ == self.spec_label(),
    {
        match self {
            Decision::S => String::from_str("stand"),
            Decision::H => String::from_str("hit"),
            Decision::Dh => String::from_str("double-down-if-allowed-or-hit"),
            Decision::Ds => String::from_str("double-down-if-allowed-or-stand"),
            Decision::SP => String::from_str("split"),
            Decision::Uh => String::from_str("surrender-if-allowed-or-hit"),
            Decision::Us => String::from_str("surrender-if-allowed-or-stand"),
            Decision::Usp => String::from_str("surrender-if-allowed-or-split"),
            Decision::NO => String::from_str("no-decision"),
        }
    }
}

/// What a player does with a hand.
#[allow(non_camel_case_types)]
#[derive(Copy, Clone, PartialEq, Eq, Structural, Debug)]
pub enum PlayerDecision {
    STAND,
    HIT,
    DOUBLE,
    SPLIT,
    SURRENDER,
}

impl PlayerDecision {
    /// The ordinal of the action, from 0 for `STAND` to 4 for `SURRENDER`.
    pub open spec fn spec_discriminant(self) -> nat {
        match self {
            PlayerDecision::STAND => 0,
            PlayerDecision::HIT => 1,
            PlayerDecision::DOUBLE => 2,
            PlayerDecision::SPLIT => 3,
            PlayerDecision::SURRENDER => 4,
        }
    }

    /// The action in words.
    pub open spec fn spec_label(self) -> Seq<char> {
        match self {
            PlayerDecision::STAND => "stand"@,
            PlayerDecision::HIT => "hit"@,
            PlayerDecision::DOUBLE => "double-down"@,
            PlayerDecision::SPLIT => "split"@,
            PlayerDecision::SURRENDER => "surrender"@,
        }
    }

    /// All actions, in ordinal order.
    pub open spec fn spec_all() -> Seq<PlayerDecision> {
        seq![
            PlayerDecision::STAND,
            PlayerDecision::HIT,
            PlayerDecision::DOUBLE,
            PlayerDecision::SPLIT,
            PlayerDecision::SURRENDER,
        ]
    }

    /// All actions, in ordinal order.
    pub fn iterator() -> (decisions: Vec<PlayerDecision>)
        ensures
            decisions@ == PlayerDecision::spec_all(),
    {
        let decisions = vec![
            PlayerDecision::STAND,
            PlayerDecision::HIT,
            PlayerDecision::DOUBLE,
            PlayerDecision::SPLIT,
            PlayerDecision::SURRENDER,
        ];
        assert(decisions@ =~= PlayerDecision::spec_all());
        decisions
    }

    /// The ordinal.
    pub fn discriminant(&self) -> (d: u8)
        ensures
            d == self.spec_discriminant(),
    {
        match self {
            PlayerDecision::STAND => 0,
            PlayerDecision::HIT => 1,
            PlayerDecision::DOUBLE => 2,
            PlayerDecision::SPLIT => 3,
            PlayerDecision::SURRENDER => 4,
        }
    }

    /// The action with the given ordinal; a number that is no ordinal gives
    /// `STAND`.
    pub fn transmute(discrim: u8) -> (decision: PlayerDecision)
        ensures
            discrim <= 4 ==> decision.spec_discriminant() == discrim,
            discrim > 4 ==> decision == PlayerDecision::STAND,
    {
        match discrim {
            0 => PlayerDecision::STAND,
            1 => PlayerDecision::HIT,
            2 => PlayerDecision::DOUBLE,
            3 => PlayerDecision::SPLIT,
            4 => PlayerDecision::SURRENDER,
            _ => PlayerDecision::STAND,
        }
    }

    /// The text that stands for the value.
    pub fn to_string(&self) -> (s: String)
        ensures
            s@ == self.spec_label(),
    {
        match self {
            PlayerDecision::STAND => String::from_str("stand"),
            PlayerDecision::HIT => String::from_str("hit"),
            PlayerDecision::DOUBLE => String::from_str("double-down"),
            PlayerDecision::SPLIT => String::from_str("split"),
            PlayerDecision::SURRENDER => String::from_str("surrender"),
        }
    }
}

/// Whether the hand may be doubled down on. It is the player's first
/// decision on the hand, which then has its two cards; the hand did not come
/// out of a split, unless the rules let such a hand double; and the rules
/// allow doubling on its hard or on its soft total.
pub open spec fn spec_can_double_down(hand: HandView, rules: HouseRulesView) -> bool {
    &&& hand.cards.len() == 2
    &&& (!hand.from_split || rules.double_down_after_split)
    &&& (rules.double_down_on_totals.contains(hand.hard_count())
        || rules.double_down_on_totals.contains(hand.soft_count()))
}

/// Whether the hand may be surrendered: it is the player's first decision on
/// it, the hand did not come out of a split, and the rules allow surrender.
pub open spec fn spec_can_surrender(hand: HandView, rules: HouseRulesView) -> bool {
    &&& hand.cards.len() == 2
    &&& !hand.from_split
    &&& rules.surrender_allowed
}

/// The action that a table cell stands for, given whether the hand may be
/// doubled down on and whether it may be surrendered. `NO` stands for none.
pub open spec fn spec_resolve(decision: Decision, can_double_down: bool, can_surrender: bool)
    -> Option<PlayerDecision> {
    match decision {
        Decision::S => Some(PlayerDecision::STAND),
        Decision::H => Some(PlayerDecision::HIT),
        Decision::Dh => Some(
            if can_double_down {
                PlayerDecision::DOUBLE
            } else {
                PlayerDecision::HIT
            },
        ),
        Decision::Ds => Some(
            if can_double_down {
                PlayerDecision::DOUBLE
            } else {
                PlayerDecision::STAND
            },
        ),
        Decision::SP => Some(PlayerDecision::SPLIT),
        Decision::Uh => Some(
            if can_surrender {
                PlayerDecision::SURRENDER
            } else {
                PlayerDecision::HIT
            },
        ),
        Decision::Us => Some(
            if can_surrender {
                PlayerDecision::SURRENDER
            } else {
                PlayerDecision::STAND
            },
        ),
        Decision::Usp => Some(
            if can_surrender {
                PlayerDecision::SURRENDER
            } else {
                PlayerDecision::SPLIT
            },
        ),
        Decision::NO => None,
    }
}

/// The action that a table cell stands for in the given hand under the given
/// rules.
pub open spec fn spec_player_decision(decision: Decision, hand: HandView, rules: HouseRulesView)
    -> Option<PlayerDecision> {
    spec_resolve(decision, spec_can_double_down(hand, rules), spec_can_surrender(hand, rules))
}

/// The row of the pair table for a pair that starts with this card: all
/// cards that count ten share the row of the ten.
pub open spec fn spec_pair_rank(card: Card) -> CardRank {
    if card.rank.spec_value() == 10 {
        CardRank::TEN
    } else {
        card.rank
    }
}

/// Whether the hand is played by its soft total: an ace counts as 11 in it,
/// and it is not over 21.
pub open spec fn spec_is_soft(hand: HandView) -> bool {
    hand.hard_count() < hand.soft_count() <= 21
}

/// The table cell that decides the hand once a split is off: that of the
/// soft-total table for a soft hand, else that of the hard-total table.
pub open spec fn spec_total_decision(dealer_rank: CardRank, hand: HandView) -> Decision {
    if spec_is_soft(hand) {
        spec_soft_total_decision(hand.soft_count(), dealer_rank)
    } else {
        spec_hard_total_decision(hand.hard_count(), dealer_rank)
    }
}

/// Whether basic strategy splits the hand: it is a pair, the wager has room
/// for another hand, and the cell of the pair table resolves to a split.
pub open spec fn spec_splits(
    dealer_rank: CardRank,
    hand: HandView,
    hand_allow_more_splits: bool,
    rules: HouseRulesView,
) -> bool {
    &&& hand.can_split(rules.split_on_value_match)
    &&& hand_allow_more_splits
    &&& spec_player_decision(
        spec_pair_decision(spec_pair_rank(hand.cards[0]), dealer_rank),
        hand,
        rules,
    ) == Some(PlayerDecision::SPLIT)
}

/// The action of basic strategy for a hand against the dealer's up card. A
/// pair is split where the pair table says so; whatever else the pair table
/// says is left to the totals, which decide every other hand.
pub open spec fn spec_basic_strategy(
    dealer_rank: CardRank,
    hand: HandView,
    hand_allow_more_splits: bool,
    rules: HouseRulesView,
) -> Option<PlayerDecision> {
    if spec_splits(dealer_rank, hand, hand_allow_more_splits, rules) {
        Some(PlayerDecision::SPLIT)
    } else {
        spec_player_decision(spec_total_decision(dealer_rank, hand), hand, rules)
    }
}

/// Basic strategy is a function of the rank of the dealer's up card, the
/// cards of the hand, whether the hand came out of a split, whether the wager
/// has room for another hand, and the rules. The suit of the up card, the bet
/// and the outcome recorded on the hand play no part: two decisions that
/// agree in the former are the same decision.
pub proof fn lemma_basic_strategy_is_deterministic(
    dealer_top_card: Card,
    other_dealer_top_card: Card,
    hand: HandView,
    other_hand: HandView,
    hand_allow_more_splits: bool,
    rules: HouseRulesView,
)
    requires
        dealer_top_card.rank == other_dealer_top_card.rank,
        hand.cards == other_hand.cards,
        hand.from_split == other_hand.from_split,
    ensures
        spec_basic_strategy(dealer_top_card.rank, hand, hand_allow_more_splits, rules)
            == spec_basic_strategy(
            other_dealer_top_card.rank,
            other_hand,
            hand_allow_more_splits,
            rules,
        ),
{
}

/// Basic strategy has an action for every hand of two or more cards that is
/// not over 21. A split is chosen only for a pair, on the first decision and
/// while the wager has room; a double or a surrender only on the first
/// decision.
pub proof fn lemma_basic_strategy_is_total(
    dealer_rank: CardRank,
    hand: HandView,
    hand_allow_more_splits: bool,
    rules: HouseRulesView,
)
    requires
        hand.cards.len() >= 2,
        hand.hard_count() <= 21,
    ensures
        spec_basic_strategy(dealer_rank, hand, hand_allow_more_splits, rules) is Some,
        spec_basic_strategy(dealer_rank, hand, hand_allow_more_splits, rules) == Some(
            PlayerDecision::SPLIT,
        ) ==> hand.can_split(rules.split_on_value_match) && hand_allow_more_splits,
        spec_basic_strategy(dealer_rank, hand, hand_allow_more_splits, rules) == Some(
            PlayerDecision::DOUBLE,
        ) ==> spec_can_double_down(hand, rules),
        spec_basic_strategy(dealer_rank, hand, hand_allow_more_splits, rules) == Some(
            PlayerDecision::SURRENDER,
        ) ==> spec_can_surrender(hand, rules),
{
    lemma_totals_bounds(hand.cards);
    lemma_hard_total_min(hand.cards);
    if spec_is_soft(hand) {
        lemma_soft_total_decided(hand.soft_count(), dealer_rank);
    } else {
        lemma_hard_total_decided(hand.hard_count(), dealer_rank);
    }
}

/// Turns a table cell into the action for this hand under the given rules.
/// A cell that names two actions gives the first where the hand may take it,
/// else the second. `NO` is no cell of a hand that can be, and is not
/// accepted.
pub fn convert_to_player_decision_with_rules(
    decision: Decision,
    player_hand: &PlayerHand,
    rules: &HouseRules,
) -> (player_decision: PlayerDecision)
    requires
        player_hand.wf(),
        decision != Decision::NO,
    ensures
        Some(player_decision) == spec_player_decision(decision, player_hand@, rules@),
{
    let is_first_decision: bool = player_hand.num_cards() == 2;
    let is_first_post_split_decision: bool = is_first_decision && player_hand.is_from_split();

    let hard_count: usize = player_hand.hard_count();
    let soft_count: usize = player_hand.soft_count();

    match decision {
        Decision::S => PlayerDecision::STAND,
        Decision::H => PlayerDecision::HIT,
        Decision::Dh | Decision::Ds => {
            let non_double_down_decision = if decision == Decision::Dh {
                PlayerDecision::HIT
            } else {
                PlayerDecision::STAND
            };
            let can_double_down: bool = if is_first_decision {
                if is_first_post_split_decision {
                    rules.double_down_after_split
                } else {
                    true
                }
            } else {
                false
            };
            if can_double_down {
                let double_down: bool = rules.can_double_down(hard_count) || rules.can_double_down(
                    soft_count,
                );
                if double_down {
                    PlayerDecision::DOUBLE
                } else {
                    non_double_down_decision
                }
            } else {
                non_double_down_decision
            }
        },
        Decision::SP => PlayerDecision::SPLIT,
        // What is left are the three cells that surrender if allowed.
        _ => {
            let non_surrender_decision = match decision {
                Decision::Uh => PlayerDecision::HIT,
                Decision::Us => PlayerDecision::STAND,
                _ => PlayerDecision::SPLIT,
            };
            let can_surrender_be_played: bool = is_first_decision && !is_first_post_split_decision
                && rules.surrender_allowed;
            if can_surrender_be_played {
                PlayerDecision::SURRENDER
            } else {
                non_surrender_decision
            }
        },
    }
}

/// Turns a table cell into the action for this hand under the standard
/// rules.
pub fn convert_to_player_decision(decision: Decision, player_hand: &PlayerHand) -> (player_decision:
    PlayerDecision)
    requires
        player_hand.wf(),
        decision != Decision::NO,
    ensures
        Some(player_decision) == spec_player_decision(
            decision,
            player_hand@,
            HouseRulesView::standard(),
        ),
{
    let rules = HouseRules::standard();
    convert_to_player_decision_with_rules(decision, player_hand, &rules)
}

/// The action of basic strategy for the hand against the dealer's up card,
/// under the given rules. `hand_allow_more_splits` says whether the wager
/// has room for another hand.
///
/// The hand has the two cards of the deal at least and is not over 21: there
/// is nothing to decide on any other hand, and the tables have no row for
/// it.
pub fn determine_basic_strategy_with_rules(
    dealer_top_card: &Card,
    player_hand: &PlayerHand,
    hand_allow_more_splits: bool,
    rules: &HouseRules,
) -> (player_decision: PlayerDecision)
    requires
        player_hand.wf(),
        player_hand@.cards.len() >= 2,
        player_hand@.hard_count() <= 21,
    ensures
        Some(player_decision) == spec_basic_strategy(
            dealer_top_card.rank,
            player_hand@,
            hand_allow_more_splits,
            rules@,
        ),
{
    let is_first_decision: bool = player_hand.num_cards() == 2;

    let player_card1 = player_hand.get_card(0);
    let player_card2 = player_hand.get_card(1);

    let got_pairs: bool = if is_first_decision {
        if rules.split_on_value_match {
            player_card1.rank.value() == player_card2.rank.value()
        } else {
            player_card1.rank == player_card2.rank
        }
    } else {
        false
    };

    if got_pairs && hand_allow_more_splits {
        // What the pair table says other than to split is passed over: it
        // does not contradict what the totals say.
        let pair_rank = if player_card1.rank.value() == 10 {
            CardRank::TEN
        } else {
            player_card1.rank
        };
        let decision = get_pair_decision(pair_rank, dealer_top_card.rank);
        let player_decision = convert_to_player_decision_with_rules(decision, player_hand, rules);
        if player_decision == PlayerDecision::SPLIT {
            return PlayerDecision::SPLIT;
        }
    }

    let hard_count: usize = player_hand.hard_count();
    let soft_count: usize = player_hand.soft_count();
    let use_soft_count: bool = hard_count < soft_count && soft_count <= 21;

    proof {
        lemma_totals_bounds(player_hand@.cards);
        lemma_hard_total_min(player_hand@.cards);
        if use_soft_count {
            lemma_soft_total_decided(soft_count as nat, dealer_top_card.rank);
        } else {
            lemma_hard_total_decided(hard_count as nat, dealer_top_card.rank);
        }
    }

    let decision = if use_soft_count {
        get_soft_total_decision(soft_count, dealer_top_card)
    } else {
        get_hard_total_decision(hard_count, dealer_top_card)
    };

    convert_to_player_decision_with_rules(decision, player_hand, rules)
}

/// The action of basic strategy for the hand against the dealer's up card,
/// under the standard rules.
pub fn determine_basic_strategy(
    dealer_top_card: &Card,
    player_hand: &PlayerHand,
    hand_allow_more_splits: bool,
) -> (player_decision: PlayerDecision)
    requires
        player_hand.wf(),
        player_hand@.cards.len() >= 2,
        player_hand@.hard_count() <= 21,
    ensures
        Some(player_decision) == spec_basic_strategy(
            dealer_top_card.rank,
            player_hand@,
            hand_allow_more_splits,
            HouseRulesView::standard(),
        ),
{
    let rules = HouseRules::standard();
    determine_basic_strategy_with_rules(dealer_top_card, player_hand, hand_allow_more_splits, &rules)
}

} // verus!
