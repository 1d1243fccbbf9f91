//! The turns of a round: how a player's hand and the dealer's hand are
//! played out of the shoe.

use vstd::prelude::*;

use crate::cards::{Card, CardRank};
use crate::game::BlackJack;
use crate::hand::{
    lemma_totals_bounds, lemma_totals_push, DealerHand, DealerHandView, HandView, MasterHandView,
    PlayerMasterHand,
};
use crate::player::{Player, PlayerView};
use crate::rules::{HouseRules, HouseRulesView};
use crate::strategy::{
    determine_basic_strategy_with_rules, lemma_basic_strategy_is_total, spec_basic_strategy,
    PlayerDecision,
};

verus! {

/// How far a turn got: the hands as it left them, the place in the shoe, and
/// whether the turn came to its end. A turn that needs a card from a shoe
/// that has none left stops where it is and is not complete.
pub struct WagerTurn {
    pub master_hand: MasterHandView,
    pub shoe_top: nat,
    pub complete: bool,
}

/// One decision of a turn: the hands after it, the place in the shoe, and
/// whether the player decides again on the same hand. Where the player does
/// not, `complete` says whether the turn came to its end.
pub struct WagerStep {
    pub master_hand: MasterHandView,
    pub shoe_top: nat,
    pub again: bool,
    pub complete: bool,
}

impl MasterHandView {
    /// The hands with the one at `hand_index` replaced.
    pub open spec fn with_hand(self, hand_index: int, hand: HandView) -> MasterHandView {
        MasterHandView { hands: self.hands.update(hand_index, hand), ..self }
    }

    /// Whether the wager has room for one more hand.
    pub open spec fn has_room(self) -> bool {
        self.hands.len() < self.hands_limit
    }
}

/// Whether a hand is one that a turn can be played on: it is over, or it has
/// the two cards of the deal at least, is not over 21, and carries a bet that
/// can be doubled.
pub open spec fn spec_playable(hand: HandView) -> bool {
    hand.is_hand_over() || (hand.cards.len() >= 2 && hand.hard_count() <= 21 && hand.bet * 2
        <= u32::MAX)
}

/// Whether a hand is in a state that a round can bring about and settle. A
/// hand that came out of a split has a card. A hand that is over carries a
/// bet that fits a result. A hand in play has the two cards of the deal at
/// least, is not over 21, and carries a bet that still fits a result when
/// doubled.
pub open spec fn spec_sound(hand: HandView) -> bool {
    &&& hand.from_split ==> hand.cards.len() > 0
    &&& if hand.is_hand_over() {
        hand.bet <= i32::MAX
    } else {
        hand.cards.len() >= 2 && hand.hard_count() <= 21 && hand.bet * 2 <= i32::MAX
    }
}

/// Whether a wager is in a state that a round can bring about and settle:
/// it has no more hands than its limit allows, and each of them is sound.
pub open spec fn spec_wager_sound(master_hand: MasterHandView) -> bool {
    &&& master_hand.hands.len() <= master_hand.hands_limit
    &&& forall|h: int| 0 <= h < master_hand.hands.len() ==> spec_sound(#[trigger] master_hand.hands[h])
}

/// A turn on the hand at `hand_index` leaves the other hands that were there
/// before as they were, and the limit on the hands too: it changes that hand
/// and adds hands at the end.
pub open spec fn spec_untouched(before: MasterHandView, after: MasterHandView, hand_index: int)
    -> bool {
    &&& after.hands_limit == before.hands_limit
    &&& after.hands.len() >= before.hands.len()
    &&& forall|j: int|
        0 <= j < before.hands.len() && j != hand_index ==> #[trigger] after.hands[j]
            == before.hands[j]
}

/// One decision of a player's turn on the hand at `hand_index`, taken by
/// basic strategy against the dealer's up card, with the cards of the shoe
/// from `shoe_top` on.
///
/// A hand that is over is left alone. Else the player stands; or surrenders;
/// or doubles down on the next card; or takes the next card, and decides
/// again unless it made the hand bust; or splits the hand with the next two
/// cards and decides again on the hand that stays in place, but that both
/// halves of a pair of aces stand at once where the rules deal such hands no
/// more cards. Basic strategy splits only where the wager has room for one
/// more hand. A decision that needs more cards than the shoe has left
/// changes nothing and leaves the turn incomplete.
pub open spec fn spec_hand_step(
    master_hand: MasterHandView,
    hand_index: int,
    dealer_rank: CardRank,
    shoe: Seq<Card>,
    shoe_top: nat,
    rules: HouseRulesView,
) -> WagerStep {
    let hand = master_hand.hands[hand_index];
    let done = WagerStep {
        master_hand: master_hand,
        shoe_top: shoe_top,
        again: false,
        complete: true,
    };
    let stopped = WagerStep { complete: false, ..done };
    if hand.is_hand_over() {
        done
    } else {
        match spec_basic_strategy(dealer_rank, hand, master_hand.has_room(), rules) {
            Some(PlayerDecision::STAND) => WagerStep {
                master_hand: master_hand.with_hand(hand_index, hand.stand()),
                ..done
            },
            Some(PlayerDecision::SURRENDER) => WagerStep {
                master_hand: master_hand.with_hand(hand_index, hand.surrender()),
                ..done
            },
            Some(PlayerDecision::DOUBLE) => if shoe_top < shoe.len() {
                WagerStep {
                    master_hand: master_hand.with_hand(
                        hand_index,
                        hand.double_down(shoe[shoe_top as int]),
                    ),
                    shoe_top: shoe_top + 1,
                    ..done
                }
            } else {
                stopped
            },
            Some(PlayerDecision::HIT) => if shoe_top < shoe.len() {
                let drawn = hand.hit(shoe[shoe_top as int]);
                WagerStep {
                    master_hand: master_hand.with_hand(hand_index, drawn),
                    shoe_top: shoe_top + 1,
                    again: !drawn.is_hand_over(),
                    complete: true,
                }
            } else {
                stopped
            },
            Some(PlayerDecision::SPLIT) => if !master_hand.has_room() {
                done
            } else if shoe_top + 2 <= shoe.len() {
                let split = master_hand.split(
                    hand_index,
                    seq![shoe[shoe_top as int], shoe[shoe_top as int + 1]],
                );
                if hand.cards[0].rank == CardRank::ACE && rules.no_more_cards_after_splitting_aces {
                    let new_hand_index = master_hand.hands.len() as int;
                    WagerStep {
                        master_hand: split.with_hand(
                            hand_index,
                            split.hands[hand_index].stand(),
                        ).with_hand(new_hand_index, split.hands[new_hand_index].stand()),
                        shoe_top: shoe_top + 2,
                        ..done
                    }
                } else {
                    WagerStep { master_hand: split, shoe_top: shoe_top + 2, again: true, complete: true }
                }
            } else {
                stopped
            },
            None => done,
        }
    }
}

/// A player's turn on the hand at `hand_index`: one decision after another,
/// until the player does not decide again on the hand.
pub open spec fn spec_play_hand(
    master_hand: MasterHandView,
    hand_index: int,
    dealer_rank: CardRank,
    shoe: Seq<Card>,
    shoe_top: nat,
    rules: HouseRulesView,
) -> WagerTurn
    decreases shoe.len() - shoe_top,
{
    let step = spec_hand_step(master_hand, hand_index, dealer_rank, shoe, shoe_top, rules);
    if step.again && shoe_top < step.shoe_top <= shoe.len() {
        spec_play_hand(step.master_hand, hand_index, dealer_rank, shoe, step.shoe_top, rules)
    } else {
        WagerTurn {
            master_hand: step.master_hand,
            shoe_top: step.shoe_top,
            complete: step.complete,
        }
    }
}

/// Replacing a hand of a sound wager by a sound hand leaves the wager sound.
pub proof fn lemma_with_hand_sound(master_hand: MasterHandView, hand_index: int, hand: HandView)
    requires
        spec_wager_sound(master_hand),
        0 <= hand_index < master_hand.hands.len(),
        spec_sound(hand),
    ensures
        spec_wager_sound(master_hand.with_hand(hand_index, hand)),
{
    let after = master_hand.with_hand(hand_index, hand);
    assert forall|h: int| 0 <= h < after.hands.len() implies spec_sound(#[trigger] after.hands[h]) by {
        if h != hand_index {
            assert(after.hands[h] == master_hand.hands[h]);
        }
    }
}

/// Splitting a pair in play in a sound wager that has room leaves the wager
/// sound.
pub proof fn lemma_split_sound(master_hand: MasterHandView, hand_index: int, cards: Seq<Card>)
    requires
        spec_wager_sound(master_hand),
        0 <= hand_index < master_hand.hands.len(),
        master_hand.has_room(),
        !master_hand.hands[hand_index].is_hand_over(),
        master_hand.hands[hand_index].cards.len() == 2,
    ensures
        spec_wager_sound(master_hand.split(hand_index, cards)),
{
    let hand = master_hand.hands[hand_index];
    let after = master_hand.split(hand_index, cards);
    assert(spec_sound(hand));
    let first = seq![hand.cards[0], cards[0]];
    let second = seq![hand.cards[1], cards[1]];
    lemma_totals_push(Seq::<Card>::empty(), hand.cards[0]);
    lemma_totals_push(seq![hand.cards[0]], cards[0]);
    assert(Seq::<Card>::empty().push(hand.cards[0]) =~= seq![hand.cards[0]]);
    assert(seq![hand.cards[0]].push(cards[0]) =~= first);
    lemma_totals_push(Seq::<Card>::empty(), hand.cards[1]);
    lemma_totals_push(seq![hand.cards[1]], cards[1]);
    assert(Seq::<Card>::empty().push(hand.cards[1]) =~= seq![hand.cards[1]]);
    assert(seq![hand.cards[1]].push(cards[1]) =~= second);
    assert forall|h: int| 0 <= h < after.hands.len() implies spec_sound(#[trigger] after.hands[h]) by {
        if h != hand_index && h < master_hand.hands.len() {
            assert(after.hands[h] == master_hand.hands[h]);
        }
    }
}

/// One decision of a turn leaves a sound wager sound.
pub proof fn lemma_hand_step_sound(
    master_hand: MasterHandView,
    hand_index: int,
    dealer_rank: CardRank,
    shoe: Seq<Card>,
    shoe_top: nat,
    rules: HouseRulesView,
)
    requires
        spec_wager_sound(master_hand),
        0 <= hand_index < master_hand.hands.len(),
    ensures
        spec_wager_sound(
            spec_hand_step(master_hand, hand_index, dealer_rank, shoe, shoe_top, rules).master_hand,
        ),
{
    let hand = master_hand.hands[hand_index];
    assert(spec_sound(hand));
    if !hand.is_hand_over() {
        lemma_basic_strategy_is_total(dealer_rank, hand, master_hand.has_room(), rules);
        match spec_basic_strategy(dealer_rank, hand, master_hand.has_room(), rules) {
            Some(PlayerDecision::STAND) => {
                lemma_with_hand_sound(master_hand, hand_index, hand.stand());
            },
            Some(PlayerDecision::SURRENDER) => {
                lemma_with_hand_sound(master_hand, hand_index, hand.surrender());
            },
            Some(PlayerDecision::DOUBLE) => {
                if shoe_top < shoe.len() {
                    lemma_with_hand_sound(
                        master_hand,
                        hand_index,
                        hand.double_down(shoe[shoe_top as int]),
                    );
                }
            },
            Some(PlayerDecision::HIT) => {
                if shoe_top < shoe.len() {
                    lemma_totals_push(hand.cards, shoe[shoe_top as int]);
                    lemma_with_hand_sound(master_hand, hand_index, hand.hit(shoe[shoe_top as int]));
                }
            },
            Some(PlayerDecision::SPLIT) => {
                if master_hand.has_room() && shoe_top + 2 <= shoe.len() {
                    let cards = seq![shoe[shoe_top as int], shoe[shoe_top as int + 1]];
                    lemma_split_sound(master_hand, hand_index, cards);
                    let split = master_hand.split(hand_index, cards);
                    let new_hand_index = master_hand.hands.len() as int;
                    assert(spec_sound(split.hands[hand_index]));
                    assert(spec_sound(split.hands[new_hand_index]));
                    lemma_with_hand_sound(split, hand_index, split.hands[hand_index].stand());
                    lemma_with_hand_sound(
                        split.with_hand(hand_index, split.hands[hand_index].stand()),
                        new_hand_index,
                        split.hands[new_hand_index].stand(),
                    );
                }
            },
            None => {},
        }
    }
}

/// A player who decides again has taken a card or two from the shoe: a turn
/// never runs longer than the shoe lasts.
pub proof fn lemma_hand_step_draws(
    master_hand: MasterHandView,
    hand_index: int,
    dealer_rank: CardRank,
    shoe: Seq<Card>,
    shoe_top: nat,
    rules: HouseRulesView,
)
    requires
        shoe_top <= shoe.len(),
    ensures
        shoe_top <= spec_hand_step(
            master_hand,
            hand_index,
            dealer_rank,
            shoe,
            shoe_top,
            rules,
        ).shoe_top <= shoe.len(),
        spec_hand_step(master_hand, hand_index, dealer_rank, shoe, shoe_top, rules).again
            ==> shoe_top < spec_hand_step(
            master_hand,
            hand_index,
            dealer_rank,
            shoe,
            shoe_top,
            rules,
        ).shoe_top,
{
}

/// A decision of a turn leaves a playable hand playable.
pub proof fn lemma_hand_step_playable(
    master_hand: MasterHandView,
    hand_index: int,
    dealer_rank: CardRank,
    shoe: Seq<Card>,
    shoe_top: nat,
    rules: HouseRulesView,
)
    requires
        0 <= hand_index < master_hand.hands.len(),
        spec_playable(master_hand.hands[hand_index]),
    ensures
        spec_playable(
            spec_hand_step(
                master_hand,
                hand_index,
                dealer_rank,
                shoe,
                shoe_top,
                rules,
            ).master_hand.hands[hand_index],
        ),
        spec_hand_step(master_hand, hand_index, dealer_rank, shoe, shoe_top, rules).complete
            && !spec_hand_step(master_hand, hand_index, dealer_rank, shoe, shoe_top, rules).again
            ==> spec_hand_step(
            master_hand,
            hand_index,
            dealer_rank,
            shoe,
            shoe_top,
            rules,
        ).master_hand.hands[hand_index].is_hand_over(),
        spec_hand_step(master_hand, hand_index, dealer_rank, shoe, shoe_top, rules).master_hand.hands.len()
            >= master_hand.hands.len(),
{
    let hand = master_hand.hands[hand_index];
    if !hand.is_hand_over() {
        lemma_basic_strategy_is_total(dealer_rank, hand, master_hand.has_room(), rules);
        match spec_basic_strategy(dealer_rank, hand, master_hand.has_room(), rules) {
            Some(PlayerDecision::HIT) => {
                if shoe_top < shoe.len() {
                    lemma_totals_push(hand.cards, shoe[shoe_top as int]);
                }
            },
            Some(PlayerDecision::SPLIT) => {
                if master_hand.has_room() && shoe_top + 2 <= shoe.len() {
                    let first = hand.cards[0];
                    let card = shoe[shoe_top as int];
                    lemma_totals_push(Seq::<Card>::empty(), first);
                    lemma_totals_push(seq![first], card);
                    assert(Seq::<Card>::empty().push(first) =~= seq![first]);
                    assert(seq![first].push(card) =~= seq![first, card]);
                }
            },
            _ => {},
        }
    }
}

/// A turn that comes to its end leaves the hand over: the player has stood,
/// surrendered or doubled down, or the hand is bust.
pub proof fn lemma_play_hand_finishes(
    master_hand: MasterHandView,
    hand_index: int,
    dealer_rank: CardRank,
    shoe: Seq<Card>,
    shoe_top: nat,
    rules: HouseRulesView,
)
    requires
        0 <= hand_index < master_hand.hands.len(),
        spec_playable(master_hand.hands[hand_index]),
    ensures
        spec_play_hand(master_hand, hand_index, dealer_rank, shoe, shoe_top, rules).complete
            ==> spec_play_hand(
            master_hand,
            hand_index,
            dealer_rank,
            shoe,
            shoe_top,
            rules,
        ).master_hand.hands[hand_index].is_hand_over(),
    decreases shoe.len() - shoe_top,
{
    let step = spec_hand_step(master_hand, hand_index, dealer_rank, shoe, shoe_top, rules);
    lemma_hand_step_playable(master_hand, hand_index, dealer_rank, shoe, shoe_top, rules);
    if step.again && shoe_top < step.shoe_top <= shoe.len() {
        lemma_play_hand_finishes(
            step.master_hand,
            hand_index,
            dealer_rank,
            shoe,
            step.shoe_top,
            rules,
        );
    }
}

/// A turn never touches a hand that is over: whatever hand the turn is
/// played on, every hand that was over before it is the same after it.
pub proof fn lemma_play_hand_keeps_finished(
    master_hand: MasterHandView,
    hand_index: int,
    dealer_rank: CardRank,
    shoe: Seq<Card>,
    shoe_top: nat,
    rules: HouseRulesView,
    finished: int,
)
    requires
        0 <= hand_index < master_hand.hands.len(),
        0 <= finished < master_hand.hands.len(),
        master_hand.hands[finished].is_hand_over(),
    ensures
        spec_play_hand(
            master_hand,
            hand_index,
            dealer_rank,
            shoe,
            shoe_top,
            rules,
        ).master_hand.hands[finished] == master_hand.hands[finished],
    decreases shoe.len() - shoe_top,
{
    let step = spec_hand_step(master_hand, hand_index, dealer_rank, shoe, shoe_top, rules);
    if step.again && shoe_top < step.shoe_top <= shoe.len() {
        lemma_play_hand_keeps_finished(
            step.master_hand,
            hand_index,
            dealer_rank,
            shoe,
            step.shoe_top,
            rules,
            finished,
        );
    }
}

/// The most hands that a wager can come to have: the limit on its hands,
/// or the hands it has if they are more.
pub open spec fn spec_hands_bound(master_hand: MasterHandView) -> nat {
    if master_hand.hands.len() > master_hand.hands_limit {
        master_hand.hands.len()
    } else {
        master_hand.hands_limit
    }
}

/// Whether every hand of a wager is one that a turn can be played on.
pub open spec fn spec_wager_playable(master_hand: MasterHandView) -> bool {
    forall|h: int| 0 <= h < master_hand.hands.len() ==> spec_playable(#[trigger] master_hand.hands[h])
}

/// Whether every hand of a wager is over.
pub open spec fn spec_wager_over(master_hand: MasterHandView) -> bool {
    forall|h: int|
        0 <= h < master_hand.hands.len() ==> (#[trigger] master_hand.hands[h]).is_hand_over()
}

/// A decision of a turn takes no hand away, leaves the limit on the hands as
/// it is, and adds a hand only where the limit has room for it.
pub proof fn lemma_hand_step_bound(
    master_hand: MasterHandView,
    hand_index: int,
    dealer_rank: CardRank,
    shoe: Seq<Card>,
    shoe_top: nat,
    rules: HouseRulesView,
)
    requires
        0 <= hand_index < master_hand.hands.len(),
    ensures
        spec_hand_step(master_hand, hand_index, dealer_rank, shoe, shoe_top, rules).master_hand.hands_limit
            == master_hand.hands_limit,
        spec_hand_step(master_hand, hand_index, dealer_rank, shoe, shoe_top, rules).master_hand.hands.len()
            >= master_hand.hands.len(),
        spec_hands_bound(
            spec_hand_step(master_hand, hand_index, dealer_rank, shoe, shoe_top, rules).master_hand,
        ) <= spec_hands_bound(master_hand),
{
}

/// A turn takes no hand away, leaves the limit on the hands as it is, and
/// adds hands only as far as the limit has room for them.
pub proof fn lemma_play_hand_bound(
    master_hand: MasterHandView,
    hand_index: int,
    dealer_rank: CardRank,
    shoe: Seq<Card>,
    shoe_top: nat,
    rules: HouseRulesView,
)
    requires
        0 <= hand_index < master_hand.hands.len(),
    ensures
        spec_play_hand(master_hand, hand_index, dealer_rank, shoe, shoe_top, rules).master_hand.hands_limit
            == master_hand.hands_limit,
        spec_play_hand(master_hand, hand_index, dealer_rank, shoe, shoe_top, rules).master_hand.hands.len()
            >= master_hand.hands.len(),
        spec_hands_bound(
            spec_play_hand(master_hand, hand_index, dealer_rank, shoe, shoe_top, rules).master_hand,
        ) <= spec_hands_bound(master_hand),
    decreases shoe.len() - shoe_top,
{
    let step = spec_hand_step(master_hand, hand_index, dealer_rank, shoe, shoe_top, rules);
    lemma_hand_step_bound(master_hand, hand_index, dealer_rank, shoe, shoe_top, rules);
    if step.again && shoe_top < step.shoe_top <= shoe.len() {
        lemma_play_hand_bound(step.master_hand, hand_index, dealer_rank, shoe, step.shoe_top, rules);
    }
}

/// A decision of a turn leaves every hand of the wager playable, the hand
/// that a split adds too.
pub proof fn lemma_hand_step_wager_playable(
    master_hand: MasterHandView,
    hand_index: int,
    dealer_rank: CardRank,
    shoe: Seq<Card>,
    shoe_top: nat,
    rules: HouseRulesView,
)
    requires
        0 <= hand_index < master_hand.hands.len(),
        spec_wager_playable(master_hand),
    ensures
        spec_wager_playable(
            spec_hand_step(master_hand, hand_index, dealer_rank, shoe, shoe_top, rules).master_hand,
        ),
{
    let hand = master_hand.hands[hand_index];
    let step = spec_hand_step(master_hand, hand_index, dealer_rank, shoe, shoe_top, rules);
    let after = step.master_hand;
    assert(spec_playable(hand));
    lemma_hand_step_playable(master_hand, hand_index, dealer_rank, shoe, shoe_top, rules);
    if !hand.is_hand_over() {
        lemma_basic_strategy_is_total(dealer_rank, hand, master_hand.has_room(), rules);
        if spec_basic_strategy(dealer_rank, hand, master_hand.has_room(), rules) == Some(
            PlayerDecision::SPLIT,
        ) && master_hand.has_room() && shoe_top + 2 <= shoe.len() {
            let second = hand.cards[1];
            let card = shoe[shoe_top as int + 1];
            lemma_totals_push(Seq::<Card>::empty(), second);
            lemma_totals_push(seq![second], card);
            assert(Seq::<Card>::empty().push(second) =~= seq![second]);
            assert(seq![second].push(card) =~= seq![second, card]);
            assert(spec_playable(after.hands[master_hand.hands.len() as int]));
        }
    }
    assert forall|h: int| 0 <= h < after.hands.len() implies spec_playable(#[trigger] after.hands[h]) by {
        if h != hand_index && h < master_hand.hands.len() {
            assert(after.hands[h] == master_hand.hands[h]);
            assert(spec_playable(master_hand.hands[h]));
        }
    }
}

/// A turn leaves every hand of the wager playable.
pub proof fn lemma_play_hand_wager_playable(
    master_hand: MasterHandView,
    hand_index: int,
    dealer_rank: CardRank,
    shoe: Seq<Card>,
    shoe_top: nat,
    rules: HouseRulesView,
)
    requires
        0 <= hand_index < master_hand.hands.len(),
        spec_wager_playable(master_hand),
    ensures
        spec_wager_playable(
            spec_play_hand(master_hand, hand_index, dealer_rank, shoe, shoe_top, rules).master_hand,
        ),
    decreases shoe.len() - shoe_top,
{
    let step = spec_hand_step(master_hand, hand_index, dealer_rank, shoe, shoe_top, rules);
    lemma_hand_step_wager_playable(master_hand, hand_index, dealer_rank, shoe, shoe_top, rules);
    lemma_hand_step_bound(master_hand, hand_index, dealer_rank, shoe, shoe_top, rules);
    if step.again && shoe_top < step.shoe_top <= shoe.len() {
        lemma_play_hand_wager_playable(
            step.master_hand,
            hand_index,
            dealer_rank,
            shoe,
            step.shoe_top,
            rules,
        );
    }
}

/// The player stands on the hand at `hand_index`.
fn stand_on(master_hand: &mut PlayerMasterHand, hand_index: usize)
    requires
        hand_index < old(master_hand).hands@.len(),
        !old(master_hand)@.hands[hand_index as int].is_hand_over(),
    ensures
        final(master_hand)@ == old(master_hand)@.with_hand(
            hand_index as int,
            old(master_hand)@.hands[hand_index as int].stand(),
        ),
        final(master_hand).hands@.len() == old(master_hand).hands@.len(),
        old(master_hand).wf() ==> final(master_hand).wf(),
{
    assert(old(master_hand)@.hands[hand_index as int] == old(master_hand).hands@[hand_index as int]@);
    master_hand.hands[hand_index].stand();
    assert(master_hand@.hands =~= old(master_hand)@.with_hand(
        hand_index as int,
        old(master_hand)@.hands[hand_index as int].stand(),
    ).hands);
}

/// The player surrenders the hand at `hand_index`.
fn surrender_on(master_hand: &mut PlayerMasterHand, hand_index: usize)
    requires
        hand_index < old(master_hand).hands@.len(),
        !old(master_hand)@.hands[hand_index as int].is_hand_over(),
    ensures
        final(master_hand)@ == old(master_hand)@.with_hand(
            hand_index as int,
            old(master_hand)@.hands[hand_index as int].surrender(),
        ),
        final(master_hand).hands@.len() == old(master_hand).hands@.len(),
        old(master_hand).wf() ==> final(master_hand).wf(),
{
    assert(old(master_hand)@.hands[hand_index as int] == old(master_hand).hands@[hand_index as int]@);
    master_hand.hands[hand_index].surrender();
    assert(master_hand@.hands =~= old(master_hand)@.with_hand(
        hand_index as int,
        old(master_hand)@.hands[hand_index as int].surrender(),
    ).hands);
}

/// The player doubles down on the hand at `hand_index` and gets this card.
fn double_down_on(master_hand: &mut PlayerMasterHand, hand_index: usize, card: &Card)
    requires
        old(master_hand).wf(),
        hand_index < old(master_hand).hands@.len(),
        !old(master_hand)@.hands[hand_index as int].is_hand_over(),
        old(master_hand)@.hands[hand_index as int].bet * 2 <= u32::MAX,
        old(master_hand)@.hands[hand_index as int].cards.len() <= 21,
    ensures
        final(master_hand)@ == old(master_hand)@.with_hand(
            hand_index as int,
            old(master_hand)@.hands[hand_index as int].double_down(*card),
        ),
        final(master_hand).hands@.len() == old(master_hand).hands@.len(),
        final(master_hand).wf(),
{
    assert(old(master_hand)@.hands[hand_index as int] == old(master_hand).hands@[hand_index as int]@);
    master_hand.hands[hand_index].double_down(card);
    assert(master_hand@.hands =~= old(master_hand)@.with_hand(
        hand_index as int,
        old(master_hand)@.hands[hand_index as int].double_down(*card),
    ).hands);
}

/// The player takes this card on the hand at `hand_index`.
fn hit_on(master_hand: &mut PlayerMasterHand, hand_index: usize, card: &Card)
    requires
        old(master_hand).wf(),
        hand_index < old(master_hand).hands@.len(),
        !old(master_hand)@.hands[hand_index as int].is_hand_over(),
        old(master_hand)@.hands[hand_index as int].cards.len() <= 21,
    ensures
        final(master_hand)@ == old(master_hand)@.with_hand(
            hand_index as int,
            old(master_hand)@.hands[hand_index as int].hit(*card),
        ),
        final(master_hand).hands@.len() == old(master_hand).hands@.len(),
        final(master_hand).wf(),
{
    assert(old(master_hand)@.hands[hand_index as int] == old(master_hand).hands@[hand_index as int]@);
    master_hand.hands[hand_index].hit(card);
    assert(master_hand@.hands =~= old(master_hand)@.with_hand(
        hand_index as int,
        old(master_hand)@.hands[hand_index as int].hit(*card),
    ).hands);
}

/// The player splits the hand at `hand_index` with these two cards. Where
/// `aces_stand` holds and the pair is one of aces, both halves stand at
/// once. Returns whether the player decides again on the hand.
fn split_on(
    master_hand: &mut PlayerMasterHand,
    hand_index: usize,
    card1: Card,
    card2: Card,
    aces_stand: bool,
) -> (again: bool)
    requires
        old(master_hand).wf(),
        hand_index < old(master_hand).hands@.len(),
        old(master_hand)@.can_split(hand_index as int, true),
    ensures
        again == !(old(master_hand)@.hands[hand_index as int].cards[0].rank == CardRank::ACE
            && aces_stand),
        again ==> final(master_hand)@ == old(master_hand)@.split(
            hand_index as int,
            seq![card1, card2],
        ),
        !again ==> final(master_hand)@ == old(master_hand)@.split(
            hand_index as int,
            seq![card1, card2],
        ).with_hand(
            hand_index as int,
            old(master_hand)@.split(hand_index as int, seq![card1, card2]).hands[hand_index as int].stand(),
        ).with_hand(
            old(master_hand)@.hands.len() as int,
            old(master_hand)@.split(
                hand_index as int,
                seq![card1, card2],
            ).hands[old(master_hand)@.hands.len() as int].stand(),
        ),
        final(master_hand).hands@.len() == old(master_hand).hands@.len() + 1,
        final(master_hand).wf(),
{
    let new_hand_index = master_hand.split_hand(hand_index, [card1, card2]);
    proof {
        assert([card1, card2]@ =~= seq![card1, card2]);
        assert(master_hand@.hands[hand_index as int] == master_hand.hands@[hand_index as int]@);
    }
    let splitting_aces: bool = master_hand.hands[hand_index].cards[0].rank == CardRank::ACE;
    if splitting_aces && aces_stand {
        stand_on(master_hand, hand_index);
        stand_on(master_hand, new_hand_index);
        false
    } else {
        true
    }
}

/// One decision of a player's turn on the hand at `hand_index`. Returns the
/// place in the shoe after it, whether the player decides again on the
/// hand, and whether the turn is complete.
pub fn play_hand_step(
    master_hand: &mut PlayerMasterHand,
    hand_index: usize,
    dealer_top_card: &Card,
    shoe: &Vec<Card>,
    shoe_top: usize,
    rules: &HouseRules,
) -> (end: (usize, bool, bool))
    requires
        old(master_hand).wf(),
        hand_index < old(master_hand).hands@.len(),
        spec_playable(old(master_hand)@.hands[hand_index as int]),
        shoe_top <= shoe@.len(),
    ensures
        final(master_hand)@ == spec_hand_step(
            old(master_hand)@,
            hand_index as int,
            dealer_top_card.rank,
            shoe@,
            shoe_top as nat,
            rules@,
        ).master_hand,
        end.0 == spec_hand_step(
            old(master_hand)@,
            hand_index as int,
            dealer_top_card.rank,
            shoe@,
            shoe_top as nat,
            rules@,
        ).shoe_top,
        end.1 == spec_hand_step(
            old(master_hand)@,
            hand_index as int,
            dealer_top_card.rank,
            shoe@,
            shoe_top as nat,
            rules@,
        ).again,
        end.2 == spec_hand_step(
            old(master_hand)@,
            hand_index as int,
            dealer_top_card.rank,
            shoe@,
            shoe_top as nat,
            rules@,
        ).complete,
        final(master_hand).wf(),
        final(master_hand).hands@.len() >= old(master_hand).hands@.len(),
        shoe_top <= end.0 <= shoe@.len(),
        end.1 ==> shoe_top < end.0,
        spec_playable(final(master_hand)@.hands[hand_index as int]),
        spec_untouched(old(master_hand)@, final(master_hand)@, hand_index as int),
{
    let ghost before = master_hand@;
    let ghost hand = before.hands[hand_index as int];
    assert(hand == master_hand.hands@[hand_index as int]@);
    if master_hand.hands[hand_index].is_hand_over() {
        return (shoe_top, false, true);
    }
    let hand_allow_more_splits: bool = master_hand.num_hands() < master_hand.HANDS_LIMIT;
    let decision = determine_basic_strategy_with_rules(
        dealer_top_card,
        &master_hand.hands[hand_index],
        hand_allow_more_splits,
        rules,
    );
    proof {
        lemma_totals_bounds(hand.cards);
        lemma_basic_strategy_is_total(dealer_top_card.rank, hand, hand_allow_more_splits, rules@);
    }
    match decision {
        PlayerDecision::STAND => {
            stand_on(master_hand, hand_index);
            (shoe_top, false, true)
        },
        PlayerDecision::SURRENDER => {
            surrender_on(master_hand, hand_index);
            (shoe_top, false, true)
        },
        PlayerDecision::DOUBLE => {
            if shoe_top >= shoe.len() {
                return (shoe_top, false, false);
            }
            let card = shoe[shoe_top];
            double_down_on(master_hand, hand_index, &card);
            (shoe_top + 1, false, true)
        },
        PlayerDecision::HIT => {
            if shoe_top >= shoe.len() {
                return (shoe_top, false, false);
            }
            let card = shoe[shoe_top];
            hit_on(master_hand, hand_index, &card);
            proof {
                lemma_totals_push(hand.cards, card);
            }
            let again = !master_hand.hands[hand_index].is_hand_over();
            (shoe_top + 1, again, true)
        },
        PlayerDecision::SPLIT => {
            assert(before.has_room());
            if shoe.len() - shoe_top < 2 {
                return (shoe_top, false, false);
            }
            let card1 = shoe[shoe_top];
            let card2 = shoe[shoe_top + 1];
            let again = split_on(
                master_hand,
                hand_index,
                card1,
                card2,
                rules.no_more_cards_after_splitting_aces,
            );
            proof {
                let first = hand.cards[0];
                lemma_totals_push(Seq::<Card>::empty(), first);
                lemma_totals_push(seq![first], card1);
                assert(Seq::<Card>::empty().push(first) =~= seq![first]);
                assert(seq![first].push(card1) =~= seq![first, card1]);
            }
            (shoe_top + 2, again, true)
        },
    }
}

/// Plays a player's turn on the hand at `hand_index` and returns the place
/// in the shoe after it, and whether the turn came to its end: it did not
/// if it needed a card that the shoe did not have.
pub fn play_hand(
    master_hand: &mut PlayerMasterHand,
    hand_index: usize,
    dealer_top_card: &Card,
    shoe: &Vec<Card>,
    shoe_top: usize,
    rules: &HouseRules,
) -> (end: (usize, bool))
    requires
        old(master_hand).wf(),
        hand_index < old(master_hand).hands@.len(),
        spec_playable(old(master_hand)@.hands[hand_index as int]),
        shoe_top <= shoe@.len(),
    ensures
        final(master_hand)@ == spec_play_hand(
            old(master_hand)@,
            hand_index as int,
            dealer_top_card.rank,
            shoe@,
            shoe_top as nat,
            rules@,
        ).master_hand,
        end.0 == spec_play_hand(
            old(master_hand)@,
            hand_index as int,
            dealer_top_card.rank,
            shoe@,
            shoe_top as nat,
            rules@,
        ).shoe_top,
        end.1 == spec_play_hand(
            old(master_hand)@,
            hand_index as int,
            dealer_top_card.rank,
            shoe@,
            shoe_top as nat,
            rules@,
        ).complete,
        final(master_hand).wf(),
        final(master_hand).hands@.len() >= old(master_hand).hands@.len(),
        shoe_top <= end.0 <= shoe@.len(),
        spec_untouched(old(master_hand)@, final(master_hand)@, hand_index as int),
        spec_wager_sound(old(master_hand)@) ==> spec_wager_sound(final(master_hand)@),
        spec_wager_playable(old(master_hand)@) ==> spec_wager_playable(final(master_hand)@),
        spec_hands_bound(final(master_hand)@) <= spec_hands_bound(old(master_hand)@),
        end.1 ==> final(master_hand)@.hands[hand_index as int].is_hand_over(),
{
    let ghost goal = spec_play_hand(
        old(master_hand)@,
        hand_index as int,
        dealer_top_card.rank,
        shoe@,
        shoe_top as nat,
        rules@,
    );
    proof {
        lemma_play_hand_bound(
            old(master_hand)@,
            hand_index as int,
            dealer_top_card.rank,
            shoe@,
            shoe_top as nat,
            rules@,
        );
        lemma_play_hand_finishes(
            old(master_hand)@,
            hand_index as int,
            dealer_top_card.rank,
            shoe@,
            shoe_top as nat,
            rules@,
        );
        if spec_wager_playable(old(master_hand)@) {
            lemma_play_hand_wager_playable(
                old(master_hand)@,
                hand_index as int,
                dealer_top_card.rank,
                shoe@,
                shoe_top as nat,
                rules@,
            );
        }
    }
    let mut top: usize = shoe_top;
    loop
        invariant
            master_hand.wf(),
            hand_index < master_hand.hands@.len(),
            master_hand.hands@.len() >= old(master_hand).hands@.len(),
            spec_playable(master_hand@.hands[hand_index as int]),
            spec_untouched(old(master_hand)@, master_hand@, hand_index as int),
            spec_wager_sound(old(master_hand)@) ==> spec_wager_sound(master_hand@),
            shoe_top <= top <= shoe@.len(),
            goal == spec_play_hand(
                old(master_hand)@,
                hand_index as int,
                dealer_top_card.rank,
                shoe@,
                shoe_top as nat,
                rules@,
            ),
            spec_wager_playable(old(master_hand)@) ==> spec_wager_playable(goal.master_hand),
            spec_hands_bound(goal.master_hand) <= spec_hands_bound(old(master_hand)@),
            goal.complete ==> goal.master_hand.hands[hand_index as int].is_hand_over(),
            spec_play_hand(
                master_hand@,
                hand_index as int,
                dealer_top_card.rank,
                shoe@,
                top as nat,
                rules@,
            ) == goal,
        decreases shoe@.len() - top,
    {
        proof {
            if spec_wager_sound(master_hand@) {
                lemma_hand_step_sound(
                    master_hand@,
                    hand_index as int,
                    dealer_top_card.rank,
                    shoe@,
                    top as nat,
                    rules@,
                );
            }
        }
        let (next_top, again, complete) = play_hand_step(
            master_hand,
            hand_index,
            dealer_top_card,
            shoe,
            top,
            rules,
        );
        if !again {
            return (next_top, complete);
        }
        top = next_top;
    }
}

/// A player's turns on the hands of a wager from the one at `hand_index`
/// on, one hand after another: on the hands that the wager has, and on each
/// hand that a split adds on the way. Once a turn is left incomplete,
/// nothing more is played.
pub open spec fn spec_play_wager(
    master_hand: MasterHandView,
    hand_index: nat,
    dealer_rank: CardRank,
    shoe: Seq<Card>,
    shoe_top: nat,
    rules: HouseRulesView,
) -> WagerTurn
    decreases spec_hands_bound(master_hand) - hand_index,
{
    if hand_index >= master_hand.hands.len() {
        WagerTurn { master_hand: master_hand, shoe_top: shoe_top, complete: true }
    } else {
        let turn = spec_play_hand(
            master_hand,
            hand_index as int,
            dealer_rank,
            shoe,
            shoe_top,
            rules,
        );
        if turn.complete {
            proof {
                lemma_play_hand_bound(
                    master_hand,
                    hand_index as int,
                    dealer_rank,
                    shoe,
                    shoe_top,
                    rules,
                );
            }
            spec_play_wager(
                turn.master_hand,
                hand_index + 1,
                dealer_rank,
                shoe,
                turn.shoe_top,
                rules,
            )
        } else {
            turn
        }
    }
}

/// Plays a player's turns on every hand of the wager, one hand after
/// another, the hands that a split adds on the way too. Returns the place in
/// the shoe after the turns, and whether they came to their end: then every
/// hand of the wager is over.
pub fn play_wager(
    master_hand: &mut PlayerMasterHand,
    dealer_top_card: &Card,
    shoe: &Vec<Card>,
    shoe_top: usize,
    rules: &HouseRules,
) -> (end: (usize, bool))
    requires
        old(master_hand).wf(),
        spec_wager_playable(old(master_hand)@),
        shoe_top <= shoe@.len(),
    ensures
        final(master_hand)@ == spec_play_wager(
            old(master_hand)@,
            0,
            dealer_top_card.rank,
            shoe@,
            shoe_top as nat,
            rules@,
        ).master_hand,
        end.0 == spec_play_wager(
            old(master_hand)@,
            0,
            dealer_top_card.rank,
            shoe@,
            shoe_top as nat,
            rules@,
        ).shoe_top,
        end.1 == spec_play_wager(
            old(master_hand)@,
            0,
            dealer_top_card.rank,
            shoe@,
            shoe_top as nat,
            rules@,
        ).complete,
        end.1 ==> spec_wager_over(final(master_hand)@),
        final(master_hand).wf(),
        final(master_hand).hands@.len() >= old(master_hand).hands@.len(),
        final(master_hand)@.hands_limit == old(master_hand)@.hands_limit,
        spec_wager_sound(old(master_hand)@) ==> spec_wager_sound(final(master_hand)@),
        shoe_top <= end.0 <= shoe@.len(),
{
    let ghost goal = spec_play_wager(
        old(master_hand)@,
        0,
        dealer_top_card.rank,
        shoe@,
        shoe_top as nat,
        rules@,
    );
    let mut top: usize = shoe_top;
    let mut h: usize = 0;
    while h < master_hand.num_hands()
        invariant
            h <= master_hand.hands@.len(),
            master_hand.wf(),
            master_hand.hands@.len() >= old(master_hand).hands@.len(),
            master_hand@.hands_limit == old(master_hand)@.hands_limit,
            spec_wager_sound(old(master_hand)@) ==> spec_wager_sound(master_hand@),
            spec_wager_playable(master_hand@),
            shoe_top <= top <= shoe@.len(),
            forall|j: int| 0 <= j < h ==> (#[trigger] master_hand@.hands[j]).is_hand_over(),
            goal == spec_play_wager(
                old(master_hand)@,
                0,
                dealer_top_card.rank,
                shoe@,
                shoe_top as nat,
                rules@,
            ),
            spec_play_wager(
                master_hand@,
                h as nat,
                dealer_top_card.rank,
                shoe@,
                top as nat,
                rules@,
            ) == goal,
        decreases spec_hands_bound(master_hand@) - h,
    {
        let ghost before = master_hand@;
        proof {
            assert(spec_playable(before.hands[h as int]));
        }
        let (next_top, complete) = play_hand(master_hand, h, dealer_top_card, shoe, top, rules);
        top = next_top;
        if !complete {
            return (top, false);
        }
        proof {
            assert forall|j: int| 0 <= j < h + 1 implies (
            #[trigger] master_hand@.hands[j]).is_hand_over() by {
                if j < h {
                    assert(master_hand@.hands[j] == before.hands[j]);
                }
            }
        }
        h += 1;
    }
    (top, true)
}

/// How far the turns of a player got.
pub struct PlayerTurn {
    pub player: PlayerView,
    pub shoe_top: nat,
    pub complete: bool,
}

/// A player's turns on the first `count` wagers, one wager after another.
/// Once a turn is left incomplete, nothing more is played.
pub open spec fn spec_play_player(
    player: PlayerView,
    count: nat,
    dealer_rank: CardRank,
    shoe: Seq<Card>,
    shoe_top: nat,
    rules: HouseRulesView,
) -> PlayerTurn
    decreases count,
{
    if count == 0 {
        PlayerTurn { player: player, shoe_top: shoe_top, complete: true }
    } else {
        let played = spec_play_player(
            player,
            (count - 1) as nat,
            dealer_rank,
            shoe,
            shoe_top,
            rules,
        );
        if played.complete {
            let wager = played.player.master_hands[count - 1];
            let turn = spec_play_wager(wager, 0, dealer_rank, shoe, played.shoe_top, rules);
            PlayerTurn {
                player: PlayerView {
                    master_hands: played.player.master_hands.update(count - 1, turn.master_hand),
                    ..played.player
                },
                shoe_top: turn.shoe_top,
                complete: turn.complete,
            }
        } else {
            played
        }
    }
}

/// Once a turn of a player is left incomplete, the turns on more of the
/// wagers change nothing.
pub proof fn lemma_play_player_stops(
    player: PlayerView,
    count: nat,
    more: nat,
    dealer_rank: CardRank,
    shoe: Seq<Card>,
    shoe_top: nat,
    rules: HouseRulesView,
)
    requires
        count <= more,
        !spec_play_player(player, count, dealer_rank, shoe, shoe_top, rules).complete,
    ensures
        spec_play_player(player, more, dealer_rank, shoe, shoe_top, rules) == spec_play_player(
            player,
            count,
            dealer_rank,
            shoe,
            shoe_top,
            rules,
        ),
    decreases more,
{
    if count < more {
        lemma_play_player_stops(player, count, (more - 1) as nat, dealer_rank, shoe, shoe_top, rules);
    }
}

/// Whether every hand of every wager of a player is over.
pub open spec fn spec_player_over(player: PlayerView) -> bool {
    forall|mh: int|
        0 <= mh < player.master_hands.len() ==> spec_wager_over(#[trigger] player.master_hands[mh])
}

/// Whether every hand on the table is over.
pub open spec fn spec_table_over(players: Seq<PlayerView>) -> bool {
    forall|p: int| 0 <= p < players.len() ==> spec_player_over(#[trigger] players[p])
}

/// Whether every wager of a player is sound.
pub open spec fn spec_player_sound(player: PlayerView) -> bool {
    forall|mh: int|
        0 <= mh < player.master_hands.len() ==> spec_wager_sound(#[trigger] player.master_hands[mh])
}

/// Whether a player has the wagers as before, each with the limit on its
/// hands that it had.
pub open spec fn spec_same_limits(before: PlayerView, after: PlayerView) -> bool {
    &&& after.name == before.name
    &&& after.master_hands.len() == before.master_hands.len()
    &&& forall|mh: int|
        0 <= mh < before.master_hands.len() ==> (#[trigger] after.master_hands[mh]).hands_limit
            == before.master_hands[mh].hands_limit
}

/// Whether every hand of every wager of a player is one that a turn can be
/// played on.
pub open spec fn spec_player_playable(player: PlayerView) -> bool {
    forall|i: int|
        0 <= i < player.master_hands.len() ==> spec_wager_playable(#[trigger] player.master_hands[i])
}

/// Plays a player's turns on all wagers, one after another. Returns the
/// place in the shoe after the turns, and whether they came to their end.
pub fn play_player(
    player: &mut Player,
    dealer_top_card: &Card,
    shoe: &Vec<Card>,
    shoe_top: usize,
    rules: &HouseRules,
) -> (end: (usize, bool))
    requires
        old(player).wf(),
        spec_player_playable(old(player)@),
        shoe_top <= shoe@.len(),
    ensures
        final(player)@ == spec_play_player(
            old(player)@,
            old(player)@.master_hands.len(),
            dealer_top_card.rank,
            shoe@,
            shoe_top as nat,
            rules@,
        ).player,
        end.0 == spec_play_player(
            old(player)@,
            old(player)@.master_hands.len(),
            dealer_top_card.rank,
            shoe@,
            shoe_top as nat,
            rules@,
        ).shoe_top,
        end.1 == spec_play_player(
            old(player)@,
            old(player)@.master_hands.len(),
            dealer_top_card.rank,
            shoe@,
            shoe_top as nat,
            rules@,
        ).complete,
        end.1 ==> spec_player_over(final(player)@),
        final(player).wf(),
        final(player).master_hands@.len() == old(player).master_hands@.len(),
        spec_same_limits(old(player)@, final(player)@),
        spec_player_sound(old(player)@) ==> spec_player_sound(final(player)@),
        shoe_top <= end.0 <= shoe@.len(),
{
    let wagers: usize = player.num_master_hands();
    let mut top: usize = shoe_top;
    let mut mh: usize = 0;
    while mh < wagers
        invariant
            mh <= wagers,
            wagers == old(player).master_hands@.len(),
            player.master_hands@.len() == wagers,
            player.wf(),
            spec_same_limits(old(player)@, player@),
            spec_player_sound(old(player)@) ==> spec_player_sound(player@),
            forall|j: int| 0 <= j < mh ==> spec_wager_over(#[trigger] player@.master_hands[j]),
            shoe_top <= top <= shoe@.len(),
            forall|j: int|
                mh <= j < wagers ==> spec_wager_playable(#[trigger] player@.master_hands[j]),
            spec_play_player(
                old(player)@,
                mh as nat,
                dealer_top_card.rank,
                shoe@,
                shoe_top as nat,
                rules@,
            ) == (PlayerTurn { player: player@, shoe_top: top as nat, complete: true }),
        decreases wagers - mh,
    {
        let ghost before = player@;
        assert(before.master_hands[mh as int] == player.master_hands@[mh as int]@);
        let (next_top, complete) = play_wager(
            &mut player.master_hands[mh],
            dealer_top_card,
            shoe,
            top,
            rules,
        );
        proof {
            assert(player@.master_hands =~= before.master_hands.update(
                mh as int,
                player.master_hands@[mh as int]@,
            ));
            assert forall|j: int| mh + 1 <= j < wagers implies spec_wager_playable(
                #[trigger] player@.master_hands[j],
            ) by {
                assert(player@.master_hands[j] == before.master_hands[j]);
            }
            assert forall|j: int| 0 <= j < wagers implies (
            #[trigger] player@.master_hands[j]).hands_limit == old(
                player,
            )@.master_hands[j].hands_limit by {
                if j != mh {
                    assert(player@.master_hands[j] == before.master_hands[j]);
                }
            }
            if spec_player_sound(old(player)@) {
                assert forall|j: int| 0 <= j < wagers implies spec_wager_sound(
                    #[trigger] player@.master_hands[j],
                ) by {
                    if j != mh {
                        assert(player@.master_hands[j] == before.master_hands[j]);
                    }
                }
            }
            if complete {
                assert forall|j: int| 0 <= j < mh + 1 implies spec_wager_over(
                    #[trigger] player@.master_hands[j],
                ) by {
                    if j != mh {
                        assert(player@.master_hands[j] == before.master_hands[j]);
                    }
                }
            }
        }
        top = next_top;
        mh += 1;
        if !complete {
            proof {
                lemma_play_player_stops(
                    old(player)@,
                    mh as nat,
                    wagers as nat,
                    dealer_top_card.rank,
                    shoe@,
                    shoe_top as nat,
                    rules@,
                );
            }
            return (top, false);
        }
    }
    (top, true)
}

/// How far the dealer's turn got.
pub struct DealerTurn {
    pub hand: DealerHandView,
    pub shoe_top: nat,
    pub complete: bool,
}

/// One move of the dealer: the hand after it, the place in the shoe, and
/// whether the dealer moves again.
pub struct DealerStep {
    pub hand: DealerHandView,
    pub shoe_top: nat,
    pub again: bool,
    pub complete: bool,
}

/// One move of the dealer's turn with the cards of the shoe from `shoe_top`
/// on. A hand that is over is left alone. Else the dealer draws the next
/// card where the rules say so, and moves again unless the card made the
/// hand bust; where they do not, the hand stands. A draw from a shoe that
/// has no card left changes nothing and leaves the turn incomplete.
pub open spec fn spec_dealer_step(
    hand: DealerHandView,
    shoe: Seq<Card>,
    shoe_top: nat,
    rules: HouseRulesView,
) -> DealerStep {
    let done = DealerStep { hand: hand, shoe_top: shoe_top, again: false, complete: true };
    if hand.is_hand_over() {
        done
    } else if hand.must_hit(rules) {
        if shoe_top < shoe.len() {
            let drawn = hand.hit(shoe[shoe_top as int]);
            DealerStep {
                hand: drawn,
                shoe_top: shoe_top + 1,
                again: !drawn.is_hand_over(),
                complete: true,
            }
        } else {
            DealerStep { complete: false, ..done }
        }
    } else {
        DealerStep { hand: hand.stand(), ..done }
    }
}

/// The dealer's turn: one move after another, until the dealer does not
/// move again.
pub open spec fn spec_play_dealer_hand(
    hand: DealerHandView,
    shoe: Seq<Card>,
    shoe_top: nat,
    rules: HouseRulesView,
) -> DealerTurn
    decreases shoe.len() - shoe_top,
{
    let step = spec_dealer_step(hand, shoe, shoe_top, rules);
    if step.again && shoe_top < step.shoe_top <= shoe.len() {
        spec_play_dealer_hand(step.hand, shoe, step.shoe_top, rules)
    } else {
        DealerTurn { hand: step.hand, shoe_top: step.shoe_top, complete: step.complete }
    }
}

/// The dealer's turn never touches a hand that is over, and a turn that
/// comes to its end leaves the hand over.
pub proof fn lemma_play_dealer_hand_finishes(
    hand: DealerHandView,
    shoe: Seq<Card>,
    shoe_top: nat,
    rules: HouseRulesView,
)
    ensures
        hand.is_hand_over() ==> spec_play_dealer_hand(hand, shoe, shoe_top, rules).hand == hand,
        spec_play_dealer_hand(hand, shoe, shoe_top, rules).complete ==> spec_play_dealer_hand(
            hand,
            shoe,
            shoe_top,
            rules,
        ).hand.is_hand_over(),
    decreases shoe.len() - shoe_top,
{
    let step = spec_dealer_step(hand, shoe, shoe_top, rules);
    if step.again && shoe_top < step.shoe_top <= shoe.len() {
        lemma_play_dealer_hand_finishes(step.hand, shoe, step.shoe_top, rules);
    }
}

/// Whether a dealer's hand is one that the turn can be played on: it is
/// over, or it is not over 21.
pub open spec fn spec_dealer_playable(hand: DealerHandView) -> bool {
    hand.is_hand_over() || hand.hard_count() <= 21
}

/// One move of the dealer's turn. Returns the place in the shoe after it,
/// whether the dealer moves again, and whether the turn is complete.
pub fn play_dealer_hand_step(
    dealer_hand: &mut DealerHand,
    shoe: &Vec<Card>,
    shoe_top: usize,
    rules: &HouseRules,
) -> (end: (usize, bool, bool))
    requires
        old(dealer_hand).wf(),
        spec_dealer_playable(old(dealer_hand)@),
        shoe_top <= shoe@.len(),
    ensures
        final(dealer_hand)@ == spec_dealer_step(
            old(dealer_hand)@,
            shoe@,
            shoe_top as nat,
            rules@,
        ).hand,
        end.0 == spec_dealer_step(old(dealer_hand)@, shoe@, shoe_top as nat, rules@).shoe_top,
        end.1 == spec_dealer_step(old(dealer_hand)@, shoe@, shoe_top as nat, rules@).again,
        end.2 == spec_dealer_step(old(dealer_hand)@, shoe@, shoe_top as nat, rules@).complete,
        final(dealer_hand).wf(),
        spec_dealer_playable(final(dealer_hand)@),
        shoe_top <= end.0 <= shoe@.len(),
        end.1 ==> shoe_top < end.0,
{
    if dealer_hand.is_hand_over() {
        return (shoe_top, false, true);
    }
    proof {
        lemma_totals_bounds(dealer_hand@.cards);
    }
    if dealer_hand.must_hit(rules) {
        if shoe_top >= shoe.len() {
            return (shoe_top, false, false);
        }
        let card = shoe[shoe_top];
        proof {
            lemma_totals_push(dealer_hand@.cards, card);
        }
        dealer_hand.hit(&card);
        let again = !dealer_hand.is_hand_over();
        (shoe_top + 1, again, true)
    } else {
        dealer_hand.stand();
        (shoe_top, false, true)
    }
}

/// Plays the dealer's turn and returns the place in the shoe after it, and
/// whether the turn came to its end: it did not if it needed a card that
/// the shoe did not have.
pub fn play_dealer_hand(
    dealer_hand: &mut DealerHand,
    shoe: &Vec<Card>,
    shoe_top: usize,
    rules: &HouseRules,
) -> (end: (usize, bool))
    requires
        old(dealer_hand).wf(),
        spec_dealer_playable(old(dealer_hand)@),
        shoe_top <= shoe@.len(),
    ensures
        final(dealer_hand)@ == spec_play_dealer_hand(
            old(dealer_hand)@,
            shoe@,
            shoe_top as nat,
            rules@,
        ).hand,
        end.0 == spec_play_dealer_hand(old(dealer_hand)@, shoe@, shoe_top as nat, rules@).shoe_top,
        end.1 == spec_play_dealer_hand(old(dealer_hand)@, shoe@, shoe_top as nat, rules@).complete,
        end.1 ==> final(dealer_hand)@.is_hand_over(),
        final(dealer_hand).wf(),
        shoe_top <= end.0 <= shoe@.len(),
{
    let ghost goal = spec_play_dealer_hand(old(dealer_hand)@, shoe@, shoe_top as nat, rules@);
    proof {
        lemma_play_dealer_hand_finishes(old(dealer_hand)@, shoe@, shoe_top as nat, rules@);
    }
    let mut top: usize = shoe_top;
    loop
        invariant
            dealer_hand.wf(),
            spec_dealer_playable(dealer_hand@),
            shoe_top <= top <= shoe@.len(),
            goal == spec_play_dealer_hand(old(dealer_hand)@, shoe@, shoe_top as nat, rules@),
            goal.complete ==> goal.hand.is_hand_over(),
            spec_play_dealer_hand(dealer_hand@, shoe@, top as nat, rules@) == goal,
        decreases shoe@.len() - top,
    {
        let (next_top, again, complete) = play_dealer_hand_step(dealer_hand, shoe, top, rules);
        if !again {
            return (next_top, complete);
        }
        top = next_top;
    }
}

impl MasterHandView {
    /// The wager with every hand standing.
    pub open spec fn stand_all(self) -> MasterHandView {
        MasterHandView { hands: self.hands.map_values(|hand: HandView| hand.stand()), ..self }
    }
}

impl PlayerView {
    /// The player with every hand of every wager standing.
    pub open spec fn stand_all(self) -> PlayerView {
        PlayerView {
            master_hands: self.master_hands.map_values(
                |master_hand: MasterHandView| master_hand.stand_all(),
            ),
            ..self
        }
    }
}

/// Whether every hand of the wager is in play.
pub open spec fn spec_wager_in_play(master_hand: MasterHandView) -> bool {
    forall|h: int|
        0 <= h < master_hand.hands.len() ==> !(#[trigger] master_hand.hands[h]).is_hand_over()
}

/// Whether every hand of the player is in play.
pub open spec fn spec_player_in_play(player: PlayerView) -> bool {
    forall|mh: int|
        0 <= mh < player.master_hands.len() ==> spec_wager_in_play(#[trigger] player.master_hands[mh])
}

/// Whether every hand on the table is in play.
pub open spec fn spec_table_in_play(players: Seq<PlayerView>) -> bool {
    forall|p: int| 0 <= p < players.len() ==> spec_player_in_play(#[trigger] players[p])
}

/// The player stands on every hand of the wager. All of them are in play.
pub fn stand_wager(master_hand: &mut PlayerMasterHand)
    requires
        spec_wager_in_play(old(master_hand)@),
    ensures
        final(master_hand)@ == old(master_hand)@.stand_all(),
        final(master_hand).hands@.len() == old(master_hand).hands@.len(),
        old(master_hand).wf() ==> final(master_hand).wf(),
{
    let hands: usize = master_hand.num_hands();
    let mut h: usize = 0;
    while h < hands
        invariant
            h <= hands,
            hands == old(master_hand).hands@.len(),
            master_hand.hands@.len() == hands,
            master_hand@.hands_limit == old(master_hand)@.hands_limit,
            old(master_hand).wf() ==> master_hand.wf(),
            spec_wager_in_play(old(master_hand)@),
            forall|j: int|
                0 <= j < h ==> #[trigger] master_hand@.hands[j] == old(
                    master_hand,
                )@.hands[j].stand(),
            forall|j: int|
                h <= j < hands ==> #[trigger] master_hand@.hands[j] == old(master_hand)@.hands[j],
        decreases hands - h,
    {
        let ghost before = master_hand@;
        assert(before.hands[h as int] == old(master_hand)@.hands[h as int]);
        stand_on(master_hand, h);
        proof {
            assert forall|j: int| 0 <= j < h implies #[trigger] master_hand@.hands[j] == old(
                master_hand,
            )@.hands[j].stand() by {
                assert(master_hand@.hands[j] == before.hands[j]);
            }
            assert forall|j: int| h + 1 <= j < hands implies #[trigger] master_hand@.hands[j]
                == old(master_hand)@.hands[j] by {
                assert(master_hand@.hands[j] == before.hands[j]);
            }
        }
        h += 1;
    }
    assert(master_hand@.hands =~= old(master_hand)@.stand_all().hands);
}

/// The player stands on every hand of every wager. All of them are in
/// play.
pub fn stand_player(player: &mut Player)
    requires
        spec_player_in_play(old(player)@),
    ensures
        final(player)@ == old(player)@.stand_all(),
        final(player).master_hands@.len() == old(player).master_hands@.len(),
        old(player).wf() ==> final(player).wf(),
{
    let wagers: usize = player.num_master_hands();
    let mut mh: usize = 0;
    while mh < wagers
        invariant
            mh <= wagers,
            wagers == old(player).master_hands@.len(),
            player.master_hands@.len() == wagers,
            player@.name == old(player)@.name,
            old(player).wf() ==> player.wf(),
            spec_player_in_play(old(player)@),
            forall|j: int|
                0 <= j < mh ==> #[trigger] player@.master_hands[j] == old(
                    player,
                )@.master_hands[j].stand_all(),
            forall|j: int|
                mh <= j < wagers ==> #[trigger] player@.master_hands[j] == old(
                    player,
                )@.master_hands[j],
        decreases wagers - mh,
    {
        let ghost before = player@;
        assert(before.master_hands[mh as int] == player.master_hands@[mh as int]@);
        assert(before.master_hands[mh as int] == old(player)@.master_hands[mh as int]);
        stand_wager(&mut player.master_hands[mh]);
        proof {
            assert(player@.master_hands[mh as int] == player.master_hands@[mh as int]@);
            assert forall|j: int| 0 <= j < mh implies #[trigger] player@.master_hands[j] == old(
                player,
            )@.master_hands[j].stand_all() by {
                assert(player@.master_hands[j] == before.master_hands[j]);
            }
            assert forall|j: int| mh + 1 <= j < wagers implies #[trigger] player@.master_hands[j]
                == old(player)@.master_hands[j] by {
                assert(player@.master_hands[j] == before.master_hands[j]);
            }
        }
        mh += 1;
    }
    assert(player@.master_hands =~= old(player)@.stand_all().master_hands);
}

/// How far the turns of the players at the table got.
pub struct TableTurn {
    pub players: Seq<PlayerView>,
    pub shoe_top: nat,
    pub complete: bool,
}

/// The turns of the first `count` players at the table, one player after
/// another. Once a turn is left incomplete, nothing more is played.
pub open spec fn spec_play_players(
    players: Seq<PlayerView>,
    count: nat,
    dealer_rank: CardRank,
    shoe: Seq<Card>,
    shoe_top: nat,
    rules: HouseRulesView,
) -> TableTurn
    decreases count,
{
    if count == 0 {
        TableTurn { players: players, shoe_top: shoe_top, complete: true }
    } else {
        let played = spec_play_players(
            players,
            (count - 1) as nat,
            dealer_rank,
            shoe,
            shoe_top,
            rules,
        );
        if played.complete {
            let player = played.players[count - 1];
            let turn = spec_play_player(
                player,
                player.master_hands.len(),
                dealer_rank,
                shoe,
                played.shoe_top,
                rules,
            );
            TableTurn {
                players: played.players.update(count - 1, turn.player),
                shoe_top: turn.shoe_top,
                complete: turn.complete,
            }
        } else {
            played
        }
    }
}

/// Once a turn at the table is left incomplete, the turns of more players
/// change nothing.
pub proof fn lemma_play_players_stops(
    players: Seq<PlayerView>,
    count: nat,
    more: nat,
    dealer_rank: CardRank,
    shoe: Seq<Card>,
    shoe_top: nat,
    rules: HouseRulesView,
)
    requires
        count <= more,
        !spec_play_players(players, count, dealer_rank, shoe, shoe_top, rules).complete,
    ensures
        spec_play_players(players, more, dealer_rank, shoe, shoe_top, rules) == spec_play_players(
            players,
            count,
            dealer_rank,
            shoe,
            shoe_top,
            rules,
        ),
    decreases more,
{
    if count < more {
        lemma_play_players_stops(
            players,
            count,
            (more - 1) as nat,
            dealer_rank,
            shoe,
            shoe_top,
            rules,
        );
    }
}

/// Whether every wager on the table is sound.
pub open spec fn spec_table_sound(players: Seq<PlayerView>) -> bool {
    forall|p: int| 0 <= p < players.len() ==> spec_player_sound(#[trigger] players[p])
}

/// Whether the table has the players as before, each with the wagers and
/// their limits as before.
pub open spec fn spec_same_table(before: Seq<PlayerView>, after: Seq<PlayerView>) -> bool {
    &&& after.len() == before.len()
    &&& forall|p: int| 0 <= p < before.len() ==> spec_same_limits(before[p], #[trigger] after[p])
}

/// Whether every hand on the table is one that a turn can be played on.
pub open spec fn spec_table_playable(players: Seq<PlayerView>) -> bool {
    forall|p: int| 0 <= p < players.len() ==> spec_player_playable(#[trigger] players[p])
}

/// The table after the dealer showed a natural: every hand of every player
/// stands.
pub open spec fn spec_stand_all(players: Seq<PlayerView>) -> Seq<PlayerView> {
    players.map_values(|player: PlayerView| player.stand_all())
}

impl BlackJack {
    /// Every player stands on every hand. All of them are in play.
    pub fn stand_all(&mut self)
        requires
            spec_table_in_play(old(self)@.players),
        ensures
            final(self)@.players == spec_stand_all(old(self)@.players),
            final(self).players@.len() == old(self).players@.len(),
            old(self).wf() ==> final(self).wf(),
            final(self).shoe == old(self).shoe,
            final(self).shoe_top == old(self).shoe_top,
            final(self).results == old(self).results,
            final(self).stats == old(self).stats,
    {
        let players: usize = self.players.len();
        let mut p: usize = 0;
        while p < players
            invariant
                p <= players,
                players == old(self).players@.len(),
                self.players@.len() == players,
                self.shoe == old(self).shoe,
                self.shoe_top == old(self).shoe_top,
                self.results == old(self).results,
                self.stats == old(self).stats,
                old(self).wf() ==> self.wf(),
                spec_table_in_play(old(self)@.players),
                forall|j: int|
                    0 <= j < p ==> #[trigger] self@.players[j] == old(self)@.players[j].stand_all(),
                forall|j: int| p <= j < players ==> #[trigger] self@.players[j] == old(
                    self,
                )@.players[j],
            decreases players - p,
        {
            let ghost before = self@.players;
            assert(before[p as int] == self.players@[p as int]@);
            assert(before[p as int] == old(self)@.players[p as int]);
            stand_player(&mut self.players[p]);
            proof {
                assert(self@.players[p as int] == self.players@[p as int]@);
                assert forall|j: int| 0 <= j < p implies #[trigger] self@.players[j] == old(
                    self,
                )@.players[j].stand_all() by {
                    assert(self@.players[j] == before[j]);
                }
                assert forall|j: int| p + 1 <= j < players implies #[trigger] self@.players[j]
                    == old(self)@.players[j] by {
                    assert(self@.players[j] == before[j]);
                }
            }
            p += 1;
        }
        assert(self@.players =~= spec_stand_all(old(self)@.players));
    }

    /// Plays the turns of all players against the dealer's up card, player
    /// after player, and says whether they came to their end.
    pub fn play_players(&mut self, dealer_top_card: &Card, rules: &HouseRules) -> (complete: bool)
        requires
            old(self).wf(),
            spec_table_playable(old(self)@.players),
        ensures
            final(self)@.players == spec_play_players(
                old(self)@.players,
                old(self)@.players.len(),
                dealer_top_card.rank,
                old(self)@.shoe,
                old(self)@.shoe_top,
                rules@,
            ).players,
            final(self)@.shoe_top == spec_play_players(
                old(self)@.players,
                old(self)@.players.len(),
                dealer_top_card.rank,
                old(self)@.shoe,
                old(self)@.shoe_top,
                rules@,
            ).shoe_top,
            complete == spec_play_players(
                old(self)@.players,
                old(self)@.players.len(),
                dealer_top_card.rank,
                old(self)@.shoe,
                old(self)@.shoe_top,
                rules@,
            ).complete,
            complete ==> spec_table_over(final(self)@.players),
            final(self).wf(),
            final(self).players@.len() == old(self).players@.len(),
            spec_same_table(old(self)@.players, final(self)@.players),
            spec_table_sound(old(self)@.players) ==> spec_table_sound(final(self)@.players),
            final(self).shoe == old(self).shoe,
            final(self).results == old(self).results,
            final(self).stats == old(self).stats,
    {
        let players: usize = self.players.len();
        let mut p: usize = 0;
        while p < players
            invariant
                p <= players,
                players == old(self).players@.len(),
                self.players@.len() == players,
                self.shoe == old(self).shoe,
                self.results == old(self).results,
                self.stats == old(self).stats,
                self.wf(),
                spec_same_table(old(self)@.players, self@.players),
                spec_table_sound(old(self)@.players) ==> spec_table_sound(self@.players),
                forall|j: int| 0 <= j < p ==> spec_player_over(#[trigger] self@.players[j]),
                forall|j: int| p <= j < players ==> spec_player_playable(#[trigger] self@.players[j]),
                spec_play_players(
                    old(self)@.players,
                    p as nat,
                    dealer_top_card.rank,
                    old(self)@.shoe,
                    old(self)@.shoe_top,
                    rules@,
                ) == (TableTurn {
                    players: self@.players,
                    shoe_top: self@.shoe_top,
                    complete: true,
                }),
            decreases players - p,
        {
            let ghost before = self@.players;
            assert(before[p as int] == self.players@[p as int]@);
            let (next_top, complete) = play_player(
                &mut self.players[p],
                dealer_top_card,
                &self.shoe,
                self.shoe_top,
                rules,
            );
            self.shoe_top = next_top;
            proof {
                assert(self@.players =~= before.update(p as int, self.players@[p as int]@));
                assert forall|j: int| p + 1 <= j < players implies spec_player_playable(
                    #[trigger] self@.players[j],
                ) by {
                    assert(self@.players[j] == before[j]);
                }
                assert forall|j: int| 0 <= j < players implies spec_same_limits(
                    old(self)@.players[j],
                    #[trigger] self@.players[j],
                ) by {
                    if j != p {
                        assert(self@.players[j] == before[j]);
                    }
                }
                if spec_table_sound(old(self)@.players) {
                    assert forall|j: int| 0 <= j < players implies spec_player_sound(
                        #[trigger] self@.players[j],
                    ) by {
                        if j != p {
                            assert(self@.players[j] == before[j]);
                        }
                    }
                }
                if complete {
                    assert forall|j: int| 0 <= j < p + 1 implies spec_player_over(
                        #[trigger] self@.players[j],
                    ) by {
                        if j != p {
                            assert(self@.players[j] == before[j]);
                        }
                    }
                }
            }
            p += 1;
            if !complete {
                proof {
                    lemma_play_players_stops(
                        old(self)@.players,
                        p as nat,
                        players as nat,
                        dealer_top_card.rank,
                        old(self)@.shoe,
                        old(self)@.shoe_top,
                        rules@,
                    );
                }
                return false;
            }
        }
        true
    }
}

} // verus!
